use dungeon::dungeon::{
    apply_command, destroy_tile, destroy_tile_rect, drain, gen_dungeon_init, spawn_tile, Dungeon,
};
use dungeon::error::LvlError;
use dungeon::material::{MaterialType, MaterialTypes};
use dungeon::tile::{
    CmdDestroyTile, CmdDestroyTileRect, CmdLvlInit, CmdSpawnTile, Command, Material, TileBundle,
    TileEvent,
};

const STONE: usize = 0;
const DIRT: usize = 1;
const WOOD: usize = 2;

fn defaults() -> MaterialTypes {
    MaterialTypes::with_defaults(1, 2, 3, 4)
}

fn spawn(pos: [usize; 3], mat: usize) -> CmdSpawnTile {
    CmdSpawnTile { pos, mat }
}

fn tile(pos: [usize; 3], mat: usize) -> TileBundle {
    TileBundle { mat: Material { id: mat }, solid: true, opaque: true, pos }
}

fn all_stone(size: [usize; 3]) -> Dungeon {
    let mats = defaults();
    let mut d = Dungeon::new(size).unwrap();
    for x in 0..size[0] {
        for y in 0..size[1] {
            for z in 0..size[2] {
                assert_eq!(spawn_tile(&mut d, &spawn([x, y, z], STONE), &mats), Ok(()));
            }
        }
    }
    d
}

fn count_tiles(d: &Dungeon) -> usize {
    let size = d.level().size();
    let mut n = 0;
    for x in 0..size[0] {
        for y in 0..size[1] {
            for z in 0..size[2] {
                if d.get([x, y, z]).unwrap().is_some() {
                    n += 1;
                }
            }
        }
    }
    n
}

#[test]
fn new_dungeon_is_empty() {
    let d = Dungeon::new([4, 4, 4]).unwrap();
    assert_eq!(d.level().size(), [4, 4, 4]);
    assert_eq!(count_tiles(&d), 0);
    assert_eq!(d.pending_len(), 0);
    assert!(Dungeon::new([4, 0, 4]).is_none());
}

#[test]
fn tile_bundle_is_tagged_solid_and_opaque() {
    let granite = MaterialType { id: 9, name: "Granite".to_owned(), mesh: 0, material: 0 };
    let t = TileBundle::new([1, 2, 3], &granite);
    assert_eq!(t, tile([1, 2, 3], 9));
    assert!(t.solid);
    assert!(t.opaque);
}

#[test]
fn spawn_destroy_and_region_scenario() {
    let mats = defaults();
    let mut d = Dungeon::new([4, 4, 4]).unwrap();
    assert_eq!(spawn_tile(&mut d, &spawn([1, 1, 1], STONE), &mats), Ok(()));
    assert!(d.get([1, 1, 1]).unwrap().is_some());
    assert_eq!(d.tile([1, 1, 1]), Ok(Some(tile([1, 1, 1], STONE))));
    assert_eq!(destroy_tile(&mut d, &CmdDestroyTile { pos: [1, 1, 1] }), Ok(()));
    assert_eq!(d.get([1, 1, 1]), Ok(None));

    let mut full = all_stone([4, 4, 4]);
    assert_eq!(count_tiles(&full), 64);
    let rect = CmdDestroyTileRect { min: [0, 0, 0], max: [3, 3, 3] };
    assert_eq!(destroy_tile_rect(&mut full, &rect), Ok(()));
    for x in 0..4 {
        for y in 0..4 {
            for z in 0..4 {
                assert_eq!(full.get([x, y, z]), Ok(None));
                assert_eq!(full.tile([x, y, z]), Ok(None));
            }
        }
    }
}

#[test]
fn spawn_then_destroy_leaves_the_cell_empty() {
    let mats = defaults();
    for pos in [[0, 0, 0], [3, 0, 1], [2, 1, 0], [3, 1, 1]] {
        let mut d = Dungeon::new([4, 2, 2]).unwrap();
        spawn_tile(&mut d, &spawn(pos, DIRT), &mats).unwrap();
        destroy_tile(&mut d, &CmdDestroyTile { pos }).unwrap();
        assert_eq!(d.get(pos), Ok(None));
        assert_eq!(count_tiles(&d), 0);
    }
}

#[test]
fn second_spawn_on_a_cell_is_a_no_op() {
    let mats = defaults();
    let mut d = Dungeon::new([4, 4, 4]).unwrap();
    spawn_tile(&mut d, &spawn([2, 3, 1], WOOD), &mats).unwrap();
    let first = d.get([2, 3, 1]).unwrap();
    assert!(first.is_some());
    assert_eq!(spawn_tile(&mut d, &spawn([2, 3, 1], STONE), &mats), Ok(()));
    assert_eq!(d.get([2, 3, 1]).unwrap(), first);
    assert_eq!(d.tile([2, 3, 1]), Ok(Some(tile([2, 3, 1], WOOD))));
    assert_eq!(count_tiles(&d), 1);
    let events = d.take_events();
    assert_eq!(
        events,
        vec![TileEvent::Spawned { id: first.unwrap(), tile: tile([2, 3, 1], WOOD) }]
    );
}

#[test]
fn spawn_on_an_occupied_cell_does_not_look_at_the_material() {
    let mats = defaults();
    let mut d = Dungeon::new([2, 2, 2]).unwrap();
    spawn_tile(&mut d, &spawn([0, 0, 0], STONE), &mats).unwrap();
    assert_eq!(spawn_tile(&mut d, &spawn([0, 0, 0], 99), &mats), Ok(()));
    assert_eq!(d.tile([0, 0, 0]), Ok(Some(tile([0, 0, 0], STONE))));
}

#[test]
fn spawn_of_an_unknown_material_is_refused() {
    let mats = defaults();
    let mut d = Dungeon::new([2, 2, 2]).unwrap();
    assert_eq!(spawn_tile(&mut d, &spawn([1, 1, 1], 3), &mats), Err(LvlError::UnknownMaterial));
    assert_eq!(d.get([1, 1, 1]), Ok(None));
    assert!(d.take_events().is_empty());
}

#[test]
fn spawn_outside_the_level_is_refused() {
    let mats = defaults();
    let mut d = Dungeon::new([4, 4, 4]).unwrap();
    assert_eq!(spawn_tile(&mut d, &spawn([4, 0, 0], STONE), &mats), Err(LvlError::OutOfBounds));
    assert_eq!(spawn_tile(&mut d, &spawn([0, 0, 4], 99), &mats), Err(LvlError::OutOfBounds));
    assert_eq!(count_tiles(&d), 0);
    assert_eq!(d.get([4, 0, 0]), Err(LvlError::OutOfBounds));
    assert_eq!(d.tile([4, 0, 0]), Err(LvlError::OutOfBounds));
}

#[test]
fn destroy_of_an_empty_cell_is_a_no_op() {
    let mut d = Dungeon::new([2, 2, 2]).unwrap();
    assert_eq!(destroy_tile(&mut d, &CmdDestroyTile { pos: [1, 0, 1] }), Ok(()));
    assert_eq!(d.get([1, 0, 1]), Ok(None));
    assert!(d.take_events().is_empty());
    assert_eq!(
        destroy_tile(&mut d, &CmdDestroyTile { pos: [2, 0, 0] }),
        Err(LvlError::OutOfBounds)
    );
}

#[test]
fn region_destroy_clears_the_box_and_nothing_else() {
    let mut d = all_stone([4, 3, 5]);
    destroy_tile(&mut d, &CmdDestroyTile { pos: [2, 1, 2] }).unwrap();
    let before: Vec<Option<usize>> = cells(&d);
    let rect = CmdDestroyTileRect { min: [1, 0, 2], max: [2, 1, 3] };
    assert_eq!(destroy_tile_rect(&mut d, &rect), Ok(()));
    let after = cells(&d);
    let mut k = 0;
    for x in 0..4 {
        for y in 0..3 {
            for z in 0..5 {
                let inside = (1..=2).contains(&x) && (0..=1).contains(&y) && (2..=3).contains(&z);
                if inside {
                    assert_eq!(after[k], None);
                } else {
                    assert_eq!(after[k], before[k]);
                    assert!(after[k].is_some());
                }
                k += 1;
            }
        }
    }
    assert_eq!(count_tiles(&d), 60 - 8);
}

fn cells(d: &Dungeon) -> Vec<Option<usize>> {
    let size = d.level().size();
    let mut out = Vec::new();
    for x in 0..size[0] {
        for y in 0..size[1] {
            for z in 0..size[2] {
                out.push(d.get([x, y, z]).unwrap());
            }
        }
    }
    out
}

#[test]
fn region_destroy_reports_tiles_in_ascending_x_then_y_then_z() {
    let mut d = all_stone([3, 3, 3]);
    d.take_events();
    let id = |d: &Dungeon, pos: [usize; 3]| d.get(pos).unwrap().unwrap();
    let expected = vec![
        TileEvent::Despawned { id: id(&d, [0, 1, 1]) },
        TileEvent::Despawned { id: id(&d, [0, 1, 2]) },
        TileEvent::Despawned { id: id(&d, [0, 2, 1]) },
        TileEvent::Despawned { id: id(&d, [0, 2, 2]) },
        TileEvent::Despawned { id: id(&d, [1, 1, 1]) },
        TileEvent::Despawned { id: id(&d, [1, 1, 2]) },
        TileEvent::Despawned { id: id(&d, [1, 2, 1]) },
        TileEvent::Despawned { id: id(&d, [1, 2, 2]) },
    ];
    let rect = CmdDestroyTileRect { min: [0, 1, 1], max: [1, 2, 2] };
    destroy_tile_rect(&mut d, &rect).unwrap();
    assert_eq!(d.take_events(), expected);
}

#[test]
fn region_destroy_of_a_single_cell() {
    let mut d = all_stone([2, 2, 2]);
    let rect = CmdDestroyTileRect { min: [1, 0, 1], max: [1, 0, 1] };
    assert_eq!(destroy_tile_rect(&mut d, &rect), Ok(()));
    assert_eq!(d.get([1, 0, 1]), Ok(None));
    assert_eq!(count_tiles(&d), 7);
}

#[test]
fn region_destroy_refuses_bad_corners() {
    let mut d = all_stone([4, 4, 4]);
    let cases = [
        CmdDestroyTileRect { min: [0, 0, 0], max: [4, 3, 3] },
        CmdDestroyTileRect { min: [0, 4, 0], max: [3, 3, 3] },
        CmdDestroyTileRect { min: [2, 0, 0], max: [1, 3, 3] },
        CmdDestroyTileRect { min: [0, 2, 0], max: [3, 1, 3] },
        CmdDestroyTileRect { min: [0, 0, 3], max: [3, 3, 2] },
    ];
    for rect in cases {
        assert_eq!(destroy_tile_rect(&mut d, &rect), Err(LvlError::OutOfBounds));
        assert_eq!(count_tiles(&d), 64);
    }
}

#[test]
fn identity_of_a_destroyed_tile_is_never_handed_out_again() {
    let mats = defaults();
    let mut d = Dungeon::new([2, 2, 2]).unwrap();
    spawn_tile(&mut d, &spawn([0, 0, 0], STONE), &mats).unwrap();
    spawn_tile(&mut d, &spawn([1, 0, 0], DIRT), &mats).unwrap();
    let a = d.get([0, 0, 0]).unwrap().unwrap();
    let b = d.get([1, 0, 0]).unwrap().unwrap();
    assert_eq!((a, b), (0, 1));
    destroy_tile(&mut d, &CmdDestroyTile { pos: [0, 0, 0] }).unwrap();
    spawn_tile(&mut d, &spawn([1, 1, 1], WOOD), &mats).unwrap();
    let c = d.get([1, 1, 1]).unwrap().unwrap();
    assert_eq!(c, 2);
    assert!(c != a && c != b);
    assert_eq!(d.tile([1, 1, 1]), Ok(Some(tile([1, 1, 1], WOOD))));
    assert_eq!(d.tile([1, 0, 0]), Ok(Some(tile([1, 0, 0], DIRT))));
    let mut seen = vec![a, b, c];
    for round in 0..5 {
        destroy_tile(&mut d, &CmdDestroyTile { pos: [1, 1, 1] }).unwrap();
        spawn_tile(&mut d, &spawn([1, 1, 1], round % 3), &mats).unwrap();
        let next = d.get([1, 1, 1]).unwrap().unwrap();
        assert!(!seen.contains(&next));
        seen.push(next);
    }
    assert_eq!(seen, vec![0, 1, 2, 3, 4, 5, 6, 7]);
}

#[test]
fn destroy_then_spawn_at_one_cell_gives_a_new_identity() {
    let mats = defaults();
    let mut d = Dungeon::new([4, 4, 4]).unwrap();
    spawn_tile(&mut d, &spawn([2, 1, 3], STONE), &mats).unwrap();
    let old = d.get([2, 1, 3]).unwrap().unwrap();
    destroy_tile(&mut d, &CmdDestroyTile { pos: [2, 1, 3] }).unwrap();
    spawn_tile(&mut d, &spawn([2, 1, 3], WOOD), &mats).unwrap();
    let new = d.get([2, 1, 3]).unwrap().unwrap();
    assert_ne!(new, old);
    assert_eq!(d.tile([2, 1, 3]), Ok(Some(tile([2, 1, 3], WOOD))));
    assert_eq!(
        d.take_events(),
        vec![
            TileEvent::Spawned { id: old, tile: tile([2, 1, 3], STONE) },
            TileEvent::Despawned { id: old },
            TileEvent::Spawned { id: new, tile: tile([2, 1, 3], WOOD) },
        ]
    );
}

#[test]
fn drained_destroy_then_spawn_gives_a_new_identity() {
    let mats = defaults();
    let mut d = Dungeon::new([4, 4, 4]).unwrap();
    spawn_tile(&mut d, &spawn([1, 1, 1], STONE), &mats).unwrap();
    let old = d.get([1, 1, 1]).unwrap().unwrap();
    d.submit(Command::Destroy(CmdDestroyTile { pos: [1, 1, 1] }));
    d.submit(Command::Spawn(spawn([1, 1, 1], DIRT)));
    assert_eq!(drain(&mut d, &mats), Ok(()));
    assert_eq!(d.pending_len(), 0);
    let new = d.get([1, 1, 1]).unwrap().unwrap();
    assert_ne!(new, old);
    assert_eq!(d.tile([1, 1, 1]), Ok(Some(tile([1, 1, 1], DIRT))));
}

#[test]
fn populating_after_a_region_destroy_uses_new_identities() {
    let mats = defaults();
    let size = [2, 2, 2];
    let mut d = all_stone(size);
    let before = cells(&d);
    destroy_tile_rect(&mut d, &CmdDestroyTileRect { min: [0, 0, 0], max: [1, 1, 1] }).unwrap();
    let init = CmdLvlInit { seed: 0, samples: vec![0.5f32.to_bits(); 8] };
    gen_dungeon_init(&mut d, &init, &mats).unwrap();
    let after = cells(&d);
    for id in &after {
        assert!(id.is_some());
        assert!(!before.contains(id));
    }
    assert_eq!(after, (8..16).map(Some).collect::<Vec<_>>());
}

#[test]
fn events_tell_what_came_and_went() {
    let mats = defaults();
    let mut d = Dungeon::new([2, 2, 2]).unwrap();
    spawn_tile(&mut d, &spawn([0, 1, 0], DIRT), &mats).unwrap();
    let id = d.get([0, 1, 0]).unwrap().unwrap();
    destroy_tile(&mut d, &CmdDestroyTile { pos: [0, 1, 0] }).unwrap();
    assert_eq!(
        d.take_events(),
        vec![
            TileEvent::Spawned { id, tile: tile([0, 1, 0], DIRT) },
            TileEvent::Despawned { id },
        ]
    );
    assert!(d.take_events().is_empty());
}

fn field(size: [usize; 3], value: impl Fn(usize, usize, usize) -> f32) -> Vec<u32> {
    let mut out = Vec::new();
    for x in 0..size[0] {
        for y in 0..size[1] {
            for z in 0..size[2] {
                out.push(value(x, y, z).to_bits());
            }
        }
    }
    out
}

#[test]
fn init_gives_every_cell_the_material_of_its_sample() {
    let mats = defaults();
    let size = [3, 2, 4];
    let value = |x: usize, y: usize, z: usize| match (x + 2 * y + 3 * z) % 3 {
        0 => 0.01,
        1 => 0.1,
        _ => 0.7,
    };
    let init = CmdLvlInit { seed: 1, samples: field(size, value) };
    let mut d = Dungeon::new(size).unwrap();
    assert_eq!(gen_dungeon_init(&mut d, &init, &mats), Ok(()));
    for x in 0..3 {
        for y in 0..2 {
            for z in 0..4 {
                let mat = match (x + 2 * y + 3 * z) % 3 {
                    0 => WOOD,
                    1 => DIRT,
                    _ => STONE,
                };
                assert_eq!(d.tile([x, y, z]), Ok(Some(tile([x, y, z], mat))));
            }
        }
    }
    assert_eq!(count_tiles(&d), 24);
    assert_eq!(d.take_events().len(), 24);
}

#[test]
fn init_visits_cells_in_ascending_x_then_y_then_z() {
    let mats = defaults();
    let size = [2, 2, 2];
    let init = CmdLvlInit { seed: 0, samples: field(size, |_, _, _| 0.5) };
    let mut d = Dungeon::new(size).unwrap();
    gen_dungeon_init(&mut d, &init, &mats).unwrap();
    let order: Vec<[usize; 3]> = d
        .take_events()
        .iter()
        .map(|e| match e {
            TileEvent::Spawned { tile, .. } => tile.pos,
            TileEvent::Despawned { .. } => panic!("nothing was destroyed"),
        })
        .collect();
    assert_eq!(
        order,
        vec![
            [0, 0, 0],
            [0, 0, 1],
            [0, 1, 0],
            [0, 1, 1],
            [1, 0, 0],
            [1, 0, 1],
            [1, 1, 0],
            [1, 1, 1],
        ]
    );
}

#[test]
fn init_keeps_tiles_that_are_already_there() {
    let mats = defaults();
    let size = [2, 2, 2];
    let mut d = Dungeon::new(size).unwrap();
    spawn_tile(&mut d, &spawn([1, 0, 1], WOOD), &mats).unwrap();
    let kept = d.get([1, 0, 1]).unwrap();
    let init = CmdLvlInit { seed: 0, samples: field(size, |_, _, _| 0.9) };
    gen_dungeon_init(&mut d, &init, &mats).unwrap();
    assert_eq!(d.get([1, 0, 1]).unwrap(), kept);
    assert_eq!(d.tile([1, 0, 1]), Ok(Some(tile([1, 0, 1], WOOD))));
    assert_eq!(d.tile([0, 0, 0]), Ok(Some(tile([0, 0, 0], STONE))));
    assert_eq!(count_tiles(&d), 8);
}

#[test]
fn init_with_a_field_of_the_wrong_length_is_refused() {
    let mats = defaults();
    let mut d = Dungeon::new([2, 2, 2]).unwrap();
    let short = CmdLvlInit { seed: 0, samples: vec![0; 7] };
    assert_eq!(gen_dungeon_init(&mut d, &short, &mats), Err(LvlError::FieldMismatch));
    let long = CmdLvlInit { seed: 0, samples: vec![0; 9] };
    assert_eq!(gen_dungeon_init(&mut d, &long, &mats), Err(LvlError::FieldMismatch));
    assert_eq!(count_tiles(&d), 0);
}

#[test]
fn init_without_the_three_materials_is_refused() {
    let mut mats = MaterialTypes::new();
    mats.register(MaterialType { id: 0, name: "Stone".to_owned(), mesh: 0, material: 0 }).unwrap();
    mats.register(MaterialType { id: 1, name: "Dirt".to_owned(), mesh: 0, material: 0 }).unwrap();
    let mut d = Dungeon::new([2, 2, 2]).unwrap();
    let init = CmdLvlInit { seed: 0, samples: vec![0; 8] };
    assert_eq!(gen_dungeon_init(&mut d, &init, &mats), Err(LvlError::UnknownMaterial));
    assert_eq!(count_tiles(&d), 0);
    mats.register(MaterialType { id: 5, name: "Wood".to_owned(), mesh: 0, material: 0 }).unwrap();
    assert_eq!(gen_dungeon_init(&mut d, &init, &mats), Ok(()));
    assert_eq!(d.tile([0, 0, 0]), Ok(Some(tile([0, 0, 0], 5))));
}

#[test]
fn materials_of_the_classes_are_found_by_name_not_by_id() {
    let mut mats = MaterialTypes::new();
    mats.register(MaterialType { id: 30, name: "Wood".to_owned(), mesh: 0, material: 0 }).unwrap();
    mats.register(MaterialType { id: 20, name: "Stone".to_owned(), mesh: 0, material: 0 }).unwrap();
    mats.register(MaterialType { id: 10, name: "Dirt".to_owned(), mesh: 0, material: 0 }).unwrap();
    let size = [1, 1, 3];
    let samples = vec![0.0f32.to_bits(), 0.05f32.to_bits(), 0.25f32.to_bits()];
    let mut d = Dungeon::new(size).unwrap();
    gen_dungeon_init(&mut d, &CmdLvlInit { seed: 0, samples }, &mats).unwrap();
    assert_eq!(d.tile([0, 0, 0]), Ok(Some(tile([0, 0, 0], 30))));
    assert_eq!(d.tile([0, 0, 1]), Ok(Some(tile([0, 0, 1], 10))));
    assert_eq!(d.tile([0, 0, 2]), Ok(Some(tile([0, 0, 2], 20))));
}

#[test]
fn drain_applies_commands_in_submission_order() {
    let mats = defaults();
    let mut d = Dungeon::new([4, 4, 4]).unwrap();
    d.submit(Command::Spawn(spawn([1, 1, 1], STONE)));
    d.submit(Command::Destroy(CmdDestroyTile { pos: [1, 1, 1] }));
    d.submit(Command::Spawn(spawn([1, 1, 1], WOOD)));
    assert_eq!(d.pending_len(), 3);
    assert_eq!(d.get([1, 1, 1]), Ok(None));
    assert_eq!(drain(&mut d, &mats), Ok(()));
    assert_eq!(d.pending_len(), 0);
    assert_eq!(d.tile([1, 1, 1]), Ok(Some(tile([1, 1, 1], WOOD))));

    let mut e = Dungeon::new([4, 4, 4]).unwrap();
    e.submit(Command::Spawn(spawn([1, 1, 1], STONE)));
    e.submit(Command::Spawn(spawn([1, 1, 1], WOOD)));
    e.submit(Command::Destroy(CmdDestroyTile { pos: [1, 1, 1] }));
    assert_eq!(drain(&mut e, &mats), Ok(()));
    assert_eq!(e.get([1, 1, 1]), Ok(None));
    assert_eq!(e.take_events().len(), 2);
}

#[test]
fn drain_skips_commands_outside_the_level() {
    let mats = defaults();
    let mut d = Dungeon::new([2, 2, 2]).unwrap();
    d.submit(Command::Spawn(spawn([2, 0, 0], STONE)));
    d.submit(Command::Destroy(CmdDestroyTile { pos: [0, 0, 9] }));
    d.submit(Command::DestroyRect(CmdDestroyTileRect { min: [1, 1, 1], max: [0, 0, 0] }));
    d.submit(Command::Init(CmdLvlInit { seed: 0, samples: vec![] }));
    d.submit(Command::Spawn(spawn([1, 1, 1], DIRT)));
    assert_eq!(drain(&mut d, &mats), Ok(()));
    assert_eq!(d.pending_len(), 0);
    assert_eq!(count_tiles(&d), 1);
    assert_eq!(d.tile([1, 1, 1]), Ok(Some(tile([1, 1, 1], DIRT))));
}

#[test]
fn drain_stops_at_an_unknown_material() {
    let mats = defaults();
    let mut d = Dungeon::new([2, 2, 2]).unwrap();
    d.submit(Command::Spawn(spawn([0, 0, 0], STONE)));
    d.submit(Command::Spawn(spawn([0, 0, 1], 42)));
    d.submit(Command::Spawn(spawn([0, 1, 0], DIRT)));
    d.submit(Command::Destroy(CmdDestroyTile { pos: [0, 0, 0] }));
    assert_eq!(drain(&mut d, &mats), Err(LvlError::UnknownMaterial));
    assert_eq!(d.pending_len(), 2);
    assert_eq!(d.tile([0, 0, 0]), Ok(Some(tile([0, 0, 0], STONE))));
    assert_eq!(d.get([0, 0, 1]), Ok(None));
    assert_eq!(d.get([0, 1, 0]), Ok(None));
    assert_eq!(drain(&mut d, &mats), Ok(()));
    assert_eq!(d.pending_len(), 0);
    assert_eq!(d.get([0, 0, 0]), Ok(None));
    assert_eq!(d.tile([0, 1, 0]), Ok(Some(tile([0, 1, 0], DIRT))));
}

#[test]
fn drain_of_an_empty_queue_changes_nothing() {
    let mats = defaults();
    let mut d = all_stone([2, 2, 2]);
    let before = cells(&d);
    assert_eq!(drain(&mut d, &mats), Ok(()));
    assert_eq!(cells(&d), before);
}

#[test]
fn drained_commands_match_direct_application() {
    let mats = defaults();
    let size = [3, 3, 3];
    let commands = || {
        vec![
            Command::Init(CmdLvlInit { seed: 3, samples: field(size, |x, _, _| x as f32 * 0.12) }),
            Command::DestroyRect(CmdDestroyTileRect { min: [0, 0, 0], max: [1, 2, 1] }),
            Command::Spawn(spawn([0, 0, 0], WOOD)),
            Command::Destroy(CmdDestroyTile { pos: [2, 2, 2] }),
        ]
    };
    let mut queued = Dungeon::new(size).unwrap();
    for cmd in commands() {
        queued.submit(cmd);
    }
    drain(&mut queued, &mats).unwrap();
    let mut direct = Dungeon::new(size).unwrap();
    for cmd in commands() {
        apply_command(&mut direct, &cmd, &mats).unwrap();
    }
    assert_eq!(cells(&queued), cells(&direct));
    assert_eq!(queued.take_events(), direct.take_events());
    assert_eq!(queued.tile([0, 0, 0]), Ok(Some(tile([0, 0, 0], WOOD))));
    assert_eq!(queued.tile([2, 0, 0]), Ok(Some(tile([2, 0, 0], DIRT))));
    assert_eq!(queued.get([2, 2, 2]), Ok(None));
    assert_eq!(queued.get([1, 1, 1]), Ok(None));
    assert_eq!(queued.tile([1, 1, 2]), Ok(Some(tile([1, 1, 2], DIRT))));
}
