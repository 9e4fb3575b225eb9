//! The level that commands act on: the grid, the live tiles behind its
//! identities, the queue of pending commands and the events not yet
//! collected.

use crate::error::LvlError;
use crate::level::{cell, valid_extent, within, Level};
use crate::material::{lemma_find_id, MaterialType, MaterialTypes};
use crate::terrain::{class_ids, classify, ClassIds, TerrainClass};
use crate::tile::{
    CmdDestroyTile, CmdDestroyTileRect, CmdLvlInit, CmdSpawnTile, Command, TileBundle, TileEvent,
};
use crate::world::World;
use vstd::prelude::*;

verus! {

/// A level together with its live tiles and its pending commands. Every
/// tile gets an identity of its own: the identity of a tile that is gone
/// is not given to a later one.
pub struct Dungeon {
    lvl: Level,
    tiles: Vec<Option<TileBundle>>,
    queue: Vec<Command>,
    events: Vec<TileEvent>,
}

impl View for Dungeon {
    type V = World;

    closed spec fn view(&self) -> World {
        World {
            size: self.lvl.spec_size(),
            cells: self.lvl@,
            tiles: self.tiles@,
            events: self.events@,
        }
    }
}

impl Dungeon {
    /// The grid is well formed and corresponds to the live tiles.
    pub closed spec fn wf(&self) -> bool {
        self.lvl.wf() && self@.inv()
    }

    /// The commands that wait to be applied, in the order in which they
    /// were submitted.
    pub closed spec fn pending(&self) -> Seq<Command> {
        self.queue@
    }

    /// In every well-formed dungeon cells and live tiles correspond one to
    /// one: an occupied cell names a live tile that stands in that cell,
    /// and every live tile is the occupant of the cell it stands in.
    pub proof fn law_one_to_one(&self)
        requires
            self.wf(),
        ensures
            self@.inv(),
    {
    }

    /// A dungeon of the given extent without tiles, commands or events,
    /// or `None` where no level of that extent can exist.
    pub fn new(size: [usize; 3]) -> (r: Option<Dungeon>)
        ensures
            r is Some <==> valid_extent(size),
            r matches Some(d) ==> d.wf() && d@ == World::empty(size) && d.pending()
                == Seq::<Command>::empty(),
    {
        match Level::new(size) {
            Some(lvl) => {
                let d = Dungeon {
                    lvl,
                    tiles: Vec::new(),
                    queue: Vec::new(),
                    events: Vec::new(),
                };
                proof {
                    d.lvl.lemma_domain();
                    assert(d@.cells =~= World::empty(size).cells) by {
                        assert forall|c: (int, int, int)|
                            d@.cells.dom().contains(c) implies d@.cells[c] == None::<usize> by {
                            let pos: [usize; 3] = [c.0 as usize, c.1 as usize, c.2 as usize];
                            assert(cell(pos) == c);
                        }
                    }
                }
                Some(d)
            },
            None => None,
        }
    }

    /// The grid of the dungeon.
    pub fn level(&self) -> (lvl: &Level)
        ensures
            lvl@ == self@.cells,
            lvl.spec_size() == self@.size,
            self.wf() ==> lvl.wf(),
    {
        &self.lvl
    }

    /// The identity of the tile in the cell at `pos`. A coordinate
    /// outside the level is refused.
    pub fn get(&self, pos: [usize; 3]) -> (r: Result<Option<usize>, LvlError>)
        requires
            self.wf(),
        ensures
            within(self@.size, pos) ==> r == Ok::<Option<usize>, LvlError>(self@.cells[cell(pos)]),
            !within(self@.size, pos) ==> r == Err::<Option<usize>, LvlError>(LvlError::OutOfBounds),
    {
        self.lvl.get(pos)
    }

    /// The tile in the cell at `pos`: its material and whether it blocks
    /// movement and sight. A coordinate outside the level is refused.
    pub fn tile(&self, pos: [usize; 3]) -> (r: Result<Option<TileBundle>, LvlError>)
        requires
            self.wf(),
        ensures
            within(self@.size, pos) ==> r == Ok::<Option<TileBundle>, LvlError>(self@.tile_at(pos)),
            !within(self@.size, pos) ==> r == Err::<Option<TileBundle>, LvlError>(
                LvlError::OutOfBounds,
            ),
    {
        match self.lvl.get(pos) {
            Ok(Some(id)) => {
                Ok(self.tiles[id])
            },
            Ok(None) => Ok(None),
            Err(e) => Err(e),
        }
    }

    /// Appends a command to the queue. It takes effect with the next
    /// drain.
    pub fn submit(&mut self, cmd: Command)
        requires
            old(self).wf(),
        ensures
            final(self).wf(),
            final(self)@ == old(self)@,
            final(self).pending() == old(self).pending().push(cmd),
    {
        self.queue.push(cmd);
    }

    /// The number of commands that wait to be applied.
    pub fn pending_len(&self) -> (n: usize)
        ensures
            n == self.pending().len(),
    {
        self.queue.len()
    }

    /// Hands out the events since the last call, oldest first.
    pub fn take_events(&mut self) -> (r: Vec<TileEvent>)
        requires
            old(self).wf(),
        ensures
            final(self).wf(),
            r@ == old(self)@.events,
            final(self)@ == (World { events: Seq::empty(), ..old(self)@ }),
            final(self).pending() == old(self).pending(),
    {
        let mut out: Vec<TileEvent> = Vec::new();
        core::mem::swap(&mut self.events, &mut out);
        out
    }

    /// Puts a new tile of material `mat` into the empty cell at `pos`.
    fn place(&mut self, pos: [usize; 3], mat: &MaterialType)
        requires
            old(self).wf(),
            within(old(self)@.size, pos),
            old(self)@.cells[cell(pos)] is None,
        ensures
            final(self).wf(),
            final(self)@ == old(self)@.place(pos, mat.id),
            final(self).pending() == old(self).pending(),
    {
        let tile = TileBundle::new(pos, mat);
        let id: usize = self.tiles.len();
        self.tiles.push(Some(tile));
        let _ = self.lvl.set(pos, Some(id));
        self.events.push(TileEvent::Spawned { id, tile });
        proof {
            assert(self.tiles.len() == self.tiles@.len());
            old(self)@.lemma_place_inv(pos, mat.id);
        }
    }

    /// Puts a new tile of material `mat` into the cell at `pos` where it
    /// is empty.
    fn settle(&mut self, pos: [usize; 3], mat: &MaterialType)
        requires
            old(self).wf(),
            within(old(self)@.size, pos),
        ensures
            final(self).wf(),
            final(self)@ == old(self)@.settle(pos, mat.id),
            final(self).pending() == old(self).pending(),
    {
        match self.lvl.get(pos) {
            Ok(None) => {
                self.place(pos, mat);
            },
            _ => {},
        }
    }

    /// Removes the tile in the cell at `pos`, if there is one.
    fn clear(&mut self, pos: [usize; 3])
        requires
            old(self).wf(),
            within(old(self)@.size, pos),
        ensures
            final(self).wf(),
            final(self)@ == old(self)@.destroy(pos),
            final(self).pending() == old(self).pending(),
    {
        let held = self.lvl.get(pos);
        match held {
            Ok(Some(id)) => {
                proof {
                    old(self)@.lemma_destroy_inv(pos);
                }
                self.tiles.set(id, None);
                let _ = self.lvl.set(pos, None);
                self.events.push(TileEvent::Despawned { id });
            },
            _ => {},
        }
    }
}

/// Applies a spawn: a new tile where the cell is inside the level and
/// empty and the material is registered. An occupied cell is left as it
/// is, without error.
pub fn spawn_tile(world: &mut Dungeon, spawn: &CmdSpawnTile, mats: &MaterialTypes) -> (r: Result<
    (),
    LvlError,
>)
    requires
        old(world).wf(),
        mats.wf(),
    ensures
        final(world).wf(),
        r == old(world)@.spawn_outcome(spawn.pos, spawn.mat, mats@),
        final(world)@ == old(world)@.spawn(spawn.pos, spawn.mat, mats@),
        r is Err ==> final(world)@ == old(world)@,
        final(world).pending() == old(world).pending(),
{
    match world.lvl.get(spawn.pos) {
        Err(e) => Err(e),
        Ok(Some(_)) => Ok(()),
        Ok(None) => match mats.get(spawn.mat) {
            Some(material_type) => {
                proof {
                    lemma_find_id(mats@, spawn.mat);
                }
                world.place(spawn.pos, material_type);
                Ok(())
            },
            None => Err(LvlError::UnknownMaterial),
        },
    }
}

/// Applies a destroy: the tile in the cell is gone. An empty cell is left
/// as it is, without error.
pub fn destroy_tile(world: &mut Dungeon, destroy: &CmdDestroyTile) -> (r: Result<(), LvlError>)
    requires
        old(world).wf(),
    ensures
        final(world).wf(),
        r == old(world)@.destroy_outcome(destroy.pos),
        final(world)@ == old(world)@.destroy(destroy.pos),
        final(world).pending() == old(world).pending(),
{
    if !world.lvl.in_bounds(destroy.pos) {
        return Err(LvlError::OutOfBounds);
    }
    world.clear(destroy.pos);
    Ok(())
}

/// Applies a destroy of a box: every tile in the box from `min` to `max`,
/// both inclusive, is gone, and the events tell of their removal in
/// ascending x, then y, then z; cells outside the box keep their tiles.
/// Two corners that do not span a box inside the level are refused and
/// nothing changes.
pub fn destroy_tile_rect(world: &mut Dungeon, destroy: &CmdDestroyTileRect) -> (r: Result<
    (),
    LvlError,
>)
    requires
        old(world).wf(),
    ensures
        final(world).wf(),
        r == old(world)@.destroy_region_outcome(destroy.min, destroy.max),
        final(world)@ == old(world)@.destroy_region(destroy.min, destroy.max),
        r is Ok ==> old(world)@.cleared(
            final(world)@,
            cell(destroy.min),
            (destroy.max[0] + 1, destroy.max[1] + 1, destroy.max[2] + 1),
        ),
        r is Ok ==> old(world)@.removed_in_order(
            final(world)@,
            cell(destroy.min),
            (destroy.max[0] + 1, destroy.max[1] + 1, destroy.max[2] + 1),
        ),
        final(world).pending() == old(world).pending(),
{
    let min = destroy.min;
    let max = destroy.max;
    if !(world.lvl.in_bounds(min) && world.lvl.in_bounds(max) && min[0] <= max[0] && min[1]
        <= max[1] && min[2] <= max[2]) {
        return Err(LvlError::OutOfBounds);
    }
    let ghost start = world@;
    let ghost y1 = (max[1] + 1) as usize;
    let ghost z1 = (max[2] + 1) as usize;
    let mut x: usize = min[0];
    while x <= max[0]
        invariant
            world.wf(),
            world.pending() == old(world).pending(),
            start.region_ok(min, max),
            world@.size == start.size,
            y1 == max[1] + 1,
            z1 == max[2] + 1,
            min[0] <= x <= max[0] + 1,
            world@ == start.clear_box(min[0], x, min[1], y1, min[2], z1),
        decreases max[0] + 1 - x,
    {
        let ghost plane = world@;
        let mut y: usize = min[1];
        while y <= max[1]
            invariant
                world.wf(),
                world.pending() == old(world).pending(),
                start.region_ok(min, max),
                world@.size == start.size,
                z1 == max[2] + 1,
                min[0] <= x <= max[0],
                min[1] <= y <= max[1] + 1,
                world@ == plane.clear_plane(x, min[1], y, min[2], z1),
            decreases max[1] + 1 - y,
        {
            let ghost row = world@;
            let mut z: usize = min[2];
            while z <= max[2]
                invariant
                    world.wf(),
                    world.pending() == old(world).pending(),
                    start.region_ok(min, max),
                    world@.size == start.size,
                    min[0] <= x <= max[0],
                    min[1] <= y <= max[1],
                    min[2] <= z <= max[2] + 1,
                    world@ == row.clear_row(x, y, min[2], z),
                decreases max[2] + 1 - z,
            {
                world.clear([x, y, z]);
                z += 1;
            }
            y += 1;
        }
        x += 1;
    }
    proof {
        start.lemma_clear_box(min[0], (max[0] + 1) as usize, min[1], y1, min[2], z1);
    }
    Ok(())
}

/// Populates the level from the sampled field of `init`: every empty
/// cell, in ascending x, then y, then z, gets a tile of the material of
/// its sample, "Wood" for soft, "Dirt" for loose and "Stone" for dense
/// ground. Occupied cells keep their tiles. Nothing changes where one of
/// the three materials is not registered, or where the field does not
/// hold one sample per cell.
pub fn gen_dungeon_init(world: &mut Dungeon, init: &CmdLvlInit, mats: &MaterialTypes) -> (r: Result<
    (),
    LvlError,
>)
    requires
        old(world).wf(),
        mats.wf(),
    ensures
        final(world).wf(),
        r == old(world)@.initialize_outcome(init.samples@, mats@),
        final(world)@ == old(world)@.initialize(init.samples@, mats@),
        r is Ok ==> old(world)@.filled(
            final(world)@,
            init.samples@,
            class_ids(mats@)->0,
            (0, 0, 0),
            (
                old(world)@.size[0] as int,
                old(world)@.size[1] as int,
                old(world)@.size[2] as int,
            ),
        ),
        final(world).pending() == old(world).pending(),
{
    let wood = match mats.get_mat("Wood") {
        Some(m) => m,
        None => {
            return Err(LvlError::UnknownMaterial);
        },
    };
    let dirt = match mats.get_mat("Dirt") {
        Some(m) => m,
        None => {
            return Err(LvlError::UnknownMaterial);
        },
    };
    let stone = match mats.get_mat("Stone") {
        Some(m) => m,
        None => {
            return Err(LvlError::UnknownMaterial);
        },
    };
    let size = world.lvl.size();
    let sx: usize = size[0];
    let sy: usize = size[1];
    let sz: usize = size[2];
    proof {
        assert(sx * sy <= sx * sy * sz) by (nonlinear_arith)
            requires
                sz >= 1,
        ;
    }
    let volume: usize = sx * sy * sz;
    if init.samples.len() != volume {
        return Err(LvlError::FieldMismatch);
    }
    let ghost start = world@;
    let ghost field = init.samples@;
    let ghost ids = ClassIds { soft: wood.id, loose: dirt.id, dense: stone.id };
    assert((0 * sy) * sz == 0) by (nonlinear_arith);
    let mut i: usize = 0;
    let mut x: usize = 0;
    while x < sx
        invariant
            world.wf(),
            world.pending() == old(world).pending(),
            world@.size == start.size,
            start.size == size,
            sx == size[0],
            sy == size[1],
            sz == size[2],
            volume == sx * sy * sz,
            field == init.samples@,
            field.len() == volume,
            ids == (ClassIds { soft: wood.id, loose: dirt.id, dense: stone.id }),
            x <= sx,
            i == (x * sy) * sz,
            world@ == start.fill_box(field, ids, x),
        decreases sx - x,
    {
        let ghost plane = world@;
        let mut y: usize = 0;
        while y < sy
            invariant
                world.wf(),
                world.pending() == old(world).pending(),
                world@.size == start.size,
                plane.size == start.size,
                start.size == size,
                sx == size[0],
                sy == size[1],
                sz == size[2],
                volume == sx * sy * sz,
                field == init.samples@,
                field.len() == volume,
                ids == (ClassIds { soft: wood.id, loose: dirt.id, dense: stone.id }),
                x < sx,
                y <= sy,
                i == (x * sy + y) * sz,
                world@ == plane.fill_plane(field, ids, x, y),
            decreases sy - y,
        {
            let ghost row = world@;
            let mut z: usize = 0;
            while z < sz
                invariant
                    world.wf(),
                    world.pending() == old(world).pending(),
                    world@.size == start.size,
                    row.size == start.size,
                    start.size == size,
                    sx == size[0],
                    sy == size[1],
                    sz == size[2],
                    volume == sx * sy * sz,
                    field == init.samples@,
                    field.len() == volume,
                    ids == (ClassIds { soft: wood.id, loose: dirt.id, dense: stone.id }),
                    x < sx,
                    y < sy,
                    z <= sz,
                    i == (x * sy + y) * sz + z,
                    world@ == row.fill_row(field, ids, x, y, z),
                decreases sz - z,
            {
                let pos: [usize; 3] = [x, y, z];
                proof {
                    assert((x * sy + y) * sz + z < sx * sy * sz) by (nonlinear_arith)
                        requires
                            x < sx,
                            y < sy,
                            z < sz,
                    ;
                }
                let mat = match classify(init.samples[i]) {
                    TerrainClass::Soft => wood,
                    TerrainClass::Loose => dirt,
                    TerrainClass::Dense => stone,
                };
                world.settle(pos, mat);
                z += 1;
                i += 1;
            }
            proof {
                assert((x * sy + y) * sz + sz == (x * sy + (y + 1)) * sz) by (nonlinear_arith);
            }
            y += 1;
        }
        proof {
            assert((x * sy + sy) * sz == ((x + 1) * sy) * sz) by (nonlinear_arith);
        }
        x += 1;
    }
    proof {
        start.lemma_fill_box(field, ids, sx);
    }
    Ok(())
}

/// Applies one command to the level.
pub fn apply_command(world: &mut Dungeon, cmd: &Command, mats: &MaterialTypes) -> (r: Result<
    (),
    LvlError,
>)
    requires
        old(world).wf(),
        mats.wf(),
    ensures
        final(world).wf(),
        r == old(world)@.outcome(*cmd, mats@),
        final(world)@ == old(world)@.apply(*cmd, mats@),
        r is Err ==> final(world)@ == old(world)@,
        final(world).pending() == old(world).pending(),
{
    match cmd {
        Command::Spawn(c) => spawn_tile(world, c, mats),
        Command::Destroy(c) => destroy_tile(world, c),
        Command::DestroyRect(c) => destroy_tile_rect(world, c),
        Command::Init(c) => gen_dungeon_init(world, c, mats),
    }
}

/// Applies the pending commands in the order in which they were
/// submitted and takes each off the queue. A command that is refused for
/// its coordinates or its field is skipped. One that names a material
/// that is not registered ends the drain: the commands behind it stay in
/// the queue and the error is returned.
pub fn drain(world: &mut Dungeon, mats: &MaterialTypes) -> (r: Result<(), LvlError>)
    requires
        old(world).wf(),
        mats.wf(),
    ensures
        final(world).wf(),
        final(world)@ == old(world)@.run(old(world).pending(), mats@),
        r == if old(world)@.halts(old(world).pending(), mats@) {
            Err::<(), LvlError>(LvlError::UnknownMaterial)
        } else {
            Ok::<(), LvlError>(())
        },
        final(world).pending() == old(world).pending().skip(
            old(world)@.consumed(old(world).pending(), mats@) as int,
        ),
{
    let mut cmds: Vec<Command> = Vec::new();
    core::mem::swap(&mut world.queue, &mut cmds);
    let ghost start = world@;
    let ghost all = cmds@;
    let n = cmds.len();
    let mut i: usize = 0;
    assert(all.skip(0) =~= all);
    while i < n
        invariant
            world.wf(),
            mats.wf(),
            world.pending() == Seq::<Command>::empty(),
            start == old(world)@,
            all == old(world).pending(),
            cmds@ == all,
            n == all.len(),
            i <= n,
            start.run(all, mats@) == world@.run(all.skip(i as int), mats@),
            start.halts(all, mats@) == world@.halts(all.skip(i as int), mats@),
            start.consumed(all, mats@) == i + world@.consumed(all.skip(i as int), mats@),
        decreases n - i,
    {
        proof {
            assert(all.skip(i as int).drop_first() =~= all.skip(i + 1));
        }
        let r = apply_command(world, &cmds[i], mats);
        i += 1;
        match r {
            Err(LvlError::UnknownMaterial) => {
                let rest = cmds.split_off(i);
                world.queue = rest;
                return Err(LvlError::UnknownMaterial);
            },
            _ => {},
        }
    }
    Ok(())
}

} // verus!
