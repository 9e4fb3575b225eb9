//! What holds of the level whatever its state: statements that relate
//! several operations, each proved from their definitions.

use crate::error::LvlError;
use crate::level::{cell, within};
use crate::material::{find_id, MaterialSpec};
use crate::terrain::class_ids;
use crate::tile::{CmdDestroyTile, CmdSpawnTile, Command, TileBundle};
use crate::world::{in_box, material_for, World};
use vstd::prelude::*;

verus! {

/// A spawn followed by a destroy at the same cell leaves that cell empty,
/// whatever the cell held before and whether or not the material is
/// registered.
pub proof fn law_spawn_then_destroy(w: World, mats: Seq<MaterialSpec>, pos: [usize; 3], mat: usize)
    requires
        within(w.size, pos),
    ensures
        w.spawn(pos, mat, mats).destroy(pos).cells[cell(pos)] == None::<usize>,
        w.spawn(pos, mat, mats).destroy(pos).tile_at(pos) == None::<TileBundle>,
        w.spawn(pos, mat, mats).destroy_outcome(pos) is Ok,
{
}

/// Of two spawns at one cell with no destroy between them, the second
/// changes nothing: the cell keeps the identity it has after the first,
/// and exactly one live tile stands in it. Where the cell was empty that
/// tile is of the first material, which has to be registered and to find
/// room among the tiles; where the cell was occupied the first spawn
/// changes nothing either.
pub proof fn law_second_spawn_is_no_op(
    w: World,
    mats: Seq<MaterialSpec>,
    pos: [usize; 3],
    first: usize,
    second: usize,
)
    requires
        w.inv(),
        within(w.size, pos),
        find_id(mats, first) is Some || w.cells[cell(pos)] is Some,
        w.cells[cell(pos)] is None ==> w.tiles.len() < usize::MAX,
    ensures
        ({
            let once = w.spawn(pos, first, mats);
            let twice = once.spawn(pos, second, mats);
            &&& once.inv()
            &&& twice == once
            &&& once.spawn_outcome(pos, second, mats) is Ok
            &&& once.cells[cell(pos)] is Some
            &&& forall|id: int|
                0 <= id < once.tiles.len() && (#[trigger] once.tiles[id]) is Some
                    && once.tiles[id]->0.pos == pos ==> once.cells[cell(pos)] == Some(id as usize)
            &&& w.cells[cell(pos)] is None ==> once.tile_at(pos) == Some(
                TileBundle::spec_new(pos, first),
            )
            &&& w.cells[cell(pos)] is Some ==> once == w
        }),
{
    if w.cells[cell(pos)] is None {
        w.lemma_place_inv(pos, first);
    }
}

/// A tile that a spawn creates gets an identity that no tile had before:
/// the one after all that were handed out. Every earlier identity keeps
/// the tile it had, or none, and stood in no cell under the new one.
pub proof fn law_new_identity_was_never_used(
    w: World,
    mats: Seq<MaterialSpec>,
    pos: [usize; 3],
    mat: usize,
)
    requires
        w.inv(),
        within(w.size, pos),
        w.cells[cell(pos)] is None,
        find_id(mats, mat) is Some,
        w.tiles.len() < usize::MAX,
    ensures
        ({
            let after = w.spawn(pos, mat, mats);
            &&& after.inv()
            &&& after.cells[cell(pos)] == Some(w.tiles.len() as usize)
            &&& after.tiles.len() == w.tiles.len() + 1
            &&& after.tiles[w.tiles.len() as int] == Some(TileBundle::spec_new(pos, mat))
            &&& forall|id: int|
                0 <= id < w.tiles.len() ==> #[trigger] after.tiles[id] == w.tiles[id]
            &&& forall|q: [usize; 3]|
                within(w.size, q) ==> #[trigger] w.cells[cell(q)] != Some(w.tiles.len() as usize)
        }),
{
    w.lemma_place_inv(pos, mat);
}

/// Whatever commands are applied, no identity passes from one tile to
/// another: every identity that was handed out before keeps the tile it
/// had, or has none, and the list of identities never shrinks. A tile
/// that is gone never comes back, and a later tile never takes its
/// identity.
pub proof fn law_identities_are_never_reused(w: World, cmds: Seq<Command>, mats: Seq<MaterialSpec>)
    requires
        w.inv(),
    ensures
        w.keeps(w.run(cmds, mats)),
        forall|id: int|
            0 <= id < w.tiles.len() && w.tiles[id] is None ==> (#[trigger] w.run(
                cmds,
                mats,
            ).tiles[id]) is None,
{
    lemma_run_keeps(w, cmds, mats);
}

/// Applying commands in order gives no identity to another tile.
proof fn lemma_run_keeps(w: World, cmds: Seq<Command>, mats: Seq<MaterialSpec>)
    requires
        w.bounded(),
    ensures
        w.run(cmds, mats).bounded(),
        w.keeps(w.run(cmds, mats)),
    decreases cmds.len(),
{
    if cmds.len() > 0 && !w.fatal(cmds[0], mats) {
        w.lemma_apply_keeps(cmds[0], mats);
        lemma_run_keeps(w.apply(cmds[0], mats), cmds.drop_first(), mats);
    }
}

/// A destroy followed by a spawn at an occupied cell leaves a new tile
/// there under a new identity: the old tile is gone for good, and the
/// cell holds the tile of the spawned material under the identity after
/// all that were handed out. Draining the two commands from the queue
/// does the same.
pub proof fn law_destroy_then_spawn_gives_new_identity(
    w: World,
    mats: Seq<MaterialSpec>,
    pos: [usize; 3],
    mat: usize,
)
    requires
        w.inv(),
        within(w.size, pos),
        w.cells[cell(pos)] is Some,
        find_id(mats, mat) is Some,
        w.tiles.len() < usize::MAX,
    ensures
        ({
            let old_id = w.cells[cell(pos)]->0;
            let after = w.destroy(pos).spawn(pos, mat, mats);
            let queued = seq![
                Command::Destroy(CmdDestroyTile { pos }),
                Command::Spawn(CmdSpawnTile { pos, mat }),
            ];
            &&& after.inv()
            &&& after.cells[cell(pos)] is Some
            &&& after.cells[cell(pos)] != Some(old_id)
            &&& after.cells[cell(pos)] == Some(w.tiles.len() as usize)
            &&& after.tile_at(pos) == Some(TileBundle::spec_new(pos, mat))
            &&& after.tiles[old_id as int] is None
            &&& w.run(queued, mats) == after
            &&& !w.halts(queued, mats)
        }),
{
    w.lemma_destroy_inv(pos);
    w.destroy(pos).lemma_place_inv(pos, mat);
    reveal_with_fuel(World::run, 3);
    reveal_with_fuel(World::halts, 3);
}

/// A destroy of the box from `min` to `max`, both inclusive, empties
/// every cell of the box and leaves every cell outside it as it was; the
/// tiles that stood in the box are gone and all others live on. Cells of
/// the box that were empty are empty afterwards. The events tell of one
/// removal for each tile that stood in the box and of nothing else, in
/// ascending x, then y, then z of their cells. Two corners that do not
/// span a box inside the level change nothing.
pub proof fn law_destroy_region(w: World, min: [usize; 3], max: [usize; 3])
    requires
        w.inv(),
    ensures
        ({
            let after = w.destroy_region(min, max);
            let lo = cell(min);
            let hi = (max[0] + 1, max[1] + 1, max[2] + 1);
            &&& after.inv()
            &&& !w.region_ok(min, max) ==> after == w && w.destroy_region_outcome(min, max)
                == Err::<(), LvlError>(LvlError::OutOfBounds)
            &&& w.region_ok(min, max) ==> w.destroy_region_outcome(min, max) is Ok
            &&& w.region_ok(min, max) ==> forall|pos: [usize; 3]|
                within(w.size, pos) ==> #[trigger] after.cells[cell(pos)] == if in_box(
                    lo,
                    hi,
                    pos,
                ) {
                    None
                } else {
                    w.cells[cell(pos)]
                }
            &&& w.region_ok(min, max) ==> w.removed_in_order(after, lo, hi)
            &&& w.region_ok(min, max) ==> after.tiles.len() == w.tiles.len() && forall|id: int|
                0 <= id < w.tiles.len() ==> #[trigger] after.tiles[id] == if w.tiles[id] is Some
                    && in_box(lo, hi, w.tiles[id]->0.pos) {
                    None
                } else {
                    w.tiles[id]
                }
        }),
{
    if w.region_ok(min, max) {
        w.lemma_clear_box(
            min[0],
            (max[0] + 1) as usize,
            min[1],
            (max[1] + 1) as usize,
            min[2],
            (max[2] + 1) as usize,
        );
    }
}

/// Populating two levels of the same extent, both without tiles in their
/// cells, from the same field with the same registry gives both the same
/// tile in every cell: the one of the material of that cell's sample.
/// This holds whatever identities the two levels handed out before.
pub proof fn law_initialize_is_deterministic(
    a: World,
    b: World,
    field: Seq<u32>,
    mats: Seq<MaterialSpec>,
)
    requires
        a.inv(),
        b.inv(),
        a.size == b.size,
        forall|pos: [usize; 3]|
            within(a.size, pos) ==> (#[trigger] a.cells[cell(pos)]) is None && b.cells[cell(pos)]
                is None,
        a.tiles.len() + a.size[0] * a.size[1] * a.size[2] <= usize::MAX,
        b.tiles.len() + b.size[0] * b.size[1] * b.size[2] <= usize::MAX,
    ensures
        a.initialize_outcome(field, mats) == b.initialize_outcome(field, mats),
        a.initialize(field, mats).inv(),
        b.initialize(field, mats).inv(),
        forall|pos: [usize; 3]|
            within(a.size, pos) ==> #[trigger] a.initialize(field, mats).tile_at(pos)
                == b.initialize(field, mats).tile_at(pos),
        a.initialize_outcome(field, mats) is Ok ==> forall|pos: [usize; 3]|
            within(a.size, pos) ==> #[trigger] a.initialize(field, mats).tile_at(pos) == Some(
                TileBundle::spec_new(pos, material_for(a.size, field, class_ids(mats)->0, pos)),
            ),
{
    if a.initialize_outcome(field, mats) is Ok {
        let ids = class_ids(mats)->0;
        assert(a.size[0] * a.size[1] * a.size[2] == a.size[0] * (a.size[1] * a.size[2]))
            by (nonlinear_arith);
        a.lemma_fill_box_room(field, ids, a.size[0]);
        b.lemma_fill_box_room(field, ids, b.size[0]);
        a.lemma_fill_box(field, ids, a.size[0]);
        b.lemma_fill_box(field, ids, b.size[0]);
    }
}

/// A drain takes every command off the queue exactly once: all of them
/// where none is fatal, and otherwise those up to and including the first
/// fatal one, which is the last that is taken. With nothing pending
/// nothing changes.
pub proof fn law_drain_takes_each_command_once(
    w: World,
    cmds: Seq<Command>,
    mats: Seq<MaterialSpec>,
)
    ensures
        w.consumed(cmds, mats) <= cmds.len(),
        !w.halts(cmds, mats) ==> w.consumed(cmds, mats) == cmds.len(),
        w.halts(cmds, mats) ==> 1 <= w.consumed(cmds, mats) && w.run(
            cmds.take(w.consumed(cmds, mats) - 1),
            mats,
        ).fatal(cmds[w.consumed(cmds, mats) - 1], mats) && w.run(cmds, mats) == w.run(
            cmds.take(w.consumed(cmds, mats) - 1),
            mats,
        ),
        cmds.len() == 0 ==> w.run(cmds, mats) == w,
    decreases cmds.len(),
{
    if cmds.len() > 0 {
        if !w.fatal(cmds[0], mats) {
            let next = w.apply(cmds[0], mats);
            let rest = cmds.drop_first();
            law_drain_takes_each_command_once(next, rest, mats);
            if w.halts(cmds, mats) {
                let n = next.consumed(rest, mats);
                let front = cmds.take(n as int);
                assert(front.drop_first() =~= rest.take(n - 1));
            }
        }
    }
}

/// Draining a queue in one go is draining its front part and then the
/// rest: commands take effect strictly in the order of submission.
pub proof fn law_run_in_order(
    w: World,
    front: Seq<Command>,
    rest: Seq<Command>,
    mats: Seq<MaterialSpec>,
)
    requires
        !w.halts(front, mats),
    ensures
        w.run(front + rest, mats) == w.run(front, mats).run(rest, mats),
        w.halts(front + rest, mats) == w.run(front, mats).halts(rest, mats),
        w.consumed(front + rest, mats) == front.len() + w.run(front, mats).consumed(rest, mats),
    decreases front.len(),
{
    if front.len() > 0 {
        assert((front + rest).drop_first() =~= front.drop_first() + rest);
        law_run_in_order(w.apply(front[0], mats), front.drop_first(), rest, mats);
    }
}

} // verus!
