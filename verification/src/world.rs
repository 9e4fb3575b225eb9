//! The level as mathematics: what every operation does to the cells, the
//! live tiles and the record of events, stated apart from how
//! they are stored.

use crate::array::index_box;
use crate::error::LvlError;
use crate::level::{cell, valid_extent, within};
use crate::material::{find_id, MaterialSpec};
use crate::terrain::{class_ids, class_of, ClassIds};
use crate::tile::{Command, TileBundle, TileEvent};
use vstd::prelude::*;

verus! {

/// The state of a level.
pub struct World {
    /// The extent of the grid.
    pub size: [usize; 3],
    /// The occupant of every cell, keyed by `cell(pos)`.
    pub cells: Map<(int, int, int), Option<usize>>,
    /// The tile behind every identity that was ever handed out, in the
    /// order in which they were handed out; `None` where the tile is
    /// gone. An identity is the place of its tile in this list.
    pub tiles: Seq<Option<TileBundle>>,
    /// The events since they were last collected, oldest first.
    pub events: Seq<TileEvent>,
}

/// Whether `pos` lies in the box from `lo` up to but not including `hi`.
pub open spec fn in_box(lo: (int, int, int), hi: (int, int, int), pos: [usize; 3]) -> bool {
    &&& lo.0 <= pos[0] < hi.0
    &&& lo.1 <= pos[1] < hi.1
    &&& lo.2 <= pos[2] < hi.2
}

/// Where the sample for the cell at `pos` stands in a field over a level
/// of extent `size`: cells are counted in ascending x, then y, then z.
pub open spec fn sample_index(size: [usize; 3], pos: [usize; 3]) -> int {
    (pos[0] * size[1] + pos[1]) * size[2] + pos[2]
}

/// The material that the field `field` gives the cell at `pos`.
pub open spec fn material_for(
    size: [usize; 3],
    field: Seq<u32>,
    ids: ClassIds,
    pos: [usize; 3],
) -> usize {
    ids.spec_pick(class_of(field[sample_index(size, pos)]))
}

/// Whether the cell at `a` comes before the cell at `b` when cells are
/// counted in ascending x, then y, then z.
pub open spec fn comes_before(a: [usize; 3], b: [usize; 3]) -> bool {
    a[0] < b[0] || (a[0] == b[0] && (a[1] < b[1] || (a[1] == b[1] && a[2] < b[2])))
}

impl World {
    /// Cells and live tiles correspond one to one: an occupied cell names
    /// a live tile that stands in that cell, and every live tile is the
    /// occupant of the cell it stands in.
    pub open spec fn inv(self) -> bool {
        &&& valid_extent(self.size)
        &&& self.cells.dom() == index_box(
            self.size[0] as int,
            self.size[1] as int,
            self.size[2] as int,
        )
        &&& self.tiles.len() <= usize::MAX
        &&& forall|pos: [usize; 3]|
            within(self.size, pos) ==> match #[trigger] self.cells[cell(pos)] {
                Some(id) => id < self.tiles.len() && self.tiles[id as int] is Some
                    && self.tiles[id as int]->0.pos == pos,
                None => true,
            }
        &&& forall|id: int|
            0 <= id < self.tiles.len() ==> match #[trigger] self.tiles[id] {
                Some(t) => within(self.size, t.pos) && self.cells[cell(t.pos)] == Some(id as usize),
                None => true,
            }
    }

    /// Whether `e` tells that a tile of this level which stood in the box
    /// from `lo` up to but not including `hi` is gone.
    pub open spec fn removal(self, e: TileEvent, lo: (int, int, int), hi: (int, int, int)) -> bool {
        &&& e is Despawned
        &&& e->Despawned_id < self.tiles.len()
        &&& self.tiles[e->Despawned_id as int] is Some
        &&& in_box(lo, hi, self.tiles[e->Despawned_id as int]->0.pos)
    }

    /// The cell in which the tile stood whose removal `e` tells.
    pub open spec fn removed_from(self, e: TileEvent) -> [usize; 3] {
        self.tiles[e->Despawned_id as int]->0.pos
    }

    /// Whether the events of `after` are those of this level followed by
    /// one removal for each tile that stood in the box from `lo` up to
    /// but not including `hi`, in ascending x, then y, then z of their
    /// cells.
    pub open spec fn removed_in_order(
        self,
        after: World,
        lo: (int, int, int),
        hi: (int, int, int),
    ) -> bool {
        &&& after.events.len() >= self.events.len()
        &&& forall|i: int|
            0 <= i < self.events.len() ==> #[trigger] after.events[i] == self.events[i]
        &&& forall|i: int|
            self.events.len() <= i < after.events.len() ==> self.removal(
                #[trigger] after.events[i],
                lo,
                hi,
            )
        &&& forall|i: int, j: int|
            self.events.len() <= i < j < after.events.len() ==> comes_before(
                self.removed_from(#[trigger] after.events[i]),
                self.removed_from(#[trigger] after.events[j]),
            )
        &&& forall|id: int|
            0 <= id < self.tiles.len() && (#[trigger] self.tiles[id]) is Some && in_box(
                lo,
                hi,
                self.tiles[id]->0.pos,
            ) ==> exists|i: int|
                self.events.len() <= i < after.events.len() && #[trigger] after.events[i] == (
                TileEvent::Despawned { id: id as usize })
    }

    /// Every occupied cell names an identity that was handed out.
    pub open spec fn bounded(self) -> bool {
        forall|pos: [usize; 3]|
            within(self.size, pos) ==> match #[trigger] self.cells[cell(pos)] {
                Some(id) => id < self.tiles.len(),
                None => true,
            }
    }

    /// Whether `after` knows every identity that this level handed out,
    /// each with the tile it had or with none: no tile left its identity
    /// to another.
    pub open spec fn keeps(self, after: World) -> bool {
        &&& after.size == self.size
        &&& after.tiles.len() >= self.tiles.len()
        &&& forall|id: int|
            0 <= id < self.tiles.len() ==> #[trigger] after.tiles[id] == self.tiles[id]
                || after.tiles[id] is None
    }

    /// The level of extent `size` without tiles.
    pub open spec fn empty(size: [usize; 3]) -> World {
        World {
            size,
            cells: Map::new(
                |c: (int, int, int)|
                    index_box(size[0] as int, size[1] as int, size[2] as int).contains(c),
                |c: (int, int, int)| None::<usize>,
            ),
            tiles: Seq::empty(),
            events: Seq::empty(),
        }
    }

    /// The tile that occupies the cell at `pos`, if any.
    pub open spec fn tile_at(self, pos: [usize; 3]) -> Option<TileBundle> {
        match self.cells[cell(pos)] {
            Some(id) => self.tiles[id as int],
            None => None,
        }
    }

    /// The identity that the next new tile gets: one more than the last
    /// that was handed out, so that no identity is ever handed out twice.
    pub open spec fn next_id(self) -> usize {
        self.tiles.len() as usize
    }

    /// A new tile of material `mat` in the cell at `pos`.
    pub open spec fn place(self, pos: [usize; 3], mat: usize) -> World {
        let id = self.next_id();
        let tile = TileBundle::spec_new(pos, mat);
        World {
            size: self.size,
            cells: self.cells.insert(cell(pos), Some(id)),
            tiles: self.tiles.push(Some(tile)),
            events: self.events.push(TileEvent::Spawned { id, tile }),
        }
    }

    /// A new tile of material `mat` at `pos` where the cell is inside the
    /// level and empty; no change elsewhere.
    pub open spec fn settle(self, pos: [usize; 3], mat: usize) -> World {
        if within(self.size, pos) && self.cells[cell(pos)] is None {
            self.place(pos, mat)
        } else {
            self
        }
    }

    /// How a spawn of material `mat` at `pos` ends, given the registered
    /// materials `mats`.
    pub open spec fn spawn_outcome(
        self,
        pos: [usize; 3],
        mat: usize,
        mats: Seq<MaterialSpec>,
    ) -> Result<(), LvlError> {
        if !within(self.size, pos) {
            Err(LvlError::OutOfBounds)
        } else if self.cells[cell(pos)] is Some {
            Ok(())
        } else if find_id(mats, mat) is None {
            Err(LvlError::UnknownMaterial)
        } else {
            Ok(())
        }
    }

    /// The level after a spawn of material `mat` at `pos`: a new tile
    /// where the cell is inside the level and empty and the material is
    /// registered; no change otherwise.
    pub open spec fn spawn(self, pos: [usize; 3], mat: usize, mats: Seq<MaterialSpec>) -> World {
        if find_id(mats, mat) is Some {
            self.settle(pos, mat)
        } else {
            self
        }
    }

    /// How a destroy at `pos` ends.
    pub open spec fn destroy_outcome(self, pos: [usize; 3]) -> Result<(), LvlError> {
        if within(self.size, pos) {
            Ok(())
        } else {
            Err(LvlError::OutOfBounds)
        }
    }

    /// The level after a destroy at `pos`: the tile in that cell is gone
    /// and its identity stays behind, unused; no change where the cell is
    /// empty or outside the level.
    pub open spec fn destroy(self, pos: [usize; 3]) -> World {
        if within(self.size, pos) && self.cells[cell(pos)] is Some {
            let id = self.cells[cell(pos)]->0;
            World {
                size: self.size,
                cells: self.cells.insert(cell(pos), None),
                tiles: self.tiles.update(id as int, None),
                events: self.events.push(TileEvent::Despawned { id }),
            }
        } else {
            self
        }
    }

    /// Whether `min` and `max` span a box inside the level.
    pub open spec fn region_ok(self, min: [usize; 3], max: [usize; 3]) -> bool {
        &&& within(self.size, min)
        &&& within(self.size, max)
        &&& min[0] <= max[0]
        &&& min[1] <= max[1]
        &&& min[2] <= max[2]
    }

    /// The level after the cells `(x, y, z)` with `z0 <= z < z1` were
    /// destroyed in ascending order.
    pub open spec fn clear_row(self, x: usize, y: usize, z0: usize, z1: usize) -> World
        decreases z1,
    {
        if z1 <= z0 {
            self
        } else {
            let z = (z1 - 1) as usize;
            self.clear_row(x, y, z0, z).destroy([x, y, z])
        }
    }

    /// The level after the rows of plane `x` with `y0 <= y < y1` were
    /// cleared in ascending order.
    pub open spec fn clear_plane(
        self,
        x: usize,
        y0: usize,
        y1: usize,
        z0: usize,
        z1: usize,
    ) -> World
        decreases y1,
    {
        if y1 <= y0 {
            self
        } else {
            let y = (y1 - 1) as usize;
            self.clear_plane(x, y0, y, z0, z1).clear_row(x, y, z0, z1)
        }
    }

    /// The level after the planes with `x0 <= x < x1` were cleared in
    /// ascending order.
    pub open spec fn clear_box(
        self,
        x0: usize,
        x1: usize,
        y0: usize,
        y1: usize,
        z0: usize,
        z1: usize,
    ) -> World
        decreases x1,
    {
        if x1 <= x0 {
            self
        } else {
            let x = (x1 - 1) as usize;
            self.clear_box(x0, x, y0, y1, z0, z1).clear_plane(x, y0, y1, z0, z1)
        }
    }

    /// How a destroy of the box from `min` to `max` ends.
    pub open spec fn destroy_region_outcome(self, min: [usize; 3], max: [usize; 3]) -> Result<
        (),
        LvlError,
    > {
        if self.region_ok(min, max) {
            Ok(())
        } else {
            Err(LvlError::OutOfBounds)
        }
    }

    /// The level after a destroy of the box from `min` to `max`, both
    /// inclusive: its cells were destroyed in ascending x, then y, then
    /// z. No change where the two do not span a box inside the level.
    pub open spec fn destroy_region(self, min: [usize; 3], max: [usize; 3]) -> World {
        if self.region_ok(min, max) {
            self.clear_box(
                min[0],
                (max[0] + 1) as usize,
                min[1],
                (max[1] + 1) as usize,
                min[2],
                (max[2] + 1) as usize,
            )
        } else {
            self
        }
    }

    /// Whether `after` is this level with exactly the cells from `lo` up
    /// to but not including `hi` emptied and the tiles that stood in them
    /// gone.
    pub open spec fn cleared(self, after: World, lo: (int, int, int), hi: (int, int, int)) -> bool {
        &&& after.size == self.size
        &&& after.tiles.len() == self.tiles.len()
        &&& forall|pos: [usize; 3]|
            within(self.size, pos) ==> #[trigger] after.cells[cell(pos)] == if in_box(lo, hi, pos) {
                None
            } else {
                self.cells[cell(pos)]
            }
        &&& forall|id: int|
            0 <= id < self.tiles.len() ==> #[trigger] after.tiles[id] == if self.tiles[id] is Some
                && in_box(lo, hi, self.tiles[id]->0.pos) {
                None
            } else {
                self.tiles[id]
            }
    }

    /// The level after the cells `(x, y, z)` with `z < z1` were settled
    /// from the field in ascending order.
    pub open spec fn fill_row(
        self,
        field: Seq<u32>,
        ids: ClassIds,
        x: usize,
        y: usize,
        z1: usize,
    ) -> World
        decreases z1,
    {
        if z1 == 0 {
            self
        } else {
            let z = (z1 - 1) as usize;
            let pos = [x, y, z];
            self.fill_row(field, ids, x, y, z).settle(pos, material_for(self.size, field, ids, pos))
        }
    }

    /// The level after the rows of plane `x` with `y < y1` were settled
    /// from the field in ascending order.
    pub open spec fn fill_plane(self, field: Seq<u32>, ids: ClassIds, x: usize, y1: usize) -> World
        decreases y1,
    {
        if y1 == 0 {
            self
        } else {
            let y = (y1 - 1) as usize;
            self.fill_plane(field, ids, x, y).fill_row(field, ids, x, y, self.size[2])
        }
    }

    /// The level after the planes with `x < x1` were settled from the
    /// field in ascending order.
    pub open spec fn fill_box(self, field: Seq<u32>, ids: ClassIds, x1: usize) -> World
        decreases x1,
    {
        if x1 == 0 {
            self
        } else {
            let x = (x1 - 1) as usize;
            self.fill_box(field, ids, x).fill_plane(field, ids, x, self.size[1])
        }
    }

    /// How populating the level from `field` ends, given the registered
    /// materials `mats`.
    pub open spec fn initialize_outcome(self, field: Seq<u32>, mats: Seq<MaterialSpec>) -> Result<
        (),
        LvlError,
    > {
        if class_ids(mats) is None {
            Err(LvlError::UnknownMaterial)
        } else if field.len() != self.size[0] * self.size[1] * self.size[2] {
            Err(LvlError::FieldMismatch)
        } else {
            Ok(())
        }
    }

    /// The level after it was populated from `field`: every empty cell,
    /// in ascending x, then y, then z, got a tile of the material of its
    /// sample. No change where a material of the three classes is not
    /// registered or the field does not match the level.
    pub open spec fn initialize(self, field: Seq<u32>, mats: Seq<MaterialSpec>) -> World {
        if self.initialize_outcome(field, mats) is Ok {
            self.fill_box(field, class_ids(mats)->0, self.size[0])
        } else {
            self
        }
    }

    /// Whether `after` is this level with every empty cell from `lo` up
    /// to but not including `hi` occupied by a new tile of the material
    /// of its sample, and every other cell and every live tile as it was.
    pub open spec fn filled(
        self,
        after: World,
        field: Seq<u32>,
        ids: ClassIds,
        lo: (int, int, int),
        hi: (int, int, int),
    ) -> bool {
        &&& after.size == self.size
        &&& after.tiles.len() >= self.tiles.len()
        &&& forall|pos: [usize; 3]|
            #![trigger after.cells[cell(pos)]]
            within(self.size, pos) ==> if in_box(lo, hi, pos) && self.cells[cell(pos)] is None {
                after.cells[cell(pos)] is Some && after.tile_at(pos) == Some(
                    TileBundle::spec_new(pos, material_for(self.size, field, ids, pos)),
                )
            } else {
                after.cells[cell(pos)] == self.cells[cell(pos)]
            }
        &&& forall|id: int|
            0 <= id < self.tiles.len() && self.tiles[id] is Some ==> #[trigger] after.tiles[id]
                == self.tiles[id]
    }

    /// How applying `cmd` ends, given the registered materials `mats`.
    pub open spec fn outcome(self, cmd: Command, mats: Seq<MaterialSpec>) -> Result<(), LvlError> {
        match cmd {
            Command::Spawn(c) => self.spawn_outcome(c.pos, c.mat, mats),
            Command::Destroy(c) => self.destroy_outcome(c.pos),
            Command::DestroyRect(c) => self.destroy_region_outcome(c.min, c.max),
            Command::Init(c) => self.initialize_outcome(c.samples@, mats),
        }
    }

    /// The level after `cmd` was applied. A command that is refused
    /// leaves the level as it was.
    pub open spec fn apply(self, cmd: Command, mats: Seq<MaterialSpec>) -> World {
        match cmd {
            Command::Spawn(c) => self.spawn(c.pos, c.mat, mats),
            Command::Destroy(c) => self.destroy(c.pos),
            Command::DestroyRect(c) => self.destroy_region(c.min, c.max),
            Command::Init(c) => self.initialize(c.samples@, mats),
        }
    }

    /// Whether `cmd` names a material that is not registered: the one
    /// refusal after which no further command is applied.
    pub open spec fn fatal(self, cmd: Command, mats: Seq<MaterialSpec>) -> bool {
        self.outcome(cmd, mats) == Err::<(), LvlError>(LvlError::UnknownMaterial)
    }

    /// The level after the commands `cmds` were applied in order, up to
    /// the first fatal one.
    pub open spec fn run(self, cmds: Seq<Command>, mats: Seq<MaterialSpec>) -> World
        decreases cmds.len(),
    {
        if cmds.len() == 0 || self.fatal(cmds[0], mats) {
            self
        } else {
            self.apply(cmds[0], mats).run(cmds.drop_first(), mats)
        }
    }

    /// Whether one of the commands `cmds`, applied in order, is fatal.
    pub open spec fn halts(self, cmds: Seq<Command>, mats: Seq<MaterialSpec>) -> bool
        decreases cmds.len(),
    {
        if cmds.len() == 0 {
            false
        } else if self.fatal(cmds[0], mats) {
            true
        } else {
            self.apply(cmds[0], mats).halts(cmds.drop_first(), mats)
        }
    }

    /// How many of the commands `cmds` are taken off the queue when they
    /// are applied in order: all of them, or those up to and including
    /// the first fatal one.
    pub open spec fn consumed(self, cmds: Seq<Command>, mats: Seq<MaterialSpec>) -> nat
        decreases cmds.len(),
    {
        if cmds.len() == 0 {
            0
        } else if self.fatal(cmds[0], mats) {
            1
        } else {
            1 + self.apply(cmds[0], mats).consumed(cmds.drop_first(), mats)
        }
    }

    /// Settling a cell leaves every identity with its tile.
    pub proof fn lemma_settle_keeps(self, pos: [usize; 3], mat: usize)
        requires
            self.bounded(),
        ensures
            self.settle(pos, mat).bounded(),
            self.keeps(self.settle(pos, mat)),
    {
    }

    /// Destroying a cell takes the tile from one identity at most and
    /// gives none a tile.
    pub proof fn lemma_destroy_keeps(self, pos: [usize; 3])
        requires
            self.bounded(),
        ensures
            self.destroy(pos).bounded(),
            self.keeps(self.destroy(pos)),
    {
    }

    /// Clearing a stretch of a row gives no identity to another tile.
    pub proof fn lemma_clear_row_keeps(self, x: usize, y: usize, z0: usize, z1: usize)
        requires
            self.bounded(),
        ensures
            self.clear_row(x, y, z0, z1).bounded(),
            self.keeps(self.clear_row(x, y, z0, z1)),
        decreases z1,
    {
        if z1 > z0 {
            let z = (z1 - 1) as usize;
            self.lemma_clear_row_keeps(x, y, z0, z);
            self.clear_row(x, y, z0, z).lemma_destroy_keeps([x, y, z]);
        }
    }

    /// Clearing rows of a plane gives no identity to another tile.
    pub proof fn lemma_clear_plane_keeps(self, x: usize, y0: usize, y1: usize, z0: usize, z1: usize)
        requires
            self.bounded(),
        ensures
            self.clear_plane(x, y0, y1, z0, z1).bounded(),
            self.keeps(self.clear_plane(x, y0, y1, z0, z1)),
        decreases y1,
    {
        if y1 > y0 {
            let y = (y1 - 1) as usize;
            self.lemma_clear_plane_keeps(x, y0, y, z0, z1);
            self.clear_plane(x, y0, y, z0, z1).lemma_clear_row_keeps(x, y, z0, z1);
        }
    }

    /// Clearing a box gives no identity to another tile.
    pub proof fn lemma_clear_box_keeps(
        self,
        x0: usize,
        x1: usize,
        y0: usize,
        y1: usize,
        z0: usize,
        z1: usize,
    )
        requires
            self.bounded(),
        ensures
            self.clear_box(x0, x1, y0, y1, z0, z1).bounded(),
            self.keeps(self.clear_box(x0, x1, y0, y1, z0, z1)),
        decreases x1,
    {
        if x1 > x0 {
            let x = (x1 - 1) as usize;
            self.lemma_clear_box_keeps(x0, x, y0, y1, z0, z1);
            self.clear_box(x0, x, y0, y1, z0, z1).lemma_clear_plane_keeps(x, y0, y1, z0, z1);
        }
    }

    /// Filling the start of a row gives no identity to another tile.
    pub proof fn lemma_fill_row_keeps(
        self,
        field: Seq<u32>,
        ids: ClassIds,
        x: usize,
        y: usize,
        z1: usize,
    )
        requires
            self.bounded(),
        ensures
            self.fill_row(field, ids, x, y, z1).bounded(),
            self.keeps(self.fill_row(field, ids, x, y, z1)),
        decreases z1,
    {
        if z1 > 0 {
            let z = (z1 - 1) as usize;
            let pos = [x, y, z];
            self.lemma_fill_row_keeps(field, ids, x, y, z);
            self.fill_row(field, ids, x, y, z).lemma_settle_keeps(
                pos,
                material_for(self.size, field, ids, pos),
            );
        }
    }

    /// Filling the first rows of a plane gives no identity to another
    /// tile.
    pub proof fn lemma_fill_plane_keeps(self, field: Seq<u32>, ids: ClassIds, x: usize, y1: usize)
        requires
            self.bounded(),
        ensures
            self.fill_plane(field, ids, x, y1).bounded(),
            self.keeps(self.fill_plane(field, ids, x, y1)),
        decreases y1,
    {
        if y1 > 0 {
            let y = (y1 - 1) as usize;
            self.lemma_fill_plane_keeps(field, ids, x, y);
            self.fill_plane(field, ids, x, y).lemma_fill_row_keeps(field, ids, x, y, self.size[2]);
        }
    }

    /// Filling the first planes of a level gives no identity to another
    /// tile.
    pub proof fn lemma_fill_box_keeps(self, field: Seq<u32>, ids: ClassIds, x1: usize)
        requires
            self.bounded(),
        ensures
            self.fill_box(field, ids, x1).bounded(),
            self.keeps(self.fill_box(field, ids, x1)),
        decreases x1,
    {
        if x1 > 0 {
            let x = (x1 - 1) as usize;
            self.lemma_fill_box_keeps(field, ids, x);
            self.fill_box(field, ids, x).lemma_fill_plane_keeps(field, ids, x, self.size[1]);
        }
    }

    /// Applying a command gives no identity to another tile.
    pub proof fn lemma_apply_keeps(self, cmd: Command, mats: Seq<MaterialSpec>)
        requires
            self.bounded(),
        ensures
            self.apply(cmd, mats).bounded(),
            self.keeps(self.apply(cmd, mats)),
    {
        match cmd {
            Command::Spawn(c) => {
                self.lemma_settle_keeps(c.pos, c.mat);
            },
            Command::Destroy(c) => {
                self.lemma_destroy_keeps(c.pos);
            },
            Command::DestroyRect(c) => {
                self.lemma_clear_box_keeps(
                    c.min[0],
                    (c.max[0] + 1) as usize,
                    c.min[1],
                    (c.max[1] + 1) as usize,
                    c.min[2],
                    (c.max[2] + 1) as usize,
                );
            },
            Command::Init(c) => {
                if self.initialize_outcome(c.samples@, mats) is Ok {
                    self.lemma_fill_box_keeps(c.samples@, class_ids(mats)->0, self.size[0]);
                }
            },
        }
    }

    /// A new tile in an empty cell keeps the level consistent.
    pub proof fn lemma_place_inv(self, pos: [usize; 3], mat: usize)
        requires
            self.inv(),
            within(self.size, pos),
            self.cells[cell(pos)] is None,
            self.tiles.len() < usize::MAX,
        ensures
            self.place(pos, mat).inv(),
    {
        let w = self.place(pos, mat);
        assert(w.cells.dom() =~= self.cells.dom());
        assert forall|q: [usize; 3]| within(w.size, q) implies match #[trigger] w.cells[cell(q)] {
            Some(i) => i < w.tiles.len() && w.tiles[i as int] is Some && w.tiles[i as int]->0.pos
                == q,
            None => true,
        } by {}
    }

    /// Removing a tile keeps the level consistent.
    pub proof fn lemma_destroy_inv(self, pos: [usize; 3])
        requires
            self.inv(),
        ensures
            self.destroy(pos).inv(),
    {
        assert(self.destroy(pos).cells.dom() =~= self.cells.dom());
    }

    /// Destroying one cell empties that cell and no other.
    pub proof fn lemma_destroy_cleared(self, pos: [usize; 3])
        requires
            self.inv(),
            within(self.size, pos),
        ensures
            self.destroy(pos).inv(),
            self.cleared(
                self.destroy(pos),
                cell(pos),
                (pos[0] + 1, pos[1] + 1, pos[2] + 1),
            ),
    {
        self.lemma_destroy_inv(pos);
    }

    /// Destroying one cell tells of the removal of its tile and of no
    /// other.
    pub proof fn lemma_destroy_in_order(self, pos: [usize; 3])
        requires
            self.inv(),
            within(self.size, pos),
        ensures
            self.removed_in_order(
                self.destroy(pos),
                cell(pos),
                (pos[0] + 1, pos[1] + 1, pos[2] + 1),
            ),
    {
        let after = self.destroy(pos);
        let lo = cell(pos);
        let hi = (pos[0] + 1, pos[1] + 1, pos[2] + 1);
        assert forall|id: int|
            0 <= id < self.tiles.len() && (#[trigger] self.tiles[id]) is Some && in_box(
                lo,
                hi,
                self.tiles[id]->0.pos,
            ) implies exists|i: int|
            self.events.len() <= i < after.events.len() && #[trigger] after.events[i] == (
            TileEvent::Despawned { id: id as usize }) by {
            assert(after.events[self.events.len() as int] == (TileEvent::Despawned {
                id: id as usize,
            }));
        }
    }

    /// Removals told for one box and then for another that lies behind
    /// it are the removals for what the two cover, in order.
    pub proof fn lemma_in_order_join(
        self,
        mid: World,
        after: World,
        lo1: (int, int, int),
        hi1: (int, int, int),
        lo2: (int, int, int),
        hi2: (int, int, int),
        lo: (int, int, int),
        hi: (int, int, int),
    )
        requires
            self.cleared(mid, lo1, hi1),
            self.removed_in_order(mid, lo1, hi1),
            mid.removed_in_order(after, lo2, hi2),
            forall|pos: [usize; 3]|
                #![trigger in_box(lo, hi, pos)]
                in_box(lo, hi, pos) <==> in_box(lo1, hi1, pos) || in_box(lo2, hi2, pos),
            forall|a: [usize; 3], b: [usize; 3]|
                #![trigger in_box(lo1, hi1, a), in_box(lo2, hi2, b)]
                in_box(lo1, hi1, a) && in_box(lo2, hi2, b) ==> comes_before(a, b),
        ensures
            self.removed_in_order(after, lo, hi),
    {
        assert forall|id: int|
            0 <= id < self.tiles.len() && (#[trigger] self.tiles[id]) is Some && in_box(
                lo,
                hi,
                self.tiles[id]->0.pos,
            ) implies exists|i: int|
            self.events.len() <= i < after.events.len() && #[trigger] after.events[i] == (
            TileEvent::Despawned { id: id as usize }) by {
            if in_box(lo1, hi1, self.tiles[id]->0.pos) {
                let i = choose|i: int|
                    self.events.len() <= i < mid.events.len() && #[trigger] mid.events[i] == (
                    TileEvent::Despawned { id: id as usize });
                assert(after.events[i] == mid.events[i]);
            } else {
                assert(mid.tiles[id] == self.tiles[id]);
            }
        }
    }

    /// Clearing one box and then another clears what the two cover.
    pub proof fn lemma_cleared_join(
        self,
        mid: World,
        after: World,
        lo1: (int, int, int),
        hi1: (int, int, int),
        lo2: (int, int, int),
        hi2: (int, int, int),
        lo: (int, int, int),
        hi: (int, int, int),
    )
        requires
            self.cleared(mid, lo1, hi1),
            mid.cleared(after, lo2, hi2),
            forall|pos: [usize; 3]|
                #![trigger in_box(lo, hi, pos)]
                in_box(lo, hi, pos) <==> in_box(lo1, hi1, pos) || in_box(lo2, hi2, pos),
        ensures
            self.cleared(after, lo, hi),
    {
    }

    /// Clearing a stretch of a row empties its cells and no others.
    pub proof fn lemma_clear_row(self, x: usize, y: usize, z0: usize, z1: usize)
        requires
            self.inv(),
            x < self.size[0],
            y < self.size[1],
            z0 <= z1 <= self.size[2],
        ensures
            self.clear_row(x, y, z0, z1).inv(),
            self.cleared(
                self.clear_row(x, y, z0, z1),
                (x as int, y as int, z0 as int),
                (x + 1, y + 1, z1 as int),
            ),
            self.removed_in_order(
                self.clear_row(x, y, z0, z1),
                (x as int, y as int, z0 as int),
                (x + 1, y + 1, z1 as int),
            ),
        decreases z1,
    {
        if z1 > z0 {
            let z = (z1 - 1) as usize;
            let mid = self.clear_row(x, y, z0, z);
            self.lemma_clear_row(x, y, z0, z);
            mid.lemma_destroy_cleared([x, y, z]);
            mid.lemma_destroy_in_order([x, y, z]);
            self.lemma_in_order_join(
                mid,
                mid.destroy([x, y, z]),
                (x as int, y as int, z0 as int),
                (x + 1, y + 1, z as int),
                (x as int, y as int, z as int),
                (x + 1, y + 1, z + 1),
                (x as int, y as int, z0 as int),
                (x + 1, y + 1, z1 as int),
            );
            self.lemma_cleared_join(
                mid,
                mid.destroy([x, y, z]),
                (x as int, y as int, z0 as int),
                (x + 1, y + 1, z as int),
                (x as int, y as int, z as int),
                (x + 1, y + 1, z + 1),
                (x as int, y as int, z0 as int),
                (x + 1, y + 1, z1 as int),
            );
        }
    }

    /// Clearing a stretch of rows of a plane empties their cells and no
    /// others.
    pub proof fn lemma_clear_plane(self, x: usize, y0: usize, y1: usize, z0: usize, z1: usize)
        requires
            self.inv(),
            x < self.size[0],
            y0 <= y1 <= self.size[1],
            z0 <= z1 <= self.size[2],
        ensures
            self.clear_plane(x, y0, y1, z0, z1).inv(),
            self.cleared(
                self.clear_plane(x, y0, y1, z0, z1),
                (x as int, y0 as int, z0 as int),
                (x + 1, y1 as int, z1 as int),
            ),
            self.removed_in_order(
                self.clear_plane(x, y0, y1, z0, z1),
                (x as int, y0 as int, z0 as int),
                (x + 1, y1 as int, z1 as int),
            ),
        decreases y1,
    {
        if y1 > y0 {
            let y = (y1 - 1) as usize;
            let mid = self.clear_plane(x, y0, y, z0, z1);
            self.lemma_clear_plane(x, y0, y, z0, z1);
            mid.lemma_clear_row(x, y, z0, z1);
            self.lemma_in_order_join(
                mid,
                mid.clear_row(x, y, z0, z1),
                (x as int, y0 as int, z0 as int),
                (x + 1, y as int, z1 as int),
                (x as int, y as int, z0 as int),
                (x + 1, y + 1, z1 as int),
                (x as int, y0 as int, z0 as int),
                (x + 1, y1 as int, z1 as int),
            );
            self.lemma_cleared_join(
                mid,
                mid.clear_row(x, y, z0, z1),
                (x as int, y0 as int, z0 as int),
                (x + 1, y as int, z1 as int),
                (x as int, y as int, z0 as int),
                (x + 1, y + 1, z1 as int),
                (x as int, y0 as int, z0 as int),
                (x + 1, y1 as int, z1 as int),
            );
        }
    }

    /// Clearing a box empties its cells and no others.
    pub proof fn lemma_clear_box(
        self,
        x0: usize,
        x1: usize,
        y0: usize,
        y1: usize,
        z0: usize,
        z1: usize,
    )
        requires
            self.inv(),
            x0 <= x1 <= self.size[0],
            y0 <= y1 <= self.size[1],
            z0 <= z1 <= self.size[2],
        ensures
            self.clear_box(x0, x1, y0, y1, z0, z1).inv(),
            self.cleared(
                self.clear_box(x0, x1, y0, y1, z0, z1),
                (x0 as int, y0 as int, z0 as int),
                (x1 as int, y1 as int, z1 as int),
            ),
            self.removed_in_order(
                self.clear_box(x0, x1, y0, y1, z0, z1),
                (x0 as int, y0 as int, z0 as int),
                (x1 as int, y1 as int, z1 as int),
            ),
        decreases x1,
    {
        if x1 > x0 {
            let x = (x1 - 1) as usize;
            let mid = self.clear_box(x0, x, y0, y1, z0, z1);
            self.lemma_clear_box(x0, x, y0, y1, z0, z1);
            mid.lemma_clear_plane(x, y0, y1, z0, z1);
            self.lemma_in_order_join(
                mid,
                mid.clear_plane(x, y0, y1, z0, z1),
                (x0 as int, y0 as int, z0 as int),
                (x as int, y1 as int, z1 as int),
                (x as int, y0 as int, z0 as int),
                (x + 1, y1 as int, z1 as int),
                (x0 as int, y0 as int, z0 as int),
                (x1 as int, y1 as int, z1 as int),
            );
            self.lemma_cleared_join(
                mid,
                mid.clear_plane(x, y0, y1, z0, z1),
                (x0 as int, y0 as int, z0 as int),
                (x as int, y1 as int, z1 as int),
                (x as int, y0 as int, z0 as int),
                (x + 1, y1 as int, z1 as int),
                (x0 as int, y0 as int, z0 as int),
                (x1 as int, y1 as int, z1 as int),
            );
        }
    }

    /// Settling one cell fills that cell, if it was empty, and touches no
    /// other.
    pub proof fn lemma_settle_filled(self, field: Seq<u32>, ids: ClassIds, pos: [usize; 3])
        requires
            self.inv(),
            within(self.size, pos),
            self.settle(pos, material_for(self.size, field, ids, pos)).tiles.len() <= usize::MAX,
        ensures
            self.settle(pos, material_for(self.size, field, ids, pos)).inv(),
            self.filled(
                self.settle(pos, material_for(self.size, field, ids, pos)),
                field,
                ids,
                cell(pos),
                (pos[0] + 1, pos[1] + 1, pos[2] + 1),
            ),
    {
        if self.cells[cell(pos)] is None {
            self.lemma_place_inv(pos, material_for(self.size, field, ids, pos));
        }
    }

    /// Filling one box and then another, apart from the first, fills what
    /// the two cover.
    pub proof fn lemma_filled_join(
        self,
        mid: World,
        after: World,
        field: Seq<u32>,
        ids: ClassIds,
        lo1: (int, int, int),
        hi1: (int, int, int),
        lo2: (int, int, int),
        hi2: (int, int, int),
        lo: (int, int, int),
        hi: (int, int, int),
    )
        requires
            mid.inv(),
            self.filled(mid, field, ids, lo1, hi1),
            mid.filled(after, field, ids, lo2, hi2),
            forall|pos: [usize; 3]|
                #![trigger in_box(lo, hi, pos)]
                (in_box(lo, hi, pos) <==> in_box(lo1, hi1, pos) || in_box(lo2, hi2, pos)) && !(
                in_box(lo1, hi1, pos) && in_box(lo2, hi2, pos)),
        ensures
            self.filled(after, field, ids, lo, hi),
    {
    }

    /// A list of tiles too long for the machine stays so when a cell is
    /// settled.
    pub proof fn lemma_settle_len(self, pos: [usize; 3], mat: usize)
        ensures
            self.tiles.len() > usize::MAX ==> self.settle(pos, mat).tiles.len() > usize::MAX,
    {
    }

    /// A list of tiles too long for the machine stays so when a row is
    /// filled.
    pub proof fn lemma_fill_row_len(
        self,
        field: Seq<u32>,
        ids: ClassIds,
        x: usize,
        y: usize,
        z1: usize,
    )
        ensures
            self.tiles.len() > usize::MAX ==> self.fill_row(field, ids, x, y, z1).tiles.len()
                > usize::MAX,
        decreases z1,
    {
        if z1 > 0 {
            let z = (z1 - 1) as usize;
            let pos = [x, y, z];
            self.lemma_fill_row_len(field, ids, x, y, z);
            self.fill_row(field, ids, x, y, z).lemma_settle_len(
                pos,
                material_for(self.size, field, ids, pos),
            );
        }
    }

    /// A list of tiles too long for the machine stays so when rows of a
    /// plane are filled.
    pub proof fn lemma_fill_plane_len(self, field: Seq<u32>, ids: ClassIds, x: usize, y1: usize)
        ensures
            self.tiles.len() > usize::MAX ==> self.fill_plane(field, ids, x, y1).tiles.len()
                > usize::MAX,
        decreases y1,
    {
        if y1 > 0 {
            let y = (y1 - 1) as usize;
            self.lemma_fill_plane_len(field, ids, x, y);
            self.fill_plane(field, ids, x, y).lemma_fill_row_len(field, ids, x, y, self.size[2]);
        }
    }

    /// Filling the start of a row fills its empty cells and touches
    /// nothing else.
    pub proof fn lemma_fill_row(self, field: Seq<u32>, ids: ClassIds, x: usize, y: usize, z1: usize)
        requires
            self.inv(),
            x < self.size[0],
            y < self.size[1],
            z1 <= self.size[2],
            self.fill_row(field, ids, x, y, z1).tiles.len() <= usize::MAX,
        ensures
            self.fill_row(field, ids, x, y, z1).inv(),
            self.filled(
                self.fill_row(field, ids, x, y, z1),
                field,
                ids,
                (x as int, y as int, 0),
                (x + 1, y + 1, z1 as int),
            ),
        decreases z1,
    {
        if z1 > 0 {
            let z = (z1 - 1) as usize;
            let pos = [x, y, z];
            let mid = self.fill_row(field, ids, x, y, z);
            self.lemma_fill_row(field, ids, x, y, z);
            mid.lemma_settle_filled(field, ids, pos);
            self.lemma_filled_join(
                mid,
                mid.settle(pos, material_for(self.size, field, ids, pos)),
                field,
                ids,
                (x as int, y as int, 0),
                (x + 1, y + 1, z as int),
                (x as int, y as int, z as int),
                (x + 1, y + 1, z + 1),
                (x as int, y as int, 0),
                (x + 1, y + 1, z1 as int),
            );
        }
    }

    /// Filling the first rows of a plane fills their empty cells and
    /// touches nothing else.
    pub proof fn lemma_fill_plane(self, field: Seq<u32>, ids: ClassIds, x: usize, y1: usize)
        requires
            self.inv(),
            x < self.size[0],
            y1 <= self.size[1],
            self.fill_plane(field, ids, x, y1).tiles.len() <= usize::MAX,
        ensures
            self.fill_plane(field, ids, x, y1).inv(),
            self.filled(
                self.fill_plane(field, ids, x, y1),
                field,
                ids,
                (x as int, 0, 0),
                (x + 1, y1 as int, self.size[2] as int),
            ),
        decreases y1,
    {
        if y1 > 0 {
            let y = (y1 - 1) as usize;
            let mid = self.fill_plane(field, ids, x, y);
            mid.lemma_fill_row_len(field, ids, x, y, self.size[2]);
            self.lemma_fill_plane(field, ids, x, y);
            mid.lemma_fill_row(field, ids, x, y, self.size[2]);
            self.lemma_filled_join(
                mid,
                mid.fill_row(field, ids, x, y, self.size[2]),
                field,
                ids,
                (x as int, 0, 0),
                (x + 1, y as int, self.size[2] as int),
                (x as int, y as int, 0),
                (x + 1, y + 1, self.size[2] as int),
                (x as int, 0, 0),
                (x + 1, y1 as int, self.size[2] as int),
            );
        }
    }

    /// Filling the first planes of a level fills their empty cells and
    /// touches nothing else.
    pub proof fn lemma_fill_box(self, field: Seq<u32>, ids: ClassIds, x1: usize)
        requires
            self.inv(),
            x1 <= self.size[0],
            self.fill_box(field, ids, x1).tiles.len() <= usize::MAX,
        ensures
            self.fill_box(field, ids, x1).inv(),
            self.filled(
                self.fill_box(field, ids, x1),
                field,
                ids,
                (0, 0, 0),
                (x1 as int, self.size[1] as int, self.size[2] as int),
            ),
        decreases x1,
    {
        if x1 > 0 {
            let x = (x1 - 1) as usize;
            let mid = self.fill_box(field, ids, x);
            mid.lemma_fill_plane_len(field, ids, x, self.size[1]);
            self.lemma_fill_box(field, ids, x);
            mid.lemma_fill_plane(field, ids, x, self.size[1]);
            self.lemma_filled_join(
                mid,
                mid.fill_plane(field, ids, x, self.size[1]),
                field,
                ids,
                (0, 0, 0),
                (x as int, self.size[1] as int, self.size[2] as int),
                (x as int, 0, 0),
                (x + 1, self.size[1] as int, self.size[2] as int),
                (0, 0, 0),
                (x1 as int, self.size[1] as int, self.size[2] as int),
            );
        }
    }

    /// Filling the start of a row adds at most one tile per cell.
    pub proof fn lemma_fill_row_room(
        self,
        field: Seq<u32>,
        ids: ClassIds,
        x: usize,
        y: usize,
        z1: usize,
    )
        requires
            self.inv(),
            x < self.size[0],
            y < self.size[1],
            z1 <= self.size[2],
            self.tiles.len() + z1 <= usize::MAX,
        ensures
            self.fill_row(field, ids, x, y, z1).tiles.len() <= self.tiles.len() + z1,
        decreases z1,
    {
        if z1 > 0 {
            let z = (z1 - 1) as usize;
            self.lemma_fill_row_room(field, ids, x, y, z);
            self.lemma_fill_row(field, ids, x, y, z);
        }
    }

    /// Filling the first rows of a plane adds at most one tile per cell.
    pub proof fn lemma_fill_plane_room(self, field: Seq<u32>, ids: ClassIds, x: usize, y1: usize)
        requires
            self.inv(),
            x < self.size[0],
            y1 <= self.size[1],
            self.tiles.len() + y1 * self.size[2] <= usize::MAX,
        ensures
            self.fill_plane(field, ids, x, y1).tiles.len() <= self.tiles.len() + y1 * self.size[2],
        decreases y1,
    {
        if y1 > 0 {
            let y = (y1 - 1) as usize;
            let sz = self.size[2];
            assert(y * sz + sz == y1 * sz) by (nonlinear_arith)
                requires
                    y + 1 == y1,
            ;
            let mid = self.fill_plane(field, ids, x, y);
            self.lemma_fill_plane_room(field, ids, x, y);
            self.lemma_fill_plane(field, ids, x, y);
            mid.lemma_fill_row_room(field, ids, x, y, sz);
        }
    }

    /// Filling the first planes of a level adds at most one tile per
    /// cell.
    pub proof fn lemma_fill_box_room(self, field: Seq<u32>, ids: ClassIds, x1: usize)
        requires
            self.inv(),
            x1 <= self.size[0],
            self.tiles.len() + x1 * (self.size[1] * self.size[2]) <= usize::MAX,
        ensures
            self.fill_box(field, ids, x1).tiles.len() <= self.tiles.len() + x1 * (self.size[1]
                * self.size[2]),
        decreases x1,
    {
        let plane = self.size[1] * self.size[2];
        if x1 > 0 {
            let x = (x1 - 1) as usize;
            assert(x * plane + plane == x1 * plane) by (nonlinear_arith)
                requires
                    x + 1 == x1,
            ;
            let mid = self.fill_box(field, ids, x);
            self.lemma_fill_box_room(field, ids, x);
            self.lemma_fill_box(field, ids, x);
            mid.lemma_fill_plane_room(field, ids, x, self.size[1]);
        }
    }
}

} // verus!
