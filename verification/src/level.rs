//! The world grid: which tile identity, if any, occupies each cell.

use crate::array::{
    array_cells, array_get, array_new, array_set, index_box, CellArray, CELL_BYTES,
};
use crate::error::LvlError;
use vstd::prelude::*;

verus! {

/// The extent of the standard level along x.
pub const LEVEL_SIZE_X: usize = 32;

/// The extent of the standard level along y.
pub const LEVEL_SIZE_Y: usize = 8;

/// The extent of the standard level along z.
pub const LEVEL_SIZE_Z: usize = 32;

/// The number of cells of the standard level.
pub const LVL_S_C: usize = LEVEL_SIZE_X * LEVEL_SIZE_Y * LEVEL_SIZE_Z;

/// A coordinate as the key under which the model of a level holds its cell.
pub open spec fn cell(pos: [usize; 3]) -> (int, int, int) {
    (pos[0] as int, pos[1] as int, pos[2] as int)
}

/// Whether `pos` lies inside a level of extent `size`.
pub open spec fn within(size: [usize; 3], pos: [usize; 3]) -> bool {
    pos[0] < size[0] && pos[1] < size[1] && pos[2] < size[2]
}

/// Whether a level of extent `size` can exist: every axis is positive and
/// the bytes of its cells fit the machine.
pub open spec fn valid_extent(size: [usize; 3]) -> bool {
    &&& 0 < size[0]
    &&& 0 < size[1]
    &&& 0 < size[2]
    &&& size[0] * size[1] * size[2] * CELL_BYTES <= isize::MAX
}

/// A dense grid of fixed extent. Each cell is empty or holds the identity
/// of the tile that occupies it.
pub struct Level {
    tiles: CellArray,
    size: [usize; 3],
}

impl View for Level {
    type V = Map<(int, int, int), Option<usize>>;

    /// The occupant of every cell, keyed by `cell(pos)`.
    closed spec fn view(&self) -> Map<(int, int, int), Option<usize>> {
        array_cells(self.tiles)
    }
}

impl Level {
    /// The extent the level was made with.
    pub closed spec fn spec_size(&self) -> [usize; 3] {
        self.size
    }

    /// The grid covers exactly the cells inside its extent.
    pub closed spec fn wf(&self) -> bool {
        &&& valid_extent(self.size)
        &&& array_cells(self.tiles).dom() == index_box(
            self.size[0] as int,
            self.size[1] as int,
            self.size[2] as int,
        )
    }

    /// The cells of a well-formed level are those inside its extent.
    pub proof fn lemma_domain(&self)
        requires
            self.wf(),
        ensures
            valid_extent(self.spec_size()),
            self@.dom() == index_box(
                self.spec_size()[0] as int,
                self.spec_size()[1] as int,
                self.spec_size()[2] as int,
            ),
            forall|pos: [usize; 3]|
                within(self.spec_size(), pos) <==> #[trigger] self@.dom().contains(cell(pos)),
    {
    }

    /// A level of the given extent with every cell empty, or `None` where
    /// no such level can exist.
    pub fn new(size: [usize; 3]) -> (r: Option<Level>)
        ensures
            r is Some <==> valid_extent(size),
            r matches Some(lvl) ==> {
                &&& lvl.wf()
                &&& lvl.spec_size() == size
                &&& forall|pos: [usize; 3]|
                    within(size, pos) ==> #[trigger] lvl@[cell(pos)] == None::<usize>
            },
    {
        let sx: usize = size[0];
        let sy: usize = size[1];
        let sz: usize = size[2];
        if sx == 0 || sy == 0 || sz == 0 {
            return None;
        }
        let limit: usize = isize::MAX as usize / CELL_BYTES;
        let xy: usize = match sx.checked_mul(sy) {
            Some(p) => p,
            None => {
                proof {
                    assert(sx * sy * sz >= sx * sy) by (nonlinear_arith)
                        requires
                            sz >= 1,
                            sx * sy >= 0,
                    ;
                }
                return None;
            },
        };
        let n: usize = match xy.checked_mul(sz) {
            Some(p) => p,
            None => {
                return None;
            },
        };
        if n > limit {
            return None;
        }
        let tiles = array_new(sx, sy, sz);
        let lvl = Level { tiles, size };
        proof {
            assert forall|pos: [usize; 3]| within(size, pos) implies #[trigger] lvl@[cell(pos)]
                == None::<usize> by {
                assert(array_cells(lvl.tiles).dom().contains(cell(pos)));
            }
        }
        Some(lvl)
    }

    /// The extent of the level.
    pub fn size(&self) -> (r: [usize; 3])
        ensures
            r == self.spec_size(),
    {
        self.size
    }

    /// Whether `pos` names a cell of the level.
    pub fn in_bounds(&self, pos: [usize; 3]) -> (r: bool)
        ensures
            r == within(self.spec_size(), pos),
    {
        pos[0] < self.size[0] && pos[1] < self.size[1] && pos[2] < self.size[2]
    }

    /// The occupant of the cell at `pos`. A coordinate outside the level
    /// is refused.
    pub fn get(&self, pos: [usize; 3]) -> (r: Result<Option<usize>, LvlError>)
        requires
            self.wf(),
        ensures
            within(self.spec_size(), pos) ==> r == Ok::<Option<usize>, LvlError>(self@[cell(pos)]),
            !within(self.spec_size(), pos) ==> r == Err::<Option<usize>, LvlError>(
                LvlError::OutOfBounds,
            ),
    {
        if !self.in_bounds(pos) {
            return Err(LvlError::OutOfBounds);
        }
        Ok(array_get(&self.tiles, pos[0], pos[1], pos[2]))
    }

    /// Overwrites the occupant of the cell at `pos`, whatever it held. A
    /// coordinate outside the level is refused and nothing changes.
    pub fn set(&mut self, pos: [usize; 3], occupant: Option<usize>) -> (r: Result<(), LvlError>)
        requires
            old(self).wf(),
        ensures
            final(self).wf(),
            final(self).spec_size() == old(self).spec_size(),
            within(old(self).spec_size(), pos) ==> r is Ok && final(self)@ == old(self)@.insert(
                cell(pos),
                occupant,
            ),
            !within(old(self).spec_size(), pos) ==> r == Err::<(), LvlError>(LvlError::OutOfBounds)
                && final(self)@ == old(self)@,
    {
        if !self.in_bounds(pos) {
            return Err(LvlError::OutOfBounds);
        }
        array_set(&mut self.tiles, pos[0], pos[1], pos[2], occupant);
        proof {
            assert(old(self)@.insert(cell(pos), occupant).dom() =~= old(self)@.dom());
        }
        Ok(())
    }
}

impl Default for Level {
    /// The level of the standard extent, every cell empty.
    fn default() -> (lvl: Level)
        ensures
            lvl.wf(),
            lvl.spec_size()[0] == LEVEL_SIZE_X,
            lvl.spec_size()[1] == LEVEL_SIZE_Y,
            lvl.spec_size()[2] == LEVEL_SIZE_Z,
            forall|pos: [usize; 3]|
                within(lvl.spec_size(), pos) ==> #[trigger] lvl@[cell(pos)] == None::<usize>,
    {
        let size: [usize; 3] = [LEVEL_SIZE_X, LEVEL_SIZE_Y, LEVEL_SIZE_Z];
        let tiles = array_new(LEVEL_SIZE_X, LEVEL_SIZE_Y, LEVEL_SIZE_Z);
        let lvl = Level { tiles, size };
        proof {
            assert forall|pos: [usize; 3]| within(size, pos) implies #[trigger] lvl@[cell(pos)]
                == None::<usize> by {
                assert(array_cells(lvl.tiles).dom().contains(cell(pos)));
            }
        }
        lvl
    }
}

} // verus!
