//! The dense three-dimensional array that backs a level, as `ndarray`
//! provides it. Nothing here is proved: each contract restates what the
//! `ndarray` sources document.

use ndarray::Array3;
use vstd::prelude::*;

verus! {

/// An `ndarray::Array3` of optional tile identities. Verus sees nothing
/// inside it; what it holds is named by [`array_cells`].
#[verifier::external_body]
pub struct CellArray {
    inner: Array3<Option<usize>>,
}

/// The elements of an array, keyed by index triple. The domain is the set
/// of valid indices.
pub uninterp spec fn array_cells(a: CellArray) -> Map<(int, int, int), Option<usize>>;

/// The index triples of an array with the given axis lengths.
pub open spec fn index_box(sx: int, sy: int, sz: int) -> Set<(int, int, int)> {
    Set::new(|c: (int, int, int)| 0 <= c.0 < sx && 0 <= c.1 < sy && 0 <= c.2 < sz)
}

/// The bytes that one element of a `CellArray` takes, at most.
pub const CELL_BYTES: usize = 16;

/// The content of a cell that holds no tile.
pub fn vacant() -> (v: Option<usize>)
    ensures
        v is None,
{
    None
}

/// `Array3::from_shape_simple_fn` with `vacant` as the function that
/// makes each element: an array of the given axis lengths whose every
/// element is `None`. The constructor panics when the product of the axis
/// lengths overflows `isize`, and the vector that it collects the
/// elements in panics when their bytes do; the precondition rules out
/// both.
#[verifier::external_body]
pub(crate) fn array_new(sx: usize, sy: usize, sz: usize) -> (a: CellArray)
    requires
        0 < sx,
        0 < sy,
        0 < sz,
        sx * sy * sz * CELL_BYTES <= isize::MAX,
    ensures
        array_cells(a).dom() == index_box(sx as int, sy as int, sz as int),
        forall|c: (int, int, int)| #[trigger]
            array_cells(a).dom().contains(c) ==> array_cells(a)[c] == None::<usize>,
{
    CellArray { inner: Array3::from_shape_simple_fn([sx, sy, sz], || vacant()) }
}

/// Indexing an `Array3` by `[x, y, z]`: the element at a valid index.
/// Indexing panics on an index outside the array, which the precondition
/// rules out.
#[verifier::external_body]
pub(crate) fn array_get(a: &CellArray, x: usize, y: usize, z: usize) -> (v: Option<usize>)
    requires
        array_cells(*a).dom().contains((x as int, y as int, z as int)),
    ensures
        v == array_cells(*a)[(x as int, y as int, z as int)],
{
    a.inner[[x, y, z]]
}

/// Assigning through the mutable index of an `Array3`: the element at a
/// valid index is replaced and every other element stays.
#[verifier::external_body]
pub(crate) fn array_set(a: &mut CellArray, x: usize, y: usize, z: usize, v: Option<usize>)
    requires
        array_cells(*old(a)).dom().contains((x as int, y as int, z as int)),
    ensures
        array_cells(*final(a)) == array_cells(*old(a)).insert((x as int, y as int, z as int), v),
{
    a.inner[[x, y, z]] = v;
}

} // verus!
