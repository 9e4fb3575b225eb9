//! Terrain classes and the thresholds that sort noise samples into them.
//!
//! A sample is the bit pattern of an IEEE 754 single-precision number.
//! The functions here order such patterns as the numbers they encode.

use crate::material::{find_name, MaterialSpec};
use vstd::prelude::*;

verus! {

/// The kind of ground a sample stands for, from least to most dense.
#[derive(Clone, Copy, Debug, PartialEq, Eq, Structural)]
pub enum TerrainClass {
    Soft,
    Loose,
    Dense,
}

/// The bit pattern of 0.05: samples below it are soft.
pub const SOFT_BELOW: u32 = 0x3D4C_CCCD;

/// The bit pattern of 0.25: samples below it, and not soft, are loose.
pub const LOOSE_BELOW: u32 = 0x3E80_0000;

/// The pattern without its sign bit.
pub open spec fn magnitude(bits: u32) -> int {
    if bits >= 0x8000_0000 {
        bits - 0x8000_0000
    } else {
        bits as int
    }
}

/// Whether the pattern encodes no number.
pub open spec fn is_nan(bits: u32) -> bool {
    magnitude(bits) > 0x7F80_0000
}

/// Where the encoded number stands among all encoded numbers: a larger
/// number has a larger rank, and both zeros have rank 0.
pub open spec fn rank(bits: u32) -> int {
    if bits >= 0x8000_0000 {
        -magnitude(bits)
    } else {
        magnitude(bits)
    }
}

/// Whether the number that `a` encodes is less than the one that `b`
/// encodes. Nothing is less than, or greater than, a pattern that
/// encodes no number.
pub open spec fn below(a: u32, b: u32) -> bool {
    !is_nan(a) && !is_nan(b) && rank(a) < rank(b)
}

/// The class of a sample.
pub open spec fn class_of(sample: u32) -> TerrainClass {
    if below(sample, SOFT_BELOW) {
        TerrainClass::Soft
    } else if below(sample, LOOSE_BELOW) {
        TerrainClass::Loose
    } else {
        TerrainClass::Dense
    }
}

/// Compares two samples as the numbers they encode.
pub fn sample_less(a: u32, b: u32) -> (r: bool)
    ensures
        r == below(a, b),
{
    let sign: u32 = 0x8000_0000;
    let infinity: u32 = 0x7F80_0000;
    let ma: u32 = if a >= sign { a - sign } else { a };
    let mb: u32 = if b >= sign { b - sign } else { b };
    if ma > infinity || mb > infinity {
        return false;
    }
    if a >= sign {
        if b >= sign {
            ma > mb
        } else {
            ma > 0 || mb > 0
        }
    } else {
        if b >= sign {
            false
        } else {
            ma < mb
        }
    }
}

/// Sorts a sample into its class: soft below 0.05, loose from 0.05 up to
/// but not including 0.25, dense from 0.25 on and for a sample that
/// encodes no number.
pub fn classify(sample: u32) -> (c: TerrainClass)
    ensures
        c == class_of(sample),
{
    if sample_less(sample, SOFT_BELOW) {
        TerrainClass::Soft
    } else if sample_less(sample, LOOSE_BELOW) {
        TerrainClass::Loose
    } else {
        TerrainClass::Dense
    }
}

/// The classes keep their order: a sample of a lesser number never falls
/// into a denser class.
pub proof fn law_classes_keep_order(a: u32, b: u32)
    requires
        below(a, b),
    ensures
        class_of(a) == TerrainClass::Dense ==> class_of(b) == TerrainClass::Dense,
        class_of(b) == TerrainClass::Soft ==> class_of(a) == TerrainClass::Soft,
{
}

/// The registry ids of the materials that stand for the three classes.
#[derive(Clone, Copy, Debug, PartialEq, Eq)]
pub struct ClassIds {
    pub soft: usize,
    pub loose: usize,
    pub dense: usize,
}

impl ClassIds {
    /// The material that stands for `class`.
    pub open spec fn spec_pick(self, class: TerrainClass) -> usize {
        match class {
            TerrainClass::Soft => self.soft,
            TerrainClass::Loose => self.loose,
            TerrainClass::Dense => self.dense,
        }
    }
}

/// The materials that `mats` offers for the three classes: "Wood" for
/// soft, "Dirt" for loose and "Stone" for dense ground. `None` where one
/// of the three is not registered.
pub open spec fn class_ids(mats: Seq<MaterialSpec>) -> Option<ClassIds> {
    if find_name(mats, "Wood"@) is Some && find_name(mats, "Dirt"@) is Some && find_name(
        mats,
        "Stone"@,
    ) is Some {
        Some(
            ClassIds {
                soft: find_name(mats, "Wood"@)->0.id,
                loose: find_name(mats, "Dirt"@)->0.id,
                dense: find_name(mats, "Stone"@)->0.id,
            },
        )
    } else {
        None
    }
}

} // verus!
