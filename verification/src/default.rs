//! The coefficients that apply where neither the stored configuration nor
//! the command line gives one.

use crate::binary32::{lemma_nearest_to_ratio, nearest_to_ratio, Binary32};
use vstd::arithmetic::power2::lemma2_to64;
use vstd::prelude::*;

verus! {

/// The factor on the hue of a light of the standard bucket: 0.62 in single precision.
pub fn standard_hue() -> (r: Binary32)
    ensures
        r.bits == 0x3F1E_B852,
        nearest_to_ratio(r, 62, 100),
{
    let r = Binary32 { bits: 0x3F1E_B852 };
    proof {
        lemma2_to64();
        lemma_nearest_to_ratio(r, 62, 100);
    }
    r
}

/// The factor on the saturation of a light of the standard bucket: 0.8 in single precision.
pub fn standard_saturation() -> (r: Binary32)
    ensures
        r.bits == 0x3F4C_CCCD,
        nearest_to_ratio(r, 8, 10),
{
    let r = Binary32 { bits: 0x3F4C_CCCD };
    proof {
        lemma2_to64();
        lemma_nearest_to_ratio(r, 8, 10);
    }
    r
}

/// The factor on the value of a light of the standard bucket: 0.57 in single precision.
pub fn standard_value() -> (r: Binary32)
    ensures
        r.bits == 0x3F11_EB85,
        nearest_to_ratio(r, 57, 100),
{
    let r = Binary32 { bits: 0x3F11_EB85 };
    proof {
        lemma2_to64();
        lemma_nearest_to_ratio(r, 57, 100);
    }
    r
}

/// The factor on the radius of a light of the standard bucket: 1.2 in single precision.
pub fn standard_radius() -> (r: Binary32)
    ensures
        r.bits == 0x3F99_999A,
        nearest_to_ratio(r, 12, 10),
{
    let r = Binary32 { bits: 0x3F99_999A };
    proof {
        lemma2_to64();
        lemma_nearest_to_ratio(r, 12, 10);
    }
    r
}

/// The factor on the hue of a light of the colored bucket: 1.0 in single precision.
pub fn colored_hue() -> (r: Binary32)
    ensures
        r.bits == 0x3F80_0000,
        nearest_to_ratio(r, 1, 1),
{
    let r = Binary32 { bits: 0x3F80_0000 };
    proof {
        lemma2_to64();
        lemma_nearest_to_ratio(r, 1, 1);
    }
    r
}

/// The factor on the saturation of a light of the colored bucket: 0.9 in single precision.
pub fn colored_saturation() -> (r: Binary32)
    ensures
        r.bits == 0x3F66_6666,
        nearest_to_ratio(r, 9, 10),
{
    let r = Binary32 { bits: 0x3F66_6666 };
    proof {
        lemma2_to64();
        lemma_nearest_to_ratio(r, 9, 10);
    }
    r
}

/// The factor on the value of a light of the colored bucket: 0.7 in single precision.
pub fn colored_value() -> (r: Binary32)
    ensures
        r.bits == 0x3F33_3333,
        nearest_to_ratio(r, 7, 10),
{
    let r = Binary32 { bits: 0x3F33_3333 };
    proof {
        lemma2_to64();
        lemma_nearest_to_ratio(r, 7, 10);
    }
    r
}

/// The factor on the radius of a light of the colored bucket: 1.1 in single precision.
pub fn colored_radius() -> (r: Binary32)
    ensures
        r.bits == 0x3F8C_CCCD,
        nearest_to_ratio(r, 11, 10),
{
    let r = Binary32 { bits: 0x3F8C_CCCD };
    proof {
        lemma2_to64();
        lemma_nearest_to_ratio(r, 11, 10);
    }
    r
}

} // verus!
