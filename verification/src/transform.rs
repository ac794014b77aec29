//! What the merge does to one light and to one cell.

use crate::binary32::{lemma_small_integers_are_exact, Binary32};
use crate::light_config::{Bucket, Coefficients, LightConfig};
use crate::record::{
    AdjustedLight, Atmosphere, CellRecord, Hsv, LightColor, LightRecord, Rgba, LIGHT_FLICKER,
    LIGHT_FLICKER_SLOW, LIGHT_NEGATIVE,
};
use vstd::arithmetic::power2::{lemma2_to64, lemma_pow2_adds, lemma_pow2_pos, pow2};
use vstd::prelude::*;

verus! {

/// 14.0: hues below it are in the colored bucket.
pub const LOWER_HUE_BITS: u32 = 0x4160_0000;

/// 64.0: hues above it are in the colored bucket.
pub const UPPER_HUE_BITS: u32 = 0x4280_0000;

/// The bucket of a hue in degrees: colored above 64 and below 14,
/// standard from 14 to 64, both included, and for a hue that is no number.
pub open spec fn bucket_of(hue: Binary32) -> Bucket {
    if (Binary32 { bits: UPPER_HUE_BITS }).below(hue) || hue.below(
        Binary32 { bits: LOWER_HUE_BITS },
    ) {
        Bucket::Colored
    } else {
        Bucket::Standard
    }
}

/// The radius times the factor, as single-precision arithmetic gives it,
/// without its fraction.
pub open spec fn scaled_radius(radius: u32, factor: Binary32) -> u32 {
    factor.product(Binary32::of_nat(radius as nat)).truncated() as u32
}

/// Each component times its factor.
pub open spec fn scaled_color(color: Hsv, k: Coefficients) -> Hsv {
    Hsv {
        hue: color.hue.product(k.hue),
        saturation: color.saturation.product(k.saturation),
        value: color.value.product(k.value),
    }
}

/// The flags without those of flickering, where flickering is switched
/// off.
pub open spec fn steadied(flags: u32, disable_flickering: bool) -> u32 {
    if disable_flickering {
        flags & !(LIGHT_FLICKER | LIGHT_FLICKER_SLOW)
    } else {
        flags
    }
}

pub open spec fn is_negative(flags: u32) -> bool {
    flags & LIGHT_NEGATIVE != 0
}

/// The light as the merge emits it. A negative light is neutralised: no
/// radius, black, the flag cleared. Any other light has its colour and
/// radius scaled by the factors of its hue's bucket.
pub open spec fn adjusted_light(light: LightRecord, config: LightConfig) -> AdjustedLight {
    let flags = steadied(light.flags, config.disable_flickering);
    if is_negative(light.flags) {
        AdjustedLight {
            id: light.id,
            color: LightColor::Black,
            radius: 0,
            flags: flags & !LIGHT_NEGATIVE,
        }
    } else {
        let k = config.coefficients(bucket_of(light.color.hue));
        AdjustedLight {
            id: light.id,
            color: LightColor::Hsv(scaled_color(light.color, k)),
            radius: scaled_radius(light.radius, k.radius),
            flags,
        }
    }
}

/// The cell as the merge emits it: nothing placed in it, and no sunlight
/// where it has an atmosphere.
pub open spec fn stripped_cell(cell: CellRecord) -> CellRecord {
    CellRecord {
        id: cell.id,
        interior: cell.interior,
        references: 0,
        atmosphere: match cell.atmosphere {
            Some(atmosphere) => Some(
                Atmosphere {
                    ambient_color: atmosphere.ambient_color,
                    sunlight_color: Rgba { red: 0, green: 0, blue: 0, alpha: 0 },
                    fog_color: atmosphere.fog_color,
                    fog_density: atmosphere.fog_density,
                },
            ),
            None => None,
        },
    }
}

/// The two bounds of the warm range are 14 and 64.
pub proof fn lemma_hue_bounds()
    ensures
        (Binary32 { bits: LOWER_HUE_BITS }).scaled() == 14 * pow2(149),
        (Binary32 { bits: UPPER_HUE_BITS }).scaled() == 64 * pow2(149),
{
    let lower = Binary32 { bits: LOWER_HUE_BITS };
    let upper = Binary32 { bits: UPPER_HUE_BITS };
    lemma2_to64();
    assert(lower.significand() == 0xE0_0000);
    assert(lower.exponent() == -20);
    assert(upper.significand() == 0x80_0000);
    assert(upper.exponent() == -17);
    lemma_pow2_adds(20, 129);
    lemma_pow2_adds(17, 132);
    assert(0xE0_0000 * pow2(129) == 14 * (0x10_0000 * pow2(129))) by (nonlinear_arith);
    assert(0x80_0000 * pow2(132) == 64 * (0x2_0000 * pow2(132))) by (nonlinear_arith);
}

/// The boundary is exclusive on both sides. A hue of a whole number of
/// degrees is in the colored bucket where that number is above 64 or below
/// 14, and in the standard bucket from 14 to 64.
pub proof fn lemma_bucket_of_whole_degrees(degrees: nat)
    requires
        degrees < 0x100_0000,
    ensures
        bucket_of(Binary32::of_nat(degrees)) == if degrees > 64 || degrees < 14 {
            Bucket::Colored
        } else {
            Bucket::Standard
        },
{
    let hue = Binary32::of_nat(degrees);
    let unit = pow2(149);
    lemma_hue_bounds();
    lemma_small_integers_are_exact(degrees);
    lemma_pow2_pos(149);
    assert(!(Binary32 { bits: LOWER_HUE_BITS }).is_nan());
    assert(!(Binary32 { bits: UPPER_HUE_BITS }).is_nan());
    assert(degrees > 64 <==> degrees * unit > 64 * unit) by (nonlinear_arith)
        requires
            unit > 0,
    ;
    assert(degrees < 14 <==> degrees * unit < 14 * unit) by (nonlinear_arith)
        requires
            unit > 0,
    ;
}

/// Clearing flags leaves them cleared, and touches no other flag.
proof fn lemma_cleared_flags(flags: u32)
    ensures
        (flags & !LIGHT_NEGATIVE) & LIGHT_NEGATIVE == 0,
        ((flags & !(LIGHT_FLICKER | LIGHT_FLICKER_SLOW)) & !LIGHT_NEGATIVE) & LIGHT_NEGATIVE == 0,
        (flags & !(LIGHT_FLICKER | LIGHT_FLICKER_SLOW)) & (LIGHT_FLICKER | LIGHT_FLICKER_SLOW)
            == 0,
        ((flags & !(LIGHT_FLICKER | LIGHT_FLICKER_SLOW)) & !LIGHT_NEGATIVE) & (LIGHT_FLICKER
            | LIGHT_FLICKER_SLOW) == 0,
{
    assert((flags & !0x004u32) & 0x004u32 == 0) by (bit_vector);
    assert(((flags & !(0x008u32 | 0x040u32)) & !0x004u32) & 0x004u32 == 0) by (bit_vector);
    assert((flags & !(0x008u32 | 0x040u32)) & (0x008u32 | 0x040u32) == 0) by (bit_vector);
    assert(((flags & !(0x008u32 | 0x040u32)) & !0x004u32) & (0x008u32 | 0x040u32) == 0)
        by (bit_vector);
}

/// The bucket of a hue in degrees.
pub fn classify(hue: Binary32) -> (bucket: Bucket)
    ensures
        bucket == bucket_of(hue),
{
    if hue.greater_than(Binary32 { bits: UPPER_HUE_BITS }) || hue.less_than(
        Binary32 { bits: LOWER_HUE_BITS },
    ) {
        Bucket::Colored
    } else {
        Bucket::Standard
    }
}

/// Scales a radius by a factor.
pub fn scale_radius(radius: u32, factor: Binary32) -> (scaled: u32)
    ensures
        scaled == scaled_radius(radius, factor),
{
    factor.times(Binary32::from_u32(radius)).to_u32()
}

/// Scales each component of a colour by its factor.
pub fn scale_color(color: Hsv, k: &Coefficients) -> (scaled: Hsv)
    ensures
        scaled == scaled_color(color, *k),
{
    Hsv {
        hue: color.hue.times(k.hue),
        saturation: color.saturation.times(k.saturation),
        value: color.value.times(k.value),
    }
}

/// Adjusts one light.
pub fn adjust_light(light: &LightRecord, config: &LightConfig) -> (out: AdjustedLight)
    ensures
        out == adjusted_light(*light, *config),
        is_negative(light.flags) ==> out.radius == 0 && out.color == LightColor::Black
            && !is_negative(out.flags),
        config.disable_flickering ==> out.flags & (LIGHT_FLICKER | LIGHT_FLICKER_SLOW) == 0,
{
    proof {
        lemma_cleared_flags(light.flags);
    }
    let flags = if config.disable_flickering {
        light.flags & !(LIGHT_FLICKER | LIGHT_FLICKER_SLOW)
    } else {
        light.flags
    };
    if light.flags & LIGHT_NEGATIVE != 0 {
        AdjustedLight {
            id: light.id.clone(),
            color: LightColor::Black,
            radius: 0,
            flags: flags & !LIGHT_NEGATIVE,
        }
    } else {
        let k = config.bucket_coefficients(classify(light.color.hue));
        AdjustedLight {
            id: light.id.clone(),
            color: LightColor::Hsv(scale_color(light.color, &k)),
            radius: scale_radius(light.radius, k.radius),
            flags,
        }
    }
}

/// Strips one cell.
pub fn strip_cell(cell: &CellRecord) -> (out: CellRecord)
    ensures
        out == stripped_cell(*cell),
{
    CellRecord {
        id: cell.id.clone(),
        interior: cell.interior,
        references: 0,
        atmosphere: match cell.atmosphere {
            Some(atmosphere) => Some(
                Atmosphere {
                    ambient_color: atmosphere.ambient_color,
                    sunlight_color: Rgba { red: 0, green: 0, blue: 0, alpha: 0 },
                    fog_color: atmosphere.fog_color,
                    fog_density: atmosphere.fog_density,
                },
            ),
            None => None,
        },
    }
}

} // verus!
