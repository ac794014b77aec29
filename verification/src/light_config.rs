//! The settings of the transform.

use crate::binary32::Binary32;
use crate::light_args::LightArgs;
use vstd::prelude::*;

verus! {

/// The standard radius of classic mode: 2.0.
pub const CLASSIC_RADIUS_BITS: u32 = 0x4000_0000;

/// The two classes of light colour, each with coefficients of its own.
#[derive(Clone, Copy, Debug, PartialEq, Eq, Structural)]
pub enum Bucket {
    /// The warm range of most artificial light.
    Standard,
    /// Every other hue.
    Colored,
}

/// The four factors of one bucket.
#[derive(Clone, Copy, Debug, PartialEq, Eq, Structural)]
pub struct Coefficients {
    pub hue: Binary32,
    pub saturation: Binary32,
    pub value: Binary32,
    pub radius: Binary32,
}

#[derive(Clone, Copy, Debug, PartialEq, Eq, Structural)]
pub struct LightConfig {
    /// Whether interior cells lose their sunlight. Never stored: only
    /// classic mode sets it.
    pub disable_interior_sun: bool,
    pub disable_flickering: bool,
    pub save_log: bool,
    pub standard_hue: Binary32,
    pub standard_saturation: Binary32,
    pub standard_value: Binary32,
    pub standard_radius: Binary32,
    pub colored_hue: Binary32,
    pub colored_saturation: Binary32,
    pub colored_value: Binary32,
    pub colored_radius: Binary32,
}

/// The argument where there is one, the stored value otherwise.
pub open spec fn preferred<T>(stored: T, argument: Option<T>) -> T {
    match argument {
        Some(given) => given,
        None => stored,
    }
}

fn prefer(stored: Binary32, argument: Option<Binary32>) -> (r: Binary32)
    ensures
        r == preferred(stored, argument),
{
    match argument {
        Some(given) => given,
        None => stored,
    }
}

impl LightConfig {
    /// The configuration of a first run.
    pub open spec fn defaults() -> LightConfig {
        LightConfig {
            disable_interior_sun: false,
            disable_flickering: true,
            save_log: false,
            standard_hue: Binary32 { bits: 0x3F1E_B852 },
            standard_saturation: Binary32 { bits: 0x3F4C_CCCD },
            standard_value: Binary32 { bits: 0x3F11_EB85 },
            standard_radius: Binary32 { bits: 0x3F99_999A },
            colored_hue: Binary32 { bits: 0x3F80_0000 },
            colored_saturation: Binary32 { bits: 0x3F66_6666 },
            colored_value: Binary32 { bits: 0x3F33_3333 },
            colored_radius: Binary32 { bits: 0x3F8C_CCCD },
        }
    }

    /// The factors for lights of the given bucket.
    pub open spec fn coefficients(self, bucket: Bucket) -> Coefficients {
        match bucket {
            Bucket::Standard => Coefficients {
                hue: self.standard_hue,
                saturation: self.standard_saturation,
                value: self.standard_value,
                radius: self.standard_radius,
            },
            Bucket::Colored => Coefficients {
                hue: self.colored_hue,
                saturation: self.colored_saturation,
                value: self.colored_value,
                radius: self.colored_radius,
            },
        }
    }

    /// The configuration of a run: the stored one, or the defaults where
    /// none is stored; over it whatever the arguments give; over both,
    /// classic mode, which fixes the standard radius at 2.0. Interiors lose
    /// their sunlight in classic mode and in no other: nothing stored can
    /// switch that on.
    pub open spec fn resolved(args: LightArgs, stored: Option<LightConfig>) -> LightConfig {
        let base = match stored {
            Some(config) => config,
            None => Self::defaults(),
        };
        LightConfig {
            disable_interior_sun: args.use_classic,
            disable_flickering: preferred(base.disable_flickering, args.disable_flickering),
            save_log: base.save_log,
            standard_hue: preferred(base.standard_hue, args.standard_hue),
            standard_saturation: preferred(base.standard_saturation, args.standard_saturation),
            standard_value: preferred(base.standard_value, args.standard_value),
            standard_radius: if args.use_classic {
                Binary32 { bits: CLASSIC_RADIUS_BITS }
            } else {
                preferred(base.standard_radius, args.standard_radius)
            },
            colored_hue: preferred(base.colored_hue, args.colored_hue),
            colored_saturation: preferred(base.colored_saturation, args.colored_saturation),
            colored_value: preferred(base.colored_value, args.colored_value),
            colored_radius: preferred(base.colored_radius, args.colored_radius),
        }
    }

    /// The configuration of a run, from the arguments and from what was
    /// stored by an earlier run, if anything was.
    pub fn get(light_args: &LightArgs, stored: Option<LightConfig>) -> (config: LightConfig)
        ensures
            config == Self::resolved(*light_args, stored),
            config.disable_interior_sun == light_args.use_classic,
            light_args.use_classic ==> config.standard_radius.bits == CLASSIC_RADIUS_BITS,
    {
        let mut config = match stored {
            Some(config) => config,
            None => LightConfig::default(),
        };
        config.standard_hue = prefer(config.standard_hue, light_args.standard_hue);
        config.standard_saturation =
        prefer(config.standard_saturation, light_args.standard_saturation);
        config.standard_value = prefer(config.standard_value, light_args.standard_value);
        config.standard_radius = prefer(config.standard_radius, light_args.standard_radius);
        config.colored_hue = prefer(config.colored_hue, light_args.colored_hue);
        config.colored_saturation =
        prefer(config.colored_saturation, light_args.colored_saturation);
        config.colored_value = prefer(config.colored_value, light_args.colored_value);
        config.colored_radius = prefer(config.colored_radius, light_args.colored_radius);
        if let Some(status) = light_args.disable_flickering {
            config.disable_flickering = status;
        }
        config.disable_interior_sun = light_args.use_classic;
        if light_args.use_classic {
            config.standard_radius = Binary32 { bits: CLASSIC_RADIUS_BITS };
        }
        config
    }

    /// Whether the configuration of this run is to be stored: it is where
    /// nothing was stored before.
    pub fn store_needed(stored: &Option<LightConfig>) -> (needed: bool)
        ensures
            needed == (stored is None),
    {
        stored.is_none()
    }

    /// The factors for lights of the given bucket.
    pub fn bucket_coefficients(&self, bucket: Bucket) -> (k: Coefficients)
        ensures
            k == self.coefficients(bucket),
    {
        match bucket {
            Bucket::Standard => Coefficients {
                hue: self.standard_hue,
                saturation: self.standard_saturation,
                value: self.standard_value,
                radius: self.standard_radius,
            },
            Bucket::Colored => Coefficients {
                hue: self.colored_hue,
                saturation: self.colored_saturation,
                value: self.colored_value,
                radius: self.colored_radius,
            },
        }
    }
}

impl Default for LightConfig {
    fn default() -> (config: LightConfig)
        ensures
            config == LightConfig::defaults(),
    {
        LightConfig {
            disable_interior_sun: false,
            disable_flickering: true,
            save_log: false,
            standard_hue: crate::default::standard_hue(),
            standard_saturation: crate::default::standard_saturation(),
            standard_value: crate::default::standard_value(),
            standard_radius: crate::default::standard_radius(),
            colored_hue: crate::default::colored_hue(),
            colored_saturation: crate::default::colored_saturation(),
            colored_value: crate::default::colored_value(),
            colored_radius: crate::default::colored_radius(),
        }
    }
}

} // verus!
