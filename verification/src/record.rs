//! The records that the merge reads and writes, as plain values.

use crate::binary32::Binary32;
use vstd::prelude::*;

verus! {

/// Light flag: the light is carried by the engine as a dynamic light.
pub const LIGHT_DYNAMIC: u32 = 0x001;

/// Light flag: the light can be picked up.
pub const LIGHT_CAN_CARRY: u32 = 0x002;

/// Light flag: the light subtracts from its surroundings.
pub const LIGHT_NEGATIVE: u32 = 0x004;

/// Light flag: the light flickers.
pub const LIGHT_FLICKER: u32 = 0x008;

/// Light flag: the light is a fire.
pub const LIGHT_FIRE: u32 = 0x010;

/// Light flag: the light starts switched off.
pub const LIGHT_OFF_BY_DEFAULT: u32 = 0x020;

/// Light flag: the light flickers slowly.
pub const LIGHT_FLICKER_SLOW: u32 = 0x040;

/// Light flag: the light pulses.
pub const LIGHT_PULSE: u32 = 0x080;

/// Light flag: the light pulses slowly.
pub const LIGHT_PULSE_SLOW: u32 = 0x100;

/// A colour as hue in degrees, saturation and value.
#[derive(Clone, Copy, Debug, PartialEq, Eq, Structural)]
pub struct Hsv {
    pub hue: Binary32,
    pub saturation: Binary32,
    pub value: Binary32,
}

/// A colour of four 8-bit channels.
#[derive(Clone, Copy, Debug, PartialEq, Eq, Structural)]
pub struct Rgba {
    pub red: u8,
    pub green: u8,
    pub blue: u8,
    pub alpha: u8,
}

/// A light as a plugin defines it. The colour is the record's 8-bit
/// colour, fourth channel left out, in hue, saturation and value.
#[derive(Clone, Debug)]
pub struct LightRecord {
    pub id: String,
    pub color: Hsv,
    pub radius: u32,
    pub flags: u32,
}

/// The colour of a light that the merge emits.
#[derive(Clone, Copy, Debug, PartialEq, Eq, Structural)]
pub enum LightColor {
    /// All four channels zero.
    Black,
    /// This colour as three 8-bit channels, and a fourth channel of zero.
    Hsv(Hsv),
}

/// A light as the merge emits it.
#[derive(Clone, Debug)]
pub struct AdjustedLight {
    pub id: String,
    pub color: LightColor,
    pub radius: u32,
    pub flags: u32,
}

/// The atmosphere of an interior cell.
#[derive(Clone, Copy, Debug, PartialEq, Eq, Structural)]
pub struct Atmosphere {
    pub ambient_color: Rgba,
    pub sunlight_color: Rgba,
    pub fog_color: Rgba,
    pub fog_density: Binary32,
}

/// A cell as a plugin defines it, and as the merge emits it.
/// `references` is the number of objects placed in the cell.
#[derive(Clone, Debug)]
pub struct CellRecord {
    pub id: String,
    pub interior: bool,
    pub references: usize,
    pub atmosphere: Option<Atmosphere>,
}

/// What one readable plugin of the load order holds: the name and size of
/// its file, and its cells and lights in the order of the file.
#[derive(Clone, Debug)]
pub struct PluginFile {
    pub name: String,
    pub size: u64,
    pub cells: Vec<CellRecord>,
    pub lights: Vec<LightRecord>,
}

} // verus!
