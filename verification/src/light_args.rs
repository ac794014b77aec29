//! What the command line can set.

use crate::binary32::Binary32;
use vstd::prelude::*;

verus! {

/// The arguments of one run. A coefficient given here replaces the one of
/// the stored configuration.
#[derive(Clone, Debug)]
pub struct LightArgs {
    /// Path to the game's configuration file or its directory.
    pub openmw_cfg: Option<String>,
    /// Classic mode: a fixed standard radius, and no sunlight indoors.
    pub use_classic: bool,
    /// The directory that the generated plugin goes to.
    pub output: Option<String>,
    /// Whether to save a text form of the generated plugin.
    pub write_log: bool,
    /// Whether to enable the generated plugin in the game's configuration.
    pub auto_enable: bool,
    /// Print instead of showing dialogs.
    pub no_notifications: bool,
    /// Print what the run works from.
    pub debug: bool,
    /// Print the version and stop.
    pub info: bool,
    /// Whether to switch flickering off.
    pub disable_flickering: Option<bool>,
    pub standard_hue: Option<Binary32>,
    pub standard_saturation: Option<Binary32>,
    pub standard_value: Option<Binary32>,
    pub standard_radius: Option<Binary32>,
    pub colored_hue: Option<Binary32>,
    pub colored_saturation: Option<Binary32>,
    pub colored_value: Option<Binary32>,
    pub colored_radius: Option<Binary32>,
}

} // verus!
