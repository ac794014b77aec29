//! Merging and rewriting of light records from an ordered stack of game
//! plugins into one consolidated override plugin.
//!
//! A run looks each content entry up in the overlay of data directories
//! (`overlay`), reads the plugins, merges them (`merge`), each light and
//! cell adjusted on its way (`transform`), and writes one plugin
//! (`output`). Reading and writing files is the caller's part.

pub mod binary32;
pub mod default;
pub mod io_error;
pub mod key;
pub mod light_args;
pub mod light_config;
pub mod merge;
pub mod output;
pub mod overlay;
pub mod priority;
pub mod record;
pub mod rounding;
pub mod transform;

pub use io_error::to_io_error;
pub use light_args::LightArgs;
pub use light_config::LightConfig;
pub use overlay::{is_fixable_plugin, PLUGIN_NAME};

use vstd::prelude::*;

verus! {

/// The name of the file that the settings are stored in.
pub const DEFAULT_CONFIG_NAME: &'static str = "lightconfig.toml";

/// The name of the file that the text form of the plugin goes to.
pub const LOG_NAME: &'static str = "lightconfig.log";

} // verus!
