//! Where the generated plugin goes.

use vstd::prelude::*;

verus! {

/// What is found at the configured output directory.
#[derive(Clone, Copy, Debug, PartialEq, Eq, Structural)]
pub enum PathStatus {
    /// A directory.
    Directory,
    /// Something that is no directory.
    NotDirectory,
    /// Nothing.
    Missing,
    /// Whatever is there cannot be examined.
    Unreadable,
}

/// The directory to write the plugin to.
#[derive(Clone, Copy, Debug, PartialEq, Eq, Structural)]
pub enum OutputTarget {
    /// The configured directory, as it is.
    Configured,
    /// The configured directory, once it and its parents are created.
    Created,
    /// The working directory, with a warning: the configured path is taken.
    WorkingDirectory,
}

/// The target for each state of the configured directory; none where the
/// state cannot be known, which ends the run.
pub open spec fn target_for(status: PathStatus) -> Option<OutputTarget> {
    match status {
        PathStatus::Directory => Some(OutputTarget::Configured),
        PathStatus::NotDirectory => Some(OutputTarget::WorkingDirectory),
        PathStatus::Missing => Some(OutputTarget::Created),
        PathStatus::Unreadable => None,
    }
}

/// Chooses the directory to write to.
pub fn output_target(status: PathStatus) -> (target: Option<OutputTarget>)
    ensures
        target == target_for(status),
{
    match status {
        PathStatus::Directory => Some(OutputTarget::Configured),
        PathStatus::NotDirectory => Some(OutputTarget::WorkingDirectory),
        PathStatus::Missing => Some(OutputTarget::Created),
        PathStatus::Unreadable => None,
    }
}

} // verus!
