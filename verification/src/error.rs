use vstd::prelude::*;

verus! {

/// Errors of the configuration store and the instance launcher.
///
/// Resolution never returns one of these: a missing or corrupt file and an
/// absent discovery value degrade silently to the next fallback tier.
/// Persistence and launch surface their failures through this type.
#[derive(Debug, Clone, Copy, PartialEq, Eq, Structural)]
pub enum AppError {
    /// A filesystem read, write or create-directory call failed.
    IoError,
    /// The persisted configuration text was malformed.
    SerializationError,
    /// The platform discovery lookup found no key or no value.
    DiscoveryError,
    /// A required input field of a launch request was empty.
    InvalidInputError,
    /// The requested installation path names no existing filesystem entry.
    PathNotFoundError,
    /// Spawning the instance with this 1-based index failed; instances
    /// spawned before it keep running.
    LaunchFailedError { index: u32 },
}

} // verus!
