//! The save-file description and its version check.

use vstd::prelude::*;
use crate::jobs::SimTime;

verus! {

/// The save format version this library writes and reads.
pub const CURRENT_VERSION: u32 = 1;

/// Describes a save: format version, world seed, tick and creation time.
pub struct SaveMeta {
    pub version: u32,
    pub seed: u64,
    pub tick: u64,
    pub created_at: String,
}

/// Why a save cannot be loaded.
#[derive(Clone, Copy, Debug, PartialEq, Eq, Structural)]
pub enum SaveError {
    /// The save was written in another format version.
    IncompatibleVersion { found: u32, expected: u32 },
}

impl SaveMeta {
    /// The description written with a save of the world grown from `seed`
    /// at the time `time`: the current format version and a fixed timestamp.
    pub fn for_save(seed: u64, time: &SimTime) -> (m: SaveMeta)
        ensures
            m.version == CURRENT_VERSION,
            m.seed == seed,
            m.tick == time.tick,
            m.created_at@ == "2024-01-01T00:00:00Z"@,
    {
        SaveMeta { version: CURRENT_VERSION, seed, tick: time.tick, created_at: "2024-01-01T00:00:00Z".to_string() }
    }

    /// A save can be loaded exactly when it was written in the current format
    /// version; otherwise the error names both versions.
    pub fn check_version(&self) -> (r: Result<(), SaveError>)
        ensures
            r is Ok <==> self.version == CURRENT_VERSION,
            r matches Err(e) ==> e == (SaveError::IncompatibleVersion {
                found: self.version,
                expected: CURRENT_VERSION,
            }),
    {
        if self.version != CURRENT_VERSION {
            Err(SaveError::IncompatibleVersion { found: self.version, expected: CURRENT_VERSION })
        } else {
            Ok(())
        }
    }
}

} // verus!
