//! The target platform, which names the bundled tool binaries.
use vstd::prelude::*;

verus! {

/// Operating system and architecture the application runs on.
#[derive(Debug, Clone, Copy, PartialEq, Eq, Structural)]
pub enum Platform {
    Windows,
    MacArm,
    MacIntel,
    Linux,
}

} // verus!
