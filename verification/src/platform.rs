//! The platform profile: which operating-system family the process
//! runs on, and that family's well-known interpreter locations.

use vstd::prelude::*;

pub mod linux;
pub mod macos;

verus! {

/// An operating-system family, selected once at startup and passed
/// explicitly to whatever behaves differently per family.
#[derive(Debug, Clone, Copy, PartialEq, Eq, Structural)]
pub enum Platform {
    Linux,
    MacOS,
    BSD,
    Other,
}

impl Platform {
    /// A human-readable name for the platform.
    pub fn name(&self) -> (r: &'static str)
        ensures
            r@ == match *self {
                Platform::Linux => "Linux"@,
                Platform::MacOS => "macOS"@,
                Platform::BSD => "BSD"@,
                Platform::Other => "Unknown"@,
            },
    {
        match self {
            Platform::Linux => "Linux",
            Platform::MacOS => "macOS",
            Platform::BSD => "BSD",
            Platform::Other => "Unknown",
        }
    }
}

} // verus!
