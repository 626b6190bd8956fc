//! Permission state: Linux never gates these capabilities.

use vstd::prelude::*;

use crate::types::PermissionState;

verus! {

/// The microphone permission right now: not a thing on Linux.
pub fn check_microphone() -> (r: PermissionState)
    ensures
        r == PermissionState::NotRequired,
{
    PermissionState::NotRequired
}

/// Synthetic keystrokes need no permission on Linux.
pub fn check_accessibility() -> (r: PermissionState)
    ensures
        r == PermissionState::NotRequired,
{
    PermissionState::NotRequired
}

/// Nothing to ask on Linux.
pub fn request_accessibility() -> (r: PermissionState)
    ensures
        r == PermissionState::NotRequired,
{
    PermissionState::NotRequired
}

} // verus!
