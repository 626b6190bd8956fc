//! What is playing audio right now: the macOS tap is a global mixdown, so
//! there is no per-app list to choose from.

use vstd::prelude::*;

use crate::types::AppId;

verus! {

/// No app rows on macOS: the recording captures everything.
pub fn apps_playing_audio(_exclude_pid: u32) -> (r: Vec<AppId>)
    ensures
        r@.len() == 0,
{
    Vec::new()
}

} // verus!
