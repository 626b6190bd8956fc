//! What is playing audio right now: the source picker's app rows, from the
//! sound server's playback streams. The rows are informational: the capture
//! is a mixdown of everything the machine plays, so they tell the user what
//! is about to be captured.

use vstd::prelude::*;

use crate::platform::linux::pulse::{apps_from_streams, app_view, deduped_views, stream_apps, StreamProps};
use crate::text::views;
use crate::types::AppId;

verus! {

/// The apps playing audio, from the playback streams the sound server
/// listed (`None`: no sound server answered).
pub fn apps_playing_audio(
    playback_streams: Option<&[StreamProps]>,
    exclude_pid: u32,
    markers: &[String],
) -> (r: Vec<AppId>)
    ensures
        match playback_streams {
            None => r@.len() == 0,
            Some(s) => r@.map_values(|a: AppId| app_view(a)) == deduped_views(
                stream_apps(s@, exclude_pid, views(markers@)),
            ),
        },
{
    match playback_streams {
        None => Vec::new(),
        Some(s) => apps_from_streams(s, exclude_pid, markers),
    }
}

} // verus!
