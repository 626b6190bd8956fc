//! Which apps hold an open microphone stream: detection's signal. The sound
//! server's source-output list is every client with a record stream open,
//! which is exactly the question detection asks.

use vstd::prelude::*;

use crate::platform::linux::pulse::{apps_from_streams, app_view, deduped_views, stream_apps, StreamProps};
use crate::text::views;
use crate::types::AppId;

verus! {

/// The apps recording from a microphone, from the record streams the sound
/// server listed (`None`: no sound server answered, so nothing is
/// recording as far as we can tell, which is no error).
pub fn processes_using_microphone(
    record_streams: Option<&[StreamProps]>,
    exclude_pid: u32,
    markers: &[String],
) -> (r: Vec<AppId>)
    ensures
        match record_streams {
            None => r@.len() == 0,
            Some(s) => r@.map_values(|a: AppId| app_view(a)) == deduped_views(
                stream_apps(s@, exclude_pid, views(markers@)),
            ),
        },
{
    match record_streams {
        None => Vec::new(),
        Some(s) => apps_from_streams(s, exclude_pid, markers),
    }
}

} // verus!
