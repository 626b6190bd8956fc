//! Storing an image pasted into one of a meeting's documents: which meeting
//! ids may name an asset directory, and how a name clash is retried.

use vstd::prelude::*;

use crate::text::chars_of;

verus! {

/// How many times a paste retries when another paste took its file name.
pub const ASSET_NAME_RETRIES: u32 = 50;

/// Whether a character may not appear in a meeting id that names a
/// directory: a path separator, a dot, a drive colon.
pub open spec fn path_char(c: char) -> bool {
    c == '/' || c == '\\' || c == '.' || c == ':'
}

/// Whether `id` can name a meeting's asset directory: not empty, and no
/// path of its own.
pub open spec fn is_meeting_id_spec(id: Seq<char>) -> bool {
    id.len() > 0 && forall|i: int| 0 <= i < id.len() ==> !path_char(#[trigger] id[i])
}

/// Whether `id` can name a meeting's asset directory.
pub fn is_meeting_id(id: &str) -> (r: bool)
    ensures
        r == is_meeting_id_spec(id@),
{
    let v = chars_of(id);
    if v.len() == 0 {
        return false;
    }
    let mut i: usize = 0;
    while i < v.len()
        invariant
            i <= v@.len(),
            v@ == id@,
            forall|k: int| 0 <= k < i ==> !path_char(#[trigger] v@[k]),
        decreases v.len() - i,
    {
        let c = v[i];
        if c == '/' || c == '\\' || c == '.' || c == ':' {
            proof {
                assert(path_char(v@[i as int]));
            }
            return false;
        }
        i = i + 1;
    }
    true
}

/// Whether a paste whose chosen name was taken tries the next one: only
/// for a clash, and only so many times.
pub fn retries_asset_name(name_taken: bool, attempt: u32) -> (r: bool)
    ensures
        r == (name_taken && attempt < ASSET_NAME_RETRIES),
{
    name_taken && attempt < ASSET_NAME_RETRIES
}

} // verus!
