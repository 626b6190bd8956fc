//! The post-capture pipeline's decisions: whether the speaker pipeline
//! re-derives the labels, which title and attendees a meeting is saved
//! under, what its audio file is called and whether the row keeps it, and
//! which speaker profiles a mid-meeting rename left orphaned.

use vstd::prelude::*;

use crate::platform::linux::theme::{ascii_lower, ascii_lowercase};
use crate::text::{chars_of, push_str, views};
use vstd::string::StringSliceAdditionalSpecFns;
use vstd::utf8::{encode_utf8, is_char_boundary};

verus! {

/// The title a meeting without one of its own, or a summary to take one
/// from, is saved under.
pub open spec fn untitled() -> Seq<char> {
    "Untitled Meeting"@
}

/// Whether the speaker pipeline re-derives the labels from the whole
/// recording: it is enabled, its model is present, there is something to
/// label, and the session's labels are not already final ones.
pub fn runs_speaker_pipeline(
    diarization_enabled: bool,
    speaker_model_present: bool,
    segment_count: usize,
    labels_authoritative: bool,
    any_labeled: bool,
) -> (r: bool)
    ensures
        r == (diarization_enabled && speaker_model_present && segment_count > 0 && !(
        labels_authoritative && any_labeled)),
{
    diarization_enabled && speaker_model_present && segment_count > 0 && !(labels_authoritative
        && any_labeled)
}

/// The meeting's title: the user's own, else the one the summary carries,
/// else "Untitled Meeting".
pub fn meeting_title(user_title: Option<String>, from_summary: Option<String>) -> (r: String)
    ensures
        r@ == match user_title {
            Some(t) => t@,
            None => match from_summary {
                Some(t) => t@,
                None => untitled(),
            },
        },
{
    match user_title {
        Some(t) => t,
        None => match from_summary {
            Some(t) => t,
            None => "Untitled Meeting".to_owned(),
        },
    }
}

/// The meeting's attendees: those the summary names, else the speakers
/// the transcript heard.
pub fn meeting_attendees(inferred: Vec<String>, from_segments: Vec<String>) -> (r: Vec<String>)
    ensures
        r@ == if inferred@.len() == 0 {
            from_segments@
        } else {
            inferred@
        },
{
    if inferred.len() == 0 {
        from_segments
    } else {
        inferred
    }
}

/// UTF-8 of a concatenation is the concatenation of the UTF-8.
pub proof fn lemma_encode_utf8_concat(a: Seq<char>, b: Seq<char>)
    ensures
        encode_utf8(a + b) == encode_utf8(a) + encode_utf8(b),
    decreases a.len(),
{
    if a.len() > 0 {
        assert((a + b).drop_first() =~= a.drop_first() + b);
        assert((a + b)[0] == a[0]);
        lemma_encode_utf8_concat(a.drop_first(), b);
    } else {
        assert(a + b =~= b);
    }
}

/// How many bytes of a meeting id name its audio file: its
/// `yymmddThhmmss` stamp, or the whole id when shorter.
pub open spec fn stamp_len(id_bytes: Seq<u8>) -> int {
    let n = id_bytes.len() as usize;
    if 13 < n {
        13
    } else {
        n as int
    }
}

/// The audio file a finished meeting is renamed to: its id's timestamp
/// stamp, then the sanitized title. The stamp must end on a character
/// boundary of the id (meeting ids are ASCII).
pub fn audio_filename(meeting_id: &str, safe_title: &str) -> (r: String)
    requires
        is_char_boundary(encode_utf8(meeting_id@), stamp_len(encode_utf8(meeting_id@))),
    ensures
        encode_utf8(r@) == encode_utf8(meeting_id@).subrange(0, stamp_len(encode_utf8(meeting_id@)))
            + encode_utf8(" - "@ + safe_title@ + ".mp3"@),
{
    proof {
        assert(meeting_id.spec_bytes() == encode_utf8(meeting_id@));
    }
    let n = meeting_id.len();
    let k: usize = if 13 < n {
        13
    } else {
        n
    };
    proof {
        assert(k as int == stamp_len(encode_utf8(meeting_id@)));
    }
    let (head, _tail) = meeting_id.split_at(k);
    let mut out = head.to_owned();
    let ghost h = out@;
    proof {
        assert(head.spec_bytes() == encode_utf8(head@));
    }
    push_str(&mut out, " - ");
    push_str(&mut out, safe_title);
    push_str(&mut out, ".mp3");
    proof {
        assert(out@ =~= h + (" - "@ + safe_title@ + ".mp3"@));
        lemma_encode_utf8_concat(h, " - "@ + safe_title@ + ".mp3"@);
    }
    out
}

/// The audio path the meeting row records: the renamed file under
/// `audio/` when audio is kept and a file is on disk, else nothing.
pub fn stored_audio_path(retain_audio: bool, audio_present: bool, filename: &str) -> (r: String)
    ensures
        r@ == if retain_audio && audio_present {
            "audio/"@ + filename@
        } else {
            Seq::<char>::empty()
        },
{
    if retain_audio && audio_present {
        let mut out = String::new();
        push_str(&mut out, "audio/");
        push_str(&mut out, filename);
        out
    } else {
        String::new()
    }
}

/// Whether two names are equal ignoring ASCII case.
pub open spec fn same_ignoring_ascii_case(a: Seq<char>, b: Seq<char>) -> bool {
    ascii_lowercase(a) == ascii_lowercase(b)
}

fn lowered(s: &str) -> (v: Vec<char>)
    ensures
        v@ == ascii_lowercase(s@),
{
    let src = chars_of(s);
    let mut v: Vec<char> = Vec::new();
    let mut i: usize = 0;
    while i < src.len()
        invariant
            i <= src@.len(),
            src@ == s@,
            v@ == ascii_lowercase(src@.take(i as int)),
        decreases src.len() - i,
    {
        let c = src[i];
        let l = if 'A' <= c && c <= 'Z' {
            ((c as u8) + 32) as char
        } else {
            c
        };
        v.push(l);
        proof {
            assert(ascii_lowercase(src@.take(i + 1)) =~= ascii_lowercase(src@.take(i as int)).push(
                ascii_lower(c),
            ));
        }
        i = i + 1;
    }
    proof {
        assert(src@.take(src@.len() as int) =~= src@);
    }
    v
}

fn same_chars(a: &[char], b: &[char]) -> (r: bool)
    ensures
        r == (a@ == b@),
{
    if a.len() != b.len() {
        return false;
    }
    let mut i: usize = 0;
    while i < a.len()
        invariant
            i <= a@.len(),
            a@.len() == b@.len(),
            forall|k: int| 0 <= k < i ==> a@[k] == b@[k],
        decreases a.len() - i,
    {
        if a[i] != b[i] {
            return false;
        }
        i = i + 1;
    }
    proof {
        assert(a@ =~= b@);
    }
    true
}

/// Whether a profile's name matches any name renamed away from.
pub open spec fn superseded_by(name: Seq<char>, superseded: Seq<Seq<char>>) -> bool {
    exists|i: int| 0 <= i < superseded.len() && same_ignoring_ascii_case(name, #[trigger] superseded[i])
}

/// The profiles (each a name and an id) that a mid-meeting rename may have
/// left orphaned: those named, ignoring ASCII case, like a label renamed
/// away from. Their ids, in listing order.
pub open spec fn orphan_candidates_spec(
    profiles: Seq<(Seq<char>, Seq<char>)>,
    superseded: Seq<Seq<char>>,
) -> Seq<Seq<char>>
    decreases profiles.len(),
{
    if profiles.len() == 0 {
        Seq::empty()
    } else {
        let prev = orphan_candidates_spec(profiles.drop_last(), superseded);
        if superseded_by(profiles.last().0, superseded) {
            prev.push(profiles.last().1)
        } else {
            prev
        }
    }
}

/// The ids of the profiles a mid-meeting rename may have left orphaned.
pub fn orphan_candidates(profiles: &[(String, String)], superseded: &[String]) -> (r: Vec<String>)
    ensures
        views(r@) == orphan_candidates_spec(
            profiles@.map_values(|p: (String, String)| (p.0@, p.1@)),
            views(superseded@),
        ),
{
    let ghost pv = profiles@.map_values(|p: (String, String)| (p.0@, p.1@));
    let ghost sv = views(superseded@);
    let mut lowered_labels: Vec<Vec<char>> = Vec::new();
    let mut j: usize = 0;
    while j < superseded.len()
        invariant
            j <= superseded@.len(),
            sv == views(superseded@),
            lowered_labels@.len() == j,
            forall|k: int| 0 <= k < j ==> (#[trigger] lowered_labels@[k])@ == ascii_lowercase(sv[k]),
        decreases superseded.len() - j,
    {
        let l = lowered(superseded[j].as_str());
        lowered_labels.push(l);
        j = j + 1;
    }
    let mut out: Vec<String> = Vec::new();
    let mut i: usize = 0;
    while i < profiles.len()
        invariant
            i <= profiles@.len(),
            pv == profiles@.map_values(|p: (String, String)| (p.0@, p.1@)),
            sv == views(superseded@),
            lowered_labels@.len() == sv.len(),
            forall|k: int| 0 <= k < sv.len() ==> (#[trigger] lowered_labels@[k])@ == ascii_lowercase(sv[k]),
            views(out@) == orphan_candidates_spec(pv.take(i as int), sv),
        decreases profiles.len() - i,
    {
        let name = lowered(profiles[i].0.as_str());
        let mut hit = false;
        let mut k: usize = 0;
        while k < lowered_labels.len()
            invariant
                k <= lowered_labels@.len(),
                lowered_labels@.len() == sv.len(),
                i < profiles@.len(),
                name@ == ascii_lowercase(profiles@[i as int].0@),
                forall|m: int| 0 <= m < sv.len() ==> (#[trigger] lowered_labels@[m])@ == ascii_lowercase(sv[m]),
                hit == exists|m: int| 0 <= m < k && same_ignoring_ascii_case(profiles@[i as int].0@, #[trigger] sv[m]),
            decreases lowered_labels.len() - k,
        {
            if same_chars(name.as_slice(), lowered_labels[k].as_slice()) {
                hit = true;
            }
            k = k + 1;
        }
        proof {
            assert(pv.take(i + 1).drop_last() =~= pv.take(i as int));
            assert(pv.take(i + 1).last() == (profiles@[i as int].0@, profiles@[i as int].1@));
        }
        if hit {
            out.push(profiles[i].1.as_str().to_owned());
            proof {
                assert(views(out@) =~= orphan_candidates_spec(pv.take(i as int), sv).push(
                    profiles@[i as int].1@,
                ));
            }
        }
        i = i + 1;
    }
    proof {
        assert(pv.take(profiles@.len() as int) =~= pv);
    }
    out
}

} // verus!
