//! The naming pass's decisions: whether it runs for a meeting, and what it
//! does with the names the model assigned (rename the segments in place,
//! or hand back suggestions to persist).

use vstd::prelude::*;

use crate::support::TranscriptionSegment;
use crate::text::{lowercase, str_to_lowercase, trim, trim_string};
use crate::types::opt_view;

verus! {

/// What the naming pass does with the names it finds.
#[derive(Clone, Copy, PartialEq, Eq, Structural, Debug)]
pub enum NotesNamingMode {
    /// The pass does not run.
    Off,
    /// The names become pending suggestions.
    Suggest,
    /// The names are applied to the segments directly.
    Automatic,
}

/// One pending "Speaker N looks like X" suggestion, kept per meeting until
/// confirmed or dismissed.
pub struct NameSuggestion {
    pub label: String,
    pub name: String,
}

/// Whether the naming pass runs: not when it is off, and not without notes
/// to read names from.
pub fn naming_pass_runs(mode: NotesNamingMode, user_notes: &str) -> (r: bool)
    ensures
        r == (mode != NotesNamingMode::Off && trim(user_notes@).len() > 0),
{
    if mode == NotesNamingMode::Off {
        return false;
    }
    let t = trim_string(user_notes);
    t.as_str().unicode_len() > 0
}

/// A segment as the pass sees it: speaker, speaker profile, text, start,
/// end.
pub open spec fn segment_view(s: TranscriptionSegment) -> (
    Option<Seq<char>>,
    Option<Seq<char>>,
    Seq<char>,
    u64,
    u64,
) {
    (opt_view(s.speaker), opt_view(s.speaker_id), s.text@, s.start_ms, s.end_ms)
}

/// The profile a name links to: the last listed profile whose name matches
/// it case-insensitively.
pub open spec fn profile_for(profiles: Seq<(Seq<char>, Seq<char>)>, name: Seq<char>) -> Option<
    Seq<char>,
>
    decreases profiles.len(),
{
    if profiles.len() == 0 {
        None
    } else if lowercase(profiles.last().0) == lowercase(name) {
        Some(profiles.last().1)
    } else {
        profile_for(profiles.drop_last(), name)
    }
}

/// A segment after `label` is renamed to `name` (linked to profile `id`).
pub open spec fn rename_segment(
    v: (Option<Seq<char>>, Option<Seq<char>>, Seq<char>, u64, u64),
    label: Seq<char>,
    name: Seq<char>,
    id: Option<Seq<char>>,
) -> (Option<Seq<char>>, Option<Seq<char>>, Seq<char>, u64, u64) {
    if v.0 == Some(label) {
        (Some(name), id, v.2, v.3, v.4)
    } else {
        v
    }
}

/// The segments after each assignment in turn is applied to all of them.
pub open spec fn renamed_all(
    segments: Seq<(Option<Seq<char>>, Option<Seq<char>>, Seq<char>, u64, u64)>,
    assignments: Seq<(Seq<char>, Seq<char>)>,
    profiles: Seq<(Seq<char>, Seq<char>)>,
) -> Seq<(Option<Seq<char>>, Option<Seq<char>>, Seq<char>, u64, u64)>
    decreases assignments.len(),
{
    if assignments.len() == 0 {
        segments
    } else {
        let prev = renamed_all(segments, assignments.drop_last(), profiles);
        let a = assignments.last();
        prev.map_values(
            |v: (Option<Seq<char>>, Option<Seq<char>>, Seq<char>, u64, u64)|
                rename_segment(v, a.0, a.1, profile_for(profiles, a.1)),
        )
    }
}

/// The views of a list of string pairs.
pub open spec fn pair_views(v: Seq<(String, String)>) -> Seq<(Seq<char>, Seq<char>)> {
    v.map_values(|p: (String, String)| (p.0@, p.1@))
}

/// The profile linked to `name`, among `profiles` (each a name and an id).
fn find_profile(profiles: &[(String, String)], name: &str) -> (r: Option<String>)
    ensures
        opt_view(r) == profile_for(pair_views(profiles@), name@),
{
    let wanted = str_to_lowercase(name);
    let mut i: usize = profiles.len();
    proof {
        assert(profiles@.take(i as int) =~= profiles@);
    }
    while i > 0
        invariant
            i <= profiles@.len(),
            wanted@ == lowercase(name@),
            profile_for(pair_views(profiles@), name@) == profile_for(
                pair_views(profiles@.take(i as int)),
                name@,
            ),
        decreases i,
    {
        let here = str_to_lowercase(profiles[i - 1].0.as_str());
        proof {
            assert(pair_views(profiles@.take(i as int)).drop_last() =~= pair_views(
                profiles@.take(i - 1),
            ));
            assert(pair_views(profiles@.take(i as int)).last() == (
                profiles@[i - 1].0@,
                profiles@[i - 1].1@,
            ));
        }
        if here.as_str().to_owned() == wanted.as_str().to_owned() {
            return Some(profiles[i - 1].1.as_str().to_owned());
        }
        i = i - 1;
    }
    proof {
        assert(pair_views(profiles@.take(0)) =~= Seq::<(Seq<char>, Seq<char>)>::empty());
    }
    None
}

/// Applies the model's assignments (each a generic label and the name it
/// stands for) as `mode` says: `Automatic` renames the matching segments
/// in place, linking each to the profile of that name where one exists,
/// and returns nothing; `Suggest` leaves the segments alone and returns the
/// assignments as suggestions; `Off` does nothing. `profiles` are the
/// speaker profiles, each a name and an id.
pub fn apply_assignments(
    mode: NotesNamingMode,
    assignments: Vec<(String, String)>,
    profiles: &[(String, String)],
    segments: &mut Vec<TranscriptionSegment>,
) -> (r: Vec<NameSuggestion>)
    ensures
        mode == NotesNamingMode::Automatic ==> final(segments)@.map_values(
            |s: TranscriptionSegment| segment_view(s),
        ) == renamed_all(
            old(segments)@.map_values(|s: TranscriptionSegment| segment_view(s)),
            pair_views(assignments@),
            pair_views(profiles@),
        ) && r@.len() == 0,
        mode == NotesNamingMode::Suggest ==> final(segments)@ == old(segments)@ && r@.len()
            == assignments@.len() && forall|i: int|
            0 <= i < assignments@.len() ==> (#[trigger] r@[i]).label@ == assignments@[i].0@
                && r@[i].name@ == assignments@[i].1@,
        mode == NotesNamingMode::Off ==> final(segments)@ == old(segments)@ && r@.len() == 0,
{
    match mode {
        NotesNamingMode::Off => Vec::new(),
        NotesNamingMode::Suggest => {
            let mut out: Vec<NameSuggestion> = Vec::new();
            let mut i: usize = 0;
            while i < assignments.len()
                invariant
                    i <= assignments@.len(),
                    out@.len() == i,
                    forall|k: int|
                        0 <= k < i ==> (#[trigger] out@[k]).label@ == assignments@[k].0@
                            && out@[k].name@ == assignments@[k].1@,
                decreases assignments.len() - i,
            {
                let label = assignments[i].0.as_str().to_owned();
                let name = assignments[i].1.as_str().to_owned();
                out.push(NameSuggestion { label, name });
                i = i + 1;
            }
            out
        },
        NotesNamingMode::Automatic => {
            let ghost start = old(segments)@.map_values(|s: TranscriptionSegment| segment_view(s));
            let ghost av = pair_views(assignments@);
            let ghost pv = pair_views(profiles@);
            let mut a: usize = 0;
            while a < assignments.len()
                invariant
                    a <= assignments@.len(),
                    av == pair_views(assignments@),
                    pv == pair_views(profiles@),
                    segments@.map_values(|s: TranscriptionSegment| segment_view(s))
                        == renamed_all(start, av.take(a as int), pv),
                decreases assignments.len() - a,
            {
                let label = assignments[a].0.as_str();
                let name = assignments[a].1.as_str();
                let id = find_profile(profiles, name);
                let ghost before = segments@.map_values(|s: TranscriptionSegment| segment_view(s));
                let mut i: usize = 0;
                while i < segments.len()
                    invariant
                        i <= segments@.len(),
                        before.len() == segments@.len(),
                        label@ == av[a as int].0,
                        name@ == av[a as int].1,
                        opt_view(id) == profile_for(pv, name@),
                        forall|k: int|
                            0 <= k < i ==> segment_view(#[trigger] segments@[k]) == rename_segment(
                                before[k],
                                label@,
                                name@,
                                opt_view(id),
                            ),
                        forall|k: int|
                            i <= k < segments@.len() ==> segment_view(#[trigger] segments@[k])
                                == before[k],
                    decreases segments.len() - i,
                {
                    let hit = match &segments[i].speaker {
                        Some(s) => s.as_str().to_owned() == label.to_owned(),
                        None => false,
                    };
                    proof {
                        assert(segment_view(segments@[i as int]) == before[i as int]);
                    }
                    if hit {
                        let new_id = match &id {
                            Some(p) => Some(p.as_str().to_owned()),
                            None => None,
                        };
                        segments[i].speaker = Some(name.to_owned());
                        segments[i].speaker_id = new_id;
                    }
                    i = i + 1;
                }
                proof {
                    assert(av.take(a + 1).drop_last() =~= av.take(a as int));
                    assert(av.take(a + 1).last() == av[a as int]);
                    assert(segments@.map_values(|s: TranscriptionSegment| segment_view(s))
                        =~= renamed_all(start, av.take(a + 1), pv));
                }
                a = a + 1;
            }
            proof {
                assert(av.take(av.len() as int) =~= av);
            }
            Vec::new()
        },
    }
}

} // verus!
