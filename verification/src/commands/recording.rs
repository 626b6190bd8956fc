//! Live speaker labels during a recording: the runaway guard that stands
//! diarization down when the clusterer keeps inventing people, and the
//! per-segment label layer.

use vstd::prelude::*;

use crate::config::{
    cloud_gap_spec, local_gap_spec, missing_prerequisite, on_cloud_failure, power_lens_spec,
    provider_for_power, AppConfig, CloudFailureAction, CloudOutOfHours, TranscriptionProvider,
};
use crate::support::{AppError, TranscriptionSegment};
use crate::types::PowerSource;
use crate::text::views;

verus! {

/// Distinct speakers past which live diarization is treated as having
/// failed rather than having found a crowd.
pub const MAX_LIVE_SPEAKERS: usize = 6;

/// Whether the live labels have stopped being believable.
pub fn diarization_has_run_away(distinct_speakers: usize) -> (r: bool)
    ensures
        r == (distinct_speakers > MAX_LIVE_SPEAKERS),
{
    distinct_speakers > MAX_LIVE_SPEAKERS
}

/// Whether `s` holds no string twice.
pub open spec fn distinct(s: Seq<Seq<char>>) -> bool {
    forall|i: int, j: int| 0 <= i < j < s.len() ==> s[i] != s[j]
}

/// The name `renames` gives `label`: the first rename of that label.
pub open spec fn rename_of(renames: Seq<(Seq<char>, Seq<char>)>, label: Seq<char>) -> Option<Seq<char>>
    decreases renames.len(),
{
    if renames.len() == 0 {
        None
    } else if renames[0].0 == label {
        Some(renames[0].1)
    } else {
        rename_of(renames.drop_first(), label)
    }
}

/// The views of the rename pairs.
pub open spec fn rename_views(r: Seq<(String, String)>) -> Seq<(Seq<char>, Seq<char>)> {
    r.map_values(|p: (String, String)| (p.0@, p.1@))
}

/// The view of an optional string.
pub open spec fn speaker_view(o: Option<String>) -> Option<Seq<char>> {
    match o {
        Some(s) => Some(s@),
        None => None,
    }
}

/// The label set after counting `label`.
pub open spec fn counted(seen: Seq<Seq<char>>, label: Seq<char>) -> Seq<Seq<char>> {
    if seen.contains(label) {
        seen
    } else {
        seen.push(label)
    }
}

/// `seg` with its speaker label and speaker id taken off.
pub open spec fn unlabeled(seg: TranscriptionSegment) -> TranscriptionSegment {
    TranscriptionSegment {
        speaker: None,
        speaker_id: None,
        text: seg.text,
        start_ms: seg.start_ms,
        end_ms: seg.end_ms,
    }
}

/// Drop every speaker label from the segments heard so far. Turning
/// labeling off part-way through must not leave a half-labelled transcript.
pub fn strip_speakers(segments: &mut Vec<TranscriptionSegment>)
    ensures
        final(segments)@ == old(segments)@.map_values(|s: TranscriptionSegment| unlabeled(s)),
{
    let ghost before = segments@;
    let mut i: usize = 0;
    while i < segments.len()
        invariant
            segments@.len() == before.len(),
            i <= before.len(),
            forall|j: int| 0 <= j < i ==> segments@[j] == unlabeled(before[j]),
            forall|j: int| i <= j < before.len() ==> segments@[j] == before[j],
        decreases before.len() - i,
    {
        segments[i].speaker = None;
        segments[i].speaker_id = None;
        i = i + 1;
    }
    proof {
        assert(segments@ =~= before.map_values(|s: TranscriptionSegment| unlabeled(s)));
    }
}

/// The label layer for one finalized segment. Labeling off strips the
/// labels and counts nothing. Otherwise the provider's own label is counted
/// into `seen` (a rename changes the name, not the cluster). While the
/// distinct count is past the ceiling the segment comes back bare, and the
/// result is true only for the segment whose new label pushed the count
/// past it (the caller stands labeling down); else any user rename of the
/// label is applied.
#[verifier::loop_isolation(false)]
pub fn label_segment(
    seg: &mut TranscriptionSegment,
    labeling_on: bool,
    seen: &mut Vec<String>,
    renames: &[(String, String)],
) -> (tripped: bool)
    requires
        distinct(views(old(seen)@)),
    ensures
        distinct(views(final(seen)@)),
        final(seg).text@ == old(seg).text@,
        final(seg).start_ms == old(seg).start_ms,
        final(seg).end_ms == old(seg).end_ms,
        !labeling_on ==> !tripped && final(seg).speaker is None && final(seg).speaker_id is None
            && views(final(seen)@) == views(old(seen)@),
        labeling_on && old(seg).speaker is None ==> !tripped && speaker_view(final(seg).speaker)
            is None && speaker_view(final(seg).speaker_id) == speaker_view(old(seg).speaker_id)
            && views(final(seen)@) == views(old(seen)@),
        labeling_on && old(seg).speaker is Some ==> ({
            let label = old(seg).speaker.unwrap()@;
            let after = counted(views(old(seen)@), label);
            &&& views(final(seen)@) == after
            &&& tripped == (!views(old(seen)@).contains(label) && after.len() > MAX_LIVE_SPEAKERS)
            &&& after.len() > MAX_LIVE_SPEAKERS ==> final(seg).speaker is None
                && final(seg).speaker_id is None
            &&& after.len() <= MAX_LIVE_SPEAKERS ==> speaker_view(final(seg).speaker_id)
                == speaker_view(old(seg).speaker_id)
            &&& after.len() <= MAX_LIVE_SPEAKERS ==> speaker_view(final(seg).speaker) == Some(
                match rename_of(rename_views(renames@), label) {
                    Some(n) => n,
                    None => label,
                },
            )
        }),
{
    if !labeling_on {
        seg.speaker = None;
        seg.speaker_id = None;
        return false;
    }
    let label = match &seg.speaker {
        Some(l) => l.as_str().to_owned(),
        None => return false,
    };
    let ghost old_seen = views(seen@);
    let mut present = false;
    let mut k: usize = 0;
    while k < seen.len()
        invariant
            k <= seen@.len(),
            views(seen@) == old_seen,
            present == exists|m: int| 0 <= m < k && seen@[m]@ == label@,
        decreases seen.len() - k,
    {
        if seen[k] == label {
            present = true;
        }
        k = k + 1;
    }
    proof {
        if present {
            let m = choose|m: int| 0 <= m < seen@.len() && seen@[m]@ == label@;
            assert(old_seen[m] == label@);
        } else {
            assert forall|m: int| 0 <= m < old_seen.len() implies old_seen[m] != label@ by {
                assert(old_seen[m] == seen@[m]@);
            }
        }
    }
    if !present {
        let copy = label.as_str().to_owned();
        seen.push(copy);
        proof {
            assert(views(seen@) =~= old_seen.push(label@));
        }
    }
    let distinct_count = seen.len();
    if diarization_has_run_away(distinct_count) {
        seg.speaker = None;
        seg.speaker_id = None;
        return !present;
    }
    let mut j: usize = 0;
    let ghost rv = rename_views(renames@);
    proof {
        assert(rv.skip(0) =~= rv);
    }
    while j < renames.len()
        invariant
            j <= renames@.len(),
            rv == rename_views(renames@),
            seg.text@ == old(seg).text@,
            seg.start_ms == old(seg).start_ms,
            seg.end_ms == old(seg).end_ms,
            speaker_view(seg.speaker) == speaker_view(old(seg).speaker),
            speaker_view(seg.speaker_id) == speaker_view(old(seg).speaker_id),
            rename_of(rv, label@) == rename_of(rv.skip(j as int), label@),
        decreases renames.len() - j,
    {
        proof {
            assert(rv.skip(j as int).drop_first() =~= rv.skip(j + 1));
            assert(rv.skip(j as int)[0] == (renames@[j as int].0@, renames@[j as int].1@));
        }
        if renames[j].0 == label {
            seg.speaker = Some(renames[j].1.as_str().to_owned());
            return false;
        }
        j = j + 1;
    }
    proof {
        assert(rv.skip(j as int) =~= Seq::<(Seq<char>, Seq<char>)>::empty());
    }
    false
}

/// Where a label's segments go after the rename `from` → `to`: `from`
/// itself goes to `to`, a label that went to `from` now goes straight to
/// `to`, and every other rename stands.
pub open spec fn rename_target(
    renames: Seq<(Seq<char>, Seq<char>)>,
    from: Seq<char>,
    to: Seq<char>,
    label: Seq<char>,
) -> Option<Seq<char>> {
    if label == from {
        Some(to)
    } else {
        match rename_of(renames, label) {
            Some(t) => Some(
                if t == from {
                    to
                } else {
                    t
                },
            ),
            None => None,
        }
    }
}

/// The renames with every target `from` pointed at `to` instead.
pub open spec fn retarget(renames: Seq<(Seq<char>, Seq<char>)>, from: Seq<char>, to: Seq<char>) -> Seq<
    (Seq<char>, Seq<char>),
> {
    renames.map_values(
        |p: (Seq<char>, Seq<char>)|
            (
                p.0,
                if p.1 == from {
                    to
                } else {
                    p.1
                },
            ),
    )
}

proof fn lemma_rename_of_retarget(
    renames: Seq<(Seq<char>, Seq<char>)>,
    from: Seq<char>,
    to: Seq<char>,
    label: Seq<char>,
)
    ensures
        rename_of(retarget(renames, from, to), label) == match rename_of(renames, label) {
            Some(t) => Some(
                if t == from {
                    to
                } else {
                    t
                },
            ),
            None => None,
        },
    decreases renames.len(),
{
    if renames.len() > 0 {
        assert(retarget(renames, from, to).drop_first() =~= retarget(renames.drop_first(), from, to));
        lemma_rename_of_retarget(renames.drop_first(), from, to, label);
    }
}

proof fn lemma_rename_of_update_first(
    renames: Seq<(Seq<char>, Seq<char>)>,
    i: int,
    to: Seq<char>,
    label: Seq<char>,
)
    requires
        0 <= i < renames.len(),
        forall|k: int| 0 <= k < i ==> (#[trigger] renames[k]).0 != renames[i].0,
    ensures
        rename_of(renames.update(i, (renames[i].0, to)), label) == if label == renames[i].0 {
            Some(to)
        } else {
            rename_of(renames, label)
        },
    decreases i,
{
    let r2 = renames.update(i, (renames[i].0, to));
    if i > 0 {
        assert(r2[0] == renames[0]);
        assert(r2.drop_first() =~= renames.drop_first().update(i - 1, (renames[i].0, to)));
        assert forall|k: int| 0 <= k < i - 1 implies (#[trigger] renames.drop_first()[k]).0
            != renames.drop_first()[i - 1].0 by {
            assert(renames.drop_first()[k] == renames[k + 1]);
        }
        assert(renames[0].0 != renames[i].0);
        lemma_rename_of_update_first(renames.drop_first(), i - 1, to, label);
    } else {
        assert(r2.drop_first() =~= renames.drop_first());
    }
}

proof fn lemma_rename_of_push(
    renames: Seq<(Seq<char>, Seq<char>)>,
    p: (Seq<char>, Seq<char>),
    label: Seq<char>,
)
    ensures
        rename_of(renames.push(p), label) == match rename_of(renames, label) {
            Some(t) => Some(t),
            None => if p.0 == label {
                Some(p.1)
            } else {
                None
            },
        },
    decreases renames.len(),
{
    if renames.len() > 0 {
        assert(renames.push(p)[0] == renames[0]);
        assert(renames.push(p).drop_first() =~= renames.drop_first().push(p));
        lemma_rename_of_push(renames.drop_first(), p, label);
    } else {
        let e = Seq::<(Seq<char>, Seq<char>)>::empty();
        assert(renames =~= e);
        assert(renames.push(p)[0] == p);
        assert(renames.push(p).drop_first() =~= e);
        assert(rename_of(e, label) is None);
        assert(rename_of(renames.push(p).drop_first(), label) is None);
    }
}

proof fn lemma_rename_of_none(renames: Seq<(Seq<char>, Seq<char>)>, label: Seq<char>)
    requires
        forall|k: int| 0 <= k < renames.len() ==> (#[trigger] renames[k]).0 != label,
    ensures
        rename_of(renames, label) is None,
    decreases renames.len(),
{
    if renames.len() > 0 {
        assert forall|k: int| 0 <= k < renames.drop_first().len() implies (
        #[trigger] renames.drop_first()[k]).0 != label by {
            assert(renames.drop_first()[k] == renames[k + 1]);
        }
        lemma_rename_of_none(renames.drop_first(), label);
    }
}

/// A pill edit during a recording: `from` is renamed to `to` (trimmed).
/// The renames stay one hop (a label that went to `from` now goes straight
/// to `to`) and the segments already labeled `from` are relabeled. A blank
/// name, a blank `from` or a rename to itself changes nothing.
pub fn rename_live_speaker(
    from: &str,
    to: &str,
    renames: &mut Vec<(String, String)>,
    segments: &mut Vec<TranscriptionSegment>,
)
    ensures
        ({
            let t = crate::text::trim(to@);
            if from@.len() == 0 || t.len() == 0 || from@ == t {
                final(renames)@ == old(renames)@ && final(segments)@ == old(segments)@
            } else {
                &&& forall|label: Seq<char>|
                    rename_of(rename_views(final(renames)@), label) == rename_target(
                        rename_views(old(renames)@),
                        from@,
                        t,
                        label,
                    )
                &&& final(segments)@.len() == old(segments)@.len()
                &&& forall|i: int|
                    0 <= i < old(segments)@.len() ==> {
                        let before = #[trigger] old(segments)@[i];
                        let after = final(segments)@[i];
                        &&& after.text@ == before.text@
                        &&& after.start_ms == before.start_ms
                        &&& after.end_ms == before.end_ms
                        &&& speaker_view(after.speaker_id) == speaker_view(before.speaker_id)
                        &&& speaker_view(after.speaker) == if speaker_view(before.speaker)
                            == Some(from@) {
                            Some(t)
                        } else {
                            speaker_view(before.speaker)
                        }
                    }
            }
        }),
{
    let t = crate::text::trim_string(to);
    if from.unicode_len() == 0 || t.as_str().unicode_len() == 0 || from.to_owned() == t.as_str().to_owned() {
        return;
    }
    let ghost r0 = rename_views(renames@);
    let mut i: usize = 0;
    while i < renames.len()
        invariant
            i <= renames@.len(),
            renames@.len() == r0.len(),
            forall|k: int| 0 <= k < i ==> (#[trigger] rename_views(renames@)[k]) == retarget(r0, from@, t@)[k],
            forall|k: int| i <= k < renames@.len() ==> (#[trigger] rename_views(renames@)[k]) == r0[k],
        decreases renames.len() - i,
    {
        let ghost prev = renames@;
        proof {
            assert(rename_views(prev)[i as int] == (prev[i as int].0@, prev[i as int].1@));
        }
        if renames[i].1.as_str().to_owned() == from.to_owned() {
            renames[i].1 = t.as_str().to_owned();
        }
        proof {
            assert(renames@.len() == prev.len());
            assert(renames@[i as int].0@ == prev[i as int].0@);
            assert forall|k: int| 0 <= k < renames@.len() && k != i implies renames@[k] == prev[k] by {}
            assert forall|k: int| 0 <= k < i + 1 implies (#[trigger] rename_views(renames@)[k])
                == retarget(r0, from@, t@)[k] by {
                if k < i {
                    assert(rename_views(renames@)[k] == (renames@[k].0@, renames@[k].1@));
                    assert(rename_views(prev)[k] == (prev[k].0@, prev[k].1@));
                } else {
                    assert(rename_views(renames@)[k] == (renames@[k].0@, renames@[k].1@));
                }
            }
            assert forall|k: int| i + 1 <= k < renames@.len() implies (#[trigger] rename_views(
                renames@,
            )[k]) == r0[k] by {
                assert(rename_views(renames@)[k] == (renames@[k].0@, renames@[k].1@));
                assert(rename_views(prev)[k] == (prev[k].0@, prev[k].1@));
            }
        }
        i = i + 1;
    }
    let ghost r1 = rename_views(renames@);
    proof {
        assert(r1 =~= retarget(r0, from@, t@));
        assert forall|label: Seq<char>| rename_of(r1, label) == match rename_of(r0, label) {
            Some(x) => Some(
                if x == from@ {
                    t@
                } else {
                    x
                },
            ),
            None => None,
        } by {
            lemma_rename_of_retarget(r0, from@, t@, label);
        }
    }
    let mut j: usize = 0;
    let mut found = false;
    while j < renames.len() && !found
        invariant
            j <= renames@.len(),
            r1 == rename_views(renames@),
            found ==> j < r1.len() && r1[j as int].0 == from@,
            forall|k: int| 0 <= k < j ==> (#[trigger] r1[k]).0 != from@,
        decreases renames.len() - j + (if found {
            0int
        } else {
            1int
        }),
    {
        proof {
            assert(r1[j as int] == (renames@[j as int].0@, renames@[j as int].1@));
        }
        if renames[j].0.as_str().to_owned() == from.to_owned() {
            found = true;
        } else {
            j = j + 1;
        }
    }
    if found {
        proof {
            assert(j < r1.len() && r1[j as int].0 == from@);
        }
        renames[j].1 = t.as_str().to_owned();
        proof {
            assert(rename_views(renames@) =~= r1.update(j as int, (r1[j as int].0, t@)));
            assert forall|label: Seq<char>| rename_of(rename_views(renames@), label) == rename_target(
                r0,
                from@,
                t@,
                label,
            ) by {
                lemma_rename_of_update_first(r1, j as int, t@, label);
            }
        }
    } else {
        renames.push((from.to_owned(), t.as_str().to_owned()));
        proof {
            assert(rename_views(renames@) =~= r1.push((from@, t@)));
            lemma_rename_of_none(r1, from@);
            assert forall|label: Seq<char>| rename_of(rename_views(renames@), label) == rename_target(
                r0,
                from@,
                t@,
                label,
            ) by {
                lemma_rename_of_push(r1, (from@, t@), label);
                if label == from@ {
                    lemma_rename_of_retarget(r0, from@, t@, label);
                }
            }
        }
    }
    let mut s: usize = 0;
    while s < segments.len()
        invariant
            s <= segments@.len(),
            segments@.len() == old(segments)@.len(),
            forall|k: int|
                0 <= k < segments@.len() ==> {
                    let before = #[trigger] old(segments)@[k];
                    let after = segments@[k];
                    &&& after.text@ == before.text@
                    &&& after.start_ms == before.start_ms
                    &&& after.end_ms == before.end_ms
                    &&& speaker_view(after.speaker_id) == speaker_view(before.speaker_id)
                    &&& speaker_view(after.speaker) == if k < s && speaker_view(before.speaker)
                        == Some(from@) {
                        Some(t@)
                    } else {
                        speaker_view(before.speaker)
                    }
                },
        decreases segments.len() - s,
    {
        let hit = match &segments[s].speaker {
            Some(sp) => sp.as_str().to_owned() == from.to_owned(),
            None => false,
        };
        if hit {
            segments[s].speaker = Some(t.as_str().to_owned());
        }
        s = s + 1;
    }
}

/// The rename map stays one hop: renaming `a` to `b` and then `b` to `c`
/// sends `a`'s later segments straight to `c`.
pub proof fn lemma_renames_stay_one_hop(
    r0: Seq<(Seq<char>, Seq<char>)>,
    r1: Seq<(Seq<char>, Seq<char>)>,
    r2: Seq<(Seq<char>, Seq<char>)>,
    a: Seq<char>,
    b: Seq<char>,
    c: Seq<char>,
)
    requires
        a != b,
        forall|label: Seq<char>| rename_of(r1, label) == rename_target(r0, a, b, label),
        forall|label: Seq<char>| rename_of(r2, label) == rename_target(r1, b, c, label),
    ensures
        rename_of(r2, a) == Some(c),
        rename_of(r2, b) == Some(c),
{
    assert(rename_of(r1, a) == rename_target(r0, a, b, a));
    assert(rename_of(r2, a) == rename_target(r1, b, c, a));
    assert(rename_of(r2, b) == rename_target(r1, b, c, b));
}

/// What becomes of a failed transcription stream's report.
#[derive(Clone, Copy, PartialEq, Eq, Structural, Debug)]
pub enum StreamFailureRoute {
    /// The recording has moved past this stream; nobody is owed anything.
    MovedOn,
    /// The recording has ended; there is nobody left to tell.
    Ended,
    /// Report it through the recording's one failure path.
    Report,
}

/// Where a stream failure goes: reported only while the stream's
/// generation is still the recording's current one and its event channel
/// is open.
pub fn report_stream_failure(current_generation: u64, generation: u64, channel_open: bool) -> (r:
    StreamFailureRoute)
    ensures
        current_generation != generation ==> r == StreamFailureRoute::MovedOn,
        current_generation == generation && !channel_open ==> r == StreamFailureRoute::Ended,
        current_generation == generation && channel_open ==> r == StreamFailureRoute::Report,
{
    if current_generation != generation {
        return StreamFailureRoute::MovedOn;
    }
    if !channel_open {
        return StreamFailureRoute::Ended;
    }
    StreamFailureRoute::Report
}

/// Why `config` cannot record on `provider`, if it cannot (as
/// `missing_prerequisite` says).
pub open spec fn prerequisite_gap(
    config: AppConfig,
    provider: TranscriptionProvider,
    model: Seq<char>,
    local_ready: bool,
) -> Option<Seq<char>> {
    match provider {
        TranscriptionProvider::Local => local_gap_spec(local_ready, model),
        TranscriptionProvider::Cloud => cloud_gap_spec(
            config.cloud_session_token@.len() > 0,
            local_ready,
            config.cloud_out_of_hours,
            model,
        ),
    }
}

/// The record gate, in order: a recording already running refuses the
/// start; then the configuration must be able to transcribe on the lane
/// the power policy picks; then a dictation holding the mic refuses it.
/// On success, the lane this meeting transcribes on.
pub fn start_gate(
    already_recording: bool,
    dictating: bool,
    config: &AppConfig,
    power: PowerSource,
    model: &str,
    local_ready: bool,
) -> (r: Result<TranscriptionProvider, AppError>)
    ensures
        ({
            let provider = power_lens_spec(
                config.transcription_provider,
                config.transcription_power_policy,
                power,
            );
            if already_recording {
                r matches Err(AppError::AlreadyRecording)
            } else if prerequisite_gap(*config, provider, model@, local_ready) is Some {
                r matches Err(AppError::NotConfigured)
            } else if dictating {
                r matches Err(AppError::BusyDictating)
            } else {
                r == Ok::<TranscriptionProvider, AppError>(provider)
            }
        }),
{
    if already_recording {
        return Err(AppError::AlreadyRecording);
    }
    let provider = provider_for_power(config, power);
    if missing_prerequisite(config, &provider, model, local_ready).is_some() {
        return Err(AppError::NotConfigured);
    }
    if dictating {
        return Err(AppError::BusyDictating);
    }
    Ok(provider)
}

/// Whether the recording's stream is a cloud one: the cloud lane, signed
/// in. Signed out, the relay handshake cannot succeed, so the device
/// transcribes from the first second instead of after a timeout.
pub fn streams_to_cloud(provider: TranscriptionProvider, config: &AppConfig) -> (r: bool)
    ensures
        r == (provider == TranscriptionProvider::Cloud && config.cloud_session_token@.len() > 0),
{
    provider == TranscriptionProvider::Cloud && config.cloud_session_token.as_str().unicode_len() > 0
}

/// What the recording's event forwarder does when its stream fails.
#[derive(Clone, Copy, PartialEq, Eq, Structural, Debug)]
pub enum FailureStep {
    /// The fallback already failed too: transcription is over for this
    /// recording, and the user is told.
    GiveUp,
    /// Keep recording without a transcript, as configured.
    DisableTranscription,
    /// Nothing to switch to: surface the failure.
    Fail,
    /// Swap a local session in behind the same slot.
    SwitchToLocal,
}

/// The forwarder's answer to a failed stream: a second failure gives up;
/// a first one acts on the out-of-hours setting.
pub fn on_stream_failed(fallen_back: bool, out_of_hours: CloudOutOfHours, local_model_present: bool) -> (r:
    FailureStep)
    ensures
        fallen_back ==> r == FailureStep::GiveUp,
        !fallen_back && out_of_hours == CloudOutOfHours::Disabled ==> r
            == FailureStep::DisableTranscription,
        !fallen_back && out_of_hours == CloudOutOfHours::Local ==> r == if local_model_present {
            FailureStep::SwitchToLocal
        } else {
            FailureStep::Fail
        },
{
    if fallen_back {
        return FailureStep::GiveUp;
    }
    match on_cloud_failure(out_of_hours, local_model_present) {
        CloudFailureAction::DisableTranscription => FailureStep::DisableTranscription,
        CloudFailureAction::Fail => FailureStep::Fail,
        CloudFailureAction::SwitchToLocal => FailureStep::SwitchToLocal,
    }
}

/// The notes and title a stop works with: what the frontend sent, or,
/// when a stop arrives with neither (the frontend never answered), the
/// mirrored drafts. A frontend stop always sends its strings, empty ones
/// included, so absent never means cleared.
pub fn stop_drafts(
    user_notes: Option<String>,
    meeting_title: Option<String>,
    mirrored: Option<(String, String)>,
) -> (r: (Option<String>, Option<String>))
    ensures
        user_notes is None && meeting_title is None ==> match mirrored {
            Some(m) => r.0 == Some(m.0) && r.1 == Some(m.1),
            None => r.0 is None && r.1 is None,
        },
        !(user_notes is None && meeting_title is None) ==> r.0 == user_notes && r.1 == meeting_title,
{
    if user_notes.is_none() && meeting_title.is_none() {
        match mirrored {
            Some((notes, title)) => (Some(notes), Some(title)),
            None => (None, None),
        }
    } else {
        (user_notes, meeting_title)
    }
}

/// The user's own title for the meeting: the one typed, trimmed, unless
/// blank.
pub fn user_title(meeting_title: Option<String>) -> (r: Option<String>)
    ensures
        match meeting_title {
            Some(t) => if crate::text::trim(t@).len() > 0 {
                r matches Some(u) && u@ == crate::text::trim(t@)
            } else {
                r is None
            },
            None => r is None,
        },
{
    match meeting_title {
        Some(t) => {
            let u = crate::text::trim_string(t.as_str());
            if u.as_str().unicode_len() > 0 {
                Some(u)
            } else {
                None
            }
        },
        None => None,
    }
}


/// Whether resuming reopens the cloud stream the pause ended: there is a
/// session slot and a recorded reopen request, the lane streams to the
/// cloud, and the slot is buffering audio for a stream not yet open. A
/// reopen failure is handled like any mid-recording failure, so resuming
/// itself never fails.
pub fn reopens_cloud_stream(has_slot: bool, has_reopen_request: bool, stream_is_cloud: bool, slot_buffering: bool) -> (r: bool)
    ensures
        r == (has_slot && has_reopen_request && stream_is_cloud && slot_buffering),
{
    has_slot && has_reopen_request && stream_is_cloud && slot_buffering
}

} // verus!
