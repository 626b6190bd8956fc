//! The silence check-in's decision rule: after a configured stretch with no
//! transcribed word the recording asks "Still recording?"; unanswered past a
//! fixed grace, it acts. The watcher feeds it clocks and acts on the verdict.

use vstd::prelude::*;

verus! {

/// How long an unanswered check-in waits before acting, in seconds.
pub const GRACE_SECS: u64 = 120;

/// Liveness evidence from the transcription stream: the committed text of
/// the last interim seen (empty at rest and after every segment close).
pub struct LivenessTracker {
    last_committed: String,
}

impl View for LivenessTracker {
    type V = Seq<char>;

    closed spec fn view(&self) -> Seq<char> {
        self.last_committed@
    }
}

/// Whether an interim with committed text `committed` proves new final
/// tokens after `last`: it is non-empty and not what it was.
pub open spec fn interim_is_liveness(last: Seq<char>, committed: Seq<char>) -> bool {
    committed.len() > 0 && committed != last
}

impl Default for LivenessTracker {
    /// A tracker at rest: no committed text seen.
    fn default() -> (r: LivenessTracker)
        ensures
            r@ == Seq::<char>::empty(),
    {
        LivenessTracker { last_committed: String::new() }
    }
}

impl LivenessTracker {
    /// A live preview arrived; true when it proves new final tokens. The
    /// tracker remembers the committed text either way.
    pub fn observe_interim(&mut self, committed: &str) -> (advanced: bool)
        ensures
            advanced == interim_is_liveness(old(self)@, committed@),
            final(self)@ == committed@,
    {
        let incoming = committed.to_owned();
        let changed = !(incoming == self.last_committed);
        let advanced = incoming.as_str().unicode_len() > 0 && changed;
        self.last_committed = incoming;
        advanced
    }

    /// An utterance closed: always liveness, and the next utterance's
    /// committed text starts from nothing again.
    pub fn observe_segment(&mut self) -> (r: bool)
        ensures
            r,
            final(self)@ == Seq::<char>::empty(),
    {
        self.last_committed = String::new();
        true
    }
}

/// The same committed text twice in a row is one piece of evidence, not
/// two: only the tentative tail moved.
pub proof fn lemma_repeated_interim_is_not_liveness(last: Seq<char>, committed: Seq<char>)
    requires
        last == committed,
    ensures
        !interim_is_liveness(last, committed),
{
}

/// After an utterance closes, an interim with no committed text is not
/// liveness, however many arrive; the first non-empty one is.
pub proof fn lemma_after_close_only_words_count(committed: Seq<char>)
    ensures
        !interim_is_liveness(Seq::<char>::empty(), Seq::<char>::empty()),
        committed.len() > 0 ==> interim_is_liveness(Seq::<char>::empty(), committed),
{
}

/// The check-in's current standing, as the watcher tracks it.
#[derive(Debug, Clone, Copy, PartialEq, Eq, Structural)]
pub enum Notice {
    /// No check-in showing.
    NotShowing,
    /// A check-in fired this long ago and is awaiting an answer.
    Pending { age_secs: u64 },
    /// "Keep recording" ran its course: no re-nagging until speech resumes.
    StoodDown,
}

/// What one watcher tick should do.
#[derive(Debug, Clone, Copy, PartialEq, Eq, Structural)]
pub enum Verdict {
    /// Nothing to do.
    Quiet,
    /// Silence just crossed the threshold: raise the check-in.
    Notify,
    /// A check-in is up; keep waiting for an answer.
    Waiting,
    /// The grace ran out with no answer: act per the setting.
    Unanswered,
    /// Speech resumed: take the check-in (or the stand-down) back down.
    Cleared,
}

/// The verdict `check` gives.
pub open spec fn verdict_of(silence_secs: u64, threshold_secs: u64, notice: Notice) -> Verdict {
    if threshold_secs == 0 || silence_secs < threshold_secs {
        if notice == Notice::NotShowing {
            Verdict::Quiet
        } else {
            Verdict::Cleared
        }
    } else {
        match notice {
            Notice::NotShowing => Verdict::Notify,
            Notice::Pending { age_secs } => if age_secs >= GRACE_SECS {
                Verdict::Unanswered
            } else {
                Verdict::Waiting
            },
            Notice::StoodDown => Verdict::Quiet,
        }
    }
}

/// The verdict for a watcher tick. A zero threshold means the check-in is
/// off; below the threshold any standing notice comes down; at or past it a
/// fresh notice is raised once, a pending one waits out the grace and then
/// goes unanswered, and a stand-down stays quiet.
pub fn check(silence_secs: u64, threshold_secs: u64, notice: Notice) -> (v: Verdict)
    ensures
        v == verdict_of(silence_secs, threshold_secs, notice),
        (threshold_secs == 0 || silence_secs < threshold_secs) ==> v == (if notice == Notice::NotShowing {
            Verdict::Quiet
        } else {
            Verdict::Cleared
        }),
        (threshold_secs > 0 && silence_secs >= threshold_secs) ==> v == match notice {
            Notice::NotShowing => Verdict::Notify,
            Notice::Pending { age_secs } => if age_secs >= GRACE_SECS {
                Verdict::Unanswered
            } else {
                Verdict::Waiting
            },
            Notice::StoodDown => Verdict::Quiet,
        },
{
    if threshold_secs == 0 {
        return match notice {
            Notice::NotShowing => Verdict::Quiet,
            _ => Verdict::Cleared,
        };
    }
    if silence_secs < threshold_secs {
        return match notice {
            Notice::NotShowing => Verdict::Quiet,
            _ => Verdict::Cleared,
        };
    }
    match notice {
        Notice::NotShowing => Verdict::Notify,
        Notice::Pending { age_secs } => if age_secs >= GRACE_SECS {
            Verdict::Unanswered
        } else {
            Verdict::Waiting
        },
        Notice::StoodDown => Verdict::Quiet,
    }
}

/// What an unanswered check-in does, as configured.
#[derive(Debug, Clone, Copy, PartialEq, Eq, Structural)]
pub enum SilenceUnanswered {
    /// Stop the recording.
    Stop,
    /// Keep recording and stand the check-in down.
    Keep,
}

/// The stored mark of a stand-down (the check-in's record otherwise holds
/// the instant its notice was raised, or 0 when none is up).
pub const STOOD_DOWN_MARK: u64 = 0xffff_ffff_ffff_ffff;

/// The check-in's standing from its stored mark, at `now_ms`.
pub open spec fn notice_of_mark(mark: u64, now_ms: u64) -> Notice {
    if mark == 0 {
        Notice::NotShowing
    } else if mark == STOOD_DOWN_MARK {
        Notice::StoodDown
    } else {
        Notice::Pending { age_secs: (if now_ms >= mark { (now_ms - mark) as u64 } else { 0u64 }) / 1000 }
    }
}

/// Reads the check-in's standing from its stored mark.
pub fn notice_from_mark(mark: u64, now_ms: u64) -> (r: Notice)
    ensures
        r == notice_of_mark(mark, now_ms),
{
    if mark == 0 {
        Notice::NotShowing
    } else if mark == STOOD_DOWN_MARK {
        Notice::StoodDown
    } else {
        Notice::Pending { age_secs: now_ms.saturating_sub(mark) / 1000 }
    }
}

/// What one tick of the silence watcher does.
#[derive(Debug, Clone, Copy, PartialEq, Eq, Structural)]
pub enum SilenceTick {
    /// The watcher exits: its recording ended, or a newer one owns the
    /// check-in.
    Retire,
    /// Nothing this tick.
    Idle,
    /// Raise "Still recording?": store `mark`, and show the countdown to
    /// `stops_at_ms` when an unanswered check-in stops the recording.
    RaiseNotice { mark: u64, stops_at_ms: Option<u64> },
    /// Speech resumed: take the notice (or the stand-down) down.
    ClearNotice,
    /// Unanswered, and configured to stop: take the notice down and stop.
    StopRecording,
    /// Unanswered, and configured to keep going: take the notice down and
    /// stand the check-in down.
    StandDown,
}

/// The tick the watcher takes. `recorder_paused` is `None` once the
/// recording has ended; `streaming` whether a live transcription session
/// is producing the words the clock counts; `last_liveness_ms` the last
/// sign of life; `mark` the check-in's stored mark.
pub open spec fn tick_spec(
    current_generation: u64,
    generation: u64,
    recorder_paused: Option<bool>,
    streaming: bool,
    silence_stop_minutes: u32,
    unanswered: SilenceUnanswered,
    now_ms: u64,
    last_liveness_ms: u64,
    mark: u64,
) -> SilenceTick {
    if current_generation != generation {
        SilenceTick::Retire
    } else {
        match recorder_paused {
            None => SilenceTick::Retire,
            Some(paused) => {
                let threshold = (silence_stop_minutes as u64 * 60) as u64;
                if threshold == 0 || paused || !streaming {
                    SilenceTick::Idle
                } else {
                    let silence = (if now_ms >= last_liveness_ms {
                        (now_ms - last_liveness_ms) as u64
                    } else {
                        0u64
                    }) / 1000;
                    match verdict_of(silence, threshold, notice_of_mark(mark, now_ms)) {
                        Verdict::Quiet | Verdict::Waiting => SilenceTick::Idle,
                        Verdict::Notify => SilenceTick::RaiseNotice {
                            mark: now_ms,
                            stops_at_ms: if unanswered == SilenceUnanswered::Stop {
                                Some((now_ms + GRACE_SECS * 1000) as u64)
                            } else {
                                None
                            },
                        },
                        Verdict::Cleared => SilenceTick::ClearNotice,
                        Verdict::Unanswered => if unanswered == SilenceUnanswered::Stop {
                            SilenceTick::StopRecording
                        } else {
                            SilenceTick::StandDown
                        },
                    }
                }
            },
        }
    }
}

/// One tick of the silence watcher: the check-in's decision, from the
/// recording's state and the clock.
pub fn silence_tick(
    current_generation: u64,
    generation: u64,
    recorder_paused: Option<bool>,
    streaming: bool,
    silence_stop_minutes: u32,
    unanswered: SilenceUnanswered,
    now_ms: u64,
    last_liveness_ms: u64,
    mark: u64,
) -> (r: SilenceTick)
    requires
        unanswered == SilenceUnanswered::Stop ==> now_ms + GRACE_SECS * 1000 <= u64::MAX,
    ensures
        r == tick_spec(
            current_generation,
            generation,
            recorder_paused,
            streaming,
            silence_stop_minutes,
            unanswered,
            now_ms,
            last_liveness_ms,
            mark,
        ),
{
    if current_generation != generation {
        return SilenceTick::Retire;
    }
    let paused = match recorder_paused {
        None => return SilenceTick::Retire,
        Some(p) => p,
    };
    let threshold: u64 = silence_stop_minutes as u64 * 60;
    if threshold == 0 || paused || !streaming {
        return SilenceTick::Idle;
    }
    let silence: u64 = now_ms.saturating_sub(last_liveness_ms) / 1000;
    let notice = notice_from_mark(mark, now_ms);
    match check(silence, threshold, notice) {
        Verdict::Quiet | Verdict::Waiting => SilenceTick::Idle,
        Verdict::Notify => {
            let stops_at_ms = match unanswered {
                SilenceUnanswered::Stop => Some(now_ms + GRACE_SECS * 1000),
                SilenceUnanswered::Keep => None,
            };
            SilenceTick::RaiseNotice { mark: now_ms, stops_at_ms }
        },
        Verdict::Cleared => SilenceTick::ClearNotice,
        Verdict::Unanswered => match unanswered {
            SilenceUnanswered::Stop => SilenceTick::StopRecording,
            SilenceUnanswered::Keep => SilenceTick::StandDown,
        },
    }
}

/// A stand-down never re-nags while the silence continues: with the
/// check-in stood down, no tick raises a notice until speech resumes.
pub proof fn lemma_stand_down_never_renags(
    current_generation: u64,
    generation: u64,
    recorder_paused: Option<bool>,
    streaming: bool,
    silence_stop_minutes: u32,
    unanswered: SilenceUnanswered,
    now_ms: u64,
    last_liveness_ms: u64,
)
    requires
        silence_stop_minutes > 0,
        (if now_ms >= last_liveness_ms { now_ms - last_liveness_ms } else { 0 }) / 1000
            >= silence_stop_minutes * 60,
    ensures
        !(tick_spec(
            current_generation,
            generation,
            recorder_paused,
            streaming,
            silence_stop_minutes,
            unanswered,
            now_ms,
            last_liveness_ms,
            STOOD_DOWN_MARK,
        ) is RaiseNotice),
        !(tick_spec(
            current_generation,
            generation,
            recorder_paused,
            streaming,
            silence_stop_minutes,
            unanswered,
            now_ms,
            last_liveness_ms,
            STOOD_DOWN_MARK,
        ) is StopRecording),
{
}

/// Every raised check-in is answered within the grace: once its notice has
/// been up for the grace period with the silence unbroken, the tick acts on
/// the setting rather than waiting on.
pub proof fn lemma_unanswered_after_grace(
    silence_stop_minutes: u32,
    unanswered: SilenceUnanswered,
    now_ms: u64,
    last_liveness_ms: u64,
    mark: u64,
)
    requires
        silence_stop_minutes > 0,
        mark != 0,
        mark != STOOD_DOWN_MARK,
        mark <= now_ms,
        (now_ms - mark) / 1000 >= GRACE_SECS,
        (if now_ms >= last_liveness_ms { now_ms - last_liveness_ms } else { 0 }) / 1000
            >= silence_stop_minutes * 60,
    ensures
        tick_spec(0, 0, Some(false), true, silence_stop_minutes, unanswered, now_ms, last_liveness_ms, mark)
            == if unanswered == SilenceUnanswered::Stop {
            SilenceTick::StopRecording
        } else {
            SilenceTick::StandDown
        },
{
}

} // verus!
