//! The retention janitor: which periodic clean-ups a configuration asks
//! for. Running them against the database and the storage directory is the
//! caller's part.

use vstd::prelude::*;

verus! {

/// How often the retention janitor runs, in seconds (twice a day).
pub const JANITOR_INTERVAL_SECS: u64 = 43200;

/// How often an idle built-in model is considered for release, in seconds.
pub const EVICTION_CHECK_SECS: u64 = 60;

/// The clean-ups one janitor pass runs. A zero limit turns its clean-up
/// off. Orphaned note assets are swept on every pass regardless.
pub struct RetentionPlan {
    /// Delete meetings older than this many days.
    pub meeting_days: u32,
    /// Delete recorded audio older than this many days.
    pub audio_days: u32,
    /// Delete dictations older than this many days.
    pub dictation_days: u32,
    /// Keep at most this many dictations.
    pub dictation_count: u32,
    /// Whether any age or count clean-up runs at all (the database is only
    /// opened for them when one does).
    pub prunes: bool,
}

/// The janitor's plan from the retention settings. The dictation limits
/// apply only while dictation auto-delete is on; the meeting and audio
/// limits stand on their own.
pub fn retention_plan(
    audio_retention_days: u32,
    meeting_retention_days: u32,
    dictation_auto_delete: bool,
    dictation_retention_days: u32,
    dictation_retention_count: u32,
) -> (r: RetentionPlan)
    ensures
        r.meeting_days == meeting_retention_days,
        r.audio_days == audio_retention_days,
        r.dictation_days == if dictation_auto_delete {
            dictation_retention_days
        } else {
            0
        },
        r.dictation_count == if dictation_auto_delete {
            dictation_retention_count
        } else {
            0
        },
        r.prunes == (r.audio_days > 0 || r.meeting_days > 0 || r.dictation_days > 0
            || r.dictation_count > 0),
{
    let (dictation_days, dictation_count) = if dictation_auto_delete {
        (dictation_retention_days, dictation_retention_count)
    } else {
        (0, 0)
    };
    RetentionPlan {
        meeting_days: meeting_retention_days,
        audio_days: audio_retention_days,
        dictation_days,
        dictation_count,
        prunes: audio_retention_days > 0 || meeting_retention_days > 0 || dictation_days > 0
            || dictation_count > 0,
    }
}

} // verus!
