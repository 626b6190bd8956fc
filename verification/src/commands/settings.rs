//! The settings commands' decisions: when an update may restart the app,
//! what a scoped reset clears (and when it is refused), and the source
//! picker's rows.

use vstd::prelude::*;

use crate::config::AppConfig;
use crate::support::AppError;
use crate::types::{label_of, opt_view, AppId};

verus! {

/// Which bodies of data a reset deletes outright.
pub struct ResetScopes {
    pub settings: bool,
    pub meetings: bool,
    pub profiles: bool,
    pub dictations: bool,
    pub models: bool,
}

/// What happens to the search index after a reset.
#[derive(Clone, Copy, PartialEq, Eq, Structural, Debug)]
pub enum IndexAfterReset {
    /// Nothing it indexed was deleted.
    Untouched,
    /// Some owners were deleted; drop their chunks.
    AfterDelete,
    /// Nothing owns a chunk anymore; drop the whole index.
    Clear,
}

/// The steps of an accepted reset, in the order they run.
pub struct ResetPlan {
    pub open_library: bool,
    pub clear_meetings: bool,
    pub clear_profiles: bool,
    pub clear_dictations: bool,
    pub index: IndexAfterReset,
    pub clear_models: bool,
    pub restore_settings: bool,
}

/// Names of the machine's audio devices, for the settings pickers.
pub struct AudioDevices {
    pub inputs: Vec<String>,
    pub outputs: Vec<String>,
}

/// The source picker's contents: the apps playing audio, the machine's
/// microphones, and the recording's primary mic.
pub struct AudioSources {
    pub apps: Vec<AudioApp>,
    pub mics: Vec<String>,
    /// The configured device, or the system default when config says
    /// "default" or names a device that is gone.
    pub primary_mic: String,
}

/// One app row of the source picker.
pub struct AudioApp {
    pub pid: u32,
    pub name: String,
}

/// Why installing an update (which restarts the app) must wait, if it
/// must: a recording, a dictation or an import in flight, checked in that
/// order.
pub fn update_guard(recording: bool, dictating: bool, importing: bool) -> (r: Option<AppError>)
    ensures
        recording ==> r matches Some(AppError::RecordingInProgress),
        !recording && dictating ==> r matches Some(AppError::DictationInProgress),
        !recording && !dictating && importing ==> r matches Some(AppError::ImportInProgress),
        !recording && !dictating && !importing ==> r is None,
{
    if recording {
        return Some(AppError::RecordingInProgress);
    }
    if dictating {
        return Some(AppError::DictationInProgress);
    }
    if importing {
        return Some(AppError::ImportInProgress);
    }
    None
}

/// What the search index needs after clearing meetings and dictations as
/// asked.
pub open spec fn index_after(meetings: bool, dictations: bool) -> IndexAfterReset {
    if meetings && dictations {
        IndexAfterReset::Clear
    } else if meetings || dictations {
        IndexAfterReset::AfterDelete
    } else {
        IndexAfterReset::Untouched
    }
}

/// The reset's plan for `scopes`, refused while a recording or a dictation
/// holds the mic.
pub fn reset_plan(scopes: &ResetScopes, recording: bool, dictating: bool) -> (r: Result<
    ResetPlan,
    AppError,
>)
    ensures
        recording ==> r matches Err(AppError::StopRecordingBeforeReset),
        !recording && dictating ==> r matches Err(AppError::StopDictatingBeforeReset),
        !recording && !dictating ==> (r matches Ok(p) && p.open_library == (scopes.meetings
            || scopes.profiles || scopes.dictations) && p.clear_meetings == scopes.meetings
            && p.clear_profiles == scopes.profiles && p.clear_dictations == scopes.dictations
            && p.index == index_after(scopes.meetings, scopes.dictations) && p.clear_models
            == scopes.models && p.restore_settings == scopes.settings),
{
    if recording {
        return Err(AppError::StopRecordingBeforeReset);
    }
    if dictating {
        return Err(AppError::StopDictatingBeforeReset);
    }
    let index = if scopes.meetings && scopes.dictations {
        IndexAfterReset::Clear
    } else if scopes.meetings || scopes.dictations {
        IndexAfterReset::AfterDelete
    } else {
        IndexAfterReset::Untouched
    };
    Ok(
        ResetPlan {
            open_library: scopes.meetings || scopes.profiles || scopes.dictations,
            clear_meetings: scopes.meetings,
            clear_profiles: scopes.profiles,
            clear_dictations: scopes.dictations,
            index,
            clear_models: scopes.models,
            restore_settings: scopes.settings,
        },
    )
}

/// The primary mic: the system default when the configured name is blank
/// or names no present device, else the configured name, trimmed.
pub open spec fn primary_mic_spec(configured: Seq<char>, mics: Seq<Seq<char>>, default_mic: Seq<
    char,
>) -> Seq<char> {
    let name = crate::text::trim(configured);
    if name.len() == 0 {
        default_mic
    } else if mics.contains(name) {
        name
    } else {
        default_mic
    }
}

/// A configured device that is present is the one recorded from, wherever
/// it stands in the list; a blank name or one naming no present device
/// falls back to the default.
pub proof fn lemma_present_device_is_used(configured: Seq<char>, mics: Seq<Seq<char>>, default_mic: Seq<char>)
    ensures
        crate::text::trim(configured).len() > 0 && (exists|k: int|
            0 <= k < mics.len() && #[trigger] mics[k] == crate::text::trim(configured))
            ==> primary_mic_spec(configured, mics, default_mic) == crate::text::trim(configured),
        crate::text::trim(configured).len() == 0 ==> primary_mic_spec(configured, mics, default_mic)
            == default_mic,
        (forall|k: int| 0 <= k < mics.len() ==> #[trigger] mics[k] != crate::text::trim(configured))
            ==> primary_mic_spec(configured, mics, default_mic) == default_mic,
{
}

/// Resolves the recording's primary mic, exactly as capture does.
pub fn primary_mic(configured: &str, mics: &[String], default_mic: String) -> (r: String)
    ensures
        r@ == primary_mic_spec(configured@, crate::text::views(mics@), default_mic@),
        crate::text::trim(configured@).len() > 0 && (exists|k: int|
            0 <= k < mics@.len() && (#[trigger] mics@[k])@ == crate::text::trim(configured@))
            ==> r@ == crate::text::trim(configured@),
        crate::text::trim(configured@).len() == 0 ==> r@ == default_mic@,
        (forall|k: int| 0 <= k < mics@.len() ==> (#[trigger] mics@[k])@ != crate::text::trim(configured@))
            ==> r@ == default_mic@,
{
    proof {
        lemma_present_device_is_used(configured@, crate::text::views(mics@), default_mic@);
        assert forall|k: int| 0 <= k < mics@.len() implies (#[trigger] mics@[k])@
            == crate::text::views(mics@)[k] by {}
    }
    let name = crate::text::trim_string(configured);
    if name.as_str().unicode_len() == 0 {
        return default_mic;
    }
    let mut i: usize = 0;
    while i < mics.len()
        invariant
            i <= mics@.len(),
            name@ == crate::text::trim(configured@),
            name@.len() > 0,
            forall|k: int| 0 <= k < i ==> (#[trigger] mics@[k])@ != name@,
        decreases mics.len() - i,
    {
        if mics[i].as_str().to_owned() == name.as_str().to_owned() {
            proof {
                assert(crate::text::views(mics@)[i as int] == name@);
                assert(crate::text::views(mics@).contains(name@));
            }
            return name;
        }
        i = i + 1;
    }
    proof {
        if crate::text::views(mics@).contains(name@) {
            let k = choose|k: int|
                0 <= k < crate::text::views(mics@).len() && crate::text::views(mics@)[k] == name@;
            assert(mics@[k]@ == name@);
        }
    }
    default_mic
}

/// The picker's rows for the apps playing audio: each app's pid and label.
pub fn audio_app_rows(apps: &[AppId]) -> (r: Vec<AudioApp>)
    ensures
        r@.len() == apps@.len(),
        forall|i: int|
            0 <= i < apps@.len() ==> (#[trigger] r@[i]).pid == apps@[i].pid && r@[i].name@
                == label_of(
                opt_view(apps@[i].exe),
                opt_view(apps@[i].bundle_id),
                opt_view(apps@[i].display_name),
            ),
{
    let mut rows: Vec<AudioApp> = Vec::new();
    let mut i: usize = 0;
    while i < apps.len()
        invariant
            i <= apps@.len(),
            rows@.len() == i,
            forall|k: int|
                0 <= k < i ==> (#[trigger] rows@[k]).pid == apps@[k].pid && rows@[k].name@
                    == label_of(
                    opt_view(apps@[k].exe),
                    opt_view(apps@[k].bundle_id),
                    opt_view(apps@[k].display_name),
                ),
        decreases apps.len() - i,
    {
        let name = apps[i].label().to_owned();
        rows.push(AudioApp { pid: apps[i].pid, name });
        i = i + 1;
    }
    rows
}

/// The source picker's contents from what the OS reported.
pub fn audio_sources(apps: &[AppId], mics: Vec<String>, configured: &str, default_mic: String) -> (r:
    AudioSources)
    ensures
        r.apps@.len() == apps@.len(),
        forall|i: int|
            0 <= i < apps@.len() ==> (#[trigger] r.apps@[i]).pid == apps@[i].pid && r.apps@[i].name@
                == label_of(
                opt_view(apps@[i].exe),
                opt_view(apps@[i].bundle_id),
                opt_view(apps@[i].display_name),
            ),
        r.mics@ == mics@,
        r.primary_mic@ == primary_mic_spec(configured@, crate::text::views(mics@), default_mic@),
{
    let rows = audio_app_rows(apps);
    let primary = primary_mic(configured, mics.as_slice(), default_mic);
    AudioSources { apps: rows, mics, primary_mic: primary }
}


/// The cloud session is server-managed state: the settings page never
/// writes it (sign-in and sign-out change the configuration themselves), so
/// whatever a save carries for the session token and account email is
/// stale by definition and the current values are kept. Every other field
/// is the save's.
pub fn preserve_server_fields(incoming: &mut AppConfig, current: &AppConfig)
    ensures
        final(incoming).cloud_session_token@ == current.cloud_session_token@,
        final(incoming).cloud_account_email@ == current.cloud_account_email@,
        final(incoming).transcription_provider == old(incoming).transcription_provider,
        final(incoming).transcription_power_policy == old(incoming).transcription_power_policy,
        final(incoming).cloud_out_of_hours == old(incoming).cloud_out_of_hours,
        final(incoming).dictation_provider == old(incoming).dictation_provider,
        final(incoming).dictation_out_of_hours == old(incoming).dictation_out_of_hours,
        final(incoming).dictation_cleanup == old(incoming).dictation_cleanup,
        final(incoming).dictation_auto_paste == old(incoming).dictation_auto_paste,
        final(incoming).dictation_copy_clipboard == old(incoming).dictation_copy_clipboard,
        final(incoming).auto_start_policy == old(incoming).auto_start_policy,
        final(incoming).auto_stop == old(incoming).auto_stop,
        final(incoming).detection_delay_secs == old(incoming).detection_delay_secs,
        final(incoming).auto_detect_apps == old(incoming).auto_detect_apps,
        final(incoming).summaries_enabled == old(incoming).summaries_enabled,
        final(incoming).summaries_profile_id == old(incoming).summaries_profile_id,
{
    incoming.cloud_session_token = current.cloud_session_token.clone();
    incoming.cloud_account_email = current.cloud_account_email.clone();
}

} // verus!
