//! The transcription lane rules: who transcribes a recording (the standing
//! choice bent by the power policy), whether a configuration can start one
//! at all, and what a failing cloud session falls back to.

use vstd::prelude::*;

use crate::autodetect::{AutoStartPolicy, AutoStopScope};
use crate::text::{contains, occurs_at, push_str};
use crate::types::PowerSource;

verus! {

/// Who transcribes.
#[derive(Debug, Clone, Copy, PartialEq, Eq, Structural)]
pub enum TranscriptionProvider {
    /// This device, with the local model.
    Local,
    /// The cloud relay, with the signed-in account.
    Cloud,
}

/// The power policy: a lens over the standing provider choice.
#[derive(Debug, Clone, Copy, PartialEq, Eq, Structural)]
pub enum PowerPolicy {
    /// The standing choice always stands.
    Off,
    /// Cloud on battery, this device on wall power.
    CloudOnBattery,
}

/// What a cloud session that cannot go on falls back to.
#[derive(Debug, Clone, Copy, PartialEq, Eq, Structural)]
pub enum CloudOutOfHours {
    /// "Switch to this device".
    Local,
    /// "Disable transcription".
    Disabled,
}

/// The dictation cleanup tier.
#[derive(Debug, Clone, Copy, PartialEq, Eq, Structural)]
pub enum DictationCleanup {
    Off,
    OnDevice,
    Cloud,
}

/// The settings the lane, detection and dictation rules read.
pub struct AppConfig {
    pub transcription_provider: TranscriptionProvider,
    pub transcription_power_policy: PowerPolicy,
    /// The signed-in device's session token; empty when signed out.
    pub cloud_session_token: String,
    /// The signed-in account's email; empty when signed out.
    pub cloud_account_email: String,
    pub cloud_out_of_hours: CloudOutOfHours,
    pub dictation_provider: TranscriptionProvider,
    pub dictation_out_of_hours: CloudOutOfHours,
    pub dictation_cleanup: DictationCleanup,
    pub dictation_auto_paste: bool,
    pub dictation_copy_clipboard: bool,
    pub auto_start_policy: AutoStartPolicy,
    pub auto_stop: AutoStopScope,
    pub detection_delay_secs: u32,
    pub auto_detect_apps: Vec<String>,
    /// Whether meetings get a generated summary.
    pub summaries_enabled: bool,
    /// The LLM profile summaries run on; empty means the built-in one.
    pub summaries_profile_id: String,
}

/// The power policy's rule: on battery the cloud transcribes, on wall power
/// this device does; an unknown power source leaves the standing choice.
pub open spec fn power_lens_spec(
    configured: TranscriptionProvider,
    policy: PowerPolicy,
    power: PowerSource,
) -> TranscriptionProvider {
    match (policy, power) {
        (PowerPolicy::CloudOnBattery, PowerSource::Battery) => TranscriptionProvider::Cloud,
        (PowerPolicy::CloudOnBattery, PowerSource::Plugged) => TranscriptionProvider::Local,
        _ => configured,
    }
}

/// Applies the power policy to the standing provider choice.
pub fn power_lens(
    configured: TranscriptionProvider,
    policy: PowerPolicy,
    power: PowerSource,
) -> (r: TranscriptionProvider)
    ensures
        r == power_lens_spec(configured, policy, power),
{
    match (policy, power) {
        (PowerPolicy::CloudOnBattery, PowerSource::Battery) => TranscriptionProvider::Cloud,
        (PowerPolicy::CloudOnBattery, PowerSource::Plugged) => TranscriptionProvider::Local,
        _ => configured,
    }
}

/// Who transcribes the recording about to start: the standing choice as
/// the power policy bends it. Never written back to the configuration.
pub fn provider_for_power(config: &AppConfig, power: PowerSource) -> (r: TranscriptionProvider)
    ensures
        r == power_lens_spec(config.transcription_provider, config.transcription_power_policy, power),
{
    power_lens(config.transcription_provider, config.transcription_power_policy, power)
}

/// An unknown power source never moves a recording between lanes, and
/// with the policy off nothing does.
pub proof fn lemma_unknown_power_never_moves_the_lane(
    configured: TranscriptionProvider,
    policy: PowerPolicy,
    power: PowerSource,
)
    ensures
        power_lens_spec(configured, policy, PowerSource::Unknown) == configured,
        power_lens_spec(configured, PowerPolicy::Off, power) == configured,
{
}

/// Why the local lane cannot record: its model is not on disk.
pub open spec fn local_gap_spec(local_ready: bool, model: Seq<char>) -> Option<Seq<char>> {
    if local_ready {
        None
    } else {
        Some("provider is this device, but the model '"@ + model + "' is not on disk"@)
    }
}

/// The local lane's refusal, if it refuses.
pub fn local_gap(local_ready: bool, model: &str) -> (r: Option<String>)
    ensures
        match r {
            Some(t) => local_gap_spec(local_ready, model@) == Some(t@),
            None => local_gap_spec(local_ready, model@) is None,
        },
{
    if local_ready {
        return None;
    }
    let mut out = String::new();
    push_str(&mut out, "provider is this device, but the model '");
    push_str(&mut out, model);
    push_str(&mut out, "' is not on disk");
    Some(out)
}

/// Why the cloud lane cannot record: nothing can transcribe (signed out
/// with no local model), or the chosen fallback is the device and the
/// model is missing.
pub open spec fn cloud_gap_spec(
    signed_in: bool,
    local_ready: bool,
    out_of_hours: CloudOutOfHours,
    model: Seq<char>,
) -> Option<Seq<char>> {
    if !signed_in && !local_ready {
        Some(
            "provider is cloud but no account is signed in, and the fallback model '"@ + model
                + "' is not on disk"@,
        )
    } else if out_of_hours != CloudOutOfHours::Disabled && !local_ready {
        Some(
            "provider is cloud with 'switch to this device' as the fallback, but the model '"@
                + model + "' is not on disk"@,
        )
    } else {
        None
    }
}

/// The cloud lane's refusal, if it refuses.
pub fn cloud_gap(
    signed_in: bool,
    local_ready: bool,
    out_of_hours: CloudOutOfHours,
    model: &str,
) -> (r: Option<String>)
    ensures
        match r {
            Some(t) => cloud_gap_spec(signed_in, local_ready, out_of_hours, model@) == Some(t@),
            None => cloud_gap_spec(signed_in, local_ready, out_of_hours, model@) is None,
        },
{
    let fallback_disables = out_of_hours == CloudOutOfHours::Disabled;
    if !signed_in && !local_ready {
        let mut out = String::new();
        push_str(&mut out, "provider is cloud but no account is signed in, and the fallback model '");
        push_str(&mut out, model);
        push_str(&mut out, "' is not on disk");
        Some(out)
    } else if !fallback_disables && !local_ready {
        let mut out = String::new();
        push_str(
            &mut out,
            "provider is cloud with 'switch to this device' as the fallback, but the model '",
        );
        push_str(&mut out, model);
        push_str(&mut out, "' is not on disk");
        Some(out)
    } else {
        None
    }
}

/// Why this configuration cannot start a recording on `provider`, or
/// `None` when it can. `model` is the meeting model the configuration
/// selects and `local_ready` whether its files are on disk.
pub fn missing_prerequisite(
    config: &AppConfig,
    provider: &TranscriptionProvider,
    model: &str,
    local_ready: bool,
) -> (r: Option<String>)
    ensures
        ({
            let expected = match *provider {
                TranscriptionProvider::Local => local_gap_spec(local_ready, model@),
                TranscriptionProvider::Cloud => cloud_gap_spec(
                    config.cloud_session_token@.len() > 0,
                    local_ready,
                    config.cloud_out_of_hours,
                    model@,
                ),
            };
            match r {
                Some(t) => expected == Some(t@),
                None => expected is None,
            }
        }),
{
    match provider {
        TranscriptionProvider::Local => local_gap(local_ready, model),
        TranscriptionProvider::Cloud => cloud_gap(
            config.cloud_session_token.as_str().unicode_len() > 0,
            local_ready,
            config.cloud_out_of_hours,
            model,
        ),
    }
}

/// Every refusal names the model it wanted.
pub proof fn lemma_every_refusal_names_the_model(
    signed_in: bool,
    local_ready: bool,
    out_of_hours: CloudOutOfHours,
    model: Seq<char>,
)
    ensures
        local_gap_spec(local_ready, model) matches Some(t) ==> contains(t, model),
        cloud_gap_spec(signed_in, local_ready, out_of_hours, model) matches Some(t) ==> contains(
            t,
            model,
        ),
{
    let a = "provider is this device, but the model '"@;
    let b = "provider is cloud but no account is signed in, and the fallback model '"@;
    let c = "provider is cloud with 'switch to this device' as the fallback, but the model '"@;
    let tail = "' is not on disk"@;
    if !local_ready {
        let t = a + model + tail;
        assert(t.subrange(a.len() as int, (a.len() + model.len()) as int) =~= model);
        assert(occurs_at(t, model, a.len() as int));
    }
    if !signed_in && !local_ready {
        let t = b + model + tail;
        assert(t.subrange(b.len() as int, (b.len() + model.len()) as int) =~= model);
        assert(occurs_at(t, model, b.len() as int));
    } else if out_of_hours != CloudOutOfHours::Disabled && !local_ready {
        let t = c + model + tail;
        assert(t.subrange(c.len() as int, (c.len() + model.len()) as int) =~= model);
        assert(occurs_at(t, model, c.len() as int));
    }
}

/// What a failing cloud session does.
#[derive(Debug, PartialEq, Eq, Clone, Copy, Structural)]
pub enum CloudFailureAction {
    /// Swap in a local session.
    SwitchToLocal,
    /// Keep recording with no transcription.
    DisableTranscription,
    /// Nothing to switch to: surface the failure.
    Fail,
}

/// What a failing cloud session does: "disable transcription" is honored
/// whatever is on disk; "switch to this device" needs the model.
pub fn on_cloud_failure(out_of_hours: CloudOutOfHours, local_model_present: bool) -> (r:
    CloudFailureAction)
    ensures
        out_of_hours == CloudOutOfHours::Disabled ==> r == CloudFailureAction::DisableTranscription,
        out_of_hours == CloudOutOfHours::Local ==> r == if local_model_present {
            CloudFailureAction::SwitchToLocal
        } else {
            CloudFailureAction::Fail
        },
{
    match out_of_hours {
        CloudOutOfHours::Disabled => CloudFailureAction::DisableTranscription,
        CloudOutOfHours::Local => if local_model_present {
            CloudFailureAction::SwitchToLocal
        } else {
            CloudFailureAction::Fail
        },
    }
}

/// Whether dictation needs the on-device model on disk before starting:
/// the device is the primary, or it is where an out-of-hours cloud session
/// lands.
pub fn needs_local_model(config: &AppConfig) -> (r: bool)
    ensures
        r == match config.dictation_provider {
            TranscriptionProvider::Local => true,
            TranscriptionProvider::Cloud => config.dictation_out_of_hours == CloudOutOfHours::Local,
        },
{
    match config.dictation_provider {
        TranscriptionProvider::Local => true,
        TranscriptionProvider::Cloud => config.dictation_out_of_hours == CloudOutOfHours::Local,
    }
}

/// Whether dictation cleanup would run on the built-in model: the on-device
/// tier, or the cloud tier while signed out.
pub fn cleanup_uses_builtin(config: &AppConfig) -> (r: bool)
    ensures
        r == match config.dictation_cleanup {
            DictationCleanup::OnDevice => true,
            DictationCleanup::Cloud => config.cloud_session_token@.len() == 0,
            DictationCleanup::Off => false,
        },
{
    match config.dictation_cleanup {
        DictationCleanup::OnDevice => true,
        DictationCleanup::Cloud => config.cloud_session_token.as_str().unicode_len() == 0,
        DictationCleanup::Off => false,
    }
}

/// The id of the built-in LLM profile.
pub open spec fn builtin_profile_id() -> Seq<char> {
    "builtin"@
}

/// Whether a profile id names the built-in engine: the built-in id, or
/// empty (which has always meant built-in).
pub open spec fn is_builtin_profile(id: Seq<char>) -> bool {
    id.len() == 0 || id == builtin_profile_id()
}

/// Whether anything in the configuration uses the built-in model:
/// summaries on the built-in engine, or dictation cleanup that runs on it.
pub open spec fn uses_local_llm_spec(config: AppConfig) -> bool {
    (config.summaries_enabled && is_builtin_profile(config.summaries_profile_id@))
        || match config.dictation_cleanup {
        DictationCleanup::OnDevice => true,
        DictationCleanup::Cloud => config.cloud_session_token@.len() == 0,
        DictationCleanup::Off => false,
    }
}

/// Whether anything in the configuration uses the built-in model:
/// summaries on the built-in engine, or dictation cleanup that runs on it.
/// The keep-warm and idle settings follow this.
pub fn uses_local_llm(config: &AppConfig) -> (r: bool)
    ensures
        r == uses_local_llm_spec(*config),
{
    let id = config.summaries_profile_id.as_str();
    let builtin = id.unicode_len() == 0 || id.to_owned() == "builtin".to_owned();
    proof {
        reveal_strlit("builtin");
    }
    (config.summaries_enabled && builtin) || cleanup_uses_builtin(config)
}

/// The engine a generated summary is credited to in the usage event.
pub open spec fn notes_engine_spec(profile_id: Seq<char>) -> Seq<char> {
    if is_builtin_profile(profile_id) {
        "builtin"@
    } else if profile_id == "cloud"@ {
        "cloud"@
    } else {
        "custom"@
    }
}

/// The engine a generated summary is credited to.
pub fn notes_engine(profile_id: &str) -> (r: &'static str)
    ensures
        r@ == notes_engine_spec(profile_id@),
{
    if profile_id.unicode_len() == 0 || profile_id.to_owned() == "builtin".to_owned() {
        "builtin"
    } else if profile_id.to_owned() == "cloud".to_owned() {
        "cloud"
    } else {
        "custom"
    }
}

} // verus!
