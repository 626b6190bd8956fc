//! The built-in language model's sidecar: where a running one listens, how
//! it is started, and when an idle one gives its memory back. Spawning the
//! process and asking its health endpoint are the caller's part; what each
//! answer means is decided here.

use vstd::prelude::*;

use crate::config::{uses_local_llm, uses_local_llm_spec, AppConfig};
use crate::text::{decimal, push_decimal, push_str};

verus! {

/// The context window requested from the server, in tokens.
pub const CONTEXT_TOKENS: u32 = 16384;

/// The OpenAI-compatible base URL of a sidecar on `port`.
pub open spec fn base_url_spec(port: u16) -> Seq<char> {
    "http://127.0.0.1:"@ + decimal(port as nat) + "/v1"@
}

/// The health endpoint of a sidecar on `port`.
pub open spec fn health_url_spec(port: u16) -> Seq<char> {
    "http://127.0.0.1:"@ + decimal(port as nat) + "/health"@
}

/// The base URL of a sidecar listening on `port`.
pub fn base_url(port: u16) -> (r: String)
    ensures
        r@ == base_url_spec(port),
{
    let mut s = String::new();
    push_str(&mut s, "http://127.0.0.1:");
    push_decimal(&mut s, port as u64);
    push_str(&mut s, "/v1");
    s
}

/// The URL polled until the model is loaded.
pub fn health_url(port: u16) -> (r: String)
    ensures
        r@ == health_url_spec(port),
{
    let mut s = String::new();
    push_str(&mut s, "http://127.0.0.1:");
    push_decimal(&mut s, port as u64);
    push_str(&mut s, "/health");
    s
}

/// The server's arguments for a model file, on a loopback port.
pub open spec fn server_args_spec(model: Seq<char>, port: u16) -> Seq<Seq<char>> {
    seq![
        "-m"@,
        model,
        "--host"@,
        "127.0.0.1"@,
        "--port"@,
        decimal(port as nat),
        "-c"@,
        decimal(CONTEXT_TOKENS as nat),
        "--no-webui"@,
    ]
}

/// The server's command-line arguments: the model file, loopback only, the
/// port, the context window, no web UI.
pub fn server_args(model: &str, port: u16) -> (r: Vec<String>)
    ensures
        r@.map_values(|s: String| s@) == server_args_spec(model@, port),
{
    let mut port_text = String::new();
    push_decimal(&mut port_text, port as u64);
    let mut context_text = String::new();
    push_decimal(&mut context_text, CONTEXT_TOKENS as u64);
    let mut r: Vec<String> = Vec::new();
    r.push("-m".to_owned());
    r.push(model.to_owned());
    r.push("--host".to_owned());
    r.push("127.0.0.1".to_owned());
    r.push("--port".to_owned());
    r.push(port_text);
    r.push("-c".to_owned());
    r.push(context_text);
    r.push("--no-webui".to_owned());
    proof {
        assert(r@.map_values(|s: String| s@) =~= server_args_spec(model@, port));
    }
    r
}

/// How long, in seconds, the sidecar may sit idle: the configured minutes,
/// at least one.
pub open spec fn idle_limit_secs(idle_minutes: u32) -> nat {
    if idle_minutes == 0 {
        60
    } else {
        (idle_minutes as nat) * 60
    }
}

/// Whether the periodic janitor stops the sidecar: it is running, not kept
/// warm, and unused for at least the idle limit (`idle_secs` is the time
/// since it was last used, in whole seconds).
pub open spec fn evicts(keep_warm: bool, running: bool, idle_minutes: u32, idle_secs: u64) -> bool {
    !keep_warm && running && idle_secs >= idle_limit_secs(idle_minutes)
}

/// Whether the periodic janitor stops the sidecar (see `evicts`).
pub fn should_evict(keep_warm: bool, running: bool, idle_minutes: u32, idle_secs: u64) -> (r: bool)
    ensures
        r == evicts(keep_warm, running, idle_minutes, idle_secs),
{
    if keep_warm || !running {
        return false;
    }
    let minutes: u64 = if idle_minutes == 0 {
        1
    } else {
        idle_minutes as u64
    };
    idle_secs >= minutes * 60
}


/// How long a starting sidecar may take to report healthy, in milliseconds:
/// loading the model on a CPU is slow the first time.
pub const STARTUP_TIMEOUT_MS: u64 = 120000;

/// How often a starting sidecar's health is polled, in milliseconds.
pub const HEALTH_POLL_MS: u64 = 500;

/// What one round of the startup health poll decides.
pub enum StartupStep {
    /// The health endpoint answered with success: the sidecar is ready.
    Ready,
    /// The process exited while loading: the start failed.
    Exited,
    /// The deadline passed: kill the process, the start failed.
    TimedOut,
    /// Not ready yet: wait one poll interval and ask again.
    Wait,
}

/// One round of the startup poll. A process that has exited is reported
/// first, then a successful health answer; past the deadline (`elapsed_ms`
/// since the spawn, strictly over the timeout) the start is abandoned;
/// otherwise the poll goes on.
pub fn startup_step(exited: bool, healthy: bool, elapsed_ms: u64) -> (r: StartupStep)
    ensures
        exited ==> r is Exited,
        !exited && healthy ==> r is Ready,
        !exited && !healthy && elapsed_ms > STARTUP_TIMEOUT_MS ==> r is TimedOut,
        !exited && !healthy && elapsed_ms <= STARTUP_TIMEOUT_MS ==> r is Wait,
{
    if exited {
        StartupStep::Exited
    } else if healthy {
        StartupStep::Ready
    } else if elapsed_ms > STARTUP_TIMEOUT_MS {
        StartupStep::TimedOut
    } else {
        StartupStep::Wait
    }
}

/// Where a call for the sidecar goes: a live sidecar (one whose process has
/// not exited) answers at its port without a restart; otherwise a new one
/// must be started, and that needs both the server runtime and the model
/// weights on disk.
pub enum SidecarPlan {
    /// Use the running sidecar at this base URL.
    Reuse(String),
    /// Start a new sidecar.
    Start,
    /// Nothing can start: a download is missing.
    NotDownloaded,
}

/// Whether a call reuses the running sidecar, starts one, or is refused for
/// a missing download. `running` is the port of the sidecar on record and
/// whether its process is still alive.
pub fn sidecar_plan(running: Option<(u16, bool)>, runtime_present: bool, weights_present: bool) -> (r:
    SidecarPlan)
    ensures
        match running {
            Some((port, true)) => r matches SidecarPlan::Reuse(u) && u@ == base_url_spec(port),
            _ => if runtime_present && weights_present {
                r is Start
            } else {
                r is NotDownloaded
            },
        },
{
    match running {
        Some((port, true)) => SidecarPlan::Reuse(base_url(port)),
        _ => {
            if runtime_present && weights_present {
                SidecarPlan::Start
            } else {
                SidecarPlan::NotDownloaded
            }
        },
    }
}


/// Keep-warm as it takes effect: the setting holds only while something
/// in the configuration uses the built-in model.
pub open spec fn keeps_warm_spec(requested: bool, config: AppConfig) -> bool {
    requested && uses_local_llm_spec(config)
}

/// Whether the sidecar is kept warm: asked for, and the built-in model in
/// use by summaries or dictation cleanup.
pub fn keeps_warm(requested: bool, config: &AppConfig) -> (r: bool)
    ensures
        r == keeps_warm_spec(requested, *config),
{
    requested && uses_local_llm(config)
}

/// Keep-warm never pins the model once every engine has left the device:
/// with nothing using the built-in model, an idle sidecar is released
/// whatever the setting says.
pub proof fn lemma_unused_model_is_released(
    requested: bool,
    config: AppConfig,
    idle_minutes: u32,
    idle_secs: u64,
)
    requires
        !uses_local_llm_spec(config),
        idle_secs >= idle_limit_secs(idle_minutes),
    ensures
        evicts(keeps_warm_spec(requested, config), true, idle_minutes, idle_secs),
{
}

} // verus!
