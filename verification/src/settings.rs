//! User-configurable application settings and the build settings derived
//! from them.

use vstd::prelude::*;
use crate::singbox::BuildSettings;

verus! {

/// User-configurable settings, persisted by the app.
#[derive(Debug, Clone)]
pub struct Settings {
    /// TUN interface MTU.
    pub mtu: u32,
    /// Whether Wisp should launch at login.
    pub autostart: bool,
    /// Local port for sing-box's Clash API.
    pub clash_port: u16,
    /// Secret for sing-box's Clash API. Deterministic (not random) so it
    /// survives reinstalls.
    pub clash_secret: String,
}

/// The fixed Clash API secret derived from the app identifier.
pub open spec fn default_clash_secret_spec() -> Seq<char> {
    "com.wisp.app-clash-9f2b7a1e-4d3c-4a6f-8e2d-1a7c5b9f0e3d"@
}

/// A fixed-but-unique secret derived from the app identifier: not random,
/// but stable across runs so it needs no separate storage.
pub fn default_clash_secret() -> (r: String)
    ensures
        r@ == default_clash_secret_spec(),
{
    "com.wisp.app-clash-9f2b7a1e-4d3c-4a6f-8e2d-1a7c5b9f0e3d".to_string()
}

impl Default for Settings {
    fn default() -> (r: Settings)
        ensures
            r.mtu == 1280,
            !r.autostart,
            r.clash_port == 9090,
            r.clash_secret@ == default_clash_secret_spec(),
    {
        Settings { mtu: 1280, autostart: false, clash_port: 9090, clash_secret: default_clash_secret() }
    }
}

/// The settings a connection builds its config with: MTU and Clash API
/// port/secret from `settings`, no SOCKS inbound, log level `info`.
pub fn build_settings(settings: &Settings) -> (r: BuildSettings)
    ensures
        r.mtu == settings.mtu,
        r.clash_port == settings.clash_port,
        r.clash_secret@ == settings.clash_secret@,
        r.socks_port is None,
        r.log_level@ == "info"@,
{
    BuildSettings {
        mtu: settings.mtu,
        clash_secret: settings.clash_secret.clone(),
        clash_port: settings.clash_port,
        socks_port: None,
        log_level: "info".to_string(),
    }
}

/// The log filter used when neither `RUST_LOG` nor `WISP_LOG` is set:
/// info-level everywhere, debug for the app's own crates.
pub const DEFAULT_LOG_FILTER: &'static str = "info,wisp_core=debug,wisp_engine=debug,wisp_app=debug";

/// The directives chosen from the environment: `RUST_LOG` if set, else
/// `WISP_LOG`, else [`DEFAULT_LOG_FILTER`].
pub open spec fn log_filter_spec(rust_log: Option<&str>, wisp_log: Option<&str>) -> Seq<char> {
    match (rust_log, wisp_log) {
        (Some(v), _) => v@,
        (None, Some(v)) => v@,
        (None, None) => DEFAULT_LOG_FILTER@,
    }
}

/// The log filter directives: the value of `RUST_LOG` if it is set, else
/// that of `WISP_LOG`, else [`DEFAULT_LOG_FILTER`]. The app reads the two
/// variables and passes what it found.
pub fn log_filter(rust_log: Option<&str>, wisp_log: Option<&str>) -> (r: String)
    ensures
        r@ == log_filter_spec(rust_log, wisp_log),
{
    match rust_log {
        Some(v) => v.to_string(),
        None => match wisp_log {
            Some(v) => v.to_string(),
            None => DEFAULT_LOG_FILTER.to_string(),
        },
    }
}

/// Whether `tracing_subscriber::EnvFilter::try_new` accepts a text of
/// filter directives.
pub uninterp spec fn env_filter_parses(directives: Seq<char>) -> bool;

/// Asks `tracing_subscriber::EnvFilter::try_new` whether it accepts
/// `directives`. The contract names the answer, and states what the crate's
/// source shows of it: an empty text is accepted. Which other texts are
/// accepted is not stated.
#[verifier::external_body]
fn filter_parses(directives: &str) -> (r: bool)
    ensures
        r == env_filter_parses(directives@),
        directives@.len() == 0 ==> r,
{
    tracing_subscriber::EnvFilter::try_new(directives).is_ok()
}

/// The filter that is installed for given directives: the directives when
/// the filter parser accepts them, else [`DEFAULT_LOG_FILTER`].
pub fn effective_filter(directives: &str, parses: bool) -> (r: String)
    ensures
        r@ == (if parses {
            directives@
        } else {
            DEFAULT_LOG_FILTER@
        }),
{
    if parses {
        directives.to_string()
    } else {
        DEFAULT_LOG_FILTER.to_string()
    }
}

/// The logging filter of the desktop app: the directives chosen by
/// [`log_filter`], or [`DEFAULT_LOG_FILTER`] when the filter parser rejects
/// them.
pub fn logging_filter(rust_log: Option<&str>, wisp_log: Option<&str>) -> (r: String)
    ensures
        r@ == (if env_filter_parses(log_filter_spec(rust_log, wisp_log)) {
            log_filter_spec(rust_log, wisp_log)
        } else {
            DEFAULT_LOG_FILTER@
        }),
{
    let directives = log_filter(rust_log, wisp_log);
    let parses = filter_parses(directives.as_str());
    effective_filter(directives.as_str(), parses)
}

} // verus!
