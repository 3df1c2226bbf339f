use wisp::clash::{api_url, auth_token, switch_body};
use wisp::cli::{parse_rule, profile_summary, split_config};
use wisp::elevation::ensure_elevated;
use wisp::engine::{
    run_args, EngineRecord, EngineState, HealthAction, HealthCheck, HealthEvent, LogRing,
    TrafficStats, HEALTH_ATTEMPTS, LOG_RING_CAPACITY,
};
use wisp::error::WispError;
use wisp::json::Json;
use wisp::profile::Profile;
use wisp::resources::{search_dirs, singbox_filename, DirProbe, WINTUN_FILENAME};
use wisp::settings::{
    build_settings, default_clash_secret, effective_filter, log_filter, logging_filter, Settings,
    DEFAULT_LOG_FILTER,
};
use wisp::split::{SplitConfig, SplitMode, SplitRule};
use wisp::store::{
    active_profile_index, add_split_rule, dedupe_id, delete_profile, find_profile,
    remove_split_rule, set_active_profile, set_active_tag,
};

fn tagged(tag: &str) -> Json {
    Json::Object(vec![("tag".to_string(), Json::String(tag.to_string()))])
}

fn profile(name: &str) -> Profile {
    Profile::new(name.to_string(), vec![tagged("a"), tagged("b")], &[])
}

// ----- engine lifecycle -----

#[test]
fn engine_record_lifecycle() {
    let mut rec = EngineRecord::new();
    assert_eq!(rec.status().state, EngineState::Stopped);
    rec.begin_start();
    assert_eq!(rec.status().state, EngineState::Starting);
    rec.start_succeeded(Some(42));
    let st = rec.status();
    assert_eq!(st.state, EngineState::Running);
    assert_eq!(st.since_unix, Some(42));
    assert_eq!(st.last_error, None);
    rec.stopped();
    let st = rec.status();
    assert_eq!(st.state, EngineState::Stopped);
    assert_eq!(st.since_unix, None);
}

#[test]
fn start_failure_sets_errored_state_with_last_error() {
    let mut rec = EngineRecord::new();
    rec.begin_start();
    rec.start_failed("spawning sing-box process".to_string());
    let st = rec.status();
    assert_eq!(st.state, EngineState::Errored);
    assert_eq!(st.last_error, Some("spawning sing-box process".to_string()));
    // the next start forgets the error
    rec.begin_start();
    assert_eq!(rec.status().last_error, None);
}

#[test]
fn switch_updates_active_tag_even_without_a_running_process() {
    let mut rec = EngineRecord::new();
    rec.switched("some-tag".to_string());
    let st = rec.status();
    assert_eq!(st.active_tag, Some("some-tag".to_string()));
    assert_eq!(st.state, EngineState::Stopped);
}

#[test]
fn traffic_stats_default_is_zero() {
    let t = TrafficStats::default();
    assert_eq!((t.up_bytes, t.down_bytes, t.up_speed, t.down_speed), (0, 0, 0, 0));
}

#[test]
fn run_args_point_at_config_and_work_dir() {
    assert_eq!(run_args("/tmp/wisp"), vec!["run", "-c", "config.json", "-D", "/tmp/wisp"]);
}

// ----- log ring -----

#[test]
fn log_ring_keeps_the_newest_lines() {
    let mut ring = LogRing::new();
    assert_eq!(ring.len(), 0);
    for i in 0..(LOG_RING_CAPACITY + 5) {
        ring.push(format!("line {i}"));
    }
    assert_eq!(ring.len(), LOG_RING_CAPACITY);
    let all = ring.tail(usize::MAX);
    assert_eq!(all.len(), LOG_RING_CAPACITY);
    assert_eq!(all[0], "line 5");
    assert_eq!(all[LOG_RING_CAPACITY - 1], format!("line {}", LOG_RING_CAPACITY + 4));
}

#[test]
fn log_tail_returns_last_lines_oldest_first() {
    let mut ring = LogRing::new();
    for l in ["a", "b", "c"] {
        ring.push(l.to_string());
    }
    assert_eq!(ring.tail(2), vec!["b", "c"]);
    assert_eq!(ring.tail(10), vec!["a", "b", "c"]);
    assert!(ring.tail(0).is_empty());
}

// ----- startup health check -----

#[test]
fn health_check_backs_off_and_gives_up() {
    let mut hc = HealthCheck::new();
    let mut waits = Vec::new();
    loop {
        match hc.step(HealthEvent::NotYet) {
            HealthAction::RetryAfter(ms) => waits.push(ms),
            HealthAction::Fail(m) => {
                assert_eq!(m, "sing-box did not report a healthy Clash API in time");
                break;
            },
            HealthAction::Ready => panic!("never healthy"),
        }
    }
    assert_eq!(waits.len() as u32, HEALTH_ATTEMPTS - 1);
    assert_eq!(waits, vec![200, 400, 800, 1600, 2000, 2000, 2000, 2000, 2000]);
}

#[test]
fn health_check_stops_on_exit_or_health() {
    let mut hc = HealthCheck::new();
    assert!(matches!(hc.step(HealthEvent::NotYet), HealthAction::RetryAfter(200)));
    match hc.step(HealthEvent::Exited("exit status: 1".to_string())) {
        HealthAction::Fail(m) => assert_eq!(m, "sing-box exited early with status exit status: 1"),
        other => panic!("unexpected {other:?}"),
    }
    let mut hc = HealthCheck::new();
    assert!(matches!(hc.step(HealthEvent::Healthy), HealthAction::Ready));
}

// ----- clash api -----

#[test]
fn clash_urls_and_body() {
    assert_eq!(api_url(9090, "/version"), "http://127.0.0.1:9090/version");
    assert_eq!(api_url(0, "/proxies/proxy"), "http://127.0.0.1:0/proxies/proxy");
    assert_eq!(
        switch_body("srv"),
        Json::Object(vec![("name".to_string(), Json::String("srv".to_string()))])
    );
}

#[test]
fn bearer_header_set_when_secret_present() {
    let client = reqwest::Client::new();
    let mut builder = client.get(api_url(9090, "/version"));
    if let Some(token) = auth_token("s3cr3t") {
        builder = builder.bearer_auth(token);
    }
    let req = builder.build().expect("request should build");
    assert_eq!(
        req.headers().get("authorization").expect("header present"),
        "Bearer s3cr3t"
    );
}

#[test]
fn no_auth_header_when_secret_empty() {
    let client = reqwest::Client::new();
    let mut builder = client.get(api_url(9090, "/version"));
    if let Some(token) = auth_token("") {
        builder = builder.bearer_auth(token);
    }
    let req = builder.build().expect("request should build");
    assert!(req.headers().get("authorization").is_none());
}

// ----- resources -----

#[test]
fn finds_both_files_in_single_dir() {
    let probes = [DirProbe { has_singbox: true, has_wintun: true }];
    assert_eq!(search_dirs(&probes), Some((0, 0)));
}

#[test]
fn finds_files_split_across_dirs() {
    let probes = [
        DirProbe { has_singbox: true, has_wintun: false },
        DirProbe { has_singbox: false, has_wintun: true },
    ];
    assert_eq!(search_dirs(&probes), Some((0, 1)));
}

#[test]
fn first_directory_with_each_file_wins() {
    let probes = [
        DirProbe { has_singbox: false, has_wintun: false },
        DirProbe { has_singbox: false, has_wintun: true },
        DirProbe { has_singbox: true, has_wintun: true },
    ];
    assert_eq!(search_dirs(&probes), Some((2, 1)));
}

#[test]
fn errors_when_nothing_found() {
    let probes = [DirProbe { has_singbox: false, has_wintun: false }];
    assert_eq!(search_dirs(&probes), None);
    assert_eq!(search_dirs(&[DirProbe { has_singbox: true, has_wintun: false }]), None);
    assert_eq!(search_dirs(&[]), None);
}

#[test]
fn resource_file_names() {
    assert_eq!(singbox_filename(true), "sing-box.exe");
    assert_eq!(singbox_filename(false), "sing-box");
    assert_eq!(WINTUN_FILENAME, "wintun.dll");
}

// ----- settings and elevation -----

#[test]
fn settings_defaults_and_build_settings() {
    let s = Settings::default();
    assert_eq!(s.mtu, 1280);
    assert!(!s.autostart);
    assert_eq!(s.clash_port, 9090);
    assert_eq!(s.clash_secret, default_clash_secret());
    let custom = Settings { mtu: 1400, clash_port: 9999, ..Settings::default() };
    let b = build_settings(&custom);
    assert_eq!(b.mtu, 1400);
    assert_eq!(b.clash_port, 9999);
    assert_eq!(b.clash_secret, custom.clash_secret);
    assert_eq!(b.socks_port, None);
    assert_eq!(b.log_level, "info");
}

#[test]
fn elevation_decision() {
    assert!(ensure_elevated(true));
    assert!(!ensure_elevated(false));
}

// ----- command-line rules -----

#[test]
fn parse_rule_kinds() {
    assert!(parse_rule("process:chrome.exe").unwrap() == SplitRule::Process("chrome.exe".into()));
    assert!(parse_rule("process_path:C:\\a.exe").unwrap() == SplitRule::ProcessPath("C:\\a.exe".into()));
    assert!(parse_rule("domain_suffix:netflix.com").unwrap() == SplitRule::DomainSuffix("netflix.com".into()));
    assert!(parse_rule("ip_cidr:10.0.0.0/8").unwrap() == SplitRule::IpCidr("10.0.0.0/8".into()));
    // only the first ':' splits
    assert!(parse_rule("process:a:b").unwrap() == SplitRule::Process("a:b".into()));
}

#[test]
fn parse_rule_errors() {
    assert_eq!(
        parse_rule("chrome.exe").unwrap_err(),
        "rule 'chrome.exe' must be in the form kind:value"
    );
    assert_eq!(
        parse_rule("app:chrome.exe").unwrap_err(),
        "unknown rule kind 'app' (expected process|process_path|domain_suffix|ip_cidr)"
    );
}

#[test]
fn split_config_from_options() {
    let cfg = split_config(SplitMode::Blacklist, &["process:a.exe".to_string(), "ip_cidr:1.2.3.0/24".to_string()])
        .expect("valid rules");
    assert_eq!(cfg.mode, SplitMode::Blacklist);
    assert_eq!(cfg.rules.len(), 2);
    assert!(cfg.rules[1] == SplitRule::IpCidr("1.2.3.0/24".into()));
    let err = split_config(SplitMode::Off, &["process:a".to_string(), "bad".to_string()]).unwrap_err();
    assert_eq!(err, "rule 'bad' must be in the form kind:value");
}

// ----- store -----

#[test]
fn dedupe_appends_the_first_free_suffix() {
    let existing = vec![profile("Home"), Profile::new("Home".to_string(), vec![], &["home".to_string()])];
    assert_eq!(existing[1].id, "home-1");
    let mut p = profile("Home");
    dedupe_id(&mut p, &existing);
    assert_eq!(p.id, "home-2");
    let mut q = profile("Work");
    dedupe_id(&mut q, &existing);
    assert_eq!(q.id, "work");
}

#[test]
fn delete_clears_the_active_profile() {
    let mut profiles = vec![profile("One"), profile("Two")];
    let mut active = Some("one".to_string());
    delete_profile(&mut profiles, &mut active, "one");
    assert_eq!(profiles.len(), 1);
    assert_eq!(profiles[0].id, "two");
    assert_eq!(active, None);
    let mut active = Some("two".to_string());
    delete_profile(&mut profiles, &mut active, "missing");
    assert_eq!(profiles.len(), 1);
    assert_eq!(active, Some("two".to_string()));
}

#[test]
fn select_and_find_profiles() {
    let profiles = vec![profile("One"), profile("Two")];
    assert_eq!(find_profile(&profiles, "two"), Some(1));
    assert_eq!(find_profile(&profiles, "three"), None);
    let mut active = None;
    assert_eq!(set_active_profile(&profiles, &mut active, "three".to_string()), Err("no such profile: three".to_string()));
    assert_eq!(active, None);
    assert_eq!(set_active_profile(&profiles, &mut active, "two".to_string()), Ok(()));
    assert_eq!(active, Some("two".to_string()));
    assert_eq!(active_profile_index(&profiles, &active), Ok(1));
    assert_eq!(active_profile_index(&profiles, &None), Err("no active profile selected".to_string()));
    assert_eq!(
        active_profile_index(&profiles, &Some("gone".to_string())),
        Err("active profile no longer exists".to_string())
    );
}

#[test]
fn switching_a_server_updates_only_the_active_profile() {
    let mut profiles = vec![profile("One"), profile("Two")];
    set_active_tag(&mut profiles, &Some("two".to_string()), "b".to_string());
    assert_eq!(profiles[0].active_tag, Some("a".to_string()));
    assert_eq!(profiles[1].active_tag, Some("b".to_string()));
    set_active_tag(&mut profiles, &None, "x".to_string());
    assert_eq!(profiles[1].active_tag, Some("b".to_string()));
}

#[test]
fn split_rules_are_added_once_and_removed_by_value() {
    let mut split = SplitConfig::default();
    add_split_rule(&mut split, SplitRule::Process("a.exe".into()));
    add_split_rule(&mut split, SplitRule::Process("a.exe".into()));
    add_split_rule(&mut split, SplitRule::DomainSuffix("x.com".into()));
    assert_eq!(split.rules.len(), 2);
    remove_split_rule(&mut split, &SplitRule::Process("a.exe".into()));
    assert_eq!(split.rules.len(), 1);
    assert!(split.rules[0] == SplitRule::DomainSuffix("x.com".into()));
    assert_eq!(split.mode, SplitMode::Off);
}

#[test]
fn error_messages_follow_the_variant() {
    assert_eq!(WispError::Parse("x".into()).message(), "parse error: x");
    assert_eq!(WispError::UnsupportedProtocol("ss".into()).message(), "unsupported protocol: ss");
    assert_eq!(WispError::Json("bad".into()).message(), "json error: bad");
    assert_eq!(WispError::Url("bad".into()).message(), "url error: bad");
    assert_eq!(WispError::Base64("bad".into()).message(), "base64 error: bad");
    assert_eq!(WispError::Other("plain".into()).message(), "plain");
}

#[test]
fn parse_summary_lists_tags() {
    let p = Profile::new("My Server".to_string(), vec![tagged("A"), tagged("B")], &[]);
    assert_eq!(
        profile_summary(&p),
        vec!["profile: My Server (my-server)", "outbounds: 2", "  - A", "  - B", "active_tag: A"]
    );
    let empty = Profile::new("x".to_string(), vec![], &[]);
    assert_eq!(profile_summary(&empty), vec!["profile: x (x)", "outbounds: 0", "active_tag: (none)"]);
}

#[test]
fn adding_then_removing_a_new_rule_restores_the_list() {
    let mut split = SplitConfig { mode: SplitMode::Whitelist, rules: vec![SplitRule::DomainSuffix("x.com".into())] };
    add_split_rule(&mut split, SplitRule::Process("a.exe".into()));
    assert_eq!(split.rules.len(), 2);
    remove_split_rule(&mut split, &SplitRule::Process("a.exe".into()));
    assert_eq!(split.rules.len(), 1);
    assert!(split.rules[0] == SplitRule::DomainSuffix("x.com".into()));
}

#[test]
fn deleting_removes_every_profile_with_the_id_and_keeps_the_rest() {
    let mut profiles = vec![profile("One"), profile("Two"), profile("One")];
    let mut active = Some("two".to_string());
    delete_profile(&mut profiles, &mut active, "one");
    assert_eq!(profiles.len(), 1);
    assert_eq!(profiles[0].id, "two");
    assert_eq!(active, Some("two".to_string()));
}

#[test]
fn adding_profiles_keeps_ids_distinct() {
    let mut profiles = vec![profile("Home")];
    wisp::store::add_profile(&mut profiles, profile("Home"));
    wisp::store::add_profile(&mut profiles, profile("Home"));
    wisp::store::add_profile(&mut profiles, profile("Work"));
    let ids: Vec<&str> = profiles.iter().map(|p| p.id.as_str()).collect();
    assert_eq!(ids, vec!["home", "home-1", "home-2", "work"]);
    assert_eq!(profiles[1].name, "Home");
    assert_eq!(profiles[1].active_tag, Some("a".to_string()));
}

#[test]
fn log_filter_prefers_rust_log_then_wisp_log() {
    assert_eq!(log_filter(Some("warn"), Some("trace")), "warn");
    assert_eq!(log_filter(None, Some("trace")), "trace");
    assert_eq!(log_filter(None, None), DEFAULT_LOG_FILTER);
}

#[test]
fn unparsable_log_directives_fall_back_to_the_default() {
    assert_eq!(effective_filter("warn", true), "warn");
    assert_eq!(effective_filter("warn", false), DEFAULT_LOG_FILTER);
    assert_eq!(logging_filter(Some("warn,wisp=trace"), None), "warn,wisp=trace");
    assert_eq!(logging_filter(None, Some("debug")), "debug");
    assert_eq!(logging_filter(Some("foo=notalevel"), Some("debug")), DEFAULT_LOG_FILTER);
    assert_eq!(logging_filter(Some(""), None), "");
    assert_eq!(logging_filter(None, None), DEFAULT_LOG_FILTER);
}
