use wisp::json::Json;
use wisp::parse::import;
use wisp::profile::Profile;
use wisp::singbox::{
    build_config, build_route, camel_to_snake, filter_supported_outbounds, is_supported_outbound,
    join, normalize_outbound, normalize_xhttp_transport, normalized_transport, rule_group,
    sorted_unique, transport_type_of, BuildSettings,
};
use wisp::split::{SplitConfig, SplitMode, SplitRule};

const REAL_CONFIG_FIXTURE: &str = r#"{ "outbounds": [ { "type": "vless", "tag": "Bulgaria, Sophia-7w1t0rtt5a § 0", "server": "203.0.113.10", "server_port": 38563, "uuid": "11111111-2222-3333-4444-555555555555", "tls": { "enabled": true, "server_name": "www.amazon.com", "utls": { "enabled": true, "fingerprint": "firefox" }, "reality": { "enabled": true, "public_key": "ExamplePublicKeyAAAAAAAAAAAAAAAAAAAAAAAAAAA", "short_id": "0123456789abcd" } }, "transport": { "type": "xhttp", "mode": "auto", "path": "/", "xPaddingBytes": "100-1000", "scMaxEachPostBytes": "1000000-1000000" }, "packet_encoding": "xudp" }, { "type": "vless", "tag": "Bulgaria, Sophia-7w1t0rtt5a § 1", "server": "203.0.113.10", "server_port": 37381, "uuid": "11111111-2222-3333-4444-555555555555", "flow": "xtls-rprx-vision", "tls": { "enabled": true, "server_name": "www.amd.com", "utls": { "enabled": true, "fingerprint": "safari" }, "reality": { "enabled": true, "public_key": "ExamplePublicKeyBBBBBBBBBBBBBBBBBBBBBBBBBBB", "short_id": "abcdef" } }, "packet_encoding": "xudp" }, { "type": "hysteria2", "tag": "Bulgaria, Sophia, hysteria-7w1t0rtt5a § 2", "server": "203.0.113.10", "server_port": 56085, "obfs": { "type": "salamander", "password": "example-obfs-pass-5678" }, "password": "example-password-1234", "tls": { "enabled": true, "disable_sni": true, "server_name": "203.0.113.10" } } ] }"#;

/// Tag of fixture outbound 0: vless+xhttp (supported by the bundled fork).
const XHTTP_TAG: &str = "Bulgaria, Sophia-7w1t0rtt5a § 0";
/// Tag of fixture outbound 1: vless+Vision, no transport (supported).
const VISION_TAG: &str = "Bulgaria, Sophia-7w1t0rtt5a § 1";
/// Tag of fixture outbound 2: hysteria2 (supported).
const HYSTERIA2_TAG: &str = "Bulgaria, Sophia, hysteria-7w1t0rtt5a § 2";

fn fixture_profile() -> Profile {
    import(REAL_CONFIG_FIXTURE).expect("fixture should import")
}

fn at<'a>(j: &'a Json, key: &str) -> &'a Json {
    j.get(key).unwrap_or_else(|| panic!("missing key {key}"))
}

fn arr(j: &Json) -> &Vec<Json> {
    match j {
        Json::Array(a) => a,
        other => panic!("not an array: {other:?}"),
    }
}

fn s(x: &str) -> Json {
    Json::String(x.to_string())
}

fn num(x: &str) -> Json {
    Json::Number(x.to_string())
}

fn strs(xs: &[&str]) -> Json {
    Json::Array(xs.iter().map(|x| s(x)).collect())
}

fn obj(entries: Vec<(&str, Json)>) -> Json {
    Json::Object(entries.into_iter().map(|(k, v)| (k.to_string(), v)).collect())
}

fn is_str(j: &Json, key: &str, val: &str) -> bool {
    j.str_at(key) == Some(val)
}

fn to_value(j: &Json) -> serde_json::Value {
    match j {
        Json::Null => serde_json::Value::Null,
        Json::Bool(b) => serde_json::Value::Bool(*b),
        Json::Number(n) => serde_json::from_str(n).expect("number text"),
        Json::String(x) => serde_json::Value::String(x.clone()),
        Json::Array(a) => serde_json::Value::Array(a.iter().map(to_value).collect()),
        Json::Object(es) => serde_json::Value::Object(
            es.iter().map(|(k, v)| (k.clone(), to_value(v))).collect(),
        ),
    }
}

fn build(split: &SplitConfig) -> Json {
    build_config(&fixture_profile(), split, &BuildSettings::default()).expect("build should succeed")
}

#[test]
fn has_one_tun_inbound_with_configured_mtu() {
    let profile = fixture_profile();
    let split = SplitConfig::default();
    let settings = BuildSettings { mtu: 1280, ..BuildSettings::default() };
    let config = build_config(&profile, &split, &settings).expect("build should succeed");

    let inbounds = arr(at(&config, "inbounds"));
    let tun_inbounds: Vec<&Json> = inbounds.iter().filter(|i| is_str(i, "type", "tun")).collect();
    assert_eq!(tun_inbounds.len(), 1);
    assert_eq!(at(tun_inbounds[0], "mtu"), &num("1280"));
    assert_eq!(at(tun_inbounds[0], "auto_route"), &Json::Bool(true));
    assert_eq!(at(tun_inbounds[0], "strict_route"), &Json::Bool(true));
    assert_eq!(at(tun_inbounds[0], "stack"), &s("system"));
    assert_eq!(at(tun_inbounds[0], "address"), &strs(&["172.19.0.1/30"]));
    // sing-box 1.13 dropped this field from the tun inbound schema.
    assert!(tun_inbounds[0].get("endpoint_independent_nat").is_none());
}

#[test]
fn custom_mtu_and_socks_port_are_used() {
    let settings = BuildSettings { mtu: 1400, socks_port: Some(1080), ..BuildSettings::default() };
    let config = build_config(&fixture_profile(), &SplitConfig::default(), &settings)
        .expect("build should succeed");
    let inbounds = arr(at(&config, "inbounds"));
    assert_eq!(inbounds.len(), 2);
    assert_eq!(at(&inbounds[0], "mtu"), &num("1400"));
    let socks = &inbounds[1];
    assert!(is_str(socks, "type", "socks"));
    assert_eq!(at(socks, "listen_port"), &num("1080"));
}

#[test]
fn dns_uses_new_typed_server_schema() {
    let config = build(&SplitConfig::default());

    let servers = arr(at(at(&config, "dns"), "servers"));
    assert_eq!(servers.len(), 2);

    let remote = servers
        .iter()
        .find(|x| is_str(x, "tag", "dns-remote"))
        .expect("dns-remote present");
    assert_eq!(at(remote, "type"), &s("tls"));
    assert_eq!(at(remote, "server"), &s("8.8.8.8"));
    assert_eq!(at(remote, "detour"), &s("proxy"));
    // The legacy `address` field is gone in the new schema.
    assert!(remote.get("address").is_none());

    let local = servers
        .iter()
        .find(|x| is_str(x, "tag", "dns-local"))
        .expect("dns-local present");
    assert_eq!(at(local, "type"), &s("local"));
    assert!(local.get("address").is_none());

    assert_eq!(at(at(&config, "dns"), "strategy"), &s("prefer_ipv4"));
}

#[test]
fn route_has_default_domain_resolver() {
    let config = build(&SplitConfig::default());
    assert_eq!(at(at(&config, "route"), "default_domain_resolver"), &s("dns-local"));
    assert_eq!(at(at(&config, "route"), "auto_detect_interface"), &Json::Bool(true));
}

#[test]
fn no_block_outbound_is_ever_emitted() {
    let config = build(&SplitConfig::default());
    let outbounds = arr(at(&config, "outbounds"));
    assert!(
        !outbounds.iter().any(|o| is_str(o, "type", "block")),
        "block outbound type was removed in sing-box 1.12 and must never be emitted"
    );
}

#[test]
fn xhttp_vision_and_hysteria2_all_kept_and_xhttp_normalized() {
    let config = build(&SplitConfig::default());

    let outbounds = arr(at(&config, "outbounds"));
    assert!(
        outbounds.iter().any(|o| is_str(o, "tag", XHTTP_TAG)),
        "xhttp outbound is supported by the bundled fork and must be kept"
    );
    assert!(outbounds.iter().any(|o| is_str(o, "tag", VISION_TAG)));
    assert!(outbounds.iter().any(|o| is_str(o, "tag", HYSTERIA2_TAG)));

    let xhttp_outbound = outbounds
        .iter()
        .find(|o| is_str(o, "tag", XHTTP_TAG))
        .expect("xhttp outbound present");
    let transport = at(xhttp_outbound, "transport");
    assert_eq!(at(transport, "type"), &s("xhttp"));
    assert_eq!(at(transport, "x_padding_bytes"), &s("100-1000"));
    assert_eq!(at(transport, "sc_max_each_post_bytes"), &s("1000000-1000000"));
    assert!(transport.get("xPaddingBytes").is_none());
    assert!(transport.get("scMaxEachPostBytes").is_none());

    let selector = outbounds
        .iter()
        .find(|o| is_str(o, "type", "selector") && is_str(o, "tag", "proxy"))
        .expect("selector outbound present");
    let selector_tags: Vec<String> = arr(at(selector, "outbounds"))
        .iter()
        .map(|v| v.as_str().expect("tag is string").to_string())
        .collect();
    assert_eq!(selector_tags.len(), 3);
    assert!(selector_tags.contains(&XHTTP_TAG.to_string()));
    assert!(selector_tags.contains(&VISION_TAG.to_string()));
    assert!(selector_tags.contains(&HYSTERIA2_TAG.to_string()));
}

#[test]
fn selector_default_prefers_active_tag_now_that_xhttp_is_supported() {
    let profile = fixture_profile();
    assert_eq!(profile.active_tag.as_deref(), Some(XHTTP_TAG));

    let config = build_config(&profile, &SplitConfig::default(), &BuildSettings::default())
        .expect("build should succeed");

    let outbounds = arr(at(&config, "outbounds"));
    let selector = outbounds
        .iter()
        .find(|o| is_str(o, "type", "selector") && is_str(o, "tag", "proxy"))
        .expect("selector outbound present");
    assert_eq!(at(selector, "default"), &s(XHTTP_TAG));

    assert!(outbounds.iter().any(|o| is_str(o, "type", "direct") && is_str(o, "tag", "direct")));
    assert!(!outbounds.iter().any(|o| is_str(o, "type", "block")));

    assert_eq!(
        at(at(at(&config, "experimental"), "clash_api"), "external_controller"),
        &s("127.0.0.1:9090")
    );
}

#[test]
fn selector_default_falls_back_to_first_tag() {
    let mut profile = fixture_profile();
    profile.active_tag = Some("gone".to_string());
    let config = build_config(&profile, &SplitConfig::default(), &BuildSettings::default())
        .expect("build should succeed");
    let outbounds = arr(at(&config, "outbounds"));
    let selector = outbounds.iter().find(|o| is_str(o, "tag", "proxy")).expect("selector");
    assert_eq!(at(selector, "default"), &s(XHTTP_TAG));
}

#[test]
fn clash_api_uses_port_and_secret() {
    let settings = BuildSettings {
        clash_port: 9999,
        clash_secret: "sekrit".to_string(),
        ..BuildSettings::default()
    };
    let config = build_config(&fixture_profile(), &SplitConfig::default(), &settings)
        .expect("build should succeed");
    let clash = at(at(&config, "experimental"), "clash_api");
    assert_eq!(at(clash, "external_controller"), &s("127.0.0.1:9999"));
    assert_eq!(at(clash, "secret"), &s("sekrit"));
}

#[test]
fn all_outbounds_unsupported_is_an_error() {
    let outbounds = vec![obj(vec![
        ("type", s("vless")),
        ("tag", s("only-splithttp")),
        ("server", s("203.0.113.10")),
        ("server_port", num("443")),
        ("uuid", s("11111111-2222-3333-4444-555555555555")),
        ("transport", obj(vec![("type", s("splithttp")), ("mode", s("auto"))])),
    ])];
    let profile = Profile::new("only unsupported".to_string(), outbounds, &[]);

    let err = build_config(&profile, &SplitConfig::default(), &BuildSettings::default())
        .expect_err("should error");
    let message = err.message();
    assert!(message.contains("splithttp"), "message was: {message}");
    assert!(message.contains("No outbounds are supported"), "message was: {message}");
}

#[test]
fn unsupported_error_lists_each_transport_once_sorted() {
    let bad = |tag: &str, t: &str| {
        obj(vec![("type", s("vless")), ("tag", s(tag)), ("transport", obj(vec![("type", s(t))]))])
    };
    let profile = Profile::new(
        "bad".to_string(),
        vec![bad("a", "splithttp"), bad("b", "quic2"), bad("c", "splithttp")],
        &[],
    );
    let err = build_config(&profile, &SplitConfig::default(), &BuildSettings::default())
        .expect_err("should error");
    assert_eq!(
        err.message(),
        "No outbounds are supported by the bundled sing-box engine (unsupported transports: quic2, splithttp). Use a Vision/Hysteria2/ws/grpc server instead."
    );
}

#[test]
fn splithttp_transport_is_also_excluded() {
    let outbounds = vec![
        obj(vec![
            ("type", s("vless")),
            ("tag", s("splithttp-out")),
            ("server", s("203.0.113.10")),
            ("server_port", num("443")),
            ("uuid", s("11111111-2222-3333-4444-555555555555")),
            ("transport", obj(vec![("type", s("splithttp")), ("mode", s("auto"))])),
        ]),
        obj(vec![
            ("type", s("vless")),
            ("tag", s("ws-out")),
            ("server", s("203.0.113.10")),
            ("server_port", num("443")),
            ("uuid", s("11111111-2222-3333-4444-555555555555")),
            ("transport", obj(vec![("type", s("ws")), ("path", s("/"))])),
        ]),
    ];
    let profile = Profile::new("mixed".to_string(), outbounds, &[]);
    let config = build_config(&profile, &SplitConfig::default(), &BuildSettings::default())
        .expect("build should succeed");

    let outbounds = arr(at(&config, "outbounds"));
    assert!(!outbounds.iter().any(|o| is_str(o, "tag", "splithttp-out")));
    assert!(outbounds.iter().any(|o| is_str(o, "tag", "ws-out")));
}

#[test]
fn supported_outbound_filter() {
    let plain = obj(vec![("type", s("vless"))]);
    let split = obj(vec![("transport", obj(vec![("type", s("splithttp"))]))]);
    let ws = obj(vec![("transport", obj(vec![("type", s("ws"))]))]);
    assert!(is_supported_outbound(&plain));
    assert!(!is_supported_outbound(&split));
    assert!(is_supported_outbound(&ws));
    assert_eq!(transport_type_of(&plain), "unknown".chars().collect::<Vec<char>>());
    assert_eq!(transport_type_of(&split), "splithttp".chars().collect::<Vec<char>>());
    let (kept, skipped) = filter_supported_outbounds(&vec![plain.deep_clone(), split, ws.deep_clone()]);
    assert_eq!(kept, vec![plain, ws]);
    assert_eq!(skipped, vec!["splithttp".chars().collect::<Vec<char>>()]);
}

#[test]
fn split_off_has_no_process_rules_and_final_proxy() {
    let config = build(&SplitConfig::default());
    assert_eq!(at(at(&config, "route"), "final"), &s("proxy"));
    let rules = arr(at(at(&config, "route"), "rules"));
    assert!(!rules.iter().any(|r| r.get("process_name").is_some()));
}

#[test]
fn split_off_ignores_listed_rules() {
    let split = SplitConfig {
        mode: SplitMode::Off,
        rules: vec![SplitRule::Process("chrome.exe".to_string())],
    };
    let config = build(&split);
    let rules = arr(at(at(&config, "route"), "rules"));
    assert_eq!(rules.len(), 3);
    assert_eq!(at(at(&config, "route"), "final"), &s("proxy"));
}

#[test]
fn split_blacklist_routes_chrome_direct_and_final_proxy() {
    let split = SplitConfig {
        mode: SplitMode::Blacklist,
        rules: vec![SplitRule::Process("chrome.exe".to_string())],
    };
    let config = build(&split);

    assert_eq!(at(at(&config, "route"), "final"), &s("proxy"));
    let rules = arr(at(at(&config, "route"), "rules"));
    let chrome_rule = rules
        .iter()
        .find(|r| r.get("process_name").is_some())
        .expect("process_name rule present");
    assert_eq!(at(chrome_rule, "process_name"), &strs(&["chrome.exe"]));
    assert_eq!(at(chrome_rule, "outbound"), &s("direct"));
}

#[test]
fn split_whitelist_routes_chrome_proxy_and_final_direct() {
    let split = SplitConfig {
        mode: SplitMode::Whitelist,
        rules: vec![SplitRule::Process("chrome.exe".to_string())],
    };
    let config = build(&split);

    assert_eq!(at(at(&config, "route"), "final"), &s("direct"));
    let rules = arr(at(at(&config, "route"), "rules"));
    let chrome_rule = rules
        .iter()
        .find(|r| r.get("process_name").is_some())
        .expect("process_name rule present");
    assert_eq!(at(chrome_rule, "process_name"), &strs(&["chrome.exe"]));
    assert_eq!(at(chrome_rule, "outbound"), &s("proxy"));
}

#[test]
fn multiple_rules_of_same_field_are_grouped() {
    let split = SplitConfig {
        mode: SplitMode::Blacklist,
        rules: vec![
            SplitRule::Process("chrome.exe".to_string()),
            SplitRule::Process("firefox.exe".to_string()),
            SplitRule::DomainSuffix("example.com".to_string()),
        ],
    };
    let config = build(&split);
    let rules = arr(at(at(&config, "route"), "rules"));

    let process_rules: Vec<&Json> =
        rules.iter().filter(|r| r.get("process_name").is_some()).collect();
    assert_eq!(process_rules.len(), 1);
    assert_eq!(at(process_rules[0], "process_name"), &strs(&["chrome.exe", "firefox.exe"]));

    let domain_rules: Vec<&Json> =
        rules.iter().filter(|r| r.get("domain_suffix").is_some()).collect();
    assert_eq!(domain_rules.len(), 1);
}

#[test]
fn blacklist_rules_are_grouped_before_hijack_dns_so_excluded_dns_is_direct() {
    let split = SplitConfig {
        mode: SplitMode::Blacklist,
        rules: vec![SplitRule::Process("dota2.exe".to_string())],
    };
    let config = build(&split);
    let rules = arr(at(at(&config, "route"), "rules"));

    assert_eq!(at(&rules[0], "action"), &s("sniff"));

    let process_idx = rules
        .iter()
        .position(|r| r.get("process_name").is_some())
        .expect("process_name rule present");
    let hijack_idx = rules
        .iter()
        .position(|r| is_str(r, "action", "hijack-dns"))
        .expect("hijack-dns rule present");
    let private_idx = rules
        .iter()
        .position(|r| r.get("ip_is_private").is_some())
        .expect("ip_is_private rule present");

    assert!(
        process_idx < hijack_idx,
        "blacklisted process rule (index {process_idx}) must come before \
         hijack-dns (index {hijack_idx}) so its DNS goes direct too"
    );
    assert!(hijack_idx < private_idx);
    assert_eq!(at(&rules[process_idx], "outbound"), &s("direct"));
    assert_eq!(at(at(&config, "route"), "final"), &s("proxy"));
}

#[test]
fn whitelist_rules_come_after_hijack_dns_and_private_direct() {
    let split = SplitConfig {
        mode: SplitMode::Whitelist,
        rules: vec![SplitRule::Process("chrome.exe".to_string())],
    };
    let config = build(&split);
    let rules = arr(at(at(&config, "route"), "rules"));

    let hijack_idx = rules
        .iter()
        .position(|r| is_str(r, "action", "hijack-dns"))
        .expect("hijack-dns rule present");
    let private_idx = rules
        .iter()
        .position(|r| r.get("ip_is_private").is_some())
        .expect("ip_is_private rule present");
    let process_idx = rules
        .iter()
        .position(|r| r.get("process_name").is_some())
        .expect("process_name rule present");

    assert_eq!(at(&rules[0], "action"), &s("sniff"));
    assert!(hijack_idx < private_idx);
    assert!(private_idx < process_idx);
    assert_eq!(at(at(&config, "route"), "final"), &s("direct"));
}

#[test]
fn domain_regex_and_process_path_regex_rules_map_to_singbox_fields() {
    let split = SplitConfig {
        mode: SplitMode::Blacklist,
        rules: vec![
            SplitRule::DomainRegex(r"^ads\.".to_string()),
            SplitRule::ProcessPathRegex(r"C:\\Games\\.*".to_string()),
        ],
    };
    let config = build(&split);
    let rules = arr(at(at(&config, "route"), "rules"));

    let domain_regex_rule = rules
        .iter()
        .find(|r| r.get("domain_regex").is_some())
        .expect("domain_regex rule present");
    assert_eq!(at(domain_regex_rule, "domain_regex"), &strs(&[r"^ads\."]));
    assert_eq!(at(domain_regex_rule, "outbound"), &s("direct"));

    let process_path_regex_rule = rules
        .iter()
        .find(|r| r.get("process_path_regex").is_some())
        .expect("process_path_regex rule present");
    assert_eq!(at(process_path_regex_rule, "process_path_regex"), &strs(&[r"C:\\Games\\.*"]));
    assert_eq!(at(process_path_regex_rule, "outbound"), &s("direct"));
}

#[test]
fn presets_are_expanded_in_the_route() {
    let split = SplitConfig {
        mode: SplitMode::Blacklist,
        rules: vec![SplitRule::Preset("valve".to_string())],
    };
    let route = build_route(&split);
    let rules = arr(at(&route, "rules"));
    assert!(!rules.iter().any(|r| r.get("preset").is_some()));
    let procs = rules.iter().find(|r| r.get("process_name").is_some()).expect("process rule");
    assert!(arr(at(procs, "process_name")).contains(&s("dota2.exe")));
    let cidrs = rules.iter().find(|r| r.get("ip_cidr").is_some()).expect("cidr rule");
    assert!(arr(at(cidrs, "ip_cidr")).contains(&s("155.133.230.0/24")));
}

#[test]
fn rule_group_orders_fields_and_values() {
    let rules = vec![
        SplitRule::DomainSuffix("b.com".to_string()),
        SplitRule::Process("x.exe".to_string()),
        SplitRule::DomainSuffix("a.com".to_string()),
    ];
    let groups = rule_group(&rules, "direct");
    assert_eq!(
        groups,
        vec![
            obj(vec![("domain_suffix", strs(&["b.com", "a.com"])), ("outbound", s("direct"))]),
            obj(vec![("process_name", strs(&["x.exe"])), ("outbound", s("direct"))]),
        ]
    );
    assert!(rule_group(&[], "proxy").is_empty());
}

#[test]
fn log_level_flows_into_log_block() {
    let settings = BuildSettings { log_level: "trace".to_string(), ..BuildSettings::default() };
    let config = build_config(&fixture_profile(), &SplitConfig::default(), &settings)
        .expect("build should succeed");

    assert_eq!(at(at(&config, "log"), "level"), &s("trace"));
    assert_eq!(at(at(&config, "log"), "timestamp"), &Json::Bool(true));
}

#[test]
fn default_build_settings_log_level_is_info() {
    assert_eq!(BuildSettings::default().log_level, "info");
}

#[test]
fn default_build_settings() {
    let d = BuildSettings::default();
    assert_eq!(d.mtu, 1280);
    assert_eq!(d.clash_port, 9090);
    assert_eq!(d.clash_secret, "");
    assert_eq!(d.socks_port, None);
}

#[test]
fn config_is_valid_json_and_round_trips() {
    let config = build(&SplitConfig::default());
    let value = to_value(&config);
    let text = serde_json::to_string(&value).expect("serialize");
    let parsed: serde_json::Value = serde_json::from_str(&text).expect("deserialize");
    assert_eq!(parsed, value);
}

#[test]
fn always_has_private_ip_direct_and_dns_hijack_rules_first() {
    let config = build(&SplitConfig::default());
    let rules = arr(at(at(&config, "route"), "rules"));

    assert_eq!(at(&rules[0], "action"), &s("sniff"));
    assert_eq!(at(&rules[1], "action"), &s("hijack-dns"));
    assert_eq!(at(&rules[2], "ip_is_private"), &Json::Bool(true));
    assert_eq!(at(&rules[2], "outbound"), &s("direct"));
}

#[test]
fn camel_to_snake_converts_xray_field_names() {
    assert_eq!(camel_to_snake("xPaddingBytes"), "x_padding_bytes");
    assert_eq!(camel_to_snake("scMaxEachPostBytes"), "sc_max_each_post_bytes");
    assert_eq!(camel_to_snake("scMaxBufferedPosts"), "sc_max_buffered_posts");
    // Already-snake_case (and plain lowercase) keys pass through unchanged.
    assert_eq!(camel_to_snake("path"), "path");
    assert_eq!(camel_to_snake("x_padding_bytes"), "x_padding_bytes");
}

#[test]
fn camel_to_snake_edges() {
    assert_eq!(camel_to_snake(""), "");
    assert_eq!(camel_to_snake("Leading"), "leading");
}

#[test]
fn normalize_xhttp_transport_renames_camel_case_keys_and_preserves_values() {
    let mut transport = obj(vec![
        ("type", s("xhttp")),
        ("mode", s("auto")),
        ("path", s("/")),
        ("xPaddingBytes", s("50-100")),
        ("scMaxEachPostBytes", s("1000000-1000000")),
    ]);

    normalize_xhttp_transport(&mut transport);

    assert_eq!(at(&transport, "type"), &s("xhttp"));
    assert_eq!(at(&transport, "mode"), &s("auto"));
    assert_eq!(at(&transport, "path"), &s("/"));
    assert_eq!(at(&transport, "x_padding_bytes"), &s("50-100"));
    assert_eq!(at(&transport, "sc_max_each_post_bytes"), &s("1000000-1000000"));
    assert!(transport.get("xPaddingBytes").is_none());
    assert!(transport.get("scMaxEachPostBytes").is_none());
}

#[test]
fn normalize_xhttp_transport_injects_default_padding_when_missing() {
    let mut transport = obj(vec![("type", s("xhttp")), ("mode", s("auto")), ("path", s("/"))]);
    normalize_xhttp_transport(&mut transport);
    assert_eq!(at(&transport, "x_padding_bytes"), &s("100-1000"));
}

#[test]
fn normalize_xhttp_transport_injects_default_padding_when_empty_or_zero() {
    let mut empty = obj(vec![("type", s("xhttp")), ("xPaddingBytes", s(""))]);
    normalize_xhttp_transport(&mut empty);
    assert_eq!(at(&empty, "x_padding_bytes"), &s("100-1000"));

    let mut zero = obj(vec![("type", s("xhttp")), ("xPaddingBytes", s("0"))]);
    normalize_xhttp_transport(&mut zero);
    assert_eq!(at(&zero, "x_padding_bytes"), &s("100-1000"));
}

#[test]
fn normalize_xhttp_transport_leaves_already_snake_case_input_unchanged() {
    let mut transport = obj(vec![
        ("type", s("xhttp")),
        ("mode", s("auto")),
        ("x_padding_bytes", s("200-500")),
        ("sc_max_each_post_bytes", s("2000000-2000000")),
    ]);
    let expected = transport.deep_clone();

    normalize_xhttp_transport(&mut transport);

    assert_eq!(transport, expected);
}

#[test]
fn normalize_leaves_non_objects_alone() {
    let mut not_object = s("xhttp");
    normalize_xhttp_transport(&mut not_object);
    assert_eq!(not_object, s("xhttp"));
    assert_eq!(normalized_transport(&Json::Null), Json::Null);
}

#[test]
fn normalize_outbound_only_touches_xhttp_transports() {
    let ws = obj(vec![("tag", s("w")), ("transport", obj(vec![("type", s("ws")), ("xPaddingBytes", s("1"))]))]);
    assert_eq!(normalize_outbound(&ws), ws);
    let xhttp = obj(vec![("transport", obj(vec![("type", s("xhttp"))]))]);
    let n = normalize_outbound(&xhttp);
    assert_eq!(at(at(&n, "transport"), "x_padding_bytes"), &s("100-1000"));
}

#[test]
fn sorted_unique_and_join() {
    let v: Vec<Vec<char>> = ["b", "a", "b", "c"].iter().map(|x| x.chars().collect()).collect();
    let u = sorted_unique(&v);
    let expect: Vec<Vec<char>> = ["a", "b", "c"].iter().map(|x| x.chars().collect()).collect();
    assert_eq!(u, expect);
    assert_eq!(join(&u, ", "), "a, b, c".chars().collect::<Vec<char>>());
    assert_eq!(join(&vec![], ", "), Vec::<char>::new());
}

#[test]
fn normalizing_twice_is_normalizing_once() {
    let t = obj(vec![
        ("type", s("xhttp")),
        ("xPaddingBytes", s("0")),
        ("scMaxEachPostBytes", s("5")),
        ("sc_max_each_post_bytes", s("7")),
    ]);
    let once = normalized_transport(&t);
    let twice = normalized_transport(&once);
    assert_eq!(once, twice);
    assert_eq!(at(&once, "x_padding_bytes"), &s("100-1000"));
}

#[test]
fn private_ips_go_direct_in_every_mode() {
    for mode in [SplitMode::Off, SplitMode::Blacklist, SplitMode::Whitelist] {
        let split = SplitConfig {
            mode,
            rules: vec![SplitRule::Process("a.exe".to_string()), SplitRule::IpCidr("10.0.0.0/8".to_string())],
        };
        let route = build_route(&split);
        let rules = arr(at(&route, "rules"));
        let p = rules
            .iter()
            .position(|r| r.get("ip_is_private").is_some())
            .expect("ip_is_private rule present");
        assert_eq!(at(&rules[p], "outbound"), &s("direct"));
        for r in &rules[..p] {
            let action_only = r.get("outbound").is_none();
            assert!(action_only || is_str(r, "outbound", "direct"));
        }
    }
}

#[test]
fn chosen_server_becomes_the_selector_default() {
    let mut profiles = vec![fixture_profile()];
    let active = Some(profiles[0].id.clone());
    wisp::store::set_active_tag(&mut profiles, &active, HYSTERIA2_TAG.to_string());
    let config = build_config(&profiles[0], &SplitConfig::default(), &BuildSettings::default())
        .expect("build should succeed");
    let outbounds = arr(at(&config, "outbounds"));
    let selector = &outbounds[outbounds.len() - 2];
    assert!(is_str(selector, "tag", "proxy"));
    assert_eq!(at(selector, "default"), &s(HYSTERIA2_TAG));
}

#[test]
fn normalizing_renames_every_key_and_keeps_values() {
    let t = obj(vec![
        ("type", s("xhttp")),
        ("scMaxEachPostBytes", s("5")),
        ("noGrpcHeader", Json::Bool(true)),
        ("xPaddingBytes", s("10-20")),
    ]);
    let n = normalized_transport(&t);
    let keys: Vec<&str> = match &n {
        Json::Object(es) => es.iter().map(|(k, _)| k.as_str()).collect(),
        _ => panic!("object"),
    };
    assert_eq!(keys, vec!["type", "sc_max_each_post_bytes", "no_grpc_header", "x_padding_bytes"]);
    assert_eq!(at(&n, "sc_max_each_post_bytes"), &s("5"));
    assert_eq!(at(&n, "no_grpc_header"), &Json::Bool(true));
    assert_eq!(at(&n, "x_padding_bytes"), &s("10-20"));
    let null_pad = normalized_transport(&obj(vec![("x_padding_bytes", Json::Null)]));
    assert_eq!(at(&null_pad, "x_padding_bytes"), &s("100-1000"));
}
