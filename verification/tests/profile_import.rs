use wisp::error::WispError;
use wisp::json::Json;
use wisp::parse::{
    import, import_value, link_name, parse_hysteria2_link, parse_vless_link, percent_decode,
    strip_counter_suffix,
};
use wisp::profile::{slugify, tag_of, unique_id, Profile};

const REAL_CONFIG: &str = r#"{ "outbounds": [ { "type": "vless", "tag": "Bulgaria, Sophia-7w1t0rtt5a § 0", "server": "203.0.113.10", "server_port": 38563, "uuid": "11111111-2222-3333-4444-555555555555", "tls": { "enabled": true, "server_name": "www.amazon.com", "utls": { "enabled": true, "fingerprint": "firefox" }, "reality": { "enabled": true, "public_key": "ExamplePublicKeyAAAAAAAAAAAAAAAAAAAAAAAAAAA", "short_id": "0123456789abcd" } }, "transport": { "type": "xhttp", "mode": "auto", "path": "/", "xPaddingBytes": "100-1000", "scMaxEachPostBytes": "1000000-1000000" }, "packet_encoding": "xudp" }, { "type": "vless", "tag": "Bulgaria, Sophia-7w1t0rtt5a § 1", "server": "203.0.113.10", "server_port": 37381, "uuid": "11111111-2222-3333-4444-555555555555", "flow": "xtls-rprx-vision", "tls": { "enabled": true, "server_name": "www.amd.com", "utls": { "enabled": true, "fingerprint": "safari" }, "reality": { "enabled": true, "public_key": "ExamplePublicKeyBBBBBBBBBBBBBBBBBBBBBBBBBBB", "short_id": "abcdef" } }, "packet_encoding": "xudp" }, { "type": "hysteria2", "tag": "Bulgaria, Sophia, hysteria-7w1t0rtt5a § 2", "server": "203.0.113.10", "server_port": 56085, "obfs": { "type": "salamander", "password": "example-obfs-pass-5678" }, "password": "example-password-1234", "tls": { "enabled": true, "disable_sni": true, "server_name": "203.0.113.10" } } ] }"#;

fn at<'a>(j: &'a Json, key: &str) -> &'a Json {
    j.get(key).unwrap_or_else(|| panic!("missing key {key}"))
}

fn s(x: &str) -> Json {
    Json::String(x.to_string())
}

fn num(x: &str) -> Json {
    Json::Number(x.to_string())
}

fn obj(entries: Vec<(&str, Json)>) -> Json {
    Json::Object(entries.into_iter().map(|(k, v)| (k.to_string(), v)).collect())
}

#[test]
fn slugify_basic() {
    assert_eq!(slugify("Bulgaria, Sophia-7w1t0rtt5a"), "bulgaria-sophia-7w1t0rtt5a");
    assert_eq!(slugify("   "), "profile");
    assert_eq!(slugify("A/B/C"), "a-b-c");
}

#[test]
fn slugify_edges() {
    assert_eq!(slugify(""), "profile");
    assert_eq!(slugify("--Hello--World--"), "hello-world");
    assert_eq!(slugify("Ünïcode only"), "n-code-only");
    assert_eq!(slugify("§§§"), "profile");
}

#[test]
fn unique_id_disambiguates() {
    let existing = vec!["foo".to_string()];
    assert_eq!(unique_id("foo", &existing), "foo-1");
    assert_eq!(unique_id("bar", &existing), "bar");
}

#[test]
fn unique_id_skips_taken_suffixes() {
    let existing = vec!["foo".to_string(), "foo-1".to_string(), "foo-2".to_string()];
    assert_eq!(unique_id("foo", &existing), "foo-3");
    assert_eq!(unique_id("foo", &[]), "foo");
}

#[test]
fn tags_reads_outbound_tags() {
    let profile = Profile::new(
        "test".to_string(),
        vec![
            obj(vec![("type", s("vless")), ("tag", s("a"))]),
            obj(vec![("type", s("direct"))]),
        ],
        &[],
    );
    assert_eq!(profile.tags(), vec!["a".to_string()]);
}

#[test]
fn new_profile_takes_first_tag_and_slug_id() {
    let existing = vec!["my-server".to_string()];
    let profile = Profile::new(
        "My Server".to_string(),
        vec![obj(vec![("tag", s("first"))]), obj(vec![("tag", s("second"))])],
        &existing,
    );
    assert_eq!(profile.id, "my-server-1");
    assert_eq!(profile.name, "My Server");
    assert_eq!(profile.active_tag, Some("first".to_string()));
    let empty = Profile::new("x".to_string(), vec![], &[]);
    assert_eq!(empty.active_tag, None);
    assert_eq!(tag_of(&obj(vec![("tag", num("1"))])), None);
}

#[test]
fn imports_full_singbox_json() {
    let profile = import(REAL_CONFIG).expect("import should succeed");
    assert_eq!(profile.outbounds.len(), 3);
    assert_eq!(profile.name, "Bulgaria, Sophia-7w1t0rtt5a");
    assert_eq!(
        profile.tags(),
        vec![
            "Bulgaria, Sophia-7w1t0rtt5a § 0".to_string(),
            "Bulgaria, Sophia-7w1t0rtt5a § 1".to_string(),
            "Bulgaria, Sophia, hysteria-7w1t0rtt5a § 2".to_string(),
        ]
    );
    assert_eq!(
        profile.active_tag,
        Some("Bulgaria, Sophia-7w1t0rtt5a § 0".to_string())
    );
}

#[test]
fn imported_json_keeps_outbounds_verbatim() {
    let profile = import(REAL_CONFIG).expect("import should succeed");
    assert_eq!(profile.id, "bulgaria-sophia-7w1t0rtt5a");
    let first = &profile.outbounds[0];
    assert_eq!(at(first, "server_port"), &num("38563"));
    assert_eq!(at(at(first, "transport"), "xPaddingBytes"), &s("100-1000"));
    assert_eq!(at(first, "packet_encoding"), &s("xudp"));
    assert_eq!(at(at(&profile.outbounds[2], "tls"), "disable_sni"), &Json::Bool(true));
}

#[test]
fn imports_bare_array() {
    let value: serde_json::Value = serde_json::from_str(REAL_CONFIG).expect("valid json");
    let outbounds = value.get("outbounds").expect("outbounds").clone();
    let text = serde_json::to_string(&outbounds).expect("serialize");
    let profile = import(&text).expect("import should succeed");
    assert_eq!(profile.outbounds.len(), 3);
}

#[test]
fn filters_unsupported_outbound_types() {
    let text = r#"{"outbounds":[
        {"type":"direct","tag":"direct"},
        {"type":"block","tag":"block"},
        {"type":"vless","tag":"keep","server":"1.2.3.4","server_port":443,"uuid":"u"}
    ]}"#;
    let profile = import(text).expect("import should succeed");
    assert_eq!(profile.outbounds.len(), 1);
    assert_eq!(profile.tags(), vec!["keep".to_string()]);
}

#[test]
fn all_supported_types_are_kept() {
    let text = r#"[{"type":"trojan","tag":"t"},{"type":"shadowsocks","tag":"s"},{"type":"vmess","tag":"v"},{"type":"hysteria2","tag":"h"},{"type":"tuic","tag":"x"}]"#;
    let profile = import(text).expect("import should succeed");
    assert_eq!(profile.tags(), vec!["t", "s", "v", "h"]);
    assert_eq!(profile.name, "t");
}

#[test]
fn rejects_object_without_outbounds() {
    let err = import(r#"{"foo": 1}"#).unwrap_err();
    assert!(matches!(err, WispError::Parse(_)));
}

#[test]
fn rejects_json_without_supported_outbounds() {
    let err = import(r#"{"outbounds":[{"type":"direct"}]}"#).unwrap_err();
    assert_eq!(
        err.message(),
        "parse error: no supported outbounds (vless/hysteria2/trojan/shadowsocks/vmess) found"
    );
    let err = import(r#"{"outbounds": 3}"#).unwrap_err();
    assert_eq!(err.message(), "parse error: expected an \"outbounds\" array");
    let err = import_value(&Json::Bool(true)).unwrap_err();
    assert_eq!(err.message(), "parse error: expected a JSON object or array");
}

#[test]
fn malformed_json_is_a_json_error() {
    let err = import("{ not json").unwrap_err();
    assert!(matches!(err, WispError::Json(_)));
    assert!(err.message().starts_with("json error: "));
}

#[test]
fn empty_input_is_rejected() {
    // A byte-order mark is only dropped at the very start; elsewhere it is
    // not whitespace, so the text is read as a (bad) share link.
    let err = import(" \u{FEFF}").unwrap_err();
    assert!(matches!(err, WispError::UnsupportedProtocol(_)));
    let err = import("\u{FEFF}  \n ").unwrap_err();
    assert_eq!(err.message(), "parse error: input is empty");
}

#[test]
fn strips_bom_and_whitespace() {
    let text = format!("\u{FEFF}  {REAL_CONFIG}  \n");
    let profile = import(&text).expect("import should succeed");
    assert_eq!(profile.outbounds.len(), 3);
}

#[test]
fn parses_vless_reality_link_equivalent_to_fixture_outbound() {
    // Built from outbound 0 of the real config fixture.
    let link = "vless://11111111-2222-3333-4444-555555555555@203.0.113.10:38563?\
        security=reality&pbk=ExamplePublicKeyAAAAAAAAAAAAAAAAAAAAAAAAAAA&\
        sid=0123456789abcd&sni=www.amazon.com&fp=firefox&type=xhttp&path=%2F\
        #Bulgaria%2C%20Sophia-7w1t0rtt5a";

    let profile = import(link).expect("import should succeed");
    assert_eq!(profile.outbounds.len(), 1);
    let outbound = &profile.outbounds[0];

    assert_eq!(at(outbound, "type"), &s("vless"));
    assert_eq!(at(outbound, "server"), &s("203.0.113.10"));
    assert_eq!(at(outbound, "server_port"), &num("38563"));
    assert_eq!(at(outbound, "uuid"), &s("11111111-2222-3333-4444-555555555555"));
    assert_eq!(at(outbound, "tag"), &s("Bulgaria, Sophia-7w1t0rtt5a"));
    assert_eq!(at(at(outbound, "tls"), "enabled"), &Json::Bool(true));
    assert_eq!(at(at(outbound, "tls"), "server_name"), &s("www.amazon.com"));
    assert_eq!(at(at(at(outbound, "tls"), "utls"), "fingerprint"), &s("firefox"));
    assert_eq!(at(at(at(outbound, "tls"), "reality"), "enabled"), &Json::Bool(true));
    assert_eq!(
        at(at(at(outbound, "tls"), "reality"), "public_key"),
        &s("ExamplePublicKeyAAAAAAAAAAAAAAAAAAAAAAAAAAA")
    );
    assert_eq!(at(at(at(outbound, "tls"), "reality"), "short_id"), &s("0123456789abcd"));
    assert_eq!(at(at(outbound, "transport"), "type"), &s("xhttp"));
    assert_eq!(at(at(outbound, "transport"), "path"), &s("/"));
}

#[test]
fn parses_vless_vision_link_without_reality_type_field() {
    let link = "vless://11111111-2222-3333-4444-555555555555@203.0.113.10:37381?\
        security=reality&flow=xtls-rprx-vision&pbk=ExamplePublicKeyBBBBBBBBBBBBBBBBBBBBBBBBBBB&\
        sid=abcdef&sni=www.amd.com&fp=safari#server1";
    let profile = import(link).expect("import should succeed");
    let outbound = &profile.outbounds[0];
    assert_eq!(at(outbound, "flow"), &s("xtls-rprx-vision"));
    assert!(outbound.get("transport").is_none());
    assert_eq!(at(at(at(outbound, "tls"), "reality"), "short_id"), &s("abcdef"));
}

#[test]
fn vless_link_builds_the_exact_outbound() {
    let out = parse_vless_link("vless://uid@h.example:8443?security=tls&sni=h.example#Name")
        .expect("valid link");
    let expected = obj(vec![
        ("type", s("vless")),
        ("tag", s("Name")),
        ("server", s("h.example")),
        ("server_port", num("8443")),
        ("uuid", s("uid")),
        ("tls", obj(vec![("enabled", Json::Bool(true)), ("server_name", s("h.example"))])),
    ]);
    assert_eq!(out, expected);
}

#[test]
fn vless_link_without_security_has_no_tls() {
    let out = parse_vless_link("vless://uid@h.example:443").expect("valid link");
    assert!(out.get("tls").is_none());
    assert_eq!(at(&out, "tag"), &s("Imported"));
}

#[test]
fn vless_link_errors() {
    let err = parse_vless_link("vless://@host:443").unwrap_err();
    assert_eq!(err.message(), "parse error: vless link missing uuid");
    let err = parse_vless_link("vless://uid@host").unwrap_err();
    assert_eq!(err.message(), "parse error: share link missing port");
    let err = parse_vless_link("not a url").unwrap_err();
    assert!(matches!(err, WispError::Url(_)));
    let err = parse_vless_link("trojan://uid@host:443").unwrap_err();
    assert_eq!(err.message(), "unsupported protocol: trojan");
}

#[test]
fn parses_hysteria2_link() {
    let link = "hysteria2://example-password-1234@203.0.113.10:56085?\
        obfs=salamander&obfs-password=example-obfs-pass-5678&sni=203.0.113.10&insecure=1#hy2-server";
    let profile = import(link).expect("import should succeed");
    let outbound = &profile.outbounds[0];
    assert_eq!(at(outbound, "type"), &s("hysteria2"));
    assert_eq!(at(outbound, "password"), &s("example-password-1234"));
    assert_eq!(at(outbound, "server"), &s("203.0.113.10"));
    assert_eq!(at(outbound, "server_port"), &num("56085"));
    assert_eq!(at(at(outbound, "obfs"), "type"), &s("salamander"));
    assert_eq!(at(at(outbound, "obfs"), "password"), &s("example-obfs-pass-5678"));
    assert_eq!(at(at(outbound, "tls"), "server_name"), &s("203.0.113.10"));
    assert_eq!(at(at(outbound, "tls"), "insecure"), &Json::Bool(true));
    assert_eq!(at(outbound, "tag"), &s("hy2-server"));
}

#[test]
fn hysteria2_obfs_defaults_to_salamander_and_errors() {
    let out = parse_hysteria2_link("hy2://pw@h:443?obfs_password=x").expect("valid link");
    assert_eq!(at(at(&out, "obfs"), "type"), &s("salamander"));
    assert_eq!(at(at(&out, "obfs"), "password"), &s("x"));
    assert_eq!(at(&out, "tls"), &obj(vec![("enabled", Json::Bool(true))]));
    let err = parse_hysteria2_link("hysteria2://@h:443").unwrap_err();
    assert_eq!(err.message(), "parse error: hysteria2 link missing password");
}

#[test]
fn hy2_scheme_alias_works() {
    let link = "hy2://pw@example.com:443#name";
    let profile = import(link).expect("import should succeed");
    assert_eq!(at(&profile.outbounds[0], "type"), &s("hysteria2"));
}

#[test]
fn multiple_links_become_multiple_outbounds() {
    let text = "vless://u@host1:443?security=tls#one\nhysteria2://pw@host2:443#two\n";
    let profile = import(text).expect("import should succeed");
    assert_eq!(profile.outbounds.len(), 2);
    assert_eq!(profile.name, "one");
}

#[test]
fn blank_lines_between_links_are_skipped() {
    let text = "\n  vless://u@host1:443#one  \r\n\n\thy2://pw@host2:443#two\n\n";
    let profile = import(text).expect("import should succeed");
    assert_eq!(profile.tags(), vec!["one", "two"]);
    assert_eq!(profile.active_tag, Some("one".to_string()));
}

#[test]
fn unsupported_scheme_errors() {
    let err = import("ss://foo@host:443#x").unwrap_err();
    assert!(matches!(err, WispError::UnsupportedProtocol(_)));
    assert_eq!(err.message(), "unsupported protocol: ss");
}

#[test]
fn one_bad_line_fails_the_whole_import() {
    let err = import("vless://u@h:443#ok\nvless://@h:443#bad").unwrap_err();
    assert_eq!(err.message(), "parse error: vless link missing uuid");
}

#[test]
fn strip_counter_suffix_variants() {
    assert_eq!(
        strip_counter_suffix("Bulgaria, Sophia-7w1t0rtt5a § 0"),
        "Bulgaria, Sophia-7w1t0rtt5a"
    );
    assert_eq!(strip_counter_suffix("No suffix here"), "No suffix here");
}

#[test]
fn strip_counter_suffix_trims_commas_and_spaces() {
    assert_eq!(strip_counter_suffix("Name , § 3"), "Name");
    assert_eq!(strip_counter_suffix("  padded  "), "padded");
    assert_eq!(strip_counter_suffix("§ 0"), "");
}

#[test]
fn json_import_falls_back_to_imported_name() {
    let profile = import(r#"[{"type":"vless"}]"#).expect("import should succeed");
    assert_eq!(profile.name, "Imported");
    assert_eq!(profile.id, "imported");
    assert_eq!(profile.active_tag, None);
    let profile = import(r#"[{"type":"vless","tag":"§ 1"}]"#).expect("import should succeed");
    assert_eq!(profile.name, "Imported");
}

#[test]
fn percent_decode_cases() {
    assert_eq!(percent_decode("Bulgaria%2C%20Sophia"), "Bulgaria, Sophia");
    assert_eq!(percent_decode("plain text"), "plain text");
    assert_eq!(percent_decode("100%"), "100%");
    assert_eq!(percent_decode("%zz%41"), "%zzA");
    assert_eq!(percent_decode("%E2%9C%93"), "\u{2713}");
    assert_eq!(percent_decode("%FF"), "\u{FFFD}");
}

#[test]
fn link_name_falls_back_to_imported() {
    assert_eq!(link_name(&None), "Imported");
    assert_eq!(link_name(&Some(String::new())), "Imported");
    assert_eq!(link_name(&Some("a%20b".to_string())), "a b");
}

#[test]
fn slugify_joins_alphanumeric_runs_and_is_idempotent() {
    for name in ["Bulgaria, Sophia-7w1t0rtt5a", "  --A  b__C9!! ", "x", "§§§", "Ünïcode only", "a--b"] {
        let once = slugify(name);
        let runs: Vec<String> = name
            .split(|c: char| !c.is_ascii_alphanumeric())
            .filter(|w| !w.is_empty())
            .map(|w| w.to_ascii_lowercase())
            .collect();
        let expected = if runs.is_empty() { "profile".to_string() } else { runs.join("-") };
        assert_eq!(once, expected);
        assert_eq!(slugify(&once), once);
    }
}
