use wisp::presets::{
    expand_rules, is_preset_member, preset_label, preset_rules, valve_gaming_preset,
    VALVE_DOMAINS, VALVE_IPV4, VALVE_IPV6, VALVE_PRESET_ID, VALVE_PROCESSES,
};
use wisp::split::{contains_rule, field_name_of, RuleKind, SplitConfig, SplitMode, SplitRule};

#[test]
fn default_is_off_and_empty() {
    let cfg = SplitConfig::default();
    assert_eq!(cfg.mode, SplitMode::Off);
    assert!(cfg.rules.is_empty());
}

#[test]
fn field_mapping() {
    assert_eq!(
        SplitRule::Process("chrome.exe".into()).field(),
        ("process_name", "chrome.exe")
    );
    assert_eq!(
        SplitRule::ProcessPath("C:\\a.exe".into()).field(),
        ("process_path", "C:\\a.exe")
    );
    assert_eq!(
        SplitRule::DomainSuffix("x.com".into()).field(),
        ("domain_suffix", "x.com")
    );
    assert_eq!(
        SplitRule::DomainRegex("^ads\\.".into()).field(),
        ("domain_regex", "^ads\\.")
    );
    assert_eq!(
        SplitRule::ProcessPathRegex("C:\\\\Games\\\\.*".into()).field(),
        ("process_path_regex", "C:\\\\Games\\\\.*")
    );
    assert_eq!(
        SplitRule::IpCidr("1.2.3.0/24".into()).field(),
        ("ip_cidr", "1.2.3.0/24")
    );
}

#[test]
fn preset_rule_field_is_preset() {
    assert_eq!(SplitRule::Preset("valve".into()).field(), ("preset", "valve"));
    assert_eq!(field_name_of(RuleKind::Preset), "preset");
}

#[test]
fn rule_equality_compares_kind_and_value() {
    assert!(SplitRule::Process("a".into()) == SplitRule::Process("a".into()));
    assert!(SplitRule::Process("a".into()) != SplitRule::Process("b".into()));
    assert!(SplitRule::Process("a".into()) != SplitRule::ProcessPath("a".into()));
    let rs = vec![SplitRule::DomainSuffix("x.com".into())];
    assert!(contains_rule(&rs, &SplitRule::DomainSuffix("x.com".into())));
    assert!(!contains_rule(&rs, &SplitRule::Process("x.com".into())));
}

#[test]
fn make_and_kind_round_trip() {
    let r = SplitRule::make(RuleKind::IpCidr, "10.0.0.0/8".to_string());
    assert_eq!(r.kind(), RuleKind::IpCidr);
    assert_eq!(r.value(), "10.0.0.0/8");
    assert!(r.copy() == r);
}

#[test]
fn preset_has_processes_ipv4_ipv6_and_domains() {
    let rules = valve_gaming_preset();
    assert_eq!(
        rules.len(),
        VALVE_PROCESSES.len() + VALVE_IPV4.len() + VALVE_IPV6.len() + VALVE_DOMAINS.len()
    );
    // the SDR relay range seen in real logs must be covered
    assert!(VALVE_IPV4.contains(&"155.133.230.0/24"));
    assert!(rules
        .iter()
        .any(|r| matches!(r, SplitRule::DomainSuffix(d) if d == "steampowered.com")));
    // process coverage catches game traffic regardless of destination
    assert!(rules
        .iter()
        .any(|r| matches!(r, SplitRule::Process(p) if p == "dota2.exe")));
}

#[test]
fn preset_rules_come_in_order_processes_ipv4_ipv6_domains() {
    let rules = valve_gaming_preset();
    assert!(rules[0] == SplitRule::Process(VALVE_PROCESSES[0].to_string()));
    let first_v4 = VALVE_PROCESSES.len();
    assert!(rules[first_v4] == SplitRule::IpCidr(VALVE_IPV4[0].to_string()));
    let first_v6 = first_v4 + VALVE_IPV4.len();
    assert!(rules[first_v6] == SplitRule::IpCidr(VALVE_IPV6[0].to_string()));
    let first_domain = first_v6 + VALVE_IPV6.len();
    assert!(rules[first_domain] == SplitRule::DomainSuffix(VALVE_DOMAINS[0].to_string()));
}

#[test]
fn preset_lookup_by_id() {
    let rules = preset_rules(VALVE_PRESET_ID).expect("valve preset exists");
    assert_eq!(rules.len(), valve_gaming_preset().len());
    assert!(preset_rules("nope").is_none());
    assert!(preset_label(VALVE_PRESET_ID).is_some());
    assert!(preset_label("nope").is_none());
}

#[test]
fn expand_replaces_preset_and_leaves_others() {
    let input = vec![
        SplitRule::DomainSuffix("example.com".into()),
        SplitRule::Preset(VALVE_PRESET_ID.into()),
    ];
    let out = expand_rules(&input);
    // the plain rule survives; the preset entry itself is gone
    assert!(out.contains(&SplitRule::DomainSuffix("example.com".into())));
    assert!(!out.iter().any(|r| matches!(r, SplitRule::Preset(_))));
    // and it was replaced by the valve rules
    assert!(out.contains(&SplitRule::Process("dota2.exe".into())));
    assert_eq!(out.len(), 1 + valve_gaming_preset().len());
}

#[test]
fn expand_keeps_rule_order_around_a_preset() {
    let input = vec![
        SplitRule::Process("a.exe".into()),
        SplitRule::Preset(VALVE_PRESET_ID.into()),
        SplitRule::Process("b.exe".into()),
    ];
    let out = expand_rules(&input);
    let n = valve_gaming_preset().len();
    assert_eq!(out.len(), n + 2);
    assert!(out[0] == SplitRule::Process("a.exe".into()));
    assert!(out[1] == valve_gaming_preset()[0]);
    assert!(out[n + 1] == SplitRule::Process("b.exe".into()));
}

#[test]
fn unknown_preset_is_dropped() {
    let out = expand_rules(&[SplitRule::Preset("nope".into())]);
    assert!(out.is_empty());
}

#[test]
fn is_preset_member_matches_constituents_and_the_preset_itself() {
    assert!(is_preset_member(
        VALVE_PRESET_ID,
        &SplitRule::Process("dota2.exe".into())
    ));
    assert!(is_preset_member(
        VALVE_PRESET_ID,
        &SplitRule::IpCidr("155.133.230.0/24".into())
    ));
    assert!(is_preset_member(
        VALVE_PRESET_ID,
        &SplitRule::Preset(VALVE_PRESET_ID.into())
    ));
    assert!(!is_preset_member(
        VALVE_PRESET_ID,
        &SplitRule::DomainSuffix("example.com".into())
    ));
}

#[test]
fn nothing_is_a_member_of_an_unknown_preset() {
    assert!(!is_preset_member("nope", &SplitRule::Process("dota2.exe".into())));
    assert!(is_preset_member("nope", &SplitRule::Preset("nope".into())));
}
