//! Built-in split-tunnel presets.
//!
//! A preset is stored in a [`SplitConfig`](crate::split::SplitConfig) as a
//! single [`SplitRule::Preset`] entry (so the UI shows one row for a whole
//! category) and expanded into concrete rules by [`expand_rules`] just before
//! config generation. New one-click categories get an id in
//! [`preset_rules`] and a label in [`preset_label`].
//!
//! [`valve_gaming_preset`] routes all Valve/Steam traffic (Steam client,
//! Dota 2, CS, and the Steam Datagram Relay game servers) DIRECT, combining
//! three complementary levers: the game **processes**, Valve's announced
//! **IP ranges** (AS32590, from RIPEstat's announced prefixes), and Steam
//! **domains**.

use vstd::prelude::*;
use crate::split::{SplitRule, RuleKind, RuleV, rules_view};
use crate::text::str_eq;

verus! {

/// Preset id for the Valve/Steam gaming bundle.
pub const VALVE_PRESET_ID: &'static str = "valve";

/// Valve/Steam game & client executables.
pub const VALVE_PROCESSES: [&'static str; 7] = [
    "steam.exe",
    "steamwebhelper.exe",
    "steamservice.exe",
    "dota2.exe",
    "cs2.exe",
    "csgo.exe",
    "hl2.exe",
];

/// Valve/Steam IPv4 networks (AS32590).
pub const VALVE_IPV4: [&'static str; 44] = [
    "103.10.124.0/24",
    "103.10.125.0/24",
    "103.28.54.0/24",
    "146.66.152.0/24",
    "146.66.155.0/24",
    "155.133.224.0/24",
    "155.133.225.0/24",
    "155.133.226.0/24",
    "155.133.227.0/24",
    "155.133.228.0/24",
    "155.133.229.0/24",
    "155.133.230.0/24",
    "155.133.236.0/23",
    "155.133.238.0/24",
    "155.133.239.0/24",
    "155.133.240.0/23",
    "155.133.244.0/24",
    "155.133.246.0/24",
    "155.133.248.0/24",
    "155.133.249.0/24",
    "155.133.250.0/24",
    "155.133.251.0/24",
    "155.133.252.0/24",
    "155.133.254.0/24",
    "155.133.255.0/24",
    "162.254.192.0/24",
    "162.254.193.0/24",
    "162.254.194.0/24",
    "162.254.195.0/24",
    "162.254.196.0/24",
    "162.254.197.0/24",
    "162.254.198.0/24",
    "162.254.199.0/24",
    "185.25.180.0/24",
    "185.25.182.0/24",
    "185.25.183.0/24",
    "192.69.96.0/22",
    "205.196.6.0/24",
    "208.64.200.0/24",
    "208.64.201.0/24",
    "208.64.202.0/24",
    "208.64.203.0/24",
    "208.78.164.0/22",
    "45.121.184.0/24",
];

/// Valve/Steam IPv6 networks (AS32590).
pub const VALVE_IPV6: [&'static str; 32] = [
    "2404:3fc0:1::/48",
    "2404:3fc0:2::/48",
    "2404:3fc0:3::/48",
    "2404:3fc0:8::/48",
    "2404:3fc0:9::/48",
    "2404:3fc0::/48",
    "2404:3fc0:a::/48",
    "2602:801:f000::/48",
    "2602:801:f001::/48",
    "2602:801:f002::/48",
    "2602:801:f003::/48",
    "2602:801:f005::/48",
    "2602:801:f006::/48",
    "2602:801:f007::/48",
    "2602:801:f008::/48",
    "2602:801:f009::/48",
    "2602:801:f00a::/48",
    "2602:801:f00b::/48",
    "2602:801:f00d::/48",
    "2a01:bc80:1::/48",
    "2a01:bc80:2::/48",
    "2a01:bc80:3::/48",
    "2a01:bc80:4::/48",
    "2a01:bc80:5::/48",
    "2a01:bc80:6::/48",
    "2a01:bc80:7::/48",
    "2a01:bc80:8::/48",
    "2a01:bc80:9::/48",
    "2a01:bc80::/48",
    "2a01:bc80:a::/48",
    "2a01:bc80:b::/48",
    "2a01:bc80:c::/48",
];

/// Steam/Valve web + content domain suffixes.
pub const VALVE_DOMAINS: [&'static str; 11] = [
    "steampowered.com",
    "steamcommunity.com",
    "steamstatic.com",
    "steamcontent.com",
    "steamusercontent.com",
    "steamserver.net",
    "steamgames.com",
    "valvesoftware.com",
    "dota2.com",
    "counter-strike.net",
    "steam-chat.com",
];

/// The rules of kind `k` for the values `items`, in order.
pub open spec fn rules_of(k: RuleKind, items: Seq<&str>) -> Seq<RuleV> {
    items.map_values(|s: &str| (k, s@))
}

/// The Valve preset: one `Process` rule per executable, one `IpCidr` rule
/// per IPv4 then IPv6 network, one `DomainSuffix` rule per domain.
pub open spec fn valve_preset_spec() -> Seq<RuleV> {
    rules_of(RuleKind::Process, VALVE_PROCESSES@) + rules_of(RuleKind::IpCidr, VALVE_IPV4@)
        + rules_of(RuleKind::IpCidr, VALVE_IPV6@) + rules_of(
        RuleKind::DomainSuffix,
        VALVE_DOMAINS@,
    )
}

/// The rules a preset id stands for; `None` for an unknown id.
pub open spec fn preset_spec(id: Seq<char>) -> Option<Seq<RuleV>> {
    if id == VALVE_PRESET_ID@ {
        Some(valve_preset_spec())
    } else {
        None
    }
}

/// The UI label of a preset id; `None` for an unknown id.
pub open spec fn preset_label_spec(id: Seq<char>) -> Option<Seq<char>> {
    if id == VALVE_PRESET_ID@ {
        Some("Valve / Steam games (Dota 2, CS, Steam)"@)
    } else {
        None
    }
}

fn push_rules(out: &mut Vec<SplitRule>, k: RuleKind, items: &[&str])
    ensures
        rules_view(final(out)@) == rules_view(old(out)@) + rules_of(k, items@),
{
    let ghost start = rules_view(out@);
    let mut i: usize = 0;
    while i < items.len()
        invariant
            i <= items.len(),
            rules_view(out@) == start + rules_of(k, items@.take(i as int)),
        decreases items.len() - i,
    {
        let s: &str = items[i];
        let owned = s.to_string();
        assert(owned@ == s@);
        let ghost before = out@;
        out.push(SplitRule::make(k, owned));
        assert(rules_view(out@) =~= rules_view(before).push((k, s@)));
        i += 1;
        assert(rules_view(out@) =~= start + rules_of(k, items@.take(i as int)));
    }
    assert(items@.take(items.len() as int) =~= items@);
}

/// Rules that send all Valve/Steam/game traffic direct (add to a
/// Blacklist).
pub fn valve_gaming_preset() -> (r: Vec<SplitRule>)
    ensures
        rules_view(r@) == valve_preset_spec(),
{
    let mut rules: Vec<SplitRule> = Vec::new();
    push_rules(&mut rules, RuleKind::Process, &VALVE_PROCESSES);
    push_rules(&mut rules, RuleKind::IpCidr, &VALVE_IPV4);
    push_rules(&mut rules, RuleKind::IpCidr, &VALVE_IPV6);
    push_rules(&mut rules, RuleKind::DomainSuffix, &VALVE_DOMAINS);
    assert(rules_view(rules@) =~= valve_preset_spec());
    rules
}

/// The concrete rules a preset id expands to, or `None` for an unknown id.
pub fn preset_rules(id: &str) -> (r: Option<Vec<SplitRule>>)
    ensures
        match r {
            Some(v) => preset_spec(id@) == Some(rules_view(v@)),
            None => preset_spec(id@) is None,
        },
{
    if str_eq(id, VALVE_PRESET_ID) {
        Some(valve_gaming_preset())
    } else {
        None
    }
}

/// Human-readable label for a preset id, for the UI. `None` for unknown ids.
pub fn preset_label(id: &str) -> (r: Option<&'static str>)
    ensures
        match r {
            Some(s) => preset_label_spec(id@) == Some(s@),
            None => preset_label_spec(id@) is None,
        },
{
    if str_eq(id, VALVE_PRESET_ID) {
        Some("Valve / Steam games (Dota 2, CS, Steam)")
    } else {
        None
    }
}

/// What one rule becomes when presets are expanded.
pub open spec fn expand_one(r: RuleV) -> Seq<RuleV> {
    if r.0 == RuleKind::Preset {
        match preset_spec(r.1) {
            Some(rs) => rs,
            None => Seq::empty(),
        }
    } else {
        seq![r]
    }
}

/// Every preset replaced by its rules (an unknown preset dropped), every
/// other rule kept in place.
pub open spec fn expand_spec(rs: Seq<RuleV>) -> Seq<RuleV>
    decreases rs.len(),
{
    if rs.len() == 0 {
        Seq::empty()
    } else {
        expand_spec(rs.drop_last()) + expand_one(rs.last())
    }
}

/// Expand every [`SplitRule::Preset`] into its concrete rules, leaving all
/// other rules untouched and in place. An unknown preset id is dropped (a
/// config that names a preset this build does not know still connects).
/// The result contains no `Preset` entries.
pub fn expand_rules(rules: &[SplitRule]) -> (r: Vec<SplitRule>)
    ensures
        rules_view(r@) == expand_spec(rules_view(rules@)),
{
    let ghost rv = rules_view(rules@);
    let mut out: Vec<SplitRule> = Vec::new();
    let mut i: usize = 0;
    while i < rules.len()
        invariant
            i <= rules.len(),
            rv == rules_view(rules@),
            rules_view(out@) == expand_spec(rv.take(i as int)),
        decreases rules.len() - i,
    {
        assert(rv.take(i + 1).drop_last() =~= rv.take(i as int));
        match &rules[i] {
            SplitRule::Preset(id) => {
                match preset_rules(id.as_str()) {
                    Some(expanded) => {
                        let ghost before = rules_view(out@);
                        let mut e = expanded;
                        out.append(&mut e);
                        assert(rules_view(out@) =~= before + rules_view(expanded@));
                    },
                    None => {},
                }
            },
            other => {
                out.push(other.copy());
                assert(rules_view(out@) =~= expand_spec(rv.take(i + 1)));
            },
        }
        i += 1;
    }
    assert(rv.take(rules.len() as int) =~= rv);
    out
}

/// Whether `rule` belongs to the preset `id`: it is that preset itself, or
/// one of the rules the preset expands to.
pub open spec fn is_member_spec(id: Seq<char>, rule: RuleV) -> bool {
    if rule.0 == RuleKind::Preset {
        rule.1 == id
    } else {
        match preset_spec(id) {
            Some(rs) => rs.contains(rule),
            None => false,
        }
    }
}

/// Whether `rule` is one this build considers part of the given preset id,
/// used to fold configs that stored a preset's rules one by one back into a
/// single [`SplitRule::Preset`].
pub fn is_preset_member(id: &str, rule: &SplitRule) -> (r: bool)
    ensures
        r == is_member_spec(id@, rule@),
{
    match rule {
        SplitRule::Preset(existing) => str_eq(existing.as_str(), id),
        other => match preset_rules(id) {
            Some(rules) => crate::split::contains_rule(&rules, other),
            None => false,
        },
    }
}

/// No preset survives expansion: every rule of `expand_spec(rs)` is a
/// concrete rule.
pub proof fn lemma_expand_has_no_presets(rs: Seq<RuleV>)
    ensures
        forall|i: int|
            0 <= i < expand_spec(rs).len() ==> (#[trigger] expand_spec(rs)[i]).0
                != RuleKind::Preset,
    decreases rs.len(),
{
    if rs.len() > 0 {
        lemma_expand_has_no_presets(rs.drop_last());
        let pre = expand_spec(rs.drop_last());
        let one = expand_one(rs.last());
        assert forall|i: int| 0 <= i < one.len() implies (#[trigger] one[i]).0
            != RuleKind::Preset by {
            if rs.last().0 == RuleKind::Preset && preset_spec(rs.last().1) is Some {
                let v = valve_preset_spec();
                assert(one == v);
                let a = rules_of(RuleKind::Process, VALVE_PROCESSES@);
                let b = rules_of(RuleKind::IpCidr, VALVE_IPV4@);
                let c = rules_of(RuleKind::IpCidr, VALVE_IPV6@);
                let d = rules_of(RuleKind::DomainSuffix, VALVE_DOMAINS@);
                if i < a.len() {
                    assert(v[i] == a[i]);
                } else if i < a.len() + b.len() {
                    assert(v[i] == b[i - a.len()]);
                } else if i < a.len() + b.len() + c.len() {
                    assert(v[i] == c[i - a.len() - b.len()]);
                } else {
                    assert(v[i] == d[i - a.len() - b.len() - c.len()]);
                }
            }
        }
        assert forall|i: int| 0 <= i < expand_spec(rs).len() implies (#[trigger] expand_spec(
            rs,
        )[i]).0 != RuleKind::Preset by {
            if i < pre.len() {
                assert(expand_spec(rs)[i] == pre[i]);
            } else {
                assert(expand_spec(rs)[i] == one[i - pre.len()]);
            }
        }
    }
}

/// Every concrete rule survives expansion, and the expansion of a known
/// preset brings in each of its members.
pub proof fn lemma_expand_keeps_rules(rs: Seq<RuleV>, r: RuleV)
    requires
        rs.contains(r),
    ensures
        r.0 != RuleKind::Preset ==> expand_spec(rs).contains(r),
        r.0 == RuleKind::Preset && preset_spec(r.1) is Some ==> forall|m: RuleV|
            preset_spec(r.1)->0.contains(m) ==> #[trigger] expand_spec(rs).contains(m),
    decreases rs.len(),
{
    let pre = expand_spec(rs.drop_last());
    let one = expand_one(rs.last());
    assert(expand_spec(rs) == pre + one);
    if rs.last() == r {
        if r.0 != RuleKind::Preset {
            assert(one[0] == r);
            assert((pre + one)[pre.len() as int] == r);
        } else if preset_spec(r.1) is Some {
            assert forall|m: RuleV| preset_spec(r.1)->0.contains(m) implies #[trigger] expand_spec(
                rs,
            ).contains(m) by {
                let k = choose|k: int| 0 <= k < one.len() && one[k] == m;
                assert((pre + one)[pre.len() + k] == m);
            }
        }
    } else {
        let j = choose|j: int| 0 <= j < rs.len() && rs[j] == r;
        assert(rs.drop_last()[j] == r);
        lemma_expand_keeps_rules(rs.drop_last(), r);
        if r.0 != RuleKind::Preset {
            let k = choose|k: int| 0 <= k < pre.len() && pre[k] == r;
            assert((pre + one)[k] == r);
        } else if preset_spec(r.1) is Some {
            assert forall|m: RuleV| preset_spec(r.1)->0.contains(m) implies #[trigger] expand_spec(
                rs,
            ).contains(m) by {
                assert(pre.contains(m));
                let k = choose|k: int| 0 <= k < pre.len() && pre[k] == m;
                assert((pre + one)[k] == m);
            }
        }
    }
}

/// A preset is a member of itself, and so is every rule it expands to.
pub proof fn lemma_preset_members(id: Seq<char>, m: RuleV)
    ensures
        is_member_spec(id, (RuleKind::Preset, id)),
        preset_spec(id) is Some && preset_spec(id)->0.contains(m) && m.0 != RuleKind::Preset
            ==> is_member_spec(id, m),
{
}

} // verus!
