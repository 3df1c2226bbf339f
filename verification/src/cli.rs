//! Split-tunnel options as the command line gives them: `--rule kind:value`.

use vstd::prelude::*;
use crate::split::{SplitConfig, SplitMode, SplitRule, RuleKind, RuleV, rules_view};
use crate::text::{chars_of, string_of, push_str, push_all, slice_chars, index_of_char, find_char, chars_eq,
    decimal, decimal_chars};
use crate::profile::{Profile, ProfileV, tags_spec, strings_view};

verus! {

/// The rule a `kind:value` option describes (split at the first `:`), or
/// the error text.
pub open spec fn parse_rule_spec(s: Seq<char>) -> Result<RuleV, Seq<char>> {
    let i = find_char(s, ':');
    if i < 0 {
        Err("rule '"@ + s + "' must be in the form kind:value"@)
    } else {
        let kind = s.take(i);
        let value = s.skip(i + 1);
        if kind == "process"@ {
            Ok((RuleKind::Process, value))
        } else if kind == "process_path"@ {
            Ok((RuleKind::ProcessPath, value))
        } else if kind == "domain_suffix"@ {
            Ok((RuleKind::DomainSuffix, value))
        } else if kind == "ip_cidr"@ {
            Ok((RuleKind::IpCidr, value))
        } else {
            Err(
                "unknown rule kind '"@ + kind
                    + "' (expected process|process_path|domain_suffix|ip_cidr)"@,
            )
        }
    }
}

pub open spec fn rule_result_view(r: Result<SplitRule, String>) -> Result<RuleV, Seq<char>> {
    match r {
        Ok(x) => Ok(x@),
        Err(m) => Err(m@),
    }
}

fn is_kind(k: &Vec<char>, name: &str) -> (r: bool)
    ensures
        r == (k@ == name@),
{
    let n = chars_of(name);
    chars_eq(k, &n)
}

/// Parse a single `--rule kind:value` option into a `SplitRule`. Kinds:
/// `process`, `process_path`, `domain_suffix`, `ip_cidr`.
pub fn parse_rule(spec: &str) -> (r: Result<SplitRule, String>)
    ensures
        rule_result_view(r) == parse_rule_spec(spec@),
{
    let cs = chars_of(spec);
    match index_of_char(&cs, ':') {
        None => {
            let mut m = chars_of("rule '");
            push_str(&mut m, spec);
            push_str(&mut m, "' must be in the form kind:value");
            Err(string_of(&m))
        },
        Some(i) => {
            let kind = slice_chars(&cs, 0, i);
            let value = slice_chars(&cs, i + 1, cs.len());
            assert(kind@ =~= cs@.take(i as int));
            assert(value@ =~= cs@.skip(i + 1));
            let v = string_of(&value);
            if is_kind(&kind, "process") {
                Ok(SplitRule::Process(v))
            } else if is_kind(&kind, "process_path") {
                Ok(SplitRule::ProcessPath(v))
            } else if is_kind(&kind, "domain_suffix") {
                Ok(SplitRule::DomainSuffix(v))
            } else if is_kind(&kind, "ip_cidr") {
                Ok(SplitRule::IpCidr(v))
            } else {
                let mut m = chars_of("unknown rule kind '");
                push_all(&mut m, &kind);
                push_str(&mut m, "' (expected process|process_path|domain_suffix|ip_cidr)");
                Err(string_of(&m))
            }
        },
    }
}

/// The rules of a list of options, or the first option's error.
pub open spec fn parse_rules_spec(specs: Seq<Seq<char>>) -> Result<Seq<RuleV>, Seq<char>>
    decreases specs.len(),
{
    if specs.len() == 0 {
        Ok(Seq::empty())
    } else {
        match parse_rules_spec(specs.drop_last()) {
            Err(m) => Err(m),
            Ok(rs) => match parse_rule_spec(specs.last()) {
                Err(m) => Err(m),
                Ok(r) => Ok(rs.push(r)),
            },
        }
    }
}

proof fn lemma_rules_error(specs: Seq<Seq<char>>, n: int, i: int)
    requires
        0 <= i < n <= specs.len(),
        parse_rules_spec(specs.take(i + 1)) is Err,
    ensures
        parse_rules_spec(specs.take(n)) == parse_rules_spec(specs.take(i + 1)),
    decreases n - i,
{
    if n > i + 1 {
        lemma_rules_error(specs, n - 1, i);
        assert(specs.take(n).drop_last() =~= specs.take(n - 1));
    }
}

/// The views of a list of strings.
pub open spec fn strs_view(v: Seq<String>) -> Seq<Seq<char>> {
    v.map_values(|s: String| s@)
}

/// The split configuration of a mode and `--rule` options.
pub fn split_config(mode: SplitMode, rules: &[String]) -> (r: Result<SplitConfig, String>)
    ensures
        match r {
            Ok(c) => c.mode == mode && parse_rules_spec(strs_view(rules@)) == Ok::<
                Seq<RuleV>,
                Seq<char>,
            >(rules_view(c.rules@)),
            Err(m) => parse_rules_spec(strs_view(rules@)) == Err::<Seq<RuleV>, Seq<char>>(m@),
        },
{
    let ghost sv = strs_view(rules@);
    let mut out: Vec<SplitRule> = Vec::new();
    let mut i: usize = 0;
    assert(sv.take(0) =~= Seq::<Seq<char>>::empty());
    assert(rules_view(out@) =~= Seq::<RuleV>::empty());
    while i < rules.len()
        invariant
            i <= rules.len(),
            sv == strs_view(rules@),
            parse_rules_spec(sv.take(i as int)) == Ok::<Seq<RuleV>, Seq<char>>(rules_view(out@)),
        decreases rules.len() - i,
    {
        assert(sv.take(i + 1).drop_last() =~= sv.take(i as int));
        match parse_rule(rules[i].as_str()) {
            Ok(rule) => {
                let ghost before = out@;
                let ghost rv = rule@;
                out.push(rule);
                assert(rules_view(out@) =~= rules_view(before).push(rv));
            },
            Err(m) => {
                proof {
                    lemma_rules_error(sv, sv.len() as int, i as int);
                    assert(sv.take(sv.len() as int) =~= sv);
                }
                return Err(m);
            },
        }
        i += 1;
    }
    assert(sv.take(rules.len() as int) =~= sv);
    Ok(SplitConfig { mode, rules: out })
}

/// The lines `wisp parse` prints for a profile: its name and id, the
/// number of tags, one line per tag, and the active tag.
pub open spec fn summary_spec(p: ProfileV) -> Seq<Seq<char>> {
    let tags = tags_spec(p.outbounds);
    seq!["profile: "@ + p.name + " ("@ + p.id + ")"@, "outbounds: "@ + decimal(tags.len())]
        + Seq::new(tags.len(), |i: int| "  - "@ + tags[i]) + seq![
        match p.active_tag {
            Some(t) => "active_tag: "@ + t,
            None => "active_tag: (none)"@,
        },
    ]
}

fn concat(a: &str, b: &str) -> (r: String)
    ensures
        r@ == a@ + b@,
{
    let mut out = chars_of(a);
    push_str(&mut out, b);
    string_of(&out)
}

/// The summary of a profile that `wisp parse` prints, line by line.
pub fn profile_summary(p: &Profile) -> (r: Vec<String>)
    ensures
        strs_view(r@) == summary_spec(p@),
{
    let tags = p.tags();
    let ghost tv = tags_spec(p@.outbounds);
    let mut out: Vec<String> = Vec::new();
    let mut head = chars_of("profile: ");
    push_str(&mut head, p.name.as_str());
    push_str(&mut head, " (");
    push_str(&mut head, p.id.as_str());
    push_str(&mut head, ")");
    out.push(string_of(&head));
    let mut count = chars_of("outbounds: ");
    let digits = decimal_chars(tags.len() as u64);
    push_all(&mut count, &digits);
    out.push(string_of(&count));
    let mut i: usize = 0;
    while i < tags.len()
        invariant
            i <= tags.len(),
            strings_view(tags@) == tv,
            out@.len() == 2 + i,
            strs_view(out@) == seq![
                "profile: "@ + p@.name + " ("@ + p@.id + ")"@,
                "outbounds: "@ + decimal(tv.len()),
            ] + Seq::new(i as nat, |j: int| "  - "@ + tv[j]),
        decreases tags.len() - i,
    {
        let ghost before = strs_view(out@);
        let line = concat("  - ", tags[i].as_str());
        proof {
            assert(tv[i as int] == tags@[i as int]@);
        }
        out.push(line);
        assert(strs_view(out@) =~= before.push("  - "@ + tv[i as int]));
        i += 1;
        assert(strs_view(out@) =~= seq![
            "profile: "@ + p@.name + " ("@ + p@.id + ")"@,
            "outbounds: "@ + decimal(tv.len()),
        ] + Seq::new(i as nat, |j: int| "  - "@ + tv[j]));
    }
    let last = match &p.active_tag {
        Some(t) => concat("active_tag: ", t.as_str()),
        None => "active_tag: (none)".to_string(),
    };
    let ghost before = strs_view(out@);
    out.push(last);
    assert(strs_view(out@) =~= summary_spec(p@));
    out
}

} // verus!
