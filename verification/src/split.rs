//! Split-tunnel model: which mode is active and which rules select the
//! apps/domains/IPs affected by it.

use vstd::prelude::*;

verus! {

/// Whether split tunneling is disabled, or which direction the listed
/// rules go.
#[derive(Debug, Clone, Copy, PartialEq, Eq, Structural)]
pub enum SplitMode {
    /// Everything goes through the proxy.
    Off,
    /// Listed rules go direct, everything else is proxied (persisted files
    /// may still name it `exclude`).
    Blacklist,
    /// Only listed rules are proxied, everything else goes direct (persisted
    /// files may still name it `include`).
    Whitelist,
}

/// The kind of a [`SplitRule`], without its value.
#[derive(Debug, Clone, Copy, PartialEq, Eq, Structural)]
pub enum RuleKind {
    Process,
    ProcessPath,
    DomainSuffix,
    DomainRegex,
    ProcessPathRegex,
    IpCidr,
    Preset,
}

/// A single split-tunnel selector. `Preset` stands for a whole built-in
/// bundle of rules (see `presets`) and is expanded before routing.
#[derive(Debug, Clone)]
pub enum SplitRule {
    Process(String),
    ProcessPath(String),
    DomainSuffix(String),
    /// Regular expression matched against the connection domain.
    DomainRegex(String),
    /// Regular expression matched against the process path.
    ProcessPathRegex(String),
    IpCidr(String),
    /// A built-in preset, by id.
    Preset(String),
}

/// The view of a rule: its kind and its value.
pub type RuleV = (RuleKind, Seq<char>);

impl View for SplitRule {
    type V = RuleV;

    open spec fn view(&self) -> RuleV {
        match self {
            SplitRule::Process(v) => (RuleKind::Process, v@),
            SplitRule::ProcessPath(v) => (RuleKind::ProcessPath, v@),
            SplitRule::DomainSuffix(v) => (RuleKind::DomainSuffix, v@),
            SplitRule::DomainRegex(v) => (RuleKind::DomainRegex, v@),
            SplitRule::ProcessPathRegex(v) => (RuleKind::ProcessPathRegex, v@),
            SplitRule::IpCidr(v) => (RuleKind::IpCidr, v@),
            SplitRule::Preset(v) => (RuleKind::Preset, v@),
        }
    }
}

/// The views of a list of rules.
pub open spec fn rules_view(rs: Seq<SplitRule>) -> Seq<RuleV> {
    rs.map_values(|r: SplitRule| r@)
}

/// The sing-box route-rule field a rule kind maps to.
pub open spec fn field_name(k: RuleKind) -> Seq<char> {
    match k {
        RuleKind::Process => "process_name"@,
        RuleKind::ProcessPath => "process_path"@,
        RuleKind::DomainSuffix => "domain_suffix"@,
        RuleKind::DomainRegex => "domain_regex"@,
        RuleKind::ProcessPathRegex => "process_path_regex"@,
        RuleKind::IpCidr => "ip_cidr"@,
        RuleKind::Preset => "preset"@,
    }
}

impl SplitRule {
    /// The rule's kind.
    pub fn kind(&self) -> (k: RuleKind)
        ensures
            k == self@.0,
    {
        match self {
            SplitRule::Process(_) => RuleKind::Process,
            SplitRule::ProcessPath(_) => RuleKind::ProcessPath,
            SplitRule::DomainSuffix(_) => RuleKind::DomainSuffix,
            SplitRule::DomainRegex(_) => RuleKind::DomainRegex,
            SplitRule::ProcessPathRegex(_) => RuleKind::ProcessPathRegex,
            SplitRule::IpCidr(_) => RuleKind::IpCidr,
            SplitRule::Preset(_) => RuleKind::Preset,
        }
    }

    /// The rule's value.
    pub fn value(&self) -> (v: &str)
        ensures
            v@ == self@.1,
    {
        match self {
            SplitRule::Process(v) => v.as_str(),
            SplitRule::ProcessPath(v) => v.as_str(),
            SplitRule::DomainSuffix(v) => v.as_str(),
            SplitRule::DomainRegex(v) => v.as_str(),
            SplitRule::ProcessPathRegex(v) => v.as_str(),
            SplitRule::IpCidr(v) => v.as_str(),
            SplitRule::Preset(v) => v.as_str(),
        }
    }

    /// The sing-box route-rule field name and value this rule maps to,
    /// e.g. `("process_name", "chrome.exe")`. A preset is never routed as
    /// such (it is expanded first); it reports the field `"preset"`.
    pub fn field(&self) -> (r: (&'static str, &str))
        ensures
            r.0@ == field_name(self@.0),
            r.1@ == self@.1,
    {
        (field_name_of(self.kind()), self.value())
    }

    /// A rule of kind `k` with value `v`.
    pub fn make(k: RuleKind, v: String) -> (r: SplitRule)
        ensures
            r@ == (k, v@),
    {
        match k {
            RuleKind::Process => SplitRule::Process(v),
            RuleKind::ProcessPath => SplitRule::ProcessPath(v),
            RuleKind::DomainSuffix => SplitRule::DomainSuffix(v),
            RuleKind::DomainRegex => SplitRule::DomainRegex(v),
            RuleKind::ProcessPathRegex => SplitRule::ProcessPathRegex(v),
            RuleKind::IpCidr => SplitRule::IpCidr(v),
            RuleKind::Preset => SplitRule::Preset(v),
        }
    }

    /// A copy of this rule.
    pub fn copy(&self) -> (r: SplitRule)
        ensures
            r@ == self@,
    {
        SplitRule::make(self.kind(), self.value().to_string())
    }
}

/// The field name of a rule kind.
pub fn field_name_of(k: RuleKind) -> (r: &'static str)
    ensures
        r@ == field_name(k),
{
    match k {
        RuleKind::Process => "process_name",
        RuleKind::ProcessPath => "process_path",
        RuleKind::DomainSuffix => "domain_suffix",
        RuleKind::DomainRegex => "domain_regex",
        RuleKind::ProcessPathRegex => "process_path_regex",
        RuleKind::IpCidr => "ip_cidr",
        RuleKind::Preset => "preset",
    }
}

impl PartialEq for SplitRule {
    fn eq(&self, other: &Self) -> (r: bool) {
        self.kind() == other.kind() && crate::text::str_eq(self.value(), other.value())
    }
}

impl vstd::std_specs::cmp::PartialEqSpecImpl for SplitRule {
    open spec fn obeys_eq_spec() -> bool {
        true
    }

    open spec fn eq_spec(&self, other: &SplitRule) -> bool {
        self@ == other@
    }
}

impl Eq for SplitRule {

}

/// Whether `rs` holds a rule equal to `r`.
pub fn contains_rule(rs: &Vec<SplitRule>, r: &SplitRule) -> (b: bool)
    ensures
        b == rules_view(rs@).contains(r@),
{
    let mut i: usize = 0;
    while i < rs.len()
        invariant
            i <= rs.len(),
            forall|j: int| 0 <= j < i ==> rs@[j]@ != r@,
        decreases rs.len() - i,
    {
        if rs[i] == *r {
            assert(rules_view(rs@)[i as int] == r@);
            return true;
        }
        i += 1;
    }
    proof {
        if rules_view(rs@).contains(r@) {
            let j = choose|j: int| 0 <= j < rules_view(rs@).len() && rules_view(rs@)[j] == r@;
            assert(rs@[j]@ == r@);
        }
    }
    false
}

/// The full split-tunnel configuration for a profile/connection.
#[derive(Debug, Clone)]
pub struct SplitConfig {
    pub mode: SplitMode,
    pub rules: Vec<SplitRule>,
}

impl Default for SplitConfig {
    fn default() -> (r: SplitConfig)
        ensures
            r.mode == SplitMode::Off,
            r.rules@.len() == 0,
    {
        SplitConfig { mode: SplitMode::Off, rules: Vec::new() }
    }
}

} // verus!
