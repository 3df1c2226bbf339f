//! Build a complete sing-box configuration from a `Profile` and
//! `SplitConfig`.
//!
//! Targets the sing-box 1.13 config schema: typed DNS servers, a
//! `default_domain_resolver` on `route`, and no `block` outbound type. The
//! bundled engine is a sing-box 1.13 fork that adds Xray transports,
//! including `xhttp`; see [`normalize_xhttp_transport`] for the
//! camelCase-vs-snake_case wrinkle that transport requires. The older
//! `splithttp` name is not supported and is dropped.

use vstd::prelude::*;
use crate::json::{
    Json, JsonV, Entries, jstr, entries_view, entries_get, entries_set, key_index, find_key,
    push_entry, object, array, number, items_view, lemma_object_view, lemma_key_index,
    lemma_key_index_same_keys, key_index_from,
};
use crate::profile::{Profile, ProfileV, tag_spec, tags_spec, outs_view, tags_of, strings_view, opt_view};
use crate::split::{SplitConfig, SplitMode, SplitRule, RuleKind, RuleV, rules_view, field_name, field_name_of};
use crate::presets::{expand_spec, expand_rules};
use crate::error::{WispError, ErrV};
use crate::parse::{import_spec, is_supported_type, lemma_import_shape};
use crate::text::{lemma_lex_transitive, lemma_lex_total,
    is_ascii_upper, ascii_lower, to_ascii_lower, chars_of, string_of, lex_lt, lex_less, decimal,
    push_str, push_all, chars_eq,
};

verus! {

/// Settings that control the shape of the generated config but aren't part
/// of the profile or split-tunnel model.
#[derive(Debug, Clone)]
pub struct BuildSettings {
    /// TUN interface MTU. Default 1280.
    pub mtu: u32,
    /// Secret for sing-box's Clash API.
    pub clash_secret: String,
    /// Port for sing-box's Clash API (`127.0.0.1:<port>`). Default 9090.
    pub clash_port: u16,
    /// Optional local SOCKS inbound port, in addition to the TUN inbound.
    pub socks_port: Option<u16>,
    /// sing-box `log.level`. Default `"info"`.
    pub log_level: String,
}

impl Default for BuildSettings {
    fn default() -> (r: BuildSettings)
        ensures
            r.mtu == 1280,
            r.clash_secret@ == Seq::<char>::empty(),
            r.clash_port == 9090,
            r.socks_port is None,
            r.log_level@ == "info"@,
    {
        BuildSettings {
            mtu: 1280,
            clash_secret: String::new(),
            clash_port: 9090,
            socks_port: None,
            log_level: "info".to_string(),
        }
    }
}

/// One step of the camelCase scan at index `i`: an underscore goes before
/// each run of uppercase letters (except at the start), and the letters are
/// lowercased.
pub open spec fn camel_scan(s: Seq<char>) -> (Seq<char>, bool)
    decreases s.len(),
{
    if s.len() == 0 {
        (Seq::empty(), false)
    } else {
        let (o, prev_upper) = camel_scan(s.drop_last());
        let c = s.last();
        if is_ascii_upper(c) {
            let o2 = if s.len() - 1 > 0 && !prev_upper {
                o.push('_')
            } else {
                o
            };
            (o2.push(ascii_lower(c)), true)
        } else {
            (o.push(c), false)
        }
    }
}

/// `key` renamed from camelCase to snake_case.
pub open spec fn camel_to_snake_spec(key: Seq<char>) -> Seq<char> {
    camel_scan(key).0
}

/// Rename a camelCase identifier to snake_case: an underscore is inserted
/// before each run of uppercase letters (except at the very start), and the
/// whole thing is lowercased. Keys that are already snake_case (no
/// uppercase letters) round-trip unchanged.
///
/// `xPaddingBytes` -> `x_padding_bytes`, `scMaxEachPostBytes` ->
/// `sc_max_each_post_bytes`, `path` -> `path`.
pub fn camel_to_snake(key: &str) -> (r: String)
    ensures
        r@ == camel_to_snake_spec(key@),
{
    let cs = chars_of(key);
    let out = camel_chars(&cs);
    string_of(&out)
}

fn camel_chars(cs: &Vec<char>) -> (r: Vec<char>)
    ensures
        r@ == camel_to_snake_spec(cs@),
{
    let mut out: Vec<char> = Vec::new();
    let mut prev_upper = false;
    let mut i: usize = 0;
    while i < cs.len()
        invariant
            i <= cs.len(),
            (out@, prev_upper) == camel_scan(cs@.take(i as int)),
        decreases cs.len() - i,
    {
        assert(cs@.take(i + 1).drop_last() =~= cs@.take(i as int));
        let ch = cs[i];
        if 'A' <= ch && ch <= 'Z' {
            if i > 0 && !prev_upper {
                out.push('_');
            }
            out.push(to_ascii_lower(ch));
            prev_upper = true;
        } else {
            out.push(ch);
            prev_upper = false;
        }
        i += 1;
    }
    assert(cs@.take(cs.len() as int) =~= cs@);
    out
}

/// Keys without uppercase ASCII letters come out of [`camel_to_snake`]
/// unchanged, and no key comes out with an uppercase ASCII letter.
pub proof fn lemma_camel_to_snake(key: Seq<char>)
    ensures
        (forall|i: int| 0 <= i < key.len() ==> !is_ascii_upper(#[trigger] key[i]))
            ==> camel_to_snake_spec(key) == key,
        forall|i: int|
            0 <= i < camel_to_snake_spec(key).len() ==> !is_ascii_upper(
                #[trigger] camel_to_snake_spec(key)[i],
            ),
    decreases key.len(),
{
    if key.len() > 0 {
        lemma_camel_to_snake(key.drop_last());
        let (o, p) = camel_scan(key.drop_last());
        let r = camel_to_snake_spec(key);
        if forall|i: int| 0 <= i < key.len() ==> !is_ascii_upper(#[trigger] key[i]) {
            assert forall|i: int| 0 <= i < key.drop_last().len() implies !is_ascii_upper(
                #[trigger] key.drop_last()[i],
            ) by {
                assert(key.drop_last()[i] == key[i]);
            }
            assert(!is_ascii_upper(key.last()));
            assert(r =~= key.drop_last().push(key.last()));
            assert(key.drop_last().push(key.last()) =~= key);
        }
        let c = key.last();
        assert(is_ascii_upper(c) ==> !is_ascii_upper(ascii_lower(c)));
        assert forall|i: int| 0 <= i < r.len() implies !is_ascii_upper(#[trigger] r[i]) by {
            if i < o.len() {
                assert(o == camel_to_snake_spec(key.drop_last()));
                assert(!is_ascii_upper(camel_to_snake_spec(key.drop_last())[i]));
                assert(r[i] == o[i]);
            } else if i == r.len() - 1 {
                assert(r[i] == (if is_ascii_upper(c) { ascii_lower(c) } else { c }));
            } else {
                assert(r[i] == '_');
            }
        }
    }
}

/// An entry renamed to snake_case, with the key it had before.
pub type Renamed = Seq<(Seq<char>, Seq<char>, JsonV)>;

/// The renamed entries without their former keys.
pub open spec fn renamed_entries(r: Renamed) -> Entries {
    r.map_values(|t: (Seq<char>, Seq<char>, JsonV)| (t.0, t.2))
}

/// Renaming of an entry list: every key becomes its snake_case form; when
/// several keys become the same one, the value of the greatest former key
/// (in byte order) is kept, at the place of the first of them. (This is what
/// re-inserting the renamed pairs of a sorted map in order gives.)
pub open spec fn rename_keys(es: Entries) -> Renamed
    decreases es.len(),
{
    if es.len() == 0 {
        Seq::empty()
    } else {
        let r = rename_keys(es.drop_last());
        let (k, v) = es.last();
        let s = camel_to_snake_spec(k);
        let j = key_index(renamed_entries(r), s);
        if j < 0 {
            r.push((s, k, v))
        } else if lex_lt(r[j].1, k) {
            r.update(j, (s, k, v))
        } else {
            r
        }
    }
}

/// Whether an xhttp transport's padding must be filled in: absent, null,
/// empty or `"0"`.
pub open spec fn needs_padding(es: Entries) -> bool {
    match entries_get(es, "x_padding_bytes"@) {
        None => true,
        Some(JsonV::Null) => true,
        Some(JsonV::String(s)) => s.len() == 0 || s == "0"@,
        _ => false,
    }
}

/// An xhttp transport as the bundled engine needs it: keys renamed to
/// snake_case, and `x_padding_bytes` set to `"100-1000"` when missing,
/// null, empty or `"0"`. Anything but an object is left as it is.
pub open spec fn normalize_transport_spec(t: JsonV) -> JsonV {
    match t {
        JsonV::Object(es) => {
            let es2 = renamed_entries(rename_keys(es));
            JsonV::Object(
                if needs_padding(es2) {
                    entries_set(es2, "x_padding_bytes"@, jstr("100-1000"@))
                } else {
                    es2
                },
            )
        },
        _ => t,
    }
}

fn renamed_view(out: Seq<(String, Json)>, origs: Seq<Vec<char>>) -> (r: Ghost<Renamed>)
    requires
        out.len() == origs.len(),
    ensures
        r@ == Seq::new(out.len(), |i: int| (out[i].0@, origs[i]@, out[i].1@)),
{
    Ghost(Seq::new(out.len(), |i: int| (out[i].0@, origs[i]@, out[i].1@)))
}

/// The renamed entries of `es` (values copied).
fn rename_all(es: &Vec<(String, Json)>) -> (r: Vec<(String, Json)>)
    ensures
        entries_view(r@) == renamed_entries(rename_keys(entries_view(es@))),
{
    let ghost ev = entries_view(es@);
    let mut out: Vec<(String, Json)> = Vec::new();
    let mut origs: Vec<Vec<char>> = Vec::new();
    let mut i: usize = 0;
    assert(ev.take(0) =~= Seq::<(Seq<char>, JsonV)>::empty());
    while i < es.len()
        invariant
            i <= es.len(),
            ev == entries_view(es@),
            out.len() == origs.len(),
            Seq::new(out@.len(), |j: int| (out@[j].0@, origs@[j]@, out@[j].1@)) == rename_keys(
                ev.take(i as int),
            ),
        decreases es.len() - i,
    {
        let ghost before = Seq::new(out@.len(), |j: int| (out@[j].0@, origs@[j]@, out@[j].1@));
        assert(ev.take(i + 1).drop_last() =~= ev.take(i as int));
        assert(ev.take(i + 1).last() == ev[i as int]);
        let k = chars_of(es[i].0.as_str());
        let s = camel_chars(&k);
        let sk = string_of(&s);
        assert(renamed_entries(before) =~= entries_view(out@));
        match find_key(&out, sk.as_str()) {
            None => {
                let v = es[i].1.deep_clone();
                out.push((sk, v));
                origs.push(k);
                assert(Seq::new(out@.len(), |j: int| (out@[j].0@, origs@[j]@, out@[j].1@))
                    =~= rename_keys(ev.take(i + 1)));
            },
            Some(j) => {
                if lex_less(&origs[j], &k) {
                    let v = es[i].1.deep_clone();
                    let _ = out.remove(j);
                    out.insert(j, (sk, v));
                    let _ = origs.remove(j);
                    origs.insert(j, k);
                    assert(Seq::new(out@.len(), |jj: int| (out@[jj].0@, origs@[jj]@, out@[jj].1@))
                        =~= rename_keys(ev.take(i + 1)));
                }
            },
        }
        i += 1;
    }
    assert(ev.take(es.len() as int) =~= ev);
    let ghost fin = Seq::new(out@.len(), |j: int| (out@[j].0@, origs@[j]@, out@[j].1@));
    assert(renamed_entries(fin) =~= entries_view(out@));
    out
}

/// The normalized form of an xhttp transport (a copy).
pub fn normalized_transport(t: &Json) -> (r: Json)
    ensures
        r@ == normalize_transport_spec(t@),
{
    match t {
        Json::Object(es) => {
            proof {
                lemma_object_view(*es);
            }
            let mut renamed = rename_all(es);
            let ghost es2 = entries_view(renamed@);
            let needs = match find_key(&renamed, "x_padding_bytes") {
                None => true,
                Some(i) => match &renamed[i].1 {
                    Json::Null => true,
                    Json::String(s) => {
                        let cs = chars_of(s.as_str());
                        let zero = chars_of("0");
                        cs.len() == 0 || chars_eq(&cs, &zero)
                    },
                    _ => false,
                },
            };
            assert(needs == needs_padding(es2));
            if needs {
                crate::json::set_key(
                    &mut renamed,
                    "x_padding_bytes".to_string(),
                    Json::from_str("100-1000"),
                );
            }
            object(renamed)
        },
        _ => t.deep_clone(),
    }
}

/// Normalize an `xhttp` `transport` object in place for the bundled
/// engine:
///
/// - Every key is renamed from camelCase to snake_case (see
///   [`camel_to_snake`]), preserving values: Xray-style configs use
///   `xPaddingBytes`, `scMaxEachPostBytes`, but the engine only reads the
///   snake_case forms.
/// - After renaming, if `x_padding_bytes` is absent, or empty/`"0"`, the
///   default `"100-1000"` is put in: the engine requires non-zero padding
///   on xhttp transports.
///
/// No-op if `transport` isn't a JSON object.
pub fn normalize_xhttp_transport(transport: &mut Json)
    ensures
        final(transport)@ == normalize_transport_spec(old(transport)@),
{
    let n = normalized_transport(transport);
    *transport = n;
}

/// The `transport.type` values the bundled engine can run.
pub open spec fn supported_transport(t: Seq<char>) -> bool {
    t == "http"@ || t == "ws"@ || t == "grpc"@ || t == "httpupgrade"@ || t == "quic"@ || t
        == "xhttp"@
}

/// Whether the bundled engine can run `o`: no `transport` at all, or a
/// `transport.type` it supports.
pub open spec fn is_supported_outbound_spec(o: JsonV) -> bool {
    match o.get("transport"@) {
        None => true,
        Some(t) => match t.str_at("type"@) {
            Some(ty) => supported_transport(ty),
            None => false,
        },
    }
}

/// The `transport.type` of an outbound, or `"unknown"`.
pub open spec fn transport_type_spec(o: JsonV) -> Seq<char> {
    match o.get("transport"@) {
        Some(t) => match t.str_at("type"@) {
            Some(ty) => ty,
            None => "unknown"@,
        },
        None => "unknown"@,
    }
}

/// The outbounds the engine can run, in order.
pub open spec fn supported_of(outs: Seq<JsonV>) -> Seq<JsonV>
    decreases outs.len(),
{
    if outs.len() == 0 {
        Seq::empty()
    } else if is_supported_outbound_spec(outs.last()) {
        supported_of(outs.drop_last()).push(outs.last())
    } else {
        supported_of(outs.drop_last())
    }
}

/// The transport types of the outbounds the engine cannot run, in order.
pub open spec fn skipped_types(outs: Seq<JsonV>) -> Seq<Seq<char>>
    decreases outs.len(),
{
    if outs.len() == 0 {
        Seq::empty()
    } else if is_supported_outbound_spec(outs.last()) {
        skipped_types(outs.drop_last())
    } else {
        skipped_types(outs.drop_last()).push(transport_type_spec(outs.last()))
    }
}

fn transport_supported(t: &str) -> (r: bool)
    ensures
        r == supported_transport(t@),
{
    crate::text::str_eq(t, "http") || crate::text::str_eq(t, "ws") || crate::text::str_eq(t, "grpc")
        || crate::text::str_eq(t, "httpupgrade") || crate::text::str_eq(t, "quic")
        || crate::text::str_eq(t, "xhttp")
}

/// Whether `outbound` uses a transport the bundled engine can run.
pub fn is_supported_outbound(outbound: &Json) -> (r: bool)
    ensures
        r == is_supported_outbound_spec(outbound@),
{
    match outbound.get("transport") {
        None => true,
        Some(t) => match t.str_at("type") {
            Some(ty) => transport_supported(ty),
            None => false,
        },
    }
}

/// The `transport.type` of an outbound, or `"unknown"`.
pub fn transport_type_of(outbound: &Json) -> (r: Vec<char>)
    ensures
        r@ == transport_type_spec(outbound@),
{
    match outbound.get("transport") {
        Some(t) => match t.str_at("type") {
            Some(ty) => chars_of(ty),
            None => chars_of("unknown"),
        },
        None => chars_of("unknown"),
    }
}

/// The views of a list of character vectors.
pub open spec fn chars_list_view(v: Seq<Vec<char>>) -> Seq<Seq<char>> {
    v.map_values(|x: Vec<char>| x@)
}

/// Split `outbounds` into copies of the ones the bundled engine supports
/// and the transport types of the ones that were skipped.
pub fn filter_supported_outbounds(outbounds: &Vec<Json>) -> (r: (Vec<Json>, Vec<Vec<char>>))
    ensures
        outs_view(r.0@) == supported_of(outs_view(outbounds@)),
        chars_list_view(r.1@) == skipped_types(outs_view(outbounds@)),
{
    let ghost ov = outs_view(outbounds@);
    let mut supported: Vec<Json> = Vec::new();
    let mut skipped: Vec<Vec<char>> = Vec::new();
    let mut i: usize = 0;
    assert(ov.take(0) =~= Seq::<JsonV>::empty());
    assert(outs_view(supported@) =~= Seq::<JsonV>::empty());
    assert(chars_list_view(skipped@) =~= Seq::<Seq<char>>::empty());
    while i < outbounds.len()
        invariant
            i <= outbounds.len(),
            ov == outs_view(outbounds@),
            outs_view(supported@) == supported_of(ov.take(i as int)),
            chars_list_view(skipped@) == skipped_types(ov.take(i as int)),
        decreases outbounds.len() - i,
    {
        assert(ov.take(i + 1).drop_last() =~= ov.take(i as int));
        let o = &outbounds[i];
        if is_supported_outbound(o) {
            let ghost before = supported@;
            supported.push(o.deep_clone());
            assert(outs_view(supported@) =~= outs_view(before).push(o@));
        } else {
            let ghost before = skipped@;
            skipped.push(transport_type_of(o));
            assert(chars_list_view(skipped@) =~= chars_list_view(before).push(
                transport_type_spec(o@),
            ));
        }
        i += 1;
    }
    assert(ov.take(outbounds.len() as int) =~= ov);
    (supported, skipped)
}

/// Whether `o` has an `xhttp` transport.
pub open spec fn is_xhttp(o: JsonV) -> bool {
    match o.get("transport"@) {
        Some(t) => t.str_at("type"@) == Some("xhttp"@),
        None => false,
    }
}

/// `o` with an xhttp transport normalized; any other outbound unchanged.
pub open spec fn normalize_outbound_spec(o: JsonV) -> JsonV {
    if is_xhttp(o) {
        match o {
            JsonV::Object(es) => JsonV::Object(
                es.update(
                    key_index(es, "transport"@),
                    ("transport"@, normalize_transport_spec(entries_get(es, "transport"@)->0)),
                ),
            ),
            _ => o,
        }
    } else {
        o
    }
}

/// A copy of `o` with an xhttp transport normalized.
pub fn normalize_outbound(o: &Json) -> (r: Json)
    ensures
        r@ == normalize_outbound_spec(o@),
{
    let xhttp = match o.get("transport") {
        Some(t) => match t.str_at("type") {
            Some(ty) => crate::text::str_eq(ty, "xhttp"),
            None => false,
        },
        None => false,
    };
    if !xhttp {
        return o.deep_clone();
    }
    match o {
        Json::Object(es) => {
            proof {
                lemma_object_view(*es);
            }
            let ghost ev = entries_view(es@);
            let idx: usize = match find_key(es, "transport") {
                Some(i) => i,
                None => {
                    return o.deep_clone();
                },
            };
            let mut out: Vec<(String, Json)> = Vec::new();
            let mut i: usize = 0;
            while i < es.len()
                invariant
                    i <= es.len(),
                    idx < es.len(),
                    ev == entries_view(es@),
                    key_index(ev, "transport"@) == idx,
                    out.len() == i,
                    forall|j: int|
                        0 <= j < i ==> #[trigger] entries_view(out@)[j] == (if j == idx {
                            ("transport"@, normalize_transport_spec(ev[j].1))
                        } else {
                            ev[j]
                        }),
                decreases es.len() - i,
            {
                let ghost before = out@;
                if i == idx {
                    let n = normalized_transport(&es[i].1);
                    out.push(("transport".to_string(), n));
                } else {
                    let v = es[i].1.deep_clone();
                    out.push((es[i].0.clone(), v));
                }
                assert forall|j: int| 0 <= j < i + 1 implies #[trigger] entries_view(out@)[j] == (
                if j == idx {
                    ("transport"@, normalize_transport_spec(ev[j].1))
                } else {
                    ev[j]
                }) by {
                    if j < i {
                        assert(entries_view(out@)[j] == entries_view(before)[j]);
                    }
                }
                i += 1;
            }
            proof {
                lemma_key_index(ev, "transport"@);
                assert(ev[idx as int].0 == "transport"@);
                assert(entries_view(out@) =~= ev.update(
                    idx as int,
                    ("transport"@, normalize_transport_spec(entries_get(ev, "transport"@)->0)),
                ));
            }
            object(out)
        },
        _ => o.deep_clone(),
    }
}

/// The order in which rule groups are emitted: by field name.
pub open spec fn group_order() -> Seq<RuleKind> {
    seq![
        RuleKind::DomainRegex,
        RuleKind::DomainSuffix,
        RuleKind::IpCidr,
        RuleKind::Preset,
        RuleKind::Process,
        RuleKind::ProcessPath,
        RuleKind::ProcessPathRegex,
    ]
}

/// The values of the rules of kind `k`, in order.
pub open spec fn values_of(rs: Seq<RuleV>, k: RuleKind) -> Seq<Seq<char>>
    decreases rs.len(),
{
    if rs.len() == 0 {
        Seq::empty()
    } else if rs.last().0 == k {
        values_of(rs.drop_last(), k).push(rs.last().1)
    } else {
        values_of(rs.drop_last(), k)
    }
}

/// JSON strings for a list of texts.
pub open spec fn jstrs(v: Seq<Seq<char>>) -> Seq<JsonV> {
    v.map_values(|s: Seq<char>| JsonV::String(s))
}

/// The route rule for all rules of kind `k`: `{<field>: [values], "outbound": outbound}`.
pub open spec fn group_rule(rs: Seq<RuleV>, k: RuleKind, outbound: Seq<char>) -> JsonV {
    JsonV::Object(
        seq![
            (field_name(k), JsonV::Array(jstrs(values_of(rs, k)))),
            ("outbound"@, jstr(outbound)),
        ],
    )
}

/// One route rule per kind in `kinds` that has rules, in that order.
pub open spec fn groups_spec(rs: Seq<RuleV>, kinds: Seq<RuleKind>, outbound: Seq<char>) -> Seq<
    JsonV,
>
    decreases kinds.len(),
{
    if kinds.len() == 0 {
        Seq::empty()
    } else {
        let pre = groups_spec(rs, kinds.drop_last(), outbound);
        if values_of(rs, kinds.last()).len() > 0 {
            pre.push(group_rule(rs, kinds.last(), outbound))
        } else {
            pre
        }
    }
}

/// `rules` grouped by sing-box field: one route rule per field that occurs,
/// in field-name order, holding that field's values in order.
pub open spec fn rule_group_spec(rs: Seq<RuleV>, outbound: Seq<char>) -> Seq<JsonV> {
    groups_spec(rs, group_order(), outbound)
}

fn values_json(rules: &[SplitRule], k: RuleKind) -> (r: Vec<Json>)
    ensures
        items_view(r@) == jstrs(values_of(rules_view(rules@), k)),
{
    let ghost rv = rules_view(rules@);
    let mut out: Vec<Json> = Vec::new();
    let mut i: usize = 0;
    assert(rv.take(0) =~= Seq::<RuleV>::empty());
    assert(items_view(out@) =~= jstrs(values_of(rv.take(0), k)));
    while i < rules.len()
        invariant
            i <= rules.len(),
            rv == rules_view(rules@),
            items_view(out@) == jstrs(values_of(rv.take(i as int), k)),
        decreases rules.len() - i,
    {
        assert(rv.take(i + 1).drop_last() =~= rv.take(i as int));
        assert(rv[i as int] == rules@[i as int]@);
        if rules[i].kind() == k {
            let ghost before = out@;
            let v = Json::from_str(rules[i].value());
            out.push(v);
            assert(items_view(out@) =~= items_view(before).push(v@));
            assert(values_of(rv.take(i + 1), k) == values_of(rv.take(i as int), k).push(rv[i as int].1));
            assert(items_view(out@) =~= jstrs(values_of(rv.take(i + 1), k)));
        } else {
            assert(values_of(rv.take(i + 1), k) == values_of(rv.take(i as int), k));
        }
        i += 1;
    }
    assert(rv.take(rules.len() as int) =~= rv);
    out
}

/// Group `rules` by their sing-box field name (e.g. all `process_name`
/// entries share one rule with an array of values) and emit one route rule
/// per field, all pointing at `outbound`.
pub fn rule_group(rules: &[SplitRule], outbound: &str) -> (r: Vec<Json>)
    ensures
        items_view(r@) == rule_group_spec(rules_view(rules@), outbound@),
{
    let ghost rv = rules_view(rules@);
    let mut kinds: Vec<RuleKind> = Vec::new();
    kinds.push(RuleKind::DomainRegex);
    kinds.push(RuleKind::DomainSuffix);
    kinds.push(RuleKind::IpCidr);
    kinds.push(RuleKind::Preset);
    kinds.push(RuleKind::Process);
    kinds.push(RuleKind::ProcessPath);
    kinds.push(RuleKind::ProcessPathRegex);
    assert(kinds@ =~= group_order());
    let mut out: Vec<Json> = Vec::new();
    let mut i: usize = 0;
    assert(kinds@.take(0) =~= Seq::<RuleKind>::empty());
    assert(items_view(out@) =~= Seq::<JsonV>::empty());
    while i < kinds.len()
        invariant
            i <= kinds.len(),
            kinds@ == group_order(),
            rv == rules_view(rules@),
            items_view(out@) == groups_spec(rv, kinds@.take(i as int), outbound@),
        decreases kinds.len() - i,
    {
        assert(kinds@.take(i + 1).drop_last() =~= kinds@.take(i as int));
        let k = kinds[i];
        assert(kinds@.take(i + 1).last() == k);
        let values = values_json(rules, k);
        proof {
            assert(items_view(values@).len() == values@.len());
            assert(jstrs(values_of(rv, k)).len() == values_of(rv, k).len());
        }
        if values.len() > 0 {
            let mut es: Vec<(String, Json)> = Vec::new();
            push_entry(&mut es, field_name_of(k), array(values));
            push_entry(&mut es, "outbound", Json::from_str(outbound));
            let ghost before = out@;
            let g = object(es);
            assert(g@ == group_rule(rv, k, outbound@)) by {
                assert(entries_view(es@) =~= seq![
                    (field_name(k), JsonV::Array(jstrs(values_of(rv, k)))),
                    ("outbound"@, jstr(outbound@)),
                ]);
            }
            out.push(g);
            assert(items_view(out@) =~= items_view(before).push(g@));
            assert(items_view(out@) == groups_spec(rv, kinds@.take(i + 1), outbound@));
        } else {
            assert(jstrs(values_of(rv, k)).len() == values_of(rv, k).len());
            assert(values_of(rv, k).len() == 0);
            assert(items_view(out@) == groups_spec(rv, kinds@.take(i + 1), outbound@));
        }
        i += 1;
    }
    assert(kinds@.take(kinds.len() as int) =~= kinds@);
    out
}

/// The route block for a split mode and its (expanded) rules.
pub open spec fn route_spec(mode: SplitMode, rules: Seq<RuleV>) -> JsonV {
    let rs = expand_spec(rules);
    let sniff = JsonV::Object(seq![("action"@, jstr("sniff"@))]);
    let hijack = JsonV::Object(seq![("protocol"@, jstr("dns"@)), ("action"@, jstr("hijack-dns"@))]);
    let private = JsonV::Object(
        seq![("ip_is_private"@, JsonV::Bool(true)), ("outbound"@, jstr("direct"@))],
    );
    let list = match mode {
        SplitMode::Off => seq![sniff, hijack, private],
        SplitMode::Blacklist => seq![sniff] + rule_group_spec(rs, "direct"@) + seq![hijack, private],
        SplitMode::Whitelist => seq![sniff, hijack, private] + rule_group_spec(rs, "proxy"@),
    };
    let fin = match mode {
        SplitMode::Whitelist => "direct"@,
        _ => "proxy"@,
    };
    JsonV::Object(
        seq![
            ("auto_detect_interface"@, JsonV::Bool(true)),
            ("default_domain_resolver"@, jstr("dns-local"@)),
            ("final"@, jstr(fin)),
            ("rules"@, JsonV::Array(list)),
        ],
    )
}

fn sniff_rule() -> (r: Json)
    ensures
        r@ == JsonV::Object(seq![("action"@, jstr("sniff"@))]),
{
    let mut es: Vec<(String, Json)> = Vec::new();
    push_entry(&mut es, "action", Json::from_str("sniff"));
    assert(entries_view(es@) =~= seq![("action"@, jstr("sniff"@))]);
    object(es)
}

fn hijack_rule() -> (r: Json)
    ensures
        r@ == JsonV::Object(seq![("protocol"@, jstr("dns"@)), ("action"@, jstr("hijack-dns"@))]),
{
    let mut es: Vec<(String, Json)> = Vec::new();
    push_entry(&mut es, "protocol", Json::from_str("dns"));
    push_entry(&mut es, "action", Json::from_str("hijack-dns"));
    assert(entries_view(es@) =~= seq![("protocol"@, jstr("dns"@)), ("action"@, jstr("hijack-dns"@))]);
    object(es)
}

fn private_rule() -> (r: Json)
    ensures
        r@ == JsonV::Object(
            seq![("ip_is_private"@, JsonV::Bool(true)), ("outbound"@, jstr("direct"@))],
        ),
{
    let mut es: Vec<(String, Json)> = Vec::new();
    push_entry(&mut es, "ip_is_private", Json::Bool(true));
    push_entry(&mut es, "outbound", Json::from_str("direct"));
    assert(entries_view(es@) =~= seq![
        ("ip_is_private"@, JsonV::Bool(true)),
        ("outbound"@, jstr("direct"@)),
    ]);
    object(es)
}

/// The view of a split configuration's rules.
pub open spec fn split_rules(split: SplitConfig) -> Seq<RuleV> {
    rules_view(split.rules@)
}

/// The `route` block: a sniff rule, the DNS hijack, private IPs direct, and
/// the split rules (presets expanded) grouped by field. In Blacklist mode
/// the listed rules go direct and come first, before the DNS hijack, so an
/// excluded app's DNS goes direct too; in Whitelist mode they are proxied
/// after the fixed rules and everything else goes direct.
pub fn build_route(split: &SplitConfig) -> (r: Json)
    ensures
        r@ == route_spec(split.mode, split_rules(*split)),
{
    let expanded = expand_rules(split.rules.as_slice());
    let mut list: Vec<Json> = Vec::new();
    let fin: &str;
    match split.mode {
        SplitMode::Off => {
            list.push(sniff_rule());
            list.push(hijack_rule());
            list.push(private_rule());
            fin = "proxy";
        },
        SplitMode::Blacklist => {
            list.push(sniff_rule());
            let mut groups = rule_group(expanded.as_slice(), "direct");
            list.append(&mut groups);
            list.push(hijack_rule());
            list.push(private_rule());
            fin = "proxy";
        },
        SplitMode::Whitelist => {
            list.push(sniff_rule());
            list.push(hijack_rule());
            list.push(private_rule());
            let mut groups = rule_group(expanded.as_slice(), "proxy");
            list.append(&mut groups);
            fin = "direct";
        },
    }
    let ghost rs = expand_spec(split_rules(*split));
    let ghost sniff = JsonV::Object(seq![("action"@, jstr("sniff"@))]);
    let ghost hijack = JsonV::Object(
        seq![("protocol"@, jstr("dns"@)), ("action"@, jstr("hijack-dns"@))],
    );
    let ghost private = JsonV::Object(
        seq![("ip_is_private"@, JsonV::Bool(true)), ("outbound"@, jstr("direct"@))],
    );
    let ghost expected = match split.mode {
        SplitMode::Off => seq![sniff, hijack, private],
        SplitMode::Blacklist => seq![sniff] + rule_group_spec(rs, "direct"@) + seq![hijack, private],
        SplitMode::Whitelist => seq![sniff, hijack, private] + rule_group_spec(rs, "proxy"@),
    };
    assert(items_view(list@) =~= expected);
    let mut es: Vec<(String, Json)> = Vec::new();
    push_entry(&mut es, "auto_detect_interface", Json::Bool(true));
    push_entry(&mut es, "default_domain_resolver", Json::from_str("dns-local"));
    push_entry(&mut es, "final", Json::from_str(fin));
    push_entry(&mut es, "rules", array(list));
    assert(entries_view(es@) =~= route_spec(split.mode, split_rules(*split))->Object_0);
    object(es)
}

/// `s` is in strictly increasing order (so it has no repeats).
pub open spec fn strictly_sorted(s: Seq<Seq<char>>) -> bool {
    forall|i: int, j: int| 0 <= i < j < s.len() ==> lex_lt(#[trigger] s[i], #[trigger] s[j])
}

/// `x` put into the strictly sorted `out`, unless it is there already.
fn insert_sorted(out: &mut Vec<Vec<char>>, x: Vec<char>)
    requires
        strictly_sorted(chars_list_view(old(out)@)),
    ensures
        strictly_sorted(chars_list_view(final(out)@)),
        chars_list_view(final(out)@).to_set() == chars_list_view(old(out)@).to_set().insert(x@),
{
    let ghost ov = chars_list_view(out@);
    let mut i: usize = 0;
    while i < out.len() && lex_less(&out[i], &x)
        invariant
            i <= out.len(),
            ov == chars_list_view(out@),
            forall|j: int| 0 <= j < i ==> lex_lt(#[trigger] ov[j], x@),
        decreases out.len() - i,
    {
        i += 1;
    }
    if i < out.len() && chars_eq(&out[i], &x) {
        assert(ov.to_set() =~= ov.to_set().insert(x@)) by {
            assert(ov[i as int] == x@);
        }
        return;
    }
    proof {
        if i < out.len() {
            lemma_lex_total(ov[i as int], x@);
        }
    }
    let ghost xv = x@;
    out.insert(i, x);
    let ghost nv = chars_list_view(out@);
    assert(nv =~= ov.insert(i as int, xv));
    assert forall|a: int, b: int| 0 <= a < b < nv.len() implies lex_lt(
        #[trigger] nv[a],
        #[trigger] nv[b],
    ) by {
        if b < i {
        } else if b == i {
            assert(nv[b] == xv);
            assert(nv[a] == ov[a]);
        } else if a < i {
            assert(nv[a] == ov[a]);
            assert(nv[b] == ov[b - 1]);
            if b - 1 == i {
            } else {
                assert(lex_lt(ov[i as int], ov[b - 1]));
                lemma_lex_transitive(xv, ov[i as int], ov[b - 1]);
            }
            lemma_lex_transitive(ov[a], xv, ov[b - 1]);
        } else if a == i {
            assert(nv[b] == ov[b - 1]);
            if b - 1 > i {
                assert(lex_lt(ov[i as int], ov[b - 1]));
                lemma_lex_transitive(xv, ov[i as int], ov[b - 1]);
            }
        } else {
            assert(nv[a] == ov[a - 1]);
            assert(nv[b] == ov[b - 1]);
        }
    }
    assert(nv.to_set() =~= ov.to_set().insert(xv)) by {
        assert forall|y: Seq<char>| nv.to_set().contains(y) implies ov.to_set().insert(xv).contains(
            y,
        ) by {
            let k = choose|k: int| 0 <= k < nv.len() && nv[k] == y;
            if k < i {
                assert(ov[k] == y);
            } else if k > i {
                assert(ov[k - 1] == y);
            }
        }
        assert forall|y: Seq<char>| ov.to_set().insert(xv).contains(y) implies nv.to_set().contains(
            y,
        ) by {
            if y == xv {
                assert(nv[i as int] == y);
            } else {
                let k = choose|k: int| 0 <= k < ov.len() && ov[k] == y;
                if k < i {
                    assert(nv[k] == y);
                } else {
                    assert(nv[k + 1] == y);
                }
            }
        }
    }
}

/// The texts of `v`, sorted, without repeats.
pub fn sorted_unique(v: &Vec<Vec<char>>) -> (r: Vec<Vec<char>>)
    ensures
        strictly_sorted(chars_list_view(r@)),
        chars_list_view(r@).to_set() == chars_list_view(v@).to_set(),
{
    let ghost vv = chars_list_view(v@);
    let mut out: Vec<Vec<char>> = Vec::new();
    let mut i: usize = 0;
    assert(chars_list_view(out@).to_set() =~= vv.take(0).to_set());
    while i < v.len()
        invariant
            i <= v.len(),
            vv == chars_list_view(v@),
            strictly_sorted(chars_list_view(out@)),
            chars_list_view(out@).to_set() == vv.take(i as int).to_set(),
        decreases v.len() - i,
    {
        let x = slice_all(&v[i]);
        insert_sorted(&mut out, x);
        assert(vv.take(i + 1).to_set() =~= vv.take(i as int).to_set().insert(vv[i as int])) by {
            assert(vv.take(i + 1) =~= vv.take(i as int).push(vv[i as int]));
            vv.take(i as int).lemma_push_to_set_commute(vv[i as int]);
        }
        i += 1;
    }
    assert(vv.take(v.len() as int) =~= vv);
    out
}

fn slice_all(v: &Vec<char>) -> (r: Vec<char>)
    ensures
        r@ == v@,
{
    let r = crate::text::slice_chars(v, 0, v.len());
    assert(r@ =~= v@);
    r
}

/// The texts of `s` joined by `sep`.
pub open spec fn join_spec(s: Seq<Seq<char>>, sep: Seq<char>) -> Seq<char>
    decreases s.len(),
{
    if s.len() == 0 {
        Seq::empty()
    } else if s.len() == 1 {
        s[0]
    } else {
        join_spec(s.drop_last(), sep) + sep + s.last()
    }
}

/// The texts of `v` joined by `sep`.
pub fn join(v: &Vec<Vec<char>>, sep: &str) -> (r: Vec<char>)
    ensures
        r@ == join_spec(chars_list_view(v@), sep@),
{
    let ghost vv = chars_list_view(v@);
    let mut out: Vec<char> = Vec::new();
    let mut i: usize = 0;
    assert(vv.take(0) =~= Seq::<Seq<char>>::empty());
    while i < v.len()
        invariant
            i <= v.len(),
            vv == chars_list_view(v@),
            out@ == join_spec(vv.take(i as int), sep@),
        decreases v.len() - i,
    {
        assert(vv.take(i + 1).drop_last() =~= vv.take(i as int));
        if i > 0 {
            push_str(&mut out, sep);
        }
        push_all(&mut out, &v[i]);
        proof {
            if i == 0 {
                assert(out@ =~= vv.take(1)[0]);
            }
        }
        i += 1;
    }
    assert(vv.take(v.len() as int) =~= vv);
    out
}

/// The error text when no outbound can run, for the sorted list of
/// unsupported transport types.
pub open spec fn unsupported_message(sorted: Seq<Seq<char>>) -> Seq<char> {
    "No outbounds are supported by the bundled sing-box engine (unsupported transports: "@
        + join_spec(sorted, ", "@) + "). Use a Vision/Hysteria2/ws/grpc server instead."@
}

/// `m` is the error text for the transport types `types`, listed sorted
/// and without repeats.
pub open spec fn is_unsupported_error(m: Seq<char>, types: Seq<Seq<char>>) -> bool {
    exists|t: Seq<Seq<char>>|
        strictly_sorted(t) && t.to_set() == types.to_set() && m == #[trigger] unsupported_message(
            t,
        )
}

/// The view of [`BuildSettings`].
pub struct SettingsV {
    pub mtu: u32,
    pub clash_secret: Seq<char>,
    pub clash_port: u16,
    pub socks_port: Option<u16>,
    pub log_level: Seq<char>,
}

impl View for BuildSettings {
    type V = SettingsV;

    open spec fn view(&self) -> SettingsV {
        SettingsV {
            mtu: self.mtu,
            clash_secret: self.clash_secret@,
            clash_port: self.clash_port,
            socks_port: self.socks_port,
            log_level: self.log_level@,
        }
    }
}

/// The selector's default: the active tag when it is among the tags,
/// otherwise the first tag.
pub open spec fn default_tag_spec(active: Option<Seq<char>>, tags: Seq<Seq<char>>) -> Option<
    Seq<char>,
> {
    match active {
        Some(t) if tags.contains(t) => Some(t),
        _ => if tags.len() > 0 {
            Some(tags[0])
        } else {
            None
        },
    }
}

/// The `proxy` selector over `tags`.
pub open spec fn selector_spec(tags: Seq<Seq<char>>, dflt: Option<Seq<char>>) -> JsonV {
    JsonV::Object(
        seq![
            ("type"@, jstr("selector"@)),
            ("tag"@, jstr("proxy"@)),
            ("outbounds"@, JsonV::Array(jstrs(tags))),
            ("default"@, match dflt {
                Some(t) => jstr(t),
                None => JsonV::Null,
            }),
        ],
    )
}

/// The `direct` outbound.
pub open spec fn direct_spec() -> JsonV {
    JsonV::Object(seq![("type"@, jstr("direct"@)), ("tag"@, jstr("direct"@))])
}

/// The TUN inbound with the given MTU.
pub open spec fn tun_spec(mtu: u32) -> JsonV {
    JsonV::Object(
        seq![
            ("type"@, jstr("tun"@)),
            ("tag"@, jstr("tun-in"@)),
            ("address"@, JsonV::Array(seq![jstr("172.19.0.1/30"@)])),
            ("mtu"@, JsonV::Number(decimal(mtu as nat))),
            ("auto_route"@, JsonV::Bool(true)),
            ("strict_route"@, JsonV::Bool(true)),
            ("stack"@, jstr("system"@)),
        ],
    )
}

/// The local SOCKS inbound on `port`.
pub open spec fn socks_spec(port: u16) -> JsonV {
    JsonV::Object(
        seq![
            ("type"@, jstr("socks"@)),
            ("tag"@, jstr("socks-in"@)),
            ("listen"@, jstr("127.0.0.1"@)),
            ("listen_port"@, JsonV::Number(decimal(port as nat))),
        ],
    )
}

/// The `dns` block: a remote DNS-over-TLS server through the proxy and the
/// local resolver.
pub open spec fn dns_spec() -> JsonV {
    JsonV::Object(
        seq![
            ("servers"@, JsonV::Array(
                seq![
                    JsonV::Object(
                        seq![
                            ("type"@, jstr("tls"@)),
                            ("tag"@, jstr("dns-remote"@)),
                            ("server"@, jstr("8.8.8.8"@)),
                            ("detour"@, jstr("proxy"@)),
                        ],
                    ),
                    JsonV::Object(seq![("type"@, jstr("local"@)), ("tag"@, jstr("dns-local"@))]),
                ],
            )),
            ("strategy"@, jstr("prefer_ipv4"@)),
        ],
    )
}

/// The outbounds that go into the config: the supported ones, normalized.
pub open spec fn config_outbounds(outs: Seq<JsonV>) -> Seq<JsonV> {
    supported_of(outs).map_values(|o: JsonV| normalize_outbound_spec(o))
}

/// The complete sing-box config for a profile whose outbounds include at
/// least one the engine supports.
pub open spec fn config_spec(p: ProfileV, mode: SplitMode, rules: Seq<RuleV>, st: SettingsV) -> JsonV {
    let outs = config_outbounds(p.outbounds);
    let tags = tags_spec(outs);
    let dflt = default_tag_spec(p.active_tag, tags);
    JsonV::Object(
        seq![
            ("log"@, JsonV::Object(
                seq![("level"@, jstr(st.log_level)), ("timestamp"@, JsonV::Bool(true))],
            )),
            ("dns"@, dns_spec()),
            ("inbounds"@, JsonV::Array(
                seq![tun_spec(st.mtu)] + match st.socks_port {
                    Some(pt) => seq![socks_spec(pt)],
                    None => Seq::empty(),
                },
            )),
            ("outbounds"@, JsonV::Array(outs + seq![selector_spec(tags, dflt), direct_spec()])),
            ("route"@, route_spec(mode, rules)),
            ("experimental"@, JsonV::Object(
                seq![
                    ("clash_api"@, JsonV::Object(
                        seq![
                            ("external_controller"@, jstr("127.0.0.1:"@ + decimal(st.clash_port as nat))),
                            ("secret"@, jstr(st.clash_secret)),
                        ],
                    )),
                ],
            )),
        ],
    )
}

fn strings_json(v: &Vec<String>) -> (r: Vec<Json>)
    ensures
        items_view(r@) == jstrs(strings_view(v@)),
{
    let mut out: Vec<Json> = Vec::new();
    let mut i: usize = 0;
    while i < v.len()
        invariant
            i <= v.len(),
            items_view(out@) == jstrs(strings_view(v@.take(i as int))),
        decreases v.len() - i,
    {
        let ghost before = out@;
        let x = Json::String(v[i].clone());
        out.push(x);
        assert(items_view(out@) =~= items_view(before).push(x@));
        assert(v@.take(i + 1) =~= v@.take(i as int).push(v@[i as int]));
        assert(strings_view(v@.take(i + 1)) =~= strings_view(v@.take(i as int)).push(v@[i as int]@));
        assert(items_view(out@) =~= jstrs(strings_view(v@.take(i + 1))));
        i += 1;
    }
    assert(v@.take(v.len() as int) =~= v@);
    out
}

fn selector_json(tags: &Vec<String>, dflt: Option<String>) -> (r: Json)
    ensures
        r@ == selector_spec(strings_view(tags@), opt_view(dflt)),
{
    let mut es: Vec<(String, Json)> = Vec::new();
    push_entry(&mut es, "type", Json::from_str("selector"));
    push_entry(&mut es, "tag", Json::from_str("proxy"));
    push_entry(&mut es, "outbounds", array(strings_json(tags)));
    let d = match dflt {
        Some(t) => Json::String(t),
        None => Json::Null,
    };
    push_entry(&mut es, "default", d);
    assert(entries_view(es@) =~= selector_spec(strings_view(tags@), opt_view(dflt))->Object_0);
    object(es)
}

fn direct_json() -> (r: Json)
    ensures
        r@ == direct_spec(),
{
    let mut es: Vec<(String, Json)> = Vec::new();
    push_entry(&mut es, "type", Json::from_str("direct"));
    push_entry(&mut es, "tag", Json::from_str("direct"));
    assert(entries_view(es@) =~= direct_spec()->Object_0);
    object(es)
}

fn tun_json(mtu: u32) -> (r: Json)
    ensures
        r@ == tun_spec(mtu),
{
    let mut addr: Vec<Json> = Vec::new();
    addr.push(Json::from_str("172.19.0.1/30"));
    assert(items_view(addr@) =~= seq![jstr("172.19.0.1/30"@)]);
    let mut es: Vec<(String, Json)> = Vec::new();
    push_entry(&mut es, "type", Json::from_str("tun"));
    push_entry(&mut es, "tag", Json::from_str("tun-in"));
    push_entry(&mut es, "address", array(addr));
    push_entry(&mut es, "mtu", number(mtu as u64));
    push_entry(&mut es, "auto_route", Json::Bool(true));
    push_entry(&mut es, "strict_route", Json::Bool(true));
    push_entry(&mut es, "stack", Json::from_str("system"));
    assert(entries_view(es@) =~= tun_spec(mtu)->Object_0);
    object(es)
}

fn socks_json(port: u16) -> (r: Json)
    ensures
        r@ == socks_spec(port),
{
    let mut es: Vec<(String, Json)> = Vec::new();
    push_entry(&mut es, "type", Json::from_str("socks"));
    push_entry(&mut es, "tag", Json::from_str("socks-in"));
    push_entry(&mut es, "listen", Json::from_str("127.0.0.1"));
    push_entry(&mut es, "listen_port", number(port as u64));
    assert(entries_view(es@) =~= socks_spec(port)->Object_0);
    object(es)
}

fn dns_json() -> (r: Json)
    ensures
        r@ == dns_spec(),
{
    let mut remote: Vec<(String, Json)> = Vec::new();
    push_entry(&mut remote, "type", Json::from_str("tls"));
    push_entry(&mut remote, "tag", Json::from_str("dns-remote"));
    push_entry(&mut remote, "server", Json::from_str("8.8.8.8"));
    push_entry(&mut remote, "detour", Json::from_str("proxy"));
    let mut local: Vec<(String, Json)> = Vec::new();
    push_entry(&mut local, "type", Json::from_str("local"));
    push_entry(&mut local, "tag", Json::from_str("dns-local"));
    let mut servers: Vec<Json> = Vec::new();
    servers.push(object(remote));
    servers.push(object(local));
    let mut es: Vec<(String, Json)> = Vec::new();
    push_entry(&mut es, "servers", array(servers));
    push_entry(&mut es, "strategy", Json::from_str("prefer_ipv4"));
    proof {
        assert(entries_view(remote@) =~= seq![
            ("type"@, jstr("tls"@)),
            ("tag"@, jstr("dns-remote"@)),
            ("server"@, jstr("8.8.8.8"@)),
            ("detour"@, jstr("proxy"@)),
        ]);
        assert(entries_view(local@) =~= seq![("type"@, jstr("local"@)), ("tag"@, jstr("dns-local"@))]);
        assert(items_view(servers@) =~= dns_spec()->Object_0[0].1->Array_0);
        assert(entries_view(es@) =~= dns_spec()->Object_0);
    }
    object(es)
}

/// Whether `tags` holds `t`.
fn contains_string(tags: &Vec<String>, t: &String) -> (r: bool)
    ensures
        r == strings_view(tags@).contains(t@),
{
    let mut i: usize = 0;
    while i < tags.len()
        invariant
            i <= tags.len(),
            forall|j: int| 0 <= j < i ==> tags@[j]@ != t@,
        decreases tags.len() - i,
    {
        if tags[i] == *t {
            assert(strings_view(tags@)[i as int] == t@);
            return true;
        }
        i += 1;
    }
    proof {
        if strings_view(tags@).contains(t@) {
            let j = choose|j: int| 0 <= j < strings_view(tags@).len() && strings_view(tags@)[j] == t@;
            assert(tags@[j]@ == t@);
        }
    }
    false
}

/// The config's outcome for a profile, a split and settings: the config
/// when some outbound is supported, otherwise the error naming the
/// unsupported transports.
pub open spec fn build_config_ok(r: Result<Json, WispError>, p: ProfileV, mode: SplitMode, rules: Seq<RuleV>, st: SettingsV) -> bool {
    match r {
        Ok(c) => supported_of(p.outbounds).len() > 0 && c@ == config_spec(p, mode, rules, st),
        Err(e) => supported_of(p.outbounds).len() == 0 && match e@ {
            ErrV::Other(m) => is_unsupported_error(m, skipped_types(p.outbounds)),
            _ => false,
        },
    }
}

/// Build a complete, ready-to-run sing-box config for `profile`, applying
/// `split` tunneling rules and `settings`.
///
/// Outbounds whose transport isn't supported by the bundled engine (e.g.
/// `splithttp`) are dropped. If that leaves zero outbounds, this returns an
/// error naming the unsupported transports rather than emitting a config
/// with an empty selector. `xhttp` outbounds are normalized (see
/// [`normalize_xhttp_transport`]). The selector's default is the
/// profile's active tag if it is still among the outbounds, else the
/// first tag.
pub fn build_config(profile: &Profile, split: &SplitConfig, settings: &BuildSettings) -> (r: Result<Json, WispError>)
    ensures
        build_config_ok(r, profile@, split.mode, split_rules(*split), settings@),
{
    let (supported, skipped) = filter_supported_outbounds(&profile.outbounds);
    let ghost pv = profile@;
    if supported.len() == 0 {
        let sorted = sorted_unique(&skipped);
        let mut msg = chars_of(
            "No outbounds are supported by the bundled sing-box engine (unsupported transports: ",
        );
        let joined = join(&sorted, ", ");
        push_all(&mut msg, &joined);
        push_str(&mut msg, "). Use a Vision/Hysteria2/ws/grpc server instead.");
        proof {
            let t = chars_list_view(sorted@);
            assert(msg@ =~= unsupported_message(t));
        }
        return Err(WispError::Other(string_of(&msg)));
    }
    let ghost sv = outs_view(supported@);
    let mut outbounds: Vec<Json> = Vec::new();
    let mut i: usize = 0;
    while i < supported.len()
        invariant
            i <= supported.len(),
            sv == outs_view(supported@),
            outs_view(outbounds@) == sv.take(i as int).map_values(
                |o: JsonV| normalize_outbound_spec(o),
            ),
        decreases supported.len() - i,
    {
        let n = normalize_outbound(&supported[i]);
        let ghost before = outbounds@;
        outbounds.push(n);
        assert(outs_view(outbounds@) =~= outs_view(before).push(n@));
        assert(sv.take(i + 1) =~= sv.take(i as int).push(sv[i as int]));
        assert(outs_view(outbounds@) =~= sv.take(i + 1).map_values(
            |o: JsonV| normalize_outbound_spec(o),
        ));
        i += 1;
    }
    assert(sv.take(supported.len() as int) =~= sv);
    let ghost outs = config_outbounds(pv.outbounds);
    assert(outs_view(outbounds@) == outs);
    let tags = tags_of(&outbounds);
    let dflt: Option<String> = match &profile.active_tag {
        Some(t) => if contains_string(&tags, t) {
            Some(t.clone())
        } else if tags.len() > 0 {
            Some(tags[0].clone())
        } else {
            None
        },
        None => if tags.len() > 0 {
            Some(tags[0].clone())
        } else {
            None
        },
    };
    assert(opt_view(dflt) == default_tag_spec(pv.active_tag, tags_spec(outs)));
    let selector = selector_json(&tags, dflt);
    let ghost ob_before = outbounds@;
    outbounds.push(selector);
    outbounds.push(direct_json());
    assert(items_view(outbounds@) =~= outs + seq![
        selector_spec(tags_spec(outs), default_tag_spec(pv.active_tag, tags_spec(outs))),
        direct_spec(),
    ]);
    let mut inbounds: Vec<Json> = Vec::new();
    inbounds.push(tun_json(settings.mtu));
    match settings.socks_port {
        Some(port) => {
            inbounds.push(socks_json(port));
        },
        None => {},
    }
    assert(items_view(inbounds@) =~= seq![tun_spec(settings.mtu)] + match settings.socks_port {
        Some(pt) => seq![socks_spec(pt)],
        None => Seq::<JsonV>::empty(),
    });
    let route = build_route(split);
    let mut log: Vec<(String, Json)> = Vec::new();
    push_entry(&mut log, "level", Json::String(settings.log_level.clone()));
    push_entry(&mut log, "timestamp", Json::Bool(true));
    let mut controller = chars_of("127.0.0.1:");
    let port_digits = crate::text::decimal_chars(settings.clash_port as u64);
    push_all(&mut controller, &port_digits);
    let mut clash: Vec<(String, Json)> = Vec::new();
    push_entry(&mut clash, "external_controller", Json::String(string_of(&controller)));
    push_entry(&mut clash, "secret", Json::String(settings.clash_secret.clone()));
    let mut experimental: Vec<(String, Json)> = Vec::new();
    push_entry(&mut experimental, "clash_api", object(clash));
    let mut es: Vec<(String, Json)> = Vec::new();
    push_entry(&mut es, "log", object(log));
    push_entry(&mut es, "dns", dns_json());
    push_entry(&mut es, "inbounds", array(inbounds));
    push_entry(&mut es, "outbounds", array(outbounds));
    push_entry(&mut es, "route", route);
    push_entry(&mut es, "experimental", object(experimental));
    proof {
        assert(entries_view(log@) =~= seq![
            ("level"@, jstr(settings.log_level@)),
            ("timestamp"@, JsonV::Bool(true)),
        ]);
        assert(entries_view(clash@) =~= seq![
            ("external_controller"@, jstr("127.0.0.1:"@ + decimal(settings.clash_port as nat))),
            ("secret"@, jstr(settings.clash_secret@)),
        ]);
        assert(entries_view(experimental@) =~= config_spec(
            pv,
            split.mode,
            split_rules(*split),
            settings@,
        )->Object_0[5].1->Object_0);
        assert(entries_view(es@) =~= config_spec(
            pv,
            split.mode,
            split_rules(*split),
            settings@,
        )->Object_0);
    }
    Ok(object(es))
}

/// The config's TUN inbound: there is exactly one, it comes first, and it
/// carries the configured MTU with `auto_route`, `strict_route` and the
/// `system` stack; any other inbound is the SOCKS one.
pub proof fn lemma_config_one_tun_inbound(p: ProfileV, mode: SplitMode, rules: Seq<RuleV>, st: SettingsV)
    ensures
        ({
            let c = config_spec(p, mode, rules, st);
            &&& c.get("inbounds"@) matches Some(JsonV::Array(ins))
            &&& ins.len() >= 1
            &&& ins[0].str_at("type"@) == Some("tun"@)
            &&& ins[0].get("mtu"@) == Some(JsonV::Number(decimal(st.mtu as nat)))
            &&& ins[0].get("auto_route"@) == Some(JsonV::Bool(true))
            &&& ins[0].get("strict_route"@) == Some(JsonV::Bool(true))
            &&& ins[0].str_at("stack"@) == Some("system"@)
            &&& forall|i: int| 1 <= i < ins.len() ==> (#[trigger] ins[i]).str_at("type"@) == Some("socks"@)
            &&& ins.len() <= 2
        }),
{
    reveal_strlit("log");
    reveal_strlit("dns");
    reveal_strlit("inbounds");
    reveal_strlit("type");
    reveal_strlit("tag");
    reveal_strlit("address");
    reveal_strlit("mtu");
    reveal_strlit("auto_route");
    reveal_strlit("strict_route");
    reveal_strlit("stack");
    let c = config_spec(p, mode, rules, st);
    let es = c->Object_0;
    assert(es[0].0 == "log"@ && es[1].0 == "dns"@ && es[2].0 == "inbounds"@);
    assert("log"@.len() == 3 && "dns"@.len() == 3 && "inbounds"@.len() == 8);
    assert(es[1].0 != "inbounds"@);
    assert(es[0].0 != "inbounds"@);
    assert(key_index_from(es, "inbounds"@, 2) == 2);
    assert(key_index_from(es, "inbounds"@, 1) == 2);
    assert(key_index(es, "inbounds"@) == 2);
    let t = tun_spec(st.mtu)->Object_0;
    assert(key_index(t, "type"@) == 0);
    assert(t[0].0 == "type"@ && t[1].0 == "tag"@ && t[2].0 == "address"@ && t[3].0 == "mtu"@
        && t[4].0 == "auto_route"@ && t[5].0 == "strict_route"@ && t[6].0 == "stack"@);
    assert("type"@.len() == 4 && "tag"@.len() == 3 && "address"@.len() == 7 && "mtu"@.len() == 3
        && "auto_route"@.len() == 10 && "strict_route"@.len() == 12 && "stack"@.len() == 5);
    assert("tag"@[0] == 't' && "mtu"@[0] == 'm');
    assert(t[1].0 != "mtu"@);
    assert(key_index_from(t, "mtu"@, 3) == 3);
    assert(key_index_from(t, "mtu"@, 2) == 3);
    assert(key_index_from(t, "mtu"@, 1) == 3);
    assert(key_index(t, "mtu"@) == 3);
    assert(key_index_from(t, "auto_route"@, 4) == 4);
    assert(key_index_from(t, "auto_route"@, 3) == 4);
    assert(key_index_from(t, "auto_route"@, 2) == 4);
    assert(key_index_from(t, "auto_route"@, 1) == 4);
    assert(key_index(t, "auto_route"@) == 4);
    assert(key_index_from(t, "strict_route"@, 5) == 5);
    assert(key_index_from(t, "strict_route"@, 4) == 5);
    assert(key_index_from(t, "strict_route"@, 3) == 5);
    assert(key_index_from(t, "strict_route"@, 2) == 5);
    assert(key_index_from(t, "strict_route"@, 1) == 5);
    assert(key_index(t, "strict_route"@) == 5);
    assert(key_index_from(t, "stack"@, 6) == 6);
    assert(key_index_from(t, "stack"@, 5) == 6);
    assert(key_index_from(t, "stack"@, 4) == 6);
    assert(key_index_from(t, "stack"@, 3) == 6);
    assert(key_index_from(t, "stack"@, 2) == 6);
    assert(key_index_from(t, "stack"@, 1) == 6);
    assert(key_index(t, "stack"@) == 6);
    match st.socks_port {
        Some(pt) => {
            assert(key_index(socks_spec(pt)->Object_0, "type"@) == 0);
        },
        None => {},
    }
}

/// Whether an outbound's type is `block` (removed from sing-box 1.12 on).
pub open spec fn is_block(o: JsonV) -> bool {
    o.str_at("type"@) == Some("block"@)
}

proof fn lemma_supported_of_from(outs: Seq<JsonV>, i: int)
    requires
        0 <= i < supported_of(outs).len(),
    ensures
        outs.contains(supported_of(outs)[i]),
    decreases outs.len(),
{
    if outs.len() > 0 {
        let pre = supported_of(outs.drop_last());
        if is_supported_outbound_spec(outs.last()) && i == pre.len() {
            assert(outs[outs.len() - 1] == outs.last());
        } else {
            lemma_supported_of_from(outs.drop_last(), i);
            let k = choose|k: int| 0 <= k < outs.drop_last().len() && outs.drop_last()[k]
                == supported_of(outs)[i];
            assert(outs[k] == outs.drop_last()[k]);
        }
    }
}

/// Normalizing an outbound keeps its type.
pub proof fn lemma_normalize_keeps_type(o: JsonV)
    ensures
        normalize_outbound_spec(o).str_at("type"@) == o.str_at("type"@),
{
    reveal_strlit("type");
    reveal_strlit("transport");
    if is_xhttp(o) {
        let es = o->Object_0;
        let j = key_index(es, "transport"@);
        lemma_key_index(es, "transport"@);
        let es2 = es.update(j, ("transport"@, normalize_transport_spec(entries_get(es, "transport"@)->0)));
        assert forall|i: int| 0 <= i < es.len() implies #[trigger] es[i].0 == es2[i].0 by {}
        lemma_key_index_same_keys(es, es2, "type"@, 0);
        lemma_key_index(es, "type"@);
        let t = key_index(es, "type"@);
        assert("type"@.len() == 4 && "transport"@.len() == 9);
        if t >= 0 {
            assert(es[t].0 == "type"@);
            assert(t != j);
        }
    }
}

/// Normalizing an outbound keeps its tag.
proof fn lemma_normalize_keeps_tag(o: JsonV)
    ensures
        normalize_outbound_spec(o).str_at("tag"@) == o.str_at("tag"@),
{
    reveal_strlit("tag");
    reveal_strlit("transport");
    if is_xhttp(o) {
        let es = o->Object_0;
        let j = key_index(es, "transport"@);
        lemma_key_index(es, "transport"@);
        let es2 = es.update(j, ("transport"@, normalize_transport_spec(entries_get(es, "transport"@)->0)));
        assert forall|i: int| 0 <= i < es.len() implies #[trigger] es[i].0 == es2[i].0 by {}
        lemma_key_index_same_keys(es, es2, "tag"@, 0);
        lemma_key_index(es, "tag"@);
        let t = key_index(es, "tag"@);
        assert("tag"@.len() == 3 && "transport"@.len() == 9);
        if t >= 0 {
            assert(es[t].0 == "tag"@);
            assert(t != j);
        }
    }
}

/// Whether `o` has a `transport` object whose `type` is `name`.
pub open spec fn transport_type_is(o: JsonV, name: Seq<char>) -> bool {
    o.get("transport"@) matches Some(t) && t.str_at("type"@) == Some(name)
}

/// The transports the bundled engine runs: an outbound is kept exactly when
/// it has no `transport`, or its `transport.type` is one of `http`, `ws`,
/// `grpc`, `httpupgrade`, `quic` and `xhttp`.
pub proof fn lemma_supported_transports(o: JsonV)
    ensures
        is_supported_outbound_spec(o) <==> {
            ||| o.get("transport"@) is None
            ||| transport_type_is(o, "http"@)
            ||| transport_type_is(o, "ws"@)
            ||| transport_type_is(o, "grpc"@)
            ||| transport_type_is(o, "httpupgrade"@)
            ||| transport_type_is(o, "quic"@)
            ||| transport_type_is(o, "xhttp"@)
        },
{
}

/// An outbound the engine runs is among the outbounds it is given.
proof fn lemma_supported_of_contains(outs: Seq<JsonV>, i: int)
    requires
        0 <= i < outs.len(),
        is_supported_outbound_spec(outs[i]),
    ensures
        supported_of(outs).contains(outs[i]),
    decreases outs.len(),
{
    let pre = supported_of(outs.drop_last());
    if i == outs.len() - 1 {
        assert(supported_of(outs) == pre.push(outs.last()));
        assert(pre.push(outs.last())[pre.len() as int] == outs[i]);
    } else {
        assert(outs.drop_last()[i] == outs[i]);
        lemma_supported_of_contains(outs.drop_last(), i);
        let k = choose|k: int| 0 <= k < pre.len() && pre[k] == outs[i];
        if is_supported_outbound_spec(outs.last()) {
            assert(pre.push(outs.last())[k] == outs[i]);
        }
    }
}

/// The tag of any tagged outbound is among the tags.
proof fn lemma_tags_contains(outs: Seq<JsonV>, i: int, t: Seq<char>)
    requires
        0 <= i < outs.len(),
        tag_spec(outs[i]) == Some(t),
    ensures
        tags_spec(outs).contains(t),
    decreases outs.len(),
{
    let pre = tags_spec(outs.drop_last());
    if i == outs.len() - 1 {
        assert(tags_spec(outs) == pre.push(t));
        assert(pre.push(t)[pre.len() as int] == t);
    } else {
        assert(outs.drop_last()[i] == outs[i]);
        lemma_tags_contains(outs.drop_last(), i, t);
        let k = choose|k: int| 0 <= k < pre.len() && pre[k] == t;
        if tag_spec(outs.last()) is Some {
            assert(pre.push(tag_spec(outs.last())->0)[k] == t);
        }
    }
}

/// A profile outbound with no transport, or with an `http`, `ws`, `grpc`,
/// `httpupgrade`, `quic` or `xhttp` transport, is kept: the config is built
/// (there is a supported outbound), the outbound (normalized) is among the
/// config's outbounds, and its tag is among those of the `proxy` selector.
pub proof fn lemma_supported_outbound_kept(p: ProfileV, i: int, mode: SplitMode, rules: Seq<RuleV>, st: SettingsV)
    requires
        0 <= i < p.outbounds.len(),
        ({
            let o = p.outbounds[i];
            ||| o.get("transport"@) is None
            ||| transport_type_is(o, "http"@)
            ||| transport_type_is(o, "ws"@)
            ||| transport_type_is(o, "grpc"@)
            ||| transport_type_is(o, "httpupgrade"@)
            ||| transport_type_is(o, "quic"@)
            ||| transport_type_is(o, "xhttp"@)
        }),
    ensures
        supported_of(p.outbounds).len() > 0,
        ({
            let c = config_spec(p, mode, rules, st);
            let o = p.outbounds[i];
            &&& c.get("outbounds"@) matches Some(JsonV::Array(obs))
            &&& obs.contains(normalize_outbound_spec(o))
            &&& obs.len() >= 2
            &&& obs[obs.len() - 2].str_at("tag"@) == Some("proxy"@)
            &&& o.str_at("tag"@) matches Some(t) ==> obs[obs.len() - 2].get("outbounds"@) matches Some(
                JsonV::Array(sel),
            ) && sel.contains(jstr(t))
        }),
{
    reveal_strlit("log");
    reveal_strlit("dns");
    reveal_strlit("inbounds");
    reveal_strlit("outbounds");
    reveal_strlit("type");
    reveal_strlit("tag");
    let o = p.outbounds[i];
    lemma_supported_transports(o);
    lemma_supported_of_contains(p.outbounds, i);
    let sup = supported_of(p.outbounds);
    let k = choose|k: int| 0 <= k < sup.len() && sup[k] == o;
    let c = config_spec(p, mode, rules, st);
    let es = c->Object_0;
    assert(es[0].0 == "log"@ && es[1].0 == "dns"@ && es[2].0 == "inbounds"@ && es[3].0 == "outbounds"@);
    assert("log"@.len() == 3 && "dns"@.len() == 3 && "inbounds"@.len() == 8 && "outbounds"@.len() == 9);
    assert(key_index_from(es, "outbounds"@, 3) == 3);
    assert(key_index_from(es, "outbounds"@, 2) == 3);
    assert(key_index_from(es, "outbounds"@, 1) == 3);
    assert(key_index(es, "outbounds"@) == 3);
    let outs = config_outbounds(p.outbounds);
    let tags = tags_spec(outs);
    let sel = selector_spec(tags, default_tag_spec(p.active_tag, tags));
    let obs = outs + seq![sel, direct_spec()];
    assert(outs[k] == normalize_outbound_spec(o));
    assert(obs[k] == outs[k]);
    assert(obs[obs.len() - 2] == sel);
    let ss = sel->Object_0;
    assert(ss[0].0 == "type"@ && ss[1].0 == "tag"@ && ss[2].0 == "outbounds"@);
    assert("type"@.len() == 4 && "tag"@.len() == 3);
    assert(key_index_from(ss, "tag"@, 1) == 1);
    assert(key_index(ss, "tag"@) == 1);
    assert(key_index_from(ss, "outbounds"@, 2) == 2);
    assert(key_index_from(ss, "outbounds"@, 1) == 2);
    assert(key_index(ss, "outbounds"@) == 2);
    if o.str_at("tag"@) is Some {
        let t = o.str_at("tag"@)->0;
        lemma_normalize_keeps_tag(o);
        lemma_tags_contains(outs, k, t);
        let m = choose|m: int| 0 <= m < tags.len() && tags[m] == t;
        assert(jstrs(tags)[m] == jstr(t));
    }
}

/// The generated config adds no `block` outbound: its outbounds are the
/// profile's (so none is `block` when none of the profile's is), the
/// `proxy` selector and `direct`.
pub proof fn lemma_config_no_block_outbound(p: ProfileV, mode: SplitMode, rules: Seq<RuleV>, st: SettingsV)
    requires
        forall|i: int| 0 <= i < p.outbounds.len() ==> !is_block(#[trigger] p.outbounds[i]),
    ensures
        ({
            let c = config_spec(p, mode, rules, st);
            &&& c.get("outbounds"@) matches Some(JsonV::Array(obs))
            &&& forall|i: int| 0 <= i < obs.len() ==> !is_block(#[trigger] obs[i])
        }),
{
    reveal_strlit("log");
    reveal_strlit("dns");
    reveal_strlit("inbounds");
    reveal_strlit("outbounds");
    reveal_strlit("type");
    reveal_strlit("block");
    reveal_strlit("selector");
    reveal_strlit("direct");
    let c = config_spec(p, mode, rules, st);
    let es = c->Object_0;
    assert(es[0].0 == "log"@ && es[1].0 == "dns"@ && es[2].0 == "inbounds"@ && es[3].0 == "outbounds"@);
    assert("log"@.len() == 3 && "dns"@.len() == 3 && "inbounds"@.len() == 8 && "outbounds"@.len() == 9);
    assert(es[2].0 != "outbounds"@ && es[1].0 != "outbounds"@ && es[0].0 != "outbounds"@);
    assert(key_index_from(es, "outbounds"@, 3) == 3);
    assert(key_index_from(es, "outbounds"@, 2) == 3);
    assert(key_index_from(es, "outbounds"@, 1) == 3);
    assert(key_index(es, "outbounds"@) == 3);
    let outs = config_outbounds(p.outbounds);
    let tags = tags_spec(outs);
    let obs = outs + seq![selector_spec(tags, default_tag_spec(p.active_tag, tags)), direct_spec()];
    assert forall|i: int| 0 <= i < obs.len() implies !is_block(#[trigger] obs[i]) by {
        if i < outs.len() {
            let o = supported_of(p.outbounds)[i];
            assert(outs[i] == normalize_outbound_spec(o));
            lemma_supported_of_from(p.outbounds, i);
            let k = choose|k: int| 0 <= k < p.outbounds.len() && p.outbounds[k] == o;
            assert(!is_block(p.outbounds[k]));
            lemma_normalize_keeps_type(o);
            assert(obs[i] == normalize_outbound_spec(o));
        } else if i == outs.len() {
            assert(obs[i] == selector_spec(tags, default_tag_spec(p.active_tag, tags)));
            assert(key_index(obs[i]->Object_0, "type"@) == 0);
            assert("selector"@.len() == 8 && "block"@.len() == 5);
        } else {
            assert(obs[i] == direct_spec());
            assert(key_index(obs[i]->Object_0, "type"@) == 0);
            assert("direct"@.len() == 6 && "block"@.len() == 5);
        }
    }
}

/// An outbound of a supported import type is not a `block` outbound.
proof fn lemma_supported_type_not_block(o: JsonV)
    requires
        is_supported_type(o),
    ensures
        !is_block(o),
{
    reveal_strlit("block");
    reveal_strlit("vless");
    reveal_strlit("hysteria2");
    reveal_strlit("trojan");
    reveal_strlit("shadowsocks");
    reveal_strlit("vmess");
    assert("block"@[0] == 'b');
    assert("vless"@[0] == 'v' && "vmess"@[0] == 'v');
    assert("block"@.len() == 5 && "hysteria2"@.len() == 9 && "trojan"@.len() == 6
        && "shadowsocks"@.len() == 11);
}

/// A config generated for an imported profile never holds a `block`
/// outbound, whatever the split settings: the importer keeps only
/// `vless`, `hysteria2`, `trojan`, `shadowsocks` and `vmess` outbounds, and
/// the generator adds only the selector and `direct`.
pub proof fn lemma_imported_config_has_no_block(text: Seq<char>, mode: SplitMode, rules: Seq<RuleV>, st: SettingsV)
    requires
        import_spec(text) is Ok,
    ensures
        ({
            let c = config_spec(import_spec(text)->Ok_0, mode, rules, st);
            &&& c.get("outbounds"@) matches Some(JsonV::Array(obs))
            &&& forall|i: int| 0 <= i < obs.len() ==> !is_block(#[trigger] obs[i])
        }),
{
    let p = import_spec(text)->Ok_0;
    lemma_import_shape(text);
    assert forall|i: int| 0 <= i < p.outbounds.len() implies !is_block(#[trigger] p.outbounds[i]) by {
        lemma_supported_type_not_block(p.outbounds[i]);
    }
    lemma_config_no_block_outbound(p, mode, rules, st);
}

/// Choosing a server of the profile (one of the tags the engine keeps)
/// makes it what the next config starts with: the `proxy` selector, second
/// to last among the config's outbounds, has it as its default.
pub proof fn lemma_chosen_server_is_default(p: ProfileV, tag: Seq<char>, mode: SplitMode, rules: Seq<RuleV>, st: SettingsV)
    requires
        tags_spec(config_outbounds(p.outbounds)).contains(tag),
    ensures
        ({
            let c = config_spec(ProfileV { active_tag: Some(tag), ..p }, mode, rules, st);
            &&& c.get("outbounds"@) matches Some(JsonV::Array(obs))
            &&& obs.len() >= 2
            &&& obs[obs.len() - 2].str_at("tag"@) == Some("proxy"@)
            &&& obs[obs.len() - 2].get("default"@) == Some(jstr(tag))
        }),
{
    reveal_strlit("log");
    reveal_strlit("dns");
    reveal_strlit("inbounds");
    reveal_strlit("outbounds");
    reveal_strlit("type");
    reveal_strlit("tag");
    reveal_strlit("default");
    let q = ProfileV { active_tag: Some(tag), ..p };
    let c = config_spec(q, mode, rules, st);
    let es = c->Object_0;
    assert(es[0].0 == "log"@ && es[1].0 == "dns"@ && es[2].0 == "inbounds"@ && es[3].0 == "outbounds"@);
    assert("log"@.len() == 3 && "dns"@.len() == 3 && "inbounds"@.len() == 8 && "outbounds"@.len() == 9);
    assert(key_index_from(es, "outbounds"@, 3) == 3);
    assert(key_index_from(es, "outbounds"@, 2) == 3);
    assert(key_index_from(es, "outbounds"@, 1) == 3);
    assert(key_index(es, "outbounds"@) == 3);
    let outs = config_outbounds(p.outbounds);
    let tags = tags_spec(outs);
    assert(default_tag_spec(Some(tag), tags) == Some(tag));
    let sel = selector_spec(tags, Some(tag));
    let obs = outs + seq![sel, direct_spec()];
    assert(obs[obs.len() - 2] == sel);
    let ss = sel->Object_0;
    assert(ss[0].0 == "type"@ && ss[1].0 == "tag"@ && ss[2].0 == "outbounds"@ && ss[3].0 == "default"@);
    assert("type"@.len() == 4 && "tag"@.len() == 3 && "default"@.len() == 7);
    assert(key_index_from(ss, "tag"@, 1) == 1);
    assert(key_index(ss, "tag"@) == 1);
    assert(key_index_from(ss, "default"@, 3) == 3);
    assert(key_index_from(ss, "default"@, 2) == 3);
    assert(key_index_from(ss, "default"@, 1) == 3);
    assert(key_index(ss, "default"@) == 3);
}

/// The selector's default: some tag whenever there are tags, and the
/// profile's active tag whenever that is still one of them.
pub proof fn lemma_selector_default(active: Option<Seq<char>>, tags: Seq<Seq<char>>)
    ensures
        tags.len() > 0 ==> default_tag_spec(active, tags) is Some && tags.contains(
            default_tag_spec(active, tags)->0,
        ),
        tags.len() == 0 ==> default_tag_spec(active, tags) is None,
        active is Some && tags.contains(active->0) ==> default_tag_spec(active, tags) == active,
{
    if tags.len() > 0 {
        assert(tags[0] == tags[0]);
    }
}

proof fn lemma_values_of_contains(rs: Seq<RuleV>, r: RuleV)
    requires
        rs.contains(r),
    ensures
        values_of(rs, r.0).contains(r.1),
    decreases rs.len(),
{
    let pre = values_of(rs.drop_last(), r.0);
    if rs.last() == r {
        assert(values_of(rs, r.0) == pre.push(r.1));
        assert(pre.push(r.1)[pre.len() as int] == r.1);
    } else {
        let k = choose|k: int| 0 <= k < rs.len() && rs[k] == r;
        assert(rs.drop_last()[k] == r);
        lemma_values_of_contains(rs.drop_last(), r);
        let m = choose|m: int| 0 <= m < pre.len() && pre[m] == r.1;
        if rs.last().0 == r.0 {
            assert(values_of(rs, r.0)[m] == r.1);
        }
    }
}

proof fn lemma_group_present(rs: Seq<RuleV>, kinds: Seq<RuleKind>, k: RuleKind, ob: Seq<char>)
    requires
        kinds.contains(k),
        values_of(rs, k).len() > 0,
    ensures
        groups_spec(rs, kinds, ob).contains(group_rule(rs, k, ob)),
    decreases kinds.len(),
{
    let pre = groups_spec(rs, kinds.drop_last(), ob);
    if kinds.last() == k {
        assert(groups_spec(rs, kinds, ob) == pre.push(group_rule(rs, k, ob)));
        assert(pre.push(group_rule(rs, k, ob))[pre.len() as int] == group_rule(rs, k, ob));
    } else {
        let j = choose|j: int| 0 <= j < kinds.len() && kinds[j] == k;
        assert(kinds.drop_last()[j] == k);
        lemma_group_present(rs, kinds.drop_last(), k, ob);
        let m = choose|m: int| 0 <= m < pre.len() && pre[m] == group_rule(rs, k, ob);
        if values_of(rs, kinds.last()).len() > 0 {
            assert(groups_spec(rs, kinds, ob)[m] == group_rule(rs, k, ob));
        }
    }
}

/// The list of route rules.
pub open spec fn route_list(mode: SplitMode, rules: Seq<RuleV>) -> Seq<JsonV> {
    route_spec(mode, rules)->Object_0[3].1->Array_0
}

/// The route's `final` outbound.
pub open spec fn route_final(mode: SplitMode, rules: Seq<RuleV>) -> JsonV {
    route_spec(mode, rules)->Object_0[2].1
}

/// Every split rule (presets expanded) lands in the route rule for its
/// field, which holds that rule's value: in Blacklist mode these rules go
/// `direct`, sit after the sniff rule and before the DNS hijack and the
/// private-IP rule, and everything else is proxied; in Whitelist mode they
/// go to `proxy` after those fixed rules and everything else goes direct.
pub proof fn lemma_route_places_rule(mode: SplitMode, rules: Seq<RuleV>, r: RuleV)
    requires
        mode != SplitMode::Off,
        expand_spec(rules).contains(r),
    ensures
        ({
            let rs = expand_spec(rules);
            let ob = if mode == SplitMode::Blacklist {
                "direct"@
            } else {
                "proxy"@
            };
            let g = rule_group_spec(rs, ob);
            let list = route_list(mode, rules);
            let sniff = JsonV::Object(seq![("action"@, jstr("sniff"@))]);
            let hijack = JsonV::Object(
                seq![("protocol"@, jstr("dns"@)), ("action"@, jstr("hijack-dns"@))],
            );
            let private = JsonV::Object(
                seq![("ip_is_private"@, JsonV::Bool(true)), ("outbound"@, jstr("direct"@))],
            );
            &&& values_of(rs, r.0).contains(r.1)
            &&& list.len() == g.len() + 3
            &&& list[0] == sniff
            &&& mode == SplitMode::Blacklist ==> {
                &&& list[g.len() + 1int] == hijack
                &&& list[g.len() + 2int] == private
                &&& exists|j: int| 1 <= j <= g.len() && list[j] == group_rule(rs, r.0, "direct"@)
                &&& route_final(mode, rules) == jstr("proxy"@)
            }
            &&& mode == SplitMode::Whitelist ==> {
                &&& list[1] == hijack
                &&& list[2] == private
                &&& exists|j: int| 3 <= j < list.len() && list[j] == group_rule(rs, r.0, "proxy"@)
                &&& route_final(mode, rules) == jstr("direct"@)
            }
        }),
{
    let rs = expand_spec(rules);
    lemma_values_of_contains(rs, r);
    let ob = if mode == SplitMode::Blacklist {
        "direct"@
    } else {
        "proxy"@
    };
    let kinds = group_order();
    assert(kinds.contains(r.0)) by {
        match r.0 {
            RuleKind::DomainRegex => assert(kinds[0] == r.0),
            RuleKind::DomainSuffix => assert(kinds[1] == r.0),
            RuleKind::IpCidr => assert(kinds[2] == r.0),
            RuleKind::Preset => assert(kinds[3] == r.0),
            RuleKind::Process => assert(kinds[4] == r.0),
            RuleKind::ProcessPath => assert(kinds[5] == r.0),
            RuleKind::ProcessPathRegex => assert(kinds[6] == r.0),
        }
    }
    lemma_group_present(rs, kinds, r.0, ob);
    let g = rule_group_spec(rs, ob);
    let m = choose|m: int| 0 <= m < g.len() && g[m] == group_rule(rs, r.0, ob);
    let list = route_list(mode, rules);
    if mode == SplitMode::Blacklist {
        assert(list[m + 1] == group_rule(rs, r.0, "direct"@));
    } else {
        assert(list[m + 3] == group_rule(rs, r.0, "proxy"@));
    }
}

/// With split tunneling off, the route rules are exactly: sniff, DNS hijack,
/// private IPs direct; everything else is proxied.
pub proof fn lemma_route_off(rules: Seq<RuleV>)
    ensures
        route_list(SplitMode::Off, rules) == seq![
            JsonV::Object(seq![("action"@, jstr("sniff"@))]),
            JsonV::Object(seq![("protocol"@, jstr("dns"@)), ("action"@, jstr("hijack-dns"@))]),
            JsonV::Object(seq![("ip_is_private"@, JsonV::Bool(true)), ("outbound"@, jstr("direct"@))]),
        ],
        route_final(SplitMode::Off, rules) == jstr("proxy"@),
{
}

/// No sing-box rule field is named `outbound`.
proof fn lemma_field_not_outbound(k: RuleKind)
    ensures
        field_name(k) != "outbound"@,
{
    reveal_strlit("outbound");
    assert("outbound"@.len() == 8);
    match k {
        RuleKind::Process => {
            reveal_strlit("process_name");
            assert(field_name(k).len() == 12);
        },
        RuleKind::ProcessPath => {
            reveal_strlit("process_path");
            assert(field_name(k).len() == 12);
        },
        RuleKind::DomainSuffix => {
            reveal_strlit("domain_suffix");
            assert(field_name(k).len() == 13);
        },
        RuleKind::DomainRegex => {
            reveal_strlit("domain_regex");
            assert(field_name(k).len() == 12);
        },
        RuleKind::ProcessPathRegex => {
            reveal_strlit("process_path_regex");
            assert(field_name(k).len() == 18);
        },
        RuleKind::IpCidr => {
            reveal_strlit("ip_cidr");
            assert(field_name(k).len() == 7);
        },
        RuleKind::Preset => {
            reveal_strlit("preset");
            assert(field_name(k).len() == 6);
        },
    }
}

/// Every grouped rule sends its traffic to the outbound it was built for.
proof fn lemma_groups_outbound(rs: Seq<RuleV>, kinds: Seq<RuleKind>, ob: Seq<char>)
    ensures
        forall|m: int|
            0 <= m < groups_spec(rs, kinds, ob).len() ==> (#[trigger] groups_spec(
                rs,
                kinds,
                ob,
            )[m]).str_at("outbound"@) == Some(ob),
    decreases kinds.len(),
{
    if kinds.len() > 0 {
        lemma_groups_outbound(rs, kinds.drop_last(), ob);
        let pre = groups_spec(rs, kinds.drop_last(), ob);
        let k = kinds.last();
        if values_of(rs, k).len() > 0 {
            let g = group_rule(rs, k, ob);
            let es = g->Object_0;
            lemma_field_not_outbound(k);
            assert(key_index_from(es, "outbound"@, 1) == 1);
            assert(key_index_from(es, "outbound"@, 0) == 1);
            assert forall|m: int| 0 <= m < pre.len() + 1 implies (#[trigger] pre.push(g)[m]).str_at(
                "outbound"@,
            ) == Some(ob) by {
                if m < pre.len() {
                    assert(pre.push(g)[m] == pre[m]);
                }
            }
        }
    }
}

/// Whether a route rule lets traffic it matches go direct: the sniff and
/// DNS-hijack actions (which route nothing), or a rule whose outbound is
/// `direct`.
pub open spec fn routes_direct(r: JsonV) -> bool {
    ||| r == JsonV::Object(seq![("action"@, jstr("sniff"@))])
    ||| r == JsonV::Object(seq![("protocol"@, jstr("dns"@)), ("action"@, jstr("hijack-dns"@))])
    ||| r.str_at("outbound"@) == Some("direct"@)
}

/// Private-network traffic goes direct in every mode: the route rules hold
/// the private-IP rule, whose outbound is `direct`, and no rule before it
/// sends anything anywhere but `direct`.
pub proof fn lemma_private_traffic_direct(mode: SplitMode, rules: Seq<RuleV>)
    ensures
        ({
            let list = route_list(mode, rules);
            exists|p: int|
                0 <= p < list.len() && #[trigger] list[p] == JsonV::Object(
                    seq![("ip_is_private"@, JsonV::Bool(true)), ("outbound"@, jstr("direct"@))],
                ) && forall|j: int| 0 <= j < p ==> routes_direct(#[trigger] list[j])
        }),
{
    let list = route_list(mode, rules);
    let private = JsonV::Object(
        seq![("ip_is_private"@, JsonV::Bool(true)), ("outbound"@, jstr("direct"@))],
    );
    if mode == SplitMode::Blacklist {
        let rs = expand_spec(rules);
        let g = rule_group_spec(rs, "direct"@);
        lemma_groups_outbound(rs, group_order(), "direct"@);
        let p = (g.len() + 2) as int;
        assert(list[p] == private);
        assert forall|j: int| 0 <= j < p implies routes_direct(#[trigger] list[j]) by {
            if 1 <= j <= g.len() {
                assert(list[j] == g[j - 1]);
            }
        }
    } else {
        assert(list[2] == private);
        assert forall|j: int| 0 <= j < 2 implies routes_direct(#[trigger] list[j]) by {}
    }
}

/// How many times `c` occurs in `s`.
pub open spec fn count_char(s: Seq<char>, c: char) -> nat
    decreases s.len(),
{
    if s.len() == 0 {
        0
    } else {
        count_char(s.drop_last(), c) + if s.last() == c {
            1nat
        } else {
            0nat
        }
    }
}

/// How many runs of ASCII uppercase letters `s` has that do not start at
/// its first character: the places where an uppercase letter follows a
/// character that is not one.
pub open spec fn inner_upper_runs(s: Seq<char>) -> nat
    decreases s.len(),
{
    if s.len() == 0 {
        0
    } else {
        inner_upper_runs(s.drop_last()) + if s.len() > 1 && is_ascii_upper(s.last())
            && !is_ascii_upper(s[s.len() - 2]) {
            1nat
        } else {
            0nat
        }
    }
}

proof fn lemma_camel_scan_flag(s: Seq<char>)
    ensures
        camel_scan(s).1 == (s.len() > 0 && is_ascii_upper(s.last())),
{
}

/// `camel_to_snake` adds exactly one underscore per run of uppercase
/// letters that does not start the key, and nothing else: the result is
/// longer than the key by the number of such runs, and holds that many
/// more underscores. (A letter inside a run gets no underscore of its own.)
pub proof fn lemma_camel_to_snake_underscores(key: Seq<char>)
    ensures
        camel_to_snake_spec(key).len() == key.len() + inner_upper_runs(key),
        count_char(camel_to_snake_spec(key), '_') == count_char(key, '_') + inner_upper_runs(key),
    decreases key.len(),
{
    if key.len() > 0 {
        let p = key.drop_last();
        lemma_camel_to_snake_underscores(p);
        lemma_camel_scan_flag(p);
        let (o, prev) = camel_scan(p);
        let c = key.last();
        if key.len() > 1 {
            assert(p.last() == key[key.len() - 2]);
        }
        if is_ascii_upper(c) {
            assert(ascii_lower(c) != '_');
            let o2 = if p.len() > 0 && !prev {
                o.push('_')
            } else {
                o
            };
            assert(c != '_');
            assert(o2.push(ascii_lower(c)).drop_last() =~= o2);
            assert(count_char(o2.push(ascii_lower(c)), '_') == count_char(o2, '_'));
            if p.len() > 0 && !prev {
                assert(o.push('_').drop_last() =~= o);
                assert(count_char(o.push('_'), '_') == count_char(o, '_') + 1);
            }
            assert(count_char(key, '_') == count_char(p, '_'));
        } else {
            assert(o.push(c).drop_last() =~= o);
            assert(count_char(o.push(c), '_') == count_char(o, '_') + if c == '_' {
                1nat
            } else {
                0nat
            });
        }
    }
}

/// The keys of `es` are distinct.
pub open spec fn unique_keys(es: Entries) -> bool {
    forall|i: int, j: int| 0 <= i < j < es.len() ==> #[trigger] es[i].0 != #[trigger] es[j].0
}

/// No key of `es` has an uppercase ASCII letter.
pub open spec fn snake_keys(es: Entries) -> bool {
    forall|i: int, c: int|
        0 <= i < es.len() && 0 <= c < es[i].0.len() ==> !is_ascii_upper(#[trigger] es[i].0[c])
}

proof fn lemma_entries_set_get(es: Entries, k: Seq<char>, v: JsonV)
    ensures
        entries_get(entries_set(es, k, v), k) == Some(v),
        entries_set(es, k, v).len() == es.len() || entries_set(es, k, v) == es.push((k, v)),
{
    lemma_key_index(es, k);
    let i = key_index(es, k);
    let es2 = entries_set(es, k, v);
    if i >= 0 {
        assert forall|j: int| 0 <= j < es.len() implies #[trigger] es[j].0 == es2[j].0 by {}
        lemma_key_index_same_keys(es, es2, k, 0);
    } else {
        lemma_key_index(es2, k);
        let i2 = key_index(es2, k);
        assert(es2[es.len() as int].0 == k);
        assert(i2 == es.len()) by {
            if i2 < es.len() {
                assert(es2[i2].0 == es[i2].0);
            }
        }
    }
}

/// After normalization an xhttp transport object always carries a usable
/// padding: `x_padding_bytes` is present, not null, not empty, not `"0"`.
pub proof fn lemma_normalized_has_padding(t: JsonV)
    requires
        t is Object,
    ensures
        normalize_transport_spec(t) is Object,
        !needs_padding(normalize_transport_spec(t)->Object_0),
{
    let es2 = renamed_entries(rename_keys(t->Object_0));
    if needs_padding(es2) {
        lemma_entries_set_get(es2, "x_padding_bytes"@, jstr("100-1000"@));
        reveal_strlit("100-1000");
        reveal_strlit("0");
        assert("100-1000"@.len() == 8);
    }
}

proof fn lemma_rename_identity(es: Entries)
    requires
        unique_keys(es),
        snake_keys(es),
    ensures
        rename_keys(es) == es.map_values(|e: (Seq<char>, JsonV)| (e.0, e.0, e.1)),
        renamed_entries(rename_keys(es)) == es,
    decreases es.len(),
{
    if es.len() > 0 {
        let pre = es.drop_last();
        assert(unique_keys(pre)) by {
            assert forall|i: int, j: int| 0 <= i < j < pre.len() implies #[trigger] pre[i].0
                != #[trigger] pre[j].0 by {
                assert(pre[i] == es[i] && pre[j] == es[j]);
            }
        }
        assert(snake_keys(pre)) by {
            assert forall|i: int, c: int| 0 <= i < pre.len() && 0 <= c < pre[i].0.len() implies !is_ascii_upper(
                #[trigger] pre[i].0[c],
            ) by {
                assert(pre[i] == es[i]);
            }
        }
        lemma_rename_identity(pre);
        let (k, v) = es.last();
        assert forall|c: int| 0 <= c < k.len() implies !is_ascii_upper(#[trigger] k[c]) by {
            assert(es[es.len() - 1].0[c] == k[c]);
        }
        lemma_camel_to_snake(k);
        let r = rename_keys(pre);
        lemma_key_index(renamed_entries(r), k);
        assert(renamed_entries(r) == pre);
        assert(key_index(renamed_entries(r), k) < 0) by {
            let j = key_index(pre, k);
            if j >= 0 {
                assert(es[j].0 == es[es.len() - 1].0);
            }
        }
        assert(rename_keys(es) =~= es.map_values(|e: (Seq<char>, JsonV)| (e.0, e.0, e.1)));
        assert(renamed_entries(rename_keys(es)) =~= es);
    } else {
        assert(renamed_entries(rename_keys(es)) =~= es);
    }
}

/// An xhttp transport that is already in the engine's form (distinct
/// snake_case keys, usable padding) is left exactly as it is.
pub proof fn lemma_normalize_keeps_snake_case(es: Entries)
    requires
        unique_keys(es),
        snake_keys(es),
        !needs_padding(es),
    ensures
        normalize_transport_spec(JsonV::Object(es)) == JsonV::Object(es),
{
    lemma_rename_identity(es);
}

proof fn lemma_rename_shape(es: Entries)
    ensures
        unique_keys(renamed_entries(rename_keys(es))),
        snake_keys(renamed_entries(rename_keys(es))),
    decreases es.len(),
{
    if es.len() > 0 {
        lemma_rename_shape(es.drop_last());
        let r = rename_keys(es.drop_last());
        let re = renamed_entries(r);
        let (k, v) = es.last();
        let s = camel_to_snake_spec(k);
        lemma_camel_to_snake(k);
        lemma_key_index(re, s);
        let j = key_index(re, s);
        let out = renamed_entries(rename_keys(es));
        if j < 0 {
            assert(out =~= re.push((s, v)));
        } else if lex_lt(r[j].1, k) {
            assert(out =~= re.update(j, (s, v)));
        } else {
            assert(out == re);
        }
        assert forall|a: int, b: int| 0 <= a < b < out.len() implies #[trigger] out[a].0
            != #[trigger] out[b].0 by {
            if b < re.len() {
                assert(out[a].0 == re[a].0 && out[b].0 == re[b].0);
            }
        }
        assert forall|a: int, c: int| 0 <= a < out.len() && 0 <= c < out[a].0.len() implies !is_ascii_upper(
            #[trigger] out[a].0[c],
        ) by {
            if a < re.len() && out[a].0 == re[a].0 {
            } else {
                assert(out[a].0 == s);
            }
        }
    } else {
        assert(renamed_entries(rename_keys(es)) =~= Seq::<(Seq<char>, JsonV)>::empty());
    }
}

/// No two keys of `es` have the same snake_case form.
pub open spec fn distinct_snake_forms(es: Entries) -> bool {
    forall|i: int, j: int|
        0 <= i < j < es.len() ==> camel_to_snake_spec(#[trigger] es[i].0) != camel_to_snake_spec(
            #[trigger] es[j].0,
        )
}

/// `es` with every key in its snake_case form.
pub open spec fn snake_renamed(es: Entries) -> Entries {
    es.map_values(|e: (Seq<char>, JsonV)| (camel_to_snake_spec(e.0), e.1))
}

/// Whether a padding value has to be replaced: null, empty or `"0"`.
pub open spec fn padding_missing(v: JsonV) -> bool {
    match v {
        JsonV::Null => true,
        JsonV::String(s) => s.len() == 0 || s == "0"@,
        _ => false,
    }
}

proof fn lemma_rename_distinct(es: Entries)
    requires
        distinct_snake_forms(es),
    ensures
        renamed_entries(rename_keys(es)) == snake_renamed(es),
    decreases es.len(),
{
    if es.len() == 0 {
        assert(renamed_entries(rename_keys(es)) =~= snake_renamed(es));
    } else {
        let pre = es.drop_last();
        assert(distinct_snake_forms(pre)) by {
            assert forall|i: int, j: int| 0 <= i < j < pre.len() implies camel_to_snake_spec(
                #[trigger] pre[i].0,
            ) != camel_to_snake_spec(#[trigger] pre[j].0) by {
                assert(pre[i] == es[i] && pre[j] == es[j]);
            }
        }
        lemma_rename_distinct(pre);
        let r = rename_keys(pre);
        let re = renamed_entries(r);
        let (k, v) = es.last();
        let sk = camel_to_snake_spec(k);
        lemma_key_index(re, sk);
        assert(key_index(re, sk) < 0) by {
            let j = key_index(re, sk);
            if j >= 0 {
                assert(re[j].0 == camel_to_snake_spec(pre[j].0));
                assert(pre[j] == es[j]);
                assert(es[es.len() - 1].0 == k);
            }
        }
        assert(rename_keys(es) == r.push((sk, k, v)));
        assert(renamed_entries(r.push((sk, k, v))) =~= re.push((sk, v)));
        assert(snake_renamed(es) =~= snake_renamed(pre).push((sk, v)));
    }
}

/// In a list whose keys are distinct, each key finds its own value.
proof fn lemma_get_distinct(es: Entries, i: int)
    requires
        unique_keys(es),
        0 <= i < es.len(),
    ensures
        entries_get(es, es[i].0) == Some(es[i].1),
{
    lemma_key_index(es, es[i].0);
    let j = key_index(es, es[i].0);
    if j != i {
        assert(j < i);
    }
}

/// Setting one key leaves the value found under any other key as it was.
proof fn lemma_entries_set_other(es: Entries, k: Seq<char>, v: JsonV, s: Seq<char>)
    requires
        s != k,
    ensures
        entries_get(entries_set(es, k, v), s) == entries_get(es, s),
{
    let i = key_index(es, k);
    lemma_key_index(es, k);
    let es2 = entries_set(es, k, v);
    lemma_key_index(es, s);
    lemma_key_index(es2, s);
    if i >= 0 {
        assert forall|j: int| 0 <= j < es.len() implies #[trigger] es[j].0 == es2[j].0 by {}
        lemma_key_index_same_keys(es, es2, s, 0);
        let t = key_index(es, s);
        if t >= 0 {
            assert(t != i);
        }
    } else {
        let t = key_index(es, s);
        let t2 = key_index(es2, s);
        if t >= 0 {
            assert(es2[t].0 == s);
            assert(t2 == t) by {
                if t2 < t {
                    assert(es2[t2] == es[t2]);
                }
            }
        } else {
            assert(t2 < 0) by {
                if t2 >= 0 {
                    if t2 < es.len() {
                        assert(es2[t2] == es[t2]);
                    }
                }
            }
        }
    }
}

/// Setting a key adds no key but that one.
proof fn lemma_entries_set_keys(es: Entries, k: Seq<char>, v: JsonV)
    ensures
        forall|j: int|
            0 <= j < entries_set(es, k, v).len() ==> (#[trigger] entries_set(es, k, v)[j]).0 == k
                || (j < es.len() && entries_set(es, k, v)[j].0 == es[j].0),
{
    lemma_key_index(es, k);
}

/// What normalizing an xhttp transport object does to its keys, when no two
/// of them share a snake_case form: every key is renamed to snake_case and
/// keeps its value, except that `x_padding_bytes` is set to `"100-1000"`
/// when it is missing, null, empty or `"0"`; no other key appears.
pub proof fn lemma_normalize_keys(es: Entries)
    requires
        distinct_snake_forms(es),
    ensures
        ({
            let n = normalize_transport_spec(JsonV::Object(es))->Object_0;
            let pad = "x_padding_bytes"@;
            &&& forall|i: int|
                0 <= i < es.len() && camel_to_snake_spec(es[i].0) != pad ==> entries_get(
                    n,
                    camel_to_snake_spec(#[trigger] es[i].0),
                ) == Some(es[i].1)
            &&& forall|i: int|
                0 <= i < es.len() && camel_to_snake_spec(#[trigger] es[i].0) == pad ==> entries_get(
                    n,
                    pad,
                ) == Some(
                    if padding_missing(es[i].1) {
                        jstr("100-1000"@)
                    } else {
                        es[i].1
                    },
                )
            &&& (forall|i: int| 0 <= i < es.len() ==> camel_to_snake_spec(#[trigger] es[i].0) != pad)
                ==> entries_get(n, pad) == Some(jstr("100-1000"@))
            &&& forall|j: int|
                0 <= j < n.len() ==> (#[trigger] n[j]).0 == pad || exists|i: int|
                    0 <= i < es.len() && n[j].0 == camel_to_snake_spec(#[trigger] es[i].0)
        }),
{
    let pad = "x_padding_bytes"@;
    let val = jstr("100-1000"@);
    lemma_rename_distinct(es);
    let es2 = snake_renamed(es);
    assert(unique_keys(es2)) by {
        assert forall|i: int, j: int| 0 <= i < j < es2.len() implies #[trigger] es2[i].0
            != #[trigger] es2[j].0 by {
            assert(es2[i].0 == camel_to_snake_spec(es[i].0));
            assert(es2[j].0 == camel_to_snake_spec(es[j].0));
        }
    }
    let n = normalize_transport_spec(JsonV::Object(es))->Object_0;
    let needs = needs_padding(es2);
    assert(n == if needs {
        entries_set(es2, pad, val)
    } else {
        es2
    });
    assert forall|i: int|
        0 <= i < es.len() && camel_to_snake_spec(es[i].0) != pad implies entries_get(
        n,
        camel_to_snake_spec(#[trigger] es[i].0),
    ) == Some(es[i].1) by {
        lemma_get_distinct(es2, i);
        if needs {
            lemma_entries_set_other(es2, pad, val, camel_to_snake_spec(es[i].0));
        }
    }
    assert forall|i: int|
        0 <= i < es.len() && camel_to_snake_spec(#[trigger] es[i].0) == pad implies entries_get(
        n,
        pad,
    ) == Some(
        if padding_missing(es[i].1) {
            val
        } else {
            es[i].1
        },
    ) by {
        lemma_get_distinct(es2, i);
        if needs {
            lemma_entries_set_get(es2, pad, val);
        }
    }
    if forall|i: int| 0 <= i < es.len() ==> camel_to_snake_spec(#[trigger] es[i].0) != pad {
        lemma_key_index(es2, pad);
        assert(key_index(es2, pad) < 0) by {
            let j = key_index(es2, pad);
            if j >= 0 {
                assert(es2[j].0 == camel_to_snake_spec(es[j].0));
            }
        }
        lemma_entries_set_get(es2, pad, val);
    }
    assert forall|j: int| 0 <= j < n.len() implies (#[trigger] n[j]).0 == pad || exists|i: int|
        0 <= i < es.len() && n[j].0 == camel_to_snake_spec(#[trigger] es[i].0) by {
        if needs {
            lemma_entries_set_keys(es2, pad, val);
        }
        if n[j].0 != pad {
            assert(j < es2.len() && n[j].0 == es2[j].0);
            assert(es2[j].0 == camel_to_snake_spec(es[j].0));
        }
    }
}

/// Normalizing an xhttp transport twice gives what normalizing it once
/// gives.
pub proof fn lemma_normalize_idempotent(t: JsonV)
    ensures
        normalize_transport_spec(normalize_transport_spec(t)) == normalize_transport_spec(t),
{
    if t is Object {
        let es2 = renamed_entries(rename_keys(t->Object_0));
        lemma_rename_shape(t->Object_0);
        lemma_normalized_has_padding(t);
        let n = normalize_transport_spec(t)->Object_0;
        if needs_padding(es2) {
            reveal_strlit("x_padding_bytes");
            lemma_key_index(es2, "x_padding_bytes"@);
            let i = key_index(es2, "x_padding_bytes"@);
            assert forall|a: int, b: int| 0 <= a < b < n.len() implies #[trigger] n[a].0
                != #[trigger] n[b].0 by {
                if i < 0 && b == es2.len() {
                    assert(n[b].0 == "x_padding_bytes"@);
                    assert(n[a].0 == es2[a].0);
                } else {
                    assert(n[a].0 == es2[a].0 && n[b].0 == es2[b].0);
                }
            }
            assert forall|a: int, c: int| 0 <= a < n.len() && 0 <= c < n[a].0.len() implies !is_ascii_upper(
                #[trigger] n[a].0[c],
            ) by {
                if i < 0 && a == es2.len() {
                    assert(n[a].0 == "x_padding_bytes"@);
                } else {
                    assert(n[a].0 == es2[a].0);
                }
            }
        }
        lemma_normalize_keeps_snake_case(n);
    }
}

} // verus!
