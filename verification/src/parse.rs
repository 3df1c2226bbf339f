//! Import profiles from raw sing-box outbound JSON or `vless://` /
//! `hysteria2://` share links.

use vstd::prelude::*;
use vstd::utf8::{valid_utf8, decode_utf8, encode_utf8, encode_scalar, is_scalar, char_is_scalar,
    char_u32_cast,
    encode_utf8_valid_utf8, encode_utf8_decode_utf8};
use crate::json::{
    Json, JsonV, Entries, jstr, opt_entry, opt_str_entry, entries_view, push_entry, push_opt_str,
    object, number,
};
use crate::share_url::{UrlParts, UrlV, Pairs, param, param_of, parse_url, url_parse};
use crate::error::{WispError, ErrV};
use crate::profile::{Profile, ProfileV, fresh_profile, outs_view};
use crate::json::{serde_json_parse, parse_json, find_key, items_view, lemma_array_view, lemma_object_view, entries_get, key_index};
use crate::text::{str_eq, decimal, starts_with, has_prefix, split_on, split_chars, lines_view,
    find_sub_from, index_of_sub, trim_chars,
    trim_spec, trim_end_spec, trim_end_char, find_char, chars_of, string_of, slice_chars,
    trim_bounds, trim_end_len, trim_end_char_len, index_of_char,
};

verus! {

/// `s` without a leading byte-order mark.
pub open spec fn trim_bom_spec(s: Seq<char>) -> Seq<char> {
    if s.len() > 0 && s[0] == '\u{FEFF}' {
        s.drop_first()
    } else {
        s
    }
}

/// `s` without a leading byte-order mark.
pub fn trim_bom(s: &Vec<char>) -> (r: Vec<char>)
    ensures
        r@ == trim_bom_spec(s@),
{
    if s.len() > 0 && s[0] == '\u{FEFF}' {
        let r = slice_chars(s, 1, s.len());
        assert(r@ =~= s@.drop_first());
        r
    } else {
        let r = slice_chars(s, 0, s.len());
        assert(r@ =~= s@);
        r
    }
}

/// A tag with a trailing sing-box `"§ N"` counter removed: the text before
/// the first `§`, without the whitespace, commas and whitespace that end
/// it; a tag without `§` is only trimmed.
pub open spec fn strip_counter_suffix_spec(tag: Seq<char>) -> Seq<char> {
    let i = find_char(tag, '§');
    if i >= 0 {
        trim_end_spec(trim_end_char(trim_end_spec(tag.take(i)), ','))
    } else {
        trim_spec(tag)
    }
}

/// Strip a trailing sing-box "§ N" counter suffix (added by some export
/// tools to disambiguate outbounds sharing a base name), e.g.
/// `"Bulgaria, Sophia § 0"` -> `"Bulgaria, Sophia"`.
pub fn strip_counter_suffix(tag: &str) -> (r: String)
    ensures
        r@ == strip_counter_suffix_spec(tag@),
{
    let cs = chars_of(tag);
    match index_of_char(&cs, '§') {
        Some(idx) => {
            let b1: usize = trim_end_len(&cs, idx);
            let b2: usize = trim_end_char_len(&cs, b1, ',');
            let b3: usize = trim_end_len(&cs, b2);
            proof {
                assert(cs@.take(idx as int).take(b1 as int) =~= cs@.take(b1 as int));
                assert(cs@.take(b1 as int).take(b2 as int) =~= cs@.take(b2 as int));
            }
            let out = slice_chars(&cs, 0, b3);
            assert(out@ =~= cs@.take(b3 as int));
            string_of(&out)
        },
        None => {
            let (a, b) = trim_bounds(&cs);
            let out = slice_chars(&cs, a, b);
            string_of(&out)
        },
    }
}

/// The value of an ASCII hex digit.
pub open spec fn hex_val(b: u8) -> Option<u8> {
    if 0x30 <= b <= 0x39 {
        Some((b - 0x30) as u8)
    } else if 0x41 <= b <= 0x46 {
        Some((b - 0x41 + 10) as u8)
    } else if 0x61 <= b <= 0x66 {
        Some((b - 0x61 + 10) as u8)
    } else {
        None
    }
}

/// What `u8::from_str_radix(_, 16)` makes of the two bytes after a `%`:
/// two hex digits, or a `+` sign and one hex digit.
pub open spec fn pct_pair(b1: u8, b2: u8) -> Option<u8> {
    match (hex_val(b1), hex_val(b2)) {
        (Some(h), Some(l)) => Some((h * 16 + l) as u8),
        (None, Some(l)) => if b1 == 0x2b {
            Some(l)
        } else {
            None
        },
        _ => None,
    }
}

/// Percent-decoding of bytes: each `%` followed by a decodable pair becomes
/// the byte it names; every other byte stays.
pub open spec fn pct_decode(b: Seq<u8>) -> Seq<u8>
    decreases b.len(),
{
    if b.len() == 0 {
        Seq::empty()
    } else if b[0] == 0x25 && b.len() >= 3 && pct_pair(b[1], b[2]) is Some {
        seq![pct_pair(b[1], b[2])->0] + pct_decode(b.skip(3))
    } else {
        seq![b[0]] + pct_decode(b.skip(1))
    }
}

fn hex_digit(b: u8) -> (r: Option<u8>)
    ensures
        r == hex_val(b),
{
    if 0x30 <= b && b <= 0x39 {
        Some(b - 0x30)
    } else if 0x41 <= b && b <= 0x46 {
        Some(b - 0x41 + 10)
    } else if 0x61 <= b && b <= 0x66 {
        Some(b - 0x61 + 10)
    } else {
        None
    }
}

fn decode_pair(b1: u8, b2: u8) -> (r: Option<u8>)
    ensures
        r == pct_pair(b1, b2),
{
    match (hex_digit(b1), hex_digit(b2)) {
        (Some(h), Some(l)) => Some(h * 16 + l),
        (None, Some(l)) => if b1 == 0x2b {
            Some(l)
        } else {
            None
        },
        _ => None,
    }
}

/// What `String::from_utf8_lossy` makes of a byte string: invalid
/// sequences become U+FFFD.
pub uninterp spec fn utf8_lossy(bytes: Seq<u8>) -> Seq<char>;

/// `String::from_utf8_lossy(bytes).into_owned()`. The contract names the
/// result, and states what std's documentation promises: valid UTF-8 is
/// decoded as it stands. How invalid sequences are replaced is not
/// stated.
#[verifier::external_body]
fn from_utf8_lossy(bytes: &[u8]) -> (r: String)
    ensures
        r@ == utf8_lossy(bytes@),
        valid_utf8(bytes@) ==> r@ == decode_utf8(bytes@),
{
    String::from_utf8_lossy(bytes).into_owned()
}

/// The percent-decoding of `s` (on its UTF-8 bytes), read back lossily.
pub open spec fn percent_decode_spec(s: Seq<char>) -> Seq<char> {
    utf8_lossy(pct_decode(encode_utf8(s)))
}

/// Minimal percent-decoder for URL fragments (which the URL parser returns
/// raw/undecoded, unlike query pairs).
pub fn percent_decode(s: &str) -> (r: String)
    ensures
        r@ == percent_decode_spec(s@),
        valid_utf8(pct_decode(encode_utf8(s@))) ==> r@ == decode_utf8(pct_decode(encode_utf8(s@))),
        !s@.contains('%') ==> r@ == s@,
{
    let bytes = s.as_bytes();
    let ghost b = bytes@;
    let mut out: Vec<u8> = Vec::new();
    let mut i: usize = 0;
    assert(b.skip(0) =~= b);
    while i < bytes.len()
        invariant
            i <= bytes.len(),
            b == bytes@,
            out@ + pct_decode(b.skip(i as int)) == pct_decode(b),
        decreases bytes.len() - i,
    {
        let ghost rest = b.skip(i as int);
        if bytes[i] == 0x25 && bytes.len() - i >= 3 {
            match decode_pair(bytes[i + 1], bytes[i + 2]) {
                Some(byte) => {
                    assert(rest.skip(3) =~= b.skip(i + 3));
                    assert(rest[1] == bytes@[i + 1] && rest[2] == bytes@[i + 2]);
                    let ghost before = out@;
                    out.push(byte);
                    i += 3;
                    assert(out@ + pct_decode(b.skip(i as int)) =~= pct_decode(b)) by {
                        assert(out@ =~= before.push(byte));
                    }
                    continue;
                },
                None => {},
            }
        }
        assert(rest.skip(1) =~= b.skip(i + 1));
        let ghost before = out@;
        out.push(bytes[i]);
        i += 1;
        assert(out@ + pct_decode(b.skip(i as int)) =~= pct_decode(b)) by {
            assert(out@ =~= before.push(rest[0]));
        }
    }
    assert(b.skip(bytes.len() as int) =~= Seq::<u8>::empty());
    assert(out@ =~= pct_decode(b));
    proof {
        if !s@.contains('%') {
            lemma_encode_no_pct(s@);
            lemma_pct_decode_plain(b);
            encode_utf8_valid_utf8(s@);
            encode_utf8_decode_utf8(s@);
        }
    }
    from_utf8_lossy(out.as_slice())
}

/// No byte of the UTF-8 encoding of a scalar other than `%` is `0x25`.
proof fn lemma_scalar_bytes_not_pct(v: u32)
    requires
        is_scalar(v),
        v != 0x25,
    ensures
        forall|i: int| 0 <= i < encode_scalar(v).len() ==> encode_scalar(v)[i] != 0x25u8,
{
    assert(v <= 0x7F && v != 0x25 ==> (v & 0x7F) as u8 != 0x25u8) by (bit_vector);
    assert((0xC0u8 | ((v >> 6) & 0x1F) as u8) != 0x25u8) by (bit_vector);
    assert((0xE0u8 | ((v >> 12) & 0x0F) as u8) != 0x25u8) by (bit_vector);
    assert((0xF0u8 | ((v >> 18) & 0x7) as u8) != 0x25u8) by (bit_vector);
    assert((0x80u8 | (v & 0x3F) as u8) != 0x25u8) by (bit_vector);
    assert((0x80u8 | ((v >> 6) & 0x3F) as u8) != 0x25u8) by (bit_vector);
    assert((0x80u8 | ((v >> 12) & 0x3F) as u8) != 0x25u8) by (bit_vector);
}

/// The UTF-8 encoding of a text without `%` has no `0x25` byte.
proof fn lemma_encode_no_pct(s: Seq<char>)
    requires
        !s.contains('%'),
    ensures
        forall|i: int| 0 <= i < encode_utf8(s).len() ==> encode_utf8(s)[i] != 0x25u8,
    decreases s.len(),
{
    if s.len() > 0 {
        assert(s[0] != '%');
        char_is_scalar(s[0]);
        char_u32_cast(s[0], s[0] as u32);
        char_u32_cast('%', '%' as u32);
        assert('%' as u32 == 0x25);
        lemma_scalar_bytes_not_pct(s[0] as u32);
        let rest = s.drop_first();
        assert(!rest.contains('%')) by {
            if rest.contains('%') {
                let j = choose|j: int| 0 <= j < rest.len() && rest[j] == '%';
                assert(s[j + 1] == '%');
            }
        }
        lemma_encode_no_pct(rest);
        let a = encode_scalar(s[0] as u32);
        let e = encode_utf8(rest);
        assert forall|i: int| 0 <= i < (a + e).len() implies (a + e)[i] != 0x25u8 by {
            if i >= a.len() {
                assert((a + e)[i] == e[i - a.len()]);
            }
        }
    }
}

/// Bytes without a `%` are left as they are by percent-decoding.
proof fn lemma_pct_decode_plain(b: Seq<u8>)
    requires
        forall|i: int| 0 <= i < b.len() ==> b[i] != 0x25u8,
    ensures
        pct_decode(b) == b,
    decreases b.len(),
{
    if b.len() > 0 {
        assert(b[0] != 0x25u8);
        let rest = b.skip(1);
        assert forall|i: int| 0 <= i < rest.len() implies rest[i] != 0x25u8 by {
            assert(rest[i] == b[i + 1]);
        }
        lemma_pct_decode_plain(rest);
        assert(seq![b[0]] + rest =~= b);
    }
}


/// The outbound's tag taken from a link's fragment: the percent-decoded
/// fragment, or `"Imported"` when it is absent or decodes to nothing.
pub open spec fn link_name_spec(fragment: Option<Seq<char>>) -> Seq<char> {
    match fragment {
        Some(f) => if percent_decode_spec(f).len() > 0 {
            percent_decode_spec(f)
        } else {
            "Imported"@
        },
        None => "Imported"@,
    }
}

/// The outbound's tag taken from a link's fragment.
pub fn link_name(fragment: &Option<String>) -> (r: String)
    ensures
        r@ == link_name_spec(crate::share_url::opt_str_view(*fragment)),
{
    match fragment {
        Some(f) => {
            let d = percent_decode(f.as_str());
            let dc = chars_of(d.as_str());
            if dc.len() > 0 {
                d
            } else {
                "Imported".to_string()
            }
        },
        None => "Imported".to_string(),
    }
}

/// The value of query parameter `k`, or the empty text when it is absent.
pub open spec fn param_or_empty(q: Pairs, k: Seq<char>) -> Seq<char> {
    match param(q, k) {
        Some(v) => v,
        None => ""@,
    }
}

/// The `tls` object of a vless outbound with `security` `tls` or
/// `reality`.
pub open spec fn vless_tls_spec(q: Pairs) -> JsonV {
    JsonV::Object(
        seq![("enabled"@, JsonV::Bool(true))] + opt_str_entry("server_name"@, param(q, "sni"@))
            + opt_entry(
            "utls"@,
            match param(q, "fp"@) {
                Some(fp) => Some(
                    JsonV::Object(
                        seq![("enabled"@, JsonV::Bool(true)), ("fingerprint"@, jstr(fp))],
                    ),
                ),
                None => None,
            },
        ) + if param_or_empty(q, "security"@) == "reality"@ {
            seq![
                ("reality"@, JsonV::Object(
                    seq![("enabled"@, JsonV::Bool(true))] + opt_str_entry(
                        "public_key"@,
                        param(q, "pbk"@),
                    ) + opt_str_entry("short_id"@, param(q, "sid"@)),
                )),
            ]
        } else {
            Seq::empty()
        },
    )
}

/// The entries of the outbound a vless link describes (host and port
/// present).
pub open spec fn vless_entries(u: UrlV) -> Entries {
    let q = u.query;
    let security = param_or_empty(q, "security"@);
    seq![
        ("type"@, jstr("vless"@)),
        ("tag"@, jstr(link_name_spec(u.fragment))),
        ("server"@, jstr(u.host->0)),
        ("server_port"@, JsonV::Number(decimal(u.port->0 as nat))),
        ("uuid"@, jstr(u.username)),
    ] + match param(q, "flow"@) {
        Some(f) => if f.len() > 0 {
            seq![("flow"@, jstr(f))]
        } else {
            Seq::empty()
        },
        None => Seq::empty(),
    } + if security == "reality"@ || security == "tls"@ {
        seq![("tls"@, vless_tls_spec(q))]
    } else {
        Seq::empty()
    } + if param(q, "type"@) == Some("xhttp"@) {
        seq![
            ("transport"@, JsonV::Object(
                seq![("type"@, jstr("xhttp"@))] + opt_str_entry("path"@, param(q, "path"@)),
            )),
        ]
    } else {
        Seq::empty()
    }
}

/// The sing-box `vless` outbound for a parsed `vless://` link, or why there
/// is none.
pub open spec fn vless_spec(u: UrlV) -> Result<JsonV, ErrV> {
    if u.scheme != "vless"@ {
        Err(ErrV::UnsupportedProtocol(u.scheme))
    } else if u.username.len() == 0 {
        Err(ErrV::Parse("vless link missing uuid"@))
    } else if u.host is None {
        Err(ErrV::Parse("share link missing host"@))
    } else if u.port is None {
        Err(ErrV::Parse("share link missing port"@))
    } else {
        Ok(JsonV::Object(vless_entries(u)))
    }
}

/// The view of an outbound result.
pub open spec fn json_result_view(r: Result<Json, WispError>) -> Result<JsonV, ErrV> {
    match r {
        Ok(j) => Ok(j@),
        Err(e) => Err(e@),
    }
}



/// The sing-box `vless` outbound for a parsed `vless://<uuid>@<host>:<port>
/// ?<params>#<name>` link: `flow`, `security` (`tls`/`reality` with `sni`,
/// `fp`, `pbk`, `sid`), and an `xhttp` transport with `path`.
pub fn vless_outbound(u: &UrlParts) -> (r: Result<Json, WispError>)
    ensures
        json_result_view(r) == vless_spec(u@),
{
    if !str_eq(u.scheme.as_str(), "vless") {
        return Err(WispError::UnsupportedProtocol(u.scheme.clone()));
    }
    if u.username.as_str().is_empty() {
        return Err(WispError::Parse("vless link missing uuid".to_string()));
    }
    let host = match &u.host {
        Some(h) => h,
        None => {
            return Err(WispError::Parse("share link missing host".to_string()));
        },
    };
    let port = match u.port {
        Some(p) => p,
        None => {
            return Err(WispError::Parse("share link missing port".to_string()));
        },
    };
    let ghost uv = u@;
    let ghost q = uv.query;
    let mut es: Vec<(String, Json)> = Vec::new();
    push_entry(&mut es, "type", Json::from_str("vless"));
    push_entry(&mut es, "tag", Json::String(link_name(&u.fragment)));
    push_entry(&mut es, "server", Json::String(host.clone()));
    push_entry(&mut es, "server_port", number(port as u64));
    push_entry(&mut es, "uuid", Json::String(u.username.clone()));
    assert(entries_view(es@) =~= seq![
        ("type"@, jstr("vless"@)),
        ("tag"@, jstr(link_name_spec(uv.fragment))),
        ("server"@, jstr(uv.host->0)),
        ("server_port"@, JsonV::Number(decimal(uv.port->0 as nat))),
        ("uuid"@, jstr(uv.username)),
    ]);
    let ghost e0 = entries_view(es@);
    match param_of(&u.query, "flow") {
        Some(f) => {
            if !f.as_str().is_empty() {
                push_entry(&mut es, "flow", Json::String(f.clone()));
            }
        },
        None => {},
    }
    let ghost e1 = entries_view(es@);
    let security: &str = match param_of(&u.query, "security") {
        Some(s) => s.as_str(),
        None => "",
    };
    assert(security@ == param_or_empty(q, "security"@));
    let is_reality = str_eq(security, "reality");
    if is_reality || str_eq(security, "tls") {
        let mut tls: Vec<(String, Json)> = Vec::new();
        push_entry(&mut tls, "enabled", Json::Bool(true));
        push_opt_str(&mut tls, "server_name", param_of(&u.query, "sni"));
        let ghost t1 = entries_view(tls@);
        assert(t1 =~= seq![("enabled"@, JsonV::Bool(true))] + opt_str_entry(
            "server_name"@,
            param(q, "sni"@),
        ));
        match param_of(&u.query, "fp") {
            Some(fp) => {
                let mut utls: Vec<(String, Json)> = Vec::new();
                push_entry(&mut utls, "enabled", Json::Bool(true));
                push_entry(&mut utls, "fingerprint", Json::String(fp.clone()));
                assert(entries_view(utls@) =~= seq![
                    ("enabled"@, JsonV::Bool(true)),
                    ("fingerprint"@, jstr(fp@)),
                ]);
                push_entry(&mut tls, "utls", object(utls));
            },
            None => {},
        }
        let ghost t2 = entries_view(tls@);
        let ghost utls_part = opt_entry(
            "utls"@,
            match param(q, "fp"@) {
                Some(fp) => Some(
                    JsonV::Object(
                        seq![("enabled"@, JsonV::Bool(true)), ("fingerprint"@, jstr(fp))],
                    ),
                ),
                None => None,
            },
        );
        assert(t2 =~= t1 + utls_part);
        if is_reality {
            let mut reality: Vec<(String, Json)> = Vec::new();
            push_entry(&mut reality, "enabled", Json::Bool(true));
            push_opt_str(&mut reality, "public_key", param_of(&u.query, "pbk"));
            push_opt_str(&mut reality, "short_id", param_of(&u.query, "sid"));
            let ghost rv = entries_view(reality@);
            assert(rv =~= seq![("enabled"@, JsonV::Bool(true))] + opt_str_entry(
                "public_key"@,
                param(q, "pbk"@),
            ) + opt_str_entry("short_id"@, param(q, "sid"@)));
            push_entry(&mut tls, "reality", object(reality));
        }
        proof {
            assert(entries_view(tls@) =~= vless_tls_spec(q)->Object_0);
        }
        push_entry(&mut es, "tls", object(tls));
    }
    let ghost e2 = entries_view(es@);
    let is_xhttp = match param_of(&u.query, "type") {
        Some(t) => str_eq(t.as_str(), "xhttp"),
        None => false,
    };
    if is_xhttp {
        let mut transport: Vec<(String, Json)> = Vec::new();
        push_entry(&mut transport, "type", Json::from_str("xhttp"));
        push_opt_str(&mut transport, "path", param_of(&u.query, "path"));
        assert(entries_view(transport@) =~= seq![("type"@, jstr("xhttp"@))] + opt_str_entry(
            "path"@,
            param(q, "path"@),
        ));
        push_entry(&mut es, "transport", object(transport));
    }
    proof {
        let flow_part = match param(q, "flow"@) {
            Some(f) => if f.len() > 0 {
                seq![("flow"@, jstr(f))]
            } else {
                Seq::empty()
            },
            None => Seq::empty(),
        };
        assert(e1 =~= e0 + flow_part);
        let tls_part: Entries = if param_or_empty(q, "security"@) == "reality"@ || param_or_empty(
            q,
            "security"@,
        ) == "tls"@ {
            seq![("tls"@, vless_tls_spec(q))]
        } else {
            Seq::empty()
        };
        assert(e2 =~= e1 + tls_part);
        let tr_part: Entries = if param(q, "type"@) == Some("xhttp"@) {
            seq![
                ("transport"@, JsonV::Object(
                    seq![("type"@, jstr("xhttp"@))] + opt_str_entry("path"@, param(q, "path"@)),
                )),
            ]
        } else {
            Seq::empty()
        };
        assert(entries_view(es@) =~= e2 + tr_part);
        assert(entries_view(es@) =~= vless_entries(uv));
    }
    Ok(object(es))
}

/// The obfuscation password of a hysteria2 link: `obfs-password`, else
/// `obfs_password`.
pub open spec fn obfs_password_spec(q: Pairs) -> Option<Seq<char>> {
    match param(q, "obfs-password"@) {
        Some(p) => Some(p),
        None => param(q, "obfs_password"@),
    }
}

/// The entries of the outbound a hysteria2 link describes (host and port
/// present).
pub open spec fn hysteria2_entries(u: UrlV) -> Entries {
    let q = u.query;
    seq![
        ("type"@, jstr("hysteria2"@)),
        ("tag"@, jstr(link_name_spec(u.fragment))),
        ("server"@, jstr(u.host->0)),
        ("server_port"@, JsonV::Number(decimal(u.port->0 as nat))),
        ("password"@, jstr(u.username)),
    ] + match obfs_password_spec(q) {
        Some(op) => seq![
            ("obfs"@, JsonV::Object(
                seq![
                    ("type"@, jstr(
                        match param(q, "obfs"@) {
                            Some(t) => t,
                            None => "salamander"@,
                        },
                    )),
                    ("password"@, jstr(op)),
                ],
            )),
        ],
        None => Seq::empty(),
    } + seq![
        ("tls"@, JsonV::Object(
            seq![("enabled"@, JsonV::Bool(true))] + opt_str_entry("server_name"@, param(q, "sni"@))
                + if param(q, "insecure"@) == Some("1"@) {
                seq![("insecure"@, JsonV::Bool(true))]
            } else {
                Seq::empty()
            },
        )),
    ]
}

/// The sing-box `hysteria2` outbound for a parsed `hysteria2://` or
/// `hy2://` link, or why there is none.
pub open spec fn hysteria2_spec(u: UrlV) -> Result<JsonV, ErrV> {
    if u.scheme != "hysteria2"@ && u.scheme != "hy2"@ {
        Err(ErrV::UnsupportedProtocol(u.scheme))
    } else if u.username.len() == 0 {
        Err(ErrV::Parse("hysteria2 link missing password"@))
    } else if u.host is None {
        Err(ErrV::Parse("share link missing host"@))
    } else if u.port is None {
        Err(ErrV::Parse("share link missing port"@))
    } else {
        Ok(JsonV::Object(hysteria2_entries(u)))
    }
}

/// The sing-box `hysteria2` outbound for a parsed
/// `hysteria2://<password>@<host>:<port>?<params>#<name>` (or `hy2://`)
/// link: `obfs`/`obfs-password`, `sni`, `insecure=1`.
pub fn hysteria2_outbound(u: &UrlParts) -> (r: Result<Json, WispError>)
    ensures
        json_result_view(r) == hysteria2_spec(u@),
{
    if !str_eq(u.scheme.as_str(), "hysteria2") && !str_eq(u.scheme.as_str(), "hy2") {
        return Err(WispError::UnsupportedProtocol(u.scheme.clone()));
    }
    if u.username.as_str().is_empty() {
        return Err(WispError::Parse("hysteria2 link missing password".to_string()));
    }
    let host = match &u.host {
        Some(h) => h,
        None => {
            return Err(WispError::Parse("share link missing host".to_string()));
        },
    };
    let port = match u.port {
        Some(p) => p,
        None => {
            return Err(WispError::Parse("share link missing port".to_string()));
        },
    };
    let ghost uv = u@;
    let ghost q = uv.query;
    let mut es: Vec<(String, Json)> = Vec::new();
    push_entry(&mut es, "type", Json::from_str("hysteria2"));
    push_entry(&mut es, "tag", Json::String(link_name(&u.fragment)));
    push_entry(&mut es, "server", Json::String(host.clone()));
    push_entry(&mut es, "server_port", number(port as u64));
    push_entry(&mut es, "password", Json::String(u.username.clone()));
    let ghost e0 = entries_view(es@);
    let obfs_password = match param_of(&u.query, "obfs-password") {
        Some(p) => Some(p),
        None => param_of(&u.query, "obfs_password"),
    };
    match obfs_password {
        Some(op) => {
            let obfs_type: &str = match param_of(&u.query, "obfs") {
                Some(t) => t.as_str(),
                None => "salamander",
            };
            let mut obfs: Vec<(String, Json)> = Vec::new();
            push_entry(&mut obfs, "type", Json::from_str(obfs_type));
            push_entry(&mut obfs, "password", Json::String(op.clone()));
            assert(entries_view(obfs@) =~= seq![
                ("type"@, jstr(
                    match param(q, "obfs"@) {
                        Some(t) => t,
                        None => "salamander"@,
                    },
                )),
                ("password"@, jstr(op@)),
            ]);
            push_entry(&mut es, "obfs", object(obfs));
        },
        None => {},
    }
    let ghost e1 = entries_view(es@);
    let mut tls: Vec<(String, Json)> = Vec::new();
    push_entry(&mut tls, "enabled", Json::Bool(true));
    push_opt_str(&mut tls, "server_name", param_of(&u.query, "sni"));
    let ghost t1 = entries_view(tls@);
    let insecure = match param_of(&u.query, "insecure") {
        Some(v) => str_eq(v.as_str(), "1"),
        None => false,
    };
    if insecure {
        push_entry(&mut tls, "insecure", Json::Bool(true));
    }
    proof {
        assert(entries_view(tls@) =~= seq![("enabled"@, JsonV::Bool(true))] + opt_str_entry(
            "server_name"@,
            param(q, "sni"@),
        ) + if param(q, "insecure"@) == Some("1"@) {
            seq![("insecure"@, JsonV::Bool(true))]
        } else {
            Seq::<(Seq<char>, JsonV)>::empty()
        });
    }
    push_entry(&mut es, "tls", object(tls));
    proof {
        assert(e0 =~= seq![
            ("type"@, jstr("hysteria2"@)),
            ("tag"@, jstr(link_name_spec(uv.fragment))),
            ("server"@, jstr(uv.host->0)),
            ("server_port"@, JsonV::Number(decimal(uv.port->0 as nat))),
            ("password"@, jstr(uv.username)),
        ]);
        let obfs_part: Entries = match obfs_password_spec(q) {
            Some(op) => seq![
                ("obfs"@, JsonV::Object(
                    seq![
                        ("type"@, jstr(
                            match param(q, "obfs"@) {
                                Some(t) => t,
                                None => "salamander"@,
                            },
                        )),
                        ("password"@, jstr(op)),
                    ],
                )),
            ],
            None => Seq::empty(),
        };
        assert(e1 =~= e0 + obfs_part);
        assert(entries_view(es@) =~= hysteria2_entries(uv));
    }
    Ok(object(es))
}

/// The outbound for a `vless://` link.
pub open spec fn vless_link_spec(link: Seq<char>) -> Result<JsonV, ErrV> {
    match url_parse(link) {
        Ok(u) => vless_spec(u),
        Err(m) => Err(ErrV::Url(m)),
    }
}

/// Parse a `vless://<uuid>@<host>:<port>?<params>#<name>` share link into a
/// sing-box `vless` outbound.
pub fn parse_vless_link(link: &str) -> (r: Result<Json, WispError>)
    ensures
        json_result_view(r) == vless_link_spec(link@),
{
    match parse_url(link) {
        Ok(u) => vless_outbound(&u),
        Err(m) => Err(WispError::Url(m)),
    }
}

/// The outbound for a `hysteria2://` or `hy2://` link.
pub open spec fn hysteria2_link_spec(link: Seq<char>) -> Result<JsonV, ErrV> {
    match url_parse(link) {
        Ok(u) => hysteria2_spec(u),
        Err(m) => Err(ErrV::Url(m)),
    }
}

/// Parse a `hysteria2://<password>@<host>:<port>?<params>#<name>` (or
/// `hy2://`) share link into a sing-box `hysteria2` outbound.
pub fn parse_hysteria2_link(link: &str) -> (r: Result<Json, WispError>)
    ensures
        json_result_view(r) == hysteria2_link_spec(link@),
{
    match parse_url(link) {
        Ok(u) => hysteria2_outbound(&u),
        Err(m) => Err(WispError::Url(m)),
    }
}

/// The text before the first `"://"` of a line (all of it if there is
/// none).
pub open spec fn scheme_text(line: Seq<char>) -> Seq<char> {
    let i = find_sub_from(line, "://"@, 0);
    if i >= 0 {
        line.take(i)
    } else {
        line
    }
}

/// The outbound one non-empty, trimmed share-link line describes, chosen by
/// its scheme prefix.
pub open spec fn link_outbound_spec(line: Seq<char>) -> Result<JsonV, ErrV> {
    if starts_with(line, "vless://"@) {
        vless_link_spec(line)
    } else if starts_with(line, "hysteria2://"@) || starts_with(line, "hy2://"@) {
        hysteria2_link_spec(line)
    } else {
        Err(ErrV::UnsupportedProtocol(scheme_text(line)))
    }
}

/// The outbounds of a list of lines, in order: blank lines skipped, the
/// first failing line's error otherwise.
pub open spec fn links_spec(lines: Seq<Seq<char>>) -> Result<Seq<JsonV>, ErrV>
    decreases lines.len(),
{
    if lines.len() == 0 {
        Ok(Seq::empty())
    } else {
        match links_spec(lines.drop_last()) {
            Err(e) => Err(e),
            Ok(os) => {
                let l = trim_spec(lines.last());
                if l.len() == 0 {
                    Ok(os)
                } else {
                    match link_outbound_spec(l) {
                        Err(e) => Err(e),
                        Ok(o) => Ok(os.push(o)),
                    }
                }
            },
        }
    }
}

/// The profile name for imported links: the first outbound's tag, or
/// `"Imported"`.
pub open spec fn links_name(outs: Seq<JsonV>) -> Seq<char> {
    match outs[0].str_at("tag"@) {
        Some(t) => if t.len() > 0 {
            t
        } else {
            "Imported"@
        },
        None => "Imported"@,
    }
}

/// The profile for share-link text: one outbound per non-blank line.
/// (`str::lines` also drops a final empty line and a `\r` before each line
/// break; both vanish in the trimming and blank-line skipping anyway.)
pub open spec fn import_links_spec(t: Seq<char>) -> Result<ProfileV, ErrV> {
    match links_spec(split_on(t, '\n')) {
        Err(e) => Err(e),
        Ok(outs) => if outs.len() == 0 {
            Err(ErrV::Parse("no share links found"@))
        } else {
            Ok(fresh_profile(links_name(outs), outs))
        },
    }
}

/// The view of a profile result.
pub open spec fn profile_result_view(r: Result<Profile, WispError>) -> Result<ProfileV, ErrV> {
    match r {
        Ok(p) => Ok(p@),
        Err(e) => Err(e@),
    }
}

fn link_outbound(l: &Vec<char>) -> (r: Result<Json, WispError>)
    ensures
        json_result_view(r) == link_outbound_spec(l@),
{
    if has_prefix(l, "vless://") {
        let s = string_of(l);
        parse_vless_link(s.as_str())
    } else if has_prefix(l, "hysteria2://") || has_prefix(l, "hy2://") {
        let s = string_of(l);
        parse_hysteria2_link(s.as_str())
    } else {
        let sep = chars_of("://");
        let scheme = match index_of_sub(l, &sep) {
            Some(i) => slice_chars(l, 0, i),
            None => slice_chars(l, 0, l.len()),
        };
        proof {
            assert(l@.take(l@.len() as int) =~= l@);
        }
        Err(WispError::UnsupportedProtocol(string_of(&scheme)))
    }
}

/// Import a profile from one or more share links, one per line.
pub fn import_links(t: &Vec<char>) -> (r: Result<Profile, WispError>)
    ensures
        profile_result_view(r) == import_links_spec(t@),
{
    let lines = split_chars(t, '\n');
    let ghost lv = lines_view(lines@);
    let mut outbounds: Vec<Json> = Vec::new();
    let mut i: usize = 0;
    assert(lv.take(0) =~= Seq::<Seq<char>>::empty());
    assert(outs_view(outbounds@) =~= Seq::<JsonV>::empty());
    while i < lines.len()
        invariant
            i <= lines.len(),
            lv == lines_view(lines@),
            lv == split_on(t@, '\n'),
            links_spec(lv.take(i as int)) == Ok::<Seq<JsonV>, ErrV>(outs_view(outbounds@)),
        decreases lines.len() - i,
    {
        assert(lv.take(i + 1).drop_last() =~= lv.take(i as int));
        let line = trim_chars(&lines[i]);
        if line.len() > 0 {
            match link_outbound(&line) {
                Ok(o) => {
                    let ghost before = outbounds@;
                    outbounds.push(o);
                    assert(outs_view(outbounds@) =~= outs_view(before).push(o@));
                },
                Err(e) => {
                    proof {
                        assert(links_spec(lv.take(i + 1)) == Err::<Seq<JsonV>, ErrV>(e@));
                        lemma_links_error(lv, lv.len() as int, i as int);
                        assert(lv.take(lv.len() as int) =~= lv);
                        assert(links_spec(lv) == Err::<Seq<JsonV>, ErrV>(e@));
                    }
                    return Err(e);
                },
            }
        }
        i += 1;
    }
    assert(lv.take(lines.len() as int) =~= lv);
    if outbounds.len() == 0 {
        return Err(WispError::Parse("no share links found".to_string()));
    }
    let name = match outbounds[0].str_at("tag") {
        Some(t) => if t.is_empty() {
            "Imported".to_string()
        } else {
            t.to_string()
        },
        None => "Imported".to_string(),
    };
    Ok(Profile::fresh(name, outbounds))
}

/// Once the lines up to `i` fail, so does every longer prefix.
proof fn lemma_links_error(lv: Seq<Seq<char>>, n: int, i: int)
    requires
        0 <= i < n <= lv.len(),
        links_spec(lv.take(i + 1)) is Err,
    ensures
        links_spec(lv.take(n)) == links_spec(lv.take(i + 1)),
    decreases n - i,
{
    if n > i + 1 {
        lemma_links_error(lv, n - 1, i);
        assert(lv.take(n).drop_last() =~= lv.take(n - 1));
    }
}

/// Whether an outbound has one of the types the importer keeps: `vless`,
/// `hysteria2`, `trojan`, `shadowsocks`, `vmess`.
pub open spec fn is_supported_type(o: JsonV) -> bool {
    match o.str_at("type"@) {
        Some(t) => t == "vless"@ || t == "hysteria2"@ || t == "trojan"@ || t == "shadowsocks"@ || t
            == "vmess"@,
        None => false,
    }
}

/// The outbounds of `s` with a supported type, in order.
pub open spec fn keep_supported(s: Seq<JsonV>) -> Seq<JsonV>
    decreases s.len(),
{
    if s.len() == 0 {
        Seq::empty()
    } else {
        let r = keep_supported(s.drop_last());
        if is_supported_type(s.last()) {
            r.push(s.last())
        } else {
            r
        }
    }
}

/// The outbound list of a parsed JSON document: the `"outbounds"` array of
/// an object, or a bare array.
pub open spec fn raw_outbounds_spec(v: JsonV) -> Result<Seq<JsonV>, ErrV> {
    match v {
        JsonV::Object(es) => match entries_get(es, "outbounds"@) {
            Some(JsonV::Array(a)) => Ok(a),
            _ => Err(ErrV::Parse("expected an \"outbounds\" array"@)),
        },
        JsonV::Array(a) => Ok(a),
        _ => Err(ErrV::Parse("expected a JSON object or array"@)),
    }
}

/// The profile name for imported JSON: the first outbound's tag without its
/// counter suffix, or `"Imported"`.
pub open spec fn json_name(outs: Seq<JsonV>) -> Seq<char> {
    match outs[0].str_at("tag"@) {
        Some(t) => if strip_counter_suffix_spec(t).len() > 0 {
            strip_counter_suffix_spec(t)
        } else {
            "Imported"@
        },
        None => "Imported"@,
    }
}

/// The profile for a parsed sing-box JSON document: its supported
/// outbounds, verbatim and in order.
pub open spec fn import_value_spec(v: JsonV) -> Result<ProfileV, ErrV> {
    match raw_outbounds_spec(v) {
        Err(e) => Err(e),
        Ok(raw) => {
            let outs = keep_supported(raw);
            if outs.len() == 0 {
                Err(
                    ErrV::Parse(
                        "no supported outbounds (vless/hysteria2/trojan/shadowsocks/vmess) found"@,
                    ),
                )
            } else {
                Ok(fresh_profile(json_name(outs), outs))
            }
        },
    }
}

fn supported_type(o: &Json) -> (r: bool)
    ensures
        r == is_supported_type(o@),
{
    match o.str_at("type") {
        Some(t) => str_eq(t, "vless") || str_eq(t, "hysteria2") || str_eq(t, "trojan") || str_eq(
            t,
            "shadowsocks",
        ) || str_eq(t, "vmess"),
        None => false,
    }
}

fn keep_supported_outbounds(a: &Vec<Json>) -> (r: Vec<Json>)
    ensures
        outs_view(r@) == keep_supported(items_view(a@)),
{
    let ghost av = items_view(a@);
    let mut out: Vec<Json> = Vec::new();
    let mut i: usize = 0;
    assert(av.take(0) =~= Seq::<JsonV>::empty());
    assert(outs_view(out@) =~= Seq::<JsonV>::empty());
    while i < a.len()
        invariant
            i <= a.len(),
            av == items_view(a@),
            outs_view(out@) == keep_supported(av.take(i as int)),
        decreases a.len() - i,
    {
        assert(av.take(i + 1).drop_last() =~= av.take(i as int));
        if supported_type(&a[i]) {
            let ghost before = out@;
            out.push(a[i].deep_clone());
            assert(outs_view(out@) =~= outs_view(before).push(av[i as int]));
        }
        i += 1;
    }
    assert(av.take(a.len() as int) =~= av);
    out
}

/// Import a profile from a parsed sing-box JSON document: an object with an
/// `"outbounds"` array, or a bare array of outbounds. Only outbounds of a
/// supported type are kept.
pub fn import_value(value: &Json) -> (r: Result<Profile, WispError>)
    ensures
        profile_result_view(r) == import_value_spec(value@),
{
    let outbounds = match value {
        Json::Object(es) => {
            proof {
                lemma_object_view(*es);
            }
            match find_key(es, "outbounds") {
                Some(i) => match &es[i].1 {
                    Json::Array(a) => {
                        proof {
                            lemma_array_view(*a);
                        }
                        keep_supported_outbounds(a)
                    },
                    _ => {
                        return Err(
                            WispError::Parse("expected an \"outbounds\" array".to_string()),
                        );
                    },
                },
                None => {
                    return Err(WispError::Parse("expected an \"outbounds\" array".to_string()));
                },
            }
        },
        Json::Array(a) => {
            proof {
                lemma_array_view(*a);
            }
            keep_supported_outbounds(a)
        },
        _ => {
            return Err(WispError::Parse("expected a JSON object or array".to_string()));
        },
    };
    if outbounds.len() == 0 {
        return Err(
            WispError::Parse(
                "no supported outbounds (vless/hysteria2/trojan/shadowsocks/vmess) found".to_string(),
            ),
        );
    }
    let name = match outbounds[0].str_at("tag") {
        Some(t) => {
            let n = strip_counter_suffix(t);
            if n.as_str().is_empty() {
                "Imported".to_string()
            } else {
                n
            }
        },
        None => "Imported".to_string(),
    };
    Ok(Profile::fresh(name, outbounds))
}

/// The profile `import` makes of a text.
pub open spec fn import_spec(text: Seq<char>) -> Result<ProfileV, ErrV> {
    let t = trim_spec(trim_bom_spec(text));
    if t.len() == 0 {
        Err(ErrV::Parse("input is empty"@))
    } else if t[0] == '{' || t[0] == '[' {
        match serde_json_parse(t) {
            Err(m) => Err(ErrV::Json(m)),
            Ok(v) => import_value_spec(v),
        }
    } else {
        import_links_spec(t)
    }
}

/// Import a `Profile` from text that is either:
/// - a sing-box `{"outbounds": [...]}` object,
/// - a bare `[...]` array of outbounds, or
/// - one or more `vless://` / `hysteria2://` (or `hy2://`) share links,
///   one per line.
pub fn import(text: &str) -> (r: Result<Profile, WispError>)
    ensures
        profile_result_view(r) == import_spec(text@),
{
    let all = chars_of(text);
    let unbommed = trim_bom(&all);
    let t = trim_chars(&unbommed);
    if t.len() == 0 {
        return Err(WispError::Parse("input is empty".to_string()));
    }
    if t[0] == '{' || t[0] == '[' {
        let s = string_of(&t);
        match parse_json(s.as_str()) {
            Ok(v) => import_value(&v),
            Err(m) => Err(WispError::Json(m)),
        }
    } else {
        import_links(&t)
    }
}

/// Every outbound `keep_supported` keeps has a supported type.
proof fn lemma_keep_supported(s: Seq<JsonV>)
    ensures
        forall|i: int|
            0 <= i < keep_supported(s).len() ==> is_supported_type(#[trigger] keep_supported(s)[i]),
    decreases s.len(),
{
    if s.len() > 0 {
        lemma_keep_supported(s.drop_last());
        let r = keep_supported(s.drop_last());
        if is_supported_type(s.last()) {
            assert forall|i: int| 0 <= i < r.len() + 1 implies is_supported_type(
                #[trigger] r.push(s.last())[i],
            ) by {
                if i < r.len() {
                    assert(r.push(s.last())[i] == r[i]);
                }
            }
        }
    }
}

/// An outbound a share link describes has type `vless` or `hysteria2`.
proof fn lemma_link_outbound_supported(line: Seq<char>)
    requires
        link_outbound_spec(line) is Ok,
    ensures
        is_supported_type(link_outbound_spec(line)->Ok_0),
{
    if starts_with(line, "vless://"@) {
        let u = url_parse(line)->Ok_0;
        let es = vless_entries(u);
        assert(es[0] == ("type"@, jstr("vless"@)));
        assert(key_index(es, "type"@) == 0);
    } else {
        let u = url_parse(line)->Ok_0;
        let es = hysteria2_entries(u);
        assert(es[0] == ("type"@, jstr("hysteria2"@)));
        assert(key_index(es, "type"@) == 0);
    }
}

/// Every outbound the share-link lines describe has a supported type.
proof fn lemma_links_supported(lines: Seq<Seq<char>>)
    requires
        links_spec(lines) is Ok,
    ensures
        forall|i: int|
            0 <= i < links_spec(lines)->Ok_0.len() ==> is_supported_type(
                #[trigger] links_spec(lines)->Ok_0[i],
            ),
    decreases lines.len(),
{
    if lines.len() > 0 {
        lemma_links_supported(lines.drop_last());
        let l = trim_spec(lines.last());
        if l.len() > 0 {
            lemma_link_outbound_supported(l);
        }
    }
}

/// What a successful import gives, whatever the input format: at least one
/// outbound, each of a supported type (`vless`, `hysteria2`, `trojan`,
/// `shadowsocks`, `vmess`); the first outbound's tag as the active tag; and
/// an id that is the slug of the profile's name.
pub proof fn lemma_import_shape(text: Seq<char>)
    requires
        import_spec(text) is Ok,
    ensures
        ({
            let p = import_spec(text)->Ok_0;
            &&& p.outbounds.len() > 0
            &&& forall|i: int|
                0 <= i < p.outbounds.len() ==> is_supported_type(#[trigger] p.outbounds[i])
            &&& p.active_tag == crate::profile::tag_spec(p.outbounds[0])
            &&& p.id == crate::profile::slugify_spec(p.name)
        }),
{
    let t = trim_spec(trim_bom_spec(text));
    if t[0] == '{' || t[0] == '[' {
        let v = serde_json_parse(t)->Ok_0;
        lemma_keep_supported(raw_outbounds_spec(v)->Ok_0);
    } else {
        lemma_links_supported(split_on(t, '\n'));
    }
}

/// The lowercase hex digit (`0`-`9`, `a`-`f`) for `d < 16`, as a byte.
pub open spec fn hex_lower(d: u8) -> u8 {
    if d < 10 {
        (0x30 + d) as u8
    } else {
        (0x61 + (d - 10)) as u8
    }
}

/// The uppercase hex digit (`0`-`9`, `A`-`F`) for `d < 16`, as a byte.
pub open spec fn hex_upper(d: u8) -> u8 {
    if d < 10 {
        (0x30 + d) as u8
    } else {
        (0x41 + (d - 10)) as u8
    }
}

/// Percent-escapes decode without regard to the case of their hex digits:
/// for every byte `b`, `%` followed by the two hex digits of `b` (high,
/// then low), in lowercase or in uppercase, decodes to `b`, and decoding
/// goes on after the escape.
pub proof fn lemma_pct_hex_case(b: u8, rest: Seq<u8>)
    ensures
        pct_decode(seq![0x25u8, hex_lower(b / 16), hex_lower(b % 16)] + rest) == seq![b]
            + pct_decode(rest),
        pct_decode(seq![0x25u8, hex_upper(b / 16), hex_upper(b % 16)] + rest) == seq![b]
            + pct_decode(rest),
{
    let h = b / 16;
    let l = b % 16;
    assert(b == h * 16 + l);
    assert(hex_val(hex_lower(h)) == Some(h));
    assert(hex_val(hex_lower(l)) == Some(l));
    assert(hex_val(hex_upper(h)) == Some(h));
    assert(hex_val(hex_upper(l)) == Some(l));
    let a = seq![0x25u8, hex_lower(h), hex_lower(l)] + rest;
    assert(a[0] == 0x25u8 && a[1] == hex_lower(h) && a[2] == hex_lower(l));
    assert(a.skip(3) =~= rest);
    let c = seq![0x25u8, hex_upper(h), hex_upper(l)] + rest;
    assert(c[0] == 0x25u8 && c[1] == hex_upper(h) && c[2] == hex_upper(l));
    assert(c.skip(3) =~= rest);
}

/// The value found under `k` is the one of its first entry.
proof fn lemma_get_at(es: Entries, k: Seq<char>, i: int)
    requires
        0 <= i < es.len(),
        es[i].0 == k,
        forall|j: int| 0 <= j < i ==> #[trigger] es[j].0 != k,
    ensures
        entries_get(es, k) == Some(es[i].1),
{
    crate::json::lemma_key_index(es, k);
    let t = key_index(es, k);
    if t < i {
        assert(es[t].0 == k);
    }
}

/// No value is found under a key no entry has.
proof fn lemma_get_absent(es: Entries, k: Seq<char>)
    requires
        forall|j: int| 0 <= j < es.len() ==> #[trigger] es[j].0 != k,
    ensures
        entries_get(es, k) is None,
{
    crate::json::lemma_key_index(es, k);
}

/// A hysteria2 link turns certificate checking off exactly when its
/// `insecure` query parameter is `1`: the outbound's `tls` object is
/// enabled, and holds `insecure: true` for `insecure=1` and no `insecure`
/// key for any other value or none.
pub proof fn lemma_hysteria2_insecure(u: UrlV)
    requires
        hysteria2_spec(u) is Ok,
    ensures
        ({
            let o = hysteria2_spec(u)->Ok_0;
            &&& o.get("tls"@) matches Some(tls)
            &&& tls.get("enabled"@) == Some(JsonV::Bool(true))
            &&& tls.get("insecure"@) == (if param(u.query, "insecure"@) == Some("1"@) {
                Some(JsonV::Bool(true))
            } else {
                None
            })
        }),
{
    reveal_strlit("type");
    reveal_strlit("tag");
    reveal_strlit("server");
    reveal_strlit("server_port");
    reveal_strlit("password");
    reveal_strlit("obfs");
    reveal_strlit("tls");
    reveal_strlit("enabled");
    reveal_strlit("server_name");
    reveal_strlit("insecure");
    let q = u.query;
    let es = hysteria2_entries(u);
    let i = es.len() - 1;
    assert("tag"@[1] == 'a' && "tls"@[1] == 'l');
    assert(es[i].0 == "tls"@);
    assert forall|j: int| 0 <= j < i implies #[trigger] es[j].0 != "tls"@ by {
        assert(es[j].0 == "type"@ || es[j].0 == "tag"@ || es[j].0 == "server"@ || es[j].0
            == "server_port"@ || es[j].0 == "password"@ || es[j].0 == "obfs"@);
    }
    lemma_get_at(es, "tls"@, i);
    let tls = es[i].1;
    let ts = tls->Object_0;
    assert(ts[0] == ("enabled"@, JsonV::Bool(true)));
    lemma_get_at(ts, "enabled"@, 0);
    if param(q, "insecure"@) == Some("1"@) {
        let k = ts.len() - 1;
        assert(ts[k] == ("insecure"@, JsonV::Bool(true)));
        assert forall|j: int| 0 <= j < k implies #[trigger] ts[j].0 != "insecure"@ by {
            assert(ts[j].0 == "enabled"@ || ts[j].0 == "server_name"@);
        }
        lemma_get_at(ts, "insecure"@, k);
    } else {
        assert forall|j: int| 0 <= j < ts.len() implies #[trigger] ts[j].0 != "insecure"@ by {
            assert(ts[j].0 == "enabled"@ || ts[j].0 == "server_name"@);
        }
        lemma_get_absent(ts, "insecure"@);
    }
}

/// A vless link with `security` `tls` or `reality` and an `fp` parameter
/// asks for that uTLS fingerprint, whichever of the two it is: the
/// outbound's `tls` object holds `utls: {enabled: true, fingerprint: fp}`.
pub proof fn lemma_vless_fingerprint(u: UrlV, fp: Seq<char>)
    requires
        vless_spec(u) is Ok,
        param(u.query, "security"@) == Some("tls"@) || param(u.query, "security"@) == Some(
            "reality"@,
        ),
        param(u.query, "fp"@) == Some(fp),
    ensures
        ({
            let o = vless_spec(u)->Ok_0;
            &&& o.get("tls"@) matches Some(tls)
            &&& tls.get("utls"@) == Some(
                JsonV::Object(seq![("enabled"@, JsonV::Bool(true)), ("fingerprint"@, jstr(fp))]),
            )
        }),
{
    reveal_strlit("type");
    reveal_strlit("tag");
    reveal_strlit("server");
    reveal_strlit("server_port");
    reveal_strlit("uuid");
    reveal_strlit("flow");
    reveal_strlit("tls");
    reveal_strlit("enabled");
    reveal_strlit("server_name");
    reveal_strlit("utls");
    let q = u.query;
    let es = vless_entries(u);
    assert(param_or_empty(q, "security"@) == "tls"@ || param_or_empty(q, "security"@)
        == "reality"@);
    let flow_n: int = match param(q, "flow"@) {
        Some(f) => if f.len() > 0 {
            1
        } else {
            0
        },
        None => 0,
    };
    let i = 5 + flow_n;
    assert("tag"@[1] == 'a' && "tls"@[1] == 'l');
    assert(es[i] == ("tls"@, vless_tls_spec(q)));
    assert forall|j: int| 0 <= j < i implies #[trigger] es[j].0 != "tls"@ by {
        assert(es[j].0 == "type"@ || es[j].0 == "tag"@ || es[j].0 == "server"@ || es[j].0
            == "server_port"@ || es[j].0 == "uuid"@ || es[j].0 == "flow"@);
    }
    lemma_get_at(es, "tls"@, i);
    let ts = vless_tls_spec(q)->Object_0;
    let k: int = if param(q, "sni"@) is Some {
        2
    } else {
        1
    };
    assert(ts[k] == ("utls"@, JsonV::Object(
        seq![("enabled"@, JsonV::Bool(true)), ("fingerprint"@, jstr(fp))],
    )));
    assert forall|j: int| 0 <= j < k implies #[trigger] ts[j].0 != "utls"@ by {
        assert(ts[j].0 == "enabled"@ || ts[j].0 == "server_name"@);
    }
    lemma_get_at(ts, "utls"@, k);
}

} // verus!
