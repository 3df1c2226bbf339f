//! What the Clash API client sends: the endpoint URLs of a running
//! sing-box, whether a request carries a bearer token, and the body that
//! switches a selector. The HTTP exchange itself is done by the app.

use vstd::prelude::*;
use crate::json::{Json, JsonV, jstr, object, push_entry, entries_view};
use crate::text::{decimal, decimal_chars, push_str, string_of};

verus! {

/// The URL of `path` on the Clash API listening on `127.0.0.1:<port>`.
pub open spec fn api_url_spec(port: u16, path: Seq<char>) -> Seq<char> {
    "http://127.0.0.1:"@ + decimal(port as nat) + path
}

/// `http://127.0.0.1:<port>` followed by `path` (which starts with `/`).
pub fn api_url(port: u16, path: &str) -> (r: String)
    ensures
        r@ == api_url_spec(port, path@),
{
    let mut out: Vec<char> = Vec::new();
    push_str(&mut out, "http://127.0.0.1:");
    let digits = decimal_chars(port as u64);
    crate::text::push_all(&mut out, &digits);
    push_str(&mut out, path);
    string_of(&out)
}

/// The bearer token a request carries: the secret, unless it is empty
/// (sing-box only requires the `Authorization` header when a secret is
/// configured).
pub fn auth_token(secret: &str) -> (r: Option<&str>)
    ensures
        secret@.len() == 0 ==> r is None,
        secret@.len() > 0 ==> r == Some(secret),
{
    if secret.is_empty() {
        None
    } else {
        Some(secret)
    }
}

/// The body of `PUT /proxies/<selector>` that makes `name` the selected
/// outbound: `{"name": <name>}`.
pub fn switch_body(name: &str) -> (r: Json)
    ensures
        r@ == JsonV::Object(seq![("name"@, jstr(name@))]),
{
    let mut es: Vec<(String, Json)> = Vec::new();
    push_entry(&mut es, "name", Json::from_str(name));
    assert(entries_view(es@) =~= seq![("name"@, jstr(name@))]);
    object(es)
}

} // verus!
