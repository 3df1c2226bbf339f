//! The parts of a share-link URL that the importers read, as plain values,
//! and the call into the `url` crate that produces them.

use vstd::prelude::*;
use crate::text::str_eq;

verus! {

/// The components of a parsed URL.
#[derive(Debug)]
pub struct UrlParts {
    /// The scheme, e.g. `vless`.
    pub scheme: String,
    /// The user-info name part, still percent-encoded.
    pub username: String,
    /// The host, if the URL has one.
    pub host: Option<String>,
    /// The explicit port (absent when it is the scheme's default).
    pub port: Option<u16>,
    /// The query's `key=value` pairs, decoded as
    /// `application/x-www-form-urlencoded`, in order.
    pub query: Vec<(String, String)>,
    /// The fragment after `#`, still percent-encoded.
    pub fragment: Option<String>,
}

pub type Pairs = Seq<(Seq<char>, Seq<char>)>;

/// The view of [`UrlParts`].
pub struct UrlV {
    pub scheme: Seq<char>,
    pub username: Seq<char>,
    pub host: Option<Seq<char>>,
    pub port: Option<u16>,
    pub query: Pairs,
    pub fragment: Option<Seq<char>>,
}

pub open spec fn opt_str_view(o: Option<String>) -> Option<Seq<char>> {
    match o {
        Some(s) => Some(s@),
        None => None,
    }
}

pub open spec fn pairs_view(q: Seq<(String, String)>) -> Pairs {
    Seq::new(q.len(), |i: int| (q[i].0@, q[i].1@))
}

impl View for UrlParts {
    type V = UrlV;

    open spec fn view(&self) -> UrlV {
        UrlV {
            scheme: self.scheme@,
            username: self.username@,
            host: opt_str_view(self.host),
            port: self.port,
            query: pairs_view(self.query@),
            fragment: opt_str_view(self.fragment),
        }
    }
}

/// What `url::Url::parse` makes of a link, read through `scheme`,
/// `username`, `host_str`, `port`, `query_pairs` and `fragment`; or the
/// display text of its `ParseError`.
pub uninterp spec fn url_parse(link: Seq<char>) -> Result<UrlV, Seq<char>>;

/// Parses `link` with `url::Url::parse` and reads out its parts. The
/// contract claims only that the outcome is the one named by
/// [`url_parse`] for this link; how the `url` crate splits a link is not
/// stated.
#[verifier::external_body]
pub(crate) fn parse_url(link: &str) -> (r: Result<UrlParts, String>)
    ensures
        match r {
            Ok(u) => url_parse(link@) == Ok::<UrlV, Seq<char>>(u@),
            Err(m) => url_parse(link@) == Err::<UrlV, Seq<char>>(m@),
        },
{
    match url::Url::parse(link) {
        Ok(u) => Ok(UrlParts {
            scheme: u.scheme().to_string(),
            username: u.username().to_string(),
            host: u.host_str().map(|h| h.to_string()),
            port: u.port(),
            query: u.query_pairs().into_owned().collect(),
            fragment: u.fragment().map(|f| f.to_string()),
        }),
        Err(e) => Err(e.to_string()),
    }
}

/// The value of query parameter `k`; when a key repeats, the last pair
/// wins (as when the pairs are collected into a map).
pub open spec fn param(q: Pairs, k: Seq<char>) -> Option<Seq<char>>
    decreases q.len(),
{
    if q.len() == 0 {
        None
    } else if q.last().0 == k {
        Some(q.last().1)
    } else {
        param(q.drop_last(), k)
    }
}

/// The value of query parameter `k`, the last one when it repeats.
pub fn param_of<'a>(q: &'a Vec<(String, String)>, k: &str) -> (r: Option<&'a String>)
    ensures
        match r {
            Some(v) => param(pairs_view(q@), k@) == Some(v@),
            None => param(pairs_view(q@), k@) is None,
        },
{
    let ghost pv = pairs_view(q@);
    let mut i: usize = q.len();
    assert(pv.take(i as int) =~= pv);
    while i > 0
        invariant
            i <= q.len(),
            pv == pairs_view(q@),
            param(pv, k@) == param(pv.take(i as int), k@),
        decreases i,
    {
        assert(pv.take(i as int).drop_last() =~= pv.take(i - 1));
        if str_eq(q[i - 1].0.as_str(), k) {
            return Some(&q[i - 1].1);
        }
        i -= 1;
    }
    None
}

} // verus!
