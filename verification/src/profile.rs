//! The `Profile` data model: a named connection made up of one or more
//! sing-box outbounds, and the slug/identifier rules for it.

use vstd::prelude::*;
use vstd::set_lib::{set_int_range, lemma_int_range, lemma_map_size, lemma_len_subset};
use crate::json::{Json, JsonV};
use crate::text::{
    is_ascii_alnum, ascii_lower, to_ascii_lower, ascii_alnum, decimal, decimal_chars, chars_of,
    string_of, push_all, push_str, chars_eq, digit_char,
};

verus! {

/// A user-visible connection profile. Each outbound is stored verbatim as
/// sing-box JSON.
#[derive(Debug)]
pub struct Profile {
    pub id: String,
    pub name: String,
    pub outbounds: Vec<Json>,
    pub active_tag: Option<String>,
}

/// The view of a [`Profile`].
pub struct ProfileV {
    pub id: Seq<char>,
    pub name: Seq<char>,
    pub outbounds: Seq<JsonV>,
    pub active_tag: Option<Seq<char>>,
}

impl View for Profile {
    type V = ProfileV;

    open spec fn view(&self) -> ProfileV {
        ProfileV {
            id: self.id@,
            name: self.name@,
            outbounds: outs_view(self.outbounds@),
            active_tag: opt_view(self.active_tag),
        }
    }
}

/// The profile [`Profile::new`] makes from `name` and `outs` when no other
/// profile exists: its id is the slug of the name, its active tag the first
/// outbound's tag.
pub open spec fn fresh_profile(name: Seq<char>, outs: Seq<JsonV>) -> ProfileV {
    ProfileV {
        id: slugify_spec(name),
        name,
        outbounds: outs,
        active_tag: if outs.len() > 0 {
            tag_spec(outs[0])
        } else {
            None
        },
    }
}

/// The `"tag"` string of an outbound, if it has one.
pub open spec fn tag_spec(o: JsonV) -> Option<Seq<char>> {
    o.str_at("tag"@)
}

/// The tags of `outs`, in order, skipping outbounds without a string tag.
pub open spec fn tags_spec(outs: Seq<JsonV>) -> Seq<Seq<char>>
    decreases outs.len(),
{
    if outs.len() == 0 {
        Seq::empty()
    } else {
        let rest = tags_spec(outs.drop_last());
        match tag_spec(outs.last()) {
            Some(t) => rest.push(t),
            None => rest,
        }
    }
}

/// The views of a list of outbounds.
pub open spec fn outs_view(v: Seq<Json>) -> Seq<JsonV> {
    v.map_values(|j: Json| j@)
}

/// The view of an optional string.
pub open spec fn opt_view(o: Option<String>) -> Option<Seq<char>> {
    match o {
        Some(s) => Some(s@),
        None => None,
    }
}

/// The views of a list of strings.
pub open spec fn strings_view(v: Seq<String>) -> Seq<Seq<char>> {
    v.map_values(|s: String| s@)
}

/// The tag of an outbound.
pub fn tag_of(outbound: &Json) -> (r: Option<String>)
    ensures
        opt_view(r) == tag_spec(outbound@),
{
    match outbound.str_at("tag") {
        Some(s) => Some(s.to_string()),
        None => None,
    }
}

/// The tags of a list of outbounds, in order, skipping untagged ones.
pub fn tags_of(outbounds: &Vec<Json>) -> (r: Vec<String>)
    ensures
        strings_view(r@) == tags_spec(outs_view(outbounds@)),
{
    let ghost ov = outs_view(outbounds@);
    let mut r: Vec<String> = Vec::new();
    let mut i: usize = 0;
    while i < outbounds.len()
        invariant
            i <= outbounds.len(),
            ov == outs_view(outbounds@),
            strings_view(r@) == tags_spec(ov.take(i as int)),
        decreases outbounds.len() - i,
    {
        assert(ov.take(i + 1).drop_last() =~= ov.take(i as int));
        match tag_of(&outbounds[i]) {
            Some(t) => {
                r.push(t);
                assert(strings_view(r@) =~= tags_spec(ov.take(i + 1)));
            },
            None => {},
        }
        i += 1;
    }
    assert(ov.take(outbounds.len() as int) =~= ov);
    r
}

impl Profile {
    /// Build a new profile from a name and a set of outbounds. `id` is
    /// derived deterministically from a slug of `name`, with `existing_ids`
    /// used to disambiguate by appending a numeric suffix if the slug is
    /// already taken. The active tag is the first outbound's tag.
    pub fn new(name: String, outbounds: Vec<Json>, existing_ids: &[String]) -> (r: Profile)
        requires
            existing_ids@.len() < usize::MAX,
        ensures
            is_unique_id(slugify_spec(name@), strings_view(existing_ids@), r.id@),
            r.name == name,
            r.outbounds == outbounds,
            opt_view(r.active_tag) == (if outbounds@.len() > 0 {
                tag_spec(outbounds@[0]@)
            } else {
                None
            }),
    {
        let base = slugify(name.as_str());
        let id = unique_id(base.as_str(), existing_ids);
        let active_tag = if outbounds.len() > 0 {
            tag_of(&outbounds[0])
        } else {
            None
        };
        Profile { id, name, outbounds, active_tag }
    }

    /// A profile from `name` and `outbounds` with no other profile to
    /// avoid: its id is the slug of the name.
    pub fn fresh(name: String, outbounds: Vec<Json>) -> (r: Profile)
        ensures
            r@ == fresh_profile(name@, outs_view(outbounds@)),
    {
        let none: Vec<String> = Vec::new();
        let r = Profile::new(name, outbounds, none.as_slice());
        assert(!strings_view(none@).contains(slugify_spec(r.name@)));
        r
    }

    /// Every outbound's `"tag"` field, in order, skipping outbounds that
    /// have no tag.
    pub fn tags(&self) -> (r: Vec<String>)
        ensures
            strings_view(r@) == tags_spec(outs_view(self.outbounds@)),
    {
        tags_of(&self.outbounds)
    }
}

/// One step of the slug scan: the slug so far and whether it ends in a
/// dash that was just emitted.
pub open spec fn slug_step(acc: (Seq<char>, bool), c: char) -> (Seq<char>, bool) {
    if is_ascii_alnum(c) {
        (acc.0.push(ascii_lower(c)), false)
    } else if !acc.1 && acc.0.len() > 0 {
        (acc.0.push('-'), true)
    } else {
        acc
    }
}

/// The slug scan over all of `s`.
pub open spec fn slug_scan(s: Seq<char>) -> (Seq<char>, bool)
    decreases s.len(),
{
    if s.len() == 0 {
        (Seq::empty(), false)
    } else {
        slug_step(slug_scan(s.drop_last()), s.last())
    }
}

/// `s` without its trailing dashes.
pub open spec fn trim_dashes_end(s: Seq<char>) -> Seq<char>
    decreases s.len(),
{
    if s.len() > 0 && s.last() == '-' {
        trim_dashes_end(s.drop_last())
    } else {
        s
    }
}

/// Lowercase ASCII slug of `s`: each ASCII letter or digit lowercased, each
/// run of other characters between two of them collapsed to one `-`,
/// nothing before the first or after the last; `"profile"` if `s` has no
/// ASCII letter or digit.
pub open spec fn slugify_spec(s: Seq<char>) -> Seq<char> {
    let t = trim_dashes_end(slug_scan(s).0);
    if t.len() == 0 {
        "profile"@
    } else {
        t
    }
}

/// Lowercase, ASCII-only slug: non-alphanumeric runs collapse to a single
/// `-`, leading/trailing `-` trimmed. Falls back to `"profile"` if the
/// input has no alphanumeric characters.
pub fn slugify(name: &str) -> (r: String)
    ensures
        r@ == slugify_spec(name@),
{
    let cs = chars_of(name);
    let mut slug: Vec<char> = Vec::new();
    let mut last_was_dash = false;
    let mut i: usize = 0;
    while i < cs.len()
        invariant
            i <= cs.len(),
            cs@ == name@,
            (slug@, last_was_dash) == slug_scan(cs@.take(i as int)),
        decreases cs.len() - i,
    {
        assert(cs@.take(i + 1).drop_last() =~= cs@.take(i as int));
        let ch = cs[i];
        if ascii_alnum(ch) {
            slug.push(to_ascii_lower(ch));
            last_was_dash = false;
        } else if !last_was_dash && slug.len() > 0 {
            slug.push('-');
            last_was_dash = true;
        }
        i += 1;
    }
    assert(cs@.take(cs.len() as int) =~= cs@);
    while slug.len() > 0 && slug[slug.len() - 1] == '-'
        invariant
            trim_dashes_end(slug@) == trim_dashes_end(slug_scan(name@).0),
        decreases slug.len(),
    {
        let ghost before = slug@;
        slug.pop();
        assert(slug@ =~= before.drop_last());
    }
    if slug.len() == 0 {
        "profile".to_string()
    } else {
        string_of(&slug)
    }
}

/// The `k`-th candidate identifier for `base`: `"{base}-{k}"`.
pub open spec fn candidate(base: Seq<char>, k: int) -> Seq<char> {
    base + "-"@ + decimal(k as nat)
}

/// `id` is the identifier that disambiguates `base` against `existing`:
/// `base` itself when free, otherwise `"{base}-{k}"` for the least `k >= 1`
/// that is free.
pub open spec fn is_unique_id(base: Seq<char>, existing: Seq<Seq<char>>, id: Seq<char>) -> bool {
    &&& !existing.contains(id)
    &&& !existing.contains(base) ==> id == base
    &&& existing.contains(base) ==> exists|k: int|
        k >= 1 && id == candidate(base, k) && forall|j: int|
            1 <= j < k ==> existing.contains(#[trigger] candidate(base, j))
}

proof fn lemma_decimal_len(n: nat)
    ensures
        decimal(n).len() >= 1,
        n >= 10 ==> decimal(n).len() >= 2,
    decreases n,
{
    if n >= 10 {
        lemma_decimal_len(n / 10);
    }
}

/// Distinct numbers have distinct decimal representations.
pub proof fn lemma_decimal_injective(a: nat, b: nat)
    requires
        decimal(a) == decimal(b),
    ensures
        a == b,
    decreases a,
{
    lemma_decimal_len(a);
    lemma_decimal_len(b);
    if a < 10 && b < 10 {
        assert(decimal(a)[0] == digit_char(a));
        assert(decimal(b)[0] == digit_char(b));
    } else if a >= 10 && b >= 10 {
        assert(decimal(a).last() == digit_char(a % 10));
        assert(decimal(b).last() == digit_char(b % 10));
        assert(decimal(a).drop_last() =~= decimal(a / 10));
        assert(decimal(b).drop_last() =~= decimal(b / 10));
        lemma_decimal_injective(a / 10, b / 10);
    }
}

proof fn lemma_candidate_injective(base: Seq<char>, a: int, b: int)
    requires
        a >= 0,
        b >= 0,
        candidate(base, a) == candidate(base, b),
    ensures
        a == b,
{
    reveal_strlit("-");
    let n: int = base.len() + 1int;
    assert(candidate(base, a).skip(n) =~= decimal(a as nat));
    assert(candidate(base, b).skip(n) =~= decimal(b as nat));
    lemma_decimal_injective(a as nat, b as nat);
}

/// If `"{base}-1"` through `"{base}-{n}"` are all taken, `existing` has at
/// least `n` entries.
proof fn lemma_taken_candidates_bounded(base: Seq<char>, existing: Seq<Seq<char>>, n: int)
    requires
        n >= 0,
        forall|j: int| 1 <= j <= n ==> existing.contains(#[trigger] candidate(base, j)),
    ensures
        n <= existing.len(),
{
    let xs = set_int_range(1, n + 1);
    lemma_int_range(1, n + 1);
    let f = |j: int| candidate(base, j);
    let ys = xs.map(f);
    assert forall|a: int, b: int| xs.contains(a) && xs.contains(b) && #[trigger] f(a) == #[trigger] f(
        b,
    ) implies a == b by {
        lemma_candidate_injective(base, a, b);
    }
    lemma_map_size(xs, ys, f);
    let es = existing.to_set();
    assert forall|y: Seq<char>| ys.contains(y) implies es.contains(y) by {
        let j = choose|j: int| xs.contains(j) && f(j) == y;
        assert(existing.contains(candidate(base, j)));
    }
    existing.lemma_cardinality_of_set();
    lemma_len_subset(ys, es);
}

/// Whether `existing` holds a string equal to `s`.
fn contains_chars(existing: &[String], s: &Vec<char>) -> (r: bool)
    ensures
        r == strings_view(existing@).contains(s@),
{
    let mut i: usize = 0;
    while i < existing.len()
        invariant
            i <= existing.len(),
            forall|j: int| 0 <= j < i ==> existing@[j]@ != s@,
        decreases existing.len() - i,
    {
        let e = chars_of(existing[i].as_str());
        if chars_eq(&e, s) {
            assert(strings_view(existing@)[i as int] == s@);
            return true;
        }
        i += 1;
    }
    proof {
        if strings_view(existing@).contains(s@) {
            let j = choose|j: int|
                0 <= j < strings_view(existing@).len() && strings_view(existing@)[j] == s@;
            assert(existing@[j]@ == s@);
        }
    }
    false
}

/// `base` if no entry of `existing_ids` equals it, otherwise `"{base}-{k}"`
/// for the least `k >= 1` that is not taken.
pub fn unique_id(base: &str, existing_ids: &[String]) -> (r: String)
    requires
        existing_ids@.len() < usize::MAX,
    ensures
        is_unique_id(base@, strings_view(existing_ids@), r@),
{
    let ghost ex = strings_view(existing_ids@);
    let b = chars_of(base);
    if !contains_chars(existing_ids, &b) {
        return base.to_string();
    }
    let mut idx: u64 = 1;
    loop
        invariant
            b@ == base@,
            ex == strings_view(existing_ids@),
            ex.contains(base@),
            1 <= idx,
            idx <= existing_ids@.len() + 1,
            existing_ids@.len() < usize::MAX,
            forall|j: int| 1 <= j < idx ==> ex.contains(#[trigger] candidate(base@, j)),
        decreases existing_ids@.len() + 1 - idx,
    {
        let mut cand = b.clone();
        push_str(&mut cand, "-");
        let digits = decimal_chars(idx);
        push_all(&mut cand, &digits);
        assert(cand@ =~= candidate(base@, idx as int));
        if !contains_chars(existing_ids, &cand) {
            return string_of(&cand);
        }
        proof {
            lemma_taken_candidates_bounded(base@, ex, idx as int);
        }
        idx += 1;
    }
}

/// The slug has only lowercase ASCII letters, digits and dashes, it never
/// starts or ends with a dash, and never holds two dashes in a row.
pub open spec fn is_slug(t: Seq<char>) -> bool {
    &&& t.len() > 0
    &&& forall|i: int|
        0 <= i < t.len() ==> is_ascii_alnum(#[trigger] t[i]) && !('A' <= t[i] && t[i] <= 'Z')
            || t[i] == '-'
    &&& t[0] != '-'
    &&& t.last() != '-'
    &&& forall|i: int| 0 <= i < t.len() - 1 ==> !(#[trigger] t[i] == '-' && t[i + 1] == '-')
}

/// The ASCII letters and digits of `s`, lowercased, in order.
pub open spec fn alnum_lower(s: Seq<char>) -> Seq<char>
    decreases s.len(),
{
    if s.len() == 0 {
        Seq::empty()
    } else if is_ascii_alnum(s.last()) {
        alnum_lower(s.drop_last()).push(ascii_lower(s.last()))
    } else {
        alnum_lower(s.drop_last())
    }
}

proof fn lemma_lower_is_alnum(c: char)
    requires
        is_ascii_alnum(c),
    ensures
        is_ascii_alnum(ascii_lower(c)),
        !('A' <= ascii_lower(c) && ascii_lower(c) <= 'Z'),
        ascii_lower(c) != '-',
{
}

/// Invariant of the slug scan.
proof fn lemma_slug_scan(s: Seq<char>)
    ensures
        ({
            let (t, d) = slug_scan(s);
            &&& forall|i: int|
                0 <= i < t.len() ==> is_ascii_alnum(#[trigger] t[i]) && !('A' <= t[i] && t[i]
                    <= 'Z') || t[i] == '-'
            &&& t.len() > 0 ==> t[0] != '-'
            &&& forall|i: int| 0 <= i < t.len() - 1 ==> !(#[trigger] t[i] == '-' && t[i + 1] == '-')
            &&& d <==> (t.len() > 0 && t.last() == '-')
            &&& alnum_lower(t) == alnum_lower(s)
        }),
    decreases s.len(),
{
    if s.len() > 0 {
        lemma_slug_scan(s.drop_last());
        let (t0, d0) = slug_scan(s.drop_last());
        let c = s.last();
        if is_ascii_alnum(c) {
            lemma_lower_is_alnum(c);
            assert(t0.push(ascii_lower(c)).drop_last() =~= t0);
        } else if !d0 && t0.len() > 0 {
            assert(t0.push('-').drop_last() =~= t0);
        }
    }
}

proof fn lemma_trim_dashes(t: Seq<char>)
    requires
        forall|i: int| 0 <= i < t.len() - 1 ==> !(#[trigger] t[i] == '-' && t[i + 1] == '-'),
        t.len() > 0 ==> t[0] != '-',
    ensures
        trim_dashes_end(t) == (if t.len() > 0 && t.last() == '-' {
            t.drop_last()
        } else {
            t
        }),
        alnum_lower(trim_dashes_end(t)) == alnum_lower(t),
{
    if t.len() > 0 && t.last() == '-' {
        let u = t.drop_last();
        if u.len() > 0 {
            assert(!(t[u.len() - 1] == '-' && t[u.len() as int] == '-'));
            assert(u.last() == t[u.len() - 1]);
            assert(u.last() != '-');
        }
        assert(trim_dashes_end(u) == u);
        assert(trim_dashes_end(t) == trim_dashes_end(u));
        assert(alnum_lower(t) == alnum_lower(u));
    }
}

/// What `slugify` promises: the result is a well-formed slug; it is
/// `"profile"` exactly when the name has no ASCII letter or digit, and
/// otherwise its letters and digits are the name's, lowercased, in order.
pub proof fn lemma_slugify_shape(s: Seq<char>)
    ensures
        is_slug(slugify_spec(s)),
        alnum_lower(s).len() == 0 ==> slugify_spec(s) == "profile"@,
        alnum_lower(s).len() > 0 ==> alnum_lower(slugify_spec(s)) == alnum_lower(s),
{
    lemma_slug_scan(s);
    let (t, d) = slug_scan(s);
    lemma_trim_dashes(t);
    let u = trim_dashes_end(t);
    assert(u.len() == 0 ==> alnum_lower(u).len() == 0);
    if u.len() == 0 {
        reveal_strlit("profile");
        assert(alnum_lower(t).len() == 0);
    } else {
        assert(u.last() != '-') by {
            if t.len() > 0 && t.last() == '-' {
                assert(!(t[u.len() - 1] == '-' && t[u.len() as int] == '-'));
            }
        }
        assert forall|i: int| 0 <= i < u.len() implies is_ascii_alnum(#[trigger] u[i]) && !('A'
            <= u[i] && u[i] <= 'Z') || u[i] == '-' by {
            assert(u[i] == t[i]);
        }
        assert forall|i: int| 0 <= i < u.len() - 1 implies !(#[trigger] u[i] == '-' && u[i + 1]
            == '-') by {
            assert(u[i] == t[i] && u[i + 1] == t[i + 1]);
        }
        lemma_alnum_lower_nonempty(u);
    }
}

proof fn lemma_alnum_lower_nonempty(u: Seq<char>)
    requires
        u.len() > 0,
        forall|i: int|
            0 <= i < u.len() ==> is_ascii_alnum(#[trigger] u[i]) && !('A' <= u[i] && u[i] <= 'Z')
                || u[i] == '-',
        u.last() != '-',
    ensures
        alnum_lower(u).len() > 0,
{
    assert(is_ascii_alnum(u.last()));
}

/// The maximal runs of ASCII letters and digits of `s`, in order, each
/// lowercased.
pub open spec fn lower_runs(s: Seq<char>) -> Seq<Seq<char>>
    decreases s.len(),
{
    if s.len() == 0 {
        Seq::empty()
    } else {
        let r = lower_runs(s.drop_last());
        let c = s.last();
        if !is_ascii_alnum(c) {
            r
        } else if s.len() > 1 && is_ascii_alnum(s[s.len() - 2]) {
            r.update(r.len() - 1, r.last().push(ascii_lower(c)))
        } else {
            r.push(seq![ascii_lower(c)])
        }
    }
}

/// The words `ws` joined by `-`.
pub open spec fn join_dash(ws: Seq<Seq<char>>) -> Seq<char>
    decreases ws.len(),
{
    if ws.len() == 0 {
        Seq::empty()
    } else if ws.len() == 1 {
        ws[0]
    } else {
        join_dash(ws.drop_last()).push('-') + ws.last()
    }
}

/// Every word is non-empty and made of lowercase ASCII letters and digits.
pub open spec fn lower_words(ws: Seq<Seq<char>>) -> bool {
    forall|i: int, j: int|
        0 <= i < ws.len() && 0 <= j < ws[i].len() ==> is_ascii_alnum(#[trigger] ws[i][j])
            && !('A' <= ws[i][j] && ws[i][j] <= 'Z')
}

proof fn lemma_join_push(ws: Seq<Seq<char>>, c: char)
    requires
        ws.len() >= 1,
    ensures
        join_dash(ws.update(ws.len() - 1, ws.last().push(c))) == join_dash(ws).push(c),
{
    let u = ws.update(ws.len() - 1, ws.last().push(c));
    if ws.len() > 1 {
        assert(u.drop_last() =~= ws.drop_last());
        assert(u.last() == ws.last().push(c));
        assert(join_dash(ws.drop_last()).push('-') + ws.last().push(c) =~= (join_dash(
            ws.drop_last(),
        ).push('-') + ws.last()).push(c));
    }
}

proof fn lemma_join_new_word(ws: Seq<Seq<char>>, c: char)
    requires
        ws.len() >= 1,
    ensures
        join_dash(ws.push(seq![c])) == join_dash(ws).push('-').push(c),
{
    assert(ws.push(seq![c]).drop_last() =~= ws);
    assert(join_dash(ws).push('-') + seq![c] =~= join_dash(ws).push('-').push(c));
}

/// The joined words end with the last character of the last word.
proof fn lemma_join_last(ws: Seq<Seq<char>>)
    requires
        ws.len() >= 1,
        ws.last().len() > 0,
    ensures
        join_dash(ws).len() > 0,
        join_dash(ws).last() == ws.last().last(),
{
}

/// How the slug scan relates to the runs: before the first run nothing is
/// emitted; after a run the slug is the runs joined by `-`, with one more
/// `-` once a character that ends the run has been seen.
proof fn lemma_scan_runs(s: Seq<char>)
    ensures
        ({
            let (t, d) = slug_scan(s);
            let ws = lower_runs(s);
            &&& lower_words(ws)
            &&& forall|i: int| 0 <= i < ws.len() ==> (#[trigger] ws[i]).len() > 0
            &&& ws.len() == 0 ==> t.len() == 0 && !d
            &&& ws.len() > 0 && is_ascii_alnum(s.last()) ==> t == join_dash(ws) && !d
            &&& ws.len() > 0 && !is_ascii_alnum(s.last()) ==> t == join_dash(ws).push('-') && d
        }),
    decreases s.len(),
{
    if s.len() > 0 {
        let p = s.drop_last();
        lemma_scan_runs(p);
        let ws0 = lower_runs(p);
        let c = s.last();
        let ws = lower_runs(s);
        if is_ascii_alnum(c) {
            lemma_lower_is_alnum(c);
            if s.len() > 1 && is_ascii_alnum(s[s.len() - 2]) {
                assert(p.last() == s[s.len() - 2]);
                assert(ws0.len() > 0) by {
                    lemma_runs_nonempty_after_alnum(p);
                }
                lemma_join_push(ws0, ascii_lower(c));
                assert forall|i: int, j: int| 0 <= i < ws.len() && 0 <= j < ws[i].len() implies is_ascii_alnum(
                    #[trigger] ws[i][j],
                ) && !('A' <= ws[i][j] && ws[i][j] <= 'Z') by {
                    if i < ws.len() - 1 {
                        assert(ws[i] == ws0[i]);
                    } else if j < ws0.last().len() {
                        assert(ws[i][j] == ws0[i][j]);
                    }
                }
                assert forall|i: int| 0 <= i < ws.len() implies (#[trigger] ws[i]).len() > 0 by {
                    if i < ws.len() - 1 {
                        assert(ws[i] == ws0[i]);
                    }
                }
            } else {
                if ws0.len() > 0 {
                    assert(p.len() > 0 && !is_ascii_alnum(p.last()));
                    lemma_join_new_word(ws0, ascii_lower(c));
                }
                assert forall|i: int, j: int| 0 <= i < ws.len() && 0 <= j < ws[i].len() implies is_ascii_alnum(
                    #[trigger] ws[i][j],
                ) && !('A' <= ws[i][j] && ws[i][j] <= 'Z') by {
                    if i < ws.len() - 1 {
                        assert(ws[i] == ws0[i]);
                    }
                }
                assert forall|i: int| 0 <= i < ws.len() implies (#[trigger] ws[i]).len() > 0 by {
                    if i < ws.len() - 1 {
                        assert(ws[i] == ws0[i]);
                    }
                }
                if ws0.len() == 0 {
                    assert(seq![ascii_lower(c)] =~= Seq::<char>::empty().push(ascii_lower(c)));
                }
            }
        } else {
            if ws0.len() > 0 && is_ascii_alnum(p.last()) {
                lemma_join_last(ws0);
            }
        }
    }
}

proof fn lemma_runs_nonempty_after_alnum(s: Seq<char>)
    requires
        s.len() > 0,
        is_ascii_alnum(s.last()),
    ensures
        lower_runs(s).len() > 0,
    decreases s.len(),
{
    let r = lower_runs(s.drop_last());
    if s.len() > 1 && is_ascii_alnum(s[s.len() - 2]) {
        assert(s.drop_last().last() == s[s.len() - 2]);
        lemma_runs_nonempty_after_alnum(s.drop_last());
    }
}

/// `slugify` described by words: the maximal runs of ASCII letters and
/// digits of the name, lowercased and joined by `-`; `"profile"` when there
/// is no such run.
pub proof fn lemma_slugify_runs(s: Seq<char>)
    ensures
        slugify_spec(s) == (if lower_runs(s).len() == 0 {
            "profile"@
        } else {
            join_dash(lower_runs(s))
        }),
{
    lemma_scan_runs(s);
    let (t, d) = slug_scan(s);
    let ws = lower_runs(s);
    if ws.len() > 0 {
        let j = join_dash(ws);
        lemma_join_last(ws);
        assert(ws.last()[ws.last().len() - 1] == ws.last().last());
        assert(j.last() != '-');
        if is_ascii_alnum(s.last()) {
            assert(trim_dashes_end(t) == t);
        } else {
            assert(t.drop_last() =~= j);
            assert(trim_dashes_end(j) == j);
            assert(trim_dashes_end(t) == trim_dashes_end(j));
        }
    }
}

/// A well-formed slug is its own slug.
proof fn lemma_slug_fixed(t: Seq<char>)
    requires
        is_slug(t),
    ensures
        slugify_spec(t) == t,
{
    assert forall|i: int| 0 <= i <= t.len() implies #[trigger] slug_scan(t.take(i)) == (t.take(i), i
        > 0 && t[i - 1] == '-') by {
        lemma_slug_prefix(t, i);
    }
    assert(t.take(t.len() as int) =~= t);
    assert(slug_scan(t) == (t, false));
}

proof fn lemma_slug_prefix(t: Seq<char>, i: int)
    requires
        is_slug(t),
        0 <= i <= t.len(),
    ensures
        slug_scan(t.take(i)) == (t.take(i), i > 0 && t[i - 1] == '-'),
    decreases i,
{
    if i > 0 {
        lemma_slug_prefix(t, i - 1);
        assert(t.take(i).drop_last() =~= t.take(i - 1));
        let c = t[i - 1];
        assert(t.take(i).last() == c);
        if is_ascii_alnum(c) {
            assert(t.take(i - 1).push(ascii_lower(c)) =~= t.take(i));
        } else {
            assert(c == '-');
            assert(i > 1);
            assert(!(t[i - 2] == '-' && t[i - 1] == '-'));
            assert(t.take(i - 1).push('-') =~= t.take(i));
        }
    } else {
        assert(t.take(0) =~= Seq::<char>::empty());
    }
}

/// Slugifying a slug changes nothing.
pub proof fn lemma_slugify_idempotent(s: Seq<char>)
    ensures
        slugify_spec(slugify_spec(s)) == slugify_spec(s),
{
    lemma_slugify_shape(s);
    lemma_slug_fixed(slugify_spec(s));
}

} // verus!
