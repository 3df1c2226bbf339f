//! Bookkeeping on the app's profile list, active profile and split rules:
//! the decisions behind the import/delete/select/connect/switch and
//! add/remove-rule commands.

use vstd::prelude::*;
use crate::profile::{Profile, ProfileV, unique_id, is_unique_id, strings_view};
use crate::split::{SplitConfig, SplitRule, RuleV, rules_view, contains_rule};
use crate::text::{chars_of, push_str, string_of};

verus! {

/// The views of a list of profiles.
pub open spec fn profiles_view(v: Seq<Profile>) -> Seq<ProfileV> {
    v.map_values(|p: Profile| p@)
}

/// The ids of a list of profiles.
pub open spec fn ids_of(v: Seq<ProfileV>) -> Seq<Seq<char>> {
    v.map_values(|p: ProfileV| p.id)
}

fn id_list(existing: &[Profile]) -> (r: Vec<String>)
    ensures
        strings_view(r@) == ids_of(profiles_view(existing@)),
        r@.len() == existing@.len(),
{
    let mut r: Vec<String> = Vec::new();
    let mut i: usize = 0;
    while i < existing.len()
        invariant
            i <= existing.len(),
            strings_view(r@) == ids_of(profiles_view(existing@.take(i as int))),
            r@.len() == i,
        decreases existing.len() - i,
    {
        let ghost before = r@;
        r.push(existing[i].id.clone());
        assert(existing@.take(i + 1) =~= existing@.take(i as int).push(existing@[i as int]));
        assert(strings_view(r@) =~= strings_view(before).push(existing@[i as int].id@));
        assert(profiles_view(existing@.take(i + 1)) =~= profiles_view(existing@.take(i as int)).push(
            existing@[i as int]@,
        ));
        assert(strings_view(r@) =~= ids_of(profiles_view(existing@.take(i + 1))));
        i += 1;
    }
    assert(existing@.take(existing.len() as int) =~= existing@);
    r
}

/// Give `profile` an id no profile of `existing` has: its own if free,
/// else with the least numeric suffix `-1`, `-2`, ... that is free.
pub fn dedupe_id(profile: &mut Profile, existing: &[Profile])
    requires
        existing@.len() < usize::MAX,
    ensures
        is_unique_id(old(profile).id@, ids_of(profiles_view(existing@)), final(profile).id@),
        final(profile).name == old(profile).name,
        final(profile).outbounds == old(profile).outbounds,
        final(profile).active_tag == old(profile).active_tag,
{
    let ids = id_list(existing);
    let id = unique_id(profile.id.as_str(), ids.as_slice());
    profile.id = id;
}

/// `ps` without the profiles whose id is `id`.
pub open spec fn without_id(ps: Seq<ProfileV>, id: Seq<char>) -> Seq<ProfileV>
    decreases ps.len(),
{
    if ps.len() == 0 {
        Seq::empty()
    } else if ps.last().id == id {
        without_id(ps.drop_last(), id)
    } else {
        without_id(ps.drop_last(), id).push(ps.last())
    }
}

pub open spec fn opt_view(o: Option<String>) -> Option<Seq<char>> {
    match o {
        Some(s) => Some(s@),
        None => None,
    }
}

/// Delete every profile whose id is `id`; if it was the active one, no
/// profile is active any more.
pub fn delete_profile(profiles: &mut Vec<Profile>, active: &mut Option<String>, id: &str)
    ensures
        profiles_view(final(profiles)@) == without_id(profiles_view(old(profiles)@), id@),
        opt_view(*final(active)) == (if opt_view(*old(active)) == Some(id@) {
            None
        } else {
            opt_view(*old(active))
        }),
{
    let ghost orig = profiles_view(profiles@);
    let mut rest: Vec<Profile> = Vec::new();
    std::mem::swap(&mut rest, profiles);
    let total: usize = rest.len();
    let ghost n = total as nat;
    let mut k: usize = 0;
    assert(orig.take(0) =~= Seq::<ProfileV>::empty());
    assert(profiles_view(profiles@) =~= Seq::<ProfileV>::empty());
    while rest.len() > 0
        invariant
            k + rest@.len() == n,
            n == orig.len(),
            n <= usize::MAX,
            profiles_view(rest@) == orig.skip(k as int),
            profiles_view(profiles@) == without_id(orig.take(k as int), id@),
        decreases rest@.len(),
    {
        let ghost rest_before = rest@;
        let p = rest.remove(0);
        let ghost pv = p@;
        assert(orig[k as int] == pv) by {
            assert(profiles_view(rest_before)[0] == pv);
        }
        assert(orig.take(k + 1).drop_last() =~= orig.take(k as int));
        let keep = !crate::text::str_eq(p.id.as_str(), id);
        if keep {
            let ghost before = profiles@;
            profiles.push(p);
            assert(profiles_view(profiles@) =~= profiles_view(before).push(pv));
        }
        assert(profiles_view(rest@) =~= profiles_view(rest_before).drop_first());
        k += 1;
        assert(profiles_view(rest@) =~= orig.skip(k as int));
    }
    assert(orig.take(n as int) =~= orig);
    let clear = match active {
        Some(a) => crate::text::str_eq(a.as_str(), id),
        None => false,
    };
    if clear {
        *active = None;
    }
}

/// The index of the first profile whose id is `id`.
pub fn find_profile(profiles: &Vec<Profile>, id: &str) -> (r: Option<usize>)
    ensures
        match r {
            Some(i) => i < profiles.len() && profiles@[i as int].id@ == id@ && forall|j: int|
                0 <= j < i ==> profiles@[j].id@ != id@,
            None => forall|j: int| 0 <= j < profiles.len() ==> profiles@[j].id@ != id@,
        },
{
    let mut i: usize = 0;
    while i < profiles.len()
        invariant
            i <= profiles.len(),
            forall|j: int| 0 <= j < i ==> profiles@[j].id@ != id@,
        decreases profiles.len() - i,
    {
        if crate::text::str_eq(profiles[i].id.as_str(), id) {
            return Some(i);
        }
        i += 1;
    }
    None
}

/// Make the profile `id` the active one; an error naming `id` if there is
/// no such profile (the active profile is then unchanged).
pub fn set_active_profile(profiles: &Vec<Profile>, active: &mut Option<String>, id: String) -> (r:
    Result<(), String>)
    ensures
        (exists|j: int| 0 <= j < profiles.len() && profiles@[j].id@ == id@) ==> r is Ok && opt_view(
            *final(active),
        ) == Some(id@),
        !(exists|j: int| 0 <= j < profiles.len() && profiles@[j].id@ == id@) ==> (r matches Err(m)
            && m@ == "no such profile: "@ + id@) && *final(active) == *old(active),
{
    match find_profile(profiles, id.as_str()) {
        Some(_) => {
            *active = Some(id);
            Ok(())
        },
        None => {
            let mut m = chars_of("no such profile: ");
            push_str(&mut m, id.as_str());
            Err(string_of(&m))
        },
    }
}

/// The profile to connect with: the first one whose id is the active id.
/// Errors when no profile is active, or the active one is gone.
pub fn active_profile_index(profiles: &Vec<Profile>, active: &Option<String>) -> (r: Result<
    usize,
    String,
>)
    ensures
        match active {
            None => (r matches Err(m) && m@ == "no active profile selected"@),
            Some(a) => match r {
                Ok(i) => i < profiles.len() && profiles@[i as int].id@ == a@ && forall|j: int|
                    0 <= j < i ==> profiles@[j].id@ != a@,
                Err(m) => m@ == "active profile no longer exists"@ && forall|j: int|
                    0 <= j < profiles.len() ==> profiles@[j].id@ != a@,
            },
        },
{
    match active {
        None => Err("no active profile selected".to_string()),
        Some(a) => match find_profile(profiles, a.as_str()) {
            Some(i) => Ok(i),
            None => Err("active profile no longer exists".to_string()),
        },
    }
}

/// Record `tag` as the active outbound of the active profile (its first
/// profile with that id), if a profile is active and exists.
pub fn set_active_tag(profiles: &mut Vec<Profile>, active: &Option<String>, tag: String)
    ensures
        final(profiles)@.len() == old(profiles)@.len(),
        forall|j: int|
            0 <= j < old(profiles)@.len() ==> {
                let p = #[trigger] final(profiles)@[j];
                let q = old(profiles)@[j];
                &&& p.id == q.id
                &&& p.name == q.name
                &&& p.outbounds == q.outbounds
                &&& if active is Some && q.id@ == active->0@ && forall|k: int|
                    0 <= k < j ==> old(profiles)@[k].id@ != active->0@ {
                    opt_view(p.active_tag) == Some(tag@)
                } else {
                    p.active_tag == q.active_tag
                }
            },
{
    match active {
        None => {},
        Some(a) => match find_profile(profiles, a.as_str()) {
            Some(i) => {
                let mut p = profiles.remove(i);
                p.active_tag = Some(tag);
                profiles.insert(i, p);
            },
            None => {},
        },
    }
}

/// Add `rule` to the split rules unless an equal rule is already there.
pub fn add_split_rule(split: &mut SplitConfig, rule: SplitRule)
    ensures
        final(split).mode == old(split).mode,
        rules_view(old(split).rules@).contains(rule@) ==> rules_view(final(split).rules@)
            == rules_view(old(split).rules@),
        !rules_view(old(split).rules@).contains(rule@) ==> rules_view(final(split).rules@)
            == rules_view(old(split).rules@).push(rule@),
{
    if !contains_rule(&split.rules, &rule) {
        let ghost before = split.rules@;
        let ghost rv = rule@;
        split.rules.push(rule);
        assert(rules_view(split.rules@) =~= rules_view(before).push(rv));
    }
}

/// `rs` without the rules equal to `r`.
pub open spec fn without_rule(rs: Seq<RuleV>, r: RuleV) -> Seq<RuleV>
    decreases rs.len(),
{
    if rs.len() == 0 {
        Seq::empty()
    } else if rs.last() == r {
        without_rule(rs.drop_last(), r)
    } else {
        without_rule(rs.drop_last(), r).push(rs.last())
    }
}

/// Remove every rule equal to `rule`.
pub fn remove_split_rule(split: &mut SplitConfig, rule: &SplitRule)
    ensures
        final(split).mode == old(split).mode,
        rules_view(final(split).rules@) == without_rule(rules_view(old(split).rules@), rule@),
{
    let ghost orig = rules_view(split.rules@);
    let mut kept: Vec<SplitRule> = Vec::new();
    let mut i: usize = 0;
    assert(orig.take(0) =~= Seq::<RuleV>::empty());
    assert(rules_view(kept@) =~= Seq::<RuleV>::empty());
    while i < split.rules.len()
        invariant
            i <= split.rules.len(),
            orig == rules_view(split.rules@),
            rules_view(kept@) == without_rule(orig.take(i as int), rule@),
        decreases split.rules.len() - i,
    {
        assert(orig.take(i + 1).drop_last() =~= orig.take(i as int));
        assert(orig[i as int] == split.rules@[i as int]@);
        if !(split.rules[i] == *rule) {
            let ghost before = kept@;
            let c = split.rules[i].copy();
            kept.push(c);
            assert(rules_view(kept@) =~= rules_view(before).push(c@));
        }
        i += 1;
    }
    assert(orig.take(split.rules.len() as int) =~= orig);
    split.rules = kept;
}

/// No rule equal to `r` is left by [`remove_split_rule`], and every other
/// rule is.
pub proof fn lemma_without_rule(rs: Seq<RuleV>, r: RuleV, x: RuleV)
    ensures
        !without_rule(rs, r).contains(r),
        x != r ==> (without_rule(rs, r).contains(x) <==> rs.contains(x)),
    decreases rs.len(),
{
    if rs.len() > 0 {
        lemma_without_rule(rs.drop_last(), r, x);
        let pre = without_rule(rs.drop_last(), r);
        if rs.last() != r {
            assert(without_rule(rs, r) == pre.push(rs.last()));
            if pre.push(rs.last()).contains(r) {
                let k = choose|k: int| 0 <= k < pre.len() + 1 && pre.push(rs.last())[k] == r;
                assert(pre[k] == r);
            }
            if x != r {
                if rs.contains(x) {
                    let k = choose|k: int| 0 <= k < rs.len() && rs[k] == x;
                    if k < rs.len() - 1 {
                        assert(rs.drop_last()[k] == x);
                        let m = choose|m: int| 0 <= m < pre.len() && pre[m] == x;
                        assert(pre.push(rs.last())[m] == x);
                    } else {
                        assert(pre.push(rs.last())[pre.len() as int] == x);
                    }
                }
                if pre.push(rs.last()).contains(x) {
                    let k = choose|k: int| 0 <= k < pre.len() + 1 && pre.push(rs.last())[k] == x;
                    if k < pre.len() {
                        assert(pre.contains(x));
                        let m = choose|m: int| 0 <= m < rs.drop_last().len() && rs.drop_last()[m] == x;
                        assert(rs[m] == x);
                    } else {
                        assert(rs[rs.len() - 1] == x);
                    }
                }
            }
        } else if x != r {
            if rs.contains(x) {
                let k = choose|k: int| 0 <= k < rs.len() && rs[k] == x;
                assert(rs.drop_last()[k] == x);
            }
            if pre.contains(x) {
                let m = choose|m: int| 0 <= m < rs.drop_last().len() && rs.drop_last()[m] == x;
                assert(rs[m] == x);
            }
        }
    }
}

/// Removing a rule that is not there changes nothing.
proof fn lemma_without_absent(rs: Seq<RuleV>, r: RuleV)
    requires
        !rs.contains(r),
    ensures
        without_rule(rs, r) == rs,
    decreases rs.len(),
{
    if rs.len() > 0 {
        assert(!rs.drop_last().contains(r)) by {
            if rs.drop_last().contains(r) {
                let k = choose|k: int| 0 <= k < rs.drop_last().len() && rs.drop_last()[k] == r;
                assert(rs[k] == r);
            }
        }
        assert(rs[rs.len() - 1] != r);
        lemma_without_absent(rs.drop_last(), r);
        assert(rs.drop_last().push(rs.last()) =~= rs);
    }
}

/// Adding a rule that was not in the list (which appends it) and then
/// removing it gives the list back as it was.
pub proof fn lemma_add_then_remove(rs: Seq<RuleV>, r: RuleV)
    requires
        !rs.contains(r),
    ensures
        without_rule(rs.push(r), r) == rs,
{
    assert(rs.push(r).drop_last() =~= rs);
    lemma_without_absent(rs, r);
}

/// After a delete no profile with that id is left, and every profile with
/// another id stays.
pub proof fn lemma_without_id(ps: Seq<ProfileV>, id: Seq<char>, x: ProfileV)
    ensures
        forall|i: int| 0 <= i < without_id(ps, id).len() ==> (#[trigger] without_id(ps, id)[i]).id
            != id,
        x.id != id ==> (without_id(ps, id).contains(x) <==> ps.contains(x)),
    decreases ps.len(),
{
    if ps.len() > 0 {
        lemma_without_id(ps.drop_last(), id, x);
        let pre = without_id(ps.drop_last(), id);
        let last = ps.last();
        if last.id != id {
            assert(without_id(ps, id) == pre.push(last));
            assert forall|i: int| 0 <= i < pre.len() + 1 implies (#[trigger] pre.push(last)[i]).id
                != id by {
                if i < pre.len() {
                    assert(pre.push(last)[i] == pre[i]);
                }
            }
            if x.id != id {
                if ps.contains(x) {
                    let k = choose|k: int| 0 <= k < ps.len() && ps[k] == x;
                    if k < ps.len() - 1 {
                        assert(ps.drop_last()[k] == x);
                        let m = choose|m: int| 0 <= m < pre.len() && pre[m] == x;
                        assert(pre.push(last)[m] == x);
                    } else {
                        assert(pre.push(last)[pre.len() as int] == x);
                    }
                }
                if pre.push(last).contains(x) {
                    let k = choose|k: int| 0 <= k < pre.len() + 1 && pre.push(last)[k] == x;
                    if k < pre.len() {
                        assert(pre[k] == x);
                        let m = choose|m: int| 0 <= m < ps.drop_last().len() && ps.drop_last()[m] == x;
                        assert(ps[m] == x);
                    } else {
                        assert(ps[ps.len() - 1] == x);
                    }
                }
            }
        } else if x.id != id {
            if ps.contains(x) {
                let k = choose|k: int| 0 <= k < ps.len() && ps[k] == x;
                assert(ps.drop_last()[k] == x);
            }
            if pre.contains(x) {
                let m = choose|m: int| 0 <= m < ps.drop_last().len() && ps.drop_last()[m] == x;
                assert(ps[m] == x);
            }
        }
    }
}

/// The ids of `ps` are pairwise distinct.
pub open spec fn distinct_ids(ps: Seq<ProfileV>) -> bool {
    forall|i: int, j: int| 0 <= i < j < ps.len() ==> #[trigger] ps[i].id != #[trigger] ps[j].id
}

/// Add an imported profile to the list: its id is made unique against the
/// profiles already there (its own id if free, else the least free `-k`
/// suffix) and it is appended. Ids that were distinct stay distinct.
pub fn add_profile(profiles: &mut Vec<Profile>, profile: Profile)
    requires
        old(profiles)@.len() < usize::MAX,
    ensures
        final(profiles)@.len() == old(profiles)@.len() + 1,
        profiles_view(final(profiles)@).drop_last() == profiles_view(old(profiles)@),
        ({
            let p = profiles_view(final(profiles)@).last();
            &&& is_unique_id(profile@.id, ids_of(profiles_view(old(profiles)@)), p.id)
            &&& p.name == profile@.name
            &&& p.outbounds == profile@.outbounds
            &&& p.active_tag == profile@.active_tag
        }),
        distinct_ids(profiles_view(old(profiles)@)) ==> distinct_ids(
            profiles_view(final(profiles)@),
        ),
{
    let mut profile = profile;
    let ghost before = profiles_view(profiles@);
    dedupe_id(&mut profile, profiles.as_slice());
    profiles.push(profile);
    let ghost after = profiles_view(profiles@);
    assert(after.drop_last() =~= before);
    assert(after.last() == profile@);
    proof {
        if distinct_ids(before) {
            assert forall|i: int, j: int| 0 <= i < j < after.len() implies #[trigger] after[i].id
                != #[trigger] after[j].id by {
                if j == after.len() - 1 {
                    assert(after[i] == before[i]);
                    assert(ids_of(before)[i] == before[i].id);
                } else {
                    assert(after[i] == before[i] && after[j] == before[j]);
                }
            }
        }
    }
}

} // verus!
