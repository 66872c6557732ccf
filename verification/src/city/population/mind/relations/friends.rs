//! Friendship: acquaintances made each year, and how they deepen or fade.
use crate::city::population::mind::relations::partners::{is_single, single, without, wrapped_age};
use crate::city::population::mind::relations::{lemma_lookup_same_ids, same_but_citizens, RelationVerb};
use crate::city::population::mind::{
    find_index, has_id, lemma_lookup, lookup, relations_replaced, Gender, Mind, Relation,
};
use crate::city::{citizen_ids_distinct, City};
use crate::random::{lemma_ratio_drawn, random_below, random_ratio, ratio_drawn, shuffle, Id};
use vstd::prelude::*;

verus! {

/// The social relations: acquaintance, friend and close friend.
pub open spec fn is_social_verb(v: RelationVerb) -> bool {
    v == RelationVerb::Acquaintance || v == RelationVerb::Friend || v == RelationVerb::CloseFriend
}

/// Whether `v` is a social relation (see [`is_social_verb`]).
pub fn social_verb(v: RelationVerb) -> (b: bool)
    ensures
        b == is_social_verb(v),
{
    v == RelationVerb::Acquaintance || v == RelationVerb::Friend || v == RelationVerb::CloseFriend
}

} // verus!

verus! {

/// The ids a list of relations names, in order.
pub open spec fn ids_of(rels: Seq<Relation>) -> Seq<Id> {
    rels.map_values(|r: Relation| r.1)
}

/// What the search for new acquaintances reads of a citizen.
struct Acquaintable {
    id: Id,
    age: u32,
    gender: Gender,
    alive: bool,
    related: Vec<Id>,
}

/// `s` holds what the search reads of the citizens `pop`, by index.
spec fn snapshot_of(pop: Seq<Mind>, s: Seq<Acquaintable>) -> bool {
    &&& s.len() == pop.len()
    &&& forall|j: int|
        0 <= j < pop.len() ==> {
            &&& (#[trigger] s[j]).id == pop[j].id
            &&& s[j].age == pop[j].age
            &&& s[j].gender == pop[j].gender
            &&& s[j].alive == pop[j].alive
            &&& s[j].related@ == ids_of(pop[j].relations@)
        }
}

fn related_ids(rels: &Vec<Relation>) -> (r: Vec<Id>)
    ensures
        r@ == ids_of(rels@),
{
    let mut out: Vec<Id> = Vec::new();
    let mut i: usize = 0;
    while i < rels.len()
        invariant
            i <= rels.len(),
            out@ == ids_of(rels@.take(i as int)),
        decreases rels.len() - i,
    {
        assert(ids_of(rels@.take(i + 1)) =~= ids_of(rels@.take(i as int)).push(rels@[i as int].1));
        out.push(rels[i].1);
        i = i + 1;
    }
    assert(rels@.take(rels.len() as int) =~= rels@);
    out
}

fn snapshot(pop: &Vec<Mind>) -> (s: Vec<Acquaintable>)
    ensures
        snapshot_of(pop@, s@),
{
    let mut s: Vec<Acquaintable> = Vec::new();
    let mut j: usize = 0;
    while j < pop.len()
        invariant
            j <= pop.len(),
            snapshot_of(pop@.take(j as int), s@),
        decreases pop.len() - j,
    {
        let m = &pop[j];
        let a = Acquaintable {
            id: m.id,
            age: m.age,
            gender: m.gender,
            alive: m.alive,
            related: related_ids(&m.relations),
        };
        s.push(a);
        j = j + 1;
        assert forall|q: int| 0 <= q < j implies #[trigger] pop@.take(j as int)[q] == pop@[q] by {}
    }
    assert(pop@.take(pop.len() as int) =~= pop@);
    s
}

/// Each group lists, for its age, indices of alive citizens of that age.
spec fn groups_ok(s: Seq<Acquaintable>, groups: Seq<(u32, Vec<usize>)>) -> bool {
    forall|e: int, q: int|
        0 <= e < groups.len() && 0 <= q < groups[e].1.len() ==> {
            let j = #[trigger] groups[e].1@[q];
            &&& j < s.len()
            &&& s[j as int].alive
            &&& s[j as int].age == groups[e].0
        }
}

fn find_group(groups: &Vec<(u32, Vec<usize>)>, age: u32) -> (r: Option<usize>)
    ensures
        r matches Some(e) ==> e < groups.len() && groups@[e as int].0 == age && forall|f: int|
            0 <= f < e ==> groups@[f].0 != age,
        r is None ==> forall|e: int| 0 <= e < groups.len() ==> groups@[e].0 != age,
{
    let mut e: usize = 0;
    while e < groups.len()
        invariant
            e <= groups.len(),
            forall|f: int| 0 <= f < e ==> groups@[f].0 != age,
        decreases groups.len() - e,
    {
        if groups[e].0 == age {
            return Some(e);
        }
        e = e + 1;
    }
    None
}

/// The alive citizens grouped by age: a group for each age, in the order
/// ages first appear, listing the indices of the alive citizens of that
/// age in order.
fn hash_population_by_age(s: &Vec<Acquaintable>) -> (groups: Vec<(u32, Vec<usize>)>)
    ensures
        groups_ok(s@, groups@),
        forall|j: int|
            0 <= j < s.len() && s@[j].alive ==> exists|e: int|
                0 <= e < groups.len() && groups@[e].0 == s@[j].age && #[trigger] groups@[e].1@.contains(
                    j as usize,
                ),
{
    let mut groups: Vec<(u32, Vec<usize>)> = Vec::new();
    let mut j: usize = 0;
    while j < s.len()
        invariant
            j <= s.len(),
            groups_ok(s@, groups@),
            forall|i: int|
                0 <= i < j && s@[i].alive ==> exists|e: int|
                    0 <= e < groups.len() && groups@[e].0 == s@[i].age
                        && #[trigger] groups@[e].1@.contains(i as usize),
        decreases s.len() - j,
    {
        if s[j].alive {
            let age = s[j].age;
            let ghost g0 = groups@;
            match find_group(&groups, age) {
                Some(e) => {
                    let (a, mut list) = groups.remove(e);
                    let ghost l0 = list@;
                    list.push(j);
                    groups.insert(e, (a, list));
                    proof {
                        assert(groups@[e as int].1@ == l0.push(j));
                        assert forall|f: int, q: int|
                            0 <= f < groups.len() && 0 <= q < groups@[f].1.len() implies {
                            let x = #[trigger] groups@[f].1@[q];
                            &&& x < s.len()
                            &&& s@[x as int].alive
                            &&& s@[x as int].age == groups@[f].0
                        } by {
                            if f != e {
                                assert(groups@[f] == g0[f]);
                            } else if q < l0.len() {
                                assert(groups@[f].1@[q] == g0[f].1@[q]);
                            }
                        }
                        assert forall|i: int|
                            0 <= i < j + 1 && s@[i].alive implies exists|f: int|
                                0 <= f < groups.len() && groups@[f].0 == s@[i].age
                                    && #[trigger] groups@[f].1@.contains(i as usize) by {
                            if i == j {
                                assert(groups@[e as int].1@[l0.len() as int] == j);
                                assert(groups@[e as int].1@.contains(i as usize));
                            } else {
                                let f = choose|f: int|
                                    0 <= f < g0.len() && g0[f].0 == s@[i].age
                                        && #[trigger] g0[f].1@.contains(i as usize);
                                let q = choose|q: int| 0 <= q < g0[f].1@.len() && g0[f].1@[q] == i as usize;
                                if f == e {
                                    assert(groups@[f].1@[q] == i as usize);
                                } else {
                                    assert(groups@[f] == g0[f]);
                                }
                                assert(groups@[f].1@.contains(i as usize));
                            }
                        }
                    }
                },
                None => {
                    let list = vec![j];
                    groups.push((age, list));
                    proof {
                        assert forall|f: int, q: int|
                            0 <= f < groups.len() && 0 <= q < groups@[f].1.len() implies {
                            let x = #[trigger] groups@[f].1@[q];
                            &&& x < s.len()
                            &&& s@[x as int].alive
                            &&& s@[x as int].age == groups@[f].0
                        } by {
                            if f < g0.len() {
                                assert(groups@[f] == g0[f]);
                            }
                        }
                        assert forall|i: int|
                            0 <= i < j + 1 && s@[i].alive implies exists|f: int|
                                0 <= f < groups.len() && groups@[f].0 == s@[i].age
                                    && #[trigger] groups@[f].1@.contains(i as usize) by {
                            if i == j {
                                assert(groups@[g0.len() as int].1@[0] == j);
                                assert(groups@[g0.len() as int].1@.contains(i as usize));
                            } else {
                                let f = choose|f: int|
                                    0 <= f < g0.len() && g0[f].0 == s@[i].age
                                        && #[trigger] g0[f].1@.contains(i as usize);
                                assert(groups@[f] == g0[f]);
                                assert(groups@[f].1@.contains(i as usize));
                            }
                        }
                    }
                },
            }
        }
        j = j + 1;
    }
    groups
}

} // verus!

verus! {

/// Citizen `j` of the search's view can become an acquaintance of citizen
/// `k`: alive, someone else, and not related to `k` already.
spec fn open_to(s: Seq<Acquaintable>, k: int, j: int) -> bool {
    &&& 0 <= j < s.len()
    &&& s[j].alive
    &&& s[j].id != s[k].id
    &&& !s[j].related@.contains(s[k].id)
}

/// For one citizen's search, the candidates found so far for each age,
/// split by whether they share the citizen's gender.
struct FriendCache {
    ages: Vec<u32>,
    same: Vec<Vec<usize>>,
    other: Vec<Vec<usize>>,
}

spec fn cache_ok(s: Seq<Acquaintable>, k: int, c: FriendCache) -> bool {
    &&& c.same.len() == c.ages.len()
    &&& c.other.len() == c.ages.len()
    &&& forall|e: int, q: int|
        0 <= e < c.ages.len() && 0 <= q < c.same@[e].len() ==> {
            let j = #[trigger] c.same@[e]@[q];
            &&& open_to(s, k, j as int)
            &&& s[j as int].age == c.ages@[e]
            &&& s[j as int].gender == s[k].gender
        }
    &&& forall|e: int, q: int|
        0 <= e < c.ages.len() && 0 <= q < c.other@[e].len() ==> {
            let j = #[trigger] c.other@[e]@[q];
            &&& open_to(s, k, j as int)
            &&& s[j as int].age == c.ages@[e]
            &&& s[j as int].gender != s[k].gender
        }
}

fn find_age(ages: &Vec<u32>, age: u32) -> (r: Option<usize>)
    ensures
        r matches Some(e) ==> e < ages.len() && ages@[e as int] == age && forall|f: int|
            0 <= f < e ==> ages@[f] != age,
        r is None ==> !ages@.contains(age),
{
    let mut e: usize = 0;
    while e < ages.len()
        invariant
            e <= ages.len(),
            forall|f: int| 0 <= f < e ==> ages@[f] != age,
        decreases ages.len() - e,
    {
        if ages[e] == age {
            return Some(e);
        }
        e = e + 1;
    }
    None
}

fn holds_id(ids: &Vec<Id>, id: Id) -> (b: bool)
    ensures
        b == ids@.contains(id),
{
    let mut i: usize = 0;
    while i < ids.len()
        invariant
            i <= ids.len(),
            forall|j: int| 0 <= j < i ==> ids@[j] != id,
        decreases ids.len() - i,
    {
        if ids[i] == id {
            return true;
        }
        i = i + 1;
    }
    false
}

/// Citizen `j` of the search's view may be met by citizen `k`, and shares
/// `k`'s gender exactly when `same`.
spec fn age_candidate(s: Seq<Acquaintable>, k: int, j: usize, same: bool) -> bool {
    &&& s[j as int].id != s[k].id
    &&& !s[j as int].related@.contains(s[k].id)
    &&& (s[j as int].gender == s[k].gender) == same
}

/// The candidates among the citizens `list` (see [`age_candidate`]), in
/// order.
spec fn age_candidates(s: Seq<Acquaintable>, k: int, list: Seq<usize>, same: bool) -> Seq<usize> {
    list.filter(|j: usize| age_candidate(s, k, j, same))
}

/// The cache `c` is `c0` with the age `age` and its candidates among
/// `list` added (see [`age_candidates`]).
spec fn age_added(
    s: Seq<Acquaintable>,
    k: int,
    c0: FriendCache,
    c: FriendCache,
    age: u32,
    list: Seq<usize>,
) -> bool {
    &&& c.ages@ == c0.ages@.push(age)
    &&& c.same@.len() == c0.same@.len() + 1
    &&& c.same@.drop_last() == c0.same@
    &&& c.same@.last()@ == age_candidates(s, k, list, true)
    &&& c.other@.len() == c0.other@.len() + 1
    &&& c.other@.drop_last() == c0.other@
    &&& c.other@.last()@ == age_candidates(s, k, list, false)
}

/// Fills the cache for age `target_age`, when it lacks that age and some
/// alive citizen has it: the candidates of that age, split by gender.
fn process_age_cache(
    s: &Vec<Acquaintable>,
    k: usize,
    groups: &Vec<(u32, Vec<usize>)>,
    cache: &mut FriendCache,
    target_age: u32,
)
    requires
        k < s.len(),
        groups_ok(s@, groups@),
        cache_ok(s@, k as int, *old(cache)),
    ensures
        cache_ok(s@, k as int, *final(cache)),
        old(cache).ages@.contains(target_age) ==> *final(cache) == *old(cache),
        !old(cache).ages@.contains(target_age) && (forall|e: int|
            0 <= e < groups.len() ==> groups@[e].0 != target_age) ==> *final(cache) == *old(cache),
        forall|g: int|
            0 <= g < groups.len() && groups@[g].0 == target_age && (forall|f: int|
                0 <= f < g ==> groups@[f].0 != target_age) && !old(cache).ages@.contains(target_age)
                ==> age_added(s@, k as int, *old(cache), *final(cache), target_age, #[trigger] groups@[g].1@),
{
    if find_age(&cache.ages, target_age).is_none() {
        match find_group(groups, target_age) {
            Some(g) => {
                let mind = &s[k];
                let list = &groups[g].1;
                let mut same: Vec<usize> = Vec::new();
                let mut other: Vec<usize> = Vec::new();
                let mut q: usize = 0;
                while q < list.len()
                    invariant
                        q <= list.len(),
                        k < s.len(),
                        mind == &s@[k as int],
                        g < groups.len(),
                        list == &groups@[g as int].1,
                        groups@[g as int].0 == target_age,
                        groups_ok(s@, groups@),
                        same@ == age_candidates(s@, k as int, list@.take(q as int), true),
                        other@ == age_candidates(s@, k as int, list@.take(q as int), false),
                        forall|p: int|
                            0 <= p < same.len() ==> {
                                let j = #[trigger] same@[p];
                                &&& open_to(s@, k as int, j as int)
                                &&& s@[j as int].age == target_age
                                &&& s@[j as int].gender == mind.gender
                            },
                        forall|p: int|
                            0 <= p < other.len() ==> {
                                let j = #[trigger] other@[p];
                                &&& open_to(s@, k as int, j as int)
                                &&& s@[j as int].age == target_age
                                &&& s@[j as int].gender != mind.gender
                            },
                    decreases list.len() - q,
                {
                    let j = list[q];
                    assert(groups@[g as int].1@[q as int] == j);
                    proof {
                        reveal_with_fuel(Seq::filter, 1);
                        assert(list@.take(q + 1).drop_last() =~= list@.take(q as int));
                        assert(list@.take(q + 1).last() == j);
                    }
                    let m = &s[j];
                    if m.id != mind.id && !holds_id(&m.related, mind.id) {
                        if m.gender == mind.gender {
                            same.push(j);
                        } else {
                            other.push(j);
                        }
                    }
                    assert(same@ =~= age_candidates(s@, k as int, list@.take(q + 1), true));
                    assert(other@ =~= age_candidates(s@, k as int, list@.take(q + 1), false));
                    q = q + 1;
                }
                assert(list@.take(list.len() as int) =~= list@);
                let ghost c0 = *cache;
                cache.ages.push(target_age);
                cache.same.push(same);
                cache.other.push(other);
                proof {
                    let c = *cache;
                    assert forall|e: int, p: int|
                        0 <= e < c.ages.len() && 0 <= p < c.same@[e].len() implies {
                        let j = #[trigger] c.same@[e]@[p];
                        &&& open_to(s@, k as int, j as int)
                        &&& s@[j as int].age == c.ages@[e]
                        &&& s@[j as int].gender == s@[k as int].gender
                    } by {
                        if e < c0.ages.len() {
                            assert(c.same@[e] == c0.same@[e]);
                            assert(c.ages@[e] == c0.ages@[e]);
                        }
                    }
                    assert forall|e: int, p: int|
                        0 <= e < c.ages.len() && 0 <= p < c.other@[e].len() implies {
                        let j = #[trigger] c.other@[e]@[p];
                        &&& open_to(s@, k as int, j as int)
                        &&& s@[j as int].age == c.ages@[e]
                        &&& s@[j as int].gender != s@[k as int].gender
                    } by {
                        if e < c0.ages.len() {
                            assert(c.other@[e] == c0.other@[e]);
                            assert(c.ages@[e] == c0.ages@[e]);
                        }
                    }
                    assert(c.same@.drop_last() =~= c0.same@);
                    assert(c.other@.drop_last() =~= c0.other@);
                    assert(c.ages@ =~= c0.ages@.push(target_age));
                    assert(age_added(s@, k as int, c0, c, target_age, groups@[g as int].1@));
                    assert forall|g2: int|
                        0 <= g2 < groups.len() && groups@[g2].0 == target_age && (forall|f: int|
                            0 <= f < g2 ==> groups@[f].0 != target_age) implies age_added(
                        s@,
                        k as int,
                        c0,
                        c,
                        target_age,
                        #[trigger] groups@[g2].1@,
                    ) by {
                        if g2 < g {
                            assert(groups@[g2].0 != target_age);
                        } else if g2 > g {
                            assert(groups@[g as int].0 != target_age);
                        }
                    }
                }
            },
            None => {},
        }
    }
}

} // verus!

verus! {

/// The widest age gap a citizen aged `age` looks for acquaintances at: 3
/// years for a minor, 30 for an adult.
pub open spec fn friend_max_deviation(age: u32, adult: u32) -> int {
    if age < adult {
        3
    } else {
        30
    }
}

/// The age gap of the `i`-th round of a search: `i`, up to the widest gap.
pub open spec fn friend_years(age: u32, adult: u32, i: int) -> int {
    if i < friend_max_deviation(age, adult) {
        i
    } else {
        friend_max_deviation(age, adult)
    }
}

/// The older age searched in round `i`: the age plus the round's gap.
pub open spec fn target_above(age: u32, adult: u32, i: int) -> int {
    age + friend_years(age, adult, i)
}

/// The younger age searched in round `i`: the age minus the round's gap.
/// For an adult it is at most the adult age, both taken as 32-bit signed
/// numbers (see [`wrapped_age`]), and a negative value wraps round as a
/// 32-bit unsigned number. Otherwise it is at least 0, so that children
/// look no further than their widest gap in either direction.
pub open spec fn target_below(age: u32, adult: u32, i: int) -> int {
    let years = friend_years(age, adult, i);
    if age > adult {
        let d = wrapped_age(age) - years;
        let v = if d < wrapped_age(adult) {
            d
        } else {
            wrapped_age(adult)
        };
        if v < 0 {
            v + 4294967296
        } else {
            v
        }
    } else if age - years > 0 {
        age - years
    } else {
        0
    }
}

/// A number taken as a 32-bit signed number (see [`wrapped_age`]).
fn wrap_signed(x: u32) -> (r: i64)
    ensures
        r == wrapped_age(x),
{
    if x > 2147483647 {
        x as i64 - 4294967296
    } else {
        x as i64
    }
}

/// An age that a search for acquaintances can take without overflow: the
/// widest gap searched (see [`friend_max_deviation`]) can be added to it,
/// and subtracted from it taken as a 32-bit signed number.
pub open spec fn friend_age_fits(age: u32, adult: u32) -> bool {
    &&& age + friend_max_deviation(age, adult) <= u32::MAX
    &&& wrapped_age(age) - friend_max_deviation(age, adult) >= i32::MIN
}

/// Every alive citizen's age can be taken by a search for acquaintances
/// (see [`friend_age_fits`]).
pub open spec fn friend_ages_fit(pop: Seq<Mind>, adult: u32) -> bool {
    forall|j: int| 0 <= j < pop.len() && (#[trigger] pop[j]).alive ==> friend_age_fits(pop[j].age, adult)
}

/// Whether every alive citizen's age can be taken by a search for
/// acquaintances (see [`friend_ages_fit`]).
pub fn friend_ages_fit_exec(pop: &Vec<Mind>, adult: u32) -> (b: bool)
    ensures
        b == friend_ages_fit(pop@, adult),
{
    let mut j: usize = 0;
    while j < pop.len()
        invariant
            j <= pop.len(),
            forall|q: int| 0 <= q < j && (#[trigger] pop@[q]).alive ==> friend_age_fits(pop@[q].age, adult),
        decreases pop.len() - j,
    {
        if pop[j].alive {
            let age = pop[j].age;
            let dev: u32 = if age < adult {
                3
            } else {
                30
            };
            let wrapped: i64 = if age > 2147483647 {
                age as i64 - 4294967296
            } else {
                age as i64
            };
            if age > u32::MAX - dev || wrapped - (dev as i64) < -2147483648 {
                return false;
            }
        }
        j = j + 1;
    }
    true
}

/// Whether a search for a citizen aged `age` can find someone aged `a`: `a`
/// is one of the ages searched in the 40 rounds.
pub open spec fn friend_age(age: u32, adult: u32, a: int) -> bool {
    exists|i: int|
        0 <= i < 40 && (a == target_above(age, adult, i) || a == #[trigger] target_below(
            age,
            adult,
            i,
        ))
}

/// The index of the first entry of `ages` equal to `age`.
spec fn first_at(ages: Seq<u32>, age: u32) -> Option<int>
    decreases ages.len(),
{
    if ages.len() == 0 {
        None
    } else {
        match first_at(ages.drop_last(), age) {
            Some(e) => Some(e),
            None => if ages.last() == age {
                Some(ages.len() - 1)
            } else {
                None
            },
        }
    }
}

proof fn lemma_first_at(ages: Seq<u32>, age: u32)
    ensures
        first_at(ages, age) matches Some(e) ==> 0 <= e < ages.len() && ages[e] == age && forall|f: int|
            0 <= f < e ==> ages[f] != age,
        first_at(ages, age) is None ==> forall|f: int| 0 <= f < ages.len() ==> ages[f] != age,
    decreases ages.len(),
{
    if ages.len() > 0 {
        let rest = ages.drop_last();
        lemma_first_at(rest, age);
        assert forall|f: int| 0 <= f < rest.len() implies rest[f] == ages[f] by {}
    }
}

/// `e` is the first entry of `ages` equal to `age`.
proof fn lemma_first_at_is(ages: Seq<u32>, age: u32, e: int)
    requires
        0 <= e < ages.len(),
        ages[e] == age,
        forall|f: int| 0 <= f < e ==> ages[f] != age,
    ensures
        first_at(ages, age) == Some(e),
{
    lemma_first_at(ages, age);
}

/// The ages of the age groups, in order.
spec fn group_ages(groups: Seq<(u32, Vec<usize>)>) -> Seq<u32> {
    groups.map_values(|g: (u32, Vec<usize>)| g.0)
}

/// How many candidates of the gender kind `same` the cache `c` lists for
/// `age` (none when it lacks the age).
spec fn cache_count(c: FriendCache, age: u32, same: bool) -> int {
    match first_at(c.ages@, age) {
        Some(e) => if same {
            c.same@[e]@.len() as int
        } else {
            c.other@[e]@.len() as int
        },
        None => 0,
    }
}

/// How many candidates of the gender kind `same` a search round finds
/// for `age`: those the cache lists, or else those of the first age group
/// with that age (see [`age_candidates`]).
spec fn round_count(s: Seq<Acquaintable>, k: int, groups: Seq<(u32, Vec<usize>)>, c: FriendCache, age: u32, same: bool) -> int {
    if first_at(c.ages@, age) is Some {
        cache_count(c, age, same)
    } else {
        match first_at(group_ages(groups), age) {
            Some(g) => age_candidates(s, k, groups[g].1@, same).len() as int,
            None => 0,
        }
    }
}

/// The first round of a search for citizen `k` cannot miss: at the two
/// ages it searches, the candidates of the same gender, weighted 33000 in
/// 100000, and of the other gender, weighted 16500, add up to at least
/// 100000.
spec fn first_round_sure(s: Seq<Acquaintable>, k: int, groups: Seq<(u32, Vec<usize>)>, c: FriendCache, adult: u32) -> bool {
    let age = s[k].age;
    let a = target_above(age, adult, 0) as u32;
    let b = target_below(age, adult, 0) as u32;
    (round_count(s, k, groups, c, a, true) + round_count(s, k, groups, c, b, true)) * 33000 + (round_count(
        s,
        k,
        groups,
        c,
        a,
        false,
    ) + round_count(s, k, groups, c, b, false)) * 16500 >= 100000
}

/// What processing the cache for `age` does to the counts: the cache then
/// lists for `age` what a round finds for it, and for every other age
/// what it listed and what a round finds are as before.
proof fn lemma_processed(
    s: Seq<Acquaintable>,
    k: int,
    groups: Seq<(u32, Vec<usize>)>,
    c0: FriendCache,
    c1: FriendCache,
    age: u32,
)
    requires
        c0.ages@.contains(age) ==> c1 == c0,
        !c0.ages@.contains(age) && (forall|e: int| 0 <= e < groups.len() ==> groups[e].0 != age) ==> c1 == c0,
        forall|g: int|
            0 <= g < groups.len() && groups[g].0 == age && (forall|f: int| 0 <= f < g ==> groups[f].0 != age)
                && !c0.ages@.contains(age) ==> age_added(s, k, c0, c1, age, #[trigger] groups[g].1@),
        c0.same@.len() == c0.ages@.len(),
        c0.other@.len() == c0.ages@.len(),
    ensures
        forall|same: bool| cache_count(c1, age, same) == round_count(s, k, groups, c0, age, same),
        forall|same: bool| round_count(s, k, groups, c1, age, same) == round_count(s, k, groups, c0, age, same),
        forall|x: u32, same: bool|
            x != age ==> cache_count(c1, x, same) == cache_count(c0, x, same) && round_count(
                s,
                k,
                groups,
                c1,
                x,
                same,
            ) == round_count(s, k, groups, c0, x, same),
{
    lemma_first_at(c0.ages@, age);
    lemma_first_at(group_ages(groups), age);
    if c0.ages@.contains(age) {
        let e = choose|e: int| 0 <= e < c0.ages@.len() && c0.ages@[e] == age;
        assert(first_at(c0.ages@, age) is Some);
    } else {
        match first_at(group_ages(groups), age) {
            Some(g) => {
                assert(group_ages(groups)[g] == groups[g].0);
                assert forall|f: int| 0 <= f < g implies groups[f].0 != age by {
                    assert(group_ages(groups)[f] == groups[f].0);
                }
                assert(age_added(s, k, c0, c1, age, groups[g].1@));
                assert(c1.ages@.drop_last() == c0.ages@);
                assert(first_at(c1.ages@, age) == Some(c0.ages@.len() as int));
                assert forall|x: u32| x != age implies first_at(c1.ages@, x) == first_at(c0.ages@, x) by {
                    assert(c1.ages@.drop_last() == c0.ages@);
                }
                assert forall|x: u32, same: bool| x != age implies cache_count(c1, x, same) == cache_count(
                    c0,
                    x,
                    same,
                ) by {
                    lemma_first_at(c0.ages@, x);
                    if first_at(c0.ages@, x) is Some {
                        let e = first_at(c0.ages@, x).unwrap();
                        assert(c1.same@[e] == c0.same@[e]);
                        assert(c1.other@[e] == c0.other@[e]);
                    }
                }
            },
            None => {
                assert forall|e: int| 0 <= e < groups.len() implies groups[e].0 != age by {
                    assert(group_ages(groups)[e] == groups[e].0);
                }
            },
        }
    }
}

/// What [`find_age`] finds is the first entry for `age`.
proof fn lemma_first_found(ages: Seq<u32>, age: u32, r: Option<usize>)
    requires
        r matches Some(e) ==> e < ages.len() && ages[e as int] == age && forall|f: int|
            0 <= f < e ==> ages[f] != age,
        r is None ==> !ages.contains(age),
    ensures
        r matches Some(e) ==> first_at(ages, age) == Some(e as int),
        r is None ==> first_at(ages, age) is None,
{
    lemma_first_at(ages, age);
    match r {
        Some(e) => lemma_first_at_is(ages, age, e as int),
        None => {
            if first_at(ages, age) is Some {
                let e = first_at(ages, age).unwrap();
                assert(ages[e] == age);
            }
        },
    }
}

/// A child (younger than the adult age) looks for acquaintances at most 3
/// years younger or older than itself.
pub proof fn lemma_child_friend_age(age: u32, adult: u32, a: int)
    requires
        age < adult,
        friend_age(age, adult, a),
    ensures
        age - 3 <= a <= age + 3,
{
    assert forall|i: int| 0 <= i < 40 implies age <= #[trigger] target_above(age, adult, i) <= age + 3
        && age - 3 <= target_below(age, adult, i) <= age by {
        assert(friend_max_deviation(age, adult) == 3);
        assert(0 <= friend_years(age, adult, i) <= 3);
    }
}

fn len_at(lists: &Vec<Vec<usize>>, e: Option<usize>) -> (n: usize)
    ensures
        e is Some && e.unwrap() < lists.len() ==> n == lists@[e.unwrap() as int].len(),
        !(e is Some && e.unwrap() < lists.len()) ==> n == 0,
{
    match e {
        Some(x) => if x < lists.len() {
            lists[x].len()
        } else {
            0
        },
        None => 0,
    }
}

fn list_at(lists: &Vec<Vec<usize>>, e: Option<usize>) -> (r: Vec<usize>)
    ensures
        e is Some && e.unwrap() < lists.len() ==> r@ == lists@[e.unwrap() as int]@,
        !(e is Some && e.unwrap() < lists.len()) ==> r@.len() == 0,
{
    let mut r: Vec<usize> = Vec::new();
    match e {
        Some(x) => if x < lists.len() {
            let l = &lists[x];
            let mut q: usize = 0;
            while q < l.len()
                invariant
                    q <= l.len(),
                    r@ == l@.take(q as int),
                decreases l.len() - q,
            {
                r.push(l[q]);
                q = q + 1;
                assert(r@ =~= l@.take(q as int));
            }
            assert(l@.take(l.len() as int) =~= l@);
        },
        None => {},
    }
    r
}

/// The candidates of `list` that stay when the one with id `id` leaves.
spec fn kept_candidates(s: Seq<Acquaintable>, list: Seq<usize>, id: Id) -> Seq<usize> {
    list.filter(|j: usize| j < s.len() && s[j as int].id != id)
}

/// The lists `b` are the lists `a` with the one at `e` replaced by its
/// candidates that stay (see [`kept_candidates`]).
spec fn list_dropped(s: Seq<Acquaintable>, a: Seq<Vec<usize>>, b: Seq<Vec<usize>>, e: int, id: Id) -> bool {
    &&& b.len() == a.len()
    &&& b[e]@ == kept_candidates(s, a[e]@, id)
    &&& forall|f: int| 0 <= f < b.len() && f != e ==> #[trigger] b[f] == a[f]
}

/// Takes every candidate with id `id` out of the cache's list for age
/// `age`: the same-gender list when `same_side`, else the other.
fn drop_candidate(
    s: &Vec<Acquaintable>,
    k: usize,
    cache: &mut FriendCache,
    same_side: bool,
    age: u32,
    id: Id,
)
    requires
        k < s.len(),
        cache_ok(s@, k as int, *old(cache)),
        old(cache).ages@.contains(age),
    ensures
        cache_ok(s@, k as int, *final(cache)),
        final(cache).ages == old(cache).ages,
        forall|e: int|
            0 <= e < old(cache).ages.len() && #[trigger] old(cache).ages@[e] == age && (forall|f: int|
                0 <= f < e ==> old(cache).ages@[f] != age) ==> if same_side {
                final(cache).other == old(cache).other && list_dropped(
                    s@,
                    old(cache).same@,
                    final(cache).same@,
                    e,
                    id,
                )
            } else {
                final(cache).same == old(cache).same && list_dropped(
                    s@,
                    old(cache).other@,
                    final(cache).other@,
                    e,
                    id,
                )
            },
{
    let e = find_age(&cache.ages, age).unwrap();
    let ghost c0 = *cache;
    let list = if same_side {
        cache.same.remove(e)
    } else {
        cache.other.remove(e)
    };
    let mut kept: Vec<usize> = Vec::new();
    let mut q: usize = 0;
    while q < list.len()
        invariant
            q <= list.len(),
            forall|p: int| 0 <= p < kept.len() ==> list@.contains(#[trigger] kept@[p]),
            kept@ == kept_candidates(s@, list@.take(q as int), id),
        decreases list.len() - q,
    {
        let j = list[q];
        proof {
            reveal_with_fuel(Seq::filter, 1);
            assert(list@.take(q + 1).drop_last() =~= list@.take(q as int));
            assert(list@.take(q + 1).last() == j);
        }
        if j < s.len() && s[j].id != id {
            assert(list@[q as int] == j);
            kept.push(j);
        }
        assert(kept@ =~= kept_candidates(s@, list@.take(q + 1), id));
        q = q + 1;
    }
    assert(list@.take(list.len() as int) =~= list@);
    if same_side {
        cache.same.insert(e, kept);
    } else {
        cache.other.insert(e, kept);
    }
    proof {
        let c = *cache;
        assert forall|f: int, p: int|
            0 <= f < c.ages.len() && 0 <= p < c.same@[f].len() implies {
            let j = #[trigger] c.same@[f]@[p];
            &&& open_to(s@, k as int, j as int)
            &&& s@[j as int].age == c.ages@[f]
            &&& s@[j as int].gender == s@[k as int].gender
        } by {
            if same_side && f == e {
                let x = c.same@[f]@[p];
                assert(list@.contains(x));
                let w = choose|w: int| 0 <= w < list@.len() && list@[w] == x;
                assert(c0.same@[f]@[w] == x);
            } else {
                assert(c.same@[f] == c0.same@[f]);
            }
        }
        assert forall|f: int, p: int|
            0 <= f < c.ages.len() && 0 <= p < c.other@[f].len() implies {
            let j = #[trigger] c.other@[f]@[p];
            &&& open_to(s@, k as int, j as int)
            &&& s@[j as int].age == c.ages@[f]
            &&& s@[j as int].gender != s@[k as int].gender
        } by {
            if !same_side && f == e {
                let x = c.other@[f]@[p];
                assert(list@.contains(x));
                let w = choose|w: int| 0 <= w < list@.len() && list@[w] == x;
                assert(c0.other@[f]@[w] == x);
            } else {
                assert(c.other@[f] == c0.other@[f]);
            }
        }
    }
}

/// What a round of a search looks for once its roll is drawn: a candidate
/// of the same gender (1) when the roll falls below `same_roll`, one of the
/// other gender (2) when it falls below `same_roll + diff_roll`, else
/// nobody (0).
fn round_kind(roll: u128, same_roll: u128, diff_roll: u128) -> (kind: u8)
    requires
        same_roll + diff_roll <= u128::MAX,
    ensures
        kind == (if roll < same_roll {
            1u8
        } else if roll < same_roll + diff_roll {
            2u8
        } else {
            0u8
        }),
{
    if roll < same_roll {
        1
    } else if roll < same_roll + diff_roll {
        2
    } else {
        0
    }
}

/// The two ages searched in round `i` of a search for a citizen aged
/// `age` (see [`target_above`], [`target_below`]).
fn target_ages(age: u32, adult_age: u32, max_dev: u32, i: u32) -> (r: (u32, u32))
    requires
        friend_age_fits(age, adult_age),
        max_dev == friend_max_deviation(age, adult_age),
    ensures
        r.0 == target_above(age, adult_age, i as int),
        r.1 == target_below(age, adult_age, i as int),
{
    let years: u32 = if i < max_dev {
        i
    } else {
        max_dev
    };
    let above: u32 = age + years;
    let plain: i64 = age as i64 - years as i64;
    let v: i64 = if age > adult_age {
        let d: i64 = wrap_signed(age) - years as i64;
        let cap: i64 = wrap_signed(adult_age);
        if d < cap {
            d
        } else {
            cap
        }
    } else if plain > 0 {
        plain
    } else {
        0
    };
    let below: u32 = if v < 0 {
        (v + 4294967296) as u32
    } else {
        v as u32
    };
    (above, below)
}

/// A new acquaintance for citizen `k`, searched over 40 rounds with a
/// growing age gap (see [`target_above`], [`target_below`]). In each round
/// the candidates of the two ages searched are split by gender; a draw
/// picks the same gender with weight 33 in 100 per candidate, the other
/// with weight 16.5 in 100, or neither; then the younger or the older
/// candidates, by their share, and one of them at random, who leaves the
/// cache. Whatever the draws, an id found is that of an alive citizen other
/// than `k`, not yet related to `k`, at one of the ages searched (within 3
/// years of a child's age), and one is found whenever the first round's
/// draw cannot miss (see [`first_round_sure`]).
fn get_friend(
    s: &Vec<Acquaintable>,
    k: usize,
    groups: &Vec<(u32, Vec<usize>)>,
    cache: &mut FriendCache,
    adult_age: u32,
) -> (r: Option<Id>)
    requires
        k < s.len(),
        friend_age_fits(s@[k as int].age, adult_age),
        groups_ok(s@, groups@),
        cache_ok(s@, k as int, *old(cache)),
    ensures
        cache_ok(s@, k as int, *final(cache)),
        r matches Some(id) ==> exists|j: int|
            open_to(s@, k as int, j) && #[trigger] s@[j].id == id && friend_age(
                s@[k as int].age,
                adult_age,
                s@[j].age as int,
            ) && (s@[k as int].age < adult_age ==> s@[k as int].age - 3 <= s@[j].age <= s@[k as int].age
                + 3),
        first_round_sure(s@, k as int, groups@, *old(cache), adult_age) ==> r is Some,
{
    let ghost c_init = *cache;
    let age = s[k].age;
    let max_dev: u32 = if age < adult_age {
        3
    } else {
        30
    };
    let mut i: u32 = 0;
    while i < 40
        invariant
            k < s.len(),
            age == s@[k as int].age,
            friend_age_fits(age, adult_age),
            max_dev == friend_max_deviation(age, adult_age),
            groups_ok(s@, groups@),
            cache_ok(s@, k as int, *cache),
            i == 0 ==> *cache == c_init,
            i > 0 ==> !first_round_sure(s@, k as int, groups@, c_init, adult_age),
        decreases 40 - i,
    {
        let (above, below) = target_ages(age, adult_age, max_dev, i);
        assert(above == target_above(age, adult_age, i as int));
        assert(below == target_below(age, adult_age, i as int));
        let ghost c0 = *cache;
        process_age_cache(s, k, groups, cache, above);
        let ghost c1 = *cache;
        process_age_cache(s, k, groups, cache, below);
        let ea = find_age(&cache.ages, above);
        let eb = find_age(&cache.ages, below);
        let sa = len_at(&cache.same, ea);
        let sb = len_at(&cache.same, eb);
        let da = len_at(&cache.other, ea);
        let db = len_at(&cache.other, eb);
        let ghost sure = i == 0 && first_round_sure(s@, k as int, groups@, c_init, adult_age);
        proof {
            if sure {
                assert((sa + sb) * 33000 + (da + db) * 16500 >= 100000) by {
                    let c2 = *cache;
                    lemma_processed(s@, k as int, groups@, c0, c1, above);
                    lemma_processed(s@, k as int, groups@, c1, c2, below);
                    lemma_first_found(c2.ages@, above, ea);
                    lemma_first_found(c2.ages@, below, eb);
                    assert(sa == cache_count(c2, above, true));
                    assert(sb == cache_count(c2, below, true));
                    assert(da == cache_count(c2, above, false));
                    assert(db == cache_count(c2, below, false));
                    assert(above == target_above(age, adult_age, 0) as u32);
                    assert(below == target_below(age, adult_age, 0) as u32);
                    if above != below {
                        assert(cache_count(c2, above, true) == cache_count(c1, above, true));
                        assert(cache_count(c2, above, false) == cache_count(c1, above, false));
                    }
                    assert(round_count(s@, k as int, groups@, c1, below, true) == round_count(
                        s@,
                        k as int,
                        groups@,
                        c0,
                        below,
                        true,
                    ));
                    assert(round_count(s@, k as int, groups@, c1, below, false) == round_count(
                        s@,
                        k as int,
                        groups@,
                        c0,
                        below,
                        false,
                    ));
                }
            }
        }
        let same_roll: u128 = (sa as u128 + sb as u128) * 33000;
        let diff_roll: u128 = (da as u128 + db as u128) * 16500;
        let roll = random_below(100000) as u128;
        let kind = round_kind(roll, same_roll, diff_roll);
        let n0: usize = if kind == 1 {
            sb
        } else if kind == 2 {
            db
        } else {
            0
        };
        let n1: usize = if kind == 1 {
            sa
        } else if kind == 2 {
            da
        } else {
            0
        };
        let buffer_choice = match n0.checked_add(n1) {
            Some(total) => if total == 0 {
                false
            } else {
                random_below(total) < n0
            },
            None => false,
        };
        let side = if buffer_choice {
            eb
        } else {
            ea
        };
        let mut target: Vec<usize> = if kind == 1 {
            list_at(&cache.same, side)
        } else if kind == 2 {
            list_at(&cache.other, side)
        } else {
            Vec::new()
        };
        let ghost before = target@;
        shuffle(&mut target);
        proof {
            vstd::seq_lib::to_multiset_len(target@);
            vstd::seq_lib::to_multiset_len(before);
            if sure {
                assert(kind != 0);
                assert(n0 + n1 > 0);
                if buffer_choice {
                    assert(n0 > 0);
                } else {
                    assert(n1 > 0);
                }
                assert(before.len() > 0);
            }
        }
        if target.len() > 0 {
            let j = target[0];
            proof {
                broadcast use vstd::seq_lib::group_to_multiset_ensures;

                assert(target@.to_multiset().count(j) > 0);
                assert(before.contains(j));
                let w = choose|w: int| 0 <= w < before.len() && before[w] == j;
                let e = side.unwrap();
                if kind == 1 {
                    assert(cache.same@[e as int]@[w] == j);
                } else {
                    assert(cache.other@[e as int]@[w] == j);
                }
                assert(cache.ages@[e as int] == s@[j as int].age);
                assert(cache.ages@.contains(s@[j as int].age));
                assert(s@[j as int].age == above || s@[j as int].age == below);
                assert(friend_age(age, adult_age, s@[j as int].age as int)) by {
                    if s@[j as int].age == above {
                        assert(s@[j as int].age == target_above(age, adult_age, i as int));
                    } else {
                        assert(s@[j as int].age == target_below(age, adult_age, i as int));
                    }
                }
                if age < adult_age {
                    lemma_child_friend_age(age, adult_age, s@[j as int].age as int);
                }
            }
            let found = s[j].id;
            drop_candidate(s, k, cache, buffer_choice, s[j].age, found);
            return Some(found);
        }
        assert(!sure);
        i = i + 1;
    }
    None
}

} // verus!

verus! {

/// Citizen `j` can become an acquaintance of citizen `k`: alive, someone
/// else, and not related to `k` already.
pub open spec fn acquaintable(pop: Seq<Mind>, k: int, j: int) -> bool {
    &&& 0 <= j < pop.len()
    &&& pop[j].alive
    &&& pop[j].id != pop[k].id
    &&& !ids_of(pop[j].relations@).contains(pop[k].id)
}

/// Whether `id` can be an acquaintance that citizen `k` finds in a year:
/// an acquaintable citizen (see [`acquaintable`]) at one of the ages
/// searched (see [`friend_age`]).
pub open spec fn friend_found(pop: Seq<Mind>, k: int, adult: u32, id: Id) -> bool {
    exists|j: int|
        acquaintable(pop, k, j) && #[trigger] pop[j].id == id && friend_age(
            pop[k].age,
            adult,
            pop[j].age as int,
        )
}

/// What the draws decide for one social relation in a year.
#[derive(PartialEq, Eq, Structural, Clone, Copy)]
pub enum SocialOutcome {
    Keep,
    Down,
    Up,
}

/// What outcome `o` does to a relation of kind `verb`: `None` leaves it;
/// `Some(None)` ends it; `Some(Some(v))` turns it into `v`. An acquaintance
/// fades away or becomes a friend; a friend becomes an acquaintance or a
/// close friend; a close friend becomes a friend.
pub open spec fn social_change(verb: RelationVerb, o: SocialOutcome) -> Option<Option<RelationVerb>> {
    match (verb, o) {
        (RelationVerb::Acquaintance, SocialOutcome::Down) => Some(None),
        (RelationVerb::Acquaintance, SocialOutcome::Up) => Some(Some(RelationVerb::Friend)),
        (RelationVerb::Friend, SocialOutcome::Down) => Some(Some(RelationVerb::Acquaintance)),
        (RelationVerb::Friend, SocialOutcome::Up) => Some(Some(RelationVerb::CloseFriend)),
        (RelationVerb::CloseFriend, SocialOutcome::Down) => Some(Some(RelationVerb::Friend)),
        _ => None,
    }
}

/// `rels` without relation `old`, then with the relation of kind `new` to
/// the same person, when there is one.
pub open spec fn swapped(rels: Seq<Relation>, old: Relation, new: Option<RelationVerb>) -> Seq<Relation> {
    match new {
        None => without(rels, old),
        Some(v) => without(rels, old).push((v, old.1)),
    }
}

/// Citizen `k`'s relation `rel` changed by outcome `o` (see
/// [`social_change`]), on both sides: on `k`'s, and on that of the citizen
/// it names, toward `k`.
pub open spec fn social_step(
    rels: Seq<Seq<Relation>>,
    pop: Seq<Mind>,
    k: int,
    rel: Relation,
    o: SocialOutcome,
) -> Seq<Seq<Relation>> {
    match social_change(rel.0, o) {
        None => rels,
        Some(nv) => match lookup(pop, rel.1) {
            None => rels,
            Some(j) => {
                let r1 = rels.update(k, swapped(rels[k], rel, nv));
                r1.update(j, swapped(r1[j], (rel.0, pop[k].id), nv))
            },
        },
    }
}

/// Citizen `k`'s relations `list` changed in order, each by the outcome at
/// its index (see [`social_step`]).
pub open spec fn social_steps(
    rels: Seq<Seq<Relation>>,
    pop: Seq<Mind>,
    k: int,
    list: Seq<Relation>,
    os: Seq<SocialOutcome>,
) -> Seq<Seq<Relation>>
    decreases list.len(),
{
    if list.len() == 0 || os.len() == 0 {
        rels
    } else {
        social_step(
            social_steps(rels, pop, k, list.drop_last(), os.drop_last()),
            pop,
            k,
            list.last(),
            os.last(),
        )
    }
}

/// The relations of the citizens, by index.
pub open spec fn rels_of(pop: Seq<Mind>) -> Seq<Seq<Relation>> {
    pop.map_values(|m: Mind| m.relations@)
}

/// The yearly turns of citizens `0 .. oss.len()`: each alive citizen's
/// relations, as they stand at its turn, change by its outcomes.
pub open spec fn friend_turns(
    rels: Seq<Seq<Relation>>,
    pop: Seq<Mind>,
    oss: Seq<Seq<SocialOutcome>>,
) -> Seq<Seq<Relation>>
    decreases oss.len(),
{
    if oss.len() == 0 {
        rels
    } else {
        let prev = friend_turns(rels, pop, oss.drop_last());
        let k = oss.len() - 1;
        if pop[k].alive {
            social_steps(prev, pop, k, prev[k], oss.last())
        } else {
            prev
        }
    }
}

/// The acquaintance relations added for the citizen with id `a` and the
/// people `fs` it met: both ways, in order.
pub open spec fn mutual_adds(a: Id, fs: Seq<Id>) -> Seq<(Id, RelationVerb, Id)>
    decreases fs.len(),
{
    if fs.len() == 0 {
        Seq::empty()
    } else {
        mutual_adds(a, fs.drop_last()).push((a, RelationVerb::Acquaintance, fs.last())).push(
            (fs.last(), RelationVerb::Acquaintance, a),
        )
    }
}

/// The acquaintance relations added for citizens `0 .. found.len()`, each
/// with the people it met.
pub open spec fn all_adds(pop: Seq<Mind>, found: Seq<Seq<Id>>) -> Seq<(Id, RelationVerb, Id)>
    decreases found.len(),
{
    if found.len() == 0 {
        Seq::empty()
    } else {
        all_adds(pop, found.drop_last()) + mutual_adds(pop[found.len() - 1].id, found.last())
    }
}

/// Each addition `(a, v, b)` in order: the citizen with id `a` gains the
/// relation `(v, b)`.
pub open spec fn apply_adds(
    rels: Seq<Seq<Relation>>,
    pop: Seq<Mind>,
    adds: Seq<(Id, RelationVerb, Id)>,
) -> Seq<Seq<Relation>>
    decreases adds.len(),
{
    if adds.len() == 0 {
        rels
    } else {
        let prev = apply_adds(rels, pop, adds.drop_last());
        let x = adds.last();
        match lookup(pop, x.0) {
            Some(j) => prev.update(j, prev[j].push((x.1, x.2))),
            None => prev,
        }
    }
}

/// Every social relation of an alive citizen names a citizen.
pub open spec fn social_known(pop: Seq<Mind>) -> bool {
    forall|k: int, r: int|
        0 <= k < pop.len() && pop[k].alive && 0 <= r < pop[k].relations@.len() && is_social_verb(
            #[trigger] pop[k].relations@[r].0,
        ) ==> has_id(pop, pop[k].relations@[r].1)
}

/// Whether every social relation of each alive citizen (each alive single
/// citizen, when `singles_only`) names a citizen.
pub(crate) fn social_relations_known(pop: &Vec<Mind>, singles_only: bool) -> (b: bool)
    ensures
        b == (forall|k: int, r: int|
            0 <= k < pop@.len() && pop@[k].alive && (singles_only ==> single(pop@[k])) && 0 <= r
                < pop@[k].relations@.len() && is_social_verb(#[trigger] pop@[k].relations@[r].0) ==> has_id(
                pop@,
                pop@[k].relations@[r].1,
            )),
{
    let mut k: usize = 0;
    while k < pop.len()
        invariant
            k <= pop.len(),
            forall|q: int, r: int|
                0 <= q < k && pop@[q].alive && (singles_only ==> single(pop@[q])) && 0 <= r
                    < pop@[q].relations@.len() && is_social_verb(#[trigger] pop@[q].relations@[r].0) ==> has_id(
                    pop@,
                    pop@[q].relations@[r].1,
                ),
        decreases pop.len() - k,
    {
        let m = &pop[k];
        if m.alive && (!singles_only || is_single(m)) {
            let mut r: usize = 0;
            while r < m.relations.len()
                invariant
                    k < pop.len(),
                    *m == pop@[k as int],
                    pop@[k as int].alive,
                    singles_only ==> single(pop@[k as int]),
                    r <= m.relations.len(),
                    forall|j: int|
                        0 <= j < r && is_social_verb(#[trigger] m.relations@[j].0) ==> has_id(
                            pop@,
                            m.relations@[j].1,
                        ),
                decreases m.relations.len() - r,
            {
                if social_verb(m.relations[r].0) && find_index(pop, m.relations[r].1).is_none() {
                    assert(is_social_verb(pop@[k as int].relations@[r as int].0) && !has_id(
                        pop@,
                        pop@[k as int].relations@[r as int].1,
                    ));
                    return false;
                }
                r = r + 1;
            }
        }
        k = k + 1;
    }
    true
}

/// Whether every social relation of an alive citizen names a citizen (see
/// [`social_known`]).
pub fn social_known_exec(pop: &Vec<Mind>) -> (b: bool)
    ensures
        b == social_known(pop@),
{
    social_relations_known(pop, false)
}

/// Only the relations of the citizens changed from `old` to `new`.
pub open spec fn only_relations(old: Seq<Mind>, new: Seq<Mind>) -> bool {
    &&& new.len() == old.len()
    &&& forall|j: int| 0 <= j < old.len() ==> relations_replaced(old[j], #[trigger] new[j], new[j].relations@)
}

} // verus!

verus! {

proof fn lemma_without_subset(s: Seq<Relation>, x: Relation)
    ensures
        forall|i: int| 0 <= i < without(s, x).len() ==> s.contains(#[trigger] without(s, x)[i]),
    decreases s.len(),
{
    if s.len() > 0 {
        lemma_without_subset(s.drop_last(), x);
        let w = without(s.drop_last(), x);
        assert forall|i: int| 0 <= i < without(s, x).len() implies s.contains(
            #[trigger] without(s, x)[i],
        ) by {
            if i < w.len() {
                assert(s.drop_last().contains(w[i]));
                let q = choose|q: int| 0 <= q < s.drop_last().len() && s.drop_last()[q] == w[i];
                assert(s[q] == w[i]);
            } else {
                assert(s[s.len() - 1] == s.last());
            }
        }
    }
}

fn without_exec(rels: &Vec<Relation>, x: Relation) -> (r: Vec<Relation>)
    ensures
        r@ == without(rels@, x),
{
    let mut out: Vec<Relation> = Vec::new();
    let mut i: usize = 0;
    while i < rels.len()
        invariant
            i <= rels.len(),
            out@ == without(rels@.take(i as int), x),
        decreases rels.len() - i,
    {
        assert(rels@.take(i + 1).drop_last() =~= rels@.take(i as int));
        let r = rels[i];
        if !(r.0 == x.0 && r.1 == x.1) {
            out.push(r);
        }
        i = i + 1;
    }
    assert(rels@.take(rels.len() as int) =~= rels@);
    out
}

fn swap_relation(pop: &mut Vec<Mind>, k: usize, old_rel: Relation, new: Option<RelationVerb>)
    requires
        k < old(pop).len(),
    ensures
        final(pop).len() == old(pop).len(),
        relations_replaced(
            old(pop)@[k as int],
            final(pop)@[k as int],
            swapped(old(pop)@[k as int].relations@, old_rel, new),
        ),
        forall|j: int| 0 <= j < old(pop).len() && j != k ==> final(pop)@[j] == old(pop)@[j],
{
    let mut m = pop.remove(k);
    let mut rels = without_exec(&m.relations, old_rel);
    match new {
        Some(v) => {
            rels.push((v, old_rel.1));
        },
        None => {},
    }
    m.relations = rels;
    pop.insert(k, m);
}

/// The number of social relations among `rels`.
pub open spec fn social_count(rels: Seq<Relation>) -> nat
    decreases rels.len(),
{
    if rels.len() == 0 {
        0
    } else {
        social_count(rels.drop_last()) + if is_social_verb(rels.last().0) {
            1nat
        } else {
            0nat
        }
    }
}

fn count_social(rels: &Vec<Relation>) -> (n: usize)
    ensures
        n == social_count(rels@),
{
    let mut n: usize = 0;
    let mut i: usize = 0;
    while i < rels.len()
        invariant
            i <= rels.len(),
            n == social_count(rels@.take(i as int)),
            n <= i,
        decreases rels.len() - i,
    {
        assert(rels@.take(i + 1).drop_last() =~= rels@.take(i as int));
        if social_verb(rels[i].0) {
            n = n + 1;
        }
        i = i + 1;
    }
    assert(rels@.take(rels.len() as int) =~= rels@);
    n
}

/// Every social relation of a citizen alive in `pop` names a citizen of
/// `pop`, as `cur` holds the relations.
spec fn social_known_in(pop: Seq<Mind>, cur: Seq<Mind>) -> bool {
    forall|k: int, r: int|
        0 <= k < cur.len() && pop[k].alive && 0 <= r < cur[k].relations@.len() && is_social_verb(
            #[trigger] cur[k].relations@[r].0,
        ) ==> has_id(pop, cur[k].relations@[r].1)
}

proof fn lemma_own_id(pop: Seq<Mind>, k: int)
    requires
        0 <= k < pop.len(),
    ensures
        has_id(pop, pop[k].id),
{
    lemma_lookup(pop, pop[k].id);
}

/// The outcome `o` the year's draws give a relation of kind `verb` (see
/// [`ratio_drawn`]): an acquaintance fades on a draw of 6 in 10, else
/// becomes a friend on a draw of 1 in 4; a friend becomes an acquaintance on
/// a draw of 1 in 4, else a close friend on a draw of 1 in 8; a close friend
/// becomes a friend on a draw of 1 in 8; otherwise, and for a relation that
/// is not social, nothing changes.
pub open spec fn outcome_possible(verb: RelationVerb, o: SocialOutcome) -> bool {
    if verb == RelationVerb::Acquaintance || verb == RelationVerb::Friend {
        let (dn, dd, un, ud) = if verb == RelationVerb::Acquaintance {
            (6u32, 10u32, 1u32, 4u32)
        } else {
            (1u32, 4u32, 1u32, 8u32)
        };
        match o {
            SocialOutcome::Down => ratio_drawn(dn, dd, true),
            SocialOutcome::Up => ratio_drawn(dn, dd, false) && ratio_drawn(un, ud, true),
            SocialOutcome::Keep => ratio_drawn(dn, dd, false) && ratio_drawn(un, ud, false),
        }
    } else if verb == RelationVerb::CloseFriend {
        match o {
            SocialOutcome::Down => ratio_drawn(1, 8, true),
            SocialOutcome::Up => false,
            SocialOutcome::Keep => ratio_drawn(1, 8, false),
        }
    } else {
        o == SocialOutcome::Keep
    }
}

/// A year's draw for a relation of kind `verb` (see [`social_update`]).
fn draw_social_outcome(verb: RelationVerb) -> (o: SocialOutcome)
    ensures
        outcome_possible(verb, o),
{
    if verb == RelationVerb::Acquaintance || verb == RelationVerb::Friend {
        let (dn, dd, un, ud): (u32, u32, u32, u32) = if verb == RelationVerb::Acquaintance {
            (6, 10, 1, 4)
        } else {
            (1, 4, 1, 8)
        };
        let down = random_ratio(dn, dd);
        proof {
            lemma_ratio_drawn(dn, dd, down);
        }
        if down {
            return SocialOutcome::Down;
        }
        let up = random_ratio(un, ud);
        proof {
            lemma_ratio_drawn(un, ud, up);
        }
        if up {
            SocialOutcome::Up
        } else {
            SocialOutcome::Keep
        }
    } else if verb == RelationVerb::CloseFriend {
        let down = random_ratio(1, 8);
        proof {
            lemma_ratio_drawn(1, 8, down);
        }
        if down {
            SocialOutcome::Down
        } else {
            SocialOutcome::Keep
        }
    } else {
        SocialOutcome::Keep
    }
}

fn social_change_exec(verb: RelationVerb, o: SocialOutcome) -> (r: Option<Option<RelationVerb>>)
    ensures
        r == social_change(verb, o),
{
    match (verb, o) {
        (RelationVerb::Acquaintance, SocialOutcome::Down) => Some(None),
        (RelationVerb::Acquaintance, SocialOutcome::Up) => Some(Some(RelationVerb::Friend)),
        (RelationVerb::Friend, SocialOutcome::Down) => Some(Some(RelationVerb::Acquaintance)),
        (RelationVerb::Friend, SocialOutcome::Up) => Some(Some(RelationVerb::CloseFriend)),
        (RelationVerb::CloseFriend, SocialOutcome::Down) => Some(Some(RelationVerb::Friend)),
        _ => None,
    }
}

/// A year's draw for citizen `k`'s relation `rel`: an acquaintance fades
/// away with chance 6 in 10, else becomes a friend with chance 1 in 4; a
/// friend becomes an acquaintance with chance 1 in 4, else a close friend
/// with chance 1 in 8; a close friend becomes a friend with chance 1 in 8.
/// Both sides change (see [`social_step`]).
fn social_update(pop: &mut Vec<Mind>, k: usize, rel: Relation, Ghost(pop0): Ghost<Seq<Mind>>) -> (o:
    SocialOutcome)
    requires
        k < old(pop).len(),
        only_relations(pop0, old(pop)@),
        social_known_in(pop0, old(pop)@),
        pop0[k as int].alive,
        is_social_verb(rel.0) ==> has_id(pop0, rel.1),
    ensures
        only_relations(pop0, final(pop)@),
        social_known_in(pop0, final(pop)@),
        rels_of(final(pop)@) == social_step(rels_of(old(pop)@), pop0, k as int, rel, o),
        outcome_possible(rel.0, o),
{
    let ghost cur = pop@;
    let (verb, id) = rel;
    let o = draw_social_outcome(verb);
    let change = social_change_exec(verb, o);
    match change {
        None => {
            return o;
        },
        Some(nv) => {
            assert(is_social_verb(verb));
            proof {
                lemma_lookup_same_ids(pop0, cur, id);
                lemma_lookup(cur, id);
                lemma_lookup(pop0, id);
                assert(relations_replaced(pop0[k as int], cur[k as int], cur[k as int].relations@));
            }
            let mind_id = pop[k].id;
            let j = find_index(pop, id).unwrap();
            swap_relation(pop, k, rel, nv);
            let ghost mid = pop@;
            swap_relation(pop, j, (verb, mind_id), nv);
            proof {
                let fin = pop@;
                let r1 = rels_of(cur).update(k as int, swapped(rels_of(cur)[k as int], rel, nv));
                assert(rels_of(mid) =~= r1);
                let r2 = r1.update(j as int, swapped(r1[j as int], (verb, pop0[k as int].id), nv));
                assert(rels_of(fin) =~= r2);
                assert forall|q: int| 0 <= q < pop0.len() implies relations_replaced(
                    pop0[q],
                    #[trigger] fin[q],
                    fin[q].relations@,
                ) by {
                    assert(relations_replaced(pop0[q], cur[q], cur[q].relations@));
                }
                lemma_own_id(pop0, k as int);
                assert forall|q: int, r: int|
                    0 <= q < fin.len() && pop0[q].alive && 0 <= r < fin[q].relations@.len()
                        && is_social_verb(#[trigger] fin[q].relations@[r].0) implies has_id(
                    pop0,
                    fin[q].relations@[r].1,
                ) by {
                    let x = fin[q].relations@[r];
                    if q == j {
                        let w = without(mid[q].relations@, (verb, mind_id));
                        if r < w.len() {
                            lemma_without_subset(mid[q].relations@, (verb, mind_id));
                            assert(mid[q].relations@.contains(x));
                            let p = choose|p: int|
                                0 <= p < mid[q].relations@.len() && mid[q].relations@[p] == x;
                            if q == k {
                                let w0 = without(cur[q].relations@, rel);
                                if p < w0.len() {
                                    lemma_without_subset(cur[q].relations@, rel);
                                    assert(cur[q].relations@.contains(x));
                                    let p2 = choose|p2: int|
                                        0 <= p2 < cur[q].relations@.len() && cur[q].relations@[p2]
                                            == x;
                                    assert(is_social_verb(cur[q].relations@[p2].0));
                                }
                            } else {
                                assert(mid[q] == cur[q]);
                                assert(is_social_verb(cur[q].relations@[p].0));
                            }
                        }
                    } else if q == k {
                        assert(fin[q] == mid[q]);
                        let w0 = without(cur[q].relations@, rel);
                        if r < w0.len() {
                            lemma_without_subset(cur[q].relations@, rel);
                            assert(cur[q].relations@.contains(x));
                            let p2 = choose|p2: int|
                                0 <= p2 < cur[q].relations@.len() && cur[q].relations@[p2] == x;
                            assert(is_social_verb(cur[q].relations@[p2].0));
                        }
                    } else {
                        assert(fin[q] == cur[q]);
                    }
                }
            }
            o
        },
    }
}

} // verus!

verus! {

fn copy_relations(rels: &Vec<Relation>) -> (r: Vec<Relation>)
    ensures
        r@ == rels@,
{
    let mut out: Vec<Relation> = Vec::new();
    let mut i: usize = 0;
    while i < rels.len()
        invariant
            i <= rels.len(),
            out@ == rels@.take(i as int),
        decreases rels.len() - i,
    {
        out.push(rels[i]);
        i = i + 1;
        assert(out@ =~= rels@.take(i as int));
    }
    assert(rels@.take(rels.len() as int) =~= rels@);
    out
}

fn push_relation(pop: &mut Vec<Mind>, j: usize, rel: Relation)
    requires
        j < old(pop).len(),
    ensures
        final(pop).len() == old(pop).len(),
        relations_replaced(old(pop)@[j as int], final(pop)@[j as int], old(pop)@[j as int].relations@.push(rel)),
        forall|q: int| 0 <= q < old(pop).len() && q != j ==> final(pop)@[q] == old(pop)@[q],
{
    let mut m = pop.remove(j);
    m.relations.push(rel);
    pop.insert(j, m);
}

/// Citizen `k` meets up to `count` new people (see [`get_friend`]); each
/// meeting adds an acquaintance relation both ways to `adds`.
fn meet_people(
    s: &Vec<Acquaintable>,
    k: usize,
    groups: &Vec<(u32, Vec<usize>)>,
    adult_age: u32,
    count: usize,
    adds: &mut Vec<(Id, RelationVerb, Id)>,
) -> (found: Ghost<Seq<Id>>)
    requires
        k < s.len(),
        friend_age_fits(s@[k as int].age, adult_age),
        groups_ok(s@, groups@),
    ensures
        found@.len() <= count,
        final(adds)@ == old(adds)@ + mutual_adds(s@[k as int].id, found@),
        forall|q: int|
            #![trigger found@[q]]
            0 <= q < found@.len() ==> exists|j: int|
                open_to(s@, k as int, j) && #[trigger] s@[j].id == found@[q] && friend_age(
                    s@[k as int].age,
                    adult_age,
                    s@[j].age as int,
                ),
{
    let ghost adds0 = adds@;
    let mind_id = s[k].id;
    let mut cache = FriendCache { ages: Vec::new(), same: Vec::new(), other: Vec::new() };
    let ghost mut found: Seq<Id> = Seq::empty();
    let mut q: usize = 0;
    while q < count
        invariant
            q <= count,
            k < s.len(),
            mind_id == s@[k as int].id,
            friend_age_fits(s@[k as int].age, adult_age),
            groups_ok(s@, groups@),
            cache_ok(s@, k as int, cache),
            found.len() <= q,
            adds@ == adds0 + mutual_adds(mind_id, found),
            forall|p: int|
                #![trigger found[p]]
                0 <= p < found.len() ==> exists|j: int|
                    open_to(s@, k as int, j) && #[trigger] s@[j].id == found[p] && friend_age(
                        s@[k as int].age,
                        adult_age,
                        s@[j].age as int,
                    ),
        decreases count - q,
    {
        match get_friend(s, k, groups, &mut cache, adult_age) {
            Some(fid) => {
                adds.push((mind_id, RelationVerb::Acquaintance, fid));
                adds.push((fid, RelationVerb::Acquaintance, mind_id));
                proof {
                    let nf = found.push(fid);
                    assert(nf.drop_last() =~= found);
                    assert(adds@ =~= adds0 + mutual_adds(mind_id, nf));
                    assert forall|p: int| #![trigger nf[p]] 0 <= p < nf.len() implies exists|j: int|
                        open_to(s@, k as int, j) && #[trigger] s@[j].id == nf[p] && friend_age(
                            s@[k as int].age,
                            adult_age,
                            s@[j].age as int,
                        ) by {
                        if p < found.len() {
                            assert(nf[p] == found[p]);
                        }
                    }
                    found = nf;
                }
            },
            None => {},
        }
        q = q + 1;
    }
    Ghost(found)
}

/// Each outcome in `os` is what the draws give the relation at its index
/// in `rels` (see [`outcome_possible`]), one for each relation.
pub open spec fn outcomes_possible(rels: Seq<Relation>, os: Seq<SocialOutcome>) -> bool {
    &&& os.len() == rels.len()
    &&& forall|q: int| 0 <= q < os.len() ==> outcome_possible(rels[q].0, #[trigger] os[q])
}

/// The year's draws for each of citizen `k`'s relations, as they stand, in
/// order (see [`social_update`]).
fn age_relations(pop: &mut Vec<Mind>, k: usize, Ghost(pop0): Ghost<Seq<Mind>>) -> (os: Ghost<
    Seq<SocialOutcome>,
>)
    requires
        k < old(pop).len(),
        only_relations(pop0, old(pop)@),
        social_known_in(pop0, old(pop)@),
        pop0[k as int].alive,
    ensures
        only_relations(pop0, final(pop)@),
        social_known_in(pop0, final(pop)@),
        rels_of(final(pop)@) == social_steps(
            rels_of(old(pop)@),
            pop0,
            k as int,
            old(pop)@[k as int].relations@,
            os@,
        ),
        outcomes_possible(old(pop)@[k as int].relations@, os@),
{
    let ghost prev = rels_of(pop@);
    let rels = copy_relations(&pop[k].relations);
    assert forall|q: int| 0 <= q < rels.len() && is_social_verb(#[trigger] rels@[q].0) implies has_id(
        pop0,
        rels@[q].1,
    ) by {
        assert(pop@[k as int].relations@[q] == rels@[q]);
    }
    let ghost mut os: Seq<SocialOutcome> = Seq::empty();
    let mut r: usize = 0;
    while r < rels.len()
        invariant
            r <= rels.len(),
            k < pop.len(),
            pop0[k as int].alive,
            only_relations(pop0, pop@),
            social_known_in(pop0, pop@),
            os.len() == r,
            rels@ == prev[k as int],
            forall|q: int|
                0 <= q < rels.len() && is_social_verb(#[trigger] rels@[q].0) ==> has_id(
                    pop0,
                    rels@[q].1,
                ),
            rels_of(pop@) == social_steps(prev, pop0, k as int, rels@.take(r as int), os),
            forall|q: int| 0 <= q < r ==> outcome_possible(rels@[q].0, #[trigger] os[q]),
        decreases rels.len() - r,
    {
        let rel = rels[r];
        let o = social_update(pop, k, rel, Ghost(pop0));
        proof {
            let no = os.push(o);
            let nl = rels@.take(r + 1);
            assert(no.drop_last() =~= os);
            assert(nl.drop_last() =~= rels@.take(r as int));
            assert forall|q: int| 0 <= q < r + 1 implies outcome_possible(rels@[q].0, #[trigger] no[q]) by {
                if q < r {
                    assert(no[q] == os[q]);
                }
            }
            os = no;
        }
        r = r + 1;
    }
    assert(rels@.take(rels.len() as int) =~= rels@);
    assert(rels@ == old(pop)@[k as int].relations@);
    Ghost(os)
}

} // verus!

verus! {

proof fn lemma_found_valid(pop: Seq<Mind>, s: Seq<Acquaintable>, k: int, adult: u32, fs: Seq<Id>)
    requires
        snapshot_of(pop, s),
        0 <= k < pop.len(),
        forall|q: int|
            #![trigger fs[q]]
            0 <= q < fs.len() ==> exists|j: int|
                open_to(s, k, j) && #[trigger] s[j].id == fs[q] && friend_age(
                    s[k].age,
                    adult,
                    s[j].age as int,
                ),
    ensures
        forall|q: int| 0 <= q < fs.len() ==> friend_found(pop, k, adult, #[trigger] fs[q]),
{
    assert forall|q: int| 0 <= q < fs.len() implies friend_found(pop, k, adult, #[trigger] fs[q]) by {
        let j = choose|j: int|
            open_to(s, k, j) && #[trigger] s[j].id == fs[q] && friend_age(
                s[k].age,
                adult,
                s[j].age as int,
            );
        assert(s[j].id == pop[j].id);
        assert(s[k] == s[k]);
        assert(acquaintable(pop, k, j));
    }
}

/// What the yearly round of friendship makes of the city `c0` (see
/// [`link_friends_within_population_by_year`]): `c1`.
pub open spec fn friends_linked(c0: City, c1: City) -> bool {
    &&& same_but_citizens(c0, c1)
    &&& only_relations(c0.citizens@, c1.citizens@)
    &&& exists|found: Seq<Seq<Id>>, oss: Seq<Seq<SocialOutcome>>|
        #![trigger friend_turns(rels_of(c0.citizens@), c0.citizens@, oss), all_adds(c0.citizens@, found)]
        {
            &&& found.len() == c0.citizens.len()
            &&& oss.len() == c0.citizens.len()
            &&& forall|k: int|
                0 <= k < found.len() ==> (#[trigger] found[k]).len() < 20 && (!c0.citizens@[k].alive ==> found[k].len() == 0)
            &&& forall|k: int|
                0 <= k < found.len() && (#[trigger] found[k]).len() > 0 ==> found[k].len() + social_count(
                    friend_turns(rels_of(c0.citizens@), c0.citizens@, oss.take(k))[k],
                ) <= 19
            &&& forall|k: int|
                0 <= k < oss.len() ==> if c0.citizens@[k].alive {
                    outcomes_possible(friend_turns(rels_of(c0.citizens@), c0.citizens@, oss.take(k))[k], #[trigger] oss[k])
                } else {
                    oss[k].len() == 0
                }
            &&& forall|k: int, q: int|
                0 <= k < found.len() && 0 <= q < found[k].len() ==> friend_found(
                    c0.citizens@,
                    k,
                    c0.culture.adult_age,
                    #[trigger] found[k][q],
                )
            &&& rels_of(c1.citizens@) == apply_adds(
                friend_turns(rels_of(c0.citizens@), c0.citizens@, oss),
                c0.citizens@,
                all_adds(c0.citizens@, found),
            )
        }
}

/// The yearly round of friendship among alive citizens. Each alive citizen
/// in turn meets a number of new people drawn below 20, less its count of
/// social relations (see [`social_count`]); each meeting (see
/// [`friend_found`]) is recorded to add an acquaintance relation both ways.
/// Then each of its relations, as they stand, may change (see
/// [`social_step`]). The acquaintances met are added at the end (see
/// [`apply_adds`]). Only relations change. Every social relation of an alive
/// citizen must name a citizen, and every alive citizen's age must be one
/// the search takes (see [`friend_ages_fit`]).
pub fn link_friends_within_population_by_year<'a>(city: &'a mut City) -> (r: &'a mut City)
    requires
        friend_ages_fit(old(city).citizens@, old(city).culture.adult_age),
        social_known(old(city).citizens@),
    ensures
        friends_linked(*old(city), *r),
        *final(city) == *final(r),
{
    let ghost pop0 = city.citizens@;
    let adult_age = city.culture.adult_age;
    let snap = snapshot(&city.citizens);
    let groups = hash_population_by_age(&snap);
    let mut adds: Vec<(Id, RelationVerb, Id)> = Vec::new();
    let ghost mut found: Seq<Seq<Id>> = Seq::empty();
    let ghost mut oss: Seq<Seq<SocialOutcome>> = Seq::empty();
    proof {
        assert forall|q: int| 0 <= q < pop0.len() implies relations_replaced(
            pop0[q],
            #[trigger] pop0[q],
            pop0[q].relations@,
        ) by {}
    }
    let n = city.citizens.len();
    let mut k: usize = 0;
    while k < n
        invariant
            k <= n == city.citizens.len() == pop0.len() == snap.len(),
            pop0 == old(city).citizens@,
            adult_age == city.culture.adult_age,
            same_but_citizens(*old(city), *city),
            friend_ages_fit(pop0, adult_age),
            snapshot_of(pop0, snap@),
            groups_ok(snap@, groups@),
            only_relations(pop0, city.citizens@),
            social_known_in(pop0, city.citizens@),
            found.len() == k,
            oss.len() == k,
            forall|j: int|
                0 <= j < found.len() ==> (#[trigger] found[j]).len() < 20 && (!pop0[j].alive
                    ==> found[j].len() == 0),
            forall|j: int|
                0 <= j < found.len() && (#[trigger] found[j]).len() > 0 ==> found[j].len() + social_count(
                    friend_turns(rels_of(pop0), pop0, oss.take(j))[j],
                ) <= 19,
            forall|j: int|
                0 <= j < oss.len() ==> if pop0[j].alive {
                    outcomes_possible(friend_turns(rels_of(pop0), pop0, oss.take(j))[j], #[trigger] oss[j])
                } else {
                    oss[j].len() == 0
                },
            forall|j: int, q: int|
                0 <= j < found.len() && 0 <= q < found[j].len() ==> friend_found(
                    pop0,
                    j,
                    adult_age,
                    #[trigger] found[j][q],
                ),
            adds@ == all_adds(pop0, found),
            rels_of(city.citizens@) == friend_turns(rels_of(pop0), pop0, oss),
        decreases n - k,
    {
        let ghost prev = rels_of(city.citizens@);
        let ghost mut found_k: Seq<Id> = Seq::empty();
        let ghost mut os_k: Seq<SocialOutcome> = Seq::empty();
        assert(snap@[k as int].alive == pop0[k as int].alive);
        if snap[k].alive {
            let friend_count = count_social(&city.citizens[k].relations);
            let roll = random_below(20);
            let count: usize = if roll > friend_count {
                roll - friend_count
            } else {
                0
            };
            assert(snap@[k as int].age == pop0[k as int].age);
            let met = meet_people(&snap, k, &groups, adult_age, count, &mut adds);
            proof {
                found_k = met@;
                assert(city.citizens@[k as int].relations@ == prev[k as int]);
                assert(found_k.len() > 0 ==> found_k.len() + social_count(prev[k as int]) <= 19);
                lemma_found_valid(pop0, snap@, k as int, adult_age, found_k);
                assert(snap@[k as int].id == pop0[k as int].id);
            }
            let aged = age_relations(&mut city.citizens, k, Ghost(pop0));
            proof {
                os_k = aged@;
                assert(outcomes_possible(prev[k as int], os_k));
            }
        }
        proof {
            let nf = found.push(found_k);
            let no = oss.push(os_k);
            assert(nf.drop_last() =~= found);
            assert(no.drop_last() =~= oss);
            if !pop0[k as int].alive {
                assert(all_adds(pop0, found) + mutual_adds(pop0[k as int].id, found_k) =~= all_adds(
                    pop0,
                    found,
                ));
            }
            assert(adds@ == all_adds(pop0, nf));
            assert(rels_of(city.citizens@) == friend_turns(rels_of(pop0), pop0, no));
            assert forall|j: int, q: int|
                0 <= j < nf.len() && 0 <= q < nf[j].len() implies friend_found(
                    pop0,
                    j,
                    adult_age,
                    #[trigger] nf[j][q],
                ) by {
                if j < found.len() {
                    assert(nf[j] == found[j]);
                }
            }
            assert forall|j: int|
                0 <= j < nf.len() && (#[trigger] nf[j]).len() > 0 implies nf[j].len() + social_count(
                    friend_turns(rels_of(pop0), pop0, no.take(j))[j],
                ) <= 19 by {
                if j < found.len() {
                    assert(nf[j] == found[j]);
                    assert(no.take(j) =~= oss.take(j));
                } else {
                    assert(no.take(j) =~= oss);
                }
            }
            assert forall|j: int| 0 <= j < no.len() implies if pop0[j].alive {
                outcomes_possible(friend_turns(rels_of(pop0), pop0, no.take(j))[j], #[trigger] no[j])
            } else {
                no[j].len() == 0
            } by {
                if j < oss.len() {
                    assert(no.take(j) =~= oss.take(j));
                    assert(no[j] == oss[j]);
                } else {
                    assert(no.take(j) =~= oss);
                }
            }
            found = nf;
            oss = no;
        }
        k = k + 1;
    }
    let ghost base = rels_of(city.citizens@);
    let mut a: usize = 0;
    while a < adds.len()
        invariant
            a <= adds.len(),
            pop0 == old(city).citizens@,
            same_but_citizens(*old(city), *city),
            only_relations(pop0, city.citizens@),
            rels_of(city.citizens@) == apply_adds(base, pop0, adds@.take(a as int)),
        decreases adds.len() - a,
    {
        let (x, v, y) = adds[a];
        let ghost cur = city.citizens@;
        proof {
            lemma_lookup_same_ids(pop0, cur, x);
            lemma_lookup(cur, x);
            let na = adds@.take(a + 1);
            assert(na.drop_last() =~= adds@.take(a as int));
            assert(na.last() == adds@[a as int]);
        }
        match find_index(&city.citizens, x) {
            Some(j) => {
                push_relation(&mut city.citizens, j, (v, y));
                proof {
                    let fin = city.citizens@;
                    assert(rels_of(fin) =~= rels_of(cur).update(
                        j as int,
                        rels_of(cur)[j as int].push((v, y)),
                    ));
                    assert forall|q: int| 0 <= q < pop0.len() implies relations_replaced(
                        pop0[q],
                        #[trigger] fin[q],
                        fin[q].relations@,
                    ) by {
                        assert(relations_replaced(pop0[q], cur[q], cur[q].relations@));
                    }
                }
            },
            None => {},
        }
        a = a + 1;
    }
    proof {
        assert(adds@.take(adds.len() as int) =~= adds@);
    }
    city
}

} // verus!

verus! {

/// Social relations among the citizens `pop`, with the relations `rels` by
/// index, go both ways: citizen `a` holds a social relation of some kind to
/// citizen `b` exactly when `b` holds one of that kind to `a`.
pub open spec fn social_symmetric(pop: Seq<Mind>, rels: Seq<Seq<Relation>>) -> bool {
    &&& rels.len() == pop.len()
    &&& forall|a: int, b: int, v: RelationVerb|
        #![trigger rels[a].contains((v, pop[b].id))]
        0 <= a < pop.len() && 0 <= b < pop.len() && is_social_verb(v) ==> (rels[a].contains((v, pop[b].id))
            <==> rels[b].contains((v, pop[a].id)))
}

proof fn lemma_without_iff(s: Seq<Relation>, r: Relation, x: Relation)
    ensures
        without(s, r).contains(x) <==> s.contains(x) && x != r,
    decreases s.len(),
{
    if s.len() > 0 {
        let rest = s.drop_last();
        lemma_without_iff(rest, r, x);
        let w = without(rest, r);
        if without(s, r).contains(x) {
            let i = choose|i: int| 0 <= i < without(s, r).len() && without(s, r)[i] == x;
            if s.last() != r && i == w.len() {
                assert(s[s.len() - 1] == x);
            } else {
                assert(w[i] == x);
                let q = choose|q: int| 0 <= q < rest.len() && rest[q] == x;
                assert(s[q] == x);
            }
        }
        if s.contains(x) && x != r {
            let q = choose|q: int| 0 <= q < s.len() && s[q] == x;
            if q == s.len() - 1 {
                assert(without(s, r) == w.push(x));
                assert(without(s, r)[w.len() as int] == x);
            } else {
                assert(rest[q] == x);
                let i = choose|i: int| 0 <= i < w.len() && w[i] == x;
                if s.last() != r {
                    assert(without(s, r)[i] == x);
                }
            }
        }
    }
}

proof fn lemma_push_iff(s: Seq<Relation>, y: Relation, x: Relation)
    ensures
        s.push(y).contains(x) <==> s.contains(x) || x == y,
{
    if s.push(y).contains(x) {
        let i = choose|i: int| 0 <= i < s.len() + 1 && s.push(y)[i] == x;
        if i < s.len() {
            assert(s[i] == x);
        }
    }
    if s.contains(x) {
        let i = choose|i: int| 0 <= i < s.len() && s[i] == x;
        assert(s.push(y)[i] == x);
    }
    assert(s.push(y)[s.len() as int] == y);
}

proof fn lemma_swapped_iff(s: Seq<Relation>, old: Relation, nv: Option<RelationVerb>, x: Relation)
    ensures
        swapped(s, old, nv).contains(x) <==> (s.contains(x) && x != old) || (nv matches Some(w) && x == (w, old.1)),
{
    lemma_without_iff(s, old, x);
    if let Some(w) = nv {
        lemma_push_iff(without(s, old), (w, old.1), x);
    }
}

proof fn lemma_social_step_symmetric(rels: Seq<Seq<Relation>>, pop: Seq<Mind>, k: int, rel: Relation, o: SocialOutcome)
    requires
        social_symmetric(pop, rels),
        citizen_ids_distinct(pop),
        0 <= k < pop.len(),
    ensures
        social_symmetric(pop, social_step(rels, pop, k, rel, o)),
{
    lemma_lookup(pop, rel.1);
    if let Some(nv) = social_change(rel.0, o) {
        if let Some(j) = lookup(pop, rel.1) {
            let r1 = rels.update(k, swapped(rels[k], rel, nv));
            let back = (rel.0, pop[k].id);
            let r2 = r1.update(j, swapped(r1[j], back, nv));
            assert(r2 == social_step(rels, pop, k, rel, o));
            assert forall|a: int, b: int, v: RelationVerb|
                0 <= a < pop.len() && 0 <= b < pop.len() && is_social_verb(v) implies (r2[a].contains(
                (v, pop[b].id),
            ) <==> r2[b].contains((v, pop[a].id))) by {
                let xa = (v, pop[a].id);
                let xb = (v, pop[b].id);
                lemma_swapped_iff(rels[k], rel, nv, xa);
                lemma_swapped_iff(rels[k], rel, nv, xb);
                lemma_swapped_iff(r1[j], back, nv, xa);
                lemma_swapped_iff(r1[j], back, nv, xb);
                assert(rels[a].contains(xb) <==> rels[b].contains(xa));
                if a != b {
                    assert(pop[a].id != pop[b].id);
                }
                if j != k {
                    assert(pop[j].id != pop[k].id);
                }
                if a != j {
                    assert(pop[a].id != pop[j].id);
                }
                if b != j {
                    assert(pop[b].id != pop[j].id);
                }
                if a != k {
                    assert(pop[a].id != pop[k].id);
                }
                if b != k {
                    assert(pop[b].id != pop[k].id);
                }
                assert(rels[k].contains((v, pop[j].id)) <==> rels[j].contains((v, pop[k].id)));
            }
        }
    }
}

proof fn lemma_social_steps_symmetric(
    rels: Seq<Seq<Relation>>,
    pop: Seq<Mind>,
    k: int,
    list: Seq<Relation>,
    os: Seq<SocialOutcome>,
)
    requires
        social_symmetric(pop, rels),
        citizen_ids_distinct(pop),
        0 <= k < pop.len(),
    ensures
        social_symmetric(pop, social_steps(rels, pop, k, list, os)),
    decreases list.len(),
{
    if list.len() > 0 && os.len() > 0 {
        lemma_social_steps_symmetric(rels, pop, k, list.drop_last(), os.drop_last());
        lemma_social_step_symmetric(
            social_steps(rels, pop, k, list.drop_last(), os.drop_last()),
            pop,
            k,
            list.last(),
            os.last(),
        );
    }
}

proof fn lemma_friend_turns_symmetric(rels: Seq<Seq<Relation>>, pop: Seq<Mind>, oss: Seq<Seq<SocialOutcome>>)
    requires
        social_symmetric(pop, rels),
        citizen_ids_distinct(pop),
        oss.len() <= pop.len(),
    ensures
        social_symmetric(pop, friend_turns(rels, pop, oss)),
    decreases oss.len(),
{
    if oss.len() > 0 {
        lemma_friend_turns_symmetric(rels, pop, oss.drop_last());
        let prev = friend_turns(rels, pop, oss.drop_last());
        let k = oss.len() - 1;
        if pop[k].alive {
            lemma_social_steps_symmetric(prev, pop, k, prev[k], oss.last());
        }
    }
}

proof fn lemma_apply_concat(
    rels: Seq<Seq<Relation>>,
    pop: Seq<Mind>,
    a: Seq<(Id, RelationVerb, Id)>,
    b: Seq<(Id, RelationVerb, Id)>,
)
    ensures
        apply_adds(rels, pop, a + b) == apply_adds(apply_adds(rels, pop, a), pop, b),
    decreases b.len(),
{
    if b.len() == 0 {
        assert(a + b =~= a);
    } else {
        assert((a + b).drop_last() =~= a + b.drop_last());
        assert((a + b).last() == b.last());
        lemma_apply_concat(rels, pop, a, b.drop_last());
    }
}

/// Adding an acquaintance relation both ways between two citizens keeps
/// social relations symmetric.
proof fn lemma_pair_symmetric(rels: Seq<Seq<Relation>>, pop: Seq<Mind>, x: Id, y: Id)
    requires
        social_symmetric(pop, rels),
        citizen_ids_distinct(pop),
        has_id(pop, x),
        has_id(pop, y),
    ensures
        social_symmetric(
            pop,
            apply_adds(rels, pop, seq![(x, RelationVerb::Acquaintance, y), (y, RelationVerb::Acquaintance, x)]),
        ),
{
    let adds = seq![(x, RelationVerb::Acquaintance, y), (y, RelationVerb::Acquaintance, x)];
    lemma_lookup(pop, x);
    lemma_lookup(pop, y);
    let kx = lookup(pop, x).unwrap();
    let ky = lookup(pop, y).unwrap();
    let r1 = rels.update(kx, rels[kx].push((RelationVerb::Acquaintance, y)));
    let r2 = r1.update(ky, r1[ky].push((RelationVerb::Acquaintance, x)));
    assert(adds.drop_last() =~= seq![(x, RelationVerb::Acquaintance, y)]);
    assert(adds.drop_last().drop_last() =~= Seq::<(Id, RelationVerb, Id)>::empty());
    assert(apply_adds(rels, pop, adds.drop_last().drop_last()) == rels);
    assert(adds.drop_last().last() == (x, RelationVerb::Acquaintance, y));
    assert(apply_adds(rels, pop, adds.drop_last()) == r1);
    assert(apply_adds(rels, pop, adds) == r2);
    assert forall|a: int, b: int, v: RelationVerb|
        0 <= a < pop.len() && 0 <= b < pop.len() && is_social_verb(v) implies (r2[a].contains((v, pop[b].id))
        <==> r2[b].contains((v, pop[a].id))) by {
        let xa = (v, pop[a].id);
        let xb = (v, pop[b].id);
        lemma_push_iff(rels[kx], (RelationVerb::Acquaintance, y), xa);
        lemma_push_iff(rels[kx], (RelationVerb::Acquaintance, y), xb);
        lemma_push_iff(r1[ky], (RelationVerb::Acquaintance, x), xa);
        lemma_push_iff(r1[ky], (RelationVerb::Acquaintance, x), xb);
        assert(rels[a].contains(xb) <==> rels[b].contains(xa));
        if a != b {
            assert(pop[a].id != pop[b].id);
        }
        if a != kx {
            assert(pop[a].id != pop[kx].id);
        }
        if b != kx {
            assert(pop[b].id != pop[kx].id);
        }
        if a != ky {
            assert(pop[a].id != pop[ky].id);
        }
        if b != ky {
            assert(pop[b].id != pop[ky].id);
        }
    }
}

proof fn lemma_mutual_symmetric(rels: Seq<Seq<Relation>>, pop: Seq<Mind>, x: Id, fs: Seq<Id>)
    requires
        social_symmetric(pop, rels),
        citizen_ids_distinct(pop),
        has_id(pop, x),
        forall|q: int| 0 <= q < fs.len() ==> has_id(pop, #[trigger] fs[q]),
    ensures
        social_symmetric(pop, apply_adds(rels, pop, mutual_adds(x, fs))),
    decreases fs.len(),
{
    if fs.len() > 0 {
        let rest = fs.drop_last();
        assert forall|q: int| 0 <= q < rest.len() implies has_id(pop, #[trigger] rest[q]) by {
            assert(rest[q] == fs[q]);
        }
        lemma_mutual_symmetric(rels, pop, x, rest);
        let y = fs.last();
        let pair = seq![(x, RelationVerb::Acquaintance, y), (y, RelationVerb::Acquaintance, x)];
        assert(mutual_adds(x, fs) =~= mutual_adds(x, rest) + pair);
        lemma_apply_concat(rels, pop, mutual_adds(x, rest), pair);
        lemma_pair_symmetric(apply_adds(rels, pop, mutual_adds(x, rest)), pop, x, y);
    }
}

proof fn lemma_all_adds_symmetric(rels: Seq<Seq<Relation>>, pop: Seq<Mind>, found: Seq<Seq<Id>>)
    requires
        social_symmetric(pop, rels),
        citizen_ids_distinct(pop),
        found.len() <= pop.len(),
        forall|k: int, q: int| 0 <= k < found.len() && 0 <= q < found[k].len() ==> has_id(pop, #[trigger] found[k][q]),
    ensures
        social_symmetric(pop, apply_adds(rels, pop, all_adds(pop, found))),
    decreases found.len(),
{
    if found.len() > 0 {
        let rest = found.drop_last();
        let n = found.len() - 1;
        assert forall|k: int, q: int| 0 <= k < rest.len() && 0 <= q < rest[k].len() implies has_id(
            pop,
            #[trigger] rest[k][q],
        ) by {
            assert(rest[k] == found[k]);
        }
        lemma_all_adds_symmetric(rels, pop, rest);
        lemma_apply_concat(rels, pop, all_adds(pop, rest), mutual_adds(pop[n].id, found.last()));
        lemma_lookup(pop, pop[n].id);
        assert forall|q: int| 0 <= q < found.last().len() implies has_id(pop, #[trigger] found.last()[q]) by {
            assert(found.last()[q] == found[n][q]);
        }
        lemma_mutual_symmetric(apply_adds(rels, pop, all_adds(pop, rest)), pop, pop[n].id, found.last());
    }
}

/// The yearly round of friendship (see
/// [`link_friends_within_population_by_year`]) keeps social relations
/// symmetric: when every social relation among the citizens goes both ways
/// before, and citizens are known by their ids, it goes both ways after
/// the relations change by the draws (see [`friend_turns`]) and the
/// acquaintances met, all of them citizens, are added both ways (see
/// [`apply_adds`]).
pub proof fn lemma_friend_year_symmetric(pop: Seq<Mind>, oss: Seq<Seq<SocialOutcome>>, found: Seq<Seq<Id>>)
    requires
        citizen_ids_distinct(pop),
        social_symmetric(pop, rels_of(pop)),
        oss.len() <= pop.len(),
        found.len() <= pop.len(),
        forall|k: int, q: int| 0 <= k < found.len() && 0 <= q < found[k].len() ==> has_id(pop, #[trigger] found[k][q]),
    ensures
        social_symmetric(pop, apply_adds(friend_turns(rels_of(pop), pop, oss), pop, all_adds(pop, found))),
{
    lemma_friend_turns_symmetric(rels_of(pop), pop, oss);
    lemma_all_adds_symmetric(friend_turns(rels_of(pop), pop, oss), pop, found);
}


/// No citizen of `pop` holds a social relation to itself.
pub open spec fn no_self_social(pop: Seq<Mind>, rels: Seq<Seq<Relation>>) -> bool {
    &&& rels.len() == pop.len()
    &&& forall|a: int, v: RelationVerb|
        0 <= a < pop.len() && is_social_verb(v) ==> !(#[trigger] rels[a].contains((v, pop[a].id)))
}

proof fn lemma_social_step_no_self(rels: Seq<Seq<Relation>>, pop: Seq<Mind>, k: int, rel: Relation, o: SocialOutcome)
    requires
        no_self_social(pop, rels),
        citizen_ids_distinct(pop),
        0 <= k < pop.len(),
        is_social_verb(rel.0) ==> rel.1 != pop[k].id,
    ensures
        no_self_social(pop, social_step(rels, pop, k, rel, o)),
{
    lemma_lookup(pop, rel.1);
    if let Some(nv) = social_change(rel.0, o) {
        if let Some(j) = lookup(pop, rel.1) {
            let r1 = rels.update(k, swapped(rels[k], rel, nv));
            let back = (rel.0, pop[k].id);
            let r2 = r1.update(j, swapped(r1[j], back, nv));
            assert(r2 == social_step(rels, pop, k, rel, o));
            assert(j != k);
            assert forall|a: int, v: RelationVerb| 0 <= a < pop.len() && is_social_verb(v) implies !(
            #[trigger] r2[a].contains((v, pop[a].id))) by {
                let xa = (v, pop[a].id);
                lemma_swapped_iff(rels[k], rel, nv, xa);
                lemma_swapped_iff(r1[j], back, nv, xa);
                if a != j {
                    assert(pop[a].id != pop[j].id);
                }
                if a != k {
                    assert(pop[a].id != pop[k].id);
                }
            }
        }
    }
}

proof fn lemma_social_steps_no_self(
    rels: Seq<Seq<Relation>>,
    pop: Seq<Mind>,
    k: int,
    list: Seq<Relation>,
    os: Seq<SocialOutcome>,
)
    requires
        no_self_social(pop, rels),
        citizen_ids_distinct(pop),
        0 <= k < pop.len(),
        forall|i: int| 0 <= i < list.len() && is_social_verb((#[trigger] list[i]).0) ==> list[i].1 != pop[k].id,
    ensures
        no_self_social(pop, social_steps(rels, pop, k, list, os)),
    decreases list.len(),
{
    if list.len() > 0 && os.len() > 0 {
        let rest = list.drop_last();
        assert forall|i: int| 0 <= i < rest.len() && is_social_verb((#[trigger] rest[i]).0) implies rest[i].1
            != pop[k].id by {
            assert(rest[i] == list[i]);
        }
        lemma_social_steps_no_self(rels, pop, k, rest, os.drop_last());
        assert(list.last() == list[list.len() - 1]);
        lemma_social_step_no_self(social_steps(rels, pop, k, rest, os.drop_last()), pop, k, list.last(), os.last());
    }
}

proof fn lemma_friend_turns_no_self(rels: Seq<Seq<Relation>>, pop: Seq<Mind>, oss: Seq<Seq<SocialOutcome>>)
    requires
        no_self_social(pop, rels),
        citizen_ids_distinct(pop),
        oss.len() <= pop.len(),
    ensures
        no_self_social(pop, friend_turns(rels, pop, oss)),
    decreases oss.len(),
{
    if oss.len() > 0 {
        lemma_friend_turns_no_self(rels, pop, oss.drop_last());
        let prev = friend_turns(rels, pop, oss.drop_last());
        let k = oss.len() - 1;
        if pop[k].alive {
            assert forall|i: int| 0 <= i < prev[k].len() && is_social_verb((#[trigger] prev[k][i]).0) implies prev[k][i].1
                != pop[k].id by {
                if prev[k][i].1 == pop[k].id {
                    assert(prev[k].contains((prev[k][i].0, pop[k].id)));
                }
            }
            lemma_social_steps_no_self(prev, pop, k, prev[k], oss.last());
        }
    }
}

proof fn lemma_mutual_no_self(rels: Seq<Seq<Relation>>, pop: Seq<Mind>, x: Id, fs: Seq<Id>)
    requires
        no_self_social(pop, rels),
        citizen_ids_distinct(pop),
        has_id(pop, x),
        forall|q: int| 0 <= q < fs.len() ==> has_id(pop, #[trigger] fs[q]) && fs[q] != x,
    ensures
        no_self_social(pop, apply_adds(rels, pop, mutual_adds(x, fs))),
    decreases fs.len(),
{
    if fs.len() > 0 {
        let rest = fs.drop_last();
        assert forall|q: int| 0 <= q < rest.len() implies has_id(pop, #[trigger] rest[q]) && rest[q] != x by {
            assert(rest[q] == fs[q]);
        }
        lemma_mutual_no_self(rels, pop, x, rest);
        let y = fs.last();
        assert(has_id(pop, fs[fs.len() - 1]));
        let pair = seq![(x, RelationVerb::Acquaintance, y), (y, RelationVerb::Acquaintance, x)];
        assert(mutual_adds(x, fs) =~= mutual_adds(x, rest) + pair);
        lemma_apply_concat(rels, pop, mutual_adds(x, rest), pair);
        let r0 = apply_adds(rels, pop, mutual_adds(x, rest));
        lemma_lookup(pop, x);
        lemma_lookup(pop, y);
        let kx = lookup(pop, x).unwrap();
        let ky = lookup(pop, y).unwrap();
        let r1 = r0.update(kx, r0[kx].push((RelationVerb::Acquaintance, y)));
        let r2 = r1.update(ky, r1[ky].push((RelationVerb::Acquaintance, x)));
        assert(pair.drop_last() =~= seq![(x, RelationVerb::Acquaintance, y)]);
        assert(pair.drop_last().drop_last() =~= Seq::<(Id, RelationVerb, Id)>::empty());
        assert(apply_adds(r0, pop, pair.drop_last().drop_last()) == r0);
        assert(pair.drop_last().last() == (x, RelationVerb::Acquaintance, y));
        assert(apply_adds(r0, pop, pair.drop_last()) == r1);
        assert(apply_adds(r0, pop, pair) == r2);
        assert forall|a: int, v: RelationVerb| 0 <= a < pop.len() && is_social_verb(v) implies !(
        #[trigger] r2[a].contains((v, pop[a].id))) by {
            let xa = (v, pop[a].id);
            lemma_push_iff(r0[kx], (RelationVerb::Acquaintance, y), xa);
            lemma_push_iff(r1[ky], (RelationVerb::Acquaintance, x), xa);
        }
    }
}

proof fn lemma_all_adds_no_self(rels: Seq<Seq<Relation>>, pop: Seq<Mind>, found: Seq<Seq<Id>>)
    requires
        no_self_social(pop, rels),
        citizen_ids_distinct(pop),
        found.len() <= pop.len(),
        forall|k: int, q: int|
            0 <= k < found.len() && 0 <= q < found[k].len() ==> has_id(pop, #[trigger] found[k][q]) && found[k][q]
                != pop[k].id,
    ensures
        no_self_social(pop, apply_adds(rels, pop, all_adds(pop, found))),
    decreases found.len(),
{
    if found.len() > 0 {
        let rest = found.drop_last();
        let n = found.len() - 1;
        assert forall|k: int, q: int| 0 <= k < rest.len() && 0 <= q < rest[k].len() implies has_id(
            pop,
            #[trigger] rest[k][q],
        ) && rest[k][q] != pop[k].id by {
            assert(rest[k] == found[k]);
        }
        lemma_all_adds_no_self(rels, pop, rest);
        lemma_apply_concat(rels, pop, all_adds(pop, rest), mutual_adds(pop[n].id, found.last()));
        lemma_lookup(pop, pop[n].id);
        assert forall|q: int| 0 <= q < found.last().len() implies has_id(pop, #[trigger] found.last()[q])
            && found.last()[q] != pop[n].id by {
            assert(found.last()[q] == found[n][q]);
        }
        lemma_mutual_no_self(apply_adds(rels, pop, all_adds(pop, rest)), pop, pop[n].id, found.last());
    }
}

/// The yearly round of friendship (see
/// [`link_friends_within_population_by_year`]) gives nobody a social
/// relation to itself: when no citizen holds one before, and citizens are
/// known by their ids, none holds one after the relations change by the
/// draws (see [`friend_turns`]) and the acquaintances met, all of them
/// citizens other than the one who met them, are added both ways (see
/// [`apply_adds`]).
pub proof fn lemma_friend_year_no_self(pop: Seq<Mind>, oss: Seq<Seq<SocialOutcome>>, found: Seq<Seq<Id>>)
    requires
        citizen_ids_distinct(pop),
        no_self_social(pop, rels_of(pop)),
        oss.len() <= pop.len(),
        found.len() <= pop.len(),
        forall|k: int, q: int|
            0 <= k < found.len() && 0 <= q < found[k].len() ==> has_id(pop, #[trigger] found[k][q]) && found[k][q]
                != pop[k].id,
    ensures
        no_self_social(pop, apply_adds(friend_turns(rels_of(pop), pop, oss), pop, all_adds(pop, found))),
{
    lemma_friend_turns_no_self(rels_of(pop), pop, oss);
    lemma_all_adds_no_self(friend_turns(rels_of(pop), pop, oss), pop, found);
}


/// Citizen `a` and the person with id `id` are related, one way or the
/// other, among the citizens `pop`: `a` holds a relation to `id`, or a
/// citizen with id `id` holds one to `a`.
pub open spec fn related_either(pop: Seq<Mind>, a: int, id: Id) -> bool {
    ||| ids_of(pop[a].relations@).contains(id)
    ||| exists|b: int| 0 <= b < pop.len() && pop[b].id == id && #[trigger] ids_of(pop[b].relations@).contains(pop[a].id)
}

/// Every relation among `rels` joins two people related before (see
/// [`related_either`]).
spec fn turns_related(pop: Seq<Mind>, rels: Seq<Seq<Relation>>) -> bool {
    &&& rels.len() == pop.len()
    &&& forall|a: int, x: Relation| 0 <= a < pop.len() && #[trigger] rels[a].contains(x) ==> related_either(pop, a, x.1)
}

/// Some alive citizen has the id `id`.
spec fn alive_id(pop: Seq<Mind>, id: Id) -> bool {
    exists|d: int| 0 <= d < pop.len() && pop[d].alive && #[trigger] pop[d].id == id
}

/// An addition between two alive citizens, as an acquaintance.
spec fn alive_add(pop: Seq<Mind>, e: (Id, RelationVerb, Id)) -> bool {
    &&& e.1 == RelationVerb::Acquaintance
    &&& exists|c: int| 0 <= c < pop.len() && pop[c].alive && #[trigger] pop[c].id == e.0
    &&& exists|d: int| 0 <= d < pop.len() && pop[d].alive && #[trigger] pop[d].id == e.2
}

proof fn lemma_ids_of_has(rels: Seq<Relation>, x: Relation)
    requires
        rels.contains(x),
    ensures
        ids_of(rels).contains(x.1),
{
    let i = choose|i: int| 0 <= i < rels.len() && rels[i] == x;
    assert(ids_of(rels)[i] == x.1);
}

proof fn lemma_social_step_related(rels: Seq<Seq<Relation>>, pop: Seq<Mind>, k: int, rel: Relation, o: SocialOutcome)
    requires
        turns_related(pop, rels),
        citizen_ids_distinct(pop),
        0 <= k < pop.len(),
        related_either(pop, k, rel.1),
    ensures
        turns_related(pop, social_step(rels, pop, k, rel, o)),
{
    lemma_lookup(pop, rel.1);
    if let Some(nv) = social_change(rel.0, o) {
        if let Some(j) = lookup(pop, rel.1) {
            let r1 = rels.update(k, swapped(rels[k], rel, nv));
            let back = (rel.0, pop[k].id);
            let r2 = r1.update(j, swapped(r1[j], back, nv));
            assert(r2 == social_step(rels, pop, k, rel, o));
            assert(related_either(pop, j, pop[k].id)) by {
                if ids_of(pop[k].relations@).contains(pop[j].id) {
                    assert(pop[k].id == pop[k].id);
                } else {
                    let b = choose|b: int|
                        0 <= b < pop.len() && pop[b].id == rel.1 && #[trigger] ids_of(pop[b].relations@).contains(pop[k].id);
                    if b != j {
                        assert(pop[b].id != pop[j].id);
                    }
                }
            }
            assert forall|a: int, x: Relation| 0 <= a < pop.len() && #[trigger] r2[a].contains(x) implies related_either(
                pop,
                a,
                x.1,
            ) by {
                lemma_swapped_iff(rels[k], rel, nv, x);
                lemma_swapped_iff(r1[j], back, nv, x);
            }
        }
    }
}

proof fn lemma_social_steps_related(
    rels: Seq<Seq<Relation>>,
    pop: Seq<Mind>,
    k: int,
    list: Seq<Relation>,
    os: Seq<SocialOutcome>,
)
    requires
        turns_related(pop, rels),
        citizen_ids_distinct(pop),
        0 <= k < pop.len(),
        forall|i: int| 0 <= i < list.len() ==> related_either(pop, k, (#[trigger] list[i]).1),
    ensures
        turns_related(pop, social_steps(rels, pop, k, list, os)),
    decreases list.len(),
{
    if list.len() > 0 && os.len() > 0 {
        let rest = list.drop_last();
        assert forall|i: int| 0 <= i < rest.len() implies related_either(pop, k, (#[trigger] rest[i]).1) by {
            assert(rest[i] == list[i]);
        }
        lemma_social_steps_related(rels, pop, k, rest, os.drop_last());
        assert(list.last() == list[list.len() - 1]);
        lemma_social_step_related(social_steps(rels, pop, k, rest, os.drop_last()), pop, k, list.last(), os.last());
    }
}

proof fn lemma_friend_turns_related(pop: Seq<Mind>, oss: Seq<Seq<SocialOutcome>>)
    requires
        citizen_ids_distinct(pop),
        oss.len() <= pop.len(),
    ensures
        turns_related(pop, friend_turns(rels_of(pop), pop, oss)),
    decreases oss.len(),
{
    if oss.len() == 0 {
        assert forall|a: int, x: Relation| 0 <= a < pop.len() && #[trigger] rels_of(pop)[a].contains(x) implies related_either(
            pop,
            a,
            x.1,
        ) by {
            lemma_ids_of_has(pop[a].relations@, x);
        }
    } else {
        lemma_friend_turns_related(pop, oss.drop_last());
        let prev = friend_turns(rels_of(pop), pop, oss.drop_last());
        let k = oss.len() - 1;
        if pop[k].alive {
            assert forall|i: int| 0 <= i < prev[k].len() implies related_either(pop, k, (#[trigger] prev[k][i]).1) by {
                assert(prev[k].contains(prev[k][i]));
            }
            lemma_social_steps_related(prev, pop, k, prev[k], oss.last());
        }
    }
}

/// What the additions `adds` give citizen `a` came from `rels` or from one
/// of the additions for `a`.
proof fn lemma_apply_adds_from(rels: Seq<Seq<Relation>>, pop: Seq<Mind>, adds: Seq<(Id, RelationVerb, Id)>, a: int, x: Relation)
    requires
        rels.len() == pop.len(),
        0 <= a < pop.len(),
        apply_adds(rels, pop, adds)[a].contains(x),
    ensures
        apply_adds(rels, pop, adds).len() == pop.len(),
        rels[a].contains(x) || exists|i: int|
            0 <= i < adds.len() && lookup(pop, (#[trigger] adds[i]).0) == Some(a) && x == (adds[i].1, adds[i].2),
    decreases adds.len(),
{
    lemma_apply_adds_len(rels, pop, adds);
    if adds.len() > 0 {
        let rest = adds.drop_last();
        let prev = apply_adds(rels, pop, rest);
        let e = adds.last();
        lemma_apply_adds_len(rels, pop, rest);
        lemma_lookup(pop, e.0);
        match lookup(pop, e.0) {
            Some(j) => {
                lemma_push_iff(prev[j], (e.1, e.2), x);
                if a != j || prev[a].contains(x) {
                    lemma_apply_adds_from(rels, pop, rest, a, x);
                    if !rels[a].contains(x) {
                        let i = choose|i: int|
                            0 <= i < rest.len() && lookup(pop, (#[trigger] rest[i]).0) == Some(a) && x == (rest[i].1, rest[i].2);
                        assert(adds[i] == rest[i]);
                    }
                } else {
                    assert(adds[adds.len() - 1] == e);
                }
            },
            None => {
                lemma_apply_adds_from(rels, pop, rest, a, x);
                if !rels[a].contains(x) {
                    let i = choose|i: int|
                        0 <= i < rest.len() && lookup(pop, (#[trigger] rest[i]).0) == Some(a) && x == (rest[i].1, rest[i].2);
                    assert(adds[i] == rest[i]);
                }
            },
        }
    }
}

proof fn lemma_apply_adds_len(rels: Seq<Seq<Relation>>, pop: Seq<Mind>, adds: Seq<(Id, RelationVerb, Id)>)
    requires
        rels.len() == pop.len(),
    ensures
        apply_adds(rels, pop, adds).len() == pop.len(),
    decreases adds.len(),
{
    if adds.len() > 0 {
        lemma_apply_adds_len(rels, pop, adds.drop_last());
        lemma_lookup(pop, adds.last().0);
    }
}

proof fn lemma_mutual_alive(pop: Seq<Mind>, c: int, fs: Seq<Id>)
    requires
        0 <= c < pop.len(),
        pop[c].alive,
        forall|q: int| 0 <= q < fs.len() ==> alive_id(pop, #[trigger] fs[q]),
    ensures
        forall|i: int| 0 <= i < mutual_adds(pop[c].id, fs).len() ==> alive_add(pop, #[trigger] mutual_adds(pop[c].id, fs)[i]),
    decreases fs.len(),
{
    if fs.len() > 0 {
        let rest = fs.drop_last();
        assert forall|q: int| 0 <= q < rest.len() implies alive_id(pop, #[trigger] rest[q]) by {
            assert(rest[q] == fs[q]);
        }
        lemma_mutual_alive(pop, c, rest);
        let x = pop[c].id;
        let y = fs.last();
        let m = mutual_adds(x, fs);
        let m0 = mutual_adds(x, rest);
        assert(m == m0.push((x, RelationVerb::Acquaintance, y)).push((y, RelationVerb::Acquaintance, x)));
        assert(alive_id(pop, fs[fs.len() - 1]));
        let d = choose|d: int| 0 <= d < pop.len() && pop[d].alive && #[trigger] pop[d].id == fs[fs.len() - 1];
        assert forall|i: int| 0 <= i < m.len() implies alive_add(pop, #[trigger] m[i]) by {
            if i < m0.len() {
                assert(m[i] == m0[i]);
            } else if i == m0.len() {
                assert(m[i] == (x, RelationVerb::Acquaintance, y));
                assert(pop[c].id == m[i].0);
                assert(pop[d].id == m[i].2);
            } else {
                assert(m[i] == (y, RelationVerb::Acquaintance, x));
                assert(pop[d].id == m[i].0);
                assert(pop[c].id == m[i].2);
            }
        }
    }
}

proof fn lemma_all_adds_alive(pop: Seq<Mind>, adult: u32, found: Seq<Seq<Id>>)
    requires
        found.len() <= pop.len(),
        forall|k: int| 0 <= k < found.len() && !pop[k].alive ==> (#[trigger] found[k]).len() == 0,
        forall|k: int, q: int| 0 <= k < found.len() && 0 <= q < found[k].len() ==> friend_found(pop, k, adult, #[trigger] found[k][q]),
    ensures
        forall|i: int| 0 <= i < all_adds(pop, found).len() ==> alive_add(pop, #[trigger] all_adds(pop, found)[i]),
    decreases found.len(),
{
    if found.len() > 0 {
        let rest = found.drop_last();
        let n = found.len() - 1;
        assert forall|k: int| 0 <= k < rest.len() && !pop[k].alive implies (#[trigger] rest[k]).len() == 0 by {
            assert(rest[k] == found[k]);
        }
        assert forall|k: int, q: int| 0 <= k < rest.len() && 0 <= q < rest[k].len() implies friend_found(
            pop,
            k,
            adult,
            #[trigger] rest[k][q],
        ) by {
            assert(rest[k] == found[k]);
        }
        lemma_all_adds_alive(pop, adult, rest);
        let a0 = all_adds(pop, rest);
        let m = mutual_adds(pop[n].id, found.last());
        assert(all_adds(pop, found) == a0 + m);
        if found.last().len() > 0 {
            assert(found[n].len() > 0);
            assert forall|q: int| 0 <= q < found.last().len() implies alive_id(pop, #[trigger] found.last()[q]) by {
                assert(found.last()[q] == found[n][q]);
                assert(friend_found(pop, n, adult, found[n][q]));
                let j = choose|j: int|
                    acquaintable(pop, n, j) && #[trigger] pop[j].id == found[n][q] && friend_age(
                        pop[n].age,
                        adult,
                        pop[j].age as int,
                    );
                assert(pop[j].id == found.last()[q]);
            }
            lemma_mutual_alive(pop, n, found.last());
        } else {
            assert(m.len() == 0);
        }
        assert forall|i: int| 0 <= i < (a0 + m).len() implies alive_add(pop, #[trigger] (a0 + m)[i]) by {
            if i < a0.len() {
                assert((a0 + m)[i] == a0[i]);
            } else {
                assert((a0 + m)[i] == m[i - a0.len()]);
            }
        }
    }
}

/// The yearly round of friendship (see
/// [`link_friends_within_population_by_year`]): when citizens are known by
/// their ids, two citizens who were not related either way before and are
/// acquaintances after are both alive. The people met (see
/// [`friend_found`]) are as that function's contract gives them: none for a
/// dead citizen.
pub proof fn lemma_friend_year_new_pairs_alive(
    pop: Seq<Mind>,
    adult: u32,
    oss: Seq<Seq<SocialOutcome>>,
    found: Seq<Seq<Id>>,
)
    requires
        citizen_ids_distinct(pop),
        oss.len() <= pop.len(),
        found.len() <= pop.len(),
        forall|k: int| 0 <= k < found.len() && !pop[k].alive ==> (#[trigger] found[k]).len() == 0,
        forall|k: int, q: int| 0 <= k < found.len() && 0 <= q < found[k].len() ==> friend_found(pop, k, adult, #[trigger] found[k][q]),
    ensures
        ({
            let after = apply_adds(friend_turns(rels_of(pop), pop, oss), pop, all_adds(pop, found));
            forall|a: int, b: int|
                #![trigger after[a].contains((RelationVerb::Acquaintance, pop[b].id))]
                0 <= a < pop.len() && 0 <= b < pop.len() && after[a].contains((RelationVerb::Acquaintance, pop[b].id))
                    && !related_either(pop, a, pop[b].id) ==> pop[a].alive && pop[b].alive
        }),
{
    let turns = friend_turns(rels_of(pop), pop, oss);
    let adds = all_adds(pop, found);
    let after = apply_adds(turns, pop, adds);
    lemma_friend_turns_related(pop, oss);
    lemma_all_adds_alive(pop, adult, found);
    assert forall|a: int, b: int|
        0 <= a < pop.len() && 0 <= b < pop.len() && after[a].contains((RelationVerb::Acquaintance, pop[b].id))
            && !related_either(pop, a, pop[b].id) implies pop[a].alive && pop[b].alive by {
        let x = (RelationVerb::Acquaintance, pop[b].id);
        lemma_apply_adds_from(turns, pop, adds, a, x);
        if !turns[a].contains(x) {
            let i = choose|i: int| 0 <= i < adds.len() && lookup(pop, (#[trigger] adds[i]).0) == Some(a) && x == (adds[i].1, adds[i].2);
            assert(alive_add(pop, adds[i]));
            lemma_lookup(pop, adds[i].0);
            let c = choose|c: int| 0 <= c < pop.len() && pop[c].alive && #[trigger] pop[c].id == adds[i].0;
            let d = choose|d: int| 0 <= d < pop.len() && pop[d].alive && #[trigger] pop[d].id == adds[i].2;
            if c != a {
                assert(pop[c].id != pop[a].id);
            }
            if d != b {
                assert(pop[d].id != pop[b].id);
            }
        }
    }
}


/// The place of a social relation on the scale none < acquaintance <
/// friend < close friend.
pub open spec fn social_rank(v: Option<RelationVerb>) -> int {
    match v {
        Some(RelationVerb::Acquaintance) => 1,
        Some(RelationVerb::Friend) => 2,
        Some(RelationVerb::CloseFriend) => 3,
        _ => 0,
    }
}

/// The year's change of a social relation (see [`social_change`]) moves it
/// one step on the scale none < acquaintance < friend < close friend: one
/// up for `Up` (a close friend goes no higher), one down for `Down` (an
/// acquaintance fades away), and not at all for `Keep`.
pub proof fn lemma_social_change_steps(v: RelationVerb, o: SocialOutcome)
    requires
        is_social_verb(v),
    ensures
        o == SocialOutcome::Keep ==> social_change(v, o) is None,
        o == SocialOutcome::Down ==> (social_change(v, o) matches Some(nv) && social_rank(nv) == social_rank(
            Some(v),
        ) - 1),
        o == SocialOutcome::Up && v != RelationVerb::CloseFriend ==> (social_change(v, o) matches Some(nv)
            && social_rank(nv) == social_rank(Some(v)) + 1),
        o == SocialOutcome::Up && v == RelationVerb::CloseFriend ==> social_change(v, o) is None,
{
}


/// An adult (of the adult age or older) looks for acquaintances at most 30
/// years older than itself, and a child at most 3; the older age searched
/// grows by a year each round up to that gap.
pub proof fn lemma_friend_age_above(age: u32, adult: u32, i: int)
    requires
        0 <= i,
    ensures
        age >= adult ==> age <= target_above(age, adult, i) <= age + 30,
        age < adult ==> age <= target_above(age, adult, i) <= age + 3,
        age >= adult && i <= 30 ==> target_above(age, adult, i) == age + i,
        age < adult && i <= 3 ==> target_above(age, adult, i) == age + i,
{
}

} // verus!
