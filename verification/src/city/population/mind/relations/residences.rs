//! Where citizens live: evictions, and homes found for the homeless.
use crate::city::building::{area_infos, area_views, collect_areas, AreaInfo, AreaRef};
use crate::city::locations::{find_location, find_location_exec, Location};
use crate::city::population::mind::relations::{
    find_relation_index, first_live_relation, lemma_lookup_same_ids, same_but_citizens,
    RelationVerb, ADULT_AGE_FROM,
};
use crate::city::population::mind::{
    add_residence_to_mind_log, logged, lookup, residence_line, state_of_mind, states, Mind,
    MindState,
};
use crate::city::City;
use crate::random::{lemma_ratio_drawn, random_ratio, ratio_drawn, shuffle, Id};
use vstd::prelude::*;

verus! {

fn holds_id(ids: &Vec<Id>, id: Id) -> (b: bool)
    ensures
        b == ids@.contains(id),
{
    let mut i: usize = 0;
    while i < ids.len()
        invariant
            i <= ids.len(),
            forall|j: int| 0 <= j < i ==> ids@[j] != id,
        decreases ids.len() - i,
    {
        if ids[i] == id {
            return true;
        }
        i = i + 1;
    }
    false
}

/// A citizen after the evictions of the areas `evicted`: an alive citizen
/// with a residence loses it when the area is evicted, or when it is 18.
pub open spec fn evicted_state(m: MindState, evicted: Seq<Id>) -> MindState {
    if m.alive && m.residence is Some && (evicted.contains(m.residence.unwrap()) || m.age == 18) {
        MindState { residence: None, ..m }
    } else {
        m
    }
}

/// Every citizen after the evictions of the areas `evicted`.
pub open spec fn evicted_states(st: Seq<MindState>, evicted: Seq<Id>) -> Seq<MindState> {
    st.map_values(|m: MindState| evicted_state(m, evicted))
}

/// The ids of a list of areas.
pub open spec fn info_ids(infos: Seq<AreaInfo>) -> Seq<Id> {
    infos.map_values(|a: AreaInfo| a.id)
}

fn set_residence(pop: &mut Vec<Mind>, k: usize, residence: Option<Id>)
    requires
        k < old(pop).len(),
    ensures
        final(pop).len() == old(pop).len(),
        states(final(pop)@) == states(old(pop)@).update(
            k as int,
            MindState { residence: residence, ..states(old(pop)@)[k as int] },
        ),
{
    let ghost pop0 = pop@;
    let mut m = pop.remove(k);
    m.residence = residence;
    pop.insert(k, m);
    assert(states(pop@) =~= states(pop0).update(
        k as int,
        MindState { residence: residence, ..states(pop0)[k as int] },
    ));
}

/// The ids among `ids` whose draws in `draws` came up, in order.
pub open spec fn drawn_ids(ids: Seq<Id>, draws: Seq<bool>) -> Seq<Id>
    decreases ids.len(),
{
    if ids.len() == 0 {
        Seq::empty()
    } else {
        let rest = drawn_ids(ids.drop_last(), draws);
        if draws[ids.len() - 1] {
            rest.push(ids.last())
        } else {
            rest
        }
    }
}

/// One draw for each of `n` areas, each a draw of 5 in 100 (see
/// [`ratio_drawn`]).
pub open spec fn eviction_draws(n: nat, draws: Seq<bool>) -> bool {
    &&& draws.len() == n
    &&& forall|a: int| 0 <= a < n ==> ratio_drawn(5, 100, #[trigger] draws[a])
}

/// Draws past the end of the ids leave [`drawn_ids`] as it is.
proof fn lemma_drawn_ids_prefix(ids: Seq<Id>, d0: Seq<bool>, d1: Seq<bool>)
    requires
        ids.len() <= d0.len() <= d1.len(),
        forall|i: int| 0 <= i < d0.len() ==> d1[i] == d0[i],
    ensures
        drawn_ids(ids, d1) == drawn_ids(ids, d0),
    decreases ids.len(),
{
    if ids.len() > 0 {
        lemma_drawn_ids_prefix(ids.drop_last(), d0, d1);
    }
}

/// What the yearly evictions make of the city `c0` (see
/// [`random_evictions`]): `c1`.
pub open spec fn evictions_done(c0: City, c1: City) -> bool {
    &&& same_but_citizens(c0, c1)
    &&& exists|evicted: Seq<Id>, draws: Seq<bool>|
        #![trigger evicted_states(states(c0.citizens@), evicted), drawn_ids(info_ids(area_infos(c0.buildings@)), draws)]
        (forall|i: int|
            0 <= i < evicted.len() ==> info_ids(area_infos(c0.buildings@)).contains(
                #[trigger] evicted[i],
            )) && eviction_draws(area_infos(c0.buildings@).len(), draws) && evicted == drawn_ids(
            info_ids(area_infos(c0.buildings@)),
            draws,
        ) && states(c1.citizens@) == evicted_states(states(c0.citizens@), evicted)
}

/// The yearly evictions: each area of each building is evicted with chance
/// 5 in 100, and every alive citizen living in an evicted area, or aged 18,
/// loses its residence (see [`evicted_state`]).
pub fn random_evictions<'a>(city: &'a mut City) -> (r: &'a mut City)
    ensures
        evictions_done(*old(city), *r),
        *final(city) == *final(r),
{
    let ghost st0 = states(city.citizens@);
    let areas = collect_areas(&city.buildings);
    let ghost ids = info_ids(area_views(areas@));
    let mut evicted: Vec<Id> = Vec::new();
    let ghost mut draws: Seq<bool> = Seq::empty();
    let mut a: usize = 0;
    while a < areas.len()
        invariant
            a <= areas.len(),
            ids == info_ids(area_views(areas@)),
            forall|i: int| 0 <= i < evicted.len() ==> ids.contains(#[trigger] evicted@[i]),
            eviction_draws(a as nat, draws),
            evicted@ == drawn_ids(ids.take(a as int), draws),
        decreases areas.len() - a,
    {
        let drawn = random_ratio(5, 100);
        proof {
            lemma_ratio_drawn(5, 100, drawn);
        }
        let ghost d0 = draws;
        let ghost e0 = evicted@;
        if drawn {
            assert(ids[a as int] == areas@[a as int].id);
            evicted.push(areas[a].id);
        }
        proof {
            draws = d0.push(drawn);
            let t = ids.take(a + 1);
            assert(t.drop_last() =~= ids.take(a as int));
            lemma_drawn_ids_prefix(ids.take(a as int), d0, draws);
            assert forall|i: int| 0 <= i < a + 1 implies ratio_drawn(5, 100, #[trigger] draws[i]) by {
                if i < a {
                    assert(draws[i] == d0[i]);
                }
            }
        }
        a = a + 1;
    }
    proof {
        assert(ids.take(areas.len() as int) =~= ids);
    }
    let n = city.citizens.len();
    let mut k: usize = 0;
    while k < n
        invariant
            k <= n == city.citizens.len() == st0.len(),
            st0 == states(old(city).citizens@),
            same_but_citizens(*old(city), *city),
            forall|j: int| 0 <= j < k ==> states(city.citizens@)[j] == evicted_state(st0[j], evicted@),
            forall|j: int| k <= j < n ==> states(city.citizens@)[j] == st0[j],
        decreases n - k,
    {
        let ghost cur = states(city.citizens@);
        assert(cur[k as int] == state_of_mind(city.citizens@[k as int]));
        let m = &city.citizens[k];
        let evict = match m.residence {
            Some(res) => m.alive && (holds_id(&evicted, res) || m.age == 18),
            None => false,
        };
        if evict {
            set_residence(&mut city.citizens, k, None);
        }
        proof {
            let fin = states(city.citizens@);
            assert forall|j: int| 0 <= j < k + 1 implies fin[j] == evicted_state(st0[j], evicted@) by {
                if j < k {
                    assert(fin[j] == cur[j]);
                }
            }
            assert forall|j: int| k + 1 <= j < n implies fin[j] == st0[j] by {
                assert(fin[j] == cur[j]);
            }
        }
        k = k + 1;
    }
    proof {
        assert(states(city.citizens@) =~= evicted_states(st0, evicted@));
        assert(ids == info_ids(area_infos(old(city).buildings@)));
    }
    city
}

} // verus!

verus! {

/// An id is among [`drawn_ids`] exactly when some entry with that id had
/// its draw come up.
proof fn lemma_drawn_ids_has(ids: Seq<Id>, draws: Seq<bool>, x: Id)
    ensures
        drawn_ids(ids, draws).contains(x) <==> exists|a: int| 0 <= a < ids.len() && #[trigger] draws[a] && ids[a] == x,
    decreases ids.len(),
{
    if ids.len() > 0 {
        let rest = ids.drop_last();
        lemma_drawn_ids_has(rest, draws, x);
        let r = drawn_ids(rest, draws);
        let n = ids.len() - 1;
        if drawn_ids(ids, draws).contains(x) {
            if draws[n] && x == ids.last() {
                assert(draws[n] && ids[n] == x);
            } else {
                let q = choose|q: int| 0 <= q < drawn_ids(ids, draws).len() && drawn_ids(ids, draws)[q] == x;
                if draws[n] {
                    assert(drawn_ids(ids, draws) == r.push(ids.last()));
                    assert(r[q] == x);
                }
                assert(r.contains(x));
                let a = choose|a: int| 0 <= a < rest.len() && #[trigger] draws[a] && rest[a] == x;
                assert(ids[a] == x);
            }
        }
        if exists|a: int| 0 <= a < ids.len() && #[trigger] draws[a] && ids[a] == x {
            let a = choose|a: int| 0 <= a < ids.len() && #[trigger] draws[a] && ids[a] == x;
            if a == n {
                assert(drawn_ids(ids, draws) == r.push(ids.last()));
                assert(drawn_ids(ids, draws)[r.len() as int] == x);
            } else {
                assert(rest[a] == x);
                assert(r.contains(x));
                let q = choose|q: int| 0 <= q < r.len() && r[q] == x;
                if draws[n] {
                    assert(drawn_ids(ids, draws) == r.push(ids.last()));
                    assert(drawn_ids(ids, draws)[q] == x);
                }
            }
        }
    }
}

/// The yearly evictions (see [`random_evictions`]) draw 5 in 100 for each
/// area (see [`ratio_drawn`]); an alive citizen with a home loses it exactly
/// when it is aged 18 or the draw of the area it lives in came up, and
/// everyone else keeps their home.
pub proof fn lemma_evictions_drawn(c0: City, c1: City)
    requires
        evictions_done(c0, c1),
    ensures
        exists|draws: Seq<bool>|
            #[trigger] eviction_draws(area_infos(c0.buildings@).len(), draws) && forall|j: int|
                0 <= j < c0.citizens@.len() ==> (#[trigger] c1.citizens@[j]).residence == if c0.citizens@[j].alive
                    && c0.citizens@[j].residence is Some && (c0.citizens@[j].age == 18 || exists|a: int|
                    0 <= a < draws.len() && #[trigger] draws[a] && area_infos(c0.buildings@)[a].id
                        == c0.citizens@[j].residence.unwrap()) {
                    None
                } else {
                    c0.citizens@[j].residence
                },
{
    let infos = area_infos(c0.buildings@);
    let ids = info_ids(infos);
    let (evicted, draws) = choose|evicted: Seq<Id>, draws: Seq<bool>|
        #![trigger evicted_states(states(c0.citizens@), evicted), drawn_ids(info_ids(area_infos(c0.buildings@)), draws)]
        (forall|i: int|
            0 <= i < evicted.len() ==> info_ids(area_infos(c0.buildings@)).contains(
                #[trigger] evicted[i],
            )) && eviction_draws(area_infos(c0.buildings@).len(), draws) && evicted == drawn_ids(
            info_ids(area_infos(c0.buildings@)),
            draws,
        ) && states(c1.citizens@) == evicted_states(states(c0.citizens@), evicted);
    assert(states(c1.citizens@).len() == c0.citizens@.len());
    assert forall|j: int| 0 <= j < c0.citizens@.len() implies (#[trigger] c1.citizens@[j]).residence == if c0.citizens@[j].alive
        && c0.citizens@[j].residence is Some && (c0.citizens@[j].age == 18 || exists|a: int|
        0 <= a < draws.len() && #[trigger] draws[a] && area_infos(c0.buildings@)[a].id
            == c0.citizens@[j].residence.unwrap()) {
        None
    } else {
        c0.citizens@[j].residence
    } by {
        assert(states(c0.citizens@)[j] == state_of_mind(c0.citizens@[j]));
        assert(states(c1.citizens@)[j] == state_of_mind(c1.citizens@[j]));
        if c0.citizens@[j].residence is Some {
            let res = c0.citizens@[j].residence.unwrap();
            lemma_drawn_ids_has(ids, draws, res);
            if exists|a: int| 0 <= a < draws.len() && #[trigger] draws[a] && infos[a].id == res {
                let a = choose|a: int| 0 <= a < draws.len() && #[trigger] draws[a] && infos[a].id == res;
                assert(ids[a] == res);
            }
            if exists|a: int| 0 <= a < ids.len() && #[trigger] draws[a] && ids[a] == res {
                let a = choose|a: int| 0 <= a < ids.len() && #[trigger] draws[a] && ids[a] == res;
                assert(infos[a].id == res);
            }
        }
    }
}

/// Where a homeless citizen `k` should move: a minor to the home of its
/// first alive parent (see [`first_live_relation`]), when that parent has
/// one; else to the home of its first alive spouse, when that spouse has
/// one; else nowhere in particular.
pub open spec fn home_target(pop: Seq<Mind>, k: int) -> Option<Id> {
    let c = pop[k];
    let guardian_res = if c.age < ADULT_AGE_FROM {
        match first_live_relation(c.relations@, RelationVerb::Parent, pop, false) {
            Some(g) => pop[g].residence,
            None => None,
        }
    } else {
        None
    };
    let spouse_res = match first_live_relation(c.relations@, RelationVerb::Spouse, pop, false) {
        Some(s) => pop[s].residence,
        None => None,
    };
    if guardian_res is Some {
        guardian_res
    } else {
        spouse_res
    }
}

/// Area `a` suits a move to `target`: it is that area; or, with no target,
/// it belongs to no institution and nobody lives there (see `owned`).
pub open spec fn area_fits(a: AreaInfo, target: Option<Id>, owned: Seq<Id>) -> bool {
    ||| (target is Some && a.id == target.unwrap())
    ||| (target is None && a.owner is None && !owned.contains(a.id))
}

/// The index of the first area of `order` that suits (see [`area_fits`]).
pub open spec fn first_fitting(order: Seq<AreaInfo>, target: Option<Id>, owned: Seq<Id>) -> Option<int>
    decreases order.len(),
{
    if order.len() == 0 {
        None
    } else {
        match first_fitting(order.drop_last(), target, owned) {
            Some(i) => Some(i),
            None => if area_fits(order.last(), target, owned) {
                Some(order.len() - 1)
            } else {
                None
            },
        }
    }
}

/// The residences of the citizens that have one, in order.
pub open spec fn owned_residences(pop: Seq<Mind>) -> Seq<Id>
    decreases pop.len(),
{
    if pop.len() == 0 {
        Seq::empty()
    } else {
        let rest = owned_residences(pop.drop_last());
        match pop.last().residence {
            Some(r) => rest.push(r),
            None => rest,
        }
    }
}

/// The citizens, and the areas taken, while homes are handed out.
pub struct Housing {
    pub st: Seq<MindState>,
    pub owned: Seq<Id>,
}

/// Citizen `k`'s turn: an alive citizen with no residence moves into the
/// first area of `order` that suits (see [`home_target`],
/// [`first_fitting`]), which is then taken, and logs the move with the
/// area's name, its building's name and its location's name.
pub open spec fn housing_step(
    pop: Seq<Mind>,
    locs: Seq<Location>,
    order: Seq<AreaInfo>,
    year: nat,
    h: Housing,
    k: int,
) -> Housing {
    let c = pop[k];
    if !(c.alive && c.residence is None) {
        h
    } else {
        match first_fitting(order, home_target(pop, k), h.owned) {
            None => h,
            Some(p) => {
                let a = order[p];
                let m = h.st[k];
                let place = locs[find_location(locs, a.location.unwrap()).unwrap()].name@;
                Housing {
                    st: h.st.update(
                        k,
                        logged(
                            MindState { residence: Some(a.id), ..m },
                            residence_line(year, m, a.name, a.building, place),
                        ),
                    ),
                    owned: h.owned.push(a.id),
                }
            },
        }
    }
}

/// The turns of citizens `0 .. n` in order (see [`housing_step`]).
pub open spec fn housing(
    pop: Seq<Mind>,
    locs: Seq<Location>,
    order: Seq<AreaInfo>,
    year: nat,
    h: Housing,
    n: nat,
) -> Housing
    decreases n,
{
    if n == 0 {
        h
    } else {
        housing_step(
            pop,
            locs,
            order,
            year,
            housing(pop, locs, order, year, h, (n - 1) as nat),
            n - 1,
        )
    }
}

/// Every area's building stands at a location of the city.
pub open spec fn areas_located(city: City) -> bool {
    forall|i: int|
        0 <= i < area_infos(city.buildings@).len() ==> {
            let a = #[trigger] area_infos(city.buildings@)[i];
            a.location is Some && find_location(city.areas@, a.location.unwrap()) is Some
        }
}

/// Whether every area of every building stands at a known location (see
/// [`areas_located`]).
pub fn areas_located_exec(city: &City) -> (b: bool)
    ensures
        b == areas_located(*city),
{
    let areas = collect_areas(&city.buildings);
    let mut i: usize = 0;
    while i < areas.len()
        invariant
            i <= areas.len(),
            area_views(areas@) == area_infos(city.buildings@),
            forall|q: int|
                0 <= q < i ==> {
                    let a = #[trigger] area_infos(city.buildings@)[q];
                    a.location is Some && find_location(city.areas@, a.location.unwrap()) is Some
                },
        decreases areas.len() - i,
    {
        assert(area_views(areas@)[i as int] == areas@[i as int]@);
        match areas[i].location {
            None => {
                return false;
            },
            Some(l) => {
                if find_location_exec(&city.areas, l).is_none() {
                    return false;
                }
            },
        }
        i = i + 1;
    }
    true
}

/// `0 .. n`, as indices.
pub open spec fn indices(n: nat) -> Seq<usize> {
    Seq::new(n, |i: int| i as usize)
}

/// The areas listed in the order `perm` gives.
pub open spec fn in_order(infos: Seq<AreaInfo>, perm: Seq<usize>) -> Seq<AreaInfo> {
    perm.map_values(|p: usize| infos[p as int])
}

proof fn lemma_first_live_same(rels: Seq<crate::city::population::mind::Relation>, verb: RelationVerb, a: Seq<Mind>, b: Seq<Mind>, minor: bool)
    requires
        a.len() == b.len(),
        forall|j: int|
            0 <= j < a.len() ==> (#[trigger] b[j]).id == a[j].id && b[j].alive == a[j].alive
                && b[j].age == a[j].age,
    ensures
        first_live_relation(rels, verb, a, minor) == first_live_relation(rels, verb, b, minor),
    decreases rels.len(),
{
    if rels.len() > 0 {
        lemma_lookup_same_ids(a, b, rels[0].1);
        crate::city::population::mind::lemma_lookup(a, rels[0].1);
        match lookup(a, rels[0].1) {
            Some(k) => {
                assert(b[k].alive == a[k].alive && b[k].age == a[k].age);
            },
            None => {},
        }
        lemma_first_live_same(rels.drop_first(), verb, a, b, minor);
    }
}

} // verus!

verus! {

fn owned_of(pop: &Vec<Mind>) -> (r: Vec<Id>)
    ensures
        r@ == owned_residences(pop@),
{
    let mut out: Vec<Id> = Vec::new();
    let mut j: usize = 0;
    while j < pop.len()
        invariant
            j <= pop.len(),
            out@ == owned_residences(pop@.take(j as int)),
        decreases pop.len() - j,
    {
        assert(pop@.take(j + 1).drop_last() =~= pop@.take(j as int));
        match pop[j].residence {
            Some(r) => {
                out.push(r);
            },
            None => {},
        }
        j = j + 1;
    }
    assert(pop@.take(pop.len() as int) =~= pop@);
    out
}

fn residences_of(pop: &Vec<Mind>) -> (r: Vec<Option<Id>>)
    ensures
        r.len() == pop.len(),
        forall|j: int| 0 <= j < pop.len() ==> r@[j] == #[trigger] pop@[j].residence,
{
    let mut out: Vec<Option<Id>> = Vec::new();
    let mut j: usize = 0;
    while j < pop.len()
        invariant
            j <= pop.len(),
            out.len() == j,
            forall|q: int| 0 <= q < j ==> out@[q] == #[trigger] pop@[q].residence,
        decreases pop.len() - j,
    {
        out.push(pop[j].residence);
        j = j + 1;
    }
    out
}

/// The same citizens, as far as a search for homes reads them.
spec fn same_people(a: Seq<Mind>, b: Seq<Mind>) -> bool {
    &&& a.len() == b.len()
    &&& forall|j: int|
        0 <= j < a.len() ==> (#[trigger] b[j]).id == a[j].id && b[j].alive == a[j].alive && b[j].age
            == a[j].age && b[j].relations@ == a[j].relations@
}

fn home_target_exec(pop: &Vec<Mind>, k: usize, res0: &Vec<Option<Id>>, Ghost(pop0): Ghost<Seq<Mind>>) -> (t:
    Option<Id>)
    requires
        k < pop.len(),
        same_people(pop0, pop@),
        res0.len() == pop0.len(),
        forall|j: int| 0 <= j < pop0.len() ==> res0@[j] == #[trigger] pop0[j].residence,
    ensures
        t == home_target(pop0, k as int),
{
    proof {
        lemma_first_live_same(pop0[k as int].relations@, RelationVerb::Parent, pop0, pop@, false);
        lemma_first_live_same(pop0[k as int].relations@, RelationVerb::Spouse, pop0, pop@, false);
        assert(pop@[k as int].relations@ == pop0[k as int].relations@);
    }
    let c = &pop[k];
    let guardian_res = if c.age < ADULT_AGE_FROM {
        match find_relation_index(c, RelationVerb::Parent, pop, false) {
            Some(g) => res0[g],
            None => None,
        }
    } else {
        None
    };
    let spouse_res = match find_relation_index(c, RelationVerb::Spouse, pop, false) {
        Some(s) => res0[s],
        None => None,
    };
    if guardian_res.is_some() {
        guardian_res
    } else {
        spouse_res
    }
}

proof fn lemma_first_fitting_prefix(order: Seq<AreaInfo>, n: int, target: Option<Id>, owned: Seq<Id>)
    requires
        0 <= n <= order.len(),
        first_fitting(order.take(n), target, owned) is Some,
    ensures
        first_fitting(order, target, owned) == first_fitting(order.take(n), target, owned),
    decreases order.len() - n,
{
    if n < order.len() {
        assert(order.take(n + 1).drop_last() =~= order.take(n));
        lemma_first_fitting_prefix(order, n + 1, target, owned);
    } else {
        assert(order.take(n) =~= order);
    }
}

fn first_fitting_exec(areas: &Vec<AreaRef>, perm: &Vec<usize>, target: Option<Id>, owned: &Vec<Id>) -> (r:
    Option<usize>)
    requires
        forall|q: int| 0 <= q < perm.len() ==> #[trigger] perm@[q] < areas.len(),
    ensures
        r matches Some(q) ==> q < perm.len() && first_fitting(
            in_order(area_views(areas@), perm@),
            target,
            owned@,
        ) == Some(q as int),
        r is None ==> first_fitting(in_order(area_views(areas@), perm@), target, owned@) is None,
{
    let ghost order = in_order(area_views(areas@), perm@);
    let mut q: usize = 0;
    while q < perm.len()
        invariant
            q <= perm.len(),
            order == in_order(area_views(areas@), perm@),
            forall|p: int| 0 <= p < perm.len() ==> #[trigger] perm@[p] < areas.len(),
            first_fitting(order.take(q as int), target, owned@) is None,
        decreases perm.len() - q,
    {
        assert(order.take(q + 1).drop_last() =~= order.take(q as int));
        let a = &areas[perm[q]];
        assert(order[q as int] == a@);
        let fits = match target {
            Some(t) => a.id == t,
            None => a.owner.is_none() && !holds_id(owned, a.id),
        };
        if fits {
            proof {
                assert(order.take(q + 1).last() == a@);
                lemma_first_fitting_prefix(order, q + 1, target, owned@);
            }
            return Some(q);
        }
        q = q + 1;
    }
    assert(order.take(perm.len() as int) =~= order);
    None
}

fn all_indices(n: usize) -> (r: Vec<usize>)
    ensures
        r@ == indices(n as nat),
{
    let mut r: Vec<usize> = Vec::new();
    let mut i: usize = 0;
    while i < n
        invariant
            i <= n,
            r@ == indices(i as nat),
        decreases n - i,
    {
        r.push(i);
        i = i + 1;
        assert(r@ =~= indices(i as nat));
    }
    r
}

/// What the yearly housing makes of the city `c0` (see
/// [`assign_residences`]): `c1`.
pub open spec fn residences_assigned(c0: City, c1: City) -> bool {
    &&& same_but_citizens(c0, c1)
    &&& exists|perm: Seq<usize>|
        #![trigger in_order(area_infos(c0.buildings@), perm)]
        perm.to_multiset() == indices(area_infos(c0.buildings@).len()).to_multiset()
            && states(c1.citizens@) == housing(
            c0.citizens@,
            c0.areas@,
            in_order(area_infos(c0.buildings@), perm),
            c0.year as nat,
            Housing { st: states(c0.citizens@), owned: owned_residences(c0.citizens@) },
            c0.citizens.len() as nat,
        ).st
}

/// Hands out homes: the areas of all buildings are shuffled, and each
/// alive citizen with no residence, in turn, moves into the first area in
/// that order that suits it (see [`housing_step`]); who lives where is read
/// as it stood before. Every area's building must stand at a location of the
/// city.
pub fn assign_residences<'a>(city: &'a mut City) -> (r: &'a mut City)
    requires
        areas_located(*old(city)),
    ensures
        residences_assigned(*old(city), *r),
        *final(city) == *final(r),
{
    let ghost pop0 = city.citizens@;
    let res0 = residences_of(&city.citizens);
    let mut owned = owned_of(&city.citizens);
    let areas = collect_areas(&city.buildings);
    let mut perm = all_indices(areas.len());
    let ghost perm0 = perm@;
    shuffle(&mut perm);
    proof {
        broadcast use vstd::seq_lib::group_to_multiset_ensures;

        assert forall|q: int| 0 <= q < perm.len() implies #[trigger] perm@[q] < areas.len() by {
            assert(perm@.to_multiset().count(perm@[q]) > 0);
            assert(perm0.contains(perm@[q]));
        }
    }
    let ghost order = in_order(area_views(areas@), perm@);
    let ghost h0 = Housing { st: states(pop0), owned: owned@ };
    let n = city.citizens.len();
    let mut k: usize = 0;
    while k < n
        invariant
            k <= n == city.citizens.len() == pop0.len(),
            pop0 == old(city).citizens@,
            same_but_citizens(*old(city), *city),
            areas_located(*old(city)),
            area_views(areas@) == area_infos(old(city).buildings@),
            order == in_order(area_views(areas@), perm@),
            forall|q: int| 0 <= q < perm.len() ==> #[trigger] perm@[q] < areas.len(),
            res0.len() == pop0.len(),
            forall|j: int| 0 <= j < pop0.len() ==> res0@[j] == #[trigger] pop0[j].residence,
            h0 == (Housing { st: states(pop0), owned: owned_residences(pop0) }),
            same_people(pop0, city.citizens@),
            forall|j: int| k <= j < n ==> #[trigger] states(city.citizens@)[j] == states(pop0)[j],
            (Housing { st: states(city.citizens@), owned: owned@ }) == housing(
                pop0,
                city.areas@,
                order,
                city.year as nat,
                h0,
                k as nat,
            ),
        decreases n - k,
    {
        let ghost cur = city.citizens@;
        let ghost h = Housing { st: states(cur), owned: owned@ };
        assert(states(cur)[k as int] == states(pop0)[k as int]);
        assert(states(cur)[k as int] == state_of_mind(cur[k as int]));
        let c = &city.citizens[k];
        if c.alive && c.residence.is_none() {
            let t = home_target_exec(&city.citizens, k, &res0, Ghost(pop0));
            match first_fitting_exec(&areas, &perm, t, &owned) {
                Some(q) => {
                    let a = &areas[perm[q]];
                    proof {
                        assert(order[q as int] == a@);
                        assert(area_infos(old(city).buildings@)[perm@[q as int] as int] == a@);
                    }
                    let li = find_location_exec(&city.areas, a.location.unwrap()).unwrap();
                    owned.push(a.id);
                    let mut m = city.citizens.remove(k);
                    m.residence = Some(a.id);
                    add_residence_to_mind_log(
                        &mut m,
                        city.year,
                        a.name.as_str(),
                        a.building.as_str(),
                        city.areas[li].name.as_str(),
                    );
                    city.citizens.insert(k, m);
                    proof {
                        let fin = city.citizens@;
                        assert(states(fin) =~= housing_step(
                            pop0,
                            city.areas@,
                            order,
                            city.year as nat,
                            h,
                            k as int,
                        ).st);
                        assert forall|j: int| 0 <= j < n implies (#[trigger] fin[j]).id == pop0[j].id
                            && fin[j].alive == pop0[j].alive && fin[j].age == pop0[j].age
                            && fin[j].relations@ == pop0[j].relations@ by {
                            if j != k {
                                assert(fin[j] == cur[j]);
                            } else {
                                assert(state_of_mind(fin[j]) == states(fin)[j]);
                            }
                        }
                        assert forall|j: int| k + 1 <= j < n implies #[trigger] states(fin)[j]
                            == states(pop0)[j] by {
                            assert(fin[j] == cur[j]);
                        }
                    }
                },
                None => {},
            }
        }
        k = k + 1;
    }
    city
}

} // verus!
