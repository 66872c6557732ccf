//! A city: its citizens, institutions, areas and buildings, and the yearly
//! steps of its simulation.
pub mod building;
pub mod institutions;
pub mod locations;
pub mod population;
pub mod year;

use crate::city::building::{
    add_building_to_city, area_count_ok, building_added, building_made, floor_count_ok, floor_ok, floors_ok,
    owner_of, owner_of_exec, Building, BuildingFloor, BuildingFloorArea, FloorType,
};
use crate::city::institutions::Institution;
use crate::city::locations::Location;
use crate::city::population::Population;
use crate::city::population::mind::relations::friends::is_social_verb;
use crate::city::population::mind::relations::partners::without;
use crate::city::population::mind::relations::{same_but_citizens, RelationVerb};
use crate::city::population::mind::relations::lemma_lookup_same_ids;
use crate::city::population::mind::{
    find_index, has_id, lemma_lookup, lookup, state_of_mind, states, Mind, MindState, Relation,
};
use crate::city::building::{alive_count, count_alive};
use crate::city::locations::{location_text, print_location};
use crate::city::population::mind::mind_printable;
use crate::city::population::mind::relations::ADULT_AGE_FROM;
use crate::city::population::{population_text, print_population};
use crate::culture::CultureConfig;
use crate::language::{word_views, Word, WordView};
use crate::random::{lemma_ratio_drawn, random_below, random_ratio, ratio_drawn, shuffle, Id};
use crate::text::{chars_of, decimal, decimal_chars, push_all, push_str, str_views, string_of};
use vstd::prelude::*;

verus! {

/// A simulated city.
pub struct City {
    pub name: String,
    pub citizens: Population,
    pub institutions: Vec<Institution>,
    pub areas: Vec<Location>,
    pub buildings: Vec<Building>,
    pub culture: CultureConfig,
    pub year: usize,
}

/// No two citizens share an id: citizens are known by their ids.
pub open spec fn citizen_ids_distinct(pop: Seq<Mind>) -> bool {
    forall|i: int, j: int| 0 <= i < j < pop.len() ==> #[trigger] pop[i].id != #[trigger] pop[j].id
}

/// No two institutions share an id: institutions are known by their ids.
pub open spec fn institution_ids_distinct(insts: Seq<Institution>) -> bool {
    forall|i: int, j: int| 0 <= i < j < insts.len() ==> #[trigger] insts[i].id != #[trigger] insts[j].id
}

/// Whether no two citizens share an id (see [`citizen_ids_distinct`]).
pub fn citizen_ids_distinct_exec(pop: &Vec<Mind>) -> (b: bool)
    ensures
        b == citizen_ids_distinct(pop@),
{
    let mut j: usize = 0;
    while j < pop.len()
        invariant
            j <= pop.len(),
            forall|a: int, c: int| 0 <= a < c < j ==> #[trigger] pop@[a].id != #[trigger] pop@[c].id,
        decreases pop.len() - j,
    {
        let mut i: usize = 0;
        while i < j
            invariant
                i <= j < pop.len(),
                forall|a: int, c: int| 0 <= a < c < j ==> #[trigger] pop@[a].id != #[trigger] pop@[c].id,
                forall|a: int| 0 <= a < i ==> #[trigger] pop@[a].id != pop@[j as int].id,
            decreases j - i,
        {
            if pop[i].id == pop[j].id {
                return false;
            }
            i = i + 1;
        }
        j = j + 1;
    }
    true
}

/// Whether no two institutions share an id (see
/// [`institution_ids_distinct`]).
pub fn institution_ids_distinct_exec(insts: &Vec<Institution>) -> (b: bool)
    ensures
        b == institution_ids_distinct(insts@),
{
    let mut j: usize = 0;
    while j < insts.len()
        invariant
            j <= insts.len(),
            forall|a: int, c: int| 0 <= a < c < j ==> #[trigger] insts@[a].id != #[trigger] insts@[c].id,
        decreases insts.len() - j,
    {
        let mut i: usize = 0;
        while i < j
            invariant
                i <= j < insts.len(),
                forall|a: int, c: int| 0 <= a < c < j ==> #[trigger] insts@[a].id != #[trigger] insts@[c].id,
                forall|a: int| 0 <= a < i ==> #[trigger] insts@[a].id != insts@[j as int].id,
            decreases j - i,
        {
            if insts[i].id == insts[j].id {
                return false;
            }
            i = i + 1;
        }
        j = j + 1;
    }
    true
}

} // verus!

verus! {

/// The log line of a death: `Died in year <year> age <age>`.
pub open spec fn death_line(year: nat, age: nat) -> Seq<char> {
    "Died in year "@ + decimal(year) + " age "@ + decimal(age)
}

/// A citizen who dies in year `year`: no longer alive, with no employer and
/// no residence, and the death logged.
pub open spec fn death_state(m: MindState, year: nat) -> MindState {
    MindState {
        alive: false,
        employer: None,
        residence: None,
        log: m.log.push(death_line(year, m.age as nat)),
        ..m
    }
}

/// The citizens after the deaths `died` (by index) in year `year`.
pub open spec fn died_states(st: Seq<MindState>, died: Seq<bool>, year: nat) -> Seq<MindState> {
    Seq::new(
        st.len(),
        |j: int|
            if died[j] {
                death_state(st[j], year)
            } else {
                st[j]
            },
    )
}

/// The ids of the citizens who died, in order.
pub open spec fn dead_ids(st: Seq<MindState>, died: Seq<bool>, n: int) -> Seq<Id>
    decreases n,
{
    if n <= 0 {
        Seq::empty()
    } else {
        let rest = dead_ids(st, died, n - 1);
        if died[n - 1] {
            rest.push(st[n - 1].id)
        } else {
            rest
        }
    }
}

proof fn lemma_dead_ids_same(st: Seq<MindState>, a: Seq<bool>, b: Seq<bool>, n: int)
    requires
        forall|i: int| 0 <= i < n ==> a[i] == b[i],
    ensures
        dead_ids(st, a, n) == dead_ids(st, b, n),
    decreases n,
{
    if n > 0 {
        lemma_dead_ids_same(st, a, b, n - 1);
    }
}

/// A social relation or a colleague.
pub open spec fn social_or_colleague(v: RelationVerb) -> bool {
    is_social_verb(v) || v == RelationVerb::Colleague
}

/// `rels` without the social and colleague relations to `own`, in order.
pub open spec fn without_self_social(rels: Seq<Relation>, own: Id) -> Seq<Relation>
    decreases rels.len(),
{
    if rels.len() == 0 {
        Seq::empty()
    } else {
        let rest = without_self_social(rels.drop_last(), own);
        let r = rels.last();
        if r.1 == own && social_or_colleague(r.0) {
            rest
        } else {
            rest.push(r)
        }
    }
}

/// The relations `rels` of the citizen with id `own` after mourning, for
/// each relation of `list` in order that names one of the `dead`: a partner
/// becomes a late partner and a spouse a late spouse (each after dropping
/// any such relation the citizen holds to itself); for a social relation or
/// a colleague, any such relation to itself is dropped.
pub open spec fn mourn(rels: Seq<Relation>, own: Id, list: Seq<Relation>, dead: Seq<Id>) -> Seq<Relation>
    decreases list.len(),
{
    if list.len() == 0 {
        rels
    } else {
        let prev = mourn(rels, own, list.drop_last(), dead);
        let r = list.last();
        if dead.contains(r.1) {
            if r.0 == RelationVerb::Partner {
                without(prev, (RelationVerb::Partner, own)).push((RelationVerb::LatePartner, r.1))
            } else if r.0 == RelationVerb::Spouse {
                without(prev, (RelationVerb::Spouse, own)).push((RelationVerb::LateSpouse, r.1))
            } else if social_or_colleague(r.0) {
                without_self_social(prev, own)
            } else {
                prev
            }
        } else {
            prev
        }
    }
}

/// Every citizen after mourning the `dead` (see [`mourn`]).
pub open spec fn mourned(st: Seq<MindState>, dead: Seq<Id>) -> Seq<MindState> {
    st.map_values(|m: MindState| MindState { rels: mourn(m.rels, m.id, m.rels, dead), ..m })
}

/// The chance, in tenths, that a citizen aged `age` dies in a year: 5 at
/// the average lifespan, one more per year over it and one less per year
/// under it, from 0 to 10.
pub open spec fn death_tenths(age: u32, lifespan: u32) -> int {
    let x = 5 + age - lifespan;
    if x < 0 {
        0
    } else if x > 10 {
        10
    } else {
        x
    }
}

/// Deaths that can come of the draws: only the alive die, none whose
/// chance is 0 dies, and every alive citizen whose chance is 10 dies.
pub open spec fn deaths_ok(st: Seq<MindState>, died: Seq<bool>, lifespan: u32) -> bool {
    &&& died.len() == st.len()
    &&& forall|j: int|
        0 <= j < st.len() ==> (#[trigger] died[j] ==> st[j].alive && death_tenths(st[j].age, lifespan)
            > 0) && (st[j].alive && death_tenths(st[j].age, lifespan) == 10 ==> died[j])
}

fn without_exec(rels: &Vec<Relation>, x: Relation) -> (r: Vec<Relation>)
    ensures
        r@ == without(rels@, x),
{
    let mut out: Vec<Relation> = Vec::new();
    let mut i: usize = 0;
    while i < rels.len()
        invariant
            i <= rels.len(),
            out@ == without(rels@.take(i as int), x),
        decreases rels.len() - i,
    {
        assert(rels@.take(i + 1).drop_last() =~= rels@.take(i as int));
        let r = rels[i];
        if !(r.0 == x.0 && r.1 == x.1) {
            out.push(r);
        }
        i = i + 1;
    }
    assert(rels@.take(rels.len() as int) =~= rels@);
    out
}

fn without_self_social_exec(rels: &Vec<Relation>, own: Id) -> (r: Vec<Relation>)
    ensures
        r@ == without_self_social(rels@, own),
{
    let mut out: Vec<Relation> = Vec::new();
    let mut i: usize = 0;
    while i < rels.len()
        invariant
            i <= rels.len(),
            out@ == without_self_social(rels@.take(i as int), own),
        decreases rels.len() - i,
    {
        assert(rels@.take(i + 1).drop_last() =~= rels@.take(i as int));
        let r = rels[i];
        let v = r.0;
        let social = v == RelationVerb::Acquaintance || v == RelationVerb::Friend || v
            == RelationVerb::CloseFriend || v == RelationVerb::Colleague;
        if !(r.1 == own && social) {
            out.push(r);
        }
        i = i + 1;
    }
    assert(rels@.take(rels.len() as int) =~= rels@);
    out
}

fn holds_id(ids: &Vec<Id>, id: Id) -> (b: bool)
    ensures
        b == ids@.contains(id),
{
    let mut i: usize = 0;
    while i < ids.len()
        invariant
            i <= ids.len(),
            forall|j: int| 0 <= j < i ==> ids@[j] != id,
        decreases ids.len() - i,
    {
        if ids[i] == id {
            return true;
        }
        i = i + 1;
    }
    false
}

fn mourn_exec(rels: &Vec<Relation>, own: Id, dead: &Vec<Id>) -> (r: Vec<Relation>)
    ensures
        r@ == mourn(rels@, own, rels@, dead@),
{
    let mut cur = copy_rels(rels);
    let mut i: usize = 0;
    while i < rels.len()
        invariant
            i <= rels.len(),
            cur@ == mourn(rels@, own, rels@.take(i as int), dead@),
        decreases rels.len() - i,
    {
        assert(rels@.take(i + 1).drop_last() =~= rels@.take(i as int));
        let (verb, id) = rels[i];
        if holds_id(dead, id) {
            if verb == RelationVerb::Partner {
                let mut next = without_exec(&cur, (RelationVerb::Partner, own));
                next.push((RelationVerb::LatePartner, id));
                cur = next;
            } else if verb == RelationVerb::Spouse {
                let mut next = without_exec(&cur, (RelationVerb::Spouse, own));
                next.push((RelationVerb::LateSpouse, id));
                cur = next;
            } else if verb == RelationVerb::Acquaintance || verb == RelationVerb::Friend || verb
                == RelationVerb::CloseFriend || verb == RelationVerb::Colleague {
                cur = without_self_social_exec(&cur, own);
            }
        }
        i = i + 1;
    }
    assert(rels@.take(rels.len() as int) =~= rels@);
    cur
}

fn copy_rels(rels: &Vec<Relation>) -> (r: Vec<Relation>)
    ensures
        r@ == rels@,
{
    let mut out: Vec<Relation> = Vec::new();
    let mut i: usize = 0;
    while i < rels.len()
        invariant
            i <= rels.len(),
            out@ == rels@.take(i as int),
        decreases rels.len() - i,
    {
        out.push(rels[i]);
        i = i + 1;
        assert(out@ =~= rels@.take(i as int));
    }
    assert(rels@.take(rels.len() as int) =~= rels@);
    out
}

fn death_line_exec(year: usize, age: u32) -> (r: String)
    ensures
        r@ == death_line(year as nat, age as nat),
{
    let mut out: Vec<char> = Vec::new();
    push_str(&mut out, "Died in year ");
    let y = decimal_chars(year as u64);
    push_all(&mut out, &y);
    push_str(&mut out, " age ");
    let a = decimal_chars(age as u64);
    push_all(&mut out, &a);
    string_of(&out)
}

/// Each alive citizen's death or survival is a draw of its chance (see
/// [`death_tenths`]) in 10 (see [`ratio_drawn`]).
pub open spec fn deaths_drawn(st: Seq<MindState>, died: Seq<bool>, lifespan: u32) -> bool {
    forall|j: int|
        0 <= j < st.len() && st[j].alive ==> ratio_drawn(death_tenths(st[j].age, lifespan) as u32, 10, #[trigger] died[j])
}

/// What the yearly pass of old age makes of the city `c0` (see
/// [`old_age_pass_per_year`]): `c1`.
pub open spec fn old_age_passed(c0: City, c1: City, culture: CultureConfig) -> bool {
    &&& same_but_citizens(c0, c1)
    &&& exists|died: Seq<bool>|
        #![trigger died_states(states(c0.citizens@), died, c0.year as nat)]
        deaths_ok(states(c0.citizens@), died, culture.species_avg_lifespan) && deaths_drawn(
            states(c0.citizens@),
            died,
            culture.species_avg_lifespan,
        ) && states(c1.citizens@) == mourned(
            died_states(states(c0.citizens@), died, c0.year as nat),
            dead_ids(states(c0.citizens@), died, c0.citizens.len() as int),
        )
}

/// The yearly pass of old age: each alive citizen dies with chance
/// [`death_tenths`] in 10 (see [`death_state`]); then every citizen mourns
/// those who died (see [`mourn`]).
pub fn old_age_pass_per_year<'a>(city: &'a mut City, culture: &CultureConfig) -> (r: &'a mut City)
    ensures
        old_age_passed(*old(city), *r, *culture),
        *final(city) == *final(r),
{
    let ghost st0 = states(city.citizens@);
    let ghost mut died: Seq<bool> = Seq::empty();
    let mut dead: Vec<Id> = Vec::new();
    let n = city.citizens.len();
    let lifespan = culture.species_avg_lifespan;
    let mut k: usize = 0;
    while k < n
        invariant
            k <= n == city.citizens.len() == st0.len(),
            st0 == states(old(city).citizens@),
            same_but_citizens(*old(city), *city),
            died.len() == k,
            lifespan == culture.species_avg_lifespan,
            forall|j: int|
                0 <= j < k ==> (#[trigger] died[j] ==> st0[j].alive && death_tenths(st0[j].age, lifespan)
                    > 0) && (st0[j].alive && death_tenths(st0[j].age, lifespan) == 10 ==> died[j]),
            deaths_drawn(st0.take(k as int), died, lifespan),
            forall|j: int|
                0 <= j < k ==> #[trigger] states(city.citizens@)[j] == (if died[j] {
                    death_state(st0[j], city.year as nat)
                } else {
                    st0[j]
                }),
            forall|j: int| k <= j < n ==> #[trigger] states(city.citizens@)[j] == st0[j],
            dead@ == dead_ids(st0, died, k as int),
        decreases n - k,
    {
        let ghost cur = states(city.citizens@);
        assert(cur[k as int] == st0[k as int]);
        assert(cur[k as int] == state_of_mind(city.citizens@[k as int]));
        let mut dies = false;
        if city.citizens[k].alive {
            let x: i64 = 5 + city.citizens[k].age as i64 - lifespan as i64;
            let tenths: u32 = if x < 0 {
                0
            } else if x > 10 {
                10
            } else {
                x as u32
            };
            assert(tenths == death_tenths(st0[k as int].age, lifespan));
            dies = random_ratio(tenths, 10);
            proof {
                lemma_ratio_drawn(tenths, 10, dies);
            }
        }
        if dies {
            let line = death_line_exec(city.year, city.citizens[k].age);
            let mut m = city.citizens.remove(k);
            let ghost log0 = m.activity_log@;
            m.activity_log.push(line);
            m.alive = false;
            m.employer = None;
            m.residence = None;
            let id = m.id;
            city.citizens.insert(k, m);
            dead.push(id);
            proof {
                assert(str_views(m.activity_log@) =~= str_views(log0).push(line@));
            }
        }
        proof {
            let nd = died.push(dies);
            assert(nd.drop_last() =~= died);
            lemma_dead_ids_same(st0, died, nd, k as int);
            let fin = states(city.citizens@);
            assert forall|j: int| 0 <= j < k + 1 implies #[trigger] fin[j] == (if nd[j] {
                death_state(st0[j], city.year as nat)
            } else {
                st0[j]
            }) by {
                if j < k {
                    assert(fin[j] == cur[j]);
                    assert(nd[j] == died[j]);
                } else if dies {
                    assert(fin[j] == state_of_mind(city.citizens@[j]));
                }
            }
            assert forall|j: int| k + 1 <= j < n implies #[trigger] fin[j] == st0[j] by {
                assert(fin[j] == cur[j]);
            }
            assert forall|j: int| 0 <= j < k + 1 implies (#[trigger] nd[j] ==> st0[j].alive
                && death_tenths(st0[j].age, lifespan) > 0) && (st0[j].alive && death_tenths(
                st0[j].age,
                lifespan,
            ) == 10 ==> nd[j]) by {
                if j < k {
                    assert(nd[j] == died[j]);
                }
            }
            let t1 = st0.take(k + 1);
            assert forall|j: int| 0 <= j < t1.len() && t1[j].alive implies ratio_drawn(
                death_tenths(t1[j].age, lifespan) as u32,
                10,
                #[trigger] nd[j],
            ) by {
                assert(t1[j] == st0[j]);
                if j < k {
                    assert(nd[j] == died[j]);
                    assert(st0.take(k as int)[j] == st0[j]);
                }
            }
            died = nd;
        }
        k = k + 1;
    }
    let ghost st1 = states(city.citizens@);
    proof {
        assert(st0.take(n as int) =~= st0);
        assert(st1 =~= died_states(st0, died, city.year as nat));
    }
    let mut j: usize = 0;
    while j < n
        invariant
            j <= n == city.citizens.len(),
            same_but_citizens(*old(city), *city),
            forall|q: int| 0 <= q < j ==> #[trigger] states(city.citizens@)[q] == mourned(st1, dead@)[q],
            forall|q: int| j <= q < n ==> #[trigger] states(city.citizens@)[q] == st1[q],
            st1.len() == n,
        decreases n - j,
    {
        let ghost cur = states(city.citizens@);
        assert(cur[j as int] == st1[j as int]);
        assert(cur[j as int] == state_of_mind(city.citizens@[j as int]));
        let rels = mourn_exec(&city.citizens[j].relations, city.citizens[j].id, &dead);
        let mut m = city.citizens.remove(j);
        m.relations = rels;
        city.citizens.insert(j, m);
        proof {
            let fin = states(city.citizens@);
            assert forall|q: int| 0 <= q < j + 1 implies #[trigger] fin[q] == mourned(st1, dead@)[q] by {
                if q < j {
                    assert(fin[q] == cur[q]);
                } else {
                    assert(fin[q] == state_of_mind(city.citizens@[q]));
                }
            }
            assert forall|q: int| j + 1 <= q < n implies #[trigger] fin[q] == st1[q] by {
                assert(fin[q] == cur[q]);
            }
        }
        j = j + 1;
    }
    proof {
        assert(states(city.citizens@) =~= mourned(st1, dead@));
    }
    city
}

/// The index of the first area that no institution owns.
pub open spec fn first_free_area(areas: Seq<BuildingFloorArea>) -> Option<int>
    decreases areas.len(),
{
    if areas.len() == 0 {
        None
    } else {
        match first_free_area(areas.drop_last()) {
            Some(i) => Some(i),
            None => if areas.last().owning_institution is None {
                Some(areas.len() - 1)
            } else {
                None
            },
        }
    }
}

/// Floor `f` is commercial and has an area that no institution owns.
pub open spec fn floor_has_room(f: BuildingFloor) -> bool {
    f.floor_type == FloorType::Commercial && first_free_area(f.areas@) is Some
}

/// The index of the first commercial floor with an area that no
/// institution owns.
pub open spec fn first_room_floor(floors: Seq<BuildingFloor>) -> Option<int>
    decreases floors.len(),
{
    if floors.len() == 0 {
        None
    } else {
        match first_room_floor(floors.drop_last()) {
            Some(i) => Some(i),
            None => if floor_has_room(floors.last()) {
                Some(floors.len() - 1)
            } else {
                None
            },
        }
    }
}

/// The index of the first building with room for an institution: a
/// commercial floor with an area that no institution owns.
pub open spec fn first_room(bs: Seq<Building>) -> Option<int>
    decreases bs.len(),
{
    if bs.len() == 0 {
        None
    } else {
        match first_room(bs.drop_last()) {
            Some(i) => Some(i),
            None => if first_room_floor(bs.last().floors@) is Some {
                Some(bs.len() - 1)
            } else {
                None
            },
        }
    }
}

/// Building `b` is `a` with area `ai` of floor `fi` now owned by the
/// institution `id`, and nothing else changed.
pub open spec fn area_claimed_at(a: Building, b: Building, fi: int, ai: int, id: Id) -> bool {
    &&& b.id == a.id
    &&& b.name == a.name
    &&& b.location_id == a.location_id
    &&& b.floors@.len() == a.floors@.len()
    &&& forall|k: int| 0 <= k < a.floors@.len() && k != fi ==> #[trigger] b.floors@[k] == a.floors@[k]
    &&& b.floors@[fi].id == a.floors@[fi].id
    &&& b.floors@[fi].level == a.floors@[fi].level
    &&& b.floors@[fi].floor_type == a.floors@[fi].floor_type
    &&& b.floors@[fi].areas@.len() == a.floors@[fi].areas@.len()
    &&& forall|i: int|
        0 <= i < a.floors@[fi].areas@.len() && i != ai ==> #[trigger] b.floors@[fi].areas@[i]
            == a.floors@[fi].areas@[i]
    &&& b.floors@[fi].areas@[ai].id == a.floors@[fi].areas@[ai].id
    &&& b.floors@[fi].areas@[ai].name == a.floors@[fi].areas@[ai].name
    &&& b.floors@[fi].areas@[ai].area_type == a.floors@[fi].areas@[ai].area_type
    &&& b.floors@[fi].areas@[ai].owning_institution == Some(id)
}

/// Building `b` is `a` with its first free commercial area (see
/// [`first_room_floor`], [`first_free_area`]) now owned by the institution
/// `id`.
pub open spec fn claimed(a: Building, b: Building, id: Id) -> bool {
    match first_room_floor(a.floors@) {
        Some(f) => area_claimed_at(a, b, f, first_free_area(a.floors@[f].areas@).unwrap(), id),
        None => false,
    }
}

/// The institutions `insts` with `inst` registered under its id: it takes
/// the place of the first one with the same id, or else comes last.
pub open spec fn registered(insts: Seq<Institution>, inst: Institution) -> Seq<Institution> {
    match owner_of(insts, Some(inst.id)) {
        Some(i) => insts.update(i, inst),
        None => insts.push(inst),
    }
}

proof fn lemma_first_free_area(s: Seq<BuildingFloorArea>)
    ensures
        first_free_area(s) matches Some(i) ==> 0 <= i < s.len() && s[i].owning_institution is None
            && forall|j: int| 0 <= j < i ==> (#[trigger] s[j]).owning_institution is Some,
        first_free_area(s) is None ==> forall|j: int|
            0 <= j < s.len() ==> (#[trigger] s[j]).owning_institution is Some,
    decreases s.len(),
{
    if s.len() > 0 {
        lemma_first_free_area(s.drop_last());
        assert forall|j: int| 0 <= j < s.len() - 1 implies s.drop_last()[j] == s[j] by {}
    }
}

proof fn lemma_first_room_floor(s: Seq<BuildingFloor>)
    ensures
        first_room_floor(s) matches Some(i) ==> 0 <= i < s.len() && floor_has_room(s[i]) && forall|j: int|
            0 <= j < i ==> !floor_has_room(#[trigger] s[j]),
        first_room_floor(s) is None ==> forall|j: int| 0 <= j < s.len() ==> !floor_has_room(#[trigger] s[j]),
    decreases s.len(),
{
    if s.len() > 0 {
        lemma_first_room_floor(s.drop_last());
        assert forall|j: int| 0 <= j < s.len() - 1 implies s.drop_last()[j] == s[j] by {}
    }
}

proof fn lemma_first_room(s: Seq<Building>)
    ensures
        first_room(s) matches Some(i) ==> 0 <= i < s.len() && first_room_floor(s[i].floors@) is Some
            && forall|j: int| 0 <= j < i ==> first_room_floor((#[trigger] s[j]).floors@) is None,
        first_room(s) is None ==> forall|j: int|
            0 <= j < s.len() ==> first_room_floor((#[trigger] s[j]).floors@) is None,
    decreases s.len(),
{
    if s.len() > 0 {
        lemma_first_room(s.drop_last());
        assert forall|j: int| 0 <= j < s.len() - 1 implies s.drop_last()[j] == s[j] by {}
    }
}

fn find_free_area_index(areas: &Vec<BuildingFloorArea>) -> (r: Option<usize>)
    ensures
        r matches Some(i) ==> first_free_area(areas@) == Some(i as int),
        r is None ==> first_free_area(areas@) is None,
{
    proof {
        lemma_first_free_area(areas@);
    }
    let mut i: usize = 0;
    while i < areas.len()
        invariant
            i <= areas.len(),
            forall|j: int| 0 <= j < i ==> (#[trigger] areas@[j]).owning_institution is Some,
        decreases areas.len() - i,
    {
        if areas[i].owning_institution.is_none() {
            proof {
                lemma_first_free_area(areas@);
            }
            return Some(i);
        }
        i = i + 1;
    }
    None
}

fn find_room_floor(floors: &Vec<BuildingFloor>) -> (r: Option<usize>)
    ensures
        r matches Some(i) ==> first_room_floor(floors@) == Some(i as int),
        r is None ==> first_room_floor(floors@) is None,
{
    proof {
        lemma_first_room_floor(floors@);
    }
    let mut i: usize = 0;
    while i < floors.len()
        invariant
            i <= floors.len(),
            forall|j: int| 0 <= j < i ==> !floor_has_room(#[trigger] floors@[j]),
        decreases floors.len() - i,
    {
        let f = &floors[i];
        if f.floor_type == FloorType::Commercial {
            if find_free_area_index(&f.areas).is_some() {
                proof {
                    lemma_first_room_floor(floors@);
                }
                return Some(i);
            }
        }
        i = i + 1;
    }
    None
}

/// The first building with room for an institution (see [`first_room`]).
fn find_free_building(city: &City) -> (r: Option<usize>)
    ensures
        r matches Some(i) ==> first_room(city.buildings@) == Some(i as int),
        r is None ==> first_room(city.buildings@) is None,
{
    proof {
        lemma_first_room(city.buildings@);
    }
    let mut i: usize = 0;
    while i < city.buildings.len()
        invariant
            i <= city.buildings.len(),
            forall|j: int| 0 <= j < i ==> first_room_floor((#[trigger] city.buildings@[j]).floors@) is None,
        decreases city.buildings.len() - i,
    {
        if find_room_floor(&city.buildings[i].floors).is_some() {
            proof {
                lemma_first_room(city.buildings@);
            }
            return Some(i);
        }
        i = i + 1;
    }
    None
}

/// Gives the institution `id` the first free commercial area of building
/// `bi` (see [`claimed`]); the building must have one.
fn add_institution_to_building(buildings: &mut Vec<Building>, bi: usize, id: Id)
    requires
        bi < old(buildings).len(),
        first_room_floor(old(buildings)@[bi as int].floors@) is Some,
    ensures
        final(buildings)@.len() == old(buildings)@.len(),
        forall|k: int| 0 <= k < old(buildings)@.len() && k != bi ==> #[trigger] final(buildings)@[k] == old(buildings)@[k],
        claimed(old(buildings)@[bi as int], final(buildings)@[bi as int], id),
{
    let mut b = buildings.remove(bi);
    let ghost b0 = b;
    let fi = find_room_floor(&b.floors).unwrap();
    proof {
        lemma_first_room_floor(b.floors@);
    }
    let mut f = b.floors.remove(fi);
    let ghost f0 = f;
    let ai = find_free_area_index(&f.areas).unwrap();
    proof {
        lemma_first_free_area(f.areas@);
    }
    let mut a = f.areas.remove(ai);
    a.owning_institution = Some(id);
    f.areas.insert(ai, a);
    b.floors.insert(fi, f);
    buildings.insert(bi, b);
    proof {
        assert(area_claimed_at(b0, b, fi as int, ai as int, id));
    }
}

/// Registers `inst` under its id (see [`registered`]).
fn register_institution(insts: &mut Vec<Institution>, inst: Institution)
    ensures
        final(insts)@ == registered(old(insts)@, inst),
{
    match owner_of_exec(insts, Some(inst.id)) {
        Some(i) => {
            insts.set(i, inst);
        },
        None => {
            insts.push(inst);
        },
    }
}

proof fn lemma_new_shop_building(b: Building, dict: Seq<WordView>, culture: CultureConfig)
    requires
        building_made(b, dict, culture, false),
        culture.avg_building_footprint >= 0,
    ensures
        first_room_floor(b.floors@) is Some,
{
    let (top, commercial, basement) = choose|top: int, commercial: int, basement: bool|
        #![trigger floors_ok(b.floors@, top, commercial, basement, culture.avg_building_footprint)]
        floor_count_ok(culture.avg_building_floors, top) && (false ==> commercial == 0) && (!false ==> 1
            <= commercial <= top / 2) && floors_ok(
            b.floors@,
            top,
            commercial,
            basement,
            culture.avg_building_footprint,
        );
    let k: int = if basement { 1 } else { 0 };
    let f = b.floors@[k];
    assert(floor_ok(f, 0, FloorType::Commercial, culture.avg_building_footprint));
    let count = choose|count: int|
        area_count_ok(culture.avg_building_footprint, count) && f.areas.len() == (if count >= 0 {
            count + 1
        } else {
            0
        });
    assert(f.areas@.len() > 0);
    assert(f.areas@[0].owning_institution is None);
    lemma_first_free_area(f.areas@);
    lemma_first_room_floor(b.floors@);
    assert(floor_has_room(b.floors@[k]));
}

/// What giving the institution `id` a place does to the city's buildings
/// and locations: it claims the first free commercial area (see
/// [`first_room`], [`claimed`]), and the other buildings and the locations
/// stay as they were; when no building has one, a commercial building is
/// added first (see [`building_added`]) and the institution claims an area
/// of it.
pub open spec fn placed(before: City, after: City, id: Id, dict: Seq<WordView>) -> bool {
    match first_room(before.buildings@) {
        Some(b) => {
            &&& after.areas@ == before.areas@
            &&& after.buildings@.len() == before.buildings@.len()
            &&& forall|k: int|
                0 <= k < after.buildings@.len() && k != b ==> #[trigger] after.buildings@[k] == before.buildings@[k]
            &&& claimed(before.buildings@[b], after.buildings@[b], id)
        },
        None => exists|bs: Seq<Building>|
            #![trigger building_added(before, after.areas@, bs, dict, false)]
            building_added(before, after.areas@, bs, dict, false) && after.buildings@.len() == bs.len()
                && after.buildings@.drop_last() == bs.drop_last() && claimed(bs.last(), after.buildings@.last(), id),
    }
}

/// Where an institution is placed depends on the city's buildings,
/// locations and culture alone.
pub proof fn lemma_placed_layout(before: City, other: City, after: City, id: Id, dict: Seq<WordView>)
    requires
        placed(before, after, id, dict),
        other.buildings@ == before.buildings@,
        other.areas@ == before.areas@,
        other.culture == before.culture,
    ensures
        placed(other, after, id, dict),
{
    if first_room(before.buildings@) is None {
        let bs = choose|bs: Seq<Building>|
            building_added(before, after.areas@, bs, dict, false) && after.buildings@.len() == bs.len()
                && after.buildings@.drop_last() == bs.drop_last() && claimed(bs.last(), after.buildings@.last(), id);
        assert(building_added(other, after.areas@, bs, dict, false));
    }
}

/// Registers the institution and gives it the first free commercial area
/// of the city (see [`first_room`], [`claimed`]); when no building has one,
/// a commercial building is added first (see [`building_added`]) and the
/// institution takes an area of it. A city with no free area must have a
/// footprint setting that gives floors areas.
pub fn add_institution_to_city<'a>(city: &'a mut City, institution: Institution, dict: &Vec<Word>) -> (r:
    &'a mut City)
    requires
        first_room(old(city).buildings@) is None ==> old(city).culture.avg_building_footprint >= 0
            && -1073741824 <= old(city).culture.avg_building_floors < 1073741823,
    ensures
        r.name == old(city).name,
        r.citizens == old(city).citizens,
        r.culture == old(city).culture,
        r.year == old(city).year,
        r.institutions@ == registered(old(city).institutions@, institution),
        placed(*old(city), *r, institution.id, word_views(dict@)),
        *final(city) == *final(r),
{
    let id = institution.id;
    let bi = match find_free_building(city) {
        Some(i) => i,
        None => {
            add_building_to_city(city, dict, false);
            proof {
                lemma_new_shop_building(city.buildings@.last(), word_views(dict@), old(city).culture);
                assert(city.buildings@.drop_last() == old(city).buildings@);
            }
            city.buildings.len() - 1
        },
    };
    let ghost mid = city.buildings@;
    proof {
        lemma_first_room(city.buildings@);
    }
    add_institution_to_building(&mut city.buildings, bi, id);
    register_institution(&mut city.institutions, institution);
    proof {
        if first_room(old(city).buildings@) is None {
            assert(city.buildings@.drop_last() =~= mid.drop_last());
            assert(building_added(*old(city), city.areas@, mid, word_views(dict@), false));
        }
    }
    city
}

/// The age from which citizens are past working.
pub const MAX_WORKING_AGE: u32 = 60;

/// The ids of the citizens who may be put to work at a new public
/// institution: under [`MAX_WORKING_AGE`] and with no employer, in order.
pub open spec fn worker_ids(st: Seq<MindState>) -> Seq<Id>
    decreases st.len(),
{
    if st.len() == 0 {
        Seq::empty()
    } else if st.last().age < MAX_WORKING_AGE && st.last().employer is None {
        worker_ids(st.drop_last()).push(st.last().id)
    } else {
        worker_ids(st.drop_last())
    }
}

/// The ids of the citizens who may be put to work (see [`worker_ids`]), in
/// an order drawn by shuffling.
fn find_workers(city: &City) -> (r: Vec<Id>)
    ensures
        r@.to_multiset() == worker_ids(states(city.citizens@)).to_multiset(),
{
    let ghost st = states(city.citizens@);
    let mut out: Vec<Id> = Vec::new();
    let mut j: usize = 0;
    while j < city.citizens.len()
        invariant
            j <= city.citizens.len() == st.len(),
            st == states(city.citizens@),
            out@ == worker_ids(st.take(j as int)),
        decreases city.citizens.len() - j,
    {
        assert(st.take(j + 1).drop_last() =~= st.take(j as int));
        assert(st[j as int] == state_of_mind(city.citizens@[j as int]));
        let m = &city.citizens[j];
        if m.age < MAX_WORKING_AGE && m.employer.is_none() {
            out.push(m.id);
        }
        j = j + 1;
    }
    assert(st.take(city.citizens.len() as int) =~= st);
    shuffle(&mut out);
    out
}

/// The citizens after the workers `ws` are put to work at institution `id`:
/// the first citizen with each of those ids gets it as employer.
pub open spec fn staffed_states(st: Seq<MindState>, pop: Seq<Mind>, ws: Seq<Id>, id: Id) -> Seq<MindState> {
    Seq::new(
        st.len(),
        |j: int|
            if ws.contains(st[j].id) && lookup(pop, st[j].id) == Some(j) {
                MindState { employer: Some(id), ..st[j] }
            } else {
                st[j]
            },
    )
}

/// Adds a public institution: registered under its id (see
/// [`registered`]), in the first free commercial area of a new commercial
/// building (see [`building_added`], [`claimed`]), with one to nine workers
/// drawn among those who may work (see [`worker_ids`]), as many as there
/// are when they are fewer. The footprint setting must give floors areas.
pub fn add_public_institution_to_city<'a>(city: &'a mut City, institution: Institution, dict: &Vec<Word>) -> (r:
    &'a mut City)
    requires
        old(city).culture.avg_building_footprint >= 0,
        -1073741824 <= old(city).culture.avg_building_floors < 1073741823,
    ensures
        r.name == old(city).name,
        r.culture == old(city).culture,
        r.year == old(city).year,
        r.institutions@ == registered(old(city).institutions@, institution),
        exists|bs: Seq<Building>|
            #![trigger building_added(*old(city), r.areas@, bs, word_views(dict@), false)]
            building_added(*old(city), r.areas@, bs, word_views(dict@), false) && r.buildings@.len()
                == bs.len() && r.buildings@.drop_last() == bs.drop_last() && claimed(
                bs.last(),
                r.buildings@.last(),
                institution.id,
            ),
        exists|ws: Seq<Id>|
            #![trigger staffed_states(states(old(city).citizens@), old(city).citizens@, ws, institution.id)]
            {
                let cand = worker_ids(states(old(city).citizens@));
                &&& ws.len() <= 9
                &&& ws.len() <= cand.len()
                &&& cand.len() > 0 ==> ws.len() >= 1
                &&& forall|k: int| 0 <= k < ws.len() ==> cand.contains(#[trigger] ws[k])
                &&& states(r.citizens@) == staffed_states(
                    states(old(city).citizens@),
                    old(city).citizens@,
                    ws,
                    institution.id,
                )
            },
        *final(city) == *final(r),
{
    let ghost st0 = states(city.citizens@);
    let ghost pop0 = city.citizens@;
    let ghost cand = worker_ids(st0);
    let drawn = random_below(10);
    let count: usize = if drawn < 1 { 1 } else { drawn };
    let all_workers = find_workers(city);
    let take = if count < all_workers.len() { count } else { all_workers.len() };
    add_building_to_city(city, dict, false);
    proof {
        lemma_new_shop_building(city.buildings@.last(), word_views(dict@), old(city).culture);
    }
    let ghost mid = city.buildings@;
    let last = city.buildings.len() - 1;
    add_institution_to_building(&mut city.buildings, last, institution.id);
    proof {
        assert(city.buildings@.drop_last() =~= mid.drop_last());
    }
    let id = institution.id;
    register_institution(&mut city.institutions, institution);
    proof {
        lemma_worker_ids_known(st0, pop0);
    }
    let ghost areas1 = city.areas@;
    let ghost bs1 = city.buildings@;
    let ghost insts1 = city.institutions@;
    let mut k: usize = 0;
    while k < take
        invariant
            k <= take <= all_workers.len(),
            city.name == old(city).name,
            city.culture == old(city).culture,
            city.year == old(city).year,
            city.areas@ == areas1,
            city.buildings@ == bs1,
            city.institutions@ == insts1,
            all_workers@.to_multiset() == cand.to_multiset(),
            cand == worker_ids(st0),
            st0 == states(pop0),
            city.citizens.len() == pop0.len(),
            forall|q: int| 0 <= q < pop0.len() ==> (#[trigger] city.citizens@[q]).id == pop0[q].id,
            forall|q: int| 0 <= q < cand.len() ==> has_id(pop0, #[trigger] cand[q]),
            states(city.citizens@) == staffed_states(st0, pop0, all_workers@.take(k as int), id),
        decreases take - k,
    {
        let w = all_workers[k];
        proof {
            vstd::seq_lib::to_multiset_contains(all_workers@, w);
            vstd::seq_lib::to_multiset_contains(cand, w);
            assert(all_workers@.contains(w));
            let q = choose|q: int| 0 <= q < cand.len() && cand[q] == w;
            assert(has_id(pop0, cand[q]));
            lemma_lookup_same_ids(pop0, city.citizens@, w);
        }
        let j = find_index(&city.citizens, w).unwrap();
        proof {
            lemma_lookup(city.citizens@, w);
        }
        let ghost cur = states(city.citizens@);
        let ghost old_m = city.citizens@[j as int];
        assert(cur[j as int] == state_of_mind(old_m));
        let mut m = city.citizens.remove(j);
        m.employer = Some(id);
        city.citizens.insert(j, m);
        proof {
            lemma_lookup(pop0, w);
            let prev = all_workers@.take(k as int);
            let next = all_workers@.take(k + 1);
            assert(next =~= prev.push(w));
            let fin = states(city.citizens@);
            assert forall|q: int| 0 <= q < fin.len() implies #[trigger] fin[q] == staffed_states(st0, pop0, next, id)[q] by {
                lemma_push_contains(prev, w, st0[q].id);
                if q == j {
                    assert(fin[q] == state_of_mind(city.citizens@[q]));
                    assert(st0[q] == state_of_mind(pop0[q]));
                } else {
                    assert(fin[q] == cur[q]);
                    if st0[q].id == w {
                        assert(lookup(pop0, w) == Some(j as int));
                    }
                }
            }
            assert(fin =~= staffed_states(st0, pop0, next, id));
        }
        k = k + 1;
    }
    proof {
        let ws = all_workers@.take(take as int);
        vstd::seq_lib::to_multiset_len(all_workers@);
        vstd::seq_lib::to_multiset_len(cand);
        assert forall|q: int| 0 <= q < ws.len() implies cand.contains(#[trigger] ws[q]) by {
            assert(ws[q] == all_workers@[q]);
            vstd::seq_lib::to_multiset_contains(all_workers@, ws[q]);
            vstd::seq_lib::to_multiset_contains(cand, ws[q]);
        }
    }
    city
}

proof fn lemma_push_contains<A>(s: Seq<A>, a: A, x: A)
    ensures
        s.push(a).contains(x) <==> s.contains(x) || x == a,
{
    if s.contains(x) {
        let i = choose|i: int| 0 <= i < s.len() && s[i] == x;
        assert(s.push(a)[i] == x);
    }
    if x == a {
        assert(s.push(a)[s.len() as int] == a);
    }
    if s.push(a).contains(x) {
        let i = choose|i: int| 0 <= i < s.len() + 1 && s.push(a)[i] == x;
        if i < s.len() {
            assert(s[i] == x);
        }
    }
}

proof fn lemma_worker_ids_known(st: Seq<MindState>, pop: Seq<Mind>)
    requires
        st == states(pop),
    ensures
        forall|q: int| 0 <= q < worker_ids(st).len() ==> has_id(pop, #[trigger] worker_ids(st)[q]),
    decreases pop.len(),
{
    if pop.len() > 0 {
        let sp = states(pop.drop_last());
        assert(sp =~= st.drop_last());
        lemma_worker_ids_known(sp, pop.drop_last());
        let ws = worker_ids(st);
        assert forall|q: int| 0 <= q < ws.len() implies has_id(pop, #[trigger] ws[q]) by {
            lemma_lookup(pop, ws[q]);
            lemma_lookup(pop.drop_last(), ws[q]);
            if q < worker_ids(sp).len() {
                assert(ws[q] == worker_ids(sp)[q]);
                assert(has_id(pop.drop_last(), ws[q]));
                let k = lookup(pop.drop_last(), ws[q]).unwrap();
                assert(pop[k] == pop.drop_last()[k]);
            } else {
                assert(ws[q] == st.last().id);
                assert(st.last() == state_of_mind(pop[pop.len() - 1]));
            }
        }
    }
}


/// The number of citizens that satisfy `pred`.
pub open spec fn count_where(pop: Seq<Mind>, pred: spec_fn(Mind) -> bool) -> nat
    decreases pop.len(),
{
    if pop.len() == 0 {
        0
    } else {
        count_where(pop.drop_last(), pred) + if pred(pop.last()) {
            1nat
        } else {
            0nat
        }
    }
}

/// Alive and employed.
pub open spec fn employed(m: Mind) -> bool {
    m.alive && m.employer is Some
}

/// Alive and past [`ADULT_AGE_FROM`].
pub open spec fn adult(m: Mind) -> bool {
    m.alive && m.age > ADULT_AGE_FROM
}

/// Dead.
pub open spec fn dead(m: Mind) -> bool {
    !m.alive
}

fn count_employed_adults(pop: &Vec<Mind>) -> (r: (usize, usize, usize))
    ensures
        r.0 == count_where(pop@, |m: Mind| employed(m)),
        r.1 == count_where(pop@, |m: Mind| adult(m)),
        r.2 == count_where(pop@, |m: Mind| dead(m)),
{
    let mut e: usize = 0;
    let mut a: usize = 0;
    let mut d: usize = 0;
    let mut i: usize = 0;
    while i < pop.len()
        invariant
            i <= pop.len(),
            e == count_where(pop@.take(i as int), |m: Mind| employed(m)),
            a == count_where(pop@.take(i as int), |m: Mind| adult(m)),
            d == count_where(pop@.take(i as int), |m: Mind| dead(m)),
            e <= i && a <= i && d <= i,
        decreases pop.len() - i,
    {
        assert(pop@.take(i + 1).drop_last() =~= pop@.take(i as int));
        let m = &pop[i];
        if m.alive && m.employer.is_some() {
            e = e + 1;
        }
        if m.alive && m.age > ADULT_AGE_FROM {
            a = a + 1;
        }
        if !m.alive {
            d = d + 1;
        }
        i = i + 1;
    }
    assert(pop@.take(pop.len() as int) =~= pop@);
    (e, a, d)
}

/// The employed citizens and the adults, whose ratio is the employment
/// rate of [`print_city`].
pub fn employment_counts(city: &City) -> (r: (usize, usize))
    ensures
        r.0 == count_where(city.citizens@, |m: Mind| employed(m)),
        r.1 == count_where(city.citizens@, |m: Mind| adult(m)),
{
    let (e, a, _d) = count_employed_adults(&city.citizens);
    (e, a)
}

/// The listings of the locations, in order (see [`location_text`]).
pub open spec fn locations_text(locs: Seq<Location>, city: City) -> Seq<char>
    decreases locs.len(),
{
    if locs.len() == 0 {
        Seq::empty()
    } else {
        locations_text(locs.drop_last(), city) + location_text(locs.last(), city)
    }
}

/// The report of a city: its name, the alive population, the written
/// employment rate given, the number of dead, then every location (see
/// [`location_text`]) and every alive citizen (see [`population_text`]).
pub open spec fn city_text(city: City, employment_rate: Seq<char>, scales: Seq<(String, String)>) -> Seq<char> {
    "City Name: "@ + city.name@ + "\n"@ + "Population: "@ + decimal(alive_count(city.citizens@)) + "\n"@
        + "Employment Rate: "@ + employment_rate + "\n"@ + "Dead: "@ + decimal(
        count_where(city.citizens@, |m: Mind| dead(m)),
    ) + "\n"@ + locations_text(city.areas@, city) + population_text(city, scales, city.citizens@.len() as int)
}

/// The report of a city (see [`city_text`]); the employment rate is
/// written by the caller from [`employment_counts`], and `scales` are as
/// for [`print_population`].
pub fn print_city(city: &City, employment_rate: &str, scales: &Vec<(String, String)>) -> (r: String)
    requires
        scales.len() == city.citizens.len(),
        forall|j: int|
            0 <= j < city.citizens.len() && (#[trigger] city.citizens@[j]).alive ==> mind_printable(
                city.citizens@[j],
                *city,
            ),
    ensures
        r@ == city_text(*city, employment_rate@, scales@),
{
    let alive = count_alive(&city.citizens);
    let (_e, _a, d) = count_employed_adults(&city.citizens);
    let mut out: Vec<char> = Vec::new();
    push_str(&mut out, "City Name: ");
    push_str(&mut out, city.name.as_str());
    push_str(&mut out, "\n");
    push_str(&mut out, "Population: ");
    let a = decimal_chars(alive as u64);
    push_all(&mut out, &a);
    push_str(&mut out, "\n");
    push_str(&mut out, "Employment Rate: ");
    push_str(&mut out, employment_rate);
    push_str(&mut out, "\n");
    push_str(&mut out, "Dead: ");
    let dd = decimal_chars(d as u64);
    push_all(&mut out, &dd);
    push_str(&mut out, "\n");
    let ghost head = out@;
    assert(head =~= "City Name: "@ + city.name@ + "\n"@ + "Population: "@ + decimal(alive_count(city.citizens@)) + "\n"@
        + "Employment Rate: "@ + employment_rate@ + "\n"@ + "Dead: "@ + decimal(
        count_where(city.citizens@, |m: Mind| dead(m)),
    ) + "\n"@);
    let mut i: usize = 0;
    while i < city.areas.len()
        invariant
            i <= city.areas.len(),
            out@ == head + locations_text(city.areas@.take(i as int), *city),
        decreases city.areas.len() - i,
    {
        assert(city.areas@.take(i + 1).drop_last() =~= city.areas@.take(i as int));
        let text = print_location(&city.areas[i], city);
        let t = chars_of(text.as_str());
        push_all(&mut out, &t);
        i = i + 1;
        assert(out@ =~= head + locations_text(city.areas@.take(i as int), *city));
    }
    assert(city.areas@.take(city.areas.len() as int) =~= city.areas@);
    let people = print_population(city, scales);
    let p = chars_of(people.as_str());
    push_all(&mut out, &p);
    assert(out@ =~= city_text(*city, employment_rate@, scales@));
    string_of(&out)
}


/// Citizen `b` is `a` one year older when alive, and otherwise the same.
pub open spec fn aged_a_year(a: Mind, b: Mind) -> bool {
    &&& b.age == if a.alive {
        a.age + 1
    } else {
        a.age as int
    }
    &&& b == Mind { age: b.age, ..a }
}

/// What the turn of the year makes of the city `c0` (see [`advance_year`]):
/// `c1`.
pub open spec fn year_advanced(c0: City, c1: City) -> bool {
    &&& c1.name == c0.name
    &&& c1.institutions == c0.institutions
    &&& c1.areas == c0.areas
    &&& c1.buildings == c0.buildings
    &&& c1.culture == c0.culture
    &&& c1.year == c0.year + 1
    &&& c1.citizens@.len() == c0.citizens@.len()
    &&& forall|j: int| 0 <= j < c1.citizens@.len() ==> aged_a_year(c0.citizens@[j], #[trigger] c1.citizens@[j])
}

/// The end of a simulated year: every alive citizen is a year older, and
/// the year advances. No age or year may be at its largest value.
pub fn advance_year<'a>(city: &'a mut City) -> (r: &'a mut City)
    requires
        forall|j: int| 0 <= j < old(city).citizens@.len() ==> (#[trigger] old(city).citizens@[j]).age < u32::MAX,
        old(city).year < usize::MAX,
    ensures
        year_advanced(*old(city), *r),
        *final(city) == *final(r),
{
    let n = city.citizens.len();
    let mut k: usize = 0;
    while k < n
        invariant
            k <= n == city.citizens.len() == old(city).citizens@.len(),
            city.name == old(city).name,
            city.institutions == old(city).institutions,
            city.areas == old(city).areas,
            city.buildings == old(city).buildings,
            city.culture == old(city).culture,
            city.year == old(city).year,
            forall|j: int| 0 <= j < n ==> (#[trigger] old(city).citizens@[j]).age < u32::MAX,
            forall|j: int| 0 <= j < k ==> aged_a_year(old(city).citizens@[j], #[trigger] city.citizens@[j]),
            forall|j: int| k <= j < n ==> #[trigger] city.citizens@[j] == old(city).citizens@[j],
        decreases n - k,
    {
        let mut m = city.citizens.remove(k);
        if m.alive {
            m.age = m.age + 1;
        }
        city.citizens.insert(k, m);
        k = k + 1;
    }
    city.year = city.year + 1;
    city
}

/// The story of a citizen: a heading with the name and gender, then each
/// line of its log, indented.
pub open spec fn story_text(m: Mind) -> Seq<char> {
    "==== "@ + m.first_name@ + " "@ + m.last_name@ + " - "@ + m.gender.label() + " ====\n"@ + log_lines(
        str_views(m.activity_log@),
    )
}

/// The lines of a log, each indented by two spaces.
pub open spec fn log_lines(log: Seq<Seq<char>>) -> Seq<char>
    decreases log.len(),
{
    if log.len() == 0 {
        Seq::empty()
    } else {
        log_lines(log.drop_last()) + "  "@ + log.last() + "\n"@
    }
}

/// The stories of the first `n` citizens, in order.
pub open spec fn stories_text(pop: Seq<Mind>, n: int) -> Seq<char>
    decreases n,
{
    if n <= 0 {
        Seq::empty()
    } else {
        stories_text(pop, n - 1) + story_text(pop[n - 1])
    }
}

/// The stories of every citizen (see [`story_text`]).
pub fn city_stories(city: &City) -> (r: String)
    ensures
        r@ == stories_text(city.citizens@, city.citizens@.len() as int),
{
    let mut out: Vec<char> = Vec::new();
    let mut j: usize = 0;
    while j < city.citizens.len()
        invariant
            j <= city.citizens.len(),
            out@ == stories_text(city.citizens@, j as int),
        decreases city.citizens.len() - j,
    {
        let m = &city.citizens[j];
        let ghost before = out@;
        push_str(&mut out, "==== ");
        push_str(&mut out, m.first_name.as_str());
        push_str(&mut out, " ");
        push_str(&mut out, m.last_name.as_str());
        push_str(&mut out, " - ");
        let g = m.gender.to_string();
        push_str(&mut out, g.as_str());
        push_str(&mut out, " ====\n");
        let ghost head = out@;
        let mut i: usize = 0;
        while i < m.activity_log.len()
            invariant
                i <= m.activity_log.len(),
                out@ == head + log_lines(str_views(m.activity_log@).take(i as int)),
            decreases m.activity_log.len() - i,
        {
            assert(str_views(m.activity_log@).take(i + 1).drop_last() =~= str_views(m.activity_log@).take(i as int));
            push_str(&mut out, "  ");
            push_str(&mut out, m.activity_log[i].as_str());
            push_str(&mut out, "\n");
            i = i + 1;
            assert(out@ =~= head + log_lines(str_views(m.activity_log@).take(i as int)));
        }
        assert(str_views(m.activity_log@).take(m.activity_log.len() as int) =~= str_views(m.activity_log@));
        j = j + 1;
        assert(out@ =~= stories_text(city.citizens@, j as int));
    }
    string_of(&out)
}

} // verus!

verus! {

/// A relation other than `rel` survives the removal of `rel`.
proof fn lemma_without_keeps(rels: Seq<Relation>, rel: Relation, x: Relation)
    requires
        rels.contains(x),
        x != rel,
    ensures
        without(rels, rel).contains(x),
    decreases rels.len(),
{
    let rest = rels.drop_last();
    if rels.last() == x {
        assert(without(rels, rel) == without(rest, rel).push(x));
        assert(without(rels, rel).last() == x);
    } else {
        let i = choose|i: int| 0 <= i < rels.len() && rels[i] == x;
        assert(rest[i] == x);
        lemma_without_keeps(rest, rel, x);
        let w = without(rest, rel);
        let i2 = choose|i2: int| 0 <= i2 < w.len() && w[i2] == x;
        if rels.last() != rel {
            assert(without(rels, rel) == w.push(rels.last()));
            assert(without(rels, rel)[i2] == x);
        }
    }
}

/// A relation that is not a social or colleague relation to `own`
/// survives [`without_self_social`].
proof fn lemma_without_self_social_keeps(rels: Seq<Relation>, own: Id, x: Relation)
    requires
        rels.contains(x),
        !(x.1 == own && social_or_colleague(x.0)),
    ensures
        without_self_social(rels, own).contains(x),
    decreases rels.len(),
{
    let rest = rels.drop_last();
    if rels.last() == x {
        assert(without_self_social(rels, own) == without_self_social(rest, own).push(x));
        assert(without_self_social(rels, own).last() == x);
    } else {
        let i = choose|i: int| 0 <= i < rels.len() && rels[i] == x;
        assert(rest[i] == x);
        lemma_without_self_social_keeps(rest, own, x);
        let w = without_self_social(rest, own);
        let i2 = choose|i2: int| 0 <= i2 < w.len() && w[i2] == x;
        let r = rels.last();
        if !(r.1 == own && social_or_colleague(r.0)) {
            assert(without_self_social(rels, own) == w.push(r));
            assert(without_self_social(rels, own)[i2] == x);
        }
    }
}

/// A late partner or late spouse relation survives mourning.
proof fn lemma_mourn_keeps(rels: Seq<Relation>, own: Id, list: Seq<Relation>, dead: Seq<Id>, x: Relation)
    requires
        rels.contains(x),
        x.0 == RelationVerb::LatePartner || x.0 == RelationVerb::LateSpouse,
    ensures
        mourn(rels, own, list, dead).contains(x),
    decreases list.len(),
{
    if list.len() > 0 {
        let prev = mourn(rels, own, list.drop_last(), dead);
        lemma_mourn_keeps(rels, own, list.drop_last(), dead, x);
        let r = list.last();
        if dead.contains(r.1) {
            if r.0 == RelationVerb::Partner {
                lemma_without_keeps(prev, (RelationVerb::Partner, own), x);
                let w = without(prev, (RelationVerb::Partner, own));
                let i = choose|i: int| 0 <= i < w.len() && w[i] == x;
                assert(w.push((RelationVerb::LatePartner, r.1))[i] == x);
            } else if r.0 == RelationVerb::Spouse {
                lemma_without_keeps(prev, (RelationVerb::Spouse, own), x);
                let w = without(prev, (RelationVerb::Spouse, own));
                let i = choose|i: int| 0 <= i < w.len() && w[i] == x;
                assert(w.push((RelationVerb::LateSpouse, r.1))[i] == x);
            } else if social_or_colleague(r.0) {
                lemma_without_self_social_keeps(prev, own, x);
            }
        }
    }
}

/// Mourning turns a partner or spouse among `list` who is dead into a late
/// partner or late spouse.
proof fn lemma_mourn_late(rels: Seq<Relation>, own: Id, list: Seq<Relation>, dead: Seq<Id>, x: Id)
    requires
        dead.contains(x),
    ensures
        list.contains((RelationVerb::Partner, x)) ==> mourn(rels, own, list, dead).contains(
            (RelationVerb::LatePartner, x),
        ),
        list.contains((RelationVerb::Spouse, x)) ==> mourn(rels, own, list, dead).contains(
            (RelationVerb::LateSpouse, x),
        ),
    decreases list.len(),
{
    if list.len() > 0 {
        let rest = list.drop_last();
        let prev = mourn(rels, own, rest, dead);
        lemma_mourn_late(rels, own, rest, dead, x);
        let r = list.last();
        let res = mourn(rels, own, list, dead);
        if r == (RelationVerb::Partner, x) {
            assert(res.last() == (RelationVerb::LatePartner, x));
        } else if r == (RelationVerb::Spouse, x) {
            assert(res.last() == (RelationVerb::LateSpouse, x));
        }
        assert forall|v: RelationVerb|
            (v == RelationVerb::Partner || v == RelationVerb::Spouse) && r != (v, x) && list.contains((v, x))
                implies rest.contains((v, x)) by {
            let i = choose|i: int| 0 <= i < list.len() && list[i] == (v, x);
            assert(rest[i] == (v, x));
        }
        if r != (RelationVerb::Partner, x) && list.contains((RelationVerb::Partner, x)) {
            assert(prev.contains((RelationVerb::LatePartner, x)));
            lemma_mourn_step_keeps(rels, own, list, dead, (RelationVerb::LatePartner, x));
        }
        if r != (RelationVerb::Spouse, x) && list.contains((RelationVerb::Spouse, x)) {
            assert(prev.contains((RelationVerb::LateSpouse, x)));
            lemma_mourn_step_keeps(rels, own, list, dead, (RelationVerb::LateSpouse, x));
        }
    }
}

/// The last step of mourning keeps a late partner or late spouse relation.
proof fn lemma_mourn_step_keeps(rels: Seq<Relation>, own: Id, list: Seq<Relation>, dead: Seq<Id>, x: Relation)
    requires
        list.len() > 0,
        mourn(rels, own, list.drop_last(), dead).contains(x),
        x.0 == RelationVerb::LatePartner || x.0 == RelationVerb::LateSpouse,
    ensures
        mourn(rels, own, list, dead).contains(x),
{
    let prev = mourn(rels, own, list.drop_last(), dead);
    let r = list.last();
    if dead.contains(r.1) {
        if r.0 == RelationVerb::Partner {
            lemma_without_keeps(prev, (RelationVerb::Partner, own), x);
            let w = without(prev, (RelationVerb::Partner, own));
            let i = choose|i: int| 0 <= i < w.len() && w[i] == x;
            assert(w.push((RelationVerb::LatePartner, r.1))[i] == x);
        } else if r.0 == RelationVerb::Spouse {
            lemma_without_keeps(prev, (RelationVerb::Spouse, own), x);
            let w = without(prev, (RelationVerb::Spouse, own));
            let i = choose|i: int| 0 <= i < w.len() && w[i] == x;
            assert(w.push((RelationVerb::LateSpouse, r.1))[i] == x);
        } else if social_or_colleague(r.0) {
            lemma_without_self_social_keeps(prev, own, x);
        }
    }
}

/// The id of each citizen among the first `n` who died is among the dead.
proof fn lemma_dead_ids_has(st: Seq<MindState>, died: Seq<bool>, n: int, d: int)
    requires
        0 <= d < n <= st.len(),
        n <= died.len(),
        died[d],
    ensures
        dead_ids(st, died, n).contains(st[d].id),
    decreases n,
{
    let rest = dead_ids(st, died, n - 1);
    if d == n - 1 {
        assert(dead_ids(st, died, n) == rest.push(st[d].id));
        assert(dead_ids(st, died, n).last() == st[d].id);
    } else {
        lemma_dead_ids_has(st, died, n - 1, d);
        let i = choose|i: int| 0 <= i < rest.len() && rest[i] == st[d].id;
        if died[n - 1] {
            assert(dead_ids(st, died, n)[i] == st[d].id);
        }
    }
}

/// The yearly pass of old age (see [`old_age_pass_per_year`]) keeps every
/// citizen's id and age; the dead stay dead; a citizen who dies loses its
/// employer and residence and has its death logged; and whoever had a
/// citizen who dies as partner or spouse then has them as late partner or
/// late spouse.
pub proof fn lemma_old_age_law(st: Seq<MindState>, died: Seq<bool>, lifespan: u32, year: nat)
    requires
        deaths_ok(st, died, lifespan),
    ensures
        ({
            let after = mourned(died_states(st, died, year), dead_ids(st, died, st.len() as int));
            &&& after.len() == st.len()
            &&& forall|j: int| 0 <= j < st.len() ==> (#[trigger] after[j]).id == st[j].id && after[j].age == st[j].age
            &&& forall|j: int| 0 <= j < st.len() && !st[j].alive ==> !(#[trigger] after[j]).alive
            &&& forall|j: int|
                0 <= j < st.len() && st[j].alive && !(#[trigger] after[j]).alive ==> after[j].employer is None
                    && after[j].residence is None && after[j].log == st[j].log.push(
                    death_line(year, st[j].age as nat),
                )
            &&& forall|j: int, d: int|
                #![trigger after[j], st[d]]
                0 <= j < st.len() && 0 <= d < st.len() && st[d].alive && !after[d].alive && st[j].rels.contains(
                    (RelationVerb::Partner, st[d].id),
                ) ==> after[j].rels.contains((RelationVerb::LatePartner, st[d].id))
            &&& forall|j: int, d: int|
                #![trigger after[j], st[d]]
                0 <= j < st.len() && 0 <= d < st.len() && st[d].alive && !after[d].alive && st[j].rels.contains(
                    (RelationVerb::Spouse, st[d].id),
                ) ==> after[j].rels.contains((RelationVerb::LateSpouse, st[d].id))
        }),
{
    let ds = died_states(st, died, year);
    let dead = dead_ids(st, died, st.len() as int);
    let after = mourned(ds, dead);
    assert forall|j: int, d: int|
        #![trigger after[j], st[d]]
        0 <= j < st.len() && 0 <= d < st.len() && st[d].alive && !after[d].alive implies ({
            &&& st[j].rels.contains((RelationVerb::Partner, st[d].id)) ==> after[j].rels.contains(
                (RelationVerb::LatePartner, st[d].id),
            )
            &&& st[j].rels.contains((RelationVerb::Spouse, st[d].id)) ==> after[j].rels.contains(
                (RelationVerb::LateSpouse, st[d].id),
            )
        }) by {
        assert(after[d].alive == ds[d].alive);
        assert(died[d]);
        lemma_dead_ids_has(st, died, st.len() as int, d);
        assert(ds[j].rels == st[j].rels);
        assert(after[j].rels == mourn(ds[j].rels, ds[j].id, ds[j].rels, dead));
        lemma_mourn_late(ds[j].rels, ds[j].id, ds[j].rels, dead, st[d].id);
    }
}


/// In the yearly pass of old age (see [`old_age_pass_per_year`]), each
/// citizen alive before is dead after exactly when the draw of its chance
/// (see [`death_tenths`]) in 10 came up (see [`ratio_drawn`]): a citizen
/// dies by its own draw, not for being old enough to have a chance.
pub proof fn lemma_old_age_deaths_drawn(c0: City, c1: City, culture: CultureConfig)
    requires
        old_age_passed(c0, c1, culture),
    ensures
        c1.citizens@.len() == c0.citizens@.len(),
        forall|j: int|
            0 <= j < c0.citizens@.len() && c0.citizens@[j].alive ==> ratio_drawn(
                death_tenths(c0.citizens@[j].age, culture.species_avg_lifespan) as u32,
                10,
                !(#[trigger] c1.citizens@[j]).alive,
            ),
{
    let st = states(c0.citizens@);
    let died = choose|died: Seq<bool>|
        #![trigger died_states(states(c0.citizens@), died, c0.year as nat)]
        deaths_ok(states(c0.citizens@), died, culture.species_avg_lifespan) && deaths_drawn(
            states(c0.citizens@),
            died,
            culture.species_avg_lifespan,
        ) && states(c1.citizens@) == mourned(
            died_states(states(c0.citizens@), died, c0.year as nat),
            dead_ids(states(c0.citizens@), died, c0.citizens.len() as int),
        );
    let after = states(c1.citizens@);
    assert(after.len() == st.len());
    assert forall|j: int| 0 <= j < c0.citizens@.len() && c0.citizens@[j].alive implies ratio_drawn(
        death_tenths(c0.citizens@[j].age, culture.species_avg_lifespan) as u32,
        10,
        !(#[trigger] c1.citizens@[j]).alive,
    ) by {
        assert(st[j] == state_of_mind(c0.citizens@[j]));
        assert(after[j] == state_of_mind(c1.citizens@[j]));
        assert(after[j].alive == !died[j]);
    }
}


/// The chance of dying in a year, in tenths (see [`death_tenths`]): 5 at the
/// average lifespan; one tenth more for each year over it and one less for
/// each year under it, until it reaches 10 or 0; never outside 0 to 10.
pub proof fn lemma_death_tenths(age: u32, lifespan: u32)
    ensures
        0 <= death_tenths(age, lifespan) <= 10,
        death_tenths(lifespan, lifespan) == 5,
        age < u32::MAX && 0 <= death_tenths(age, lifespan) < 10 && 5 + age - lifespan >= 0 ==> death_tenths(
            (age + 1) as u32,
            lifespan,
        ) == death_tenths(age, lifespan) + 1,
        age + 5 <= lifespan ==> death_tenths(age, lifespan) == 0,
        age >= lifespan + 5 ==> death_tenths(age, lifespan) == 10,
{
}

} // verus!
