//! Citizens' visits to the city's shops and venues.
use crate::city::building::{owner_of, owner_of_exec};
use crate::city::institutions::{InstituteType, Institution};
use crate::city::population::mind::{habits_known, habits_known_exec, Mind};
use crate::city::City;
use crate::random::{random_below, Id};
use vstd::prelude::*;

verus! {

/// The kinds of visits a citizen keeps count of.
#[derive(PartialEq, Eq, Structural, Debug, Clone, Copy)]
pub enum VisitType {
    Shopping,
    Social,
}

/// The visit counts of `mind` of the given kind: institution ids with the
/// number of visits.
pub open spec fn visits_of(mind: Mind, visit_type: VisitType) -> Seq<(Id, usize)> {
    match visit_type {
        VisitType::Shopping => mind.institution_shopping_visits@,
        VisitType::Social => mind.institution_social_visits@,
    }
}

/// The number of visits in all.
pub open spec fn visit_total(s: Seq<(Id, usize)>) -> nat
    decreases s.len(),
{
    if s.len() == 0 {
        0
    } else {
        visit_total(s.drop_last()) + (s.last().1 as nat)
    }
}

/// `x` placed into `s` after every entry with at most as many visits,
/// counting from the end.
pub open spec fn insert_visit(s: Seq<(Id, usize)>, x: (Id, usize)) -> Seq<(Id, usize)>
    decreases s.len(),
{
    if s.len() == 0 || s.last().1 <= x.1 {
        s.push(x)
    } else {
        insert_visit(s.drop_last(), x).push(s.last())
    }
}

/// The entries in ascending order of visits, entries with as many visits
/// kept in their order (a stable sort).
pub open spec fn sorted_visits(s: Seq<(Id, usize)>) -> Seq<(Id, usize)>
    decreases s.len(),
{
    if s.len() == 0 {
        s
    } else {
        insert_visit(sorted_visits(s.drop_last()), s.last())
    }
}

/// The ids of the entries.
pub open spec fn visit_ids(s: Seq<(Id, usize)>) -> Seq<Id> {
    s.map_values(|v: (Id, usize)| v.0)
}

/// The habitual institutions of a list of visits: none when there was no
/// visit; else the first ten (or fewer, when there are fewer) of the
/// entries in ascending order of visits (see [`sorted_visits`]), with their
/// visits and the visits in all.
pub open spec fn habits(s: Seq<(Id, usize)>) -> (Seq<Id>, nat, nat) {
    if visit_total(s) == 0 {
        (Seq::empty(), 0, 0)
    } else {
        let top = sorted_visits(s).take(if s.len() > 10 { 10 } else { s.len() as int });
        (visit_ids(top), visit_total(top), visit_total(s))
    }
}

proof fn lemma_insert_visit(s: Seq<(Id, usize)>, x: (Id, usize), p: int)
    requires
        0 <= p <= s.len(),
        forall|j: int| p <= j < s.len() ==> (#[trigger] s[j]).1 > x.1,
        p > 0 ==> s[p - 1].1 <= x.1,
    ensures
        insert_visit(s, x) == s.insert(p, x),
    decreases s.len() - p,
{
    if p < s.len() {
        lemma_insert_visit(s.drop_last(), x, p);
        assert(s.insert(p, x) =~= s.drop_last().insert(p, x).push(s.last()));
    } else {
        assert(s.insert(p, x) =~= s.push(x));
    }
}

proof fn lemma_insert_visit_len(s: Seq<(Id, usize)>, x: (Id, usize))
    ensures
        insert_visit(s, x).len() == s.len() + 1,
        visit_total(insert_visit(s, x)) == visit_total(s) + x.1,
    decreases s.len(),
{
    if s.len() > 0 && s.last().1 > x.1 {
        lemma_insert_visit_len(s.drop_last(), x);
        assert(insert_visit(s, x).drop_last() == insert_visit(s.drop_last(), x));
    } else {
        assert(s.push(x).drop_last() == s);
    }
}

proof fn lemma_sorted_visits_len(s: Seq<(Id, usize)>)
    ensures
        sorted_visits(s).len() == s.len(),
        visit_total(sorted_visits(s)) == visit_total(s),
    decreases s.len(),
{
    if s.len() > 0 {
        lemma_sorted_visits_len(s.drop_last());
        lemma_insert_visit_len(sorted_visits(s.drop_last()), s.last());
    }
}

fn sum_visits(s: &Vec<(Id, usize)>, n: usize) -> (r: usize)
    requires
        n <= s.len(),
        visit_total(s@.take(n as int)) <= usize::MAX,
    ensures
        r == visit_total(s@.take(n as int)),
{
    let mut total: usize = 0;
    let mut i: usize = 0;
    while i < n
        invariant
            i <= n <= s.len(),
            total == visit_total(s@.take(i as int)),
            visit_total(s@.take(n as int)) <= usize::MAX,
        decreases n - i,
    {
        assert(s@.take(i + 1).drop_last() =~= s@.take(i as int));
        proof {
            lemma_visit_total_prefix(s@.take(n as int), i + 1);
            assert(s@.take(n as int).take(i + 1) =~= s@.take(i + 1));
        }
        total = total + s[i].1;
        i = i + 1;
    }
    total
}

proof fn lemma_visit_total_prefix(s: Seq<(Id, usize)>, n: int)
    requires
        0 <= n <= s.len(),
    ensures
        visit_total(s.take(n)) <= visit_total(s),
    decreases s.len() - n,
{
    if n < s.len() {
        lemma_visit_total_prefix(s, n + 1);
        assert(s.take(n + 1).drop_last() =~= s.take(n));
    } else {
        assert(s.take(n) =~= s);
    }
}

/// Whether the visits in all fit in a `usize`.
pub fn visit_total_fits(s: &Vec<(Id, usize)>) -> (b: bool)
    ensures
        b == (visit_total(s@) <= usize::MAX),
{
    visit_total_within(s, usize::MAX)
}

/// Whether the visits in all are at most `cap`.
fn visit_total_within(s: &Vec<(Id, usize)>, cap: usize) -> (b: bool)
    ensures
        b == (visit_total(s@) <= cap),
{
    let mut total: usize = 0;
    let mut i: usize = 0;
    while i < s.len()
        invariant
            i <= s.len(),
            total == visit_total(s@.take(i as int)),
            total <= cap,
        decreases s.len() - i,
    {
        assert(s@.take(i + 1).drop_last() =~= s@.take(i as int));
        match total.checked_add(s[i].1) {
            Some(t) => {
                if t > cap {
                    proof {
                        lemma_visit_total_prefix(s@, i + 1);
                    }
                    return false;
                }
                total = t;
            },
            None => {
                proof {
                    lemma_visit_total_prefix(s@, i + 1);
                }
                return false;
            },
        }
        i = i + 1;
    }
    assert(s@.take(s.len() as int) =~= s@);
    true
}

/// The entries in ascending order of visits (see [`sorted_visits`]).
fn sort_visits(s: &Vec<(Id, usize)>) -> (r: Vec<(Id, usize)>)
    ensures
        r@ == sorted_visits(s@),
{
    let mut out: Vec<(Id, usize)> = Vec::new();
    let mut i: usize = 0;
    while i < s.len()
        invariant
            i <= s.len(),
            out@ == sorted_visits(s@.take(i as int)),
        decreases s.len() - i,
    {
        assert(s@.take(i + 1).drop_last() =~= s@.take(i as int));
        let x = s[i];
        let mut p: usize = out.len();
        while p > 0 && out[p - 1].1 > x.1
            invariant
                p <= out.len(),
                forall|j: int| p <= j < out.len() ==> (#[trigger] out@[j]).1 > x.1,
            decreases p,
        {
            p = p - 1;
        }
        proof {
            lemma_insert_visit(out@, x, p as int);
        }
        out.insert(p, x);
        i = i + 1;
    }
    assert(s@.take(s.len() as int) =~= s@);
    out
}

/// The habitual institutions of `mind` for the kind of visit (see
/// [`habits`]): their ids, their visits, and the visits in all. The share of
/// habitual visits is the second number over the third. The visits in all
/// must fit in a `usize`.
pub fn get_habitual_institutions(mind: &Mind, visit_type: &VisitType) -> (r: (Vec<Id>, usize, usize))
    requires
        visit_total(visits_of(*mind, *visit_type)) <= usize::MAX,
    ensures
        (r.0@, r.1 as nat, r.2 as nat) == habits(visits_of(*mind, *visit_type)),
{
    let visits = match visit_type {
        VisitType::Shopping => &mind.institution_shopping_visits,
        VisitType::Social => &mind.institution_social_visits,
    };
    assert(visits@.take(visits.len() as int) =~= visits@);
    let total = sum_visits(visits, visits.len());
    if total == 0 {
        return (Vec::new(), 0, 0);
    }
    let sorted = sort_visits(visits);
    proof {
        lemma_sorted_visits_len(visits@);
    }
    let limit = if visits.len() > 10 { 10 } else { visits.len() };
    proof {
        lemma_visit_total_prefix(sorted@, limit as int);
    }
    let top_sum = sum_visits(&sorted, limit);
    let mut ids: Vec<Id> = Vec::new();
    let mut k: usize = 0;
    while k < limit
        invariant
            k <= limit <= sorted.len(),
            ids@ == visit_ids(sorted@.take(k as int)),
        decreases limit - k,
    {
        ids.push(sorted[k].0);
        k = k + 1;
        assert(ids@ =~= visit_ids(sorted@.take(k as int)));
    }
    (ids, top_sum, total)
}

} // verus!

verus! {

/// The institution types citizens go shopping at.
pub open spec fn shopping_type(t: InstituteType) -> bool {
    t == InstituteType::FoodService || t == InstituteType::GeneralRetail || t == InstituteType::SpecialistRetail
        || t == InstituteType::EntertainmentVenue
}

/// The ids of the institutions citizens go shopping at, in order.
pub open spec fn shopping_ids(insts: Seq<Institution>) -> Seq<Id>
    decreases insts.len(),
{
    if insts.len() == 0 {
        Seq::empty()
    } else if shopping_type(insts.last().institute_type) {
        shopping_ids(insts.drop_last()).push(insts.last().id)
    } else {
        shopping_ids(insts.drop_last())
    }
}

/// The sum of a sequence of counts.
pub open spec fn nat_sum(s: Seq<nat>) -> nat
    decreases s.len(),
{
    if s.len() == 0 {
        0
    } else {
        nat_sum(s.drop_last()) + s.last()
    }
}

/// `b` is `a` with more visits: as many entries or more, the same ids in
/// the same places, and no count lower.
pub open spec fn visits_grown(a: Seq<(Id, usize)>, b: Seq<(Id, usize)>) -> bool {
    &&& a.len() <= b.len()
    &&& forall|i: int| 0 <= i < a.len() ==> (#[trigger] b[i]).0 == a[i].0 && b[i].1 >= a[i].1
}

/// Citizen `b` is `a` after a year of shopping: only the shopping visits
/// changed, and they grew by `v` visits.
pub open spec fn shopped(a: Mind, b: Mind, v: nat) -> bool {
    &&& b.id == a.id
    &&& b.first_name == a.first_name
    &&& b.last_name == a.last_name
    &&& b.gender == a.gender
    &&& b.age == a.age
    &&& b.relations == a.relations
    &&& b.employer == a.employer
    &&& b.residence == a.residence
    &&& b.sexuality == a.sexuality
    &&& b.alive == a.alive
    &&& b.activity_log == a.activity_log
    &&& b.physical_description == a.physical_description
    &&& b.institution_social_visits == a.institution_social_visits
    &&& visits_grown(a.institution_shopping_visits@, b.institution_shopping_visits@)
    &&& visit_total(b.institution_shopping_visits@) == visit_total(a.institution_shopping_visits@) + v
}

/// Institution `b` is `a` with `v` more visits in the year.
pub open spec fn visited(a: Institution, b: Institution, v: nat) -> bool {
    &&& b.id == a.id
    &&& b.name == a.name
    &&& b.public == a.public
    &&& b.institute_type == a.institute_type
    &&& b.size == a.size
    &&& b.serves == a.serves
    &&& b.annual_visits == a.annual_visits + v
}

/// Shopping can be counted: every alive citizen's habitual shops are
/// institutions of the city, and no count can overflow in a year of
/// visits.
pub open spec fn shopping_ok(city: City) -> bool {
    &&& forall|j: int|
        0 <= j < city.citizens@.len() && (#[trigger] city.citizens@[j]).alive ==> {
            &&& visit_total(city.citizens@[j].institution_shopping_visits@) + 366 <= usize::MAX
            &&& habits_known(city.citizens@[j], VisitType::Shopping, city.institutions@)
        }
    &&& forall|i: int|
        0 <= i < city.institutions@.len() ==> (#[trigger] city.institutions@[i]).annual_visits + 366
            * city.citizens@.len() <= usize::MAX
}

fn shopping_ids_exec(insts: &Vec<Institution>) -> (r: Vec<Id>)
    ensures
        r@ == shopping_ids(insts@),
{
    let mut out: Vec<Id> = Vec::new();
    let mut i: usize = 0;
    while i < insts.len()
        invariant
            i <= insts.len(),
            out@ == shopping_ids(insts@.take(i as int)),
        decreases insts.len() - i,
    {
        assert(insts@.take(i + 1).drop_last() =~= insts@.take(i as int));
        let t = insts[i].institute_type;
        if t == InstituteType::FoodService || t == InstituteType::GeneralRetail || t
            == InstituteType::SpecialistRetail || t == InstituteType::EntertainmentVenue {
            out.push(insts[i].id);
        }
        i = i + 1;
    }
    assert(insts@.take(insts.len() as int) =~= insts@);
    out
}

proof fn lemma_shopping_ids_known(insts: Seq<Institution>)
    ensures
        forall|k: int| 0 <= k < shopping_ids(insts).len() ==> owner_of(insts, Some(#[trigger] shopping_ids(insts)[k])) is Some,
    decreases insts.len(),
{
    if insts.len() > 0 {
        lemma_shopping_ids_known(insts.drop_last());
        let s = shopping_ids(insts);
        assert forall|k: int| 0 <= k < s.len() implies owner_of(insts, Some(#[trigger] s[k])) is Some by {
            if k < shopping_ids(insts.drop_last()).len() {
                assert(s[k] == shopping_ids(insts.drop_last())[k]);
            }
        }
    }
}

proof fn lemma_nat_sum_update(s: Seq<nat>, i: int)
    requires
        0 <= i < s.len(),
    ensures
        nat_sum(s.update(i, s[i] + 1)) == nat_sum(s) + 1,
    decreases s.len(),
{
    if i < s.len() - 1 {
        lemma_nat_sum_update(s.drop_last(), i);
        assert(s.update(i, s[i] + 1).drop_last() =~= s.drop_last().update(i, s[i] + 1));
    } else {
        assert(s.update(i, s[i] + 1).drop_last() =~= s.drop_last());
    }
}

proof fn lemma_nat_sum_bound(s: Seq<nat>, i: int)
    requires
        0 <= i < s.len(),
    ensures
        s[i] <= nat_sum(s),
    decreases s.len(),
{
    if i < s.len() - 1 {
        lemma_nat_sum_bound(s.drop_last(), i);
    }
}

proof fn lemma_nat_sum_push(s: Seq<nat>, x: nat)
    ensures
        nat_sum(s.push(x)) == nat_sum(s) + x,
{
    assert(s.push(x).drop_last() =~= s);
}

/// Adds a visit to the entry of `id`, or a new entry with one visit.
/// Whether a year of shopping can be counted (see [`shopping_ok`]).
pub fn shopping_ok_exec(city: &City) -> (b: bool)
    ensures
        b == shopping_ok(*city),
{
    let mut j: usize = 0;
    while j < city.citizens.len()
        invariant
            j <= city.citizens.len(),
            forall|q: int|
                0 <= q < j && (#[trigger] city.citizens@[q]).alive ==> {
                    &&& visit_total(city.citizens@[q].institution_shopping_visits@) + 366 <= usize::MAX
                    &&& habits_known(city.citizens@[q], VisitType::Shopping, city.institutions@)
                },
        decreases city.citizens.len() - j,
    {
        let m = &city.citizens[j];
        if m.alive {
            if !visit_total_within(&m.institution_shopping_visits, usize::MAX - 366) {
                return false;
            }
            if !habits_known_exec(m, VisitType::Shopping, &city.institutions) {
                return false;
            }
        }
        j = j + 1;
    }
    let n = city.citizens.len();
    if n > usize::MAX / 366 {
        if city.institutions.len() > 0 {
            assert(city.institutions@[0].annual_visits + 366 * n > usize::MAX) by (nonlinear_arith)
                requires
                    n > usize::MAX / 366,
                    city.institutions@[0].annual_visits >= 0,
            ;
            return false;
        }
        return true;
    }
    let year = 366 * n;
    let mut i: usize = 0;
    while i < city.institutions.len()
        invariant
            i <= city.institutions.len(),
            n == city.citizens.len(),
            year == 366 * n,
            forall|q: int|
                0 <= q < i ==> (#[trigger] city.institutions@[q]).annual_visits + 366 * city.citizens@.len()
                    <= usize::MAX,
        decreases city.institutions.len() - i,
    {
        if city.institutions[i].annual_visits > usize::MAX - year {
            return false;
        }
        i = i + 1;
    }
    true
}

fn add_visit(visits: &mut Vec<(Id, usize)>, id: Id)
    requires
        visit_total(old(visits)@) < usize::MAX,
    ensures
        visits_grown(old(visits)@, final(visits)@),
        visit_total(final(visits)@) == visit_total(old(visits)@) + 1,
{
    let ghost v0 = visits@;
    let mut i: usize = 0;
    while i < visits.len()
        invariant
            i <= visits.len(),
            visits@ == v0,
            v0 == old(visits)@,
            visit_total(v0) < usize::MAX,
        decreases visits.len() - i,
    {
        if visits[i].0 == id {
            proof {
                lemma_visit_total_entry(v0, i as int);
            }
            let c = visits[i].1 + 1;
            visits.set(i, (id, c));
            proof {
                lemma_visit_total_bump(v0, i as int);
                assert(visits@ =~= v0.update(i as int, (v0[i as int].0, (v0[i as int].1 + 1) as usize)));
            }
            return;
        }
        i = i + 1;
    }
    visits.push((id, 1));
    assert(visits@.drop_last() =~= v0);
    assert forall|t: int| 0 <= t < v0.len() implies (#[trigger] visits@[t]).0 == v0[t].0 && visits@[t].1 >= v0[t].1 by {
        assert(visits@[t] == v0[t]);
    }
}

proof fn lemma_visit_total_entry(s: Seq<(Id, usize)>, i: int)
    requires
        0 <= i < s.len(),
    ensures
        s[i].1 <= visit_total(s),
    decreases s.len(),
{
    if i < s.len() - 1 {
        lemma_visit_total_entry(s.drop_last(), i);
    }
}

proof fn lemma_visit_total_bump(s: Seq<(Id, usize)>, i: int)
    requires
        0 <= i < s.len(),
        s[i].1 < usize::MAX,
    ensures
        visit_total(s.update(i, (s[i].0, (s[i].1 + 1) as usize))) == visit_total(s) + 1,
    decreases s.len(),
{
    let t = s.update(i, (s[i].0, (s[i].1 + 1) as usize));
    if i < s.len() - 1 {
        lemma_visit_total_bump(s.drop_last(), i);
        assert(t.drop_last() =~= s.drop_last().update(i, (s[i].0, (s[i].1 + 1) as usize)));
    } else {
        assert(t.drop_last() =~= s.drop_last());
    }
}

/// Whether a draw `u` in `[0, 2^24)` sends a visit to a habitual
/// institution: `(u / 2^24)^2 < top / total`, that is
/// `u^2 * total < top * 2^48`.
pub open spec fn habitual_draw(u: int, top: int, total: int) -> bool {
    u * u * total < top * 281474976710656
}

fn habitual_draw_exec(u: usize, top: usize, total: usize) -> (b: bool)
    requires
        u < 16777216,
    ensures
        b == habitual_draw(u as int, top as int, total as int),
{
    let uu = u as u128;
    let t = total as u128;
    let h = top as u128;
    assert(uu * uu <= 16777215 * 16777215) by (nonlinear_arith)
        requires
            uu < 16777216,
    ;
    assert(uu * uu * t <= 16777215 * 16777215 * 18446744073709551615) by (nonlinear_arith)
        requires
            uu * uu <= 16777215 * 16777215,
            t <= 18446744073709551615,
    ;
    assert(h * 281474976710656 <= 18446744073709551615 * 281474976710656) by (nonlinear_arith)
        requires
            h <= 18446744073709551615,
    ;
    uu * uu * t < h * 281474976710656u128
}

/// Whether a visit goes to a habitual institution: with chance the square
/// root of the habitual share `top / total`, for a draw `u` in `2^24` (see
/// [`habitual_draw`]). So never when `top` is 0, and always when `top` is
/// at least `total` and not 0.
fn habitual_visit(top: usize, total: usize) -> (b: bool)
    ensures
        exists|u: int| 0 <= u < 16777216 && b == habitual_draw(u, top as int, total as int),
        top == 0 ==> !b,
        top > 0 && top >= total ==> b,
{
    let u = random_below(16777216);
    let b = habitual_draw_exec(u, top, total);
    proof {
        let ui = u as int;
        assert(ui * ui * total >= 0) by (nonlinear_arith)
            requires
                ui >= 0,
                total >= 0,
        ;
        if top > 0 && top >= total {
            assert(ui * ui * total < top * 281474976710656) by (nonlinear_arith)
                requires
                    0 <= ui < 16777216,
                    0 <= total <= top,
                    top > 0,
            ;
        }
    }
    b
}

/// What the year's shopping makes of the city `c0` (see
/// [`run_citizen_shopping`]): `c1`.
pub open spec fn shopping_done(c0: City, c1: City) -> bool {
    &&& c1.name == c0.name
    &&& c1.areas == c0.areas
    &&& c1.buildings == c0.buildings
    &&& c1.culture == c0.culture
    &&& c1.year == c0.year
    &&& c1.citizens.len() == c0.citizens.len()
    &&& c1.institutions.len() == c0.institutions.len()
    &&& exists|per_mind: Seq<nat>, per_inst: Seq<nat>|
        #![trigger nat_sum(per_mind), nat_sum(per_inst)]
        {
            &&& per_mind.len() == c0.citizens.len()
            &&& per_inst.len() == c0.institutions.len()
            &&& nat_sum(per_mind) == nat_sum(per_inst)
            &&& forall|j: int|
                0 <= j < per_mind.len() ==> #[trigger] per_mind[j] <= 365 && shopped(
                    c0.citizens@[j],
                    c1.citizens@[j],
                    per_mind[j],
                ) && (!c0.citizens@[j].alive || shopping_ids(c0.institutions@).len() < 5
                    ==> per_mind[j] == 0)
            &&& forall|i: int|
                0 <= i < per_inst.len() ==> visited(
                    c0.institutions@[i],
                    c1.institutions@[i],
                    #[trigger] per_inst[i],
                )
        }
}

/// A year of shopping: each alive citizen, when the city has at least five
/// shops, makes up to 365 visits, each to one of its habitual shops (with
/// chance the square root of its habitual share) or else to any shop; each
/// visit is counted both in the citizen's shopping visits and in the
/// institution's visits of the year, so the visits the citizens gained add
/// up to the visits the institutions gained.
pub fn run_citizen_shopping<'a>(city: &'a mut City) -> (r: &'a mut City)
    requires
        shopping_ok(*old(city)),
    ensures
        shopping_done(*old(city), *r),
        *final(city) == *final(r),
{
    let shops = shopping_ids_exec(&city.institutions);
    proof {
        lemma_shopping_ids_known(city.institutions@);
    }
    let ghost insts0 = city.institutions@;
    let ghost pop0 = city.citizens@;
    let ghost mut per_mind: Seq<nat> = Seq::empty();
    let ghost mut per_inst: Seq<nat> = Seq::new(insts0.len(), |i: int| 0nat);
    assert(nat_sum(per_inst) == 0) by {
        lemma_nat_sum_zero(per_inst);
    }
    let n = city.citizens.len();
    let mut k: usize = 0;
    while k < n
        invariant
            k <= n == city.citizens.len() == pop0.len(),
            pop0 == old(city).citizens@,
            insts0 == old(city).institutions@,
            shops@ == shopping_ids(insts0),
            forall|q: int| 0 <= q < shops@.len() ==> owner_of(insts0, Some(#[trigger] shops@[q])) is Some,
            shopping_ok(*old(city)),
            city.name == old(city).name,
            city.areas == old(city).areas,
            city.buildings == old(city).buildings,
            city.culture == old(city).culture,
            city.year == old(city).year,
            city.institutions.len() == insts0.len(),
            per_mind.len() == k,
            per_inst.len() == insts0.len(),
            nat_sum(per_mind) == nat_sum(per_inst),
            nat_sum(per_mind) <= 365 * k,
            forall|i: int|
                0 <= i < insts0.len() ==> visited(insts0[i], city.institutions@[i], #[trigger] per_inst[i]),
            forall|j: int|
                0 <= j < k ==> #[trigger] per_mind[j] <= 365 && shopped(pop0[j], city.citizens@[j], per_mind[j])
                    && (!pop0[j].alive || shops@.len() < 5 ==> per_mind[j] == 0),
            forall|j: int| k <= j < n ==> #[trigger] city.citizens@[j] == pop0[j],
        decreases n - k,
    {
        let ghost before_insts = city.institutions@;
        let mut m = city.citizens.remove(k);
        let ghost m0 = m;
        let ghost cit_mid = city.citizens@;
        assert(m0 == pop0[k as int]);
        proof {
            assert forall|i: int| 0 <= i < insts0.len() implies (#[trigger] city.institutions@[i]).id == insts0[i].id by {
                assert(visited(insts0[i], city.institutions@[i], per_inst[i]));
            }
        }
        let mut made: usize = 0;
        if m.alive && shops.len() >= 5 {
            let (habitual, top, total) = get_habitual_institutions(&m, &VisitType::Shopping);
            let visit_count = random_below(366);
            let mut v: usize = 0;
            while v < visit_count
                invariant
                    v <= visit_count <= 365,
                    made == v,
                    shops@.len() >= 5,
                    shops@ == shopping_ids(insts0),
                    forall|q: int| 0 <= q < shops@.len() ==> owner_of(insts0, Some(#[trigger] shops@[q])) is Some,
                    forall|q: int| 0 <= q < habitual@.len() ==> owner_of(insts0, Some(#[trigger] habitual@[q])) is Some,
                    city.institutions.len() == insts0.len(),
                    forall|i: int| 0 <= i < insts0.len() ==> (#[trigger] city.institutions@[i]).id == insts0[i].id,
                    per_inst.len() == insts0.len(),
                    nat_sum(per_inst) == nat_sum(per_mind) + v,
                    nat_sum(per_mind) <= 365 * k,
                    k < n,
                    n == old(city).citizens@.len(),
                    city.citizens@ == cit_mid,
                    insts0 == old(city).institutions@,
                    city.name == old(city).name,
                    city.areas == old(city).areas,
                    city.buildings == old(city).buildings,
                    city.culture == old(city).culture,
                    city.year == old(city).year,
                    shopping_ok(*old(city)),
                    forall|i: int|
                        0 <= i < insts0.len() ==> visited(insts0[i], city.institutions@[i], #[trigger] per_inst[i]),
                    m.id == m0.id && m.first_name == m0.first_name && m.last_name == m0.last_name && m.gender
                        == m0.gender && m.age == m0.age && m.relations == m0.relations && m.employer == m0.employer
                        && m.residence == m0.residence && m.sexuality == m0.sexuality && m.alive == m0.alive
                        && m.activity_log == m0.activity_log && m.physical_description == m0.physical_description
                        && m.institution_social_visits == m0.institution_social_visits,
                    visits_grown(m0.institution_shopping_visits@, m.institution_shopping_visits@),
                    visit_total(m.institution_shopping_visits@) == visit_total(m0.institution_shopping_visits@) + v,
                    visit_total(m0.institution_shopping_visits@) + 366 <= usize::MAX,
                decreases visit_count - v,
            {
                let key = if habitual.len() > 0 && habitual_visit(top, total) {
                    habitual[random_below(habitual.len())]
                } else {
                    shops[random_below(shops.len())]
                };
                proof {
                    lemma_owner_of_same_ids(insts0, city.institutions@, Some(key));
                }
                let i = owner_of_exec(&city.institutions, Some(key)).unwrap();
                let ghost g0 = m.institution_shopping_visits@;
                let ghost cur = city.institutions@;
                proof {
                    lemma_nat_sum_bound(per_inst, i as int);
                    assert(per_inst[i as int] <= 365 * k + 365);
                    assert(visited(insts0[i as int], city.institutions@[i as int], per_inst[i as int]));
                    assert(old(city).institutions@[i as int].annual_visits + 366 * old(city).citizens@.len()
                        <= usize::MAX);
                    assert(365 * k + 366 <= 366 * n) by (nonlinear_arith)
                        requires
                            k < n,
                    ;
                    assert(per_inst[i as int] <= 365 * k + 364);
                    assert(city.institutions@[i as int].annual_visits + 1 <= usize::MAX);
                }
                let mut inst = city.institutions.remove(i);
                let id = inst.id;
                inst.annual_visits = inst.annual_visits + 1;
                city.institutions.insert(i, inst);
                add_visit(&mut m.institution_shopping_visits, id);
                proof {
                    let np = per_inst.update(i as int, per_inst[i as int] + 1);
                    lemma_nat_sum_update(per_inst, i as int);
                    assert forall|q: int|
                        0 <= q < insts0.len() implies visited(insts0[q], city.institutions@[q], #[trigger] np[q]) by {
                        if q != i {
                            assert(city.institutions@[q] == cur[q]);
                        }
                    }
                    assert forall|q: int| 0 <= q < insts0.len() implies (#[trigger] city.institutions@[q]).id == insts0[q].id by {
                        assert(visited(insts0[q], city.institutions@[q], np[q]));
                    }
                    assert(visits_grown(m0.institution_shopping_visits@, m.institution_shopping_visits@)) by {
                        assert forall|t: int| 0 <= t < m0.institution_shopping_visits@.len() implies (#[trigger] m.institution_shopping_visits@[t]).0
                            == m0.institution_shopping_visits@[t].0 && m.institution_shopping_visits@[t].1
                            >= m0.institution_shopping_visits@[t].1 by {
                            assert(g0[t].0 == m0.institution_shopping_visits@[t].0);
                        }
                    }
                    per_inst = np;
                }
                v = v + 1;
                made = v;
            }
        }
        city.citizens.insert(k, m);
        proof {
            lemma_nat_sum_push(per_mind, made as nat);
            let nm = per_mind.push(made as nat);
            assert forall|j: int|
                0 <= j < k + 1 implies #[trigger] nm[j] <= 365 && shopped(pop0[j], city.citizens@[j], nm[j])
                    && (!pop0[j].alive || shops@.len() < 5 ==> nm[j] == 0) by {
                if j < k {
                    assert(nm[j] == per_mind[j]);
                }
            }
            per_mind = nm;
        }
        k = k + 1;
    }
    city
}

proof fn lemma_nat_sum_zero(s: Seq<nat>)
    requires
        forall|i: int| 0 <= i < s.len() ==> s[i] == 0,
    ensures
        nat_sum(s) == 0,
    decreases s.len(),
{
    if s.len() > 0 {
        lemma_nat_sum_zero(s.drop_last());
    }
}

proof fn lemma_owner_of_same_ids(a: Seq<Institution>, b: Seq<Institution>, owner: Option<Id>)
    requires
        a.len() == b.len(),
        forall|i: int| 0 <= i < a.len() ==> (#[trigger] b[i]).id == a[i].id,
    ensures
        owner_of(a, owner) == owner_of(b, owner),
    decreases a.len(),
{
    if a.len() > 0 {
        lemma_owner_of_same_ids(a.drop_last(), b.drop_last(), owner);
        assert(b[b.len() - 1].id == a[a.len() - 1].id);
    }
}

} // verus!
