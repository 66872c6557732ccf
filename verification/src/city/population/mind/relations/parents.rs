//! Parents: couples found for citizens, with a limit on children per parent.
use crate::city::population::mind::relations::friends::{only_relations, rels_of};
use crate::city::population::mind::relations::partners::{first_taken, is_taken_verb};
use crate::city::population::mind::relations::{lemma_lookup_same_ids, same_but_citizens, RelationVerb};
use crate::city::population::mind::{find_index, lemma_lookup, lookup, relations_replaced, Mind, Relation};
use crate::city::City;
use crate::random::{lemma_ratio_drawn, random_ratio, ratio_drawn, shuffle, Id};
use vstd::prelude::*;

verus! {

/// The age gap a parent has at least over its child.
pub const MIN_CHILD_BEARING_AGE: u32 = 20;

/// How many children a parent has before it is passed over.
pub const CHILD_LIMIT: usize = 5;

/// The number of times `id` occurs in `s`.
pub open spec fn occurrences(s: Seq<Id>, id: Id) -> nat
    decreases s.len(),
{
    if s.len() == 0 {
        0
    } else {
        occurrences(s.drop_last(), id) + if s.last() == id {
            1nat
        } else {
            0nat
        }
    }
}

/// The parents' ids of the entries, entry by entry, in order.
pub open spec fn all_parents(entries: Seq<(Id, Seq<Id>)>) -> Seq<Id>
    decreases entries.len(),
{
    if entries.len() == 0 {
        Seq::empty()
    } else {
        all_parents(entries.drop_last()) + entries.last().1
    }
}

/// The lockout list after the parents `ps` of one more entry, given the
/// parents `seen` of the entries before and the list `out` so far: each
/// parent in turn, once it has reached the child limit and is not yet
/// listed, brings in all of the entry's parents.
pub open spec fn lockout_step(seen: Seq<Id>, out: Seq<Id>, ps: Seq<Id>, n: int) -> Seq<Id>
    decreases n,
{
    if n <= 0 {
        out
    } else {
        let prev = lockout_step(seen, out, ps, n - 1);
        let id = ps[n - 1];
        if occurrences(seen + ps.take(n), id) >= CHILD_LIMIT && !prev.contains(id) {
            prev + ps
        } else {
            prev
        }
    }
}

/// The parents locked out by the entries: those listed once one of an
/// entry's parents has reached [`CHILD_LIMIT`] children (see
/// [`lockout_step`]).
pub open spec fn lockout(entries: Seq<(Id, Seq<Id>)>) -> Seq<Id>
    decreases entries.len(),
{
    if entries.len() == 0 {
        Seq::empty()
    } else {
        let prev = entries.drop_last();
        lockout_step(all_parents(prev), lockout(prev), entries.last().1, entries.last().1.len() as int)
    }
}

fn holds_id(ids: &Vec<Id>, id: Id) -> (b: bool)
    ensures
        b == ids@.contains(id),
{
    let mut i: usize = 0;
    while i < ids.len()
        invariant
            i <= ids.len(),
            forall|j: int| 0 <= j < i ==> ids@[j] != id,
        decreases ids.len() - i,
    {
        if ids[i] == id {
            return true;
        }
        i = i + 1;
    }
    false
}

fn count_id(ids: &Vec<Id>, id: Id) -> (n: usize)
    ensures
        n == occurrences(ids@, id),
{
    let mut n: usize = 0;
    let mut i: usize = 0;
    while i < ids.len()
        invariant
            i <= ids.len(),
            n == occurrences(ids@.take(i as int), id),
            n <= i,
        decreases ids.len() - i,
    {
        assert(ids@.take(i + 1).drop_last() =~= ids@.take(i as int));
        if ids[i] == id {
            n = n + 1;
        }
        i = i + 1;
    }
    assert(ids@.take(ids.len() as int) =~= ids@);
    n
}

/// The views of the entries.
pub open spec fn entry_views(v: Seq<(Id, Vec<Id>)>) -> Seq<(Id, Seq<Id>)> {
    v.map_values(|e: (Id, Vec<Id>)| (e.0, e.1@))
}

/// The parents to pass over (see [`lockout`]).
fn get_lockout_parents(input: &Vec<(Id, Vec<Id>)>) -> (r: Vec<Id>)
    ensures
        r@ == lockout(entry_views(input@)),
{
    let ghost ev = entry_views(input@);
    let mut output: Vec<Id> = Vec::new();
    let mut seen: Vec<Id> = Vec::new();
    let mut e: usize = 0;
    while e < input.len()
        invariant
            e <= input.len(),
            ev == entry_views(input@),
            output@ == lockout(ev.take(e as int)),
            seen@ == all_parents(ev.take(e as int)),
        decreases input.len() - e,
    {
        let parents = &input[e].1;
        let ghost seen0 = seen@;
        let ghost out0 = output@;
        assert(ev[e as int].1 == parents@);
        let mut p: usize = 0;
        while p < parents.len()
            invariant
                p <= parents.len(),
                e < input.len(),
                parents == &input@[e as int].1,
                seen@ == seen0 + parents@.take(p as int),
                output@ == lockout_step(seen0, out0, parents@, p as int),
            decreases parents.len() - p,
        {
            let id = parents[p];
            seen.push(id);
            assert(seen@ =~= seen0 + parents@.take(p + 1));
            let count = count_id(&seen, id);
            if count >= CHILD_LIMIT && !holds_id(&output, id) {
                let ghost before = output@;
                let mut q: usize = 0;
                while q < parents.len()
                    invariant
                        q <= parents.len(),
                        output@ == before + parents@.take(q as int),
                    decreases parents.len() - q,
                {
                    output.push(parents[q]);
                    q = q + 1;
                    assert(output@ =~= before + parents@.take(q as int));
                }
                assert(parents@.take(parents.len() as int) =~= parents@);
            }
            p = p + 1;
        }
        proof {
            assert(parents@.take(parents.len() as int) =~= parents@);
            let ne = ev.take(e + 1);
            assert(ne.drop_last() =~= ev.take(e as int));
            assert(ne.last() == ev[e as int]);
        }
        e = e + 1;
    }
    assert(ev.take(input.len() as int) =~= ev);
    output
}

} // verus!

verus! {

/// The first of the candidates `cands` (indices into `pop`) with id `id`.
pub open spec fn first_with_id(pop: Seq<Mind>, cands: Seq<usize>, id: Id) -> Option<usize>
    decreases cands.len(),
{
    if cands.len() == 0 {
        None
    } else {
        match first_with_id(pop, cands.drop_last(), id) {
            Some(q) => Some(q),
            None => if pop[cands.last() as int].id == id {
                Some(cands.last())
            } else {
                None
            },
        }
    }
}

/// Some couple of `out` holds `x` or `y`.
pub open spec fn out_touches(pop: Seq<Mind>, out: Seq<(usize, usize)>, x: Id, y: Id) -> bool {
    exists|i: int|
        0 <= i < out.len() && {
            let a = pop[(#[trigger] out[i]).0 as int].id;
            let b = pop[out[i].1 as int].id;
            a == x || a == y || b == x || b == y
        }
}

/// The couples among the candidates `cands`, each candidate in turn with its
/// first partner or spouse (see [`first_taken`]), when that partner is a
/// candidate too and neither is in a couple found before.
pub open spec fn couples(pop: Seq<Mind>, cands: Seq<usize>, n: int) -> Seq<(usize, usize)>
    decreases n,
{
    if n <= 0 {
        Seq::empty()
    } else {
        let out = couples(pop, cands, n - 1);
        let c = cands[n - 1];
        match first_taken(pop[c as int].relations@) {
            None => out,
            Some(rel) => match first_with_id(pop, cands, rel.1) {
                None => out,
                Some(q) => if out_touches(pop, out, pop[c as int].id, rel.1) {
                    out
                } else {
                    out.push((c, q))
                },
            },
        }
    }
}

/// The indices `0 .. n` of the citizens whose ids are not in `lock`.
pub open spec fn unlocked(pop: Seq<Mind>, lock: Seq<Id>, n: int) -> Seq<usize>
    decreases n,
{
    if n <= 0 {
        Seq::empty()
    } else {
        let rest = unlocked(pop, lock, n - 1);
        if lock.contains(pop[n - 1].id) {
            rest
        } else {
            rest.push((n - 1) as usize)
        }
    }
}

fn first_with_id_exec(pop: &Vec<Mind>, cands: &Vec<usize>, id: Id) -> (r: Option<usize>)
    requires
        forall|q: int| 0 <= q < cands.len() ==> #[trigger] cands@[q] < pop.len(),
    ensures
        r == first_with_id(pop@, cands@, id),
{
    let mut i: usize = 0;
    while i < cands.len()
        invariant
            i <= cands.len(),
            forall|q: int| 0 <= q < cands.len() ==> #[trigger] cands@[q] < pop.len(),
            first_with_id(pop@, cands@.take(i as int), id) is None,
        decreases cands.len() - i,
    {
        assert(cands@.take(i + 1).drop_last() =~= cands@.take(i as int));
        if pop[cands[i]].id == id {
            proof {
                lemma_first_with_id_prefix(pop@, cands@, i + 1, id);
            }
            return Some(cands[i]);
        }
        i = i + 1;
    }
    assert(cands@.take(cands.len() as int) =~= cands@);
    None
}

proof fn lemma_first_with_id_prefix(pop: Seq<Mind>, cands: Seq<usize>, n: int, id: Id)
    requires
        0 <= n <= cands.len(),
        first_with_id(pop, cands.take(n), id) is Some,
    ensures
        first_with_id(pop, cands, id) == first_with_id(pop, cands.take(n), id),
    decreases cands.len() - n,
{
    if n < cands.len() {
        assert(cands.take(n + 1).drop_last() =~= cands.take(n));
        lemma_first_with_id_prefix(pop, cands, n + 1, id);
    } else {
        assert(cands.take(n) =~= cands);
    }
}

proof fn lemma_first_with_id_in(pop: Seq<Mind>, cands: Seq<usize>, id: Id)
    ensures
        first_with_id(pop, cands, id) matches Some(q) ==> cands.contains(q) && pop[q as int].id == id,
    decreases cands.len(),
{
    if cands.len() > 0 {
        lemma_first_with_id_in(pop, cands.drop_last(), id);
        if first_with_id(pop, cands.drop_last(), id) is Some {
            let q = first_with_id(pop, cands.drop_last(), id).unwrap();
            let i = choose|i: int| 0 <= i < cands.drop_last().len() && cands.drop_last()[i] == q;
            assert(cands[i] == q);
        } else if pop[cands.last() as int].id == id {
            assert(cands[cands.len() - 1] == cands.last());
        }
    }
}

/// The couples among the candidates (see [`couples`]); a candidate whose
/// partner is not among the candidates is passed over.
fn find_couples(pop: &Vec<Mind>, cands: &Vec<usize>) -> (r: Vec<(usize, usize)>)
    requires
        forall|q: int| 0 <= q < cands.len() ==> #[trigger] cands@[q] < pop.len(),
    ensures
        r@ == couples(pop@, cands@, cands.len() as int),
{
    let mut output: Vec<(usize, usize)> = Vec::new();
    let mut i: usize = 0;
    while i < cands.len()
        invariant
            i <= cands.len(),
            forall|q: int| 0 <= q < cands.len() ==> #[trigger] cands@[q] < pop.len(),
            output@ == couples(pop@, cands@, i as int),
            forall|q: int|
                0 <= q < output.len() ==> (#[trigger] output@[q]).0 < pop.len() && output@[q].1
                    < pop.len(),
        decreases cands.len() - i,
    {
        let c = cands[i];
        let mind = &pop[c];
        match crate::city::population::mind::relations::partners::first_taken_exec(&mind.relations) {
            None => {},
            Some(rel) => {
                let partner_id = rel.1;
                match first_with_id_exec(pop, cands, partner_id) {
                    None => {},
                    Some(q) => {
                        proof {
                            lemma_first_with_id_in(pop@, cands@, partner_id);
                        }
                        let mut touched = false;
                        let mut o: usize = 0;
                        while o < output.len()
                            invariant
                                o <= output.len(),
                                forall|p: int|
                                    0 <= p < output.len() ==> (#[trigger] output@[p]).0 < pop.len()
                                        && output@[p].1 < pop.len(),
                                touched == (exists|p: int|
                                    0 <= p < o && {
                                        let a = pop@[(#[trigger] output@[p]).0 as int].id;
                                        let b = pop@[output@[p].1 as int].id;
                                        a == mind.id || a == partner_id || b == mind.id || b
                                            == partner_id
                                    }),
                            decreases output.len() - o,
                        {
                            let a = pop[output[o].0].id;
                            let b = pop[output[o].1].id;
                            if a == mind.id || a == partner_id || b == mind.id || b == partner_id {
                                touched = true;
                            }
                            o = o + 1;
                        }
                        if !touched {
                            output.push((c, q));
                        }
                    },
                }
            },
        }
        i = i + 1;
    }
    output
}

} // verus!

verus! {

/// Someone aged `x` is old enough to parent someone aged `age`: at least
/// [`MIN_CHILD_BEARING_AGE`] years older (and below the largest age).
pub open spec fn parent_age_fits(age: u32, x: u32) -> bool {
    age + MIN_CHILD_BEARING_AGE <= x < u32::MAX
}

/// `ps` are the ids of a couple (see [`couples`]) among the citizens whose
/// ids are not in `lock`, one of whom is old enough to parent someone aged
/// `age`.
pub open spec fn parents_ok(pop: Seq<Mind>, lock: Seq<Id>, age: u32, ps: Seq<Id>) -> bool {
    let cs = couples(pop, unlocked(pop, lock, pop.len() as int), unlocked(pop, lock, pop.len() as int).len() as int);
    exists|i: int|
        0 <= i < cs.len() && ps == seq![pop[(#[trigger] cs[i]).0 as int].id, pop[cs[i].1 as int].id]
            && (parent_age_fits(age, pop[cs[i].0 as int].age) || parent_age_fits(
            age,
            pop[cs[i].1 as int].age,
        ))
}

fn unlocked_exec(pop: &Vec<Mind>, lockout_ids: &Vec<Id>) -> (r: Vec<usize>)
    ensures
        r@ == unlocked(pop@, lockout_ids@, pop.len() as int),
        forall|q: int| 0 <= q < r.len() ==> #[trigger] r@[q] < pop.len(),
{
    let mut r: Vec<usize> = Vec::new();
    let mut j: usize = 0;
    while j < pop.len()
        invariant
            j <= pop.len(),
            r@ == unlocked(pop@, lockout_ids@, j as int),
            forall|q: int| 0 <= q < r.len() ==> #[trigger] r@[q] < j,
        decreases pop.len() - j,
    {
        if !holds_id(lockout_ids, pop[j].id) {
            r.push(j);
        }
        j = j + 1;
    }
    r
}

/// Some couple among the citizens whose ids are not in `lock` has a member
/// old enough to parent someone aged `age` (see [`parents_ok`]).
#[verifier::opaque]
pub open spec fn parents_available(pop: Seq<Mind>, lock: Seq<Id>, age: u32) -> bool {
    let cs = couples(pop, unlocked(pop, lock, pop.len() as int), unlocked(pop, lock, pop.len() as int).len() as int);
    exists|i: int|
        0 <= i < cs.len() && (parent_age_fits(age, pop[(#[trigger] cs[i]).0 as int].age) || parent_age_fits(
            age,
            pop[cs[i].1 as int].age,
        ))
}

/// Parents for `mind`: with chance 3 in 10, none; otherwise a couple with
/// a member old enough (see [`pick_parents`]). Whatever the draws, parents
/// found are such a couple, and none are found when there is none.
fn find_parent_ids(mind: &Mind, population: &Vec<Mind>, lockout_ids: &Vec<Id>) -> (r: Option<Vec<Id>>)
    requires
        mind.age + MIN_CHILD_BEARING_AGE <= u32::MAX,
    ensures
        r matches Some(ps) ==> parents_ok(population@, lockout_ids@, mind.age, ps@),
        !parents_available(population@, lockout_ids@, mind.age) ==> r is None,
        parents_available(population@, lockout_ids@, mind.age) ==> ratio_drawn(3, 10, r is None),
{
    let absent = random_ratio(3, 10);
    proof {
        lemma_ratio_drawn(3, 10, absent);
    }
    pick_parents(mind, population, lockout_ids, absent)
}

/// Parents for `mind` once it is drawn whether it has none (`absent`):
/// none when absent; otherwise the couples among the citizens not locked
/// out (see [`couples`]) are shuffled, and the first with a member old
/// enough (see [`parent_age_fits`]) is taken, so some are found exactly
/// when such a couple exists.
fn pick_parents(mind: &Mind, population: &Vec<Mind>, lockout_ids: &Vec<Id>, absent: bool) -> (r: Option<
    Vec<Id>,
>)
    requires
        mind.age + MIN_CHILD_BEARING_AGE <= u32::MAX,
    ensures
        r matches Some(ps) ==> parents_ok(population@, lockout_ids@, mind.age, ps@),
        absent ==> r is None,
        !absent ==> (r is Some <==> parents_available(population@, lockout_ids@, mind.age)),
{
    if absent {
        return None;
    }
    let cands = unlocked_exec(population, lockout_ids);
    let mut potential = find_couples(population, &cands);
    let ghost cs = potential@;
    proof {
        assert forall|q: int| 0 <= q < potential.len() implies (#[trigger] potential@[q]).0
            < population.len() && potential@[q].1 < population.len() by {
            lemma_couples_in_range(population@, cands@, cands.len() as int, q);
        }
    }
    shuffle(&mut potential);
    let low = mind.age + MIN_CHILD_BEARING_AGE;
    let mut i: usize = 0;
    while i < potential.len()
        invariant
            i <= potential.len(),
            potential@.to_multiset() == cs.to_multiset(),
            cs == couples(population@, cands@, cands.len() as int),
            cands@ == unlocked(population@, lockout_ids@, population.len() as int),
            low == mind.age + MIN_CHILD_BEARING_AGE,
            forall|q: int|
                0 <= q < cs.len() ==> (#[trigger] cs[q]).0 < population.len() && cs[q].1
                    < population.len(),
            !absent,
            forall|q: int|
                0 <= q < i ==> !(parent_age_fits(mind.age, population@[(#[trigger] potential@[q]).0 as int].age)
                    || parent_age_fits(mind.age, population@[potential@[q].1 as int].age)),
        decreases potential.len() - i,
    {
        let (a, b) = potential[i];
        proof {
            broadcast use vstd::seq_lib::group_to_multiset_ensures;

            assert(potential@.to_multiset().count(potential@[i as int]) > 0);
            assert(cs.contains(potential@[i as int]));
        }
        let ma = &population[a];
        let mb = &population[b];
        if (low <= ma.age && ma.age < u32::MAX) || (low <= mb.age && mb.age < u32::MAX) {
            let ps = vec![ma.id, mb.id];
            proof {
                let w = choose|w: int| 0 <= w < cs.len() && cs[w] == potential@[i as int];
                assert(ps@ =~= seq![population@[cs[w].0 as int].id, population@[cs[w].1 as int].id]);
                assert(parent_age_fits(mind.age, population@[cs[w].0 as int].age) || parent_age_fits(
                    mind.age,
                    population@[cs[w].1 as int].age,
                ));
                assert(parents_available(population@, lockout_ids@, mind.age)) by {
                    reveal(parents_available);
                }
            }
            return Some(ps);
        }
        i = i + 1;
    }
    proof {
        broadcast use vstd::seq_lib::group_to_multiset_ensures;

        assert forall|w: int| 0 <= w < cs.len() implies !(parent_age_fits(
            mind.age,
            population@[(#[trigger] cs[w]).0 as int].age,
        ) || parent_age_fits(mind.age, population@[cs[w].1 as int].age)) by {
            assert(cs.to_multiset().count(cs[w]) > 0);
            assert(potential@.contains(cs[w]));
            let q = choose|q: int| 0 <= q < potential@.len() && potential@[q] == cs[w];
            assert(potential@[q] == cs[w]);
        }
        assert(!parents_available(population@, lockout_ids@, mind.age)) by {
            reveal(parents_available);
        }
    }
    None
}

proof fn lemma_couples_in_range(pop: Seq<Mind>, cands: Seq<usize>, n: int, q: int)
    requires
        forall|p: int| 0 <= p < cands.len() ==> #[trigger] cands[p] < pop.len(),
        n <= cands.len(),
        0 <= q < couples(pop, cands, n).len(),
    ensures
        couples(pop, cands, n)[q].0 < pop.len(),
        couples(pop, cands, n)[q].1 < pop.len(),
    decreases n,
{
    if n > 0 {
        let out = couples(pop, cands, n - 1);
        if q < out.len() {
            lemma_couples_in_range(pop, cands, n - 1, q);
        } else {
            let c = cands[n - 1];
            let rel = first_taken(pop[c as int].relations@).unwrap();
            lemma_first_with_id_in(pop, cands, rel.1);
            let qq = first_with_id(pop, cands, rel.1).unwrap();
            let i = choose|i: int| 0 <= i < cands.len() && cands[i] == qq;
        }
    }
}

} // verus!

verus! {

/// The parent links of citizen `t` to the citizens at `t + 1 .. j` whose ids
/// are in `ps`: `t` gains a parent relation to each, and each a child
/// relation to `t`.
pub open spec fn parent_links(
    rels: Seq<Seq<Relation>>,
    pop: Seq<Mind>,
    t: int,
    ps: Seq<Id>,
    j: int,
) -> Seq<Seq<Relation>>
    decreases j - t,
{
    if j <= t + 1 {
        rels
    } else {
        let prev = parent_links(rels, pop, t, ps, j - 1);
        let q = j - 1;
        if ps.contains(pop[q].id) {
            let r1 = prev.update(t, prev[t].push((RelationVerb::Parent, pop[q].id)));
            r1.update(q, r1[q].push((RelationVerb::Child, pop[t].id)))
        } else {
            prev
        }
    }
}

/// The entries applied in order: the first citizen with each entry's id is
/// linked to its parents among the citizens after it (see
/// [`parent_links`]).
pub open spec fn apply_parents(
    rels: Seq<Seq<Relation>>,
    pop: Seq<Mind>,
    entries: Seq<(Id, Seq<Id>)>,
) -> Seq<Seq<Relation>>
    decreases entries.len(),
{
    if entries.len() == 0 {
        rels
    } else {
        let prev = apply_parents(rels, pop, entries.drop_last());
        match lookup(pop, entries.last().0) {
            Some(t) => parent_links(prev, pop, t, entries.last().1, pop.len() as int),
            None => prev,
        }
    }
}

/// Each entry gives a citizen's id and parents chosen for it (see
/// [`parents_ok`]), with the citizens locked out by the entries before it
/// (see [`lockout`]) passed over.
pub open spec fn entries_ok(pop: Seq<Mind>, entries: Seq<(Id, Seq<Id>)>) -> bool {
    forall|n: int|
        #![trigger entries[n]]
        0 <= n < entries.len() ==> exists|k: int|
            0 <= k < pop.len() && pop[k].id == entries[n].0 && parents_ok(
                pop,
                lockout(entries.take(n)),
                pop[k].age,
                entries[n].1,
            )
}

fn add_relation_to(pop: &mut Vec<Mind>, j: usize, rel: Relation)
    requires
        j < old(pop).len(),
    ensures
        final(pop).len() == old(pop).len(),
        relations_replaced(old(pop)@[j as int], final(pop)@[j as int], old(pop)@[j as int].relations@.push(rel)),
        forall|q: int| 0 <= q < old(pop).len() && q != j ==> final(pop)@[q] == old(pop)@[q],
{
    let mut m = pop.remove(j);
    m.relations.push(rel);
    pop.insert(j, m);
}

/// Links citizen `t` to its parents `ps` among the citizens after it.
fn link_after(pop: &mut Vec<Mind>, t: usize, ps: &Vec<Id>, Ghost(pop0): Ghost<Seq<Mind>>)
    requires
        t < old(pop).len(),
        only_relations(pop0, old(pop)@),
    ensures
        only_relations(pop0, final(pop)@),
        rels_of(final(pop)@) == parent_links(
            rels_of(old(pop)@),
            pop0,
            t as int,
            ps@,
            old(pop).len() as int,
        ),
{
    let ghost rels0 = rels_of(pop@);
    let n = pop.len();
    let target_id = pop[t].id;
    assert(pop@[t as int].id == pop0[t as int].id);
    let mut j: usize = t + 1;
    while j < n
        invariant
            t < j <= n == pop.len(),
            target_id == pop0[t as int].id,
            only_relations(pop0, pop@),
            rels_of(pop@) == parent_links(rels0, pop0, t as int, ps@, j as int),
        decreases n - j,
    {
        let ghost cur = pop@;
        assert(cur[j as int].id == pop0[j as int].id);
        let pid = pop[j].id;
        if holds_id(ps, pid) {
            add_relation_to(pop, t, (RelationVerb::Parent, pid));
            let ghost mid = pop@;
            add_relation_to(pop, j, (RelationVerb::Child, target_id));
            proof {
                let fin = pop@;
                let prev = rels_of(cur);
                let r1 = prev.update(t as int, prev[t as int].push((RelationVerb::Parent, pop0[j as int].id)));
                assert(rels_of(mid) =~= r1);
                assert(rels_of(fin) =~= r1.update(
                    j as int,
                    r1[j as int].push((RelationVerb::Child, pop0[t as int].id)),
                ));
                assert forall|q: int| 0 <= q < pop0.len() implies relations_replaced(
                    pop0[q],
                    #[trigger] fin[q],
                    fin[q].relations@,
                ) by {
                    assert(relations_replaced(pop0[q], cur[q], cur[q].relations@));
                }
            }
        }
        j = j + 1;
    }
}

fn apply_parent_entry(pop: &mut Vec<Mind>, entry: &(Id, Vec<Id>), Ghost(pop0): Ghost<Seq<Mind>>)
    requires
        only_relations(pop0, old(pop)@),
    ensures
        only_relations(pop0, final(pop)@),
        rels_of(final(pop)@) == match lookup(pop0, entry.0) {
            Some(t) => parent_links(rels_of(old(pop)@), pop0, t, entry.1@, pop0.len() as int),
            None => rels_of(old(pop)@),
        },
{
    proof {
        lemma_lookup_same_ids(pop0, pop@, entry.0);
        lemma_lookup(pop@, entry.0);
    }
    match find_index(pop, entry.0) {
        Some(t) => {
            link_after(pop, t, &entry.1, Ghost(pop0));
        },
        None => {},
    }
}

/// The first pass of [`link_parents`]: each citizen in turn may be given
/// parents (see [`find_parent_ids`]).
fn choose_parents(population: &Vec<Mind>) -> (entries: Vec<(Id, Vec<Id>)>)
    requires
        forall|j: int|
            0 <= j < population.len() ==> (#[trigger] population@[j]).age + MIN_CHILD_BEARING_AGE
                <= u32::MAX,
    ensures
        entries_ok(population@, entry_views(entries@)),
{
    let ghost pop0 = population@;
    let mut relations_to_add: Vec<(Id, Vec<Id>)> = Vec::new();
    let n = population.len();
    let mut k: usize = 0;
    while k < n
        invariant
            k <= n == population.len(),
            population@ == pop0,
            forall|j: int| 0 <= j < n ==> (#[trigger] pop0[j]).age + MIN_CHILD_BEARING_AGE <= u32::MAX,
            entries_ok(pop0, entry_views(relations_to_add@)),
        decreases n - k,
    {
        let mind = &population[k];
        let lockout_ids = get_lockout_parents(&relations_to_add);
        let possible = find_parent_ids(mind, population, &lockout_ids);
        match possible {
            Some(parents) => {
                let ghost ev0 = entry_views(relations_to_add@);
                let ghost ps = parents@;
                relations_to_add.push((mind.id, parents));
                proof {
                    let ev = entry_views(relations_to_add@);
                    assert(ev =~= ev0.push((pop0[k as int].id, ps)));
                    assert forall|m: int| #![trigger ev[m]] 0 <= m < ev.len() implies exists|q: int|
                        0 <= q < pop0.len() && pop0[q].id == ev[m].0 && parents_ok(
                            pop0,
                            lockout(ev.take(m)),
                            pop0[q].age,
                            ev[m].1,
                        ) by {
                        if m < ev0.len() {
                            assert(ev.take(m) =~= ev0.take(m));
                            assert(ev[m] == ev0[m]);
                        } else {
                            assert(ev.take(m) =~= ev0);
                            assert(pop0[k as int] == *mind);
                        }
                    }
                }
            },
            None => {},
        }
        k = k + 1;
    }
    relations_to_add
}

/// Finds parents: each citizen in turn may be given a couple as parents
/// (see [`find_parent_ids`]), passing over those who have reached the child
/// limit (see [`lockout`]); then each citizen given parents gains a parent
/// relation to each of them found after it in the population, and each
/// such parent a child relation to it (see [`apply_parents`]). Only
/// relations change.
#[verifier::rlimit(60)]
#[verifier::spinoff_prover]
pub fn link_parents<'a>(city: &'a mut City) -> (r: &'a mut City)
    requires
        forall|j: int|
            0 <= j < old(city).citizens.len() ==> (#[trigger] old(city).citizens@[j]).age
                + MIN_CHILD_BEARING_AGE <= u32::MAX,
    ensures
        same_but_citizens(*old(city), *r),
        only_relations(old(city).citizens@, r.citizens@),
        exists|entries: Seq<(Id, Seq<Id>)>|
            #![trigger apply_parents(rels_of(old(city).citizens@), old(city).citizens@, entries)]
            entries_ok(old(city).citizens@, entries) && rels_of(r.citizens@) == apply_parents(
                rels_of(old(city).citizens@),
                old(city).citizens@,
                entries,
            ),
        *final(city) == *final(r),
{
    let ghost pop0 = city.citizens@;
    let relations_to_add = choose_parents(&city.citizens);
    let ghost entries = entry_views(relations_to_add@);
    proof {
        assert forall|q: int| 0 <= q < pop0.len() implies relations_replaced(
            pop0[q],
            #[trigger] pop0[q],
            pop0[q].relations@,
        ) by {}
    }
    let mut e: usize = 0;
    while e < relations_to_add.len()
        invariant
            e <= relations_to_add.len(),
            entries == entry_views(relations_to_add@),
            pop0 == old(city).citizens@,
            same_but_citizens(*old(city), *city),
            only_relations(pop0, city.citizens@),
            rels_of(city.citizens@) == apply_parents(rels_of(pop0), pop0, entries.take(e as int)),
        decreases relations_to_add.len() - e,
    {
        proof {
            let ne = entries.take(e + 1);
            assert(ne.drop_last() =~= entries.take(e as int));
            assert(ne.last() == entries[e as int]);
        }
        apply_parent_entry(&mut city.citizens, &relations_to_add[e], Ghost(pop0));
        e = e + 1;
    }
    proof {
        assert(entries.take(relations_to_add.len() as int) =~= entries);
        assert(entries_ok(pop0, entries));
        assert(rels_of(city.citizens@) == apply_parents(rels_of(pop0), pop0, entries));
    }
    city
}

} // verus!
