//! Family, work and social ties between citizens.
pub mod friends;
pub mod parental_naming_formats;
pub mod parents;
pub mod partners;
pub mod residences;

use crate::city::population::mind::{
    add_relation_and_log, find_index, has_id, lemma_lookup, lookup, relations_replaced,
    set_relations, Gender, Mind, Relation,
};
use crate::city::City;
use crate::random::{lemma_ratio_drawn, random_ratio, ratio_drawn, Id};
use crate::text::{decimal, decimal_chars, push_all, push_str, str_views, string_of};
use vstd::prelude::*;

verus! {

/// How one person stands to another.
#[derive(PartialEq, Eq, Structural, Debug, Clone, Copy)]
pub enum RelationVerb {
    Parent,
    Child,
    Partner,
    ExPartner,
    LatePartner,
    Spouse,
    ExSpouse,
    LateSpouse,
    Sibling,
    Grandparent,
    Grandchild,
    Cousin,
    Pibling,
    Nibling,
    Employer,
    Employee,
    Colleague,
    Acquaintance,
    Friend,
    CloseFriend,
    Grudge,
    Diety,
    Priest,
}

impl RelationVerb {
    /// The name of the value, as data files and templates spell it.
    pub open spec fn label(self) -> Seq<char> {
        match self {
            RelationVerb::Parent => "Parent"@,
            RelationVerb::Child => "Child"@,
            RelationVerb::Partner => "Partner"@,
            RelationVerb::ExPartner => "ExPartner"@,
            RelationVerb::LatePartner => "LatePartner"@,
            RelationVerb::Spouse => "Spouse"@,
            RelationVerb::ExSpouse => "ExSpouse"@,
            RelationVerb::LateSpouse => "LateSpouse"@,
            RelationVerb::Sibling => "Sibling"@,
            RelationVerb::Grandparent => "Grandparent"@,
            RelationVerb::Grandchild => "Grandchild"@,
            RelationVerb::Cousin => "Cousin"@,
            RelationVerb::Pibling => "Pibling"@,
            RelationVerb::Nibling => "Nibling"@,
            RelationVerb::Employer => "Employer"@,
            RelationVerb::Employee => "Employee"@,
            RelationVerb::Colleague => "Colleague"@,
            RelationVerb::Acquaintance => "Acquaintance"@,
            RelationVerb::Friend => "Friend"@,
            RelationVerb::CloseFriend => "CloseFriend"@,
            RelationVerb::Grudge => "Grudge"@,
            RelationVerb::Diety => "Diety"@,
            RelationVerb::Priest => "Priest"@,
        }
    }

    /// The name of the value, as data files and templates spell it.
    pub fn to_string(&self) -> (s: String)
        ensures
            s@ == self.label(),
    {
        match self {
            RelationVerb::Parent => String::from_str("Parent"),
            RelationVerb::Child => String::from_str("Child"),
            RelationVerb::Partner => String::from_str("Partner"),
            RelationVerb::ExPartner => String::from_str("ExPartner"),
            RelationVerb::LatePartner => String::from_str("LatePartner"),
            RelationVerb::Spouse => String::from_str("Spouse"),
            RelationVerb::ExSpouse => String::from_str("ExSpouse"),
            RelationVerb::LateSpouse => String::from_str("LateSpouse"),
            RelationVerb::Sibling => String::from_str("Sibling"),
            RelationVerb::Grandparent => String::from_str("Grandparent"),
            RelationVerb::Grandchild => String::from_str("Grandchild"),
            RelationVerb::Cousin => String::from_str("Cousin"),
            RelationVerb::Pibling => String::from_str("Pibling"),
            RelationVerb::Nibling => String::from_str("Nibling"),
            RelationVerb::Employer => String::from_str("Employer"),
            RelationVerb::Employee => String::from_str("Employee"),
            RelationVerb::Colleague => String::from_str("Colleague"),
            RelationVerb::Acquaintance => String::from_str("Acquaintance"),
            RelationVerb::Friend => String::from_str("Friend"),
            RelationVerb::CloseFriend => String::from_str("CloseFriend"),
            RelationVerb::Grudge => String::from_str("Grudge"),
            RelationVerb::Diety => String::from_str("Diety"),
            RelationVerb::Priest => String::from_str("Priest"),
        }
    }

    /// Every value, in declaration order.
    pub open spec fn all() -> Seq<RelationVerb> {
        seq![RelationVerb::Parent, RelationVerb::Child, RelationVerb::Partner, RelationVerb::ExPartner, RelationVerb::LatePartner, RelationVerb::Spouse, RelationVerb::ExSpouse, RelationVerb::LateSpouse, RelationVerb::Sibling, RelationVerb::Grandparent, RelationVerb::Grandchild, RelationVerb::Cousin, RelationVerb::Pibling, RelationVerb::Nibling, RelationVerb::Employer, RelationVerb::Employee, RelationVerb::Colleague, RelationVerb::Acquaintance, RelationVerb::Friend, RelationVerb::CloseFriend, RelationVerb::Grudge, RelationVerb::Diety, RelationVerb::Priest]
    }

    /// The names of all values, in declaration order.
    pub open spec fn labels() -> Seq<Seq<char>> {
        Self::all().map_values(|t: RelationVerb| t.label())
    }

    /// Every value, in declaration order.
    pub fn iter() -> (v: Vec<RelationVerb>)
        ensures
            v@ == Self::all(),
    {
        let v = vec![RelationVerb::Parent, RelationVerb::Child, RelationVerb::Partner, RelationVerb::ExPartner, RelationVerb::LatePartner, RelationVerb::Spouse, RelationVerb::ExSpouse, RelationVerb::LateSpouse, RelationVerb::Sibling, RelationVerb::Grandparent, RelationVerb::Grandchild, RelationVerb::Cousin, RelationVerb::Pibling, RelationVerb::Nibling, RelationVerb::Employer, RelationVerb::Employee, RelationVerb::Colleague, RelationVerb::Acquaintance, RelationVerb::Friend, RelationVerb::CloseFriend, RelationVerb::Grudge, RelationVerb::Diety, RelationVerb::Priest];
        assert(v@ =~= Self::all());
        v
    }
}


/// The age from which a citizen counts as an adult.
pub const ADULT_AGE_FROM: u32 = 18;

/// The relation seen from the other side, for the relations that have one:
/// parent and child, grandparent and grandchild, pibling and nibling swap,
/// and siblings stay siblings.
pub open spec fn inverse_of(verb: RelationVerb) -> Option<RelationVerb> {
    match verb {
        RelationVerb::Parent => Some(RelationVerb::Child),
        RelationVerb::Child => Some(RelationVerb::Parent),
        RelationVerb::Sibling => Some(RelationVerb::Sibling),
        RelationVerb::Nibling => Some(RelationVerb::Pibling),
        RelationVerb::Pibling => Some(RelationVerb::Nibling),
        RelationVerb::Grandparent => Some(RelationVerb::Grandchild),
        RelationVerb::Grandchild => Some(RelationVerb::Grandparent),
        _ => None,
    }
}

/// The relation seen from the other side (see [`inverse_of`]).
pub fn invert_relation(verb: &RelationVerb) -> (r: Option<RelationVerb>)
    ensures
        r == inverse_of(*verb),
{
    match verb {
        RelationVerb::Parent => Some(RelationVerb::Child),
        RelationVerb::Child => Some(RelationVerb::Parent),
        RelationVerb::Sibling => Some(RelationVerb::Sibling),
        RelationVerb::Nibling => Some(RelationVerb::Pibling),
        RelationVerb::Pibling => Some(RelationVerb::Nibling),
        RelationVerb::Grandparent => Some(RelationVerb::Grandchild),
        RelationVerb::Grandchild => Some(RelationVerb::Grandparent),
        _ => None,
    }
}

/// Inverting a relation twice gives it back.
pub proof fn lemma_invert_relation_involutive(verb: RelationVerb)
    ensures
        inverse_of(verb) matches Some(v) ==> inverse_of(v) == Some(verb),
{
}

/// The other gender: a man's is a woman's and a woman's a man's; for an
/// ambiguous gender either, at random.
pub fn invert_gender(gender: &Gender) -> (r: Gender)
    ensures
        *gender == Gender::Male ==> r == Gender::Female,
        *gender == Gender::Female ==> r == Gender::Male,
        r != Gender::Ambiguous,
        *gender == Gender::Ambiguous ==> ratio_drawn(1, 2, r == Gender::Male),
{
    if *gender == Gender::Male {
        return Gender::Female;
    }
    if *gender == Gender::Female {
        Gender::Male
    } else {
        let male = random_ratio(1, 2);
        proof {
            lemma_ratio_drawn(1, 2, male);
        }
        if male {
            Gender::Male
        } else {
            Gender::Female
        }
    }
}

/// Among `rels`, in order, the first relation of kind `verb` whose person
/// is in the population, alive and (when `minor`) under adult age: that
/// person's index in the population.
pub open spec fn first_live_relation(
    rels: Seq<Relation>,
    verb: RelationVerb,
    pop: Seq<Mind>,
    minor: bool,
) -> Option<int>
    decreases rels.len(),
{
    if rels.len() == 0 {
        None
    } else {
        let found = if rels[0].0 == verb {
            match lookup(pop, rels[0].1) {
                Some(k) => if pop[k].alive && (!minor || pop[k].age < ADULT_AGE_FROM) {
                    Some(k)
                } else {
                    None
                },
                None => None,
            }
        } else {
            None
        };
        match found {
            Some(k) => Some(k),
            None => first_live_relation(rels.drop_first(), verb, pop, minor),
        }
    }
}

/// The index of the person [`first_live_relation`] finds.
pub(crate) fn find_relation_index(
    mind: &Mind,
    relation: RelationVerb,
    population: &Vec<Mind>,
    minor: bool,
) -> (r: Option<usize>)
    ensures
        match first_live_relation(mind.relations@, relation, population@, minor) {
            Some(k) => r == Some(k as usize) && 0 <= k < population.len(),
            None => r is None,
        },
{
    let mut i: usize = 0;
    let rels = &mind.relations;
    assert(rels@.subrange(0, rels@.len() as int) =~= rels@);
    while i < rels.len()
        invariant
            i <= rels.len(),
            rels@ == mind.relations@,
            first_live_relation(rels@, relation, population@, minor) == first_live_relation(
                rels@.subrange(i as int, rels@.len() as int),
                relation,
                population@,
                minor,
            ),
        decreases rels.len() - i,
    {
        assert(rels@.subrange(i as int, rels@.len() as int).drop_first() =~= rels@.subrange(
            i + 1,
            rels@.len() as int,
        ));
        assert(rels@.subrange(i as int, rels@.len() as int)[0] == rels@[i as int]);
        let (verb, id) = rels[i];
        if verb == relation {
            match find_index(population, id) {
                Some(k) => {
                    proof {
                        lemma_lookup(population@, id);
                    }
                    if population[k].alive && (!minor || population[k].age < ADULT_AGE_FROM) {
                        assert(lookup(population@, id) == Some(k as int));
                        assert(first_live_relation(
                            rels@.subrange(i as int, rels@.len() as int),
                            relation,
                            population@,
                            minor,
                        ) == Some(k as int));
                        return Some(k);
                    }
                },
                None => {},
            }
        }
        i = i + 1;
    }
    None
}

fn find_relation_impl<'a>(
    mind: &Mind,
    relation: RelationVerb,
    population: &'a Vec<Mind>,
    minor: bool,
) -> (r: Option<&'a Mind>)
    ensures
        match first_live_relation(mind.relations@, relation, population@, minor) {
            Some(k) => r == Some(&population@[k]),
            None => r is None,
        },
{
    match find_relation_index(mind, relation, population, minor) {
        Some(k) => Some(&population[k]),
        None => None,
    }
}

/// The first person, among `mind`'s relations of kind `relation` in order,
/// who is in the population and alive (see [`first_live_relation`]).
pub fn find_relation<'a>(mind: &Mind, relation: RelationVerb, population: &'a Vec<Mind>) -> (r:
    Option<&'a Mind>)
    ensures
        match first_live_relation(mind.relations@, relation, population@, false) {
            Some(k) => r == Some(&population@[k]),
            None => r is None,
        },
{
    find_relation_impl(mind, relation, population, false)
}

/// The first person, among `mind`'s relations of kind `relation` in order,
/// who is in the population, alive and under adult age (see
/// [`first_live_relation`]).
pub fn find_relation_minor<'a>(mind: &Mind, relation: RelationVerb, population: &'a Vec<Mind>) -> (r:
    Option<&'a Mind>)
    ensures
        match first_live_relation(mind.relations@, relation, population@, true) {
            Some(k) => r == Some(&population@[k]),
            None => r is None,
        },
{
    find_relation_impl(mind, relation, population, true)
}

/// A relation other than colleague.
pub open spec fn not_colleague(r: Relation) -> bool {
    r.0 != RelationVerb::Colleague
}

/// The colleague relations to the citizens of `pop`, in order, other than
/// the one with id `id`, who work for `employer`.
pub open spec fn colleague_relations(pop: Seq<Mind>, id: Id, employer: Option<Id>) -> Seq<Relation>
    decreases pop.len(),
{
    if pop.len() == 0 {
        Seq::empty()
    } else {
        let rest = colleague_relations(pop.drop_last(), id, employer);
        let c = pop.last();
        if c.id != id && c.employer is Some && c.employer == employer {
            rest.push((RelationVerb::Colleague, c.id))
        } else {
            rest
        }
    }
}

/// Citizen `k`'s relations once colleagues are linked: its relations other
/// than colleagues, in order, then, when it is employed, a colleague
/// relation to each other citizen, in order, with the same employer.
pub open spec fn colleagues_linked(pop: Seq<Mind>, k: int) -> Seq<Relation> {
    let base = pop[k].relations@.filter(|r: Relation| not_colleague(r));
    if pop[k].employer is Some {
        base + colleague_relations(pop, pop[k].id, pop[k].employer)
    } else {
        base
    }
}

/// Only the citizens changed from `old` to `new`: the other fields of the
/// city are as before.
pub open spec fn same_but_citizens(old: City, new: City) -> bool {
    &&& new.name == old.name
    &&& new.institutions == old.institutions
    &&& new.areas == old.areas
    &&& new.buildings == old.buildings
    &&& new.culture == old.culture
    &&& new.year == old.year
}

/// Each citizen `j` of `new` is citizen `j` of `old` with its relations
/// replaced by `f(j)`.
pub open spec fn relations_mapped(
    old: Seq<Mind>,
    new: Seq<Mind>,
    f: spec_fn(int) -> Seq<Relation>,
) -> bool {
    &&& new.len() == old.len()
    &&& forall|j: int| 0 <= j < old.len() ==> relations_replaced(old[j], #[trigger] new[j], f(j))
}

fn colleagues_of(pop: &Vec<Mind>, k: usize) -> (r: Vec<Relation>)
    requires
        k < pop.len(),
    ensures
        r@ == colleagues_linked(pop@, k as int),
{
    let mind = &pop[k];
    let ghost keep = |r: Relation| not_colleague(r);
    let mut out: Vec<Relation> = Vec::new();
    let mut i: usize = 0;
    while i < mind.relations.len()
        invariant
            i <= mind.relations.len(),
            keep == (|r: Relation| not_colleague(r)),
            out@ == mind.relations@.take(i as int).filter(keep),
        decreases mind.relations.len() - i,
    {
        assert(mind.relations@.take(i + 1).drop_last() =~= mind.relations@.take(i as int));
        reveal_with_fuel(Seq::filter, 1);
        if mind.relations[i].0 != RelationVerb::Colleague {
            out.push(mind.relations[i]);
        }
        i = i + 1;
    }
    assert(mind.relations@.take(mind.relations.len() as int) =~= mind.relations@);
    if mind.employer.is_some() {
        let ghost base = out@;
        let mut j: usize = 0;
        while j < pop.len()
            invariant
                j <= pop.len(),
                k < pop.len(),
                mind == &pop@[k as int],
                out@ == base + colleague_relations(pop@.take(j as int), mind.id, mind.employer),
            decreases pop.len() - j,
        {
            assert(pop@.take(j + 1).drop_last() =~= pop@.take(j as int));
            let c = &pop[j];
            if c.id != mind.id && c.employer.is_some() && c.employer == mind.employer {
                out.push((RelationVerb::Colleague, c.id));
            }
            j = j + 1;
            assert(out@ =~= base + colleague_relations(pop@.take(j as int), mind.id, mind.employer));
        }
        assert(pop@.take(pop.len() as int) =~= pop@);
    }
    out
}

proof fn lemma_colleague_relations_ids(cur: Seq<Mind>, old: Seq<Mind>, id: Id, employer: Option<Id>)
    requires
        cur.len() == old.len(),
        forall|j: int|
            0 <= j < old.len() ==> (#[trigger] cur[j]).id == old[j].id && cur[j].employer
                == old[j].employer,
    ensures
        colleague_relations(cur, id, employer) == colleague_relations(old, id, employer),
    decreases cur.len(),
{
    if cur.len() > 0 {
        lemma_colleague_relations_ids(cur.drop_last(), old.drop_last(), id, employer);
        assert(cur[cur.len() - 1].id == old[old.len() - 1].id);
    }
}

/// Links colleagues: every citizen's colleague relations are replaced by
/// one for each other citizen with the same employer (see
/// [`colleagues_linked`]); the rest of the city is unchanged.
pub fn link_colleagues<'a>(city: &'a mut City) -> (r: &'a mut City)
    ensures
        relations_mapped(old(city).citizens@, r.citizens@, |j: int| colleagues_linked(old(city).citizens@, j)),
        same_but_citizens(*old(city), *r),
        *final(city) == *final(r),
{
    let ghost old_pop = city.citizens@;
    let n = city.citizens.len();
    let mut k: usize = 0;
    while k < n
        invariant
            k <= n == city.citizens.len() == old_pop.len(),
            same_but_citizens(*old(city), *city),
            forall|j: int| 0 <= j < n ==> (#[trigger] city.citizens@[j]).id == old_pop[j].id && city.citizens@[j].employer == old_pop[j].employer,
            forall|j: int| 0 <= j < k ==> relations_replaced(old_pop[j], #[trigger] city.citizens@[j], colleagues_linked(old_pop, j)),
            forall|j: int| k <= j < n ==> #[trigger] city.citizens@[j] == old_pop[j],
        decreases n - k,
    {
        let rels = colleagues_of(&city.citizens, k);
        proof {
            let cur = city.citizens@;
            assert(cur[k as int] == old_pop[k as int]);
            lemma_colleague_relations_ids(cur, old_pop, cur[k as int].id, cur[k as int].employer);
        }
        set_relations(&mut city.citizens, k, rels);
        k = k + 1;
    }
    city
}

/// The ids of the children among `rels`, in order.
pub open spec fn child_ids(rels: Seq<Relation>) -> Seq<Id>
    decreases rels.len(),
{
    if rels.len() == 0 {
        Seq::empty()
    } else {
        let rest = child_ids(rels.drop_last());
        if rels.last().0 == RelationVerb::Child {
            rest.push(rels.last().1)
        } else {
            rest
        }
    }
}

/// The children of the parents named in `rels`, parent by parent in order:
/// the ids of a citizen's siblings, the citizen among them.
pub open spec fn sibling_ids(pop: Seq<Mind>, rels: Seq<Relation>) -> Seq<Id>
    decreases rels.len(),
{
    if rels.len() == 0 {
        Seq::empty()
    } else {
        let rest = sibling_ids(pop, rels.drop_last());
        let r = rels.last();
        if r.0 == RelationVerb::Parent {
            rest + child_ids(pop[lookup(pop, r.1).unwrap()].relations@)
        } else {
            rest
        }
    }
}

/// `rels` with a relation of kind `verb` added for each id of `ids`, in
/// order, that it does not hold yet.
pub open spec fn add_missing(rels: Seq<Relation>, verb: RelationVerb, ids: Seq<Id>) -> Seq<Relation>
    decreases ids.len(),
{
    if ids.len() == 0 {
        rels
    } else {
        let r = add_missing(rels, verb, ids.drop_last());
        if r.contains((verb, ids.last())) {
            r
        } else {
            r.push((verb, ids.last()))
        }
    }
}

/// Every parent named by a citizen is a citizen.
pub open spec fn parents_known(pop: Seq<Mind>) -> bool {
    forall|j: int, i: int|
        0 <= j < pop.len() && 0 <= i < pop[j].relations@.len() && (#[trigger] pop[j].relations@[i]).0
            == RelationVerb::Parent ==> has_id(pop, pop[j].relations@[i].1)
}

/// Citizen `k`'s relations once siblings are linked: a sibling relation is
/// added for each child of each of its parents, in order, that it does not
/// yet hold (the citizen itself among them).
pub open spec fn siblings_linked(pop: Seq<Mind>, k: int) -> Seq<Relation> {
    add_missing(
        pop[k].relations@,
        RelationVerb::Sibling,
        sibling_ids(pop, pop[k].relations@),
    )
}

fn contains_relation(rels: &Vec<Relation>, rel: Relation) -> (b: bool)
    ensures
        b == rels@.contains(rel),
{
    let mut i: usize = 0;
    while i < rels.len()
        invariant
            i <= rels.len(),
            forall|j: int| 0 <= j < i ==> rels@[j] != rel,
        decreases rels.len() - i,
    {
        if rels[i].0 == rel.0 && rels[i].1 == rel.1 {
            return true;
        }
        i = i + 1;
    }
    false
}

fn push_child_ids(out: &mut Vec<Id>, rels: &Vec<Relation>)
    ensures
        final(out)@ == old(out)@ + child_ids(rels@),
{
    let ghost o = old(out)@;
    let mut i: usize = 0;
    while i < rels.len()
        invariant
            i <= rels.len(),
            out@ == o + child_ids(rels@.take(i as int)),
        decreases rels.len() - i,
    {
        assert(rels@.take(i + 1).drop_last() =~= rels@.take(i as int));
        if rels[i].0 == RelationVerb::Child {
            out.push(rels[i].1);
        }
        i = i + 1;
        assert(out@ =~= o + child_ids(rels@.take(i as int)));
    }
    assert(rels@.take(rels.len() as int) =~= rels@);
}

fn siblings_of(pop: &Vec<Mind>, k: usize) -> (r: Vec<Relation>)
    requires
        k < pop.len(),
        parents_known(pop@),
    ensures
        r@ == siblings_linked(pop@, k as int),
{
    let rels = &pop[k].relations;
    let mut ids: Vec<Id> = Vec::new();
    let mut i: usize = 0;
    while i < rels.len()
        invariant
            i <= rels.len(),
            k < pop.len(),
            rels == &pop@[k as int].relations,
            parents_known(pop@),
            ids@ == sibling_ids(pop@, rels@.take(i as int)),
        decreases rels.len() - i,
    {
        assert(rels@.take(i + 1).drop_last() =~= rels@.take(i as int));
        if rels[i].0 == RelationVerb::Parent {
            assert(has_id(pop@, rels@[i as int].1));
            match find_index(pop, rels[i].1) {
                Some(p) => {
                    proof {
                        lemma_lookup(pop@, rels@[i as int].1);
                    }
                    push_child_ids(&mut ids, &pop[p].relations);
                },
                None => {},
            }
        }
        i = i + 1;
    }
    assert(rels@.take(rels.len() as int) =~= rels@);
    let mut out: Vec<Relation> = Vec::new();
    let mut t: usize = 0;
    while t < rels.len()
        invariant
            t <= rels.len(),
            out@ == rels@.take(t as int),
        decreases rels.len() - t,
    {
        out.push(rels[t]);
        t = t + 1;
        assert(out@ =~= rels@.take(t as int));
    }
    assert(rels@.take(rels.len() as int) =~= rels@);
    let ghost base = out@;
    let mut j: usize = 0;
    while j < ids.len()
        invariant
            j <= ids.len(),
            out@ == add_missing(base, RelationVerb::Sibling, ids@.take(j as int)),
        decreases ids.len() - j,
    {
        assert(ids@.take(j + 1).drop_last() =~= ids@.take(j as int));
        if !contains_relation(&out, (RelationVerb::Sibling, ids[j])) {
            out.push((RelationVerb::Sibling, ids[j]));
        }
        j = j + 1;
    }
    assert(ids@.take(ids.len() as int) =~= ids@);
    out
}

/// Links siblings: each citizen gains a sibling relation to every child of
/// each of its parents that it does not yet hold (see [`siblings_linked`]).
/// Every parent named must be a citizen.
pub fn link_siblings<'a>(city: &'a mut City) -> (r: &'a mut City)
    requires
        parents_known(old(city).citizens@),
    ensures
        relations_mapped(
            old(city).citizens@,
            r.citizens@,
            |j: int| siblings_linked(old(city).citizens@, j),
        ),
        same_but_citizens(*old(city), *r),
        *final(city) == *final(r),
{
    let n = city.citizens.len();
    let mut all: Vec<Vec<Relation>> = Vec::new();
    let mut k: usize = 0;
    while k < n
        invariant
            k <= n == city.citizens.len(),
            city == old(city),
            parents_known(city.citizens@),
            all@.len() == k,
            forall|j: int| 0 <= j < k ==> (#[trigger] all@[j])@ == siblings_linked(city.citizens@, j),
        decreases n - k,
    {
        all.push(siblings_of(&city.citizens, k));
        k = k + 1;
    }
    let ghost old_pop = city.citizens@;
    let mut k: usize = n;
    while k > 0
        invariant
            k <= n == city.citizens.len() == old_pop.len(),
            all@.len() == k,
            old_pop == old(city).citizens@,
            same_but_citizens(*old(city), *city),
            forall|j: int| 0 <= j < k ==> (#[trigger] all@[j])@ == siblings_linked(old_pop, j),
            forall|j: int| k <= j < n ==> relations_replaced(old_pop[j], #[trigger] city.citizens@[j], siblings_linked(old_pop, j)),
            forall|j: int| 0 <= j < k ==> #[trigger] city.citizens@[j] == old_pop[j],
        decreases k,
    {
        k = k - 1;
        let rels = all.pop().unwrap();
        assert(rels@ == siblings_linked(old_pop, k as int));
        set_relations(&mut city.citizens, k, rels);
    }
    city
}

/// Grandparent links are made when a child is born (see
/// [`link_family_at_birth`]); this pass leaves the city as it is. Every
/// parent named must be a citizen.
pub fn link_grandparents<'a>(city: &'a mut City) -> (r: &'a mut City)
    requires
        parents_known(old(city).citizens@),
    ensures
        *r == *old(city),
        *final(city) == *final(r),
{
    city
}

/// A line of a citizen's log: `Gained <first> <last> as a <role> in year
/// <year>`.
pub open spec fn gained_line(first: Seq<char>, last: Seq<char>, role: Seq<char>, year: nat) -> Seq<
    char,
> {
    "Gained "@ + first + " "@ + last + " as a "@ + role + " in year "@ + decimal(year)
}

pub(crate) fn gained_line_exec(first: &String, last: &String, role: &str, year: usize) -> (r: String)
    ensures
        r@ == gained_line(first@, last@, role@, year as nat),
{
    let mut out: Vec<char> = Vec::new();
    push_str(&mut out, "Gained ");
    push_str(&mut out, first.as_str());
    push_str(&mut out, " ");
    push_str(&mut out, last.as_str());
    push_str(&mut out, " as a ");
    push_str(&mut out, role);
    push_str(&mut out, " in year ");
    let digits = decimal_chars(year as u64);
    push_all(&mut out, &digits);
    string_of(&out)
}

/// What the birth of a child changes: the child's relations, and every
/// citizen's relations and log lines, by index.
pub struct FamilyState {
    pub child: Seq<Relation>,
    pub rels: Seq<Seq<Relation>>,
    pub logs: Seq<Seq<Seq<char>>>,
}

/// The newborn as the family links read it: id, first and last name.
pub type Newborn = (Id, Seq<char>, Seq<char>);

/// The child gains `child_rel` and citizen `k` gains `back` and a log line.
pub open spec fn link_pair(
    st: FamilyState,
    k: int,
    child_rel: Relation,
    back: Relation,
    line: Seq<char>,
) -> FamilyState {
    FamilyState {
        child: st.child.push(child_rel),
        rels: st.rels.update(k, st.rels[k].push(back)),
        logs: st.logs.update(k, st.logs[k].push(line)),
    }
}

/// The id of the first spouse among `rels`.
pub open spec fn first_spouse(rels: Seq<Relation>) -> Option<Id>
    decreases rels.len(),
{
    if rels.len() == 0 {
        None
    } else if rels[0].0 == RelationVerb::Spouse {
        Some(rels[0].1)
    } else {
        first_spouse(rels.drop_first())
    }
}

/// One relation of a parent, applied at a child's birth; `None` when it
/// names someone who is not a citizen where the citizen must be found.
/// Relations to the child itself are passed over. A child of the parent
/// becomes the newborn's sibling, a sibling of the parent (and that
/// sibling's first spouse) its pibling, a parent of the parent its
/// grandparent, and a nibling of the parent its cousin; each only if alive,
/// and siblings, piblings and cousins only if not already linked. Each
/// relative gains the inverse relation and a log line.
pub open spec fn family_step(
    pop: Seq<Mind>,
    nb: Newborn,
    year: nat,
    st: FamilyState,
    rel: Relation,
) -> Option<FamilyState> {
    let verb = rel.0;
    let id = rel.1;
    if id == nb.0 {
        Some(st)
    } else if verb == RelationVerb::Child {
        if st.child.contains((RelationVerb::Sibling, id)) {
            Some(st)
        } else {
            match lookup(pop, id) {
                None => None,
                Some(k) => Some(
                    if pop[k].alive {
                        link_pair(
                            st,
                            k,
                            (RelationVerb::Sibling, id),
                            (RelationVerb::Sibling, nb.0),
                            gained_line(nb.1, nb.2, "Sibling"@, year),
                        )
                    } else {
                        st
                    },
                ),
            }
        }
    } else if verb == RelationVerb::Sibling {
        if st.child.contains((RelationVerb::Pibling, id)) {
            Some(st)
        } else {
            match lookup(pop, id) {
                None => None,
                Some(k) => {
                    let st1 = if pop[k].alive {
                        link_pair(
                            st,
                            k,
                            (RelationVerb::Pibling, id),
                            (RelationVerb::Nibling, nb.0),
                            gained_line(nb.1, nb.2, "Nibling"@, year),
                        )
                    } else {
                        st
                    };
                    match first_spouse(st1.rels[k]) {
                        None => Some(st1),
                        Some(sid) => match lookup(pop, sid) {
                            None => None,
                            Some(sp) => Some(
                                if pop[sp].alive {
                                    link_pair(
                                        st1,
                                        sp,
                                        (RelationVerb::Pibling, pop[sp].id),
                                        (RelationVerb::Nibling, nb.0),
                                        gained_line(nb.1, nb.2, "Nibling"@, year),
                                    )
                                } else {
                                    st1
                                },
                            ),
                        },
                    }
                },
            }
        }
    } else if verb == RelationVerb::Parent {
        match lookup(pop, id) {
            None => None,
            Some(k) => Some(
                if pop[k].alive {
                    link_pair(
                        st,
                        k,
                        (RelationVerb::Grandparent, id),
                        (RelationVerb::Grandchild, nb.0),
                        gained_line(nb.1, nb.2, "Grandchild"@, year),
                    )
                } else {
                    st
                },
            ),
        }
    } else if verb == RelationVerb::Nibling {
        match lookup(pop, id) {
            None => None,
            Some(k) => Some(
                if pop[k].alive {
                    let c = if st.child.contains((RelationVerb::Cousin, id)) {
                        st.child
                    } else {
                        st.child.push((RelationVerb::Cousin, id))
                    };
                    if st.rels[k].contains((RelationVerb::Cousin, nb.0)) {
                        FamilyState { child: c, rels: st.rels, logs: st.logs }
                    } else {
                        FamilyState {
                            child: c,
                            rels: st.rels.update(k, st.rels[k].push((RelationVerb::Cousin, nb.0))),
                            logs: st.logs.update(
                                k,
                                st.logs[k].push(gained_line(nb.1, nb.2, "Cousin"@, year)),
                            ),
                        }
                    }
                } else {
                    st
                },
            ),
        }
    } else {
        Some(st)
    }
}

/// The relations of one parent applied in order.
pub open spec fn family_over(
    pop: Seq<Mind>,
    nb: Newborn,
    year: nat,
    st: Option<FamilyState>,
    rels: Seq<Relation>,
) -> Option<FamilyState>
    decreases rels.len(),
{
    if rels.len() == 0 {
        st
    } else {
        match st {
            None => None,
            Some(s) => family_over(pop, nb, year, family_step(pop, nb, year, s, rels[0]), rels.drop_first()),
        }
    }
}

/// The ids of the parents among `rels`, in order.
pub open spec fn parent_ids(rels: Seq<Relation>) -> Seq<Id>
    decreases rels.len(),
{
    if rels.len() == 0 {
        Seq::empty()
    } else {
        let rest = parent_ids(rels.drop_last());
        if rels.last().0 == RelationVerb::Parent {
            rest.push(rels.last().1)
        } else {
            rest
        }
    }
}

/// The relations of each parent in turn, as they stood before the birth,
/// applied in order.
pub open spec fn over_parents(
    pop: Seq<Mind>,
    nb: Newborn,
    year: nat,
    st: Option<FamilyState>,
    pids: Seq<Id>,
) -> Option<FamilyState>
    decreases pids.len(),
{
    if pids.len() == 0 {
        st
    } else {
        over_parents(
            pop,
            nb,
            year,
            family_over(pop, nb, year, st, pop[lookup(pop, pids[0]).unwrap()].relations@),
            pids.drop_first(),
        )
    }
}

/// The state before the birth.
pub open spec fn family_state_of(child: Mind, pop: Seq<Mind>) -> FamilyState {
    FamilyState {
        child: child.relations@,
        rels: pop.map_values(|m: Mind| m.relations@),
        logs: pop.map_values(|m: Mind| str_views(m.activity_log@)),
    }
}

/// The links a birth makes (see [`family_step`]): every parent of the
/// child must be a citizen, and so must every relative the links look up;
/// `None` otherwise.
pub open spec fn family_at_birth(pop: Seq<Mind>, child: Mind, year: nat) -> Option<FamilyState> {
    let pids = parent_ids(child.relations@);
    if exists|i: int| 0 <= i < pids.len() && !has_id(pop, #[trigger] pids[i]) {
        None
    } else {
        over_parents(
            pop,
            (child.id, child.first_name@, child.last_name@),
            year,
            Some(family_state_of(child, pop)),
            pids,
        )
    }
}

/// `b` is `a` except, perhaps, for its relations and log.
pub open spec fn same_but_ties(a: Mind, b: Mind) -> bool {
    &&& b.id == a.id
    &&& b.first_name == a.first_name
    &&& b.last_name == a.last_name
    &&& b.gender == a.gender
    &&& b.age == a.age
    &&& b.employer == a.employer
    &&& b.residence == a.residence
    &&& b.sexuality == a.sexuality
    &&& b.alive == a.alive
    &&& b.physical_description == a.physical_description
    &&& b.institution_shopping_visits == a.institution_shopping_visits
    &&& b.institution_social_visits == a.institution_social_visits
}

fn first_spouse_exec(rels: &Vec<Relation>) -> (r: Option<Id>)
    ensures
        r == first_spouse(rels@),
{
    let mut i: usize = 0;
    assert(rels@.subrange(0, rels@.len() as int) =~= rels@);
    while i < rels.len()
        invariant
            i <= rels.len(),
            first_spouse(rels@) == first_spouse(rels@.subrange(i as int, rels@.len() as int)),
        decreases rels.len() - i,
    {
        assert(rels@.subrange(i as int, rels@.len() as int).drop_first() =~= rels@.subrange(
            i + 1,
            rels@.len() as int,
        ));
        assert(rels@.subrange(i as int, rels@.len() as int)[0] == rels@[i as int]);
        if rels[i].0 == RelationVerb::Spouse {
            return Some(rels[i].1);
        }
        i = i + 1;
    }
    None
}

/// The state of the family links as a child and a population hold it.
pub open spec fn state_of(child: Mind, pop: Seq<Mind>) -> FamilyState {
    FamilyState {
        child: child.relations@,
        rels: pop.map_values(|m: Mind| m.relations@),
        logs: pop.map_values(|m: Mind| str_views(m.activity_log@)),
    }
}

proof fn lemma_state_link(
    child: Mind,
    new_child: Mind,
    cur: Seq<Mind>,
    new: Seq<Mind>,
    k: int,
    child_rel: Relation,
    back: Relation,
    line: Seq<char>,
)
    requires
        0 <= k < cur.len(),
        new.len() == cur.len(),
        crate::city::population::mind::relation_and_log_added(cur[k], new[k], back, line),
        forall|j: int| 0 <= j < cur.len() && j != k ==> new[j] == cur[j],
        new_child.relations@ == child.relations@.push(child_rel),
    ensures
        state_of(new_child, new) == link_pair(state_of(child, cur), k, child_rel, back, line),
        forall|j: int| 0 <= j < cur.len() ==> same_but_ties(cur[j], #[trigger] new[j]),
{
    let a = state_of(new_child, new);
    let b = link_pair(state_of(child, cur), k, child_rel, back, line);
    assert(a.rels =~= b.rels);
    assert(a.logs =~= b.logs);
    assert forall|j: int| 0 <= j < cur.len() implies same_but_ties(cur[j], #[trigger] new[j]) by {
        if j != k {
            assert(new[j] == cur[j]);
        }
    }
}

proof fn lemma_state_citizen_only(
    child: Mind,
    cur: Seq<Mind>,
    new: Seq<Mind>,
    k: int,
    back: Relation,
    line: Seq<char>,
)
    requires
        0 <= k < cur.len(),
        new.len() == cur.len(),
        crate::city::population::mind::relation_and_log_added(cur[k], new[k], back, line),
        forall|j: int| 0 <= j < cur.len() && j != k ==> new[j] == cur[j],
    ensures
        state_of(child, new) == (FamilyState {
            child: child.relations@,
            rels: state_of(child, cur).rels.update(k, cur[k].relations@.push(back)),
            logs: state_of(child, cur).logs.update(k, str_views(cur[k].activity_log@).push(line)),
        }),
        forall|j: int| 0 <= j < cur.len() ==> same_but_ties(cur[j], #[trigger] new[j]),
{
    let a = state_of(child, new);
    assert(a.rels =~= state_of(child, cur).rels.update(k, cur[k].relations@.push(back)));
    assert(a.logs =~= state_of(child, cur).logs.update(
        k,
        str_views(cur[k].activity_log@).push(line),
    ));
    assert forall|j: int| 0 <= j < cur.len() implies same_but_ties(cur[j], #[trigger] new[j]) by {
        if j != k {
            assert(new[j] == cur[j]);
        }
    }
}

pub proof fn lemma_lookup_same_ids(a: Seq<Mind>, b: Seq<Mind>, id: Id)
    requires
        a.len() == b.len(),
        forall|j: int| 0 <= j < a.len() ==> (#[trigger] b[j]).id == a[j].id,
    ensures
        lookup(a, id) == lookup(b, id),
    decreases a.len(),
{
    if a.len() > 0 {
        lemma_lookup_same_ids(a.drop_last(), b.drop_last(), id);
        assert(b[b.len() - 1].id == a[a.len() - 1].id);
    }
}

proof fn lemma_parent_in_ids(rels: Seq<Relation>, i: int)
    requires
        0 <= i < rels.len(),
        rels[i].0 == RelationVerb::Parent,
    ensures
        parent_ids(rels).contains(rels[i].1),
    decreases rels.len(),
{
    if i == rels.len() - 1 {
        assert(parent_ids(rels).last() == rels[i].1);
    } else {
        lemma_parent_in_ids(rels.drop_last(), i);
        let k = choose|k: int|
            0 <= k < parent_ids(rels.drop_last()).len() && parent_ids(rels.drop_last())[k]
                == rels[i].1;
        assert(parent_ids(rels)[k] == rels[i].1);
    }
}

fn push_child_relation(child: &mut Mind, rel: Relation)
    ensures
        final(child).relations@ == old(child).relations@.push(rel),
        same_but_ties(*old(child), *final(child)),
        final(child).activity_log == old(child).activity_log,
{
    child.relations.push(rel);
}

/// Every citizen of `new` is the one of `old` but for relations and log.
pub open spec fn ties_only(old: Seq<Mind>, new: Seq<Mind>) -> bool {
    &&& new.len() == old.len()
    &&& forall|j: int| 0 <= j < old.len() ==> same_but_ties(old[j], #[trigger] new[j])
}

/// Applies one relation of a parent at a child's birth (see
/// [`family_step`]).
fn apply_family_step(
    city: &mut City,
    child: &mut Mind,
    rel: Relation,
    Ghost(pop0): Ghost<Seq<Mind>>,
    Ghost(child0): Ghost<Mind>,
)
    requires
        ties_only(pop0, old(city).citizens@),
        same_but_ties(child0, *old(child)),
        family_step(
            pop0,
            (child0.id, child0.first_name@, child0.last_name@),
            old(city).year as nat,
            state_of(*old(child), old(city).citizens@),
            rel,
        ) is Some,
    ensures
        ties_only(pop0, final(city).citizens@),
        same_but_ties(child0, *final(child)),
        final(child).activity_log == old(child).activity_log,
        same_but_citizens(*old(city), *final(city)),
        state_of(*final(child), final(city).citizens@) == family_step(
            pop0,
            (child0.id, child0.first_name@, child0.last_name@),
            old(city).year as nat,
            state_of(*old(child), old(city).citizens@),
            rel,
        ).unwrap(),
{
    let ghost st = state_of(*child, city.citizens@);
    let ghost cur = city.citizens@;
    let (verb, id) = rel;
    proof {
        lemma_lookup_same_ids(pop0, cur, id);
        lemma_lookup(cur, id);
    }
    if id == child.id {
        return;
    }
    if verb == RelationVerb::Child {
        if !contains_relation(&child.relations, (RelationVerb::Sibling, id)) {
            let k = find_index(&city.citizens, id).unwrap();
            if city.citizens[k].alive {
                let line = gained_line_exec(
                    &child.first_name,
                    &child.last_name,
                    "Sibling",
                    city.year,
                );
                let ghost c1 = *child;
                push_child_relation(child, (RelationVerb::Sibling, id));
                let back = (RelationVerb::Sibling, child.id);
                add_relation_and_log(&mut city.citizens, k, back, line);
                proof {
                    lemma_state_link(
                        c1,
                        *child,
                        cur,
                        city.citizens@,
                        k as int,
                        (RelationVerb::Sibling, id),
                        back,
                        line@,
                    );
                }
            }
        }
    } else if verb == RelationVerb::Sibling {
        if !contains_relation(&child.relations, (RelationVerb::Pibling, id)) {
            let k = find_index(&city.citizens, id).unwrap();
            if city.citizens[k].alive {
                let line = gained_line_exec(
                    &child.first_name,
                    &child.last_name,
                    "Nibling",
                    city.year,
                );
                let ghost c1 = *child;
                push_child_relation(child, (RelationVerb::Pibling, id));
                let back = (RelationVerb::Nibling, child.id);
                add_relation_and_log(&mut city.citizens, k, back, line);
                proof {
                    lemma_state_link(
                        c1,
                        *child,
                        cur,
                        city.citizens@,
                        k as int,
                        (RelationVerb::Pibling, id),
                        back,
                        line@,
                    );
                }
            }
            let ghost st1 = state_of(*child, city.citizens@);
            let ghost cur1 = city.citizens@;
            assert(st1.rels[k as int] == city.citizens@[k as int].relations@);
            match first_spouse_exec(&city.citizens[k].relations) {
                None => {},
                Some(sid) => {
                    proof {
                        lemma_lookup_same_ids(pop0, cur1, sid);
                        lemma_lookup(cur1, sid);
                    }
                    let sp = find_index(&city.citizens, sid).unwrap();
                    if city.citizens[sp].alive {
                        let line = gained_line_exec(
                            &child.first_name,
                            &child.last_name,
                            "Nibling",
                            city.year,
                        );
                        let ghost c1 = *child;
                        let sp_id = city.citizens[sp].id;
                        push_child_relation(child, (RelationVerb::Pibling, sp_id));
                        let back = (RelationVerb::Nibling, child.id);
                        add_relation_and_log(&mut city.citizens, sp, back, line);
                        proof {
                            lemma_state_link(
                                c1,
                                *child,
                                cur1,
                                city.citizens@,
                                sp as int,
                                (RelationVerb::Pibling, sp_id),
                                back,
                                line@,
                            );
                        }
                    }
                },
            }
        }
    } else if verb == RelationVerb::Parent {
        let k = find_index(&city.citizens, id).unwrap();
        if city.citizens[k].alive {
            let line = gained_line_exec(
                &child.first_name,
                &child.last_name,
                "Grandchild",
                city.year,
            );
            let ghost c1 = *child;
            push_child_relation(child, (RelationVerb::Grandparent, id));
            let back = (RelationVerb::Grandchild, child.id);
            add_relation_and_log(&mut city.citizens, k, back, line);
            proof {
                lemma_state_link(
                    c1,
                    *child,
                    cur,
                    city.citizens@,
                    k as int,
                    (RelationVerb::Grandparent, id),
                    back,
                    line@,
                );
            }
        }
    } else if verb == RelationVerb::Nibling {
        let k = find_index(&city.citizens, id).unwrap();
        if city.citizens[k].alive {
            if !contains_relation(&child.relations, (RelationVerb::Cousin, id)) {
                push_child_relation(child, (RelationVerb::Cousin, id));
            }
            if !contains_relation(&city.citizens[k].relations, (RelationVerb::Cousin, child.id)) {
                let line = gained_line_exec(
                    &child.first_name,
                    &child.last_name,
                    "Cousin",
                    city.year,
                );
                let back = (RelationVerb::Cousin, child.id);
                add_relation_and_log(&mut city.citizens, k, back, line);
                proof {
                    lemma_state_citizen_only(*child, cur, city.citizens@, k as int, back, line@);
                    assert(st.rels[k as int] == cur[k as int].relations@);
                    assert(st.logs[k as int] == str_views(cur[k as int].activity_log@));
                }
            }
        }
    }
}

/// Links a newborn into its family (see [`family_at_birth`]): the child
/// and its relatives gain the relations the birth makes, and the relatives
/// a line of log each; nothing else of the child or the city changes. Every
/// parent and every relative looked up must be a citizen.
pub fn link_family_at_birth<'a>(city: &'a mut City, child: &'a mut Mind) -> (r: &'a mut City)
    requires
        family_at_birth(old(city).citizens@, *old(child), old(city).year as nat) is Some,
    ensures
        state_of(*final(child), r.citizens@) == family_at_birth(
            old(city).citizens@,
            *old(child),
            old(city).year as nat,
        ).unwrap(),
        ties_only(old(city).citizens@, r.citizens@),
        same_but_ties(*old(child), *final(child)),
        final(child).activity_log == old(child).activity_log,
        same_but_citizens(*old(city), *r),
        *final(city) == *final(r),
{
    let ghost pop0 = city.citizens@;
    let ghost child0 = *child;
    let ghost nb: Newborn = (child.id, child.first_name@, child.last_name@);
    let ghost year = city.year as nat;
    let ghost pids = parent_ids(child.relations@);
    // the parents' relations, as they stand before the birth
    let mut parent_rels: Vec<Vec<Relation>> = Vec::new();
    let mut i: usize = 0;
    while i < child.relations.len()
        invariant
            i <= child.relations.len(),
            city == old(city),
            child == old(child),
            pop0 == city.citizens@,
            pids == parent_ids(child.relations@),
            family_at_birth(pop0, child0, year) is Some,
            child0 == *child,
            parent_rels@.len() == parent_ids(child.relations@.take(i as int)).len(),
            forall|t: int|
                0 <= t < parent_rels@.len() ==> (#[trigger] parent_rels@[t])@ == pop0[lookup(
                    pop0,
                    parent_ids(child.relations@.take(i as int))[t],
                ).unwrap()].relations@,
        decreases child.relations.len() - i,
    {
        assert(child.relations@.take(i + 1).drop_last() =~= child.relations@.take(i as int));
        if child.relations[i].0 == RelationVerb::Parent {
            proof {
                lemma_parent_in_ids(child.relations@, i as int);
                lemma_lookup(pop0, child.relations@[i as int].1);
                let t = choose|t: int| 0 <= t < pids.len() && pids[t] == child.relations@[i as int].1;
                assert(has_id(pop0, pids[t]));
            }
            match find_index(&city.citizens, child.relations[i].1) {
                Some(p) => {
                    let mut copy: Vec<Relation> = Vec::new();
                    let mut t: usize = 0;
                    while t < city.citizens[p].relations.len()
                        invariant
                            p < city.citizens.len(),
                            t <= city.citizens@[p as int].relations.len(),
                            copy@ == city.citizens@[p as int].relations@.take(t as int),
                        decreases city.citizens@[p as int].relations.len() - t,
                    {
                        copy.push(city.citizens[p].relations[t]);
                        t = t + 1;
                        assert(copy@ =~= city.citizens@[p as int].relations@.take(t as int));
                    }
                    assert(city.citizens@[p as int].relations@.take(t as int)
                        =~= city.citizens@[p as int].relations@);
                    parent_rels.push(copy);
                },
                None => {},
            }
        }
        i = i + 1;
    }
    assert(child.relations@.take(child.relations.len() as int) =~= child.relations@);
    assert(state_of(*child, city.citizens@) == family_state_of(child0, pop0));
    let mut p: usize = 0;
    assert(pids.subrange(0, pids.len() as int) =~= pids);
    while p < parent_rels.len()
        invariant
            p <= parent_rels.len() == pids.len(),
            pop0 == old(city).citizens@,
            child0 == *old(child),
            nb == (child0.id, child0.first_name@, child0.last_name@),
            year == old(city).year as nat,
            same_but_citizens(*old(city), *city),
            same_but_ties(child0, *child),
            child.activity_log == child0.activity_log,
            ties_only(pop0, city.citizens@),
            forall|t: int|
                0 <= t < parent_rels@.len() ==> (#[trigger] parent_rels@[t])@ == pop0[lookup(
                    pop0,
                    pids[t],
                ).unwrap()].relations@,
            family_at_birth(pop0, child0, year) == over_parents(
                pop0,
                nb,
                year,
                Some(state_of(*child, city.citizens@)),
                pids.subrange(p as int, pids.len() as int),
            ),
            family_at_birth(pop0, child0, year) is Some,
        decreases parent_rels.len() - p,
    {
        assert(pids.subrange(p as int, pids.len() as int).drop_first() =~= pids.subrange(
            p + 1,
            pids.len() as int,
        ));
        assert(pids.subrange(p as int, pids.len() as int)[0] == pids[p as int]);
        let rels = &parent_rels[p];
        let mut q: usize = 0;
        assert(rels@.subrange(0, rels@.len() as int) =~= rels@);
        let ghost later = pids.subrange(p + 1, pids.len() as int);
        while q < rels.len()
            invariant
                q <= rels.len(),
                p < parent_rels.len(),
                rels == &parent_rels@[p as int],
                pop0 == old(city).citizens@,
                child0 == *old(child),
                nb == (child0.id, child0.first_name@, child0.last_name@),
                year == old(city).year as nat,
                same_but_citizens(*old(city), *city),
                same_but_ties(child0, *child),
                child.activity_log == child0.activity_log,
                ties_only(pop0, city.citizens@),
                family_at_birth(pop0, child0, year) == over_parents(
                    pop0,
                    nb,
                    year,
                    family_over(
                        pop0,
                        nb,
                        year,
                        Some(state_of(*child, city.citizens@)),
                        rels@.subrange(q as int, rels@.len() as int),
                    ),
                    later,
                ),
                family_at_birth(pop0, child0, year) is Some,
            decreases rels.len() - q,
        {
            let ghost rest = rels@.subrange(q as int, rels@.len() as int);
            assert(rest.drop_first() =~= rels@.subrange(q + 1, rels@.len() as int));
            assert(rest[0] == rels@[q as int]);
            proof {
                lemma_over_parents_none(pop0, nb, year, later);
                lemma_family_over_none(pop0, nb, year, rest.drop_first());
            }
            apply_family_step(city, child, rels[q], Ghost(pop0), Ghost(child0));
            q = q + 1;
        }
        assert(rels@.subrange(q as int, rels@.len() as int) =~= Seq::<Relation>::empty());
        p = p + 1;
    }
    assert(pids.subrange(p as int, pids.len() as int) =~= Seq::<Id>::empty());
    city
}

proof fn lemma_family_over_none(pop: Seq<Mind>, nb: Newborn, year: nat, rels: Seq<Relation>)
    ensures
        family_over(pop, nb, year, None, rels) is None,
    decreases rels.len(),
{
}

proof fn lemma_over_parents_none(pop: Seq<Mind>, nb: Newborn, year: nat, pids: Seq<Id>)
    ensures
        over_parents(pop, nb, year, None, pids) is None,
    decreases pids.len(),
{
    if pids.len() > 0 {
        lemma_family_over_none(pop, nb, year, pop[lookup(pop, pids[0]).unwrap()].relations@);
        lemma_over_parents_none(pop, nb, year, pids.drop_first());
    }
}

} // verus!

verus! {

/// The relation a relative gains to a newborn that gains the relation
/// `v` to it.
pub open spec fn birth_inverse(v: RelationVerb) -> RelationVerb {
    match v {
        RelationVerb::Pibling => RelationVerb::Nibling,
        RelationVerb::Grandparent => RelationVerb::Grandchild,
        _ => v,
    }
}

/// A relation `x` that a newborn with id `nb` gains at birth, in the state
/// `st`: a sibling, pibling, grandparent or cousin other than the newborn,
/// alive, who holds the inverse relation to the newborn.
pub open spec fn birth_link_ok(pop: Seq<Mind>, nb: Id, st: FamilyState, x: Relation) -> bool {
    &&& x.1 != nb
    &&& (x.0 == RelationVerb::Sibling || x.0 == RelationVerb::Pibling || x.0 == RelationVerb::Grandparent || x.0
        == RelationVerb::Cousin)
    &&& lookup(pop, x.1) matches Some(k) && pop[k].alive && st.rels[k].contains((birth_inverse(x.0), nb))
}

/// Every relation of the newborn from index `base` on is a link of its
/// birth (see [`birth_link_ok`]), and no sibling or cousin relation of the
/// newborn occurs twice.
pub open spec fn birth_links_ok(pop: Seq<Mind>, nb: Id, base: int, st: FamilyState) -> bool {
    &&& 0 <= base <= st.child.len()
    &&& st.rels.len() == pop.len()
    &&& forall|i: int| base <= i < st.child.len() ==> birth_link_ok(pop, nb, st, #[trigger] st.child[i])
    &&& forall|i: int, j: int|
        #![trigger st.child[i], st.child[j]]
        0 <= i < j < st.child.len() && (st.child[i].0 == RelationVerb::Sibling || st.child[i].0
            == RelationVerb::Cousin) ==> st.child[i] != st.child[j]
}

/// `b` holds what `a` does: the newborn's relations extended, and every
/// citizen's relations kept.
pub open spec fn family_grown(a: FamilyState, b: FamilyState) -> bool {
    &&& a.child.len() <= b.child.len()
    &&& forall|i: int| 0 <= i < a.child.len() ==> #[trigger] b.child[i] == a.child[i]
    &&& b.rels.len() == a.rels.len()
    &&& forall|k: int, x: Relation| 0 <= k < a.rels.len() && #[trigger] a.rels[k].contains(x) ==> b.rels[k].contains(x)
}

proof fn lemma_push_keeps(s: Seq<Relation>, y: Relation)
    ensures
        forall|x: Relation| s.contains(x) ==> #[trigger] s.push(y).contains(x),
        s.push(y).contains(y),
{
    assert(s.push(y)[s.len() as int] == y);
    assert forall|x: Relation| s.contains(x) implies #[trigger] s.push(y).contains(x) by {
        let i = choose|i: int| 0 <= i < s.len() && s[i] == x;
        assert(s.push(y)[i] == x);
    }
}

proof fn lemma_link_pair_grown(st: FamilyState, k: int, c: Relation, b: Relation, line: Seq<char>)
    requires
        0 <= k < st.rels.len(),
    ensures
        family_grown(st, link_pair(st, k, c, b, line)),
        link_pair(st, k, c, b, line).rels[k].contains(b),
        link_pair(st, k, c, b, line).child == st.child.push(c),
{
    lemma_push_keeps(st.rels[k], b);
}

/// Links that held in `a` hold in a state `b` grown from it.
proof fn lemma_links_grown(pop: Seq<Mind>, nb: Id, base: int, a: FamilyState, b: FamilyState)
    requires
        birth_links_ok(pop, nb, base, a),
        family_grown(a, b),
    ensures
        forall|i: int| base <= i < a.child.len() ==> birth_link_ok(pop, nb, b, #[trigger] b.child[i]),
{
    assert forall|i: int| base <= i < a.child.len() implies birth_link_ok(pop, nb, b, #[trigger] b.child[i]) by {
        assert(b.child[i] == a.child[i]);
        assert(birth_link_ok(pop, nb, a, a.child[i]));
        let k = lookup(pop, a.child[i].1).unwrap();
        lemma_lookup(pop, a.child[i].1);
        assert(a.rels[k].contains((birth_inverse(a.child[i].0), nb)));
    }
}

/// A state grown by one relation `c` of the newborn, which is a link of
/// the birth and, when a sibling or cousin, new, keeps [`birth_links_ok`].
proof fn lemma_links_push(pop: Seq<Mind>, nb: Id, base: int, a: FamilyState, b: FamilyState, c: Relation)
    requires
        birth_links_ok(pop, nb, base, a),
        family_grown(a, b),
        b.child == a.child.push(c),
        birth_link_ok(pop, nb, b, c),
        (c.0 == RelationVerb::Sibling || c.0 == RelationVerb::Cousin) ==> !a.child.contains(c),
    ensures
        birth_links_ok(pop, nb, base, b),
{
    lemma_links_grown(pop, nb, base, a, b);
    assert(b.child[a.child.len() as int] == c);
    assert forall|i: int, j: int|
        #![trigger b.child[i], b.child[j]]
        0 <= i < j < b.child.len() && (b.child[i].0 == RelationVerb::Sibling || b.child[i].0
            == RelationVerb::Cousin) implies b.child[i] != b.child[j] by {
        assert(b.child[i] == a.child[i]);
        if j < a.child.len() {
            assert(b.child[j] == a.child[j]);
        } else if b.child[i] == c {
            assert(a.child.contains(c));
        }
    }
}

/// A step of the birth's links keeps [`birth_links_ok`].
proof fn lemma_family_step_links(pop: Seq<Mind>, nb: Newborn, year: nat, base: int, st: FamilyState, rel: Relation)
    requires
        birth_links_ok(pop, nb.0, base, st),
        forall|k: int| 0 <= k < pop.len() ==> (#[trigger] pop[k]).id != nb.0,
        family_step(pop, nb, year, st, rel) is Some,
    ensures
        birth_links_ok(pop, nb.0, base, family_step(pop, nb, year, st, rel).unwrap()),
{
    let verb = rel.0;
    let id = rel.1;
    let r = family_step(pop, nb, year, st, rel).unwrap();
    lemma_lookup(pop, id);
    if id == nb.0 {
    } else if verb == RelationVerb::Child {
        if !st.child.contains((RelationVerb::Sibling, id)) {
            let k = lookup(pop, id).unwrap();
            if pop[k].alive {
                let line = gained_line(nb.1, nb.2, "Sibling"@, year);
                lemma_link_pair_grown(st, k, (RelationVerb::Sibling, id), (RelationVerb::Sibling, nb.0), line);
                lemma_links_push(pop, nb.0, base, st, r, (RelationVerb::Sibling, id));
            }
        }
    } else if verb == RelationVerb::Sibling {
        if !st.child.contains((RelationVerb::Pibling, id)) {
            let k = lookup(pop, id).unwrap();
            let st1 = if pop[k].alive {
                link_pair(
                    st,
                    k,
                    (RelationVerb::Pibling, id),
                    (RelationVerb::Nibling, nb.0),
                    gained_line(nb.1, nb.2, "Nibling"@, year),
                )
            } else {
                st
            };
            if pop[k].alive {
                lemma_link_pair_grown(
                    st,
                    k,
                    (RelationVerb::Pibling, id),
                    (RelationVerb::Nibling, nb.0),
                    gained_line(nb.1, nb.2, "Nibling"@, year),
                );
                lemma_links_push(pop, nb.0, base, st, st1, (RelationVerb::Pibling, id));
            }
            assert(birth_links_ok(pop, nb.0, base, st1));
            match first_spouse(st1.rels[k]) {
                None => {},
                Some(sid) => {
                    lemma_lookup(pop, sid);
                    let sp = lookup(pop, sid).unwrap();
                    if pop[sp].alive {
                        let line = gained_line(nb.1, nb.2, "Nibling"@, year);
                        lemma_link_pair_grown(st1, sp, (RelationVerb::Pibling, pop[sp].id), (RelationVerb::Nibling, nb.0), line);
                        lemma_links_push(pop, nb.0, base, st1, r, (RelationVerb::Pibling, pop[sp].id));
                    }
                },
            }
        }
    } else if verb == RelationVerb::Parent {
        let k = lookup(pop, id).unwrap();
        if pop[k].alive {
            let line = gained_line(nb.1, nb.2, "Grandchild"@, year);
            lemma_link_pair_grown(st, k, (RelationVerb::Grandparent, id), (RelationVerb::Grandchild, nb.0), line);
            lemma_links_push(pop, nb.0, base, st, r, (RelationVerb::Grandparent, id));
        }
    } else if verb == RelationVerb::Nibling {
        let k = lookup(pop, id).unwrap();
        if pop[k].alive {
            let x = (RelationVerb::Cousin, nb.0);
            lemma_push_keeps(st.rels[k], x);
            assert(r.rels[k].contains(x));
            assert(family_grown(st, r)) by {
                assert forall|k2: int, y: Relation| 0 <= k2 < st.rels.len() && #[trigger] st.rels[k2].contains(y) implies r.rels[k2].contains(y) by {
                    if k2 != k {
                        assert(r.rels[k2] == st.rels[k2]);
                    }
                }
            }
            if st.child.contains((RelationVerb::Cousin, id)) {
                assert(r.child =~= st.child);
                lemma_links_grown(pop, nb.0, base, st, r);
            } else {
                lemma_links_push(pop, nb.0, base, st, r, (RelationVerb::Cousin, id));
            }
        }
    }
}

proof fn lemma_family_over_links(
    pop: Seq<Mind>,
    nb: Newborn,
    year: nat,
    base: int,
    st: Option<FamilyState>,
    rels: Seq<Relation>,
)
    requires
        st matches Some(s) ==> birth_links_ok(pop, nb.0, base, s),
        forall|k: int| 0 <= k < pop.len() ==> (#[trigger] pop[k]).id != nb.0,
    ensures
        family_over(pop, nb, year, st, rels) matches Some(s) ==> birth_links_ok(pop, nb.0, base, s),
    decreases rels.len(),
{
    if rels.len() > 0 {
        if let Some(s) = st {
            let next = family_step(pop, nb, year, s, rels[0]);
            if next is Some {
                lemma_family_step_links(pop, nb, year, base, s, rels[0]);
            }
            lemma_family_over_links(pop, nb, year, base, next, rels.drop_first());
        }
    }
}

proof fn lemma_over_parents_links(
    pop: Seq<Mind>,
    nb: Newborn,
    year: nat,
    base: int,
    st: Option<FamilyState>,
    pids: Seq<Id>,
)
    requires
        st matches Some(s) ==> birth_links_ok(pop, nb.0, base, s),
        forall|k: int| 0 <= k < pop.len() ==> (#[trigger] pop[k]).id != nb.0,
    ensures
        over_parents(pop, nb, year, st, pids) matches Some(s) ==> birth_links_ok(pop, nb.0, base, s),
    decreases pids.len(),
{
    if pids.len() > 0 {
        let rels = pop[lookup(pop, pids[0]).unwrap()].relations@;
        lemma_family_over_links(pop, nb, year, base, st, rels);
        lemma_over_parents_links(pop, nb, year, base, family_over(pop, nb, year, st, rels), pids.drop_first());
    }
}

/// The links a birth makes (see [`link_family_at_birth`]), for a child not
/// yet among the citizens whose relations are only to its parents: every
/// relation the child gains is to an alive sibling, pibling, grandparent or
/// cousin other than itself, who gains the inverse relation (sibling,
/// nibling, grandchild or cousin) to the child; and the child gains no
/// sibling or cousin twice.
pub proof fn lemma_birth_links(pop: Seq<Mind>, child: Mind, year: nat)
    requires
        family_at_birth(pop, child, year) is Some,
        forall|k: int| 0 <= k < pop.len() ==> (#[trigger] pop[k]).id != child.id,
        forall|i: int| 0 <= i < child.relations@.len() ==> (#[trigger] child.relations@[i]).0 == RelationVerb::Parent,
    ensures
        birth_links_ok(pop, child.id, child.relations@.len() as int, family_at_birth(pop, child, year).unwrap()),
{
    let nb: Newborn = (child.id, child.first_name@, child.last_name@);
    let s0 = family_state_of(child, pop);
    assert(birth_links_ok(pop, nb.0, child.relations@.len() as int, s0)) by {
        assert forall|i: int, j: int|
            #![trigger s0.child[i], s0.child[j]]
            0 <= i < j < s0.child.len() && (s0.child[i].0 == RelationVerb::Sibling || s0.child[i].0
                == RelationVerb::Cousin) implies s0.child[i] != s0.child[j] by {
            assert(child.relations@[i].0 == RelationVerb::Parent);
        }
    }
    lemma_over_parents_links(pop, nb, year, child.relations@.len() as int, Some(s0), parent_ids(child.relations@));
}

} // verus!
