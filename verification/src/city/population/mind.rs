//! People: who they are, what they have done, and where they live and work.
pub mod appearance;
pub mod relations;

use crate::city::population::mind::appearance::{
    description_drawn, descriptions_ready, descriptions_ready_exec, random_mind_description, PhysicalDescription,
};
use crate::language::{
    filter_words_by_tag_and, random_word_by_tag_and, tag_and_filter, word_views, Era, Word, WordType, WordView,
};
use crate::language2::names::{first_name_groups, last_name_groups, name, names_ready, noun_base_in};
use crate::language2::{opt_view, Dictionary};
use crate::random::{new_id, random_below};
use crate::city::population::mind::relations::RelationVerb;
use crate::city::building::{owner_of, owner_of_exec, Building, BuildingFloor, BuildingFloorArea};
use crate::city::institutions::visits::{
    get_habitual_institutions, habits, visit_total, visit_total_fits, visits_of, VisitType,
};
use crate::city::institutions::{
    find_institution_address, first_owned_area, first_owning_building, first_owning_building_exec, first_owning_floor,
    Institution,
};
use crate::city::locations::{find_location, find_location_exec, Location};
use crate::city::population::Population;
use crate::city::City;
use crate::random::Id;
use crate::text::{
    chars_of, decimal, decimal_chars, id_chars, id_text, push_all, push_str, str_views, string_of,
};
use vstd::prelude::*;

verus! {

/// The gender of a person.
#[derive(PartialEq, Eq, Structural, Debug, Clone, Copy)]
pub enum Gender {
    Male,
    Female,
    Ambiguous,
}

impl Gender {
    /// The name of the value, as data files and templates spell it.
    pub open spec fn label(self) -> Seq<char> {
        match self {
            Gender::Male => "Male"@,
            Gender::Female => "Female"@,
            Gender::Ambiguous => "Ambiguous"@,
        }
    }

    /// The name of the value, as data files and templates spell it.
    pub fn to_string(&self) -> (s: String)
        ensures
            s@ == self.label(),
    {
        match self {
            Gender::Male => String::from_str("Male"),
            Gender::Female => String::from_str("Female"),
            Gender::Ambiguous => String::from_str("Ambiguous"),
        }
    }

    /// Every value, in declaration order.
    pub open spec fn all() -> Seq<Gender> {
        seq![Gender::Male, Gender::Female, Gender::Ambiguous]
    }

    /// The names of all values, in declaration order.
    pub open spec fn labels() -> Seq<Seq<char>> {
        Self::all().map_values(|t: Gender| t.label())
    }

    /// Every value, in declaration order.
    pub fn iter() -> (v: Vec<Gender>)
        ensures
            v@ == Self::all(),
    {
        let v = vec![Gender::Male, Gender::Female, Gender::Ambiguous];
        assert(v@ =~= Self::all());
        v
    }
}

/// The sexuality of a person.
#[derive(PartialEq, Eq, Structural, Debug, Clone, Copy)]
pub enum Sexuality {
    Hetrosexual,
    Homosexual,
    Asexual,
    Bisexual,
}

impl Sexuality {
    /// The name of the value, as data files and templates spell it.
    pub open spec fn label(self) -> Seq<char> {
        match self {
            Sexuality::Hetrosexual => "Hetrosexual"@,
            Sexuality::Homosexual => "Homosexual"@,
            Sexuality::Asexual => "Asexual"@,
            Sexuality::Bisexual => "Bisexual"@,
        }
    }

    /// The name of the value, as data files and templates spell it.
    pub fn to_string(&self) -> (s: String)
        ensures
            s@ == self.label(),
    {
        match self {
            Sexuality::Hetrosexual => String::from_str("Hetrosexual"),
            Sexuality::Homosexual => String::from_str("Homosexual"),
            Sexuality::Asexual => String::from_str("Asexual"),
            Sexuality::Bisexual => String::from_str("Bisexual"),
        }
    }

    /// Every value, in declaration order.
    pub open spec fn all() -> Seq<Sexuality> {
        seq![Sexuality::Hetrosexual, Sexuality::Homosexual, Sexuality::Asexual, Sexuality::Bisexual]
    }

    /// The names of all values, in declaration order.
    pub open spec fn labels() -> Seq<Seq<char>> {
        Self::all().map_values(|t: Sexuality| t.label())
    }

    /// Every value, in declaration order.
    pub fn iter() -> (v: Vec<Sexuality>)
        ensures
            v@ == Self::all(),
    {
        let v = vec![Sexuality::Hetrosexual, Sexuality::Homosexual, Sexuality::Asexual, Sexuality::Bisexual];
        assert(v@ =~= Self::all());
        v
    }
}


/// A relation of one person to another: how they stand, and who the other is.
pub type Relation = (RelationVerb, Id);

/// A citizen.
pub struct Mind {
    pub id: Id,
    pub first_name: String,
    pub last_name: String,
    pub gender: Gender,
    pub age: u32,
    pub relations: Vec<Relation>,
    pub employer: Option<Id>,
    pub residence: Option<Id>,
    pub sexuality: Sexuality,
    pub alive: bool,
    pub activity_log: Vec<String>,
    pub physical_description: PhysicalDescription,
    pub institution_shopping_visits: Vec<(Id, usize)>,
    pub institution_social_visits: Vec<(Id, usize)>,
}

/// The index of the first citizen of `pop` with id `id`.
pub open spec fn lookup(pop: Seq<Mind>, id: Id) -> Option<int>
    decreases pop.len(),
{
    if pop.len() == 0 {
        None
    } else {
        match lookup(pop.drop_last(), id) {
            Some(k) => Some(k),
            None => if pop.last().id == id {
                Some(pop.len() - 1)
            } else {
                None
            },
        }
    }
}

pub proof fn lemma_lookup(pop: Seq<Mind>, id: Id)
    ensures
        lookup(pop, id) matches Some(k) ==> 0 <= k < pop.len() && pop[k].id == id && forall|j: int|
            0 <= j < k ==> (#[trigger] pop[j]).id != id,
        lookup(pop, id) is None ==> forall|j: int| 0 <= j < pop.len() ==> (#[trigger] pop[j]).id != id,
    decreases pop.len(),
{
    if pop.len() > 0 {
        lemma_lookup(pop.drop_last(), id);
        assert forall|j: int| 0 <= j < pop.len() - 1 implies pop.drop_last()[j] == pop[j] by {}
    }
}

/// Whether the population holds a citizen with id `id`.
pub open spec fn has_id(pop: Seq<Mind>, id: Id) -> bool {
    lookup(pop, id) is Some
}

/// The index of the first citizen with id `id` (see [`lookup`]).
pub fn find_index(pop: &Vec<Mind>, id: Id) -> (r: Option<usize>)
    ensures
        r matches Some(k) ==> lookup(pop@, id) == Some(k as int),
        r is None ==> lookup(pop@, id) is None,
{
    proof {
        lemma_lookup(pop@, id);
    }
    let mut i: usize = 0;
    while i < pop.len()
        invariant
            i <= pop.len(),
            forall|j: int| 0 <= j < i ==> (#[trigger] pop@[j]).id != id,
        decreases pop.len() - i,
    {
        if pop[i].id == id {
            proof {
                lemma_lookup(pop@, id);
                if lookup(pop@, id) is Some {
                    assert(lookup(pop@, id).unwrap() == i);
                }
            }
            return Some(i);
        }
        i = i + 1;
    }
    None
}

/// `b` is `a` with its relations replaced by `rels`.
pub open spec fn relations_replaced(a: Mind, b: Mind, rels: Seq<Relation>) -> bool {
    &&& b.relations@ == rels
    &&& b.id == a.id
    &&& b.first_name == a.first_name
    &&& b.last_name == a.last_name
    &&& b.gender == a.gender
    &&& b.age == a.age
    &&& b.employer == a.employer
    &&& b.residence == a.residence
    &&& b.sexuality == a.sexuality
    &&& b.alive == a.alive
    &&& b.activity_log == a.activity_log
    &&& b.physical_description == a.physical_description
    &&& b.institution_shopping_visits == a.institution_shopping_visits
    &&& b.institution_social_visits == a.institution_social_visits
}

/// `b` is `a` with one more relation and one more line in its log.
pub open spec fn relation_and_log_added(a: Mind, b: Mind, rel: Relation, line: Seq<char>) -> bool {
    &&& b.relations@ == a.relations@.push(rel)
    &&& str_views(b.activity_log@) == str_views(a.activity_log@).push(line)
    &&& b.id == a.id
    &&& b.first_name == a.first_name
    &&& b.last_name == a.last_name
    &&& b.gender == a.gender
    &&& b.age == a.age
    &&& b.employer == a.employer
    &&& b.residence == a.residence
    &&& b.sexuality == a.sexuality
    &&& b.alive == a.alive
    &&& b.physical_description == a.physical_description
    &&& b.institution_shopping_visits == a.institution_shopping_visits
    &&& b.institution_social_visits == a.institution_social_visits
}

/// Adds a relation and a line of log to citizen `k`.
pub fn add_relation_and_log(pop: &mut Vec<Mind>, k: usize, rel: Relation, line: String)
    requires
        k < old(pop).len(),
    ensures
        final(pop).len() == old(pop).len(),
        relation_and_log_added(old(pop)@[k as int], final(pop)@[k as int], rel, line@),
        forall|j: int| 0 <= j < old(pop).len() && j != k ==> final(pop)@[j] == old(pop)@[j],
{
    let mut m = pop.remove(k);
    let ghost log0 = m.activity_log@;
    m.relations.push(rel);
    m.activity_log.push(line);
    assert(str_views(m.activity_log@) =~= str_views(log0).push(line@));
    pop.insert(k, m);
}

/// Replaces the relations of citizen `k`.
pub fn set_relations(pop: &mut Vec<Mind>, k: usize, rels: Vec<Relation>)
    requires
        k < old(pop).len(),
    ensures
        final(pop).len() == old(pop).len(),
        relations_replaced(old(pop)@[k as int], final(pop)@[k as int], rels@),
        forall|j: int| 0 <= j < old(pop).len() && j != k ==> final(pop)@[j] == old(pop)@[j],
{
    let mut m = pop.remove(k);
    m.relations = rels;
    pop.insert(k, m);
}

/// A citizen as a value: every field, strings and lists by their views.
pub struct MindState {
    pub id: Id,
    pub first: Seq<char>,
    pub last: Seq<char>,
    pub gender: Gender,
    pub age: u32,
    pub rels: Seq<Relation>,
    pub employer: Option<Id>,
    pub residence: Option<Id>,
    pub sexuality: Sexuality,
    pub alive: bool,
    pub log: Seq<Seq<char>>,
    pub looks: PhysicalDescription,
    pub shopping: Seq<(Id, usize)>,
    pub social: Seq<(Id, usize)>,
}

/// The citizen `m` as a value.
pub open spec fn state_of_mind(m: Mind) -> MindState {
    MindState {
        id: m.id,
        first: m.first_name@,
        last: m.last_name@,
        gender: m.gender,
        age: m.age,
        rels: m.relations@,
        employer: m.employer,
        residence: m.residence,
        sexuality: m.sexuality,
        alive: m.alive,
        log: str_views(m.activity_log@),
        looks: m.physical_description,
        shopping: m.institution_shopping_visits@,
        social: m.institution_social_visits@,
    }
}

/// The citizens as values, by index.
pub open spec fn states(pop: Seq<Mind>) -> Seq<MindState> {
    pop.map_values(|m: Mind| state_of_mind(m))
}

/// The citizen `m` with one more line in its log.
pub open spec fn logged(m: MindState, line: Seq<char>) -> MindState {
    MindState { log: m.log.push(line), ..m }
}

/// The start of a dated log line about `m`: `Year: <year> - <first> <last>`.
pub open spec fn log_head(year: nat, m: MindState) -> Seq<char> {
    "Year: "@ + decimal(year) + " - "@ + m.first + " "@ + m.last
}

/// ` aged <age>`, for a log line about `m`.
pub open spec fn aged(m: MindState) -> Seq<char> {
    " aged "@ + decimal(m.age as nat)
}

fn log_head_exec(year: usize, mind: &Mind) -> (r: Vec<char>)
    ensures
        r@ == log_head(year as nat, state_of_mind(*mind)),
{
    let mut out: Vec<char> = Vec::new();
    push_str(&mut out, "Year: ");
    let y = decimal_chars(year as u64);
    push_all(&mut out, &y);
    push_str(&mut out, " - ");
    push_str(&mut out, mind.first_name.as_str());
    push_str(&mut out, " ");
    push_str(&mut out, mind.last_name.as_str());
    out
}

fn push_aged(out: &mut Vec<char>, mind: &Mind)
    ensures
        final(out)@ == old(out)@ + aged(state_of_mind(*mind)),
{
    push_str(out, " aged ");
    let a = decimal_chars(mind.age as u64);
    push_all(out, &a);
}

fn push_log(mind: &mut Mind, line: &Vec<char>)
    ensures
        state_of_mind(*final(mind)) == logged(state_of_mind(*old(mind)), line@),
{
    let ghost log0 = mind.activity_log@;
    mind.activity_log.push(string_of(line));
    assert(str_views(mind.activity_log@) =~= str_views(log0).push(line@));
}

/// Logs that `mind` gained `relation` as a `verb`: `Year: <year> - <first>
/// <last> aged <age> gained <first> <last> as a <verb>`.
pub fn add_new_relation_to_mind_log<'a>(
    mind: &'a mut Mind,
    year: usize,
    verb: RelationVerb,
    relation: &Mind,
) -> (r: &'a mut Mind)
    ensures
        state_of_mind(*r) == logged(
            state_of_mind(*old(mind)),
            log_head(year as nat, state_of_mind(*old(mind))) + aged(state_of_mind(*old(mind)))
                + " gained "@ + relation.first_name@ + " "@ + relation.last_name@ + " as a "@
                + verb.label(),
        ),
        *final(mind) == *final(r),
{
    let mut out = log_head_exec(year, mind);
    push_aged(&mut out, mind);
    push_str(&mut out, " gained ");
    push_str(&mut out, relation.first_name.as_str());
    push_str(&mut out, " ");
    push_str(&mut out, relation.last_name.as_str());
    push_str(&mut out, " as a ");
    let v = verb.to_string();
    push_str(&mut out, v.as_str());
    push_log(mind, &out);
    mind
}

/// Logs a romantic event: `Year: <year> - <first> <last> aged <age>
/// <action> <verb> <first> <last>`.
pub fn add_romatic_event_to_mind_log<'a>(
    mind: &'a mut Mind,
    year: usize,
    verb: RelationVerb,
    relation: &Mind,
    action: &str,
) -> (r: &'a mut Mind)
    ensures
        state_of_mind(*r) == logged(
            state_of_mind(*old(mind)),
            log_head(year as nat, state_of_mind(*old(mind))) + aged(state_of_mind(*old(mind)))
                + " "@ + action@ + " "@ + verb.label() + " "@ + relation.first_name@ + " "@
                + relation.last_name@,
        ),
        *final(mind) == *final(r),
{
    let mut out = log_head_exec(year, mind);
    push_aged(&mut out, mind);
    push_str(&mut out, " ");
    push_str(&mut out, action);
    push_str(&mut out, " ");
    let v = verb.to_string();
    push_str(&mut out, v.as_str());
    push_str(&mut out, " ");
    push_str(&mut out, relation.first_name.as_str());
    push_str(&mut out, " ");
    push_str(&mut out, relation.last_name.as_str());
    push_log(mind, &out);
    mind
}

/// The log line of a move: `Year: <year> - <first> <last> aged <age> moved
/// into <area> <building> in <location>`.
pub open spec fn residence_line(
    year: nat,
    m: MindState,
    area: Seq<char>,
    building: Seq<char>,
    location: Seq<char>,
) -> Seq<char> {
    log_head(year, m) + aged(m) + " moved into "@ + area + " "@ + building + " in "@ + location
}

/// Logs that `mind` moved into an area (see [`residence_line`]).
pub fn add_residence_to_mind_log<'a>(
    mind: &'a mut Mind,
    year: usize,
    area_name: &str,
    building_name: &str,
    location_name: &str,
) -> (r: &'a mut Mind)
    ensures
        state_of_mind(*r) == logged(
            state_of_mind(*old(mind)),
            residence_line(
                year as nat,
                state_of_mind(*old(mind)),
                area_name@,
                building_name@,
                location_name@,
            ),
        ),
        *final(mind) == *final(r),
{
    let mut out = log_head_exec(year, mind);
    push_aged(&mut out, mind);
    push_str(&mut out, " moved into ");
    push_str(&mut out, area_name);
    push_str(&mut out, " ");
    push_str(&mut out, building_name);
    push_str(&mut out, " in ");
    push_str(&mut out, location_name);
    push_log(mind, &out);
    mind
}

/// Logs a birth: `Year: <year> - <first> <last> born to <first> <last> and
/// <first> <last>`.
pub fn add_birth_to_mind_log<'a>(
    mind: &'a mut Mind,
    year: usize,
    parent_1: &Mind,
    parent_2: &Mind,
) -> (r: &'a mut Mind)
    ensures
        state_of_mind(*r) == logged(
            state_of_mind(*old(mind)),
            log_head(year as nat, state_of_mind(*old(mind))) + " born to "@ + parent_1.first_name@
                + " "@ + parent_1.last_name@ + " and "@ + parent_2.first_name@ + " "@
                + parent_2.last_name@,
        ),
        *final(mind) == *final(r),
{
    let mut out = log_head_exec(year, mind);
    push_str(&mut out, " born to ");
    push_str(&mut out, parent_1.first_name.as_str());
    push_str(&mut out, " ");
    push_str(&mut out, parent_1.last_name.as_str());
    push_str(&mut out, " and ");
    push_str(&mut out, parent_2.first_name.as_str());
    push_str(&mut out, " ");
    push_str(&mut out, parent_2.last_name.as_str());
    push_log(mind, &out);
    mind
}

/// The log line of a work event: `Year: <year> - <first> <last> aged <age>
/// <what><company>`.
pub open spec fn work_line(year: nat, m: MindState, what: Seq<char>, company: Seq<char>) -> Seq<char> {
    log_head(year, m) + aged(m) + what + company
}

fn add_work_line<'a>(mind: &'a mut Mind, year: usize, what: &str, company_name: &str) -> (r:
    &'a mut Mind)
    ensures
        state_of_mind(*r) == logged(
            state_of_mind(*old(mind)),
            work_line(year as nat, state_of_mind(*old(mind)), what@, company_name@),
        ),
        *final(mind) == *final(r),
{
    let mut out = log_head_exec(year, mind);
    push_aged(&mut out, mind);
    push_str(&mut out, what);
    push_str(&mut out, company_name);
    push_log(mind, &out);
    mind
}

/// Logs that `mind` started work (see [`work_line`]): `... started work at
/// <company>`.
pub fn add_new_workplace_to_mind_log<'a>(mind: &'a mut Mind, year: usize, company_name: &str) -> (r:
    &'a mut Mind)
    ensures
        state_of_mind(*r) == logged(
            state_of_mind(*old(mind)),
            work_line(year as nat, state_of_mind(*old(mind)), " started work at "@, company_name@),
        ),
        *final(mind) == *final(r),
{
    let r = add_work_line(mind, year, " started work at ", company_name);
    proof {
        reveal_strlit(" started work at ");
    }
    r
}

/// Logs that `mind` left a company (see [`work_line`]): `... left company
/// <company>`.
pub fn add_leaving_workplace_to_mind_log<'a>(mind: &'a mut Mind, year: usize, company_name: &str) -> (r:
    &'a mut Mind)
    ensures
        state_of_mind(*r) == logged(
            state_of_mind(*old(mind)),
            work_line(year as nat, state_of_mind(*old(mind)), " left company "@, company_name@),
        ),
        *final(mind) == *final(r),
{
    let r = add_work_line(mind, year, " left company ", company_name);
    proof {
        reveal_strlit(" left company ");
    }
    r
}

/// Logs that `mind` founded a company (see [`work_line`]): `... created the
/// company <company>`.
pub fn add_startup_creation_to_mind_log<'a>(mind: &'a mut Mind, year: usize, company_name: &str) -> (r:
    &'a mut Mind)
    ensures
        state_of_mind(*r) == logged(
            state_of_mind(*old(mind)),
            work_line(year as nat, state_of_mind(*old(mind)), " created the company "@, company_name@),
        ),
        *final(mind) == *final(r),
{
    let r = add_work_line(mind, year, " created the company ", company_name);
    proof {
        reveal_strlit(" created the company ");
    }
    r
}

} // verus!

verus! {

/// How a citizen's name is listed: `<first> <last> ` and `  (Dead)` for the
/// dead; an id of no citizen is listed as `Missing ID: <id>` (see
/// [`id_text`]).
pub open spec fn name_text(id: Id, pop: Seq<Mind>) -> Seq<char> {
    match lookup(pop, id) {
        Some(k) => pop[k].first_name@ + " "@ + pop[k].last_name@ + " "@ + (if pop[k].alive {
            ""@
        } else {
            "  (Dead)"@
        }),
        None => "Missing ID: "@ + id_text(id),
    }
}

/// The listed name of the citizen with id `id` (see [`name_text`]).
pub fn get_name_from_id(id: &Id, population: &Population) -> (r: String)
    ensures
        r@ == name_text(*id, population@),
{
    let mut out: Vec<char> = Vec::new();
    match find_index(population, *id) {
        Some(k) => {
            proof {
                lemma_lookup(population@, *id);
            }
            let m = &population[k];
            push_str(&mut out, m.first_name.as_str());
            push_str(&mut out, " ");
            push_str(&mut out, m.last_name.as_str());
            push_str(&mut out, " ");
            if m.alive {
                push_str(&mut out, "");
            } else {
                push_str(&mut out, "  (Dead)");
            }
        },
        None => {
            push_str(&mut out, "Missing ID: ");
            let t = id_chars(*id);
            push_all(&mut out, &t);
        },
    }
    string_of(&out)
}

/// The employer of `mind`: the first institution with the employer's id,
/// when it has one.
pub fn find_employer<'a>(mind: &Mind, city: &'a City) -> (r: Option<&'a Institution>)
    ensures
        match owner_of(city.institutions@, mind.employer) {
            Some(i) => r == Some(&city.institutions@[i]),
            None => r is None,
        },
{
    match owner_of_exec(&city.institutions, mind.employer) {
        Some(i) => Some(&city.institutions[i]),
        None => None,
    }
}

/// The index of the first area with id `id`.
pub open spec fn first_area_with_id(areas: Seq<BuildingFloorArea>, id: Id) -> Option<int>
    decreases areas.len(),
{
    if areas.len() == 0 {
        None
    } else {
        match first_area_with_id(areas.drop_last(), id) {
            Some(i) => Some(i),
            None => if areas.last().id == id {
                Some(areas.len() - 1)
            } else {
                None
            },
        }
    }
}

/// The index of the first floor with an area with id `id`.
pub open spec fn first_floor_with_area(floors: Seq<BuildingFloor>, id: Id) -> Option<int>
    decreases floors.len(),
{
    if floors.len() == 0 {
        None
    } else {
        match first_floor_with_area(floors.drop_last(), id) {
            Some(i) => Some(i),
            None => if first_area_with_id(floors.last().areas@, id) is Some {
                Some(floors.len() - 1)
            } else {
                None
            },
        }
    }
}

/// The index of the first building with an area with id `id`.
pub open spec fn first_building_with_area(bs: Seq<Building>, id: Id) -> Option<int>
    decreases bs.len(),
{
    if bs.len() == 0 {
        None
    } else {
        match first_building_with_area(bs.drop_last(), id) {
            Some(i) => Some(i),
            None => if first_floor_with_area(bs.last().floors@, id) is Some {
                Some(bs.len() - 1)
            } else {
                None
            },
        }
    }
}

/// The home of `mind` can be found: it has a residence, an area of some
/// building, and that building stands at a location of the city.
pub open spec fn address_known(mind: Mind, city: City) -> bool {
    mind.residence matches Some(r) && first_building_with_area(city.buildings@, r) matches Some(b)
        && city.buildings@[b].location_id matches Some(l) && find_location(city.areas@, l) is Some
}

proof fn lemma_first_area_with_id(s: Seq<BuildingFloorArea>, id: Id)
    ensures
        first_area_with_id(s, id) matches Some(i) ==> 0 <= i < s.len() && s[i].id == id && forall|j: int|
            0 <= j < i ==> (#[trigger] s[j]).id != id,
        first_area_with_id(s, id) is None ==> forall|j: int| 0 <= j < s.len() ==> (#[trigger] s[j]).id != id,
    decreases s.len(),
{
    if s.len() > 0 {
        lemma_first_area_with_id(s.drop_last(), id);
        assert forall|j: int| 0 <= j < s.len() - 1 implies s.drop_last()[j] == s[j] by {}
    }
}

proof fn lemma_first_floor_with_area(s: Seq<BuildingFloor>, id: Id)
    ensures
        first_floor_with_area(s, id) matches Some(i) ==> 0 <= i < s.len() && first_area_with_id(s[i].areas@, id)
            is Some && forall|j: int| 0 <= j < i ==> first_area_with_id((#[trigger] s[j]).areas@, id) is None,
        first_floor_with_area(s, id) is None ==> forall|j: int|
            0 <= j < s.len() ==> first_area_with_id((#[trigger] s[j]).areas@, id) is None,
    decreases s.len(),
{
    if s.len() > 0 {
        lemma_first_floor_with_area(s.drop_last(), id);
        assert forall|j: int| 0 <= j < s.len() - 1 implies s.drop_last()[j] == s[j] by {}
    }
}

proof fn lemma_first_building_with_area(s: Seq<Building>, id: Id)
    ensures
        first_building_with_area(s, id) matches Some(i) ==> 0 <= i < s.len() && first_floor_with_area(
            s[i].floors@,
            id,
        ) is Some && forall|j: int|
            0 <= j < i ==> first_floor_with_area((#[trigger] s[j]).floors@, id) is None,
        first_building_with_area(s, id) is None ==> forall|j: int|
            0 <= j < s.len() ==> first_floor_with_area((#[trigger] s[j]).floors@, id) is None,
    decreases s.len(),
{
    if s.len() > 0 {
        lemma_first_building_with_area(s.drop_last(), id);
        assert forall|j: int| 0 <= j < s.len() - 1 implies s.drop_last()[j] == s[j] by {}
    }
}

fn first_area_with_id_exec(areas: &Vec<BuildingFloorArea>, id: Id) -> (r: Option<usize>)
    ensures
        r matches Some(i) ==> first_area_with_id(areas@, id) == Some(i as int),
        r is None ==> first_area_with_id(areas@, id) is None,
{
    proof {
        lemma_first_area_with_id(areas@, id);
    }
    let mut i: usize = 0;
    while i < areas.len()
        invariant
            i <= areas.len(),
            forall|j: int| 0 <= j < i ==> (#[trigger] areas@[j]).id != id,
        decreases areas.len() - i,
    {
        if areas[i].id == id {
            proof {
                lemma_first_area_with_id(areas@, id);
            }
            return Some(i);
        }
        i = i + 1;
    }
    None
}

fn first_floor_with_area_exec(floors: &Vec<BuildingFloor>, id: Id) -> (r: Option<usize>)
    ensures
        r matches Some(i) ==> first_floor_with_area(floors@, id) == Some(i as int),
        r is None ==> first_floor_with_area(floors@, id) is None,
{
    proof {
        lemma_first_floor_with_area(floors@, id);
    }
    let mut i: usize = 0;
    while i < floors.len()
        invariant
            i <= floors.len(),
            forall|j: int| 0 <= j < i ==> first_area_with_id((#[trigger] floors@[j]).areas@, id) is None,
        decreases floors.len() - i,
    {
        if first_area_with_id_exec(&floors[i].areas, id).is_some() {
            proof {
                lemma_first_floor_with_area(floors@, id);
            }
            return Some(i);
        }
        i = i + 1;
    }
    None
}

fn first_building_with_area_exec(bs: &Vec<Building>, id: Id) -> (r: Option<usize>)
    ensures
        r matches Some(i) ==> first_building_with_area(bs@, id) == Some(i as int),
        r is None ==> first_building_with_area(bs@, id) is None,
{
    proof {
        lemma_first_building_with_area(bs@, id);
    }
    let mut i: usize = 0;
    while i < bs.len()
        invariant
            i <= bs.len(),
            forall|j: int| 0 <= j < i ==> first_floor_with_area((#[trigger] bs@[j]).floors@, id) is None,
        decreases bs.len() - i,
    {
        if first_floor_with_area_exec(&bs[i].floors, id).is_some() {
            proof {
                lemma_first_building_with_area(bs@, id);
            }
            return Some(i);
        }
        i = i + 1;
    }
    None
}

/// The home of `mind`: the first building with an area with the id of its
/// residence, that area (the first such of the building's first such
/// floor), and the building's location (see [`address_known`]).
pub fn find_address<'a>(mind: &Mind, city: &'a City) -> (r: (&'a Building, &'a BuildingFloorArea, &'a Location))
    requires
        address_known(*mind, *city),
    ensures
        ({
            let id = mind.residence.unwrap();
            let b = first_building_with_area(city.buildings@, id).unwrap();
            let building = city.buildings@[b];
            let f = first_floor_with_area(building.floors@, id).unwrap();
            let a = first_area_with_id(building.floors@[f].areas@, id).unwrap();
            let l = find_location(city.areas@, building.location_id.unwrap()).unwrap();
            &&& *r.0 == building
            &&& *r.1 == building.floors@[f].areas@[a]
            &&& *r.2 == city.areas@[l]
        }),
{
    let id = mind.residence.unwrap();
    proof {
        lemma_first_building_with_area(city.buildings@, id);
    }
    let b = first_building_with_area_exec(&city.buildings, id).unwrap();
    let building = &city.buildings[b];
    proof {
        lemma_first_floor_with_area(building.floors@, id);
    }
    let f = first_floor_with_area_exec(&building.floors, id).unwrap();
    let floor = &building.floors[f];
    proof {
        lemma_first_area_with_id(floor.areas@, id);
    }
    let a = first_area_with_id_exec(&floor.areas, id).unwrap();
    let l = find_location_exec(&city.areas, building.location_id.unwrap()).unwrap();
    (building, &floor.areas[a], &city.areas[l])
}

} // verus!

verus! {

/// The place of a relation's name in alphabetical order of the names
/// (`Acquaintance` first, `Spouse` last).
pub open spec fn verb_rank(v: RelationVerb) -> nat {
    match v {
        RelationVerb::Acquaintance => 0,
        RelationVerb::Child => 1,
        RelationVerb::CloseFriend => 2,
        RelationVerb::Colleague => 3,
        RelationVerb::Cousin => 4,
        RelationVerb::Diety => 5,
        RelationVerb::Employee => 6,
        RelationVerb::Employer => 7,
        RelationVerb::ExPartner => 8,
        RelationVerb::ExSpouse => 9,
        RelationVerb::Friend => 10,
        RelationVerb::Grandchild => 11,
        RelationVerb::Grandparent => 12,
        RelationVerb::Grudge => 13,
        RelationVerb::LatePartner => 14,
        RelationVerb::LateSpouse => 15,
        RelationVerb::Nibling => 16,
        RelationVerb::Parent => 17,
        RelationVerb::Partner => 18,
        RelationVerb::Pibling => 19,
        RelationVerb::Priest => 20,
        RelationVerb::Sibling => 21,
        RelationVerb::Spouse => 22,
    }
}

fn verb_rank_exec(v: RelationVerb) -> (r: u64)
    ensures
        r == verb_rank(v),
{
    match v {
        RelationVerb::Acquaintance => 0,
        RelationVerb::Child => 1,
        RelationVerb::CloseFriend => 2,
        RelationVerb::Colleague => 3,
        RelationVerb::Cousin => 4,
        RelationVerb::Diety => 5,
        RelationVerb::Employee => 6,
        RelationVerb::Employer => 7,
        RelationVerb::ExPartner => 8,
        RelationVerb::ExSpouse => 9,
        RelationVerb::Friend => 10,
        RelationVerb::Grandchild => 11,
        RelationVerb::Grandparent => 12,
        RelationVerb::Grudge => 13,
        RelationVerb::LatePartner => 14,
        RelationVerb::LateSpouse => 15,
        RelationVerb::Nibling => 16,
        RelationVerb::Parent => 17,
        RelationVerb::Partner => 18,
        RelationVerb::Pibling => 19,
        RelationVerb::Priest => 20,
        RelationVerb::Sibling => 21,
        RelationVerb::Spouse => 22,
    }
}

/// The line of a relation: `  <verb>: <name>` (see [`name_text`]).
pub open spec fn relation_line(rel: Relation, pop: Seq<Mind>) -> Seq<char> {
    "  "@ + rel.0.label() + ": "@ + name_text(rel.1, pop) + "\n"@
}

/// The lines of the relations whose verb has rank `r`, in order.
pub open spec fn rank_lines(rels: Seq<Relation>, pop: Seq<Mind>, r: nat) -> Seq<char>
    decreases rels.len(),
{
    if rels.len() == 0 {
        Seq::empty()
    } else {
        rank_lines(rels.drop_last(), pop, r) + if verb_rank(rels.last().0) == r {
            relation_line(rels.last(), pop)
        } else {
            Seq::empty()
        }
    }
}

/// The lines of the relations sorted by the name of the verb, relations of
/// one verb in their order (a stable sort), over the ranks below `upto`.
pub open spec fn sorted_relation_lines(rels: Seq<Relation>, pop: Seq<Mind>, upto: nat) -> Seq<char>
    decreases upto,
{
    if upto == 0 {
        Seq::empty()
    } else {
        sorted_relation_lines(rels, pop, (upto - 1) as nat) + rank_lines(rels, pop, (upto - 1) as nat)
    }
}

/// The lines of the habitual institutions, by the first institution with
/// each id.
pub open spec fn habit_lines(ids: Seq<Id>, insts: Seq<Institution>) -> Seq<char>
    decreases ids.len(),
{
    if ids.len() == 0 {
        Seq::empty()
    } else {
        habit_lines(ids.drop_last(), insts) + "  "@ + insts[owner_of(insts, Some(ids.last())).unwrap()].name@
            + "\n"@
    }
}

/// A section of habitual institutions (see [`habits`]): a heading with the
/// written share of habitual visits when there are any, their names, and a
/// rule.
pub open spec fn habit_section(
    mind: Mind,
    kind: VisitType,
    insts: Seq<Institution>,
    heading: Seq<char>,
    scale: Seq<char>,
) -> Seq<char> {
    let ids = habits(visits_of(mind, kind)).0;
    (if ids.len() > 0 {
        heading + " ("@ + scale + "):\n"@
    } else {
        Seq::empty()
    }) + habit_lines(ids, insts) + "===========\n"@
}

/// The description line of `d`.
pub open spec fn description_line(d: PhysicalDescription) -> Seq<char> {
    "Description: They have "@ + d.hair_adjectives@[0]@ + ", "@ + d.hair_colour@ + " "@ + d.hair_length@
        + " hair and "@ + d.eye_colour@ + " eyes. They are "@ + d.height_adjective@ + " with a "@
        + d.build_adjective@ + " build.\n"@
}

/// The employer lines of `mind`: the employer with its area, building and
/// location, and then, when it has a home, its home; or `Employer: None`.
pub open spec fn employer_lines(mind: Mind, city: City) -> Seq<char> {
    match owner_of(city.institutions@, mind.employer) {
        Some(i) => {
            let inst = city.institutions@[i];
            let b = first_owning_building(city.buildings@, inst.id).unwrap();
            let building = city.buildings@[b];
            let f = first_owning_floor(building.floors@, inst.id).unwrap();
            let a = first_owned_area(building.floors@[f].areas@, inst.id).unwrap();
            let l = find_location(city.areas@, building.location_id.unwrap()).unwrap();
            "Employer: "@ + inst.name@ + " at "@ + building.floors@[f].areas@[a].name@ + " "@
                + building.name@ + " in "@ + city.areas@[l].name@ + "\n"@ + match mind.residence {
                Some(r) => {
                    let hb = first_building_with_area(city.buildings@, r).unwrap();
                    let home = city.buildings@[hb];
                    let hf = first_floor_with_area(home.floors@, r).unwrap();
                    let ha = first_area_with_id(home.floors@[hf].areas@, r).unwrap();
                    let hl = find_location(city.areas@, home.location_id.unwrap()).unwrap();
                    "Lives at: "@ + home.floors@[hf].areas@[ha].name@ + " "@ + home.name@ + " in "@
                        + city.areas@[hl].name@ + "\n"@
                },
                None => Seq::empty(),
            }
        },
        None => "Employer: None\n"@,
    }
}

/// The listing of a citizen: name, gender, age, looks, work and home,
/// relations (sorted by the name of the verb, see
/// [`sorted_relation_lines`]), and habitual shops and social places, each
/// heading with the written share of habitual visits given.
pub open spec fn mind_text(mind: Mind, city: City, shopping_scale: Seq<char>, social_scale: Seq<char>) -> Seq<
    char,
> {
    mind_head(mind) + employer_lines(mind, city) + relations_text(mind, city.citizens@) + habit_section(
        mind,
        VisitType::Shopping,
        city.institutions@,
        "Habitual Shopping Institutions"@,
        shopping_scale,
    ) + habit_section(mind, VisitType::Social, city.institutions@, "Habitual Social Institutions"@, social_scale)
}

/// The habitual institutions of `mind` of a kind are all institutions of
/// the city.
pub open spec fn habits_known(mind: Mind, kind: VisitType, insts: Seq<Institution>) -> bool {
    &&& visit_total(visits_of(mind, kind)) <= usize::MAX
    &&& forall|k: int|
        0 <= k < habits(visits_of(mind, kind)).0.len() ==> owner_of(
            insts,
            Some(#[trigger] habits(visits_of(mind, kind)).0[k]),
        ) is Some
}

/// Everything the listing of `mind` looks up is there: a hair adjective;
/// the employer's area, building and location, and the home, when the
/// employer is known; and the habitual institutions.
pub open spec fn mind_printable(mind: Mind, city: City) -> bool {
    &&& mind.physical_description.hair_adjectives@.len() > 0
    &&& match owner_of(city.institutions@, mind.employer) {
        Some(i) => {
            &&& first_owning_building(city.buildings@, city.institutions@[i].id) matches Some(b)
                && city.buildings@[b].location_id matches Some(l) && find_location(city.areas@, l) is Some
            &&& mind.residence is Some ==> address_known(mind, city)
        },
        None => true,
    }
    &&& habits_known(mind, VisitType::Shopping, city.institutions@)
    &&& habits_known(mind, VisitType::Social, city.institutions@)
}

pub(crate) fn habits_known_exec(mind: &Mind, kind: VisitType, insts: &Vec<Institution>) -> (b: bool)
    ensures
        b == habits_known(*mind, kind, insts@),
{
    let visits = match kind {
        VisitType::Shopping => &mind.institution_shopping_visits,
        VisitType::Social => &mind.institution_social_visits,
    };
    if !visit_total_fits(visits) {
        return false;
    }
    let (ids, _top, _total) = get_habitual_institutions(mind, &kind);
    let mut k: usize = 0;
    while k < ids.len()
        invariant
            k <= ids.len(),
            ids@ == habits(visits_of(*mind, kind)).0,
            forall|j: int| 0 <= j < k ==> owner_of(insts@, Some(#[trigger] ids@[j])) is Some,
        decreases ids.len() - k,
    {
        if owner_of_exec(insts, Some(ids[k])).is_none() {
            return false;
        }
        k = k + 1;
    }
    true
}

/// Whether the home of `mind` can be found (see [`address_known`]).
pub fn is_address_known(mind: &Mind, city: &City) -> (b: bool)
    ensures
        b == address_known(*mind, *city),
{
    match mind.residence {
        None => false,
        Some(r) => match first_building_with_area_exec(&city.buildings, r) {
            None => false,
            Some(b) => {
                proof {
                    lemma_first_building_with_area(city.buildings@, r);
                }
                match city.buildings[b].location_id {
                    None => false,
                    Some(l) => find_location_exec(&city.areas, l).is_some(),
                }
            },
        },
    }
}

/// Whether everything the listing of `mind` looks up is there (see
/// [`mind_printable`]).
pub fn is_printable(mind: &Mind, city: &City) -> (b: bool)
    ensures
        b == mind_printable(*mind, *city),
{
    if mind.physical_description.hair_adjectives.len() == 0 {
        return false;
    }
    match owner_of_exec(&city.institutions, mind.employer) {
        Some(i) => {
            match first_owning_building_exec(&city.buildings, city.institutions[i].id) {
                None => {
                    return false;
                },
                Some(b) => match city.buildings[b].location_id {
                    None => {
                        return false;
                    },
                    Some(l) => {
                        if find_location_exec(&city.areas, l).is_none() {
                            return false;
                        }
                    },
                },
            }
            if mind.residence.is_some() && !is_address_known(mind, city) {
                return false;
            }
        },
        None => {},
    }
    habits_known_exec(mind, VisitType::Shopping, &city.institutions) && habits_known_exec(
        mind,
        VisitType::Social,
        &city.institutions,
    )
}

fn push_rank_lines(out: &mut Vec<char>, rels: &Vec<Relation>, pop: &Vec<Mind>, r: u64)
    ensures
        final(out)@ == old(out)@ + rank_lines(rels@, pop@, r as nat),
{
    let ghost o = out@;
    let mut i: usize = 0;
    while i < rels.len()
        invariant
            i <= rels.len(),
            out@ == o + rank_lines(rels@.take(i as int), pop@, r as nat),
        decreases rels.len() - i,
    {
        assert(rels@.take(i + 1).drop_last() =~= rels@.take(i as int));
        let ghost before = out@;
        let (verb, id) = rels[i];
        if verb_rank_exec(verb) == r {
            push_str(out, "  ");
            let v = verb.to_string();
            push_str(out, v.as_str());
            push_str(out, ": ");
            let name = get_name_from_id(&id, pop);
            push_str(out, name.as_str());
            push_str(out, "\n");
        }
        i = i + 1;
        assert(out@ =~= o + rank_lines(rels@.take(i as int), pop@, r as nat));
    }
    assert(rels@.take(rels.len() as int) =~= rels@);
}

fn push_habits(out: &mut Vec<char>, mind: &Mind, city: &City, kind: VisitType, heading: &str, scale: &str)
    requires
        habits_known(*mind, kind, city.institutions@),
    ensures
        final(out)@ == old(out)@ + habit_section(*mind, kind, city.institutions@, heading@, scale@),
{
    let ghost o = out@;
    let (ids, _top, _total) = get_habitual_institutions(mind, &kind);
    if ids.len() > 0 {
        push_str(out, heading);
        push_str(out, " (");
        push_str(out, scale);
        push_str(out, "):\n");
    }
    let ghost head = out@;
    let mut i: usize = 0;
    while i < ids.len()
        invariant
            i <= ids.len(),
            ids@ == habits(visits_of(*mind, kind)).0,
            habits_known(*mind, kind, city.institutions@),
            out@ == head + habit_lines(ids@.take(i as int), city.institutions@),
        decreases ids.len() - i,
    {
        assert(ids@.take(i + 1).drop_last() =~= ids@.take(i as int));
        assert(owner_of(city.institutions@, Some(ids@[i as int])) is Some);
        let k = owner_of_exec(&city.institutions, Some(ids[i])).unwrap();
        push_str(out, "  ");
        push_str(out, city.institutions[k].name.as_str());
        push_str(out, "\n");
        i = i + 1;
        assert(out@ =~= head + habit_lines(ids@.take(i as int), city.institutions@));
    }
    assert(ids@.take(ids.len() as int) =~= ids@);
    push_str(out, "===========\n");
}

/// The opening lines of a listing: rule, name, gender, age and looks.
pub open spec fn mind_head(mind: Mind) -> Seq<char> {
    "====Mind===\n"@ + "Name: "@ + mind.first_name@ + " "@ + mind.last_name@ + "\n"@ + "Gender: "@
        + mind.gender.label() + "\n"@ + "Age: "@ + decimal(mind.age as nat) + "\n"@ + description_line(
        mind.physical_description,
    )
}

/// The relation lines of a listing.
pub open spec fn relations_text(mind: Mind, pop: Seq<Mind>) -> Seq<char> {
    "Relations:\n"@ + (if mind.relations@.len() == 0 {
        "  None\n"@
    } else {
        sorted_relation_lines(mind.relations@, pop, 23)
    })
}

fn push_description(out: &mut Vec<char>, d: &PhysicalDescription)
    requires
        d.hair_adjectives@.len() > 0,
    ensures
        final(out)@ == old(out)@ + description_line(*d),
{
    let ghost o = out@;
    push_str(out, "Description: They have ");
    push_str(out, d.hair_adjectives[0].as_str());
    push_str(out, ", ");
    push_str(out, d.hair_colour.as_str());
    push_str(out, " ");
    push_str(out, d.hair_length.as_str());
    push_str(out, " hair and ");
    push_str(out, d.eye_colour.as_str());
    push_str(out, " eyes. They are ");
    let ghost mid = out@;
    push_str(out, d.height_adjective.as_str());
    push_str(out, " with a ");
    push_str(out, d.build_adjective.as_str());
    push_str(out, " build.\n");
    assert(out@ =~= mid + d.height_adjective@ + " with a "@ + d.build_adjective@ + " build.\n"@);
    assert(mid =~= o + "Description: They have "@ + d.hair_adjectives@[0]@ + ", "@ + d.hair_colour@ + " "@
        + d.hair_length@ + " hair and "@ + d.eye_colour@ + " eyes. They are "@);
    assert(out@ =~= o + description_line(*d));
}

fn push_head(out: &mut Vec<char>, mind: &Mind)
    requires
        mind.physical_description.hair_adjectives@.len() > 0,
    ensures
        final(out)@ == old(out)@ + mind_head(*mind),
{
    let ghost o = out@;
    push_str(out, "====Mind===\n");
    push_str(out, "Name: ");
    push_str(out, mind.first_name.as_str());
    push_str(out, " ");
    push_str(out, mind.last_name.as_str());
    push_str(out, "\n");
    let ghost mid = out@;
    push_str(out, "Gender: ");
    let g = mind.gender.to_string();
    push_str(out, g.as_str());
    push_str(out, "\n");
    push_str(out, "Age: ");
    let a = decimal_chars(mind.age as u64);
    push_all(out, &a);
    push_str(out, "\n");
    let ghost mid2 = out@;
    push_description(out, &mind.physical_description);
    assert(mid =~= o + "====Mind===\n"@ + "Name: "@ + mind.first_name@ + " "@ + mind.last_name@ + "\n"@);
    assert(mid2 =~= mid + "Gender: "@ + mind.gender.label() + "\n"@ + "Age: "@ + decimal(mind.age as nat)
        + "\n"@);
    assert(out@ =~= o + mind_head(*mind));
}

fn push_home(out: &mut Vec<char>, mind: &Mind, city: &City)
    requires
        mind.residence is Some ==> address_known(*mind, *city),
    ensures
        final(out)@ == old(out)@ + match mind.residence {
            Some(r) => {
                let hb = first_building_with_area(city.buildings@, r).unwrap();
                let home = city.buildings@[hb];
                let hf = first_floor_with_area(home.floors@, r).unwrap();
                let ha = first_area_with_id(home.floors@[hf].areas@, r).unwrap();
                let hl = find_location(city.areas@, home.location_id.unwrap()).unwrap();
                "Lives at: "@ + home.floors@[hf].areas@[ha].name@ + " "@ + home.name@ + " in "@
                    + city.areas@[hl].name@ + "\n"@
            },
            None => Seq::empty(),
        },
{
    let ghost o = out@;
    if mind.residence.is_some() {
        let (home, apartment, place) = find_address(mind, city);
        push_str(out, "Lives at: ");
        push_str(out, apartment.name.as_str());
        push_str(out, " ");
        push_str(out, home.name.as_str());
        push_str(out, " in ");
        push_str(out, place.name.as_str());
        push_str(out, "\n");
    }
    assert(out@ =~= o + match mind.residence {
        Some(r) => {
            let hb = first_building_with_area(city.buildings@, r).unwrap();
            let home = city.buildings@[hb];
            let hf = first_floor_with_area(home.floors@, r).unwrap();
            let ha = first_area_with_id(home.floors@[hf].areas@, r).unwrap();
            let hl = find_location(city.areas@, home.location_id.unwrap()).unwrap();
            "Lives at: "@ + home.floors@[hf].areas@[ha].name@ + " "@ + home.name@ + " in "@
                + city.areas@[hl].name@ + "\n"@
        },
        None => Seq::<char>::empty(),
    });
}

fn push_employer(out: &mut Vec<char>, mind: &Mind, city: &City)
    requires
        mind_printable(*mind, *city),
    ensures
        final(out)@ == old(out)@ + employer_lines(*mind, *city),
{
    let ghost o = out@;
    match find_employer(mind, city) {
        Some(inst) => {
            let (building, _floor, area, location) = find_institution_address(inst, city);
            push_str(out, "Employer: ");
            push_str(out, inst.name.as_str());
            push_str(out, " at ");
            push_str(out, area.name.as_str());
            push_str(out, " ");
            push_str(out, building.name.as_str());
            push_str(out, " in ");
            push_str(out, location.name.as_str());
            push_str(out, "\n");
            let ghost mid = out@;
            push_home(out, mind, city);
            assert(out@ =~= o + employer_lines(*mind, *city));
        },
        None => {
            push_str(out, "Employer: None\n");
            assert(out@ =~= o + employer_lines(*mind, *city));
        },
    }
}

fn push_relations(out: &mut Vec<char>, mind: &Mind, pop: &Vec<Mind>)
    ensures
        final(out)@ == old(out)@ + relations_text(*mind, pop@),
{
    let ghost o = out@;
    push_str(out, "Relations:\n");
    let ghost before_rels = out@;
    if mind.relations.len() < 1 {
        push_str(out, "  None\n");
    } else {
        let mut r: u64 = 0;
        while r < 23
            invariant
                r <= 23,
                out@ == before_rels + sorted_relation_lines(mind.relations@, pop@, r as nat),
            decreases 23 - r,
        {
            push_rank_lines(out, &mind.relations, pop, r);
            r = r + 1;
            assert(out@ =~= before_rels + sorted_relation_lines(mind.relations@, pop@, r as nat));
        }
    }
    assert(out@ =~= o + relations_text(*mind, pop@));
}

/// The listing of a citizen (see [`mind_text`]). The written shares of
/// habitual visits are given (see [`get_habitual_institutions`]), and
/// everything the listing looks up must be there (see [`mind_printable`]).
pub fn print_mind(mind: &Mind, city: &City, shopping_scale: &str, social_scale: &str) -> (r: String)
    requires
        mind_printable(*mind, *city),
    ensures
        r@ == mind_text(*mind, *city, shopping_scale@, social_scale@),
{
    let mut out: Vec<char> = Vec::new();
    push_head(&mut out, mind);
    push_employer(&mut out, mind, city);
    push_relations(&mut out, mind, &city.citizens);
    push_habits(&mut out, mind, city, VisitType::Shopping, "Habitual Shopping Institutions", shopping_scale);
    push_habits(&mut out, mind, city, VisitType::Social, "Habitual Social Institutions", social_scale);
    assert(out@ =~= mind_text(*mind, *city, shopping_scale@, social_scale@));
    string_of(&out)
}

} // verus!

verus! {

/// A sexuality drawn at random: homosexual with chance 1 in 5, else
/// heterosexual.
fn gen_sexuality() -> (r: Sexuality)
    ensures
        r == Sexuality::Homosexual || r == Sexuality::Hetrosexual,
{
    if random_below(5) == 0 {
        Sexuality::Homosexual
    } else {
        Sexuality::Hetrosexual
    }
}

/// A gender drawn at random: male with chance 2 in 5, female 2 in 5,
/// ambiguous 1 in 5.
fn gen_gender() -> (r: Gender) {
    let roll = random_below(5);
    if roll >= 3 {
        Gender::Male
    } else if roll >= 1 {
        Gender::Female
    } else {
        Gender::Ambiguous
    }
}

/// The tags a first name is drawn by: `FirstName`, the gender's tag
/// (`GenderMale`, `GenderFemale`) unless it is ambiguous, and the era's name
/// when there is one.
pub open spec fn first_name_tags(gender: Gender, era: Option<Era>) -> Seq<Seq<char>> {
    let base = if gender == Gender::Ambiguous {
        seq!["FirstName"@]
    } else {
        seq!["FirstName"@, "Gender"@ + gender.label()]
    };
    match era {
        Some(e) => base.push(e.label()),
        None => base,
    }
}

/// `s` is the text of a noun of the dictionary with all the tags `tags`.
pub open spec fn noun_text_with(dict: Seq<WordView>, tags: Seq<Seq<char>>, s: Seq<char>) -> bool {
    exists|i: int|
        0 <= i < tag_and_filter(dict, WordType::Noun, tags).len() && #[trigger] tag_and_filter(
            dict,
            WordType::Noun,
            tags,
        )[i].text == s
}

/// A citizen as [`random_char`] makes one: a first name drawn by
/// [`first_name_tags`], a last name when asked for, an age from 15 + `dev`
/// to 54 + `dev`, alive with no ties, work, home, log or visits, either
/// sexuality, and looks drawn from the dictionary.
pub open spec fn char_made(m: Mind, dict: Seq<WordView>, era: Option<Era>, gen_last_name: bool, dev: u32) -> bool {
    &&& noun_text_with(dict, first_name_tags(m.gender, era), m.first_name@)
    &&& if gen_last_name {
        noun_text_with(dict, seq!["LastName"@], m.last_name@)
    } else {
        m.last_name@ == Seq::<char>::empty()
    }
    &&& 15 + dev <= m.age < 55 + dev
    &&& m.relations@.len() == 0
    &&& m.employer is None
    &&& m.residence is None
    &&& m.sexuality == Sexuality::Homosexual || m.sexuality == Sexuality::Hetrosexual
    &&& m.alive
    &&& m.activity_log@.len() == 0
    &&& description_drawn(m.physical_description, dict)
    &&& m.institution_shopping_visits@.len() == 0
    &&& m.institution_social_visits@.len() == 0
}

/// The dictionary can name and describe citizens of the era: first names
/// of each gender, last names, and every part of a description.
pub open spec fn chars_ready(dict: Seq<WordView>, era: Option<Era>, gen_last_name: bool) -> bool {
    &&& tag_and_filter(dict, WordType::Noun, first_name_tags(Gender::Male, era)).len() > 0
    &&& tag_and_filter(dict, WordType::Noun, first_name_tags(Gender::Female, era)).len() > 0
    &&& tag_and_filter(dict, WordType::Noun, first_name_tags(Gender::Ambiguous, era)).len() > 0
    &&& gen_last_name ==> tag_and_filter(dict, WordType::Noun, seq!["LastName"@]).len() > 0
    &&& descriptions_ready(dict)
}

fn noun_text_by_tags(dict: &Vec<Word>, tags: Vec<String>) -> (r: String)
    requires
        tag_and_filter(word_views(dict@), WordType::Noun, str_views(tags@)).len() > 0,
    ensures
        noun_text_with(word_views(dict@), str_views(tags@), r@),
{
    let ghost t = str_views(tags@);
    let w = random_word_by_tag_and(dict, WordType::Noun, tags).unwrap();
    let ghost sel = tag_and_filter(word_views(dict@), WordType::Noun, t);
    let ghost i = choose|i: int| 0 <= i < sel.len() && sel[i] == w@;
    assert(sel[i].text == w.text@);
    w.text
}

fn first_name_tag_list(gender: Gender, era: &Option<Era>) -> (tags: Vec<String>)
    ensures
        str_views(tags@) == first_name_tags(gender, *era),
{
    let mut tags: Vec<String> = vec![String::from_str("FirstName")];
    proof {
        reveal_strlit("FirstName");
        reveal_strlit("Gender");
    }
    if gender != Gender::Ambiguous {
        let mut g = chars_of("Gender");
        let label = gender.to_string();
        push_str(&mut g, label.as_str());
        tags.push(string_of(&g));
    }
    match era {
        Some(e) => {
            tags.push(e.to_string());
        },
        None => {},
    }
    assert(str_views(tags@) =~= first_name_tags(gender, *era));
    tags
}

fn last_name_tag_list() -> (tags: Vec<String>)
    ensures
        str_views(tags@) == seq!["LastName"@],
{
    proof {
        reveal_strlit("LastName");
    }
    let tags = vec![String::from_str("LastName")];
    assert(str_views(tags@) =~= seq!["LastName"@]);
    tags
}

/// Whether the dictionary holds every kind of word a new citizen is drawn
/// from (see [`chars_ready`]).
pub fn chars_ready_exec(dict: &Vec<Word>, era: &Option<Era>, gen_last_name: bool) -> (b: bool)
    ensures
        b == chars_ready(word_views(dict@), *era, gen_last_name),
{
    filter_words_by_tag_and(dict, WordType::Noun, first_name_tag_list(Gender::Male, era)).len() > 0
        && filter_words_by_tag_and(dict, WordType::Noun, first_name_tag_list(Gender::Female, era)).len() > 0
        && filter_words_by_tag_and(dict, WordType::Noun, first_name_tag_list(Gender::Ambiguous, era)).len() > 0
        && (!gen_last_name || filter_words_by_tag_and(dict, WordType::Noun, last_name_tag_list()).len() > 0)
        && descriptions_ready_exec(dict)
}

/// A new citizen (see [`char_made`]). The age adds `age_deviation`, a draw
/// from the normal spread of ages made by the caller, to a uniform draw.
pub fn random_char(dict: &Vec<Word>, era: &Option<Era>, gen_last_name: bool, age_deviation: u32) -> (r: Mind)
    requires
        chars_ready(word_views(dict@), *era, gen_last_name),
        age_deviation <= u32::MAX - 55,
    ensures
        char_made(r, word_views(dict@), *era, gen_last_name, age_deviation),
{
    let gender = gen_gender();
    let tags = first_name_tag_list(gender, era);
    let first_name = noun_text_by_tags(dict, tags);
    let last_name = if gen_last_name {
        noun_text_by_tags(dict, last_name_tag_list())
    } else {
        String::new()
    };
    let years = random_below(40) as u32;
    Mind {
        id: new_id(),
        first_name,
        last_name,
        gender,
        age: years + 15 + age_deviation,
        relations: Vec::new(),
        employer: None,
        residence: None,
        sexuality: gen_sexuality(),
        alive: true,
        activity_log: Vec::new(),
        physical_description: random_mind_description(dict),
        institution_shopping_visits: Vec::new(),
        institution_social_visits: Vec::new(),
    }
}

} // verus!

verus! {

/// The name of an optional era.
pub open spec fn era_name(era: Option<Era>) -> Option<Seq<char>> {
    match era {
        Some(e) => Some(e.label()),
        None => None,
    }
}

/// The group dictionary can name citizens of the era, of any gender.
pub open spec fn chars2_ready(dict: Dictionary, era: Option<Era>) -> bool {
    &&& names_ready(dict, first_name_groups(Gender::Male, era_name(era)))
    &&& names_ready(dict, first_name_groups(Gender::Female, era_name(era)))
    &&& names_ready(dict, first_name_groups(Gender::Ambiguous, era_name(era)))
    &&& names_ready(dict, last_name_groups(era_name(era)))
}

/// A description with nothing in it.
pub open spec fn blank_description(d: PhysicalDescription) -> bool {
    &&& d.hair_colour@.len() == 0
    &&& d.hair_length@.len() == 0
    &&& d.hair_adjectives@.len() == 0
    &&& d.eye_colour@.len() == 0
    &&& d.height_adjective@.len() == 0
    &&& d.build_adjective@.len() == 0
}

/// A new citizen named from the group dictionary (see [`name`]): an age
/// from 15 + `age_deviation` to 54 + `age_deviation`, alive with no ties,
/// work, home, log or visits, either sexuality, and a blank description.
pub fn random_char2(dict: &Dictionary, era: &Option<Era>, age_deviation: u32) -> (r: Mind)
    requires
        chars2_ready(*dict, *era),
        age_deviation <= u32::MAX - 55,
    ensures
        noun_base_in(*dict, first_name_groups(r.gender, era_name(*era)), r.first_name@),
        noun_base_in(*dict, last_name_groups(era_name(*era)), r.last_name@),
        15 + age_deviation <= r.age < 55 + age_deviation,
        r.relations@.len() == 0,
        r.employer is None,
        r.residence is None,
        r.sexuality == Sexuality::Homosexual || r.sexuality == Sexuality::Hetrosexual,
        r.alive,
        r.activity_log@.len() == 0,
        blank_description(r.physical_description),
        r.institution_shopping_visits@.len() == 0,
        r.institution_social_visits@.len() == 0,
{
    let gender = gen_gender();
    let era_string = match era {
        Some(e) => Some(e.to_string()),
        None => None,
    };
    assert(opt_view(era_string) == era_name(*era));
    let (first_name, last_name) = name(dict, &gender, era_string);
    let years = random_below(40) as u32;
    Mind {
        id: new_id(),
        first_name,
        last_name,
        gender,
        age: years + 15 + age_deviation,
        relations: Vec::new(),
        employer: None,
        residence: None,
        sexuality: gen_sexuality(),
        alive: true,
        activity_log: Vec::new(),
        physical_description: PhysicalDescription {
            hair_colour: String::new(),
            hair_length: String::new(),
            hair_adjectives: Vec::new(),
            eye_colour: String::new(),
            height_adjective: String::new(),
            build_adjective: String::new(),
        },
        institution_shopping_visits: Vec::new(),
        institution_social_visits: Vec::new(),
    }
}

} // verus!

verus! {

/// The relations whose verb has rank `r`, in order, each with the listed
/// name of the related citizen.
pub open spec fn rank_entries(rels: Seq<Relation>, pop: Seq<Mind>, r: nat) -> Seq<(RelationVerb, Seq<char>, Id)>
    decreases rels.len(),
{
    if rels.len() == 0 {
        Seq::empty()
    } else {
        rank_entries(rels.drop_last(), pop, r) + if verb_rank(rels.last().0) == r {
            seq![(rels.last().0, name_text(rels.last().1, pop), rels.last().1)]
        } else {
            Seq::empty()
        }
    }
}

/// The relations sorted by the name of the verb, relations of one verb in
/// their order, over the ranks below `upto`.
pub open spec fn sorted_entries(rels: Seq<Relation>, pop: Seq<Mind>, upto: nat) -> Seq<(RelationVerb, Seq<char>, Id)>
    decreases upto,
{
    if upto == 0 {
        Seq::empty()
    } else {
        sorted_entries(rels, pop, (upto - 1) as nat) + rank_entries(rels, pop, (upto - 1) as nat)
    }
}

/// The views of relation entries.
pub open spec fn entry_views(v: Seq<(RelationVerb, String, Id)>) -> Seq<(RelationVerb, Seq<char>, Id)> {
    v.map_values(|e: (RelationVerb, String, Id)| (e.0, e.1@, e.2))
}

/// The relations of `mind`, sorted by the name of the verb (a stable
/// sort), each with the listed name of the related citizen (see
/// [`name_text`]) and its id.
pub fn sorted_relations(mind: &Mind, population: &Population) -> (r: Vec<(RelationVerb, String, Id)>)
    ensures
        entry_views(r@) == sorted_entries(mind.relations@, population@, 23),
{
    let mut out: Vec<(RelationVerb, String, Id)> = Vec::new();
    let mut r: u64 = 0;
    while r < 23
        invariant
            r <= 23,
            entry_views(out@) == sorted_entries(mind.relations@, population@, r as nat),
        decreases 23 - r,
    {
        let ghost before = entry_views(out@);
        let mut i: usize = 0;
        while i < mind.relations.len()
            invariant
                i <= mind.relations.len(),
                r < 23,
                entry_views(out@) == before + rank_entries(mind.relations@.take(i as int), population@, r as nat),
            decreases mind.relations.len() - i,
        {
            assert(mind.relations@.take(i + 1).drop_last() =~= mind.relations@.take(i as int));
            let (verb, id) = mind.relations[i];
            let ghost prev = entry_views(out@);
            if verb_rank_exec(verb) == r {
                let name = get_name_from_id(&id, population);
                out.push((verb, name, id));
                assert(entry_views(out@) =~= prev.push((verb, name@, id)));
            }
            i = i + 1;
            assert(entry_views(out@) =~= before + rank_entries(mind.relations@.take(i as int), population@, r as nat));
        }
        assert(mind.relations@.take(mind.relations.len() as int) =~= mind.relations@);
        r = r + 1;
        assert(entry_views(out@) =~= sorted_entries(mind.relations@, population@, r as nat));
    }
    out
}

/// The indices of the citizens who live in area `area`, in order.
pub fn resident_indices(population: &Population, area: Id) -> (r: Vec<usize>)
    ensures
        forall|k: int| 0 <= k < r@.len() ==> (#[trigger] r@[k]) < population.len() && population@[r@[k] as int].residence == Some(area),
        forall|j: int| 0 <= j < population.len() && population@[j].residence == Some(area) ==> r@.contains(j as usize),
        forall|a: int, b: int| 0 <= a < b < r@.len() ==> r@[a] < r@[b],
{
    let mut out: Vec<usize> = Vec::new();
    let mut j: usize = 0;
    while j < population.len()
        invariant
            j <= population.len(),
            forall|k: int| 0 <= k < out@.len() ==> (#[trigger] out@[k]) < j && population@[out@[k] as int].residence == Some(area),
            forall|q: int| 0 <= q < j && population@[q].residence == Some(area) ==> out@.contains(q as usize),
            forall|a: int, b: int| 0 <= a < b < out@.len() ==> out@[a] < out@[b],
        decreases population.len() - j,
    {
        if population[j].residence == Some(area) {
            let ghost prev = out@;
            out.push(j);
            proof {
                assert forall|q: int| 0 <= q < j + 1 && population@[q].residence == Some(area) implies out@.contains(q as usize) by {
                    if q < j {
                        let k = choose|k: int| 0 <= k < prev.len() && prev[k] == q as usize;
                        assert(out@[k] == q as usize);
                    } else {
                        assert(out@[prev.len() as int] == q as usize);
                    }
                }
            }
        }
        j = j + 1;
    }
    out
}

} // verus!
