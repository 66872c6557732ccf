//! Partners and spouses: who pairs up, who marries, and who splits.
use crate::city::population::mind::relations::friends::{is_social_verb, social_relations_known, social_verb};
use crate::city::population::mind::relations::parental_naming_formats::{
    family_format_spec, get_new_couple_last_names, mind_partner_view, PartnerView,
};
use crate::city::population::mind::relations::{
    gained_line, gained_line_exec, invert_gender, lemma_lookup_same_ids, same_but_citizens, same_but_ties, ties_only, RelationVerb,
    ADULT_AGE_FROM,
};
use crate::city::population::mind::{
    add_relation_and_log, find_index, has_id, lemma_lookup, lookup, relation_and_log_added, state_of_mind,
    states, Gender, Mind, MindState, Relation, Sexuality,
};
use crate::culture::format_views;
use crate::city::{citizen_ids_distinct, City};
use crate::random::{below_drawn, lemma_ratio_drawn, random_below, random_ratio, ratio_drawn, shuffle, Id};
use crate::text::{decimal, decimal_chars, push_all, push_str, str_views, string_of};
use vstd::prelude::*;

verus! {

/// The widest age gap searched for a partner, exclusive.
pub const MAX_RELATION_AGE_DIFF: u32 = 20;

/// A relation that marks its holder as taken: partner or spouse.
pub open spec fn is_taken_verb(v: RelationVerb) -> bool {
    v == RelationVerb::Partner || v == RelationVerb::Spouse
}

/// A citizen with no partner and no spouse.
pub open spec fn single(m: Mind) -> bool {
    forall|i: int| 0 <= i < m.relations@.len() ==> !is_taken_verb(#[trigger] m.relations@[i].0)
}

/// The ids of a list of pairs, each pair's first then its second, in order.
pub open spec fn flatten_pairs(s: Seq<(Id, Id)>) -> Seq<Id>
    decreases s.len(),
{
    if s.len() == 0 {
        Seq::empty()
    } else {
        flatten_pairs(s.drop_last()).push(s.last().0).push(s.last().1)
    }
}

fn flatten_rel_map(input: &Vec<(Id, Id)>) -> (r: Vec<Id>)
    ensures
        r@ == flatten_pairs(input@),
{
    let mut out: Vec<Id> = Vec::new();
    let mut i: usize = 0;
    while i < input.len()
        invariant
            i <= input.len(),
            out@ == flatten_pairs(input@.take(i as int)),
        decreases input.len() - i,
    {
        assert(input@.take(i + 1).drop_last() =~= input@.take(i as int));
        out.push(input[i].0);
        out.push(input[i].1);
        i = i + 1;
    }
    assert(input@.take(input.len() as int) =~= input@);
    out
}

/// The relation a new couple forms: a marriage or a partnership, either of
/// them perhaps already over.
pub open spec fn partner_verb_of(married: bool, split: bool) -> RelationVerb {
    if married {
        if split {
            RelationVerb::ExSpouse
        } else {
            RelationVerb::Spouse
        }
    } else {
        if split {
            RelationVerb::ExPartner
        } else {
            RelationVerb::Partner
        }
    }
}

/// The relation a new couple forms (see [`partner_verb_of`]).
pub fn partner_verb(married: bool, split: bool) -> (r: RelationVerb)
    ensures
        r == partner_verb_of(married, split),
{
    if married {
        if split {
            RelationVerb::ExSpouse
        } else {
            RelationVerb::Spouse
        }
    } else {
        if split {
            RelationVerb::ExPartner
        } else {
            RelationVerb::Partner
        }
    }
}

/// A couple's relation as the draws give it (see [`ratio_drawn`]): married
/// on a draw of 75 in 1000, and, either way, already split on a draw of 6
/// in 100.
pub open spec fn partner_verb_drawn(v: RelationVerb) -> bool {
    exists|married: bool, split: bool|
        ratio_drawn(75, 1000, married) && ratio_drawn(6, 100, split) && v == #[trigger] partner_verb_of(married, split)
}

/// A couple's relation at random: married with chance 75 in 1000, and,
/// either way, already split with chance 6 in 100.
fn get_partner_verb() -> (r: RelationVerb)
    ensures
        exists|married: bool, split: bool| r == partner_verb_of(married, split),
        partner_verb_drawn(r),
{
    let married = random_ratio(75, 1000);
    let split = random_ratio(6, 100);
    proof {
        lemma_ratio_drawn(75, 1000, married);
        lemma_ratio_drawn(6, 100, split);
    }
    partner_verb(married, split)
}

pub(crate) fn is_single(mind: &Mind) -> (b: bool)
    ensures
        b == single(*mind),
{
    let mut i: usize = 0;
    while i < mind.relations.len()
        invariant
            i <= mind.relations.len(),
            forall|j: int| 0 <= j < i ==> !is_taken_verb(#[trigger] mind.relations@[j].0),
        decreases mind.relations.len() - i,
    {
        let v = mind.relations[i].0;
        if v == RelationVerb::Partner || v == RelationVerb::Spouse {
            assert(is_taken_verb(mind.relations@[i as int].0));
            return false;
        }
        i = i + 1;
    }
    true
}

/// The sexualities a person of sexuality `s` pairs with.
pub open spec fn compatible_with(s: Sexuality) -> Seq<Sexuality> {
    match s {
        Sexuality::Homosexual => seq![Sexuality::Homosexual, Sexuality::Bisexual],
        Sexuality::Bisexual => seq![Sexuality::Homosexual, Sexuality::Bisexual],
        Sexuality::Hetrosexual => seq![Sexuality::Hetrosexual],
        Sexuality::Asexual => Seq::empty(),
    }
}

/// The sexualities a person of sexuality `input` pairs with (see
/// [`compatible_with`]).
pub fn compatible_sexuality(input: &Sexuality) -> (r: Vec<Sexuality>)
    ensures
        r@ == compatible_with(*input),
{
    let r = match input {
        Sexuality::Homosexual => vec![Sexuality::Homosexual, Sexuality::Bisexual],
        Sexuality::Bisexual => vec![Sexuality::Homosexual, Sexuality::Bisexual],
        Sexuality::Hetrosexual => vec![Sexuality::Hetrosexual],
        Sexuality::Asexual => Vec::new(),
    };
    assert(r@ =~= compatible_with(*input));
    r
}

/// Whether `g` can be the gender sought for `mind`'s partner: the other
/// gender for a heterosexual man or woman, the same for a homosexual
/// person, and otherwise a man or a woman.
pub open spec fn partner_gender_fits(mind: Mind, g: Gender) -> bool {
    if mind.sexuality == Sexuality::Hetrosexual {
        match mind.gender {
            Gender::Male => g == Gender::Female,
            Gender::Female => g == Gender::Male,
            Gender::Ambiguous => g != Gender::Ambiguous,
        }
    } else if mind.sexuality == Sexuality::Homosexual {
        g == mind.gender
    } else {
        g != Gender::Ambiguous
    }
}

fn determine_partner_gender(mind: &Mind) -> (g: Gender)
    ensures
        partner_gender_fits(*mind, g),
{
    if mind.sexuality == Sexuality::Hetrosexual {
        invert_gender(&mind.gender)
    } else if mind.sexuality == Sexuality::Homosexual {
        mind.gender
    } else {
        invert_gender(&Gender::Ambiguous)
    }
}

/// An age taken as a 32-bit signed number: ages over `i32::MAX` wrap round
/// to negative numbers.
pub open spec fn wrapped_age(age: u32) -> int {
    if age > i32::MAX {
        age - 4294967296
    } else {
        age as int
    }
}

/// The youngest age sought for a partner of a person aged `age` with an age
/// gap of `gap`: `age - gap`, but adult age when that is under it, the
/// comparison being made with the age taken as a 32-bit signed number (see
/// [`wrapped_age`]).
pub open spec fn age_range_start(age: u32, gap: int) -> int {
    if wrapped_age(age) - gap < ADULT_AGE_FROM {
        ADULT_AGE_FROM as int
    } else {
        age - gap
    }
}

/// An age that a partner search can take without overflow: the widest gap
/// searched (19 years) can be added to it, and subtracted from it taken as a
/// 32-bit signed number.
pub open spec fn partner_age_fits(age: u32) -> bool {
    &&& age + (MAX_RELATION_AGE_DIFF - 1) <= u32::MAX
    &&& wrapped_age(age) - (MAX_RELATION_AGE_DIFF - 1) >= i32::MIN
}

/// The ages sought for a partner of `mind` with an age gap of
/// `max_age_gap`: from [`age_range_start`] up to, not including, the age
/// plus the gap.
fn determine_age_range(mind: &Mind, max_age_gap: u32) -> (r: std::ops::Range<u32>)
    requires
        partner_age_fits(mind.age),
        max_age_gap < MAX_RELATION_AGE_DIFF,
    ensures
        r.start == age_range_start(mind.age, max_age_gap as int),
        r.end == mind.age + max_age_gap,
{
    let wrapped: i64 = if mind.age > 2147483647 {
        mind.age as i64 - 4294967296
    } else {
        mind.age as i64
    };
    let underflowing_min_age = wrapped - (max_age_gap as i64) < ADULT_AGE_FROM as i64;
    let min_age = if underflowing_min_age {
        ADULT_AGE_FROM
    } else {
        mind.age - max_age_gap
    };
    min_age..(mind.age + max_age_gap)
}

} // verus!

verus! {

/// Whether `c` is sought by a partner search for gender `g`, ages from
/// `start` up to, not including, `end`, one of the sexualities `compat`, and
/// none of the ids in `ignore`; only single people are sought.
pub open spec fn partner_candidate(
    c: Mind,
    g: Gender,
    start: int,
    end: int,
    compat: Seq<Sexuality>,
    ignore: Seq<Id>,
) -> bool {
    &&& single(c)
    &&& c.gender == g
    &&& start <= c.age < end
    &&& !ignore.contains(c.id)
    &&& compat.contains(c.sexuality)
}

fn contains_id(ids: &Vec<Id>, id: Id) -> (b: bool)
    ensures
        b == ids@.contains(id),
{
    let mut i: usize = 0;
    while i < ids.len()
        invariant
            i <= ids.len(),
            forall|j: int| 0 <= j < i ==> ids@[j] != id,
        decreases ids.len() - i,
    {
        if ids[i] == id {
            return true;
        }
        i = i + 1;
    }
    false
}

fn contains_sexuality(v: &Vec<Sexuality>, s: Sexuality) -> (b: bool)
    ensures
        b == v@.contains(s),
{
    let mut i: usize = 0;
    while i < v.len()
        invariant
            i <= v.len(),
            forall|j: int| 0 <= j < i ==> v@[j] != s,
        decreases v.len() - i,
    {
        if v[i] == s {
            return true;
        }
        i = i + 1;
    }
    false
}

fn is_candidate(
    c: &Mind,
    target_gender: Gender,
    age_range: &std::ops::Range<u32>,
    compatible_sexualities: &Vec<Sexuality>,
    to_ignore: &Vec<Id>,
) -> (b: bool)
    ensures
        b == partner_candidate(
            *c,
            target_gender,
            age_range.start as int,
            age_range.end as int,
            compatible_sexualities@,
            to_ignore@,
        ),
{
    is_single(c) && c.gender == target_gender && age_range.start <= c.age && c.age < age_range.end
        && !contains_id(to_ignore, c.id) && contains_sexuality(compatible_sexualities, c.sexuality)
}

/// A partner search among the citizens at the indices `pool`: the
/// candidates (see [`partner_candidate`]) are shuffled, and with chance 3 in
/// 10 the first of them is taken. Whatever the draw, a citizen found is a
/// candidate from the pool, and none is found when the pool holds none.
fn search_for_partner(
    population: &Vec<Mind>,
    pool: &Vec<usize>,
    target_gender: Gender,
    age_range: std::ops::Range<u32>,
    compatible_sexualities: Vec<Sexuality>,
    to_ignore: &Vec<Id>,
) -> (r: Option<usize>)
    ensures
        r matches Some(k) ==> k < population.len() && pool@.contains(k) && partner_candidate(
            population@[k as int],
            target_gender,
            age_range.start as int,
            age_range.end as int,
            compatible_sexualities@,
            to_ignore@,
        ),
        (forall|k: usize|
            pool@.contains(k) && k < population.len() ==> !partner_candidate(
                #[trigger] population@[k as int],
                target_gender,
                age_range.start as int,
                age_range.end as int,
                compatible_sexualities@,
                to_ignore@,
            )) ==> r is None,
        (exists|k: usize|
            pool@.contains(k) && k < population.len() && partner_candidate(
                #[trigger] population@[k as int],
                target_gender,
                age_range.start as int,
                age_range.end as int,
                compatible_sexualities@,
                to_ignore@,
            )) ==> ratio_drawn(3, 10, r is Some),
{
    let ghost cand = |k: usize|
        k < population.len() && partner_candidate(
            population@[k as int],
            target_gender,
            age_range.start as int,
            age_range.end as int,
            compatible_sexualities@,
            to_ignore@,
        );
    let mut filtered: Vec<usize> = Vec::new();
    let mut i: usize = 0;
    while i < pool.len()
        invariant
            i <= pool.len(),
            forall|j: int| 0 <= j < filtered.len() ==> pool@.contains(#[trigger] filtered@[j]) && cand(
                filtered@[j],
            ),
            filtered.len() > 0 ==> exists|k: usize| pool@.contains(k) && #[trigger] cand(k),
            forall|j: int| 0 <= j < i && cand(#[trigger] pool@[j]) ==> filtered.len() > 0,
            cand == (|k: usize|
                k < population.len() && partner_candidate(
                    population@[k as int],
                    target_gender,
                    age_range.start as int,
                    age_range.end as int,
                    compatible_sexualities@,
                    to_ignore@,
                )),
        decreases pool.len() - i,
    {
        let k = pool[i];
        if k < population.len() && is_candidate(
            &population[k],
            target_gender,
            &age_range,
            &compatible_sexualities,
            to_ignore,
        ) {
            assert(pool@.contains(k)) by {
                assert(pool@[i as int] == k);
            }
            filtered.push(k);
            assert(cand(k));
        }
        i = i + 1;
    }
    let ghost before = filtered@;
    shuffle(&mut filtered);
    proof {
        broadcast use vstd::seq_lib::group_to_multiset_ensures;

        assert forall|j: int| 0 <= j < filtered.len() implies pool@.contains(
            #[trigger] filtered@[j],
        ) && cand(filtered@[j]) by {
            assert(filtered@.to_multiset().count(filtered@[j]) > 0);
            assert(before.contains(filtered@[j]));
        }
        assert(filtered@.to_multiset().len() == before.to_multiset().len());
    }
    let accepted = random_ratio(3, 10);
    proof {
        lemma_ratio_drawn(3, 10, accepted);
    }
    let r = first_if_accepted(&filtered, accepted);
    proof {
        if filtered.len() > 0 {
            assert(pool@.contains(filtered@[0]) && cand(filtered@[0]));
        }
        if exists|k: usize| pool@.contains(k) && k < population.len() && partner_candidate(
            #[trigger] population@[k as int],
            target_gender,
            age_range.start as int,
            age_range.end as int,
            compatible_sexualities@,
            to_ignore@,
        ) {
            let k = choose|k: usize| pool@.contains(k) && k < population.len() && partner_candidate(
                #[trigger] population@[k as int],
                target_gender,
                age_range.start as int,
                age_range.end as int,
                compatible_sexualities@,
                to_ignore@,
            );
            let j = choose|j: int| 0 <= j < pool@.len() && pool@[j] == k;
            assert(cand(pool@[j]));
            assert(filtered@.to_multiset().len() == before.to_multiset().len());
            vstd::seq_lib::to_multiset_len(filtered@);
            vstd::seq_lib::to_multiset_len(before);
        }
    }
    r
}

/// The first of the shuffled candidates once the draw has decided whether
/// the search succeeds (`accepted`): none when it does not or when there
/// are no candidates.
fn first_if_accepted(candidates: &Vec<usize>, accepted: bool) -> (r: Option<usize>)
    ensures
        r == (if accepted && candidates.len() > 0 {
            Some(candidates@[0])
        } else {
            None
        }),
{
    if accepted && candidates.len() > 0 {
        Some(candidates[0])
    } else {
        None
    }
}

/// Whether `c` is a partner that a search for `mind` can find, passing over
/// the ids in `ignore`: single, of a gender that fits (see
/// [`partner_gender_fits`]), of a compatible sexuality (see
/// [`compatible_with`]), and within the widest age range searched.
pub open spec fn suitable_partner(mind: Mind, c: Mind, ignore: Seq<Id>) -> bool {
    &&& single(c)
    &&& partner_gender_fits(mind, c.gender)
    &&& age_range_start(mind.age, MAX_RELATION_AGE_DIFF - 1) <= c.age
    &&& c.age < mind.age + MAX_RELATION_AGE_DIFF - 1
    &&& !ignore.contains(c.id)
    &&& compatible_with(mind.sexuality).contains(c.sexuality)
}

/// The draws of 24 bits that stand for a number in `[0, 1)`.
pub const ROLL_SCALE: u64 = 16777216;

/// A partner for `mind` among the citizens at the indices `pool`, passing
/// over the ids in `to_ignore`: a gender is drawn for the partner, and a
/// fraction `f` in `[0, 1)`; then searches are made with age gaps
/// `f * i` for `i` below [`MAX_RELATION_AGE_DIFF`] until one finds someone
/// (see [`search_for_partner`]). Whatever the draws, an id found is that of
/// a suitable partner (see [`suitable_partner`]) in the pool.
fn find_partner_id(mind: &Mind, population: &Vec<Mind>, pool: &Vec<usize>, to_ignore: &Vec<Id>) -> (r:
    Option<Id>)
    requires
        partner_age_fits(mind.age),
    ensures
        r matches Some(id) ==> exists|k: usize|
            #![trigger pool@.contains(k)]
            pool@.contains(k) && k < population.len() && population@[k as int].id == id
                && suitable_partner(*mind, population@[k as int], to_ignore@),
{
    let target_gender = determine_partner_gender(mind);
    let range_roll = random_below(16777216) as u64;
    let mut i: u32 = 0;
    while i < MAX_RELATION_AGE_DIFF
        invariant
            i <= MAX_RELATION_AGE_DIFF,
            range_roll < ROLL_SCALE,
            partner_age_fits(mind.age),
            partner_gender_fits(*mind, target_gender),
        decreases MAX_RELATION_AGE_DIFF - i,
    {
        assert(range_roll * i <= 16777216 * 20) by (nonlinear_arith)
            requires
                range_roll < 16777216,
                i <= 20,
        ;
        let product: u64 = range_roll * (i as u64);
        let gap: u64 = product / ROLL_SCALE;
        assert(gap <= i) by (nonlinear_arith)
            requires
                range_roll < 16777216,
                product == range_roll * i,
                gap == product / 16777216,
        ;
        let age_range = determine_age_range(mind, gap as u32);
        let found = search_for_partner(
            population,
            pool,
            target_gender,
            age_range,
            compatible_sexuality(&mind.sexuality),
            to_ignore,
        );
        match found {
            Some(k) => {
                let ghost c = population@[k as int];
                assert(age_range_start(mind.age, MAX_RELATION_AGE_DIFF - 1) <= c.age);
                return Some(population[k].id);
            },
            None => {},
        }
        i = i + 1;
    }
    None
}

} // verus!

verus! {

/// Every alive citizen's age can be taken by a partner search (see
/// [`partner_age_fits`]).
pub open spec fn ages_fit(pop: Seq<Mind>) -> bool {
    forall|j: int| 0 <= j < pop.len() && (#[trigger] pop[j]).alive ==> partner_age_fits(pop[j].age)
}

/// A pair chosen by a partner pass after the pairs `prev`: its first is an
/// alive citizen not yet paired, and its second a suitable partner (see
/// [`suitable_partner`]) for that citizen, passing over everyone already
/// paired and the citizen itself.
pub open spec fn pair_chosen(pop: Seq<Mind>, prev: Seq<(Id, Id)>, pair: (Id, Id)) -> bool {
    &&& !flatten_pairs(prev).contains(pair.0)
    &&& exists|i: int, j: int|
        #![trigger pop[i], pop[j]]
        0 <= i < pop.len() && 0 <= j < pop.len() && pop[i].id == pair.0 && pop[i].alive
            && pop[j].id == pair.1 && suitable_partner(
            pop[i],
            pop[j],
            flatten_pairs(prev).push(pair.0),
        )
}

/// Each pair of `pairs` is chosen (see [`pair_chosen`]) after those before
/// it.
pub open spec fn pairs_chosen(pop: Seq<Mind>, pairs: Seq<(Id, Id)>) -> bool {
    forall|n: int| 0 <= n < pairs.len() ==> pair_chosen(pop, pairs.take(n), #[trigger] pairs[n])
}

proof fn lemma_pairs_chosen_push(pop: Seq<Mind>, pairs: Seq<(Id, Id)>, p: (Id, Id))
    requires
        pairs_chosen(pop, pairs),
        pair_chosen(pop, pairs, p),
    ensures
        pairs_chosen(pop, pairs.push(p)),
{
    let np = pairs.push(p);
    assert forall|n: int| 0 <= n < np.len() implies pair_chosen(pop, np.take(n), #[trigger] np[n]) by {
        if n < pairs.len() {
            assert(np.take(n) =~= pairs.take(n));
            assert(np[n] == pairs[n]);
        } else {
            assert(np.take(n) =~= pairs);
        }
    }
}

fn all_indices(n: usize) -> (r: Vec<usize>)
    ensures
        r.len() == n,
        forall|k: int| 0 <= k < n ==> r@[k] == k,
{
    let mut r: Vec<usize> = Vec::new();
    let mut i: usize = 0;
    while i < n
        invariant
            i <= n,
            r.len() == i,
            forall|k: int| 0 <= k < i ==> r@[k] == k,
        decreases n - i,
    {
        r.push(i);
        i = i + 1;
    }
    r
}

/// The first pass of [`link_partners`]: each alive citizen in turn, not yet
/// paired, looks for a partner among all citizens, passing over everyone
/// already paired.
fn choose_partners(population: &Vec<Mind>) -> (pairs: Vec<(Id, Id)>)
    requires
        ages_fit(population@),
    ensures
        pairs_chosen(population@, pairs@),
{
    let pool = all_indices(population.len());
    let mut pairs: Vec<(Id, Id)> = Vec::new();
    let mut k: usize = 0;
    while k < population.len()
        invariant
            k <= population.len(),
            ages_fit(population@),
            pool.len() == population.len(),
            forall|m: int| 0 <= m < pool.len() ==> pool@[m] == m,
            pairs_chosen(population@, pairs@),
        decreases population.len() - k,
    {
        let mind = &population[k];
        if mind.alive {
            let flat = flatten_rel_map(&pairs);
            if !contains_id(&flat, mind.id) {
                let mut taken = flatten_rel_map(&pairs);
                taken.push(mind.id);
                let found = find_partner_id(mind, population, &pool, &taken);
                match found {
                    Some(pid) => {
                        let root_repeating = contains_id(&flat, mind.id);
                        let partner_repeating = contains_id(&flat, pid);
                        if !root_repeating && !partner_repeating {
                            proof {
                                let j = choose|j: usize|
                                    #![trigger pool@.contains(j)]
                                    pool@.contains(j) && j < population.len()
                                        && population@[j as int].id == pid && suitable_partner(
                                        *mind,
                                        population@[j as int],
                                        taken@,
                                    );
                                let ki = k as int;
                                let ji = j as int;
                                assert(population@[ki] == *mind);
                                assert(population@[ji].id == pid);
                                assert(pair_chosen(population@, pairs@, (mind.id, pid)));
                                lemma_pairs_chosen_push(population@, pairs@, (mind.id, pid));
                            }
                            pairs.push((mind.id, pid));
                        }
                    },
                    None => {},
                }
            }
        }
        k = k + 1;
    }
    pairs
}

/// The relations and log lines of every citizen, by index.
pub struct Ties {
    pub rels: Seq<Seq<Relation>>,
    pub logs: Seq<Seq<Seq<char>>>,
}

/// The relations and log lines the citizens hold.
pub open spec fn ties_of(pop: Seq<Mind>) -> Ties {
    Ties {
        rels: pop.map_values(|m: Mind| m.relations@),
        logs: pop.map_values(|m: Mind| str_views(m.activity_log@)),
    }
}

/// Citizen `k` gains relation `rel` and log line `line`.
pub open spec fn tie(t: Ties, k: int, rel: Relation, line: Seq<char>) -> Ties {
    Ties { rels: t.rels.update(k, t.rels[k].push(rel)), logs: t.logs.update(k, t.logs[k].push(line)) }
}

proof fn lemma_tie(cur: Seq<Mind>, new: Seq<Mind>, k: int, rel: Relation, line: Seq<char>)
    requires
        0 <= k < cur.len(),
        new.len() == cur.len(),
        relation_and_log_added(cur[k], new[k], rel, line),
        forall|j: int| 0 <= j < cur.len() && j != k ==> new[j] == cur[j],
    ensures
        ties_of(new) == tie(ties_of(cur), k, rel, line),
        ties_only(cur, new),
{
    let a = ties_of(new);
    let b = tie(ties_of(cur), k, rel, line);
    assert(a.rels =~= b.rels);
    assert(a.logs =~= b.logs);
    assert forall|j: int| 0 <= j < cur.len() implies same_but_ties(cur[j], #[trigger] new[j]) by {
        if j != k {
            assert(new[j] == cur[j]);
        }
    }
}

proof fn lemma_ties_only_trans(a: Seq<Mind>, b: Seq<Mind>, c: Seq<Mind>)
    requires
        ties_only(a, b),
        ties_only(b, c),
    ensures
        ties_only(a, c),
{
    assert forall|j: int| 0 <= j < a.len() implies same_but_ties(a[j], #[trigger] c[j]) by {
        assert(same_but_ties(a[j], b[j]));
        assert(same_but_ties(b[j], c[j]));
    }
}

/// A line of a citizen's log: `Gained <first> <last> as a <role>`.
pub open spec fn gained_as_line(first: Seq<char>, last: Seq<char>, role: Seq<char>) -> Seq<char> {
    "Gained "@ + first + " "@ + last + " as a "@ + role
}

fn gained_as_line_exec(first: &String, last: &String, role: &str) -> (r: String)
    ensures
        r@ == gained_as_line(first@, last@, role@),
{
    let mut out: Vec<char> = Vec::new();
    push_str(&mut out, "Gained ");
    push_str(&mut out, first.as_str());
    push_str(&mut out, " ");
    push_str(&mut out, last.as_str());
    push_str(&mut out, " as a ");
    push_str(&mut out, role);
    string_of(&out)
}

/// One of the relations a new couple forms: partner, ex-partner, spouse or
/// ex-spouse.
pub open spec fn couple_verb(v: RelationVerb) -> bool {
    exists|married: bool, split: bool| v == partner_verb_of(married, split)
}

/// A couple `pair` formed with relation `verb`: when both are citizens and
/// alive, each gains the relation to the other and a log line naming the
/// other.
pub open spec fn partnership_step(pop: Seq<Mind>, t: Ties, pair: (Id, Id), verb: RelationVerb) -> Ties {
    match (lookup(pop, pair.0), lookup(pop, pair.1)) {
        (Some(i), Some(j)) => if pop[i].alive && pop[j].alive {
            tie(
                tie(
                    t,
                    i,
                    (verb, pair.1),
                    gained_as_line(pop[j].first_name@, pop[j].last_name@, verb.label()),
                ),
                j,
                (verb, pair.0),
                gained_as_line(pop[i].first_name@, pop[i].last_name@, verb.label()),
            )
        } else {
            t
        },
        _ => t,
    }
}

/// The couples `pairs` formed in order, each with the relation at the same
/// place in `verbs` (see [`partnership_step`]).
pub open spec fn partnerships(
    pop: Seq<Mind>,
    t: Ties,
    pairs: Seq<(Id, Id)>,
    verbs: Seq<RelationVerb>,
) -> Ties
    decreases pairs.len(),
{
    if pairs.len() == 0 || verbs.len() == 0 {
        t
    } else {
        partnership_step(
            pop,
            partnerships(pop, t, pairs.drop_last(), verbs.drop_last()),
            pairs.last(),
            verbs.last(),
        )
    }
}

/// Both members of `pair` are alive citizens.
pub open spec fn both_alive(pop: Seq<Mind>, pair: (Id, Id)) -> bool {
    &&& lookup(pop, pair.0) matches Some(i) && pop[i].alive
    &&& lookup(pop, pair.1) matches Some(j) && pop[j].alive
}

/// Forms couple `pair` (see [`partnership_step`]) and returns the relation
/// it formed, drawn at random when both are alive citizens.
fn apply_partnership(city: &mut City, pair: (Id, Id), Ghost(pop0): Ghost<Seq<Mind>>) -> (verb:
    RelationVerb)
    requires
        ties_only(pop0, old(city).citizens@),
    ensures
        same_but_citizens(*old(city), *final(city)),
        ties_only(pop0, final(city).citizens@),
        couple_verb(verb),
        both_alive(pop0, pair) ==> partner_verb_drawn(verb),
        ties_of(final(city).citizens@) == partnership_step(
            pop0,
            ties_of(old(city).citizens@),
            pair,
            verb,
        ),
{
    let (a, b) = pair;
    let ghost cur = city.citizens@;
    proof {
        lemma_lookup_same_ids(pop0, cur, a);
        lemma_lookup_same_ids(pop0, cur, b);
        lemma_lookup(cur, a);
        lemma_lookup(cur, b);
        assert(RelationVerb::Partner == partner_verb_of(false, false));
    }
    let ia = find_index(&city.citizens, a);
    let ib = find_index(&city.citizens, b);
    match (ia, ib) {
        (Some(i), Some(j)) => {
            if city.citizens[i].alive && city.citizens[j].alive {
                let verb = get_partner_verb();
                let role = verb.to_string();
                let line1 = gained_as_line_exec(
                    &city.citizens[j].first_name,
                    &city.citizens[j].last_name,
                    role.as_str(),
                );
                let line2 = gained_as_line_exec(
                    &city.citizens[i].first_name,
                    &city.citizens[i].last_name,
                    role.as_str(),
                );
                proof {
                    assert(same_but_ties(pop0[i as int], cur[i as int]));
                    assert(same_but_ties(pop0[j as int], cur[j as int]));
                }
                add_relation_and_log(&mut city.citizens, i, (verb, b), line1);
                let ghost mid = city.citizens@;
                proof {
                    lemma_tie(cur, mid, i as int, (verb, b), line1@);
                    lemma_ties_only_trans(pop0, cur, mid);
                }
                add_relation_and_log(&mut city.citizens, j, (verb, a), line2);
                proof {
                    lemma_tie(mid, city.citizens@, j as int, (verb, a), line2@);
                    lemma_ties_only_trans(pop0, mid, city.citizens@);
                }
                verb
            } else {
                RelationVerb::Partner
            }
        },
        _ => RelationVerb::Partner,
    }
}

/// Pairs up citizens: each alive citizen in turn, not yet paired, may find
/// a suitable partner among all citizens, passing over everyone already
/// paired (see [`pairs_chosen`]); then each couple whose members are both
/// alive forms a relation drawn at random (see [`couple_verb`]), and each
/// member gains it and a log line (see [`partnership_step`]). Only
/// relations and logs change. Citizens are known by their ids: no two share
/// one.
pub fn link_partners<'a>(city: &'a mut City) -> (r: &'a mut City)
    requires
        ages_fit(old(city).citizens@),
        citizen_ids_distinct(old(city).citizens@),
    ensures
        same_but_citizens(*old(city), *r),
        ties_only(old(city).citizens@, r.citizens@),
        exists|pairs: Seq<(Id, Id)>, verbs: Seq<RelationVerb>|
            #![trigger partnerships(old(city).citizens@, ties_of(old(city).citizens@), pairs, verbs)]
            pairs_chosen(old(city).citizens@, pairs) && verbs.len() == pairs.len() && (forall|n: int|
                0 <= n < verbs.len() ==> couple_verb(#[trigger] verbs[n])) && (forall|n: int|
                0 <= n < verbs.len() && both_alive(old(city).citizens@, pairs[n]) ==> partner_verb_drawn(
                    #[trigger] verbs[n],
                )) && ties_of(r.citizens@)
                == partnerships(old(city).citizens@, ties_of(old(city).citizens@), pairs, verbs),
        *final(city) == *final(r),
{
    let ghost pop0 = city.citizens@;
    let pairs = choose_partners(&city.citizens);
    let ghost mut verbs: Seq<RelationVerb> = Seq::empty();
    let mut n: usize = 0;
    while n < pairs.len()
        invariant
            n <= pairs.len(),
            same_but_citizens(*old(city), *city),
            pop0 == old(city).citizens@,
            ties_only(pop0, city.citizens@),
            verbs.len() == n,
            forall|m: int| 0 <= m < verbs.len() ==> couple_verb(#[trigger] verbs[m]),
            forall|m: int|
                0 <= m < verbs.len() && both_alive(pop0, pairs@[m]) ==> partner_verb_drawn(#[trigger] verbs[m]),
            ties_of(city.citizens@) == partnerships(pop0, ties_of(pop0), pairs@.take(n as int), verbs),
        decreases pairs.len() - n,
    {
        let ghost t0 = ties_of(city.citizens@);
        let verb = apply_partnership(city, pairs[n], Ghost(pop0));
        proof {
            let nv = verbs.push(verb);
            let np = pairs@.take(n + 1);
            assert(np.drop_last() =~= pairs@.take(n as int));
            assert(nv.drop_last() =~= verbs);
            assert(np.last() == pairs@[n as int]);
            assert(partnerships(pop0, ties_of(pop0), np, nv) == partnership_step(pop0, t0, pairs@[n as int], verb));
            assert forall|m: int| 0 <= m < nv.len() && both_alive(pop0, pairs@[m]) implies partner_verb_drawn(
                #[trigger] nv[m],
            ) by {
                if m < n {
                    assert(nv[m] == verbs[m]);
                }
            }
            verbs = nv;
        }
        n = n + 1;
    }
    proof {
        assert(pairs@.take(pairs.len() as int) =~= pairs@);
    }
    city
}

} // verus!

verus! {

/// Whether `m` holds a social relation (see [`is_social_verb`]) to `id`.
pub open spec fn friend_of(m: Mind, id: Id) -> bool {
    exists|r: int|
        0 <= r < m.relations@.len() && is_social_verb(#[trigger] m.relations@[r].0)
            && m.relations@[r].1 == id
}

/// Every social relation of an alive, single citizen names a citizen.
pub open spec fn friends_known(pop: Seq<Mind>) -> bool {
    forall|k: int, r: int|
        0 <= k < pop.len() && pop[k].alive && single(pop[k]) && 0 <= r < pop[k].relations@.len()
            && is_social_verb(#[trigger] pop[k].relations@[r].0) ==> has_id(pop, pop[k].relations@[r].1)
}

/// Whether every social relation of an alive single citizen names a
/// citizen (see [`friends_known`]).
pub fn friends_known_exec(pop: &Vec<Mind>) -> (b: bool)
    ensures
        b == friends_known(pop@),
{
    social_relations_known(pop, true)
}

/// Whether an age can be taken by a partner search (see
/// [`partner_age_fits`]).
fn partner_age_fits_exec(age: u32) -> (b: bool)
    ensures
        b == partner_age_fits(age),
{
    age <= 4294967276 && (age <= 2147483647 || age >= 2147483667)
}

/// Whether every alive citizen's age can be taken by a partner search (see
/// [`ages_fit`]).
pub fn ages_fit_exec(pop: &Vec<Mind>) -> (b: bool)
    ensures
        b == ages_fit(pop@),
{
    let mut j: usize = 0;
    while j < pop.len()
        invariant
            j <= pop.len(),
            forall|q: int| 0 <= q < j && (#[trigger] pop@[q]).alive ==> partner_age_fits(pop@[q].age),
        decreases pop.len() - j,
    {
        if pop[j].alive && !partner_age_fits_exec(pop[j].age) {
            return false;
        }
        j = j + 1;
    }
    true
}

/// A pair chosen by a yearly partner pass after the pairs `prev`: its first
/// is an alive, single citizen not yet paired, and its second a suitable
/// partner (see [`suitable_partner`]) among that citizen's friends, passing
/// over everyone already paired and the citizen itself.
pub open spec fn friend_pair_chosen(pop: Seq<Mind>, prev: Seq<(Id, Id)>, pair: (Id, Id)) -> bool {
    &&& !flatten_pairs(prev).contains(pair.0)
    &&& exists|i: int, j: int|
        #![trigger pop[i], pop[j]]
        0 <= i < pop.len() && 0 <= j < pop.len() && pop[i].id == pair.0 && pop[i].alive && single(
            pop[i],
        ) && pop[j].id == pair.1 && friend_of(pop[i], pair.1) && suitable_partner(
            pop[i],
            pop[j],
            flatten_pairs(prev).push(pair.0),
        )
}

/// Each pair of `pairs` is chosen (see [`friend_pair_chosen`]) after those
/// before it.
pub open spec fn friend_pairs_chosen(pop: Seq<Mind>, pairs: Seq<(Id, Id)>) -> bool {
    forall|n: int|
        0 <= n < pairs.len() ==> friend_pair_chosen(pop, pairs.take(n), #[trigger] pairs[n])
}

proof fn lemma_friend_pairs_push(pop: Seq<Mind>, pairs: Seq<(Id, Id)>, p: (Id, Id))
    requires
        friend_pairs_chosen(pop, pairs),
        friend_pair_chosen(pop, pairs, p),
    ensures
        friend_pairs_chosen(pop, pairs.push(p)),
{
    let np = pairs.push(p);
    assert forall|n: int| 0 <= n < np.len() implies friend_pair_chosen(
        pop,
        np.take(n),
        #[trigger] np[n],
    ) by {
        if n < pairs.len() {
            assert(np.take(n) =~= pairs.take(n));
            assert(np[n] == pairs[n]);
        } else {
            assert(np.take(n) =~= pairs);
        }
    }
}

/// The indices of the first citizens with the ids named by the social
/// relations among `rels`, in order.
pub open spec fn friend_indices(pop: Seq<Mind>, rels: Seq<Relation>) -> Seq<usize>
    decreases rels.len(),
{
    if rels.len() == 0 {
        Seq::empty()
    } else {
        let prev = friend_indices(pop, rels.drop_last());
        if is_social_verb(rels.last().0) {
            prev.push(lookup(pop, rels.last().1).unwrap() as usize)
        } else {
            prev
        }
    }
}

/// The indices of the citizens named by the social relations of citizen
/// `k`, in order.
fn friend_pool(population: &Vec<Mind>, k: usize) -> (pool: Vec<usize>)
    requires
        k < population.len(),
        forall|r: int|
            0 <= r < population@[k as int].relations@.len() && is_social_verb(
                #[trigger] population@[k as int].relations@[r].0,
            ) ==> has_id(population@, population@[k as int].relations@[r].1),
    ensures
        forall|m: usize|
            #![trigger pool@.contains(m)]
            pool@.contains(m) ==> m < population.len() && friend_of(
                population@[k as int],
                population@[m as int].id,
            ),
        pool@ == friend_indices(population@, population@[k as int].relations@),
{
    let mind = &population[k];
    let mut pool: Vec<usize> = Vec::new();
    let mut r: usize = 0;
    while r < mind.relations.len()
        invariant
            r <= mind.relations.len(),
            k < population.len(),
            mind == &population@[k as int],
            forall|q: int|
                0 <= q < pool.len() ==> (#[trigger] pool@[q]) < population.len() && friend_of(
                    *mind,
                    population@[pool@[q] as int].id,
                ),
            forall|r: int|
                0 <= r < mind.relations@.len() && is_social_verb(#[trigger] mind.relations@[r].0)
                    ==> has_id(population@, mind.relations@[r].1),
            pool@ == friend_indices(population@, mind.relations@.take(r as int)),
        decreases mind.relations.len() - r,
    {
        assert(mind.relations@.take(r + 1).drop_last() =~= mind.relations@.take(r as int));
        let (v, id) = mind.relations[r];
        if social_verb(v) {
            proof {
                lemma_lookup(population@, id);
                assert(is_social_verb(mind.relations@[r as int].0));
            }
            let m = find_index(population, id).unwrap();
            proof {
                assert(friend_of(*mind, population@[m as int].id));
            }
            pool.push(m);
        }
        r = r + 1;
    }
    assert(mind.relations@.take(mind.relations.len() as int) =~= mind.relations@);
    proof {
        assert forall|m: usize| #![trigger pool@.contains(m)] pool@.contains(m) implies m
            < population.len() && friend_of(*mind, population@[m as int].id) by {
            let q = choose|q: int| 0 <= q < pool.len() && pool@[q] == m;
            assert(pool@[q] == m);
        }
    }
    pool
}

/// The first pass of [`link_partners_by_year`]: each alive, single citizen
/// in turn, not yet paired, looks for a partner among its friends, passing
/// over everyone already paired.
fn choose_partners_among_friends(population: &Vec<Mind>) -> (pairs: Vec<(Id, Id)>)
    requires
        ages_fit(population@),
        friends_known(population@),
    ensures
        friend_pairs_chosen(population@, pairs@),
{
    let mut pairs: Vec<(Id, Id)> = Vec::new();
    let mut taken_list: Vec<Id> = Vec::new();
    let mut k: usize = 0;
    while k < population.len()
        invariant
            k <= population.len(),
            ages_fit(population@),
            friends_known(population@),
            taken_list@ == flatten_pairs(pairs@),
            friend_pairs_chosen(population@, pairs@),
        decreases population.len() - k,
    {
        let mind = &population[k];
        if mind.alive && is_single(mind) {
            let flat = flatten_rel_map(&pairs);
            if !contains_id(&flat, mind.id) {
                let pool = friend_pool(population, k);
                let mut ignore = flatten_rel_map(&pairs);
                ignore.push(mind.id);
                let found = find_partner_id(mind, population, &pool, &ignore);
                match found {
                    Some(pid) => {
                        let root_repeating = contains_id(&taken_list, mind.id);
                        let partner_repeating = contains_id(&taken_list, pid);
                        if !root_repeating && !partner_repeating {
                            proof {
                                let j = choose|j: usize|
                                    #![trigger pool@.contains(j)]
                                    pool@.contains(j) && j < population.len()
                                        && population@[j as int].id == pid && suitable_partner(
                                        *mind,
                                        population@[j as int],
                                        ignore@,
                                    );
                                assert(pool@.contains(j));
                                let ki = k as int;
                                let ji = j as int;
                                assert(population@[ki] == *mind);
                                assert(population@[ji].id == pid);
                                assert(friend_pair_chosen(population@, pairs@, (mind.id, pid)));
                                lemma_friend_pairs_push(population@, pairs@, (mind.id, pid));
                            }
                            let ghost prev = pairs@;
                            pairs.push((mind.id, pid));
                            taken_list.push(mind.id);
                            taken_list.push(pid);
                            proof {
                                assert(pairs@.drop_last() =~= prev);
                            }
                        }
                    },
                    None => {},
                }
            }
        }
        k = k + 1;
    }
    pairs
}

/// A couple `pair` formed in year `year`: when both are citizens, each
/// gains a partner relation to the other and a log line naming the other.
pub open spec fn yearly_partnership_step(pop: Seq<Mind>, t: Ties, pair: (Id, Id), year: nat) -> Ties {
    match (lookup(pop, pair.0), lookup(pop, pair.1)) {
        (Some(i), Some(j)) => tie(
            tie(
                t,
                i,
                (RelationVerb::Partner, pair.1),
                gained_line(pop[j].first_name@, pop[j].last_name@, "Partner"@, year),
            ),
            j,
            (RelationVerb::Partner, pair.0),
            gained_line(pop[i].first_name@, pop[i].last_name@, "Partner"@, year),
        ),
        _ => t,
    }
}

/// The couples `pairs` formed in order in year `year` (see
/// [`yearly_partnership_step`]).
pub open spec fn yearly_partnerships(pop: Seq<Mind>, t: Ties, pairs: Seq<(Id, Id)>, year: nat) -> Ties
    decreases pairs.len(),
{
    if pairs.len() == 0 {
        t
    } else {
        yearly_partnership_step(
            pop,
            yearly_partnerships(pop, t, pairs.drop_last(), year),
            pairs.last(),
            year,
        )
    }
}

fn apply_yearly_partnership(city: &mut City, pair: (Id, Id), Ghost(pop0): Ghost<Seq<Mind>>)
    requires
        ties_only(pop0, old(city).citizens@),
        has_id(pop0, pair.0),
        has_id(pop0, pair.1),
    ensures
        same_but_citizens(*old(city), *final(city)),
        ties_only(pop0, final(city).citizens@),
        ties_of(final(city).citizens@) == yearly_partnership_step(
            pop0,
            ties_of(old(city).citizens@),
            pair,
            old(city).year as nat,
        ),
{
    let (a, b) = pair;
    let ghost cur = city.citizens@;
    proof {
        lemma_lookup_same_ids(pop0, cur, a);
        lemma_lookup_same_ids(pop0, cur, b);
        lemma_lookup(cur, a);
        lemma_lookup(cur, b);
    }
    let i = find_index(&city.citizens, a).unwrap();
    let j = find_index(&city.citizens, b).unwrap();
    let line1 = gained_line_exec(
        &city.citizens[j].first_name,
        &city.citizens[j].last_name,
        "Partner",
        city.year,
    );
    let line2 = gained_line_exec(
        &city.citizens[i].first_name,
        &city.citizens[i].last_name,
        "Partner",
        city.year,
    );
    proof {
        reveal_strlit("Partner");
        assert(same_but_ties(pop0[i as int], cur[i as int]));
        assert(same_but_ties(pop0[j as int], cur[j as int]));
    }
    add_relation_and_log(&mut city.citizens, i, (RelationVerb::Partner, b), line1);
    let ghost mid = city.citizens@;
    proof {
        lemma_tie(cur, mid, i as int, (RelationVerb::Partner, b), line1@);
        lemma_ties_only_trans(pop0, cur, mid);
    }
    add_relation_and_log(&mut city.citizens, j, (RelationVerb::Partner, a), line2);
    proof {
        lemma_tie(mid, city.citizens@, j as int, (RelationVerb::Partner, a), line2@);
        lemma_ties_only_trans(pop0, mid, city.citizens@);
    }
}

/// What the yearly pairing of friends makes of the city `c0` (see
/// [`link_partners_by_year`]): `c1`.
pub open spec fn partners_linked(c0: City, c1: City) -> bool {
    &&& same_but_citizens(c0, c1)
    &&& ties_only(c0.citizens@, c1.citizens@)
    &&& exists|pairs: Seq<(Id, Id)>|
        #![trigger yearly_partnerships(c0.citizens@, ties_of(c0.citizens@), pairs, c0.year as nat)]
        friend_pairs_chosen(c0.citizens@, pairs) && ties_of(c1.citizens@)
            == yearly_partnerships(
            c0.citizens@,
            ties_of(c0.citizens@),
            pairs,
            c0.year as nat,
        )
}

/// Pairs up friends: each alive, single citizen in turn, not yet paired,
/// may find a suitable partner among its friends, passing over everyone
/// already paired (see [`friend_pairs_chosen`]); then each member of each
/// couple gains a partner relation to the other and a log line with the
/// year (see [`yearly_partnership_step`]). Only relations and logs change.
/// Every social relation of an alive, single citizen must name a citizen,
/// and citizens are known by their ids: no two share one.
#[verifier::rlimit(40)]
pub fn link_partners_by_year<'a>(city: &'a mut City) -> (r: &'a mut City)
    requires
        ages_fit(old(city).citizens@),
        citizen_ids_distinct(old(city).citizens@),
        friends_known(old(city).citizens@),
    ensures
        partners_linked(*old(city), *r),
        *final(city) == *final(r),
{
    let ghost pop0 = city.citizens@;
    let pairs = choose_partners_among_friends(&city.citizens);
    let mut n: usize = 0;
    while n < pairs.len()
        invariant
            n <= pairs.len(),
            same_but_citizens(*old(city), *city),
            pop0 == old(city).citizens@,
            ties_only(pop0, city.citizens@),
            friend_pairs_chosen(pop0, pairs@),
            ties_of(city.citizens@) == yearly_partnerships(
                pop0,
                ties_of(pop0),
                pairs@.take(n as int),
                city.year as nat,
            ),
        decreases pairs.len() - n,
    {
        let ghost t0 = ties_of(city.citizens@);
        proof {
            let p = pairs@[n as int];
            assert(friend_pair_chosen(pop0, pairs@.take(n as int), p));
            let (i, j) = choose|i: int, j: int|
                #![trigger pop0[i], pop0[j]]
                0 <= i < pop0.len() && 0 <= j < pop0.len() && pop0[i].id == p.0 && pop0[i].alive
                    && single(pop0[i]) && pop0[j].id == p.1 && friend_of(pop0[i], p.1)
                    && suitable_partner(pop0[i], pop0[j], flatten_pairs(pairs@.take(n as int)).push(p.0));
            lemma_lookup(pop0, p.0);
            lemma_lookup(pop0, p.1);
        }
        apply_yearly_partnership(city, pairs[n], Ghost(pop0));
        proof {
            let np = pairs@.take(n + 1);
            assert(np.drop_last() =~= pairs@.take(n as int));
            assert(np.last() == pairs@[n as int]);
        }
        n = n + 1;
    }
    proof {
        assert(pairs@.take(pairs.len() as int) =~= pairs@);
    }
    city
}

} // verus!

verus! {

/// The first relation in `rels` that marks its holder as taken.
pub open spec fn first_taken(rels: Seq<Relation>) -> Option<Relation>
    decreases rels.len(),
{
    if rels.len() == 0 {
        None
    } else if is_taken_verb(rels[0].0) {
        Some(rels[0])
    } else {
        first_taken(rels.drop_first())
    }
}

pub(crate) fn first_taken_exec(rels: &Vec<Relation>) -> (r: Option<Relation>)
    ensures
        r == first_taken(rels@),
{
    let mut i: usize = 0;
    assert(rels@.subrange(0, rels@.len() as int) =~= rels@);
    while i < rels.len()
        invariant
            i <= rels.len(),
            first_taken(rels@) == first_taken(rels@.subrange(i as int, rels@.len() as int)),
        decreases rels.len() - i,
    {
        assert(rels@.subrange(i as int, rels@.len() as int).drop_first() =~= rels@.subrange(
            i + 1,
            rels@.len() as int,
        ));
        assert(rels@.subrange(i as int, rels@.len() as int)[0] == rels@[i as int]);
        let v = rels[i].0;
        if v == RelationVerb::Partner || v == RelationVerb::Spouse {
            return Some(rels[i]);
        }
        i = i + 1;
    }
    None
}

proof fn lemma_first_taken_some(rels: Seq<Relation>)
    requires
        exists|i: int| 0 <= i < rels.len() && is_taken_verb(#[trigger] rels[i].0),
    ensures
        first_taken(rels) matches Some(r) && is_taken_verb(r.0),
    decreases rels.len(),
{
    if !is_taken_verb(rels[0].0) {
        let i = choose|i: int| 0 <= i < rels.len() && is_taken_verb(#[trigger] rels[i].0);
        assert(rels.drop_first()[i - 1] == rels[i]);
        lemma_first_taken_some(rels.drop_first());
    }
}

/// The index of the first alive citizen from index `j` on with id `id`.
pub open spec fn alive_after(st: Seq<MindState>, j: int, id: Id) -> Option<int>
    decreases st.len() - j,
{
    if j < 0 || j >= st.len() {
        None
    } else if st[j].alive && st[j].id == id {
        Some(j)
    } else {
        alive_after(st, j + 1, id)
    }
}

proof fn lemma_alive_after(st: Seq<MindState>, j: int, id: Id)
    ensures
        alive_after(st, j, id) matches Some(r) ==> j <= r < st.len() && st[r].alive && st[r].id == id,
    decreases st.len() - j,
{
    if 0 <= j < st.len() && !(st[j].alive && st[j].id == id) {
        lemma_alive_after(st, j + 1, id);
    }
}

fn alive_after_exec(pop: &Vec<Mind>, from: usize, id: Id) -> (r: Option<usize>)
    ensures
        r matches Some(j) ==> alive_after(states(pop@), from as int, id) == Some(j as int) && from
            <= j < pop.len(),
        r is None ==> alive_after(states(pop@), from as int, id) is None,
{
    let ghost st = states(pop@);
    let mut j: usize = from;
    while j < pop.len()
        invariant
            from <= j,
            st == states(pop@),
            alive_after(st, from as int, id) == alive_after(st, j as int, id),
        decreases pop.len() - j,
    {
        assert(st[j as int] == state_of_mind(pop@[j as int]));
        if pop[j].alive && pop[j].id == id {
            return Some(j);
        }
        j = j + 1;
    }
    None
}

/// `rels` without any copy of `rel`, in order.
pub open spec fn without(rels: Seq<Relation>, rel: Relation) -> Seq<Relation>
    decreases rels.len(),
{
    if rels.len() == 0 {
        Seq::empty()
    } else if rels.last() == rel {
        without(rels.drop_last(), rel)
    } else {
        without(rels.drop_last(), rel).push(rels.last())
    }
}

/// A citizen whose relation `old_verb` to `other` turns into `new_verb`: it
/// loses every copy of the old relation, gains the new one and the log line
/// `line`, takes the family name `last` when one is given, and loses its
/// residence when `homeless`.
pub open spec fn rebonded(
    s: MindState,
    old_verb: RelationVerb,
    new_verb: RelationVerb,
    other: Id,
    line: Seq<char>,
    last: Option<Seq<char>>,
    homeless: bool,
) -> MindState {
    MindState {
        last: match last {
            Some(l) => l,
            None => s.last,
        },
        rels: without(s.rels, (old_verb, other)).push((new_verb, other)),
        log: s.log.push(line),
        residence: if homeless {
            None
        } else {
            s.residence
        },
        ..s
    }
}

fn rebond(
    pop: &mut Vec<Mind>,
    k: usize,
    old_verb: RelationVerb,
    new_verb: RelationVerb,
    other: Id,
    line: String,
    last: Option<String>,
    homeless: bool,
)
    requires
        k < old(pop).len(),
    ensures
        final(pop).len() == old(pop).len(),
        states(final(pop)@) == states(old(pop)@).update(
            k as int,
            rebonded(
                states(old(pop)@)[k as int],
                old_verb,
                new_verb,
                other,
                line@,
                match last {
                    Some(l) => Some(l@),
                    None => None,
                },
                homeless,
            ),
        ),
{
    let ghost pop0 = pop@;
    let ghost last_v: Option<Seq<char>> = match &last {
        Some(l) => Some(l@),
        None => None,
    };
    let mut m = pop.remove(k);
    let ghost m0 = m;
    let mut rels: Vec<Relation> = Vec::new();
    let mut i: usize = 0;
    while i < m.relations.len()
        invariant
            i <= m.relations.len(),
            rels@ == without(m.relations@.take(i as int), (old_verb, other)),
        decreases m.relations.len() - i,
    {
        assert(m.relations@.take(i + 1).drop_last() =~= m.relations@.take(i as int));
        let r = m.relations[i];
        if !(r.0 == old_verb && r.1 == other) {
            rels.push(r);
        }
        i = i + 1;
    }
    assert(m.relations@.take(m.relations.len() as int) =~= m.relations@);
    rels.push((new_verb, other));
    m.relations = rels;
    let ghost log0 = m.activity_log@;
    m.activity_log.push(line);
    assert(str_views(m.activity_log@) =~= str_views(log0).push(line@));
    match last {
        Some(l) => {
            m.last_name = l;
        },
        None => {},
    }
    if homeless {
        m.residence = None;
    }
    pop.insert(k, m);
    proof {
        let a = states(pop@);
        let b = states(pop0).update(
            k as int,
            rebonded(states(pop0)[k as int], old_verb, new_verb, other, line@, last_v, homeless),
        );
        assert(states(pop0)[k as int] == state_of_mind(m0));
        assert(a =~= b);
    }
}

/// A log line of a romantic event: `<what><first> <last> in year <year>`.
pub open spec fn romance_line(what: Seq<char>, first: Seq<char>, last: Seq<char>, year: nat) -> Seq<
    char,
> {
    what + first + " "@ + last + " in year "@ + decimal(year)
}

fn romance_line_exec(what: &str, first: &str, last: &str, year: usize) -> (r: String)
    ensures
        r@ == romance_line(what@, first@, last@, year as nat),
{
    let mut out: Vec<char> = Vec::new();
    push_str(&mut out, what);
    push_str(&mut out, first);
    push_str(&mut out, " ");
    push_str(&mut out, last);
    push_str(&mut out, " in year ");
    let digits = decimal_chars(year as u64);
    push_all(&mut out, &digits);
    string_of(&out)
}

/// What the draws decided for one couple in a yearly update.
pub enum PartnerOutcome {
    /// Nothing changed.
    Kept,
    /// Partners broke up.
    Split,
    /// Partners married, taking family names by the naming format at this
    /// index.
    Married(usize),
    /// Spouses broke up; `true` when the first of them moved out, `false`
    /// when the other did.
    Divorced(bool),
}

/// The partner view of a citizen value, for naming formats.
pub open spec fn state_partner_view(s: MindState) -> PartnerView {
    (s.first, s.last, s.gender)
}

/// The yearly update of the couple of citizen `k`, given the outcome `o`:
/// nothing happens unless `k` is alive and taken, and its first partner or
/// spouse (see [`first_taken`]) is an alive citizen after it (see
/// [`alive_after`]). Partners then may split (both become ex-partners) or
/// marry (both take family names by a naming format and become spouses);
/// spouses may split (both become ex-spouses, and one of them loses its
/// residence). Each of the two gains a log line naming the other.
pub open spec fn partner_update_step(
    st: Seq<MindState>,
    k: int,
    year: nat,
    formats: Seq<(Seq<char>, Seq<char>, Seq<char>, Seq<char>)>,
    o: PartnerOutcome,
) -> Seq<MindState> {
    let m = st[k];
    if !m.alive {
        st
    } else {
        match first_taken(m.rels) {
            None => st,
            Some(rel) => match alive_after(st, k + 1, rel.1) {
                None => st,
                Some(j) => {
                    let p = st[j];
                    let verb = rel.0;
                    if verb == RelationVerb::Partner {
                        match o {
                            PartnerOutcome::Split => st.update(
                                k,
                                rebonded(
                                    m,
                                    verb,
                                    RelationVerb::ExPartner,
                                    p.id,
                                    romance_line("Broke up with Partner "@, p.first, p.last, year),
                                    None,
                                    false,
                                ),
                            ).update(
                                j,
                                rebonded(
                                    p,
                                    verb,
                                    RelationVerb::ExPartner,
                                    m.id,
                                    romance_line("Broke up with Partner "@, m.first, m.last, year),
                                    None,
                                    false,
                                ),
                            ),
                            PartnerOutcome::Married(i) => {
                                let f = formats[i as int];
                                let ml = family_format_spec(
                                    f.0,
                                    state_partner_view(m),
                                    state_partner_view(p),
                                );
                                let pl = family_format_spec(
                                    f.1,
                                    state_partner_view(m),
                                    state_partner_view(p),
                                );
                                st.update(
                                    k,
                                    rebonded(
                                        m,
                                        verb,
                                        RelationVerb::Spouse,
                                        p.id,
                                        romance_line("Married Partner "@, p.first, pl, year),
                                        Some(ml),
                                        false,
                                    ),
                                ).update(
                                    j,
                                    rebonded(
                                        p,
                                        verb,
                                        RelationVerb::Spouse,
                                        m.id,
                                        romance_line("Married Partner "@, m.first, ml, year),
                                        Some(pl),
                                        false,
                                    ),
                                )
                            },
                            _ => st,
                        }
                    } else {
                        match o {
                            PartnerOutcome::Divorced(mind_left) => st.update(
                                k,
                                rebonded(
                                    m,
                                    verb,
                                    RelationVerb::ExSpouse,
                                    p.id,
                                    romance_line("Broke up with Spouse "@, p.first, p.last, year),
                                    None,
                                    mind_left,
                                ),
                            ).update(
                                j,
                                rebonded(
                                    p,
                                    verb,
                                    RelationVerb::ExSpouse,
                                    m.id,
                                    romance_line("Broke up with Spouse "@, m.first, m.last, year),
                                    None,
                                    !mind_left,
                                ),
                            ),
                            _ => st,
                        }
                    }
                },
            },
        }
    }
}

/// An outcome that can come of the draws with `n` naming formats.
pub open spec fn outcome_ok(o: PartnerOutcome, n: nat) -> bool {
    o matches PartnerOutcome::Married(i) ==> i < n
}

/// The yearly updates of the citizens `0 .. os.len()` in order, each with
/// the outcome at its index (see [`partner_update_step`]).
pub open spec fn partner_updates(
    st: Seq<MindState>,
    year: nat,
    formats: Seq<(Seq<char>, Seq<char>, Seq<char>, Seq<char>)>,
    os: Seq<PartnerOutcome>,
) -> Seq<MindState>
    decreases os.len(),
{
    if os.len() == 0 {
        st
    } else {
        partner_update_step(
            partner_updates(st, year, formats, os.drop_last()),
            os.len() - 1,
            year,
            formats,
            os.last(),
        )
    }
}

proof fn lemma_state_single(m: Mind)
    ensures
        single(m) == (first_taken(state_of_mind(m).rels) is None),
{
    if !single(m) {
        let i = choose|i: int| 0 <= i < m.relations@.len() && is_taken_verb(#[trigger] m.relations@[i].0);
        lemma_first_taken_some(m.relations@);
    } else {
        lemma_first_taken_none(m.relations@);
    }
}

proof fn lemma_first_taken_none(rels: Seq<Relation>)
    requires
        forall|i: int| 0 <= i < rels.len() ==> !is_taken_verb(#[trigger] rels[i].0),
    ensures
        first_taken(rels) is None,
    decreases rels.len(),
{
    if rels.len() > 0 {
        assert forall|i: int| 0 <= i < rels.drop_first().len() implies !is_taken_verb(
            #[trigger] rels.drop_first()[i].0,
        ) by {
            assert(rels.drop_first()[i] == rels[i + 1]);
        }
        lemma_first_taken_none(rels.drop_first());
    }
}

/// What the draws decide for a couple in the yearly update: partners split
/// on a draw of 6 in 100; otherwise they marry on a draw of 75 in 1000 (by
/// a naming format drawn among the `n` there are); otherwise nothing
/// changes. Spouses divorce on a draw of 3 in 100, and which of them leaves
/// is a draw of 1 in 2; otherwise nothing changes. (See [`ratio_drawn`],
/// [`below_drawn`].)
pub open spec fn outcome_drawn(partnered: bool, n: nat, o: PartnerOutcome) -> bool {
    if partnered {
        match o {
            PartnerOutcome::Split => ratio_drawn(6, 100, true),
            PartnerOutcome::Married(i) => ratio_drawn(6, 100, false) && ratio_drawn(75, 1000, true) && below_drawn(
                n as usize,
                i,
            ),
            PartnerOutcome::Kept => ratio_drawn(6, 100, false) && ratio_drawn(75, 1000, false),
            PartnerOutcome::Divorced(_) => false,
        }
    } else {
        match o {
            PartnerOutcome::Divorced(left) => ratio_drawn(3, 100, true) && ratio_drawn(1, 2, left),
            PartnerOutcome::Kept => ratio_drawn(3, 100, false),
            _ => false,
        }
    }
}

/// The couple that the `k`-th step of the yearly update of couples takes
/// up (see [`partner_update_step`]), when there is one: whether its members
/// are partners (else spouses).
pub open spec fn couple_at(st: Seq<MindState>, k: int) -> Option<bool> {
    if !st[k].alive {
        None
    } else {
        match first_taken(st[k].rels) {
            None => None,
            Some(rel) => match alive_after(st, k + 1, rel.1) {
                None => None,
                Some(_) => Some(rel.0 == RelationVerb::Partner),
            },
        }
    }
}

/// The outcome `o` of the `k`-th step of the yearly update of couples,
/// with `n` naming formats, is what the draws decided for its couple (see
/// [`outcome_drawn`]), and nothing when there is no couple.
pub open spec fn step_drawn(st: Seq<MindState>, k: int, n: nat, o: PartnerOutcome) -> bool {
    match couple_at(st, k) {
        None => o == PartnerOutcome::Kept,
        Some(partnered) => outcome_drawn(partnered, n, o),
    }
}

/// Each outcome `os[n]` of the yearly update of couples is what the draws
/// decided for the couple of its step (see [`step_drawn`]).
pub open spec fn outcomes_drawn(
    st: Seq<MindState>,
    year: nat,
    formats: Seq<(Seq<char>, Seq<char>, Seq<char>, Seq<char>)>,
    os: Seq<PartnerOutcome>,
) -> bool {
    forall|n: int|
        0 <= n < os.len() ==> step_drawn(
            partner_updates(st, year, formats, os.take(n)),
            n,
            formats.len(),
            #[trigger] os[n],
        )
}

fn update_partner_at(pop: &mut Vec<Mind>, k: usize, year: usize, culture: &crate::culture::CultureConfig) -> (o:
    Ghost<PartnerOutcome>)
    requires
        k < old(pop).len(),
        culture.parental_naming_formats.len() > 0,
    ensures
        final(pop).len() == old(pop).len(),
        outcome_ok(o@, culture.parental_naming_formats.len() as nat),
        step_drawn(states(old(pop)@), k as int, culture.parental_naming_formats.len() as nat, o@),
        states(final(pop)@) == partner_update_step(
            states(old(pop)@),
            k as int,
            year as nat,
            format_views(culture.parental_naming_formats@),
            o@,
        ),
{
    let ghost st = states(pop@);
    let ghost formats = format_views(culture.parental_naming_formats@);
    assert(st[k as int] == state_of_mind(pop@[k as int]));
    if !pop[k].alive {
        return Ghost(PartnerOutcome::Kept);
    }
    proof {
        lemma_state_single(pop@[k as int]);
    }
    let taken = first_taken_exec(&pop[k].relations);
    let (verb, pid) = match taken {
        Some(rel) => rel,
        None => {
            return Ghost(PartnerOutcome::Kept);
        },
    };
    let found = alive_after_exec(pop, k + 1, pid);
    let j = match found {
        Some(j) => j,
        None => {
            return Ghost(PartnerOutcome::Kept);
        },
    };
    assert(st[j as int] == state_of_mind(pop@[j as int]));
    proof {
        lemma_alive_after(st, k + 1, pid);
    }
    let mind_id = pop[k].id;
    if verb == RelationVerb::Partner {
        let split = random_ratio(6, 100);
        proof {
            lemma_ratio_drawn(6, 100, split);
        }
        if split {
            let line_m = romance_line_exec(
                "Broke up with Partner ",
                pop[j].first_name.as_str(),
                pop[j].last_name.as_str(),
                year,
            );
            let line_p = romance_line_exec(
                "Broke up with Partner ",
                pop[k].first_name.as_str(),
                pop[k].last_name.as_str(),
                year,
            );
            proof {
                reveal_strlit("Broke up with Partner ");
            }
            rebond(pop, k, verb, RelationVerb::ExPartner, pid, line_m, None, false);
            rebond(pop, j, verb, RelationVerb::ExPartner, mind_id, line_p, None, false);
            return Ghost(PartnerOutcome::Split);
        }
        let married = random_ratio(75, 1000);
        proof {
            lemma_ratio_drawn(75, 1000, married);
        }
        if married {
            let (ml, pl) = get_new_couple_last_names(&pop[k], &pop[j], culture);
            let ghost i = choose|i: int|
                0 <= i < culture.parental_naming_formats.len() && below_drawn(
                    culture.parental_naming_formats.len(),
                    i as usize,
                ) && ml@ == family_format_spec(
                    (#[trigger] format_views(culture.parental_naming_formats@)[i]).0,
                    mind_partner_view(pop@[k as int]),
                    mind_partner_view(pop@[j as int]),
                ) && pl@ == family_format_spec(
                    format_views(culture.parental_naming_formats@)[i].1,
                    mind_partner_view(pop@[k as int]),
                    mind_partner_view(pop@[j as int]),
                );
            let line_m = romance_line_exec(
                "Married Partner ",
                pop[j].first_name.as_str(),
                pl.as_str(),
                year,
            );
            let line_p = romance_line_exec(
                "Married Partner ",
                pop[k].first_name.as_str(),
                ml.as_str(),
                year,
            );
            proof {
                reveal_strlit("Married Partner ");
            }
            rebond(pop, k, verb, RelationVerb::Spouse, pid, line_m, Some(ml), false);
            rebond(pop, j, verb, RelationVerb::Spouse, mind_id, line_p, Some(pl), false);
            return Ghost(PartnerOutcome::Married(i as usize));
        } else {
            return Ghost(PartnerOutcome::Kept);
        }
    } else {
        let divorced = random_ratio(3, 100);
        proof {
            lemma_ratio_drawn(3, 100, divorced);
        }
        if divorced {
            let mind_left = random_ratio(1, 2);
            proof {
                lemma_ratio_drawn(1, 2, mind_left);
            }
            let line_m = romance_line_exec(
                "Broke up with Spouse ",
                pop[j].first_name.as_str(),
                pop[j].last_name.as_str(),
                year,
            );
            let line_p = romance_line_exec(
                "Broke up with Spouse ",
                pop[k].first_name.as_str(),
                pop[k].last_name.as_str(),
                year,
            );
            proof {
                reveal_strlit("Broke up with Spouse ");
            }
            rebond(pop, k, verb, RelationVerb::ExSpouse, pid, line_m, None, mind_left);
            rebond(pop, j, verb, RelationVerb::ExSpouse, mind_id, line_p, None, !mind_left);
            return Ghost(PartnerOutcome::Divorced(mind_left));
        } else {
            return Ghost(PartnerOutcome::Kept);
        }
    }
}

/// What the yearly update of couples makes of the city `c0` (see
/// [`update_partners_by_year`]): `c1`.
pub open spec fn partners_updated(c0: City, c1: City) -> bool {
    &&& same_but_citizens(c0, c1)
    &&& c1.citizens.len() == c0.citizens.len()
    &&& exists|os: Seq<PartnerOutcome>|
        #![trigger partner_updates(states(c0.citizens@), c0.year as nat, format_views(c0.culture.parental_naming_formats@), os)]
        os.len() == c0.citizens.len() && outcomes_drawn(
            states(c0.citizens@),
            c0.year as nat,
            format_views(c0.culture.parental_naming_formats@),
            os,
        ) && (forall|n: int|
            0 <= n < os.len() ==> outcome_ok(
                #[trigger] os[n],
                c0.culture.parental_naming_formats.len() as nat,
            )) && states(c1.citizens@) == partner_updates(
            states(c0.citizens@),
            c0.year as nat,
            format_views(c0.culture.parental_naming_formats@),
            os,
        )
}

/// The yearly update of couples: each citizen in turn, when alive and
/// taken, and when its first partner or spouse is an alive citizen after it,
/// may split up with or marry its partner, or split up with its spouse, as
/// draws decide (see [`partner_update_step`]). Marriages take family names
/// from the culture's naming formats, which must not be empty.
pub fn update_partners_by_year<'a>(city: &'a mut City) -> (r: &'a mut City)
    requires
        old(city).culture.parental_naming_formats.len() > 0,
    ensures
        partners_updated(*old(city), *r),
        *final(city) == *final(r),
{
    let ghost st0 = states(city.citizens@);
    let ghost formats = format_views(city.culture.parental_naming_formats@);
    let ghost mut os: Seq<PartnerOutcome> = Seq::empty();
    let n = city.citizens.len();
    let mut k: usize = 0;
    while k < n
        invariant
            k <= n == city.citizens.len(),
            same_but_citizens(*old(city), *city),
            st0 == states(old(city).citizens@),
            formats == format_views(city.culture.parental_naming_formats@),
            city.culture.parental_naming_formats.len() > 0,
            os.len() == k,
            forall|m: int|
                0 <= m < os.len() ==> outcome_ok(
                    #[trigger] os[m],
                    city.culture.parental_naming_formats.len() as nat,
                ),
            states(city.citizens@) == partner_updates(st0, city.year as nat, formats, os),
            outcomes_drawn(st0, city.year as nat, formats, os),
        decreases n - k,
    {
        let o = update_partner_at(&mut city.citizens, k, city.year, &city.culture);
        proof {
            let no = os.push(o@);
            assert(no.drop_last() =~= os);
            assert forall|m: int| 0 <= m < no.len() implies step_drawn(
                partner_updates(st0, city.year as nat, formats, no.take(m)),
                m,
                formats.len(),
                #[trigger] no[m],
            ) by {
                if m < os.len() {
                    assert(no.take(m) =~= os.take(m));
                    assert(no[m] == os[m]);
                } else {
                    assert(no.take(m) =~= os);
                }
            }
            os = no;
        }
        k = k + 1;
    }
    city
}

} // verus!

verus! {

/// A pair whose members are both new to the pairs `prev`, and distinct.
pub open spec fn fresh_pair(prev: Seq<(Id, Id)>, p: (Id, Id)) -> bool {
    !flatten_pairs(prev).contains(p.0) && !flatten_pairs(prev).push(p.0).contains(p.1)
}

proof fn lemma_fresh_pairs_distinct(pairs: Seq<(Id, Id)>)
    requires
        forall|n: int| 0 <= n < pairs.len() ==> fresh_pair(pairs.take(n), #[trigger] pairs[n]),
    ensures
        flatten_pairs(pairs).no_duplicates(),
    decreases pairs.len(),
{
    if pairs.len() > 0 {
        let prev = pairs.drop_last();
        assert forall|n: int| 0 <= n < prev.len() implies fresh_pair(prev.take(n), #[trigger] prev[n]) by {
            assert(prev.take(n) =~= pairs.take(n));
            assert(prev[n] == pairs[n]);
            assert(fresh_pair(pairs.take(n), pairs[n]));
        }
        lemma_fresh_pairs_distinct(prev);
        let n = pairs.len() - 1;
        assert(pairs.take(n) =~= prev);
        assert(fresh_pair(pairs.take(n), pairs[n]));
        let f = flatten_pairs(prev);
        let p = pairs.last();
        assert(f.push(p.0).no_duplicates()) by {
            assert forall|a: int, b: int| 0 <= a < b < f.push(p.0).len() implies f.push(p.0)[a]
                != f.push(p.0)[b] by {
                if b == f.len() {
                    assert(f.contains(f[a]));
                }
            }
        }
        let g = f.push(p.0);
        assert forall|a: int, b: int| 0 <= a < b < g.push(p.1).len() implies g.push(p.1)[a]
            != g.push(p.1)[b] by {
            if b == g.len() {
                assert(g.contains(g[a]));
            }
        }
    }
}

/// No citizen is in two of the pairs a partner pass chooses: the ids of
/// the pairs are all distinct.
pub proof fn lemma_partner_pairs_distinct(pop: Seq<Mind>, pairs: Seq<(Id, Id)>)
    requires
        pairs_chosen(pop, pairs),
    ensures
        flatten_pairs(pairs).no_duplicates(),
{
    assert forall|n: int| 0 <= n < pairs.len() implies fresh_pair(pairs.take(n), #[trigger] pairs[n]) by {
        assert(pair_chosen(pop, pairs.take(n), pairs[n]));
    }
    lemma_fresh_pairs_distinct(pairs);
}

/// No citizen is in two of the pairs a yearly partner pass chooses among
/// friends: the ids of the pairs are all distinct.
pub proof fn lemma_friend_pairs_distinct(pop: Seq<Mind>, pairs: Seq<(Id, Id)>)
    requires
        friend_pairs_chosen(pop, pairs),
    ensures
        flatten_pairs(pairs).no_duplicates(),
{
    assert forall|n: int| 0 <= n < pairs.len() implies fresh_pair(pairs.take(n), #[trigger] pairs[n]) by {
        assert(friend_pair_chosen(pop, pairs.take(n), pairs[n]));
    }
    lemma_fresh_pairs_distinct(pairs);
}

} // verus!

verus! {

/// A relation found by [`first_taken`] is one of the relations.
proof fn lemma_first_taken_in(rels: Seq<Relation>)
    ensures
        first_taken(rels) matches Some(r) ==> rels.contains(r),
    decreases rels.len(),
{
    if rels.len() > 0 && !is_taken_verb(rels[0].0) {
        lemma_first_taken_in(rels.drop_first());
        if first_taken(rels.drop_first()) is Some {
            let r = first_taken(rels.drop_first()).unwrap();
            let i = choose|i: int| 0 <= i < rels.drop_first().len() && rels.drop_first()[i] == r;
            assert(rels[i + 1] == r);
        }
    } else if rels.len() > 0 {
        assert(rels[0] == rels[0]);
    }
}

/// What [`without`] keeps was there before.
proof fn lemma_without_within(rels: Seq<Relation>, rel: Relation, x: Relation)
    requires
        without(rels, rel).contains(x),
    ensures
        rels.contains(x),
    decreases rels.len(),
{
    let rest = rels.drop_last();
    let w = without(rest, rel);
    if rels.last() == rel || without(rels, rel).last() != x || x == rel {
        if w.contains(x) {
            lemma_without_within(rest, rel, x);
            let i = choose|i: int| 0 <= i < rest.len() && rest[i] == x;
            assert(rels[i] == x);
        } else {
            let i = choose|i: int| 0 <= i < without(rels, rel).len() && without(rels, rel)[i] == x;
            if rels.last() != rel {
                assert(without(rels, rel) == w.push(rels.last()));
                if i < w.len() {
                    assert(w[i] == x);
                } else {
                    assert(rels.last() == x);
                }
            } else {
                assert(w[i] == x);
            }
        }
    } else {
        assert(rels.last() == x);
    }
}

/// A relation of a citizen whose relation turned over (see [`rebonded`])
/// is the new one or one it held before.
proof fn lemma_rebonded_rels(
    s: MindState,
    old_verb: RelationVerb,
    new_verb: RelationVerb,
    other: Id,
    line: Seq<char>,
    last: Option<Seq<char>>,
    homeless: bool,
    x: Relation,
)
    requires
        rebonded(s, old_verb, new_verb, other, line, last, homeless).rels.contains(x),
    ensures
        x == (new_verb, other) || s.rels.contains(x),
{
    let w = without(s.rels, (old_verb, other));
    let i = choose|i: int| 0 <= i < w.len() + 1 && w.push((new_verb, other))[i] == x;
    if i < w.len() {
        assert(w[i] == x);
        lemma_without_within(s.rels, (old_verb, other), x);
    }
}

/// The spouse relation of citizen `a` to `b` has a source among the
/// citizens `st0`: `a` held it already, or held `b` as partner, or the
/// citizen `b` held `a` as partner.
pub open spec fn spouse_source(st0: Seq<MindState>, a: int, b: Id) -> bool {
    ||| st0[a].rels.contains((RelationVerb::Spouse, b))
    ||| st0[a].rels.contains((RelationVerb::Partner, b))
    ||| exists|i: int| 0 <= i < st0.len() && st0[i].id == b && #[trigger] st0[i].rels.contains((RelationVerb::Partner, st0[a].id))
}

/// The log line `l` records a marriage.
pub open spec fn marriage_line(l: Seq<char>) -> bool {
    exists|f: Seq<char>, la: Seq<char>, y: nat| l == #[trigger] romance_line("Married Partner "@, f, la, y)
}

/// The log `log` records a marriage.
pub open spec fn marriage_logged(log: Seq<Seq<char>>) -> bool {
    exists|i: int| 0 <= i < log.len() && marriage_line(#[trigger] log[i])
}

/// What the yearly update of couples keeps between the citizens `st0`
/// before and `st` after: each citizen's id, age, life and employer; a
/// residence changes only to none; a family name changes only for a
/// citizen whose log records a marriage; every partner relation was held
/// before, and every spouse relation has a source (see [`spouse_source`]).
pub open spec fn couples_kept(st0: Seq<MindState>, st: Seq<MindState>) -> bool {
    &&& st.len() == st0.len()
    &&& forall|a: int| 0 <= a < st.len() && (#[trigger] st[a]).last != st0[a].last ==> marriage_logged(st[a].log)
    &&& forall|a: int|
        0 <= a < st.len() ==> (#[trigger] st[a]).id == st0[a].id && st[a].age == st0[a].age && st[a].alive
            == st0[a].alive && st[a].employer == st0[a].employer && (st[a].residence == st0[a].residence
            || st[a].residence is None)
    &&& forall|a: int, b: Id|
        0 <= a < st.len() && #[trigger] st[a].rels.contains((RelationVerb::Partner, b)) ==> st0[a].rels.contains(
            (RelationVerb::Partner, b),
        )
    &&& forall|a: int, b: Id|
        0 <= a < st.len() && #[trigger] st[a].rels.contains((RelationVerb::Spouse, b)) ==> spouse_source(st0, a, b)
}

proof fn lemma_step_kept(
    st0: Seq<MindState>,
    st: Seq<MindState>,
    k: int,
    year: nat,
    formats: Seq<(Seq<char>, Seq<char>, Seq<char>, Seq<char>)>,
    o: PartnerOutcome,
)
    requires
        couples_kept(st0, st),
        0 <= k < st.len(),
        outcome_ok(o, formats.len()),
    ensures
        couples_kept(st0, partner_update_step(st, k, year, formats, o)),
{
    let st1 = partner_update_step(st, k, year, formats, o);
    let m = st[k];
    if m.alive && first_taken(m.rels) is Some {
        let rel = first_taken(m.rels).unwrap();
        lemma_first_taken_in(m.rels);
        lemma_alive_after(st, k + 1, rel.1);
        if alive_after(st, k + 1, rel.1) is Some {
            let j = alive_after(st, k + 1, rel.1).unwrap();
            assert(k < j < st.len());
            assert(st1.len() == st.len());
            assert forall|a: int, x: Relation| 0 <= a < st.len() && #[trigger] st1[a].rels.contains(x) implies st[a].rels.contains(x)
                || (a == k && x.1 == rel.1 && x.0 != RelationVerb::Partner && (x.0 == RelationVerb::Spouse ==> rel.0 == RelationVerb::Partner))
                || (a == j && x.1 == m.id && x.0 != RelationVerb::Partner && (x.0 == RelationVerb::Spouse ==> rel.0 == RelationVerb::Partner)) by {
                if a == k && st1[a] != st[a] {
                    let p = st[j];
                    if rel.0 == RelationVerb::Partner {
                        match o {
                            PartnerOutcome::Split => lemma_rebonded_rels(m, rel.0, RelationVerb::ExPartner, p.id, romance_line("Broke up with Partner "@, p.first, p.last, year), None, false, x),
                            PartnerOutcome::Married(i) => {
                                let f = formats[i as int];
                                let ml = family_format_spec(f.0, state_partner_view(m), state_partner_view(p));
                                let pl = family_format_spec(f.1, state_partner_view(m), state_partner_view(p));
                                lemma_rebonded_rels(m, rel.0, RelationVerb::Spouse, p.id, romance_line("Married Partner "@, p.first, pl, year), Some(ml), false, x);
                            },
                            _ => {},
                        }
                    } else {
                        match o {
                            PartnerOutcome::Divorced(mind_left) => lemma_rebonded_rels(m, rel.0, RelationVerb::ExSpouse, p.id, romance_line("Broke up with Spouse "@, p.first, p.last, year), None, mind_left, x),
                            _ => {},
                        }
                    }
                } else if a == j && st1[a] != st[a] {
                    let p = st[j];
                    if rel.0 == RelationVerb::Partner {
                        match o {
                            PartnerOutcome::Split => lemma_rebonded_rels(p, rel.0, RelationVerb::ExPartner, m.id, romance_line("Broke up with Partner "@, m.first, m.last, year), None, false, x),
                            PartnerOutcome::Married(i) => {
                                let f = formats[i as int];
                                let ml = family_format_spec(f.0, state_partner_view(m), state_partner_view(p));
                                let pl = family_format_spec(f.1, state_partner_view(m), state_partner_view(p));
                                lemma_rebonded_rels(p, rel.0, RelationVerb::Spouse, m.id, romance_line("Married Partner "@, m.first, ml, year), Some(pl), false, x);
                            },
                            _ => {},
                        }
                    } else {
                        match o {
                            PartnerOutcome::Divorced(mind_left) => lemma_rebonded_rels(p, rel.0, RelationVerb::ExSpouse, m.id, romance_line("Broke up with Spouse "@, m.first, m.last, year), None, !mind_left, x),
                            _ => {},
                        }
                    }
                }
            }
            assert forall|a: int| 0 <= a < st.len() && (#[trigger] st1[a]).last != st0[a].last implies marriage_logged(st1[a].log) by {
                let p = st[j];
                if st1[a] != st[a] && rel.0 == RelationVerb::Partner && o is Married {
                    let i = o->Married_0;
                    let f = formats[i as int];
                    let ml = family_format_spec(f.0, state_partner_view(m), state_partner_view(p));
                    let pl = family_format_spec(f.1, state_partner_view(m), state_partner_view(p));
                    let n = st1[a].log.len() - 1;
                    if a == k {
                        assert(st1[a].log[n] == romance_line("Married Partner "@, p.first, pl, year));
                    } else {
                        assert(st1[a].log[n] == romance_line("Married Partner "@, m.first, ml, year));
                    }
                    assert(marriage_line(st1[a].log[n]));
                } else if st1[a] != st[a] {
                    assert(st1[a].last == st[a].last);
                    let w = choose|w: int| 0 <= w < st[a].log.len() && marriage_line(#[trigger] st[a].log[w]);
                    assert(st1[a].log[w] == st[a].log[w]);
                }
            }
            assert forall|a: int, b: Id|
                0 <= a < st.len() && #[trigger] st1[a].rels.contains((RelationVerb::Spouse, b)) implies spouse_source(st0, a, b) by {
                if !st[a].rels.contains((RelationVerb::Spouse, b)) {
                    assert(st1[a].rels.contains((RelationVerb::Spouse, b)));
                    if a == k {
                        assert(st0[k].rels.contains((RelationVerb::Partner, b)));
                    } else {
                        assert(a == j);
                        assert(st0[k].id == b);
                        assert(st0[k].rels.contains((RelationVerb::Partner, st0[j].id)));
                    }
                }
            }
        }
    }
}

/// The yearly update of couples (see [`update_partners_by_year`]) keeps
/// each citizen's id, age, life and employer; a residence changes only to
/// none; a family name changes only for a citizen whose log then records a
/// marriage; nobody gains a partner; and every spouse relation afterwards was
/// held before, or comes of a partnership held before by either of the two
/// (see [`couples_kept`]).
pub proof fn lemma_couples_law(
    st: Seq<MindState>,
    year: nat,
    formats: Seq<(Seq<char>, Seq<char>, Seq<char>, Seq<char>)>,
    os: Seq<PartnerOutcome>,
)
    requires
        os.len() <= st.len(),
        forall|n: int| 0 <= n < os.len() ==> outcome_ok(#[trigger] os[n], formats.len()),
    ensures
        couples_kept(st, partner_updates(st, year, formats, os)),
    decreases os.len(),
{
    if os.len() == 0 {
        assert(couples_kept(st, st));
    } else {
        let rest = os.drop_last();
        assert forall|n: int| 0 <= n < rest.len() implies outcome_ok(#[trigger] rest[n], formats.len()) by {
            assert(rest[n] == os[n]);
        }
        lemma_couples_law(st, year, formats, rest);
        assert(outcome_ok(os[os.len() - 1], formats.len()));
        lemma_step_kept(st, partner_updates(st, year, formats, rest), os.len() - 1, year, formats, os.last());
    }
}


/// Partner relations among the citizens `st` go both ways: citizen `a`
/// holds citizen `b` as partner exactly when `b` holds `a`.
pub open spec fn partners_mutual(st: Seq<MindState>) -> bool {
    forall|a: int, b: int|
        #![trigger st[a].rels.contains((RelationVerb::Partner, st[b].id))]
        0 <= a < st.len() && 0 <= b < st.len() ==> (st[a].rels.contains((RelationVerb::Partner, st[b].id))
            <==> st[b].rels.contains((RelationVerb::Partner, st[a].id)))
}

/// The yearly update of couples (see [`update_partners_by_year`]), when
/// partner relations go both ways before: nobody gains a partner, and every
/// spouse relation afterwards was held before as a spouse or a partner
/// relation; ids, ages, life and employers are kept, and a residence
/// changes only to none.
pub proof fn lemma_couples_law_mutual(
    st: Seq<MindState>,
    year: nat,
    formats: Seq<(Seq<char>, Seq<char>, Seq<char>, Seq<char>)>,
    os: Seq<PartnerOutcome>,
)
    requires
        os.len() <= st.len(),
        forall|n: int| 0 <= n < os.len() ==> outcome_ok(#[trigger] os[n], formats.len()),
        partners_mutual(st),
    ensures
        ({
            let after = partner_updates(st, year, formats, os);
            &&& couples_kept(st, after)
            &&& forall|a: int, b: Id|
                0 <= a < st.len() && #[trigger] after[a].rels.contains((RelationVerb::Spouse, b)) ==> st[a].rels.contains(
                    (RelationVerb::Spouse, b),
                ) || st[a].rels.contains((RelationVerb::Partner, b))
        }),
{
    lemma_couples_law(st, year, formats, os);
    let after = partner_updates(st, year, formats, os);
    assert forall|a: int, b: Id|
        0 <= a < st.len() && #[trigger] after[a].rels.contains((RelationVerb::Spouse, b)) implies st[a].rels.contains(
        (RelationVerb::Spouse, b),
    ) || st[a].rels.contains((RelationVerb::Partner, b)) by {
        assert(spouse_source(st, a, b));
        if !st[a].rels.contains((RelationVerb::Spouse, b)) && !st[a].rels.contains((RelationVerb::Partner, b)) {
            let i = choose|i: int|
                0 <= i < st.len() && st[i].id == b && #[trigger] st[i].rels.contains((RelationVerb::Partner, st[a].id));
            assert(st[i].rels.contains((RelationVerb::Partner, st[a].id)));
        }
    }
}


/// Who pairs with whom by sexuality: a heterosexual person pairs only with
/// heterosexual people; a homosexual or bisexual person with homosexual
/// and bisexual people; an asexual person with nobody.
pub proof fn lemma_compatible_sexualities(s: Sexuality, t: Sexuality)
    ensures
        compatible_with(s).contains(t) <==> (s == Sexuality::Hetrosexual && t == Sexuality::Hetrosexual) || ((s
            == Sexuality::Homosexual || s == Sexuality::Bisexual) && (t == Sexuality::Homosexual || t
            == Sexuality::Bisexual)),
{
    let c = compatible_with(s);
    if c.contains(t) {
        let i = choose|i: int| 0 <= i < c.len() && c[i] == t;
        assert(c[i] == t);
    }
    if s == Sexuality::Hetrosexual && t == Sexuality::Hetrosexual {
        assert(c[0] == t);
    }
    if (s == Sexuality::Homosexual || s == Sexuality::Bisexual) && t == Sexuality::Homosexual {
        assert(c[0] == t);
    }
    if (s == Sexuality::Homosexual || s == Sexuality::Bisexual) && t == Sexuality::Bisexual {
        assert(c[1] == t);
    }
}

/// A partner a search finds (see [`suitable_partner`]) fits its seeker's
/// sexuality: a heterosexual person's partner is heterosexual, a homosexual
/// or bisexual person's partner is homosexual or bisexual, and an asexual
/// person has no suitable partner.
pub proof fn lemma_partner_sexuality(mind: Mind, c: Mind, ignore: Seq<Id>)
    requires
        suitable_partner(mind, c, ignore),
    ensures
        mind.sexuality != Sexuality::Asexual,
        mind.sexuality == Sexuality::Hetrosexual ==> c.sexuality == Sexuality::Hetrosexual,
        mind.sexuality != Sexuality::Hetrosexual ==> c.sexuality == Sexuality::Homosexual || c.sexuality
            == Sexuality::Bisexual,
{
    lemma_compatible_sexualities(mind.sexuality, c.sexuality);
}

/// A marriage in the yearly update of couples (see
/// [`partner_update_step`]): when citizen `k`, alive, has a partner as its
/// first partner or spouse, alive and listed after it, and they marry by
/// the naming format `i`, then `k` takes the family name the format's first
/// entry makes of the couple, its partner the one the second entry makes,
/// both become spouses of each other, and every other citizen keeps its
/// family name.
pub proof fn lemma_marriage_names(
    st: Seq<MindState>,
    k: int,
    year: nat,
    formats: Seq<(Seq<char>, Seq<char>, Seq<char>, Seq<char>)>,
    i: usize,
    j: int,
)
    requires
        0 <= k < st.len(),
        st[k].alive,
        first_taken(st[k].rels) matches Some(rel) && rel.0 == RelationVerb::Partner && alive_after(
            st,
            k + 1,
            rel.1,
        ) == Some(j),
        i < formats.len(),
    ensures
        ({
            let after = partner_update_step(st, k, year, formats, PartnerOutcome::Married(i));
            let m = state_partner_view(st[k]);
            let p = state_partner_view(st[j]);
            &&& k < j < st.len()
            &&& after.len() == st.len()
            &&& after[k].last == family_format_spec(formats[i as int].0, m, p)
            &&& after[j].last == family_format_spec(formats[i as int].1, m, p)
            &&& after[k].rels.contains((RelationVerb::Spouse, st[j].id))
            &&& after[j].rels.contains((RelationVerb::Spouse, st[k].id))
            &&& forall|c: int| 0 <= c < st.len() && c != k && c != j ==> #[trigger] after[c].last == st[c].last
        }),
{
    let rel = first_taken(st[k].rels).unwrap();
    lemma_alive_after(st, k + 1, rel.1);
    let after = partner_update_step(st, k, year, formats, PartnerOutcome::Married(i));
    let a = after[k].rels;
    let b = after[j].rels;
    assert(a[a.len() - 1] == (RelationVerb::Spouse, st[j].id));
    assert(b[b.len() - 1] == (RelationVerb::Spouse, st[k].id));
}


/// A new couple's relation tells both draws apart: it is a marriage
/// (spouse or ex-spouse) exactly when the couple married, and an ended one
/// (ex-partner or ex-spouse) exactly when it split.
pub proof fn lemma_partner_verb_of(married: bool, split: bool)
    ensures
        (partner_verb_of(married, split) == RelationVerb::Spouse || partner_verb_of(married, split)
            == RelationVerb::ExSpouse) == married,
        (partner_verb_of(married, split) == RelationVerb::ExPartner || partner_verb_of(married, split)
            == RelationVerb::ExSpouse) == split,
{
}

} // verus!
