//! A year of the simulation: the yearly steps in order, each after the
//! checks its step needs.
use crate::city::building::{add_buildings_per_year, buildings_added};
use crate::city::institutions::visits::{run_citizen_shopping, shopping_done, shopping_ok, shopping_ok_exec};
use crate::city::institutions::{
    assign_employment_per_year, create_startups_per_year, employers_known, employers_known_exec,
    employment_assigned, outlets_ready, outlets_ready_exec, random_sackings_per_year, sackings_done,
    startups_created,
};
use crate::city::population::mind::relations::friends::{
    friend_ages_fit, friend_ages_fit_exec, friends_linked, link_friends_within_population_by_year,
    social_known, social_known_exec,
};
use crate::city::population::mind::relations::partners::{
    ages_fit, ages_fit_exec, friends_known, friends_known_exec, link_partners_by_year, partners_linked,
    partners_updated, update_partners_by_year,
};
use crate::city::population::mind::relations::residences::{
    areas_located, areas_located_exec, assign_residences, evictions_done, random_evictions,
    residences_assigned,
};
use crate::city::population::mind::Mind;
use crate::city::{
    advance_year, citizen_ids_distinct, citizen_ids_distinct_exec, institution_ids_distinct,
    institution_ids_distinct_exec, old_age_pass_per_year, old_age_passed, year_advanced, City,
};
use crate::culture::CultureConfig;
use crate::language::{word_views, Word};
use vstd::prelude::*;

verus! {

/// Why a year stops before its end: a lookup found nothing (where the
/// simulation unwraps a missing value), or a number would leave its range.
#[derive(PartialEq, Eq, Structural, Debug, Clone, Copy)]
pub enum YearError {
    Missing,
    Overflow,
}

/// Every citizen can grow a year older.
pub open spec fn ages_below_max(pop: Seq<Mind>) -> bool {
    forall|j: int| 0 <= j < pop.len() ==> (#[trigger] pop[j]).age < u32::MAX
}

/// Whether every citizen can grow a year older (see [`ages_below_max`]).
pub fn ages_below_max_exec(pop: &Vec<Mind>) -> (b: bool)
    ensures
        b == ages_below_max(pop@),
{
    let mut j: usize = 0;
    while j < pop.len()
        invariant
            j <= pop.len(),
            forall|q: int| 0 <= q < j ==> (#[trigger] pop@[q]).age < u32::MAX,
        decreases pop.len() - j,
    {
        if pop[j].age == u32::MAX {
            return false;
        }
        j = j + 1;
    }
    true
}

/// The check before the `i`-th step of a year on the city `c`: `None` when
/// the step can run, else why the year stops there.
pub open spec fn year_check(i: int, c: City, dict: Seq<Word>) -> Option<YearError> {
    if i == 1 {
        if !friend_ages_fit(c.citizens@, c.culture.adult_age) {
            Some(YearError::Overflow)
        } else if !social_known(c.citizens@) {
            Some(YearError::Missing)
        } else {
            None
        }
    } else if i == 2 {
        if !friends_known(c.citizens@) || !citizen_ids_distinct(c.citizens@) {
            Some(YearError::Missing)
        } else if !ages_fit(c.citizens@) {
            Some(YearError::Overflow)
        } else {
            None
        }
    } else if i == 3 {
        if c.culture.parental_naming_formats.len() == 0 {
            Some(YearError::Missing)
        } else {
            None
        }
    } else if i == 4 || i == 9 {
        if i == 9 && !outlets_ready(word_views(dict), c.culture.era) {
            Some(YearError::Missing)
        } else if c.culture.avg_building_footprint < 0 {
            Some(YearError::Missing)
        } else if !(-1073741824 <= c.culture.avg_building_floors < 1073741823) {
            Some(YearError::Overflow)
        } else {
            None
        }
    } else if i == 6 {
        if !areas_located(c) {
            Some(YearError::Missing)
        } else {
            None
        }
    } else if i == 7 {
        if !employers_known(c.citizens@, c.institutions@) {
            Some(YearError::Missing)
        } else {
            None
        }
    } else if i == 8 {
        if !citizen_ids_distinct(c.citizens@) || !institution_ids_distinct(c.institutions@) {
            Some(YearError::Missing)
        } else {
            None
        }
    } else if i == 10 {
        if !shopping_ok(c) {
            Some(YearError::Missing)
        } else {
            None
        }
    } else if i == 11 {
        if c.year < usize::MAX && ages_below_max(c.citizens@) {
            None
        } else {
            Some(YearError::Overflow)
        }
    } else {
        None
    }
}

/// The `i`-th step of a year makes `c1` of the city `c0`: old age, friends,
/// partners, couples, buildings, evictions, housing, sackings, hiring,
/// startups, shopping, and the turn of the year, in that order.
pub open spec fn year_step(i: int, c0: City, c1: City, culture: CultureConfig, dict: Seq<Word>) -> bool {
    if i == 0 {
        old_age_passed(c0, c1, culture)
    } else if i == 1 {
        friends_linked(c0, c1)
    } else if i == 2 {
        partners_linked(c0, c1)
    } else if i == 3 {
        partners_updated(c0, c1)
    } else if i == 4 {
        buildings_added(c0, c1, dict)
    } else if i == 5 {
        evictions_done(c0, c1)
    } else if i == 6 {
        residences_assigned(c0, c1)
    } else if i == 7 {
        sackings_done(c0, c1)
    } else if i == 8 {
        employment_assigned(c0, c1)
    } else if i == 9 {
        startups_created(c0, c1, dict)
    } else if i == 10 {
        shopping_done(c0, c1)
    } else {
        year_advanced(c0, c1)
    }
}

/// The cities `cs` are the first `n` steps of a year: each step's check
/// passed on the city before it, and the step made the next city.
pub open spec fn year_run(cs: Seq<City>, n: int, culture: CultureConfig, dict: Seq<Word>) -> bool {
    &&& cs.len() == n + 1
    &&& forall|i: int|
        0 <= i < n ==> year_check(i, cs[i], dict) is None && year_step(i, #[trigger] cs[i], cs[i + 1], culture, dict)
}

/// The `i`-th step of a year after its check (see [`year_check`],
/// [`year_step`]); when the check fails the city is left as it is.
fn year_part(i: usize, city: &mut City, culture: &CultureConfig, dict: &Vec<Word>) -> (r: Result<(), YearError>)
    requires
        i < 12,
    ensures
        r is Ok ==> year_check(i as int, *old(city), dict@) is None && year_step(
            i as int,
            *old(city),
            *final(city),
            *culture,
            dict@,
        ),
        r matches Err(e) ==> year_check(i as int, *old(city), dict@) == Some(e) && *final(city) == *old(city),
{
    if i == 0 {
        old_age_pass_per_year(city, culture);
    } else if i == 1 {
        if !friend_ages_fit_exec(&city.citizens, city.culture.adult_age) {
            return Err(YearError::Overflow);
        }
        if !social_known_exec(&city.citizens) {
            return Err(YearError::Missing);
        }
        link_friends_within_population_by_year(city);
    } else if i == 2 {
        if !friends_known_exec(&city.citizens) || !citizen_ids_distinct_exec(&city.citizens) {
            return Err(YearError::Missing);
        }
        if !ages_fit_exec(&city.citizens) {
            return Err(YearError::Overflow);
        }
        link_partners_by_year(city);
    } else if i == 3 {
        if city.culture.parental_naming_formats.len() == 0 {
            return Err(YearError::Missing);
        }
        update_partners_by_year(city);
    } else if i == 4 || i == 9 {
        if i == 9 && !outlets_ready_exec(dict, &city.culture.era) {
            return Err(YearError::Missing);
        }
        if city.culture.avg_building_footprint < 0 {
            return Err(YearError::Missing);
        }
        if !(-1073741824 <= city.culture.avg_building_floors && city.culture.avg_building_floors < 1073741823) {
            return Err(YearError::Overflow);
        }
        if i == 4 {
            add_buildings_per_year(city, dict);
        } else {
            create_startups_per_year(city, dict);
        }
    } else if i == 5 {
        random_evictions(city);
    } else if i == 6 {
        if !areas_located_exec(city) {
            return Err(YearError::Missing);
        }
        assign_residences(city);
    } else if i == 7 {
        if !employers_known_exec(&city.citizens, &city.institutions) {
            return Err(YearError::Missing);
        }
        random_sackings_per_year(city);
    } else if i == 8 {
        if !citizen_ids_distinct_exec(&city.citizens) || !institution_ids_distinct_exec(&city.institutions) {
            return Err(YearError::Missing);
        }
        assign_employment_per_year(city);
    } else if i == 10 {
        if !shopping_ok_exec(city) {
            return Err(YearError::Missing);
        }
        run_citizen_shopping(city);
    } else {
        if !(city.year < usize::MAX && ages_below_max_exec(&city.citizens)) {
            return Err(YearError::Overflow);
        }
        advance_year(city);
    }
    Ok(())
}

/// A year of the simulation: its twelve steps in order (see
/// [`year_step`]), each after its check (see [`year_check`]). `Ok` when
/// every check passed and every step ran; else the error of the first
/// check that failed, with the city as the steps before it left it.
pub fn simulate_year(city: &mut City, culture: &CultureConfig, dict: &Vec<Word>) -> (r: Result<(), YearError>)
    ensures
        r is Ok ==> exists|cs: Seq<City>|
            #[trigger] year_run(cs, 12, *culture, dict@) && cs[0] == *old(city) && cs[12] == *final(city),
        r matches Err(e) ==> exists|cs: Seq<City>, n: int|
            0 <= n < 12 && #[trigger] year_run(cs, n, *culture, dict@) && cs[0] == *old(city) && cs[n] == *final(city)
                && year_check(n, cs[n], dict@) == Some(e),
{
    let ghost start = *city;
    let ghost mut cs: Seq<City> = seq![*city];
    let mut i: usize = 0;
    while i < 12
        invariant
            i <= 12,
            start == *old(city),
            year_run(cs, i as int, *culture, dict@),
            cs[0] == start,
            cs[i as int] == *city,
        decreases 12 - i,
    {
        match year_part(i, city, culture, dict) {
            Ok(()) => {
                proof {
                    let ncs = cs.push(*city);
                    assert forall|j: int| 0 <= j < i + 1 implies year_check(j, ncs[j], dict@) is None && year_step(
                        j,
                        #[trigger] ncs[j],
                        ncs[j + 1],
                        *culture,
                        dict@,
                    ) by {
                        if j < i {
                            assert(ncs[j] == cs[j]);
                            assert(ncs[j + 1] == cs[j + 1]);
                        }
                    }
                    cs = ncs;
                }
            },
            Err(e) => {
                assert(year_run(cs, i as int, *culture, dict@));
                return Err(e);
            },
        }
        i = i + 1;
    }
    assert(year_run(cs, 12, *culture, dict@));
    Ok(())
}

} // verus!
