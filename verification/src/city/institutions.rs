//! Institutions: public services and private businesses, and the work they
//! give citizens.
pub mod food_institutions;
pub mod visits;

use crate::city::building::{owner_of, owner_of_exec, Building, BuildingFloor, BuildingFloorArea};
use crate::city::population::mind::relations::{same_but_citizens, ADULT_AGE_FROM};
use crate::city::population::mind::{add_leaving_workplace_to_mind_log, add_new_workplace_to_mind_log, add_startup_creation_to_mind_log, logged, state_of_mind, states, work_line, Mind, MindState};
use crate::city::locations::Location;
use crate::city::locations::{find_location, find_location_exec};
use crate::city::{add_institution_to_city, citizen_ids_distinct, institution_ids_distinct, lemma_placed_layout, placed, registered, City};
use crate::city::institutions::food_institutions::{
    dishes_ready, dishes_ready_exec, era_of, general_outlet_made, general_outlets_ready, general_outlets_ready_exec,
    random_general_food_outlet,
    random_specialist_food_outlet, specialist_outlet_made,
};
use crate::culture::CultureConfig;
use crate::language::{word_views, Era, Word, WordView};
use crate::random::{lemma_ratio_drawn, new_id, random_below, random_ratio, ratio_drawn, shuffle, Id};
use crate::templater::{render_one_of, render_template_2, renders};
use crate::text::{chars_of, push_all, push_str, string_of};
use vstd::prelude::*;

verus! {

/// What an institution does.
#[derive(PartialEq, Eq, Structural, Debug, Clone, Copy)]
pub enum InstituteType {
    PowerStation,
    WaterTreatmentWorks,
    SewageWorks,
    Library,
    School,
    University,
    Court,
    CityHall,
    Prison,
    PoliceStation,
    Hospital,
    FoodService,
    SpecialistFoodService,
    GeneralRetail,
    SpecialistRetail,
    EntertainmentVenue,
    IndustrialManufacturers,
    AdministrationService,
}

impl InstituteType {
    /// The name of the value, as data files and templates spell it.
    pub open spec fn label(self) -> Seq<char> {
        match self {
            InstituteType::PowerStation => "PowerStation"@,
            InstituteType::WaterTreatmentWorks => "WaterTreatmentWorks"@,
            InstituteType::SewageWorks => "SewageWorks"@,
            InstituteType::Library => "Library"@,
            InstituteType::School => "School"@,
            InstituteType::University => "University"@,
            InstituteType::Court => "Court"@,
            InstituteType::CityHall => "CityHall"@,
            InstituteType::Prison => "Prison"@,
            InstituteType::PoliceStation => "PoliceStation"@,
            InstituteType::Hospital => "Hospital"@,
            InstituteType::FoodService => "FoodService"@,
            InstituteType::SpecialistFoodService => "SpecialistFoodService"@,
            InstituteType::GeneralRetail => "GeneralRetail"@,
            InstituteType::SpecialistRetail => "SpecialistRetail"@,
            InstituteType::EntertainmentVenue => "EntertainmentVenue"@,
            InstituteType::IndustrialManufacturers => "IndustrialManufacturers"@,
            InstituteType::AdministrationService => "AdministrationService"@,
        }
    }

    /// The name of the value, as data files and templates spell it.
    pub fn to_string(&self) -> (s: String)
        ensures
            s@ == self.label(),
    {
        match self {
            InstituteType::PowerStation => String::from_str("PowerStation"),
            InstituteType::WaterTreatmentWorks => String::from_str("WaterTreatmentWorks"),
            InstituteType::SewageWorks => String::from_str("SewageWorks"),
            InstituteType::Library => String::from_str("Library"),
            InstituteType::School => String::from_str("School"),
            InstituteType::University => String::from_str("University"),
            InstituteType::Court => String::from_str("Court"),
            InstituteType::CityHall => String::from_str("CityHall"),
            InstituteType::Prison => String::from_str("Prison"),
            InstituteType::PoliceStation => String::from_str("PoliceStation"),
            InstituteType::Hospital => String::from_str("Hospital"),
            InstituteType::FoodService => String::from_str("FoodService"),
            InstituteType::SpecialistFoodService => String::from_str("SpecialistFoodService"),
            InstituteType::GeneralRetail => String::from_str("GeneralRetail"),
            InstituteType::SpecialistRetail => String::from_str("SpecialistRetail"),
            InstituteType::EntertainmentVenue => String::from_str("EntertainmentVenue"),
            InstituteType::IndustrialManufacturers => String::from_str("IndustrialManufacturers"),
            InstituteType::AdministrationService => String::from_str("AdministrationService"),
        }
    }

    /// Every value, in declaration order.
    pub open spec fn all() -> Seq<InstituteType> {
        seq![InstituteType::PowerStation, InstituteType::WaterTreatmentWorks, InstituteType::SewageWorks, InstituteType::Library, InstituteType::School, InstituteType::University, InstituteType::Court, InstituteType::CityHall, InstituteType::Prison, InstituteType::PoliceStation, InstituteType::Hospital, InstituteType::FoodService, InstituteType::SpecialistFoodService, InstituteType::GeneralRetail, InstituteType::SpecialistRetail, InstituteType::EntertainmentVenue, InstituteType::IndustrialManufacturers, InstituteType::AdministrationService]
    }

    /// The names of all values, in declaration order.
    pub open spec fn labels() -> Seq<Seq<char>> {
        Self::all().map_values(|t: InstituteType| t.label())
    }

    /// Every value, in declaration order.
    pub fn iter() -> (v: Vec<InstituteType>)
        ensures
            v@ == Self::all(),
    {
        let v = vec![InstituteType::PowerStation, InstituteType::WaterTreatmentWorks, InstituteType::SewageWorks, InstituteType::Library, InstituteType::School, InstituteType::University, InstituteType::Court, InstituteType::CityHall, InstituteType::Prison, InstituteType::PoliceStation, InstituteType::Hospital, InstituteType::FoodService, InstituteType::SpecialistFoodService, InstituteType::GeneralRetail, InstituteType::SpecialistRetail, InstituteType::EntertainmentVenue, InstituteType::IndustrialManufacturers, InstituteType::AdministrationService];
        assert(v@ =~= Self::all());
        v
    }
}

/// The public services a city may run.
#[derive(PartialEq, Eq, Structural, Debug, Clone, Copy)]
pub enum PublicService {
    Library,
    School,
    University,
    Court,
    CityHall,
    Prison,
    PoliceStation,
    Hospital,
}

impl PublicService {
    /// The name of the value, as data files and templates spell it.
    pub open spec fn label(self) -> Seq<char> {
        match self {
            PublicService::Library => "Library"@,
            PublicService::School => "School"@,
            PublicService::University => "University"@,
            PublicService::Court => "Court"@,
            PublicService::CityHall => "CityHall"@,
            PublicService::Prison => "Prison"@,
            PublicService::PoliceStation => "PoliceStation"@,
            PublicService::Hospital => "Hospital"@,
        }
    }

    /// The name of the value, as data files and templates spell it.
    pub fn to_string(&self) -> (s: String)
        ensures
            s@ == self.label(),
    {
        match self {
            PublicService::Library => String::from_str("Library"),
            PublicService::School => String::from_str("School"),
            PublicService::University => String::from_str("University"),
            PublicService::Court => String::from_str("Court"),
            PublicService::CityHall => String::from_str("CityHall"),
            PublicService::Prison => String::from_str("Prison"),
            PublicService::PoliceStation => String::from_str("PoliceStation"),
            PublicService::Hospital => String::from_str("Hospital"),
        }
    }

    /// Every value, in declaration order.
    pub open spec fn all() -> Seq<PublicService> {
        seq![PublicService::Library, PublicService::School, PublicService::University, PublicService::Court, PublicService::CityHall, PublicService::Prison, PublicService::PoliceStation, PublicService::Hospital]
    }

    /// The names of all values, in declaration order.
    pub open spec fn labels() -> Seq<Seq<char>> {
        Self::all().map_values(|t: PublicService| t.label())
    }

    /// Every value, in declaration order.
    pub fn iter() -> (v: Vec<PublicService>)
        ensures
            v@ == Self::all(),
    {
        let v = vec![PublicService::Library, PublicService::School, PublicService::University, PublicService::Court, PublicService::CityHall, PublicService::Prison, PublicService::PoliceStation, PublicService::Hospital];
        assert(v@ =~= Self::all());
        v
    }
}


/// An institution of the city.
pub struct Institution {
    pub id: Id,
    pub name: String,
    pub public: bool,
    pub institute_type: InstituteType,
    pub size: usize,
    pub serves: Vec<String>,
    pub annual_visits: usize,
}

/// The institutions every city has, in the order they are founded.
pub open spec fn public_institutes() -> Seq<InstituteType> {
    seq![
        InstituteType::PowerStation,
        InstituteType::WaterTreatmentWorks,
        InstituteType::SewageWorks,
        InstituteType::Library,
        InstituteType::School,
        InstituteType::University,
        InstituteType::Court,
        InstituteType::CityHall,
        InstituteType::Prison,
        InstituteType::PoliceStation,
        InstituteType::Hospital,
    ]
}

/// The name of an institution type in an era: power stations, water works,
/// sewage works and police stations are gallows, a spring, latrines and a
/// guard house in fantasy and medieval cities; the city hall is
/// `City Hall`; power stations, water treatment and sewage works and police
/// stations have spaced names otherwise; every other type is its own name.
pub open spec fn institute_label(i: InstituteType, era: Option<Era>) -> Seq<char> {
    let old_world = era == Some(Era::Fantasy) || era == Some(Era::Medieval);
    match i {
        InstituteType::PowerStation => if old_world {
            "Gallows"@
        } else {
            "Power Station"@
        },
        InstituteType::WaterTreatmentWorks => if old_world {
            "Spring"@
        } else {
            "Water Treatment Works"@
        },
        InstituteType::SewageWorks => if old_world {
            "Latrines"@
        } else {
            "Sewage Works"@
        },
        InstituteType::CityHall => "City Hall"@,
        InstituteType::PoliceStation => if old_world {
            "Guard House"@
        } else {
            "Police Station"@
        },
        _ => i.label(),
    }
}

/// The name of an institution type in an era (see [`institute_label`]).
pub fn label_insitute_type(i: &InstituteType, era: &Option<Era>) -> (r: String)
    ensures
        r@ == institute_label(*i, *era),
{
    let old_world = match era {
        Some(Era::Fantasy) | Some(Era::Medieval) => true,
        _ => false,
    };
    match i {
        InstituteType::PowerStation => if old_world {
            String::from_str("Gallows")
        } else {
            String::from_str("Power Station")
        },
        InstituteType::WaterTreatmentWorks => if old_world {
            String::from_str("Spring")
        } else {
            String::from_str("Water Treatment Works")
        },
        InstituteType::SewageWorks => if old_world {
            String::from_str("Latrines")
        } else {
            String::from_str("Sewage Works")
        },
        InstituteType::CityHall => String::from_str("City Hall"),
        InstituteType::PoliceStation => if old_world {
            String::from_str("Guard House")
        } else {
            String::from_str("Police Station")
        },
        _ => i.to_string(),
    }
}

} // verus!

verus! {

/// Area `a` is owned by the institution with id `id`.
pub open spec fn owned_by(a: BuildingFloorArea, id: Id) -> bool {
    a.owning_institution == Some(id)
}

/// The index of the first area of `areas` owned by `id`.
pub open spec fn first_owned_area(areas: Seq<BuildingFloorArea>, id: Id) -> Option<int>
    decreases areas.len(),
{
    if areas.len() == 0 {
        None
    } else {
        match first_owned_area(areas.drop_last(), id) {
            Some(i) => Some(i),
            None => if owned_by(areas.last(), id) {
                Some(areas.len() - 1)
            } else {
                None
            },
        }
    }
}

/// The index of the first floor of `floors` with an area owned by `id`.
pub open spec fn first_owning_floor(floors: Seq<BuildingFloor>, id: Id) -> Option<int>
    decreases floors.len(),
{
    if floors.len() == 0 {
        None
    } else {
        match first_owning_floor(floors.drop_last(), id) {
            Some(i) => Some(i),
            None => if first_owned_area(floors.last().areas@, id) is Some {
                Some(floors.len() - 1)
            } else {
                None
            },
        }
    }
}

/// The index of the first building of `bs` with an area owned by `id`.
pub open spec fn first_owning_building(bs: Seq<Building>, id: Id) -> Option<int>
    decreases bs.len(),
{
    if bs.len() == 0 {
        None
    } else {
        match first_owning_building(bs.drop_last(), id) {
            Some(i) => Some(i),
            None => if first_owning_floor(bs.last().floors@, id) is Some {
                Some(bs.len() - 1)
            } else {
                None
            },
        }
    }
}

fn first_owned_area_exec(areas: &Vec<BuildingFloorArea>, id: Id) -> (r: Option<usize>)
    ensures
        r matches Some(i) ==> first_owned_area(areas@, id) == Some(i as int) && i < areas.len(),
        r is None ==> first_owned_area(areas@, id) is None,
{
    let mut i: usize = 0;
    while i < areas.len()
        invariant
            i <= areas.len(),
            first_owned_area(areas@.take(i as int), id) is None,
        decreases areas.len() - i,
    {
        assert(areas@.take(i + 1).drop_last() =~= areas@.take(i as int));
        if areas[i].owning_institution == Some(id) {
            proof {
                lemma_first_owned_area_prefix(areas@, id, i + 1);
            }
            return Some(i);
        }
        i = i + 1;
    }
    assert(areas@.take(areas.len() as int) =~= areas@);
    None
}

proof fn lemma_first_owned_area_prefix(areas: Seq<BuildingFloorArea>, id: Id, n: int)
    requires
        0 <= n <= areas.len(),
        first_owned_area(areas.take(n), id) is Some,
    ensures
        first_owned_area(areas, id) == first_owned_area(areas.take(n), id),
    decreases areas.len() - n,
{
    if n < areas.len() {
        assert(areas.take(n + 1).drop_last() =~= areas.take(n));
        lemma_first_owned_area_prefix(areas, id, n + 1);
    } else {
        assert(areas.take(n) =~= areas);
    }
}

fn first_owning_floor_exec(floors: &Vec<BuildingFloor>, id: Id) -> (r: Option<usize>)
    ensures
        r matches Some(i) ==> first_owning_floor(floors@, id) == Some(i as int) && i < floors.len(),
        r is None ==> first_owning_floor(floors@, id) is None,
{
    let mut i: usize = 0;
    while i < floors.len()
        invariant
            i <= floors.len(),
            first_owning_floor(floors@.take(i as int), id) is None,
        decreases floors.len() - i,
    {
        assert(floors@.take(i + 1).drop_last() =~= floors@.take(i as int));
        if first_owned_area_exec(&floors[i].areas, id).is_some() {
            proof {
                lemma_first_owning_floor_prefix(floors@, id, i + 1);
            }
            return Some(i);
        }
        i = i + 1;
    }
    assert(floors@.take(floors.len() as int) =~= floors@);
    None
}

proof fn lemma_first_owning_floor_prefix(floors: Seq<BuildingFloor>, id: Id, n: int)
    requires
        0 <= n <= floors.len(),
        first_owning_floor(floors.take(n), id) is Some,
    ensures
        first_owning_floor(floors, id) == first_owning_floor(floors.take(n), id),
    decreases floors.len() - n,
{
    if n < floors.len() {
        assert(floors.take(n + 1).drop_last() =~= floors.take(n));
        lemma_first_owning_floor_prefix(floors, id, n + 1);
    } else {
        assert(floors.take(n) =~= floors);
    }
}

pub(crate) fn first_owning_building_exec(bs: &Vec<Building>, id: Id) -> (r: Option<usize>)
    ensures
        r matches Some(i) ==> first_owning_building(bs@, id) == Some(i as int) && i < bs.len(),
        r is None ==> first_owning_building(bs@, id) is None,
{
    let mut i: usize = 0;
    while i < bs.len()
        invariant
            i <= bs.len(),
            first_owning_building(bs@.take(i as int), id) is None,
        decreases bs.len() - i,
    {
        assert(bs@.take(i + 1).drop_last() =~= bs@.take(i as int));
        if first_owning_floor_exec(&bs[i].floors, id).is_some() {
            proof {
                lemma_first_owning_building_prefix(bs@, id, i + 1);
            }
            return Some(i);
        }
        i = i + 1;
    }
    assert(bs@.take(bs.len() as int) =~= bs@);
    None
}

proof fn lemma_first_owning_building_prefix(bs: Seq<Building>, id: Id, n: int)
    requires
        0 <= n <= bs.len(),
        first_owning_building(bs.take(n), id) is Some,
    ensures
        first_owning_building(bs, id) == first_owning_building(bs.take(n), id),
    decreases bs.len() - n,
{
    if n < bs.len() {
        assert(bs.take(n + 1).drop_last() =~= bs.take(n));
        lemma_first_owning_building_prefix(bs, id, n + 1);
    } else {
        assert(bs.take(n) =~= bs);
    }
}

/// The first building with an area owned by the institution (see
/// [`first_owning_building`]).
pub fn find_institution_building<'a>(institution: &Institution, city: &'a City) -> (r: Option<
    &'a Building,
>)
    ensures
        match first_owning_building(city.buildings@, institution.id) {
            Some(i) => r == Some(&city.buildings@[i]),
            None => r is None,
        },
{
    match first_owning_building_exec(&city.buildings, institution.id) {
        Some(i) => Some(&city.buildings[i]),
        None => None,
    }
}

} // verus!

verus! {

/// The building, floor, area and location of an institution: the first
/// building with an area it owns, the first such floor of it, the first
/// such area of that floor, and the building's location. The institution
/// must own an area of a building that stands at a location of the city.
pub fn find_institution_address<'a>(institution: &Institution, city: &'a City) -> (r: (
    &'a Building,
    &'a BuildingFloor,
    &'a BuildingFloorArea,
    &'a Location,
))
    requires
        first_owning_building(city.buildings@, institution.id) matches Some(b) && city.buildings@[b].location_id
            matches Some(l) && find_location(city.areas@, l) is Some,
    ensures
        ({
            let b = first_owning_building(city.buildings@, institution.id).unwrap();
            let building = city.buildings@[b];
            let f = first_owning_floor(building.floors@, institution.id).unwrap();
            let floor = building.floors@[f];
            let a = first_owned_area(floor.areas@, institution.id).unwrap();
            let l = find_location(city.areas@, building.location_id.unwrap()).unwrap();
            &&& *r.0 == building
            &&& *r.1 == floor
            &&& *r.2 == floor.areas@[a]
            &&& *r.3 == city.areas@[l]
        }),
{
    let b = first_owning_building_exec(&city.buildings, institution.id).unwrap();
    let building = &city.buildings[b];
    proof {
        lemma_first_owning_building_in(city.buildings@, institution.id);
    }
    let f = first_owning_floor_exec(&building.floors, institution.id).unwrap();
    let floor = &building.floors[f];
    proof {
        lemma_first_owning_floor_in(building.floors@, institution.id);
    }
    let a = first_owned_area_exec(&floor.areas, institution.id).unwrap();
    let l = find_location_exec(&city.areas, building.location_id.unwrap()).unwrap();
    (building, floor, &floor.areas[a], &city.areas[l])
}

proof fn lemma_first_owning_building_in(bs: Seq<Building>, id: Id)
    ensures
        first_owning_building(bs, id) matches Some(i) ==> 0 <= i < bs.len() && first_owning_floor(
            bs[i].floors@,
            id,
        ) is Some,
    decreases bs.len(),
{
    if bs.len() > 0 {
        lemma_first_owning_building_in(bs.drop_last(), id);
    }
}

proof fn lemma_first_owning_floor_in(floors: Seq<BuildingFloor>, id: Id)
    ensures
        first_owning_floor(floors, id) matches Some(i) ==> 0 <= i < floors.len() && first_owned_area(
            floors[i].areas@,
            id,
        ) is Some,
    decreases floors.len(),
{
    if floors.len() > 0 {
        lemma_first_owning_floor_in(floors.drop_last(), id);
    }
}

/// The largest size, exclusive, of a public institution.
pub const PUBLIC_INSTITUTE_BASE_SIZE: usize = 20;

/// The largest size, exclusive, of a private institution.
pub const PRIVATE_INSTITUTE_BASE_SIZE: usize = 10;

/// A new institution with nothing served and no visits yet.
pub open spec fn fresh_institution(i: Institution, public: bool, t: InstituteType, max_size: usize) -> bool {
    &&& i.public == public
    &&& i.institute_type == t
    &&& i.size < max_size
    &&& i.serves@.len() == 0
    &&& i.annual_visits == 0
}

fn make_institution(name: String, public: bool, t: InstituteType, max_size: usize) -> (r: Institution)
    requires
        max_size > 0,
    ensures
        r.name == name,
        fresh_institution(r, public, t, max_size),
{
    Institution {
        id: new_id(),
        name,
        public,
        institute_type: t,
        size: random_below(max_size),
        serves: Vec::new(),
        annual_visits: 0,
    }
}

/// The public institution of type `public_institutes()[k]`: named after a
/// historical figure from the dictionary and the type's label for the era
/// (see [`institute_label`]), of a size below [`PUBLIC_INSTITUTE_BASE_SIZE`].
pub open spec fn public_made(i: Institution, k: int, dict: Seq<WordView>, era: Option<Era>) -> bool {
    &&& fresh_institution(i, true, public_institutes()[k], PUBLIC_INSTITUTE_BASE_SIZE)
    &&& exists|n: Seq<char>|
        #[trigger] renders(dict, era, "{{Noun(HistoricalFigure)}}"@, n) && i.name@ == n + " "@
            + institute_label(public_institutes()[k], era)
}

/// The public institutions: one of each public type (see [`public_made`]).
pub fn generate_public_institutions(dict: &Vec<Word>, era: &Option<Era>) -> (r: Vec<Institution>)
    ensures
        r.len() == public_institutes().len(),
        forall|k: int| 0 <= k < r.len() ==> public_made(#[trigger] r@[k], k, word_views(dict@), *era),
{
    let types = vec![
        InstituteType::PowerStation,
        InstituteType::WaterTreatmentWorks,
        InstituteType::SewageWorks,
        InstituteType::Library,
        InstituteType::School,
        InstituteType::University,
        InstituteType::Court,
        InstituteType::CityHall,
        InstituteType::Prison,
        InstituteType::PoliceStation,
        InstituteType::Hospital,
    ];
    assert(types@ =~= public_institutes());
    let mut output: Vec<Institution> = Vec::new();
    let mut k: usize = 0;
    while k < types.len()
        invariant
            k <= types.len(),
            types@ == public_institutes(),
            output.len() == k,
            forall|j: int|
                0 <= j < k ==> public_made(#[trigger] output@[j], j, word_views(dict@), *era),
        decreases types.len() - k,
    {
        let figure = render_template_2("{{Noun(HistoricalFigure)}}", dict, era);
        let label = label_insitute_type(&types[k], era);
        let mut name = chars_of(figure.as_str());
        push_str(&mut name, " ");
        push_str(&mut name, label.as_str());
        let inst = make_institution(string_of(&name), true, types[k], PUBLIC_INSTITUTE_BASE_SIZE);
        let ghost prev = output@;
        output.push(inst);
        proof {
            assert(output@[k as int].name@ == figure@ + " "@ + institute_label(
                public_institutes()[k as int],
                *era,
            ));
            assert(public_made(output@[k as int], k as int, word_views(dict@), *era));
            assert forall|j: int| 0 <= j < k + 1 implies public_made(
                #[trigger] output@[j],
                j,
                word_views(dict@),
                *era,
            ) by {
                if j < k {
                    assert(output@[j] == prev[j]);
                }
            }
        }
        k = k + 1;
    }
    output
}

/// The templates of the names of specialist retailers.
pub open spec fn specialist_retailer_templates() -> Seq<Seq<char>> {
    seq![
        "{{Adjective(Position, Quality, Age, Colour)}} {{Noun(LastName)}} {{Noun(RetailerSpecialist)}}"@,
        "{{Adjective(Position, Quality, Age, Colour)}} {{Noun(LastName)}}'s {{Noun(RetailerSpecialist)}}"@,
        "{{Noun(LastName)}} {{Noun(RetailerSpecialist)}}"@,
        "{{Noun(LastName)}}'s {{Noun(RetailerSpecialist)}}"@,
    ]
}

/// The templates of the names of general retailers.
pub open spec fn general_retailer_templates() -> Seq<Seq<char>> {
    seq![
        "{{Adjective(Position, Quality, Age, Colour)}} {{Noun(LastName}} {{Noun(GeneralRetailerName)}}"@,
        "{{Adjective(Position, Quality, Age, Colour)}} {{Noun(LastName}}'s {{Noun(GeneralRetailerName)}}"@,
        "{{Noun(LastName}} {{Noun(GeneralRetailerName)}}"@,
        "{{Noun(LastName}}'s {{Noun(GeneralRetailerName)}}"@,
    ]
}

/// The templates of the names of administrative services.
pub open spec fn admin_templates() -> Seq<Seq<char>> {
    seq![
        "{{Adjective(Position, Quality, Age, Colour)}} {{Noun(LastName}} {{Noun(ServiceAdmin)}}"@,
        "{{Adjective(Position, Quality, Age, Colour)}} {{Noun(LastName}}'s {{Noun(ServiceAdmin)}}"@,
        "{{Noun(LastName}} {{Noun(ServiceAdmin)}}"@,
        "{{Noun(LastName}}'s {{Noun(ServiceAdmin)}}"@,
    ]
}

/// A private institution of type `t` named from one of the templates (see
/// [`renders`]), of a size drawn below [`PRIVATE_INSTITUTE_BASE_SIZE`].
pub open spec fn private_made(
    i: Institution,
    t: InstituteType,
    templates: Seq<Seq<char>>,
    dict: Seq<WordView>,
    era: Option<Era>,
) -> bool {
    &&& fresh_institution(i, false, t, PRIVATE_INSTITUTE_BASE_SIZE)
    &&& exists|k: int| 0 <= k < templates.len() && renders(dict, era, #[trigger] templates[k], i.name@)
}

fn private_institution(templates: &Vec<&str>, t: InstituteType, dict: &Vec<Word>, era: &Option<Era>) -> (r:
    Institution)
    requires
        templates.len() > 0,
    ensures
        fresh_institution(r, false, t, PRIVATE_INSTITUTE_BASE_SIZE),
        exists|k: int|
            0 <= k < templates.len() && renders(
                word_views(dict@),
                *era,
                (#[trigger] templates@[k])@,
                r.name@,
            ),
{
    let name = render_one_of(templates, dict, era);
    make_institution(name, false, t, PRIVATE_INSTITUTE_BASE_SIZE)
}

/// A specialist retailer (see [`private_made`]).
pub fn generate_specialist_retailer(dict: &Vec<Word>, era: &Option<Era>) -> (r: Institution)
    ensures
        private_made(
            r,
            InstituteType::SpecialistRetail,
            specialist_retailer_templates(),
            word_views(dict@),
            *era,
        ),
{
    let templates = vec![
        "{{Adjective(Position, Quality, Age, Colour)}} {{Noun(LastName)}} {{Noun(RetailerSpecialist)}}",
        "{{Adjective(Position, Quality, Age, Colour)}} {{Noun(LastName)}}'s {{Noun(RetailerSpecialist)}}",
        "{{Noun(LastName)}} {{Noun(RetailerSpecialist)}}",
        "{{Noun(LastName)}}'s {{Noun(RetailerSpecialist)}}",
    ];
    let r = private_institution(&templates, InstituteType::SpecialistRetail, dict, era);
    proof {
        let k = choose|k: int|
            0 <= k < templates.len() && renders(
                word_views(dict@),
                *era,
                (#[trigger] templates@[k])@,
                r.name@,
            );
        assert(templates@[k]@ == specialist_retailer_templates()[k]);
    }
    r
}

/// A general retailer (see [`private_made`]).
pub fn generate_general_retailer(dict: &Vec<Word>, era: &Option<Era>) -> (r: Institution)
    ensures
        private_made(
            r,
            InstituteType::GeneralRetail,
            general_retailer_templates(),
            word_views(dict@),
            *era,
        ),
{
    let templates = vec![
        "{{Adjective(Position, Quality, Age, Colour)}} {{Noun(LastName}} {{Noun(GeneralRetailerName)}}",
        "{{Adjective(Position, Quality, Age, Colour)}} {{Noun(LastName}}'s {{Noun(GeneralRetailerName)}}",
        "{{Noun(LastName}} {{Noun(GeneralRetailerName)}}",
        "{{Noun(LastName}}'s {{Noun(GeneralRetailerName)}}",
    ];
    let r = private_institution(&templates, InstituteType::GeneralRetail, dict, era);
    proof {
        let k = choose|k: int|
            0 <= k < templates.len() && renders(
                word_views(dict@),
                *era,
                (#[trigger] templates@[k])@,
                r.name@,
            );
        assert(templates@[k]@ == general_retailer_templates()[k]);
    }
    r
}

/// An administrative service (see [`private_made`]).
pub fn generate_admin(dict: &Vec<Word>, era: &Option<Era>) -> (r: Institution)
    ensures
        private_made(
            r,
            InstituteType::AdministrationService,
            admin_templates(),
            word_views(dict@),
            *era,
        ),
{
    let templates = vec![
        "{{Adjective(Position, Quality, Age, Colour)}} {{Noun(LastName}} {{Noun(ServiceAdmin)}}",
        "{{Adjective(Position, Quality, Age, Colour)}} {{Noun(LastName}}'s {{Noun(ServiceAdmin)}}",
        "{{Noun(LastName}} {{Noun(ServiceAdmin)}}",
        "{{Noun(LastName}}'s {{Noun(ServiceAdmin)}}",
    ];
    let r = private_institution(&templates, InstituteType::AdministrationService, dict, era);
    proof {
        let k = choose|k: int|
            0 <= k < templates.len() && renders(
                word_views(dict@),
                *era,
                (#[trigger] templates@[k])@,
                r.name@,
            );
        assert(templates@[k]@ == admin_templates()[k]);
    }
    r
}

/// The chance, in tenths, that an employed citizen is sacked in a year.
pub const RANDOM_SACKING_TENTHS: u32 = 1;

/// Every alive, employed citizen works for an institution of the list.
pub open spec fn employers_known(pop: Seq<Mind>, insts: Seq<Institution>) -> bool {
    forall|j: int|
        0 <= j < pop.len() && (#[trigger] pop[j]).alive && pop[j].employer is Some ==> owner_of(
            insts,
            pop[j].employer,
        ) is Some
}

/// Whether the employer of every alive citizen is an institution (see
/// [`employers_known`]).
pub fn employers_known_exec(pop: &Vec<Mind>, insts: &Vec<Institution>) -> (b: bool)
    ensures
        b == employers_known(pop@, insts@),
{
    let mut j: usize = 0;
    while j < pop.len()
        invariant
            j <= pop.len(),
            forall|q: int|
                0 <= q < j && (#[trigger] pop@[q]).alive && pop@[q].employer is Some ==> owner_of(
                    insts@,
                    pop@[q].employer,
                ) is Some,
        decreases pop.len() - j,
    {
        if pop[j].alive && pop[j].employer.is_some() && owner_of_exec(insts, pop[j].employer).is_none() {
            return false;
        }
        j = j + 1;
    }
    true
}

/// The citizen `m` after leaving the company named `company` in `year`: no
/// employer, and a line in its log (see [`work_line`]).
pub open spec fn sacked_state(m: MindState, year: nat, company: Seq<char>) -> MindState {
    logged(MindState { employer: None, ..m }, work_line(year, m, " left company "@, company))
}

/// The citizens after the sackings `sacked`: each sacked citizen leaves its
/// employer, the first institution with the employer's id.
pub open spec fn sacked_states(
    st: Seq<MindState>,
    sacked: Seq<bool>,
    insts: Seq<Institution>,
    year: nat,
) -> Seq<MindState> {
    Seq::new(
        st.len(),
        |j: int|
            if sacked[j] {
                sacked_state(st[j], year, insts[owner_of(insts, st[j].employer).unwrap()].name@)
            } else {
                st[j]
            },
    )
}

/// Sackings that can come of the draws: only alive, employed citizens.
pub open spec fn sackings_ok(st: Seq<MindState>, sacked: Seq<bool>) -> bool {
    &&& sacked.len() == st.len()
    &&& forall|j: int| 0 <= j < st.len() && #[trigger] sacked[j] ==> st[j].alive && st[j].employer is Some
    &&& forall|j: int|
        0 <= j < st.len() && st[j].alive && st[j].employer is Some ==> ratio_drawn(
            RANDOM_SACKING_TENTHS,
            10,
            #[trigger] sacked[j],
        )
}

/// What the yearly sackings make of the city `c0` (see
/// [`random_sackings_per_year`]): `c1`.
pub open spec fn sackings_done(c0: City, c1: City) -> bool {
    &&& same_but_citizens(c0, c1)
    &&& exists|sacked: Seq<bool>|
        #![trigger sacked_states(states(c0.citizens@), sacked, c0.institutions@, c0.year as nat)]
        sackings_ok(states(c0.citizens@), sacked) && states(c1.citizens@) == sacked_states(
            states(c0.citizens@),
            sacked,
            c0.institutions@,
            c0.year as nat,
        )
}

/// The yearly sackings: each alive, employed citizen leaves its employer
/// with chance one in ten (see [`sacked_states`]).
pub fn random_sackings_per_year<'a>(city: &'a mut City) -> (r: &'a mut City)
    requires
        employers_known(old(city).citizens@, old(city).institutions@),
    ensures
        sackings_done(*old(city), *r),
        *final(city) == *final(r),
{
    let ghost st0 = states(city.citizens@);
    let ghost insts = city.institutions@;
    let ghost mut sacked: Seq<bool> = Seq::empty();
    let n = city.citizens.len();
    let mut k: usize = 0;
    while k < n
        invariant
            k <= n == city.citizens.len() == st0.len(),
            st0 == states(old(city).citizens@),
            insts == old(city).institutions@,
            same_but_citizens(*old(city), *city),
            employers_known(old(city).citizens@, old(city).institutions@),
            sacked.len() == k,
            forall|j: int| 0 <= j < k && #[trigger] sacked[j] ==> st0[j].alive && st0[j].employer is Some,
            forall|j: int|
                0 <= j < k && st0[j].alive && st0[j].employer is Some ==> ratio_drawn(
                    RANDOM_SACKING_TENTHS,
                    10,
                    #[trigger] sacked[j],
                ),
            forall|j: int|
                0 <= j < k ==> #[trigger] states(city.citizens@)[j] == (if sacked[j] {
                    sacked_state(st0[j], city.year as nat, insts[owner_of(insts, st0[j].employer).unwrap()].name@)
                } else {
                    st0[j]
                }),
            forall|j: int| k <= j < n ==> #[trigger] states(city.citizens@)[j] == st0[j],
        decreases n - k,
    {
        let ghost cur = states(city.citizens@);
        assert(cur[k as int] == st0[k as int]);
        assert(cur[k as int] == state_of_mind(city.citizens@[k as int]));
        assert(st0[k as int] == state_of_mind(old(city).citizens@[k as int]));
        let mut fired = false;
        if city.citizens[k].alive && city.citizens[k].employer.is_some() {
            fired = random_ratio(RANDOM_SACKING_TENTHS, 10);
            proof {
                lemma_ratio_drawn(RANDOM_SACKING_TENTHS, 10, fired);
            }
        }
        if fired {
            assert(old(city).citizens@[k as int].alive);
            let found = owner_of_exec(&city.institutions, city.citizens[k].employer);
            let idx = found.unwrap();
            let mut m = city.citizens.remove(k);
            let ghost before = state_of_mind(m);
            m.employer = None;
            add_leaving_workplace_to_mind_log(&mut m, city.year, city.institutions[idx].name.as_str());
            city.citizens.insert(k, m);
            proof {
                assert(state_of_mind(m) == sacked_state(before, city.year as nat, insts[idx as int].name@));
            }
        }
        proof {
            let ns = sacked.push(fired);
            let fin = states(city.citizens@);
            assert forall|j: int| 0 <= j < k + 1 implies #[trigger] fin[j] == (if ns[j] {
                sacked_state(st0[j], city.year as nat, insts[owner_of(insts, st0[j].employer).unwrap()].name@)
            } else {
                st0[j]
            }) by {
                if j < k {
                    assert(fin[j] == cur[j]);
                    assert(ns[j] == sacked[j]);
                } else if fired {
                    assert(fin[j] == state_of_mind(city.citizens@[j]));
                }
            }
            assert forall|j: int| k + 1 <= j < n implies #[trigger] fin[j] == st0[j] by {
                assert(fin[j] == cur[j]);
            }
            assert forall|j: int| 0 <= j < k + 1 && #[trigger] ns[j] implies st0[j].alive && st0[j].employer is Some by {
                if j < k {
                    assert(ns[j] == sacked[j]);
                }
            }
            assert forall|j: int| 0 <= j < k + 1 && st0[j].alive && st0[j].employer is Some implies ratio_drawn(
                RANDOM_SACKING_TENTHS,
                10,
                #[trigger] ns[j],
            ) by {
                if j < k {
                    assert(ns[j] == sacked[j]);
                }
            }
            sacked = ns;
        }
        k = k + 1;
    }
    proof {
        assert(states(city.citizens@) =~= sacked_states(st0, sacked, insts, city.year as nat));
    }
    city
}

/// The yearly sackings (see [`random_sackings_per_year`]): each alive
/// citizen with an employer is without one after exactly when its draw of
/// [`RANDOM_SACKING_TENTHS`] in 10 came up (see [`ratio_drawn`]); every
/// other citizen keeps its employer.
pub proof fn lemma_sackings_drawn(c0: City, c1: City)
    requires
        sackings_done(c0, c1),
    ensures
        c1.citizens@.len() == c0.citizens@.len(),
        forall|j: int|
            0 <= j < c0.citizens@.len() && c0.citizens@[j].alive && c0.citizens@[j].employer is Some ==> ratio_drawn(
                RANDOM_SACKING_TENTHS,
                10,
                (#[trigger] c1.citizens@[j]).employer is None,
            ),
        forall|j: int|
            0 <= j < c0.citizens@.len() && !(c0.citizens@[j].alive && c0.citizens@[j].employer is Some)
                ==> (#[trigger] c1.citizens@[j]).employer == c0.citizens@[j].employer,
{
    let st = states(c0.citizens@);
    let sacked = choose|sacked: Seq<bool>|
        #![trigger sacked_states(states(c0.citizens@), sacked, c0.institutions@, c0.year as nat)]
        sackings_ok(states(c0.citizens@), sacked) && states(c1.citizens@) == sacked_states(
            states(c0.citizens@),
            sacked,
            c0.institutions@,
            c0.year as nat,
        );
    let after = states(c1.citizens@);
    assert(after.len() == st.len());
    assert forall|j: int| 0 <= j < c0.citizens@.len() implies (#[trigger] c1.citizens@[j]).employer == (if sacked[j] {
        None
    } else {
        c0.citizens@[j].employer
    }) by {
        assert(st[j] == state_of_mind(c0.citizens@[j]));
        assert(after[j] == state_of_mind(c1.citizens@[j]));
    }
}

/// A citizen who can work: alive and past [`ADULT_AGE_FROM`].
pub open spec fn eligible(m: MindState) -> bool {
    m.alive && m.age > ADULT_AGE_FROM
}

/// The staff of the institution with id `id`: the citizens who can work
/// and are employed there.
pub open spec fn staff(st: Seq<MindState>, id: Id) -> nat
    decreases st.len(),
{
    if st.len() == 0 {
        0
    } else {
        staff(st.drop_last(), id) + if eligible(st.last()) && st.last().employer == Some(id) {
            1nat
        } else {
            0nat
        }
    }
}

/// How many citizens the assignment sends to institution `i`.
pub open spec fn hires(assigned: Seq<Option<int>>, i: int) -> nat
    decreases assigned.len(),
{
    if assigned.len() == 0 {
        0
    } else {
        hires(assigned.drop_last(), i) + if assigned.last() == Some(i) {
            1nat
        } else {
            0nat
        }
    }
}

/// The citizen `m` after starting work at `inst` in `year`: employed there,
/// with a line in its log (see [`work_line`]).
pub open spec fn hired_state(m: MindState, year: nat, inst: Institution) -> MindState {
    logged(
        MindState { employer: Some(inst.id), ..m },
        work_line(year, m, " started work at "@, inst.name@),
    )
}

/// The citizens after the assignment: citizen `j` starts work at institution
/// `assigned[j]`, when there is one.
pub open spec fn hired_states(
    st: Seq<MindState>,
    assigned: Seq<Option<int>>,
    insts: Seq<Institution>,
    year: nat,
) -> Seq<MindState> {
    Seq::new(
        st.len(),
        |j: int|
            match assigned[j] {
                Some(i) => hired_state(st[j], year, insts[i]),
                None => st[j],
            },
    )
}

/// Some citizen who can work and had no employer was given none.
pub open spec fn left_unemployed(st: Seq<MindState>, assigned: Seq<Option<int>>) -> bool {
    exists|j: int|
        0 <= j < assigned.len() && eligible(st[j]) && st[j].employer is None && #[trigger] assigned[j]
            is None
}

/// An assignment of work: only citizens who can work and have no employer
/// are placed; an institution takes people only while its staff is below its
/// size, and never past it; and someone is left without work only when every
/// institution is full.
pub open spec fn employment_ok(st: Seq<MindState>, assigned: Seq<Option<int>>, insts: Seq<Institution>) -> bool {
    &&& assigned.len() == st.len()
    &&& forall|j: int|
        0 <= j < st.len() && (#[trigger] assigned[j]) is Some ==> eligible(st[j]) && st[j].employer is None
            && 0 <= assigned[j].unwrap() < insts.len()
    &&& forall|i: int|
        0 <= i < insts.len() && hires(assigned, i) > 0 ==> staff(st, (#[trigger] insts[i]).id) + hires(
            assigned,
            i,
        ) <= insts[i].size
    &&& left_unemployed(st, assigned) ==> forall|i: int|
        0 <= i < insts.len() ==> staff(st, (#[trigger] insts[i]).id) + hires(assigned, i) >= insts[i].size
}

fn staff_exec(pop: &Vec<Mind>, id: Id) -> (r: usize)
    ensures
        r == staff(states(pop@), id),
{
    let ghost st = states(pop@);
    let mut c: usize = 0;
    let mut j: usize = 0;
    while j < pop.len()
        invariant
            j <= pop.len() == st.len(),
            st == states(pop@),
            c == staff(st.take(j as int), id),
            c <= j,
        decreases pop.len() - j,
    {
        assert(st.take(j + 1).drop_last() =~= st.take(j as int));
        assert(st[j as int] == state_of_mind(pop@[j as int]));
        let m = &pop[j];
        let works_here = match m.employer {
            Some(e) => e == id,
            None => false,
        };
        if m.alive && m.age > ADULT_AGE_FROM && works_here {
            c = c + 1;
        }
        j = j + 1;
    }
    assert(st.take(pop.len() as int) =~= st);
    c
}

proof fn lemma_hires_push(assigned: Seq<Option<int>>, x: Option<int>)
    ensures
        forall|i: int| #[trigger] hires(assigned.push(x), i) == hires(assigned, i) + if x == Some(i) {
            1nat
        } else {
            0nat
        },
{
    assert forall|i: int| #[trigger] hires(assigned.push(x), i) == hires(assigned, i) + if x == Some(i) {
        1nat
    } else {
        0nat
    } by {
        assert(assigned.push(x).drop_last() =~= assigned);
    }
}

/// What the yearly hiring makes of the city `c0` (see
/// [`assign_employment_per_year`]): `c1`.
pub open spec fn employment_assigned(c0: City, c1: City) -> bool {
    &&& same_but_citizens(c0, c1)
    &&& exists|assigned: Seq<Option<int>>|
        #![trigger hired_states(states(c0.citizens@), assigned, c0.institutions@, c0.year as nat)]
        employment_ok(states(c0.citizens@), assigned, c0.institutions@)
            && states(c1.citizens@) == hired_states(
            states(c0.citizens@),
            assigned,
            c0.institutions@,
            c0.year as nat,
        )
}

/// The yearly hiring: the institutions below their size take on the
/// citizens who can work and have none, one at a time, from an open
/// institution drawn by shuffling (see [`employment_ok`]). Citizens and
/// institutions are known by their ids: no two citizens share one, nor two
/// institutions.
pub fn assign_employment_per_year<'a>(city: &'a mut City) -> (r: &'a mut City)
    requires
        citizen_ids_distinct(old(city).citizens@),
        institution_ids_distinct(old(city).institutions@),
    ensures
        employment_assigned(*old(city), *r),
        *final(city) == *final(r),
{
    let ghost st0 = states(city.citizens@);
    let ghost insts = city.institutions@;
    let ni = city.institutions.len();
    let mut counts: Vec<usize> = Vec::new();
    let mut open: Vec<usize> = Vec::new();
    let mut i: usize = 0;
    proof {
        assert forall|x: usize| #[trigger] open@.to_multiset().count(x) == 0 by {
            vstd::seq_lib::to_multiset_contains(open@, x);
        }
    }
    while i < ni
        invariant
            i <= ni == city.institutions.len(),
            insts == city.institutions@,
            st0 == states(city.citizens@),
            counts.len() == i,
            forall|q: int| 0 <= q < i ==> #[trigger] counts@[q] == staff(st0, insts[q].id),
            forall|x: usize|
                #[trigger] open@.to_multiset().count(x) == if x < i && counts@[x as int] < insts[x as int].size {
                    1nat
                } else {
                    0nat
                },
        decreases ni - i,
    {
        let c = staff_exec(&city.citizens, city.institutions[i].id);
        let ghost prev_counts = counts@;
        let ghost prev_open = open@;
        counts.push(c);
        if c < city.institutions[i].size {
            open.push(i);
            proof { vstd::seq_lib::to_multiset_build(prev_open, i); }
        }
        proof {
            assert forall|x: usize|
                #[trigger] open@.to_multiset().count(x) == if x < i + 1 && counts@[x as int]
                    < insts[x as int].size {
                    1nat
                } else {
                    0nat
                } by {
                if x < i {
                    assert(counts@[x as int] == prev_counts[x as int]);
                }
            }
        }
        i = i + 1;
    }
    let ghost mut assigned: Seq<Option<int>> = Seq::empty();
    let n = city.citizens.len();
    let mut k: usize = 0;
    while k < n
        invariant
            k <= n == city.citizens.len() == st0.len(),
            st0 == states(old(city).citizens@),
            insts == old(city).institutions@,
            ni == insts.len(),
            same_but_citizens(*old(city), *city),
            counts.len() == ni,
            assigned.len() == k,
            forall|q: int| 0 <= q < ni ==> #[trigger] counts@[q] == staff(st0, insts[q].id) + hires(assigned, q),
            forall|q: int|
                0 <= q < ni && hires(assigned, q) > 0 ==> staff(st0, (#[trigger] insts[q]).id) + hires(
                    assigned,
                    q,
                ) <= insts[q].size,
            forall|x: usize|
                #[trigger] open@.to_multiset().count(x) == if x < ni && counts@[x as int] < insts[x as int].size {
                    1nat
                } else {
                    0nat
                },
            left_unemployed(st0, assigned) ==> open.len() == 0,
            forall|j: int|
                0 <= j < k && (#[trigger] assigned[j]) is Some ==> eligible(st0[j]) && st0[j].employer is None
                    && 0 <= assigned[j].unwrap() < ni,
            forall|j: int|
                0 <= j < k ==> #[trigger] states(city.citizens@)[j] == match assigned[j] {
                    Some(q) => hired_state(st0[j], city.year as nat, insts[q]),
                    None => st0[j],
                },
            forall|j: int| k <= j < n ==> #[trigger] states(city.citizens@)[j] == st0[j],
        decreases n - k,
    {
        let ghost cur = states(city.citizens@);
        assert(cur[k as int] == st0[k as int]);
        assert(cur[k as int] == state_of_mind(city.citizens@[k as int]));
        let ghost mut got: Option<int> = None;
        let wants = city.citizens[k].alive && city.citizens[k].age > ADULT_AGE_FROM && city.citizens[k].employer.is_none();
        let ghost empty_before = open.len() == 0;
        if wants {
            let ghost before = open@;
            let popped = open.pop();
            match popped {
                Some(x) => {
                    assert(before == open@.push(x));
                    proof { vstd::seq_lib::to_multiset_build(open@, x); }
                    assert(before.to_multiset().count(x) == open@.to_multiset().count(x) + 1);
                    assert(x < ni);
                    let mut m = city.citizens.remove(k);
                    let ghost was = state_of_mind(m);
                    m.employer = Some(city.institutions[x].id);
                    add_new_workplace_to_mind_log(&mut m, city.year, city.institutions[x].name.as_str());
                    city.citizens.insert(k, m);
                    assert(state_of_mind(m) == hired_state(was, city.year as nat, insts[x as int]));
                    let ghost mid = open@;
                    let ghost prev_counts = counts@;
                    let c = counts[x] + 1;
                    counts.set(x, c);
                    if c < city.institutions[x].size {
                        open.push(x);
                        proof { vstd::seq_lib::to_multiset_build(mid, x); }
                    }
                    proof {
                        got = Some(x as int);
                        assert forall|y: usize|
                            #[trigger] open@.to_multiset().count(y) == if y < ni && counts@[y as int]
                                < insts[y as int].size {
                                1nat
                            } else {
                                0nat
                            } by {
                            if y != x {
                                assert(before.to_multiset().count(y) == mid.to_multiset().count(y));
                                if y < ni {
                                    assert(counts@[y as int] == prev_counts[y as int]);
                                }
                            }
                        }
                    }
                },
                None => {
                    assert(open.len() == 0);
                },
            }
            let ghost pre_shuffle = open@;
            shuffle(&mut open);
            proof {
                vstd::seq_lib::to_multiset_len(open@);
                vstd::seq_lib::to_multiset_len(pre_shuffle);
            }
        }
        assert(empty_before ==> open.len() == 0);
        proof {
            let na = assigned.push(got);
            lemma_hires_push(assigned, got);
            assert(na.drop_last() =~= assigned);
            let fin = states(city.citizens@);
            assert forall|j: int| 0 <= j < k + 1 implies #[trigger] fin[j] == match na[j] {
                Some(q) => hired_state(st0[j], city.year as nat, insts[q]),
                None => st0[j],
            } by {
                if j < k {
                    assert(fin[j] == cur[j]);
                    assert(na[j] == assigned[j]);
                } else if got is Some {
                    assert(fin[j] == state_of_mind(city.citizens@[j]));
                }
            }
            assert forall|j: int| k + 1 <= j < n implies #[trigger] fin[j] == st0[j] by {
                assert(fin[j] == cur[j]);
            }
            assert forall|j: int|
                0 <= j < k + 1 && (#[trigger] na[j]) is Some implies eligible(st0[j]) && st0[j].employer is None
                    && 0 <= na[j].unwrap() < ni by {
                if j < k {
                    assert(na[j] == assigned[j]);
                }
            }
            if left_unemployed(st0, na) {
                let j = choose|j: int|
                    0 <= j < na.len() && eligible(st0[j]) && st0[j].employer is None && #[trigger] na[j]
                        is None;
                if j < k {
                    assert(na[j] == assigned[j]);
                    assert(left_unemployed(st0, assigned));
                }
            }
            assigned = na;
        }
        k = k + 1;
    }
    proof {
        assert(states(city.citizens@) =~= hired_states(st0, assigned, insts, city.year as nat));
        if left_unemployed(st0, assigned) {
            assert forall|q: int| 0 <= q < ni implies staff(st0, (#[trigger] insts[q]).id) + hires(assigned, q)
                >= insts[q].size by {
                vstd::seq_lib::to_multiset_contains(open@, q as usize);
                assert(open@.to_multiset().count(q as usize) == 0);
            }
        }
    }
    city
}

/// An institution as [`generate_population_institution`] makes one: a
/// specialist or a general food outlet, a specialist or a general retailer,
/// or an administrative service.
pub open spec fn population_institution_made(i: Institution, dict: Seq<WordView>, era: Option<Era>) -> bool {
    ||| specialist_outlet_made(i, dict, era)
    ||| general_outlet_made(i, dict, era)
    ||| private_made(i, InstituteType::SpecialistRetail, specialist_retailer_templates(), dict, era)
    ||| private_made(i, InstituteType::GeneralRetail, general_retailer_templates(), dict, era)
    ||| private_made(i, InstituteType::AdministrationService, admin_templates(), dict, era)
}

/// The dictionary can stock every kind of food outlet (see
/// [`dishes_ready`], [`general_outlets_ready`]).
pub open spec fn outlets_ready(dict: Seq<WordView>, era: Option<Era>) -> bool {
    dishes_ready(dict) && general_outlets_ready(dict, era)
}

/// Whether the dictionary can stock every kind of food outlet (see
/// [`outlets_ready`]).
pub fn outlets_ready_exec(dict: &Vec<Word>, era: &Option<Era>) -> (b: bool)
    ensures
        b == outlets_ready(word_views(dict@), *era),
{
    dishes_ready_exec(dict) && general_outlets_ready_exec(dict, era)
}

/// A private institution drawn at random: a specialist food outlet with
/// chance 1 in 8, a general food outlet 1 in 8, a specialist retailer 1 in
/// 4, a general retailer 1 in 4, an administrative service 1 in 4 (see
/// [`population_institution_made`]).
pub fn generate_population_institution(dict: &Vec<Word>, culture: &Option<CultureConfig>) -> (r:
    Institution)
    requires
        outlets_ready(word_views(dict@), era_of(*culture)),
    ensures
        population_institution_made(r, word_views(dict@), era_of(*culture)),
{
    let era = match culture {
        Some(c) => c.era,
        None => None,
    };
    let roll = random_below(8);
    if roll == 7 {
        random_specialist_food_outlet(dict, culture)
    } else if roll == 6 {
        random_general_food_outlet(dict, culture)
    } else if roll >= 4 {
        generate_specialist_retailer(dict, &era)
    } else if roll >= 2 {
        generate_general_retailer(dict, &era)
    } else {
        generate_admin(dict, &era)
    }
}

/// The institutions of a new city: the public institutions (see
/// [`generate_public_institutions`]), then private ones (see
/// [`generate_population_institution`]) up to `size` in all, and at least
/// one.
pub fn generate_population_institutions(size: usize, culture: &Option<CultureConfig>, dict: &Vec<Word>) -> (r:
    Vec<Institution>)
    requires
        size <= i32::MAX,
        outlets_ready(word_views(dict@), era_of(*culture)),
    ensures
        r.len() == public_institutes().len() + (if size > public_institutes().len() + 1 {
            size - public_institutes().len()
        } else {
            1
        }),
        forall|k: int|
            0 <= k < public_institutes().len() ==> public_made(
                #[trigger] r@[k],
                k,
                word_views(dict@),
                era_of(*culture),
            ),
        forall|k: int|
            public_institutes().len() <= k < r.len() ==> population_institution_made(
                #[trigger] r@[k],
                word_views(dict@),
                era_of(*culture),
            ),
{
    let era = match culture {
        Some(c) => c.era,
        None => None,
    };
    let mut output = generate_public_institutions(dict, &era);
    let base = output.len();
    let extra: usize = if size > base + 1 { size - base } else { 1 };
    let mut k: usize = 0;
    while k < extra
        invariant
            k <= extra,
            base == public_institutes().len(),
            output.len() == base + k,
            outlets_ready(word_views(dict@), era_of(*culture)),
            era == era_of(*culture),
            forall|q: int| 0 <= q < base ==> public_made(#[trigger] output@[q], q, word_views(dict@), era),
            forall|q: int|
                base <= q < output.len() ==> population_institution_made(
                    #[trigger] output@[q],
                    word_views(dict@),
                    era,
                ),
        decreases extra - k,
    {
        let inst = generate_population_institution(dict, culture);
        let ghost prev = output@;
        output.push(inst);
        proof {
            assert forall|q: int| 0 <= q < base implies public_made(#[trigger] output@[q], q, word_views(dict@), era) by {
                assert(output@[q] == prev[q]);
            }
            assert forall|q: int|
                base <= q < output.len() implies population_institution_made(
                    #[trigger] output@[q],
                    word_views(dict@),
                    era,
                ) by {
                if q < prev.len() {
                    assert(output@[q] == prev[q]);
                }
            }
        }
        k = k + 1;
    }
    output
}

/// The chance, in hundredths, that a citizen who can work and has none
/// founds a company in a year.
pub const STARTUP_HUNDREDTHS: u32 = 1;

/// The citizen `m` after founding `inst` in `year`: employed there, with a
/// line in its log (see [`work_line`]).
pub open spec fn founder_state(m: MindState, year: nat, inst: Institution) -> MindState {
    logged(
        MindState { employer: Some(inst.id), ..m },
        work_line(year, m, " created the company "@, inst.name@),
    )
}

/// The institutions `insts` with the founded ones registered in order (see
/// [`registered`]).
pub open spec fn registered_all(insts: Seq<Institution>, founded: Seq<Option<Institution>>) -> Seq<Institution>
    decreases founded.len(),
{
    if founded.len() == 0 {
        insts
    } else {
        let prev = registered_all(insts, founded.drop_last());
        match founded.last() {
            Some(i) => registered(prev, i),
            None => prev,
        }
    }
}

/// The ids of the founded institutions, in order.
pub open spec fn founders(founded: Seq<Option<Institution>>) -> Seq<Id>
    decreases founded.len(),
{
    if founded.len() == 0 {
        Seq::empty()
    } else {
        match founded.last() {
            Some(i) => founders(founded.drop_last()).push(i.id),
            None => founders(founded.drop_last()),
        }
    }
}

/// The cities `layouts` follow one another from `start` as the
/// institutions `ids` are placed in turn (see [`placed`]).
pub open spec fn placed_in_turn(start: City, layouts: Seq<City>, ids: Seq<Id>, dict: Seq<WordView>) -> bool {
    &&& layouts.len() == ids.len() + 1
    &&& layouts[0] == start
    &&& forall|i: int| 0 <= i < ids.len() ==> placed(#[trigger] layouts[i], layouts[i + 1], ids[i], dict)
}

/// Startups that can come of the draws: only citizens who can work and
/// have no employer found one, each an institution as
/// [`generate_population_institution`] makes them; founders work at their
/// company and log it, and the others are as before.
pub open spec fn startups_ok(
    st: Seq<MindState>,
    new_st: Seq<MindState>,
    founded: Seq<Option<Institution>>,
    dict: Seq<WordView>,
    era: Option<Era>,
    year: nat,
) -> bool {
    &&& founded.len() == st.len()
    &&& new_st.len() == st.len()
    &&& forall|j: int|
        0 <= j < st.len() ==> match #[trigger] founded[j] {
            Some(inst) => eligible(st[j]) && st[j].employer is None && population_institution_made(
                inst,
                dict,
                era,
            ) && new_st[j] == founder_state(st[j], year, inst),
            None => new_st[j] == st[j],
        }
    &&& forall|j: int|
        0 <= j < st.len() && eligible(st[j]) && st[j].employer is None ==> ratio_drawn(
            STARTUP_HUNDREDTHS,
            100,
            (#[trigger] founded[j]) is Some,
        )
}

/// What the yearly founding of businesses makes of the city `c0` (see
/// [`create_startups_per_year`]): `c1`.
pub open spec fn startups_created(c0: City, c1: City, dict: Seq<Word>) -> bool {
    &&& c1.name == c0.name
    &&& c1.culture == c0.culture
    &&& c1.year == c0.year
    &&& c1.buildings@.len() >= c0.buildings@.len()
    &&& c1.areas@.len() >= c0.areas@.len()
    &&& c1.areas@.take(c0.areas@.len() as int) == c0.areas@
    &&& exists|founded: Seq<Option<Institution>>, layouts: Seq<City>|
        #![trigger registered_all(c0.institutions@, founded), placed_in_turn(c0, layouts, founders(founded), word_views(dict))]
        {
            &&& startups_ok(
                states(c0.citizens@),
                states(c1.citizens@),
                founded,
                word_views(dict),
                c0.culture.era,
                c0.year as nat,
            )
            &&& c1.institutions@ == registered_all(c0.institutions@, founded)
            &&& placed_in_turn(c0, layouts, founders(founded), word_views(dict))
            &&& layouts.last().buildings@ == c1.buildings@
            &&& layouts.last().areas@ == c1.areas@
        }
}

/// The yearly startups: each citizen who can work and has none founds a
/// company with chance 1 in 100 (see [`startups_ok`]); the company is added
/// to the city and given a place, one after another (see
/// [`placed_in_turn`]).
pub fn create_startups_per_year<'a>(city: &'a mut City, dict: &Vec<Word>) -> (r: &'a mut City)
    requires
        outlets_ready(word_views(dict@), old(city).culture.era),
        old(city).culture.avg_building_footprint >= 0,
        -1073741824 <= old(city).culture.avg_building_floors < 1073741823,
    ensures
        startups_created(*old(city), *r, dict@),
        *final(city) == *final(r),
{
    let ghost st0 = states(city.citizens@);
    let ghost mut layouts: Seq<City> = seq![*old(city)];
    let ghost mut founded: Seq<Option<Institution>> = Seq::empty();
    let culture = Some(city.culture.copy());
    let n = city.citizens.len();
    let mut k: usize = 0;
    while k < n
        invariant
            k <= n == city.citizens.len() == st0.len(),
            st0 == states(old(city).citizens@),
            culture is Some && era_of(culture) == old(city).culture.era,
            city.name == old(city).name,
            city.culture == old(city).culture,
            city.year == old(city).year,
            city.buildings@.len() >= old(city).buildings@.len(),
            city.areas@.len() >= old(city).areas@.len(),
            city.areas@.take(old(city).areas@.len() as int) == old(city).areas@,
            outlets_ready(word_views(dict@), old(city).culture.era),
            old(city).culture.avg_building_footprint >= 0,
            -1073741824 <= old(city).culture.avg_building_floors < 1073741823,
            founded.len() == k,
            city.institutions@ == registered_all(old(city).institutions@, founded),
            forall|j: int|
                0 <= j < k ==> match #[trigger] founded[j] {
                    Some(inst) => eligible(st0[j]) && st0[j].employer is None
                        && population_institution_made(inst, word_views(dict@), old(city).culture.era)
                        && states(city.citizens@)[j] == founder_state(st0[j], city.year as nat, inst),
                    None => states(city.citizens@)[j] == st0[j],
                },
            forall|j: int| k <= j < n ==> #[trigger] states(city.citizens@)[j] == st0[j],
            forall|j: int|
                0 <= j < k && eligible(st0[j]) && st0[j].employer is None ==> ratio_drawn(
                    STARTUP_HUNDREDTHS,
                    100,
                    (#[trigger] founded[j]) is Some,
                ),
            placed_in_turn(*old(city), layouts, founders(founded), word_views(dict@)),
            layouts.last().buildings@ == city.buildings@,
            layouts.last().areas@ == city.areas@,
            layouts.last().culture == old(city).culture,
        decreases n - k,
    {
        let ghost cur = states(city.citizens@);
        assert(cur[k as int] == st0[k as int]);
        assert(cur[k as int] == state_of_mind(city.citizens@[k as int]));
        let ghost mut got: Option<Institution> = None;
        let m = &city.citizens[k];
        let mut founds = false;
        if m.alive && m.age > ADULT_AGE_FROM && m.employer.is_none() {
            founds = random_ratio(STARTUP_HUNDREDTHS, 100);
            proof {
                lemma_ratio_drawn(STARTUP_HUNDREDTHS, 100, founds);
            }
        }
        if founds {
            let new_inst = generate_population_institution(dict, &culture);
            let mut mind = city.citizens.remove(k);
            let ghost was = state_of_mind(mind);
            mind.employer = Some(new_inst.id);
            add_startup_creation_to_mind_log(&mut mind, city.year, new_inst.name.as_str());
            city.citizens.insert(k, mind);
            assert(state_of_mind(mind) == founder_state(was, city.year as nat, new_inst));
            let ghost areas_before = city.areas@;
            proof {
                got = Some(new_inst);
            }
            let ghost before = *city;
            add_institution_to_city(city, new_inst, dict);
            proof {
                lemma_placed_layout(before, layouts.last(), *city, new_inst.id, word_views(dict@));
                let nl = layouts.push(*city);
                let ids = founders(founded).push(new_inst.id);
                assert forall|i: int| 0 <= i < ids.len() implies placed(#[trigger] nl[i], nl[i + 1], ids[i], word_views(dict@)) by {
                    if i < ids.len() - 1 {
                        assert(nl[i] == layouts[i] && nl[i + 1] == layouts[i + 1]);
                    }
                }
                layouts = nl;
                if city.areas@.len() > areas_before.len() {
                    assert(city.areas@.drop_last() == areas_before);
                    assert(city.areas@.take(old(city).areas@.len() as int) =~= areas_before.take(
                        old(city).areas@.len() as int,
                    ));
                }
            }
        }
        proof {
            let nf = founded.push(got);
            assert(nf.drop_last() =~= founded);
            assert(founders(nf) == match got {
                Some(i) => founders(founded).push(i.id),
                None => founders(founded),
            });
            let fin = states(city.citizens@);
            assert forall|j: int|
                0 <= j < k + 1 implies match #[trigger] nf[j] {
                    Some(inst) => eligible(st0[j]) && st0[j].employer is None
                        && population_institution_made(inst, word_views(dict@), old(city).culture.era)
                        && fin[j] == founder_state(st0[j], city.year as nat, inst),
                    None => fin[j] == st0[j],
                } by {
                if j < k {
                    assert(nf[j] == founded[j]);
                    assert(fin[j] == cur[j]);
                } else if got is Some {
                    assert(fin[j] == state_of_mind(city.citizens@[j]));
                }
            }
            assert forall|j: int| k + 1 <= j < n implies #[trigger] fin[j] == st0[j] by {
                assert(fin[j] == cur[j]);
            }
            assert forall|j: int| 0 <= j < k + 1 && eligible(st0[j]) && st0[j].employer is None implies ratio_drawn(
                STARTUP_HUNDREDTHS,
                100,
                (#[trigger] nf[j]) is Some,
            ) by {
                if j < k {
                    assert(nf[j] == founded[j]);
                }
            }
            founded = nf;
        }
        k = k + 1;
    }
    proof {
        assert(startups_ok(st0, states(city.citizens@), founded, word_views(dict@), old(city).culture.era, old(city).year as nat));
    }
    city
}

} // verus!
