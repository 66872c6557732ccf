use citygen::city::building::floor_title;
use citygen::city::institutions::visits::{get_habitual_institutions, run_citizen_shopping, VisitType};
use citygen::city::institutions::{
    assign_employment_per_year, random_sackings_per_year, InstituteType, Institution,
};
use citygen::city::population::mind::appearance::PhysicalDescription;
use citygen::city::population::mind::{get_name_from_id, print_mind, Gender, Mind, Sexuality};
use citygen::city::population::mind::relations::RelationVerb;
use citygen::city::{add_public_institution_to_city, employment_counts, City};
use citygen::culture::CultureConfig;
use citygen::language::{build_dictionary, Word};
use citygen::language2::Dictionary;
use citygen::parser::parse_lines;
use citygen::text::id_chars;

fn description() -> PhysicalDescription {
    PhysicalDescription {
        hair_colour: String::from("Brown"),
        hair_length: String::from("Short"),
        hair_adjectives: vec![String::from("Curly")],
        eye_colour: String::from("Blue"),
        height_adjective: String::from("Tall"),
        build_adjective: String::from("Slim"),
    }
}

fn mind(id: u128, first: &str, last: &str, age: u32, employer: Option<u128>) -> Mind {
    Mind {
        id,
        first_name: String::from(first),
        last_name: String::from(last),
        gender: Gender::Female,
        age,
        relations: Vec::new(),
        employer,
        residence: None,
        sexuality: Sexuality::Hetrosexual,
        alive: true,
        activity_log: Vec::new(),
        physical_description: description(),
        institution_shopping_visits: Vec::new(),
        institution_social_visits: Vec::new(),
    }
}

fn institution(id: u128, name: &str, t: InstituteType, size: usize) -> Institution {
    Institution {
        id,
        name: String::from(name),
        public: false,
        institute_type: t,
        size,
        serves: Vec::new(),
        annual_visits: 0,
    }
}

fn culture() -> CultureConfig {
    CultureConfig {
        era: None,
        historical_figures: Vec::new(),
        landlocked: false,
        staple_meats: Vec::new(),
        staple_plants: Vec::new(),
        adult_age: 18,
        species_avg_lifespan: 70,
        species_avg_lifespan_variance: 5,
        parental_naming_formats: Vec::new(),
        avg_building_footprint: 12,
        avg_building_floors: 6,
    }
}

fn city(citizens: Vec<Mind>, institutions: Vec<Institution>) -> City {
    City {
        name: String::from("Testville"),
        citizens,
        institutions,
        areas: Vec::new(),
        buildings: Vec::new(),
        culture: culture(),
        year: 3,
    }
}

fn staff_of(city: &City, id: u128) -> usize {
    city.citizens.iter().filter(|m| m.alive && m.age > 18 && m.employer == Some(id)).count()
}

#[test]
fn id_text_is_hyphenated_hex() {
    let text: String = id_chars(42).into_iter().collect();
    assert_eq!(text, "00000000-0000-0000-0000-00000000002a");
    let text: String = id_chars(u128::MAX).into_iter().collect();
    assert_eq!(text, "ffffffff-ffff-ffff-ffff-ffffffffffff");
}

#[test]
fn names_by_id() {
    let mut a = mind(1, "Ann", "Lee", 30, None);
    let b = mind(2, "Bo", "Ray", 40, None);
    a.alive = false;
    let pop = vec![a, b];
    assert_eq!(get_name_from_id(&1, &pop), "Ann Lee   (Dead)");
    assert_eq!(get_name_from_id(&2, &pop), "Bo Ray ");
    assert_eq!(get_name_from_id(&42, &pop), "Missing ID: 00000000-0000-0000-0000-00000000002a");
}

#[test]
fn hiring_respects_sizes() {
    let citizens: Vec<Mind> = (0..10u128).map(|i| mind(100 + i, "A", "B", 30, None)).collect();
    let insts = vec![
        institution(1, "Shop", InstituteType::GeneralRetail, 3),
        institution(2, "Cafe", InstituteType::FoodService, 4),
    ];
    let mut c = city(citizens, insts);
    assign_employment_per_year(&mut c);
    assert_eq!(staff_of(&c, 1), 3);
    assert_eq!(staff_of(&c, 2), 4);
    let unemployed = c.citizens.iter().filter(|m| m.employer.is_none()).count();
    assert_eq!(unemployed, 3);
    for m in &c.citizens {
        if m.employer.is_some() {
            assert_eq!(m.activity_log.len(), 1);
            assert!(m.activity_log[0].starts_with("Year: 3 - A B aged 30 started work at "));
        }
    }
    let (employed, adults) = employment_counts(&c);
    assert_eq!((employed, adults), (7, 10));
}

#[test]
fn hiring_fills_before_leaving_anyone_out() {
    let citizens: Vec<Mind> = (0..3u128).map(|i| mind(100 + i, "A", "B", 30, None)).collect();
    let insts = vec![institution(1, "Shop", InstituteType::GeneralRetail, 9)];
    let mut c = city(citizens, insts);
    assign_employment_per_year(&mut c);
    assert!(c.citizens.iter().all(|m| m.employer == Some(1)));
}

#[test]
fn children_are_not_hired() {
    let citizens = vec![mind(100, "Kid", "B", 10, None)];
    let mut c = city(citizens, vec![institution(1, "Shop", InstituteType::GeneralRetail, 9)]);
    assign_employment_per_year(&mut c);
    assert!(c.citizens[0].employer.is_none());
}

#[test]
fn sackings_only_touch_the_employed() {
    let citizens: Vec<Mind> = (0..50u128).map(|i| mind(100 + i, "A", "B", 30, if i % 2 == 0 { Some(1) } else { None })).collect();
    let mut c = city(citizens, vec![institution(1, "Mill", InstituteType::GeneralRetail, 50)]);
    random_sackings_per_year(&mut c);
    for (i, m) in c.citizens.iter().enumerate() {
        if i % 2 == 1 {
            assert!(m.employer.is_none());
            assert!(m.activity_log.is_empty());
        } else if m.employer.is_none() {
            assert_eq!(m.activity_log, vec![String::from("Year: 3 - A B aged 30 left company Mill")]);
        }
    }
}

#[test]
fn shopping_visits_add_up() {
    let citizens: Vec<Mind> = (0..4u128).map(|i| mind(100 + i, "A", "B", 30, None)).collect();
    let insts: Vec<Institution> = (0..6u128)
        .map(|i| institution(i + 1, "Shop", InstituteType::GeneralRetail, 5))
        .collect();
    let mut c = city(citizens, insts);
    run_citizen_shopping(&mut c);
    let by_citizens: usize = c
        .citizens
        .iter()
        .map(|m| m.institution_shopping_visits.iter().map(|v| v.1).sum::<usize>())
        .sum();
    let by_institutions: usize = c.institutions.iter().map(|i| i.annual_visits).sum();
    assert_eq!(by_citizens, by_institutions);
    for m in &c.citizens {
        let total: usize = m.institution_shopping_visits.iter().map(|v| v.1).sum();
        assert!(total <= 365);
    }
}

#[test]
fn too_few_shops_means_no_shopping() {
    let citizens = vec![mind(100, "A", "B", 30, None)];
    let insts: Vec<Institution> = (0..4u128)
        .map(|i| institution(i + 1, "Shop", InstituteType::GeneralRetail, 5))
        .collect();
    let mut c = city(citizens, insts);
    run_citizen_shopping(&mut c);
    assert!(c.citizens[0].institution_shopping_visits.is_empty());
    assert!(c.institutions.iter().all(|i| i.annual_visits == 0));
}

#[test]
fn habitual_institutions_are_the_least_visited_ten() {
    let mut m = mind(100, "A", "B", 30, None);
    m.institution_shopping_visits = (0..12u128).map(|i| (i + 1, (12 - i) as usize)).collect();
    let (ids, top, total) = get_habitual_institutions(&m, &VisitType::Shopping);
    assert_eq!(ids, vec![12, 11, 10, 9, 8, 7, 6, 5, 4, 3]);
    assert_eq!(top, 55);
    assert_eq!(total, 78);
    let (ids, top, total) = get_habitual_institutions(&m, &VisitType::Social);
    assert!(ids.is_empty());
    assert_eq!((top, total), (0, 0));
}

#[test]
fn habits_keep_order_of_equal_counts() {
    let mut m = mind(100, "A", "B", 30, None);
    m.institution_shopping_visits = vec![(7, 2), (8, 1), (9, 2)];
    let (ids, top, total) = get_habitual_institutions(&m, &VisitType::Shopping);
    assert_eq!(ids, vec![8, 7, 9]);
    assert_eq!((top, total), (5, 5));
}

#[test]
fn listing_a_citizen() {
    let mut a = mind(1, "Ann", "Lee", 30, None);
    a.relations = vec![(RelationVerb::Sibling, 2), (RelationVerb::Child, 3), (RelationVerb::Acquaintance, 2)];
    let b = mind(2, "Bo", "Ray", 40, None);
    let c = city(vec![a, b], Vec::new());
    let text = print_mind(&c.citizens[0], &c, "0", "0");
    let expected = "====Mind===\nName: Ann Lee\nGender: Female\nAge: 30\nDescription: They have Curly, Brown Short hair and Blue eyes. They are Tall with a Slim build.\nEmployer: None\nRelations:\n  Acquaintance: Bo Ray \n  Child: Missing ID: 00000000-0000-0000-0000-000000000003\n  Sibling: Bo Ray \n===========\n===========\n";
    assert_eq!(text, expected);
}

#[test]
fn public_institution_gets_a_building_and_workers() {
    let dict: Vec<Word> = build_dictionary(
        &parse_lines(&vec![String::from("Tower, BuildingTitle")]),
        &parse_lines(&vec![String::from("Old, Age")]),
    );
    let citizens: Vec<Mind> = (0..20u128).map(|i| mind(100 + i, "A", "B", 30, None)).collect();
    let mut c = city(citizens, Vec::new());
    add_public_institution_to_city(&mut c, institution(9, "Hall", InstituteType::CityHall, 10), &dict);
    assert_eq!(c.institutions.len(), 1);
    assert_eq!(c.buildings.len(), 1);
    assert_eq!(c.areas.len(), 1);
    let owned = c.buildings[0]
        .floors
        .iter()
        .flat_map(|f| f.areas.iter())
        .filter(|a| a.owning_institution == Some(9))
        .count();
    assert_eq!(owned, 1);
    let workers = c.citizens.iter().filter(|m| m.employer == Some(9)).count();
    assert!(workers >= 1 && workers <= 9);
}

#[test]
fn group_dictionary_reads_lines() {
    let mut dict = Dictionary::new();
    dict.parse_datafile_line(String::from("Gold, NOUN, HAS_GROUP(Metal), HAS_ADJECTIVE(Golden)"));
    dict.parse_datafile_line(String::from("Metal, GROUP, HAS_GROUP(Material)"));
    dict.parse_datafile_line(String::from("Just a comment"));
    assert_eq!(dict.nouns.len(), 1);
    assert_eq!(dict.nouns[0].base, "Gold");
    assert_eq!(dict.nouns[0].adjective, Some(String::from("Golden")));
    assert_eq!(dict.nouns[0].groups, vec![String::from("Metal")]);
    assert_eq!(dict.group_groups.len(), 1);
    assert_eq!(dict.group_groups[0].0, "Material");
    assert_eq!(dict.group_groups[0].1, vec![String::from("Metal")]);
    dict.parse_datafile_line(String::from("Iron, NOUN, HAS_GROUP(Metal)"));
    dict.parse_datafile_line(String::from("Metals, GROUP, HAS_GROUP(Stuff)"));
    let metals = dict.nouns_with_groups(vec![String::from("Metal")], citygen::language2::LogicalOperator::AND);
    assert_eq!(metals.len(), 2);
}

#[test]
fn group_groups_carry_members_up() {
    let mut dict = Dictionary::new();
    dict.parse_datafile_line(String::from("Gold, NOUN, HAS_GROUP(Metal)"));
    dict.parse_datafile_line(String::from("Oak, NOUN, HAS_GROUP(Wood)"));
    dict.parse_datafile_line(String::from("Metal, GROUP, HAS_GROUP(Material)"));
    dict.parse_datafile_line(String::from("Wood, GROUP, HAS_GROUP(Material)"));
    dict.append_group_groups();
    let material = dict.nouns_with_groups(vec![String::from("Material")], citygen::language2::LogicalOperator::AND);
    assert_eq!(material.len(), 2);
    let both = dict.nouns_with_groups(
        vec![String::from("Metal"), String::from("Wood")],
        citygen::language2::LogicalOperator::OR,
    );
    assert_eq!(both.len(), 2);
    let neither = dict.nouns_with_groups(
        vec![String::from("Metal"), String::from("Wood")],
        citygen::language2::LogicalOperator::AND,
    );
    assert_eq!(neither.len(), 0);
    assert!(dict.nouns.iter().all(|n| n.groups.contains(&String::from("Material"))));
}

#[test]
fn group_listing_itself_keeps_its_members() {
    let mut dict = Dictionary::new();
    dict.parse_datafile_line(String::from("Gold, NOUN, HAS_GROUP(Metal)"));
    dict.parse_datafile_line(String::from("Metal, GROUP, HAS_GROUP(Metal)"));
    dict.append_group_groups();
    let metals = dict.nouns_with_groups(vec![String::from("Metal")], citygen::language2::LogicalOperator::AND);
    assert_eq!(metals.len(), 1);
    assert_eq!(dict.nouns[0].groups, vec![String::from("Metal")]);
}

#[test]
fn floor_titles() {
    assert_eq!(floor_title(3), "Floor 3");
    assert_eq!(floor_title(-1), "Basement");
    assert_eq!(floor_title(0), "Ground Floor");
    assert_eq!(floor_title(-2), "Ground Floor");
}
