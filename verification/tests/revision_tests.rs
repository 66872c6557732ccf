use citygen::city::institutions::{InstituteType, Institution};
use citygen::city::population::mind::appearance::PhysicalDescription;
use citygen::city::population::mind::{Gender, Mind, Sexuality};
use citygen::city::population::mind::relations::friends::{friend_ages_fit_exec, link_friends_within_population_by_year};
use citygen::city::population::mind::relations::partners::{ages_fit_exec, update_partners_by_year};
use citygen::city::population::mind::relations::{link_family_at_birth, RelationVerb};
use citygen::city::{citizen_ids_distinct_exec, institution_ids_distinct_exec, old_age_pass_per_year, City};
use citygen::culture::{build_culture_dictionary, CultureConfig};
use citygen::city::year::{simulate_year, YearError};
use citygen::language::{build_dictionary, Word, WordType};
use citygen::parser::parse_lines;
use citygen::language2::{build_group_dictionary, Dictionary, LogicalOperator};

fn lines(ls: &[&str]) -> Vec<String> {
    ls.iter().map(|l| String::from(*l)).collect()
}

fn description() -> PhysicalDescription {
    PhysicalDescription {
        hair_colour: String::from("Brown"),
        hair_length: String::from("Short"),
        hair_adjectives: Vec::new(),
        eye_colour: String::from("Blue"),
        height_adjective: String::from("Tall"),
        build_adjective: String::from("Slim"),
    }
}

fn mind(id: u128) -> Mind {
    Mind {
        id,
        first_name: String::from("Ann"),
        last_name: String::from("Lee"),
        gender: Gender::Female,
        age: 30,
        relations: Vec::new(),
        employer: None,
        residence: None,
        sexuality: Sexuality::Hetrosexual,
        alive: true,
        activity_log: Vec::new(),
        physical_description: description(),
        institution_shopping_visits: Vec::new(),
        institution_social_visits: Vec::new(),
    }
}

fn institution(id: u128) -> Institution {
    Institution {
        id,
        name: String::from("Mill"),
        public: false,
        institute_type: InstituteType::Library,
        size: 3,
        serves: Vec::new(),
        annual_visits: 0,
    }
}

#[test]
fn group_dictionary_carries_nouns_up_chains_of_groups() {
    let ls = lines(&[
        "Gold, NOUN, HAS_GROUP(Metal)",
        "Metal, GROUP, HAS_GROUP(Material)",
        "Material, GROUP, HAS_GROUP(Thing)",
        "Fine, ADJECTIVE, HAS_GROUP(Quality)",
    ]);
    let dict = build_group_dictionary(&ls).unwrap();
    let things = dict.nouns_with_groups(vec![String::from("Thing")], LogicalOperator::AND);
    assert_eq!(things.len(), 1);
    assert_eq!(things[0].base, "Gold");
    assert!(things[0].groups.contains(&String::from("Material")));
    assert!(things[0].groups.contains(&String::from("Thing")));
    assert_eq!(dict.adjectives.len(), 1);
}

#[test]
fn group_dictionary_refused_when_a_member_group_holds_adjectives() {
    let ls = lines(&["Fine, ADJECTIVE, HAS_GROUP(Quality)", "Quality, GROUP, HAS_GROUP(Trait)"]);
    assert!(build_group_dictionary(&ls).is_none());
}

#[test]
fn groups_resolvable_of_read_lines() {
    let mut dict = Dictionary::new();
    assert!(dict.groups_resolvable_exec());
    dict.parse_datafile_line(String::from("Fine, ADJECTIVE, HAS_GROUP(Quality)"));
    assert!(dict.groups_resolvable_exec());
    dict.parse_datafile_line(String::from("Quality, GROUP, HAS_GROUP(Trait)"));
    assert!(!dict.groups_resolvable_exec());
}

#[test]
fn empty_lines_give_an_empty_group_dictionary() {
    let dict = build_group_dictionary(&Vec::new()).unwrap();
    assert_eq!(dict.nouns.len(), 0);
    assert_eq!(dict.group_groups.len(), 0);
}

#[test]
fn distinct_ids_of_citizens_and_institutions() {
    assert!(citizen_ids_distinct_exec(&vec![mind(1), mind(2), mind(3)]));
    assert!(!citizen_ids_distinct_exec(&vec![mind(1), mind(2), mind(1)]));
    assert!(citizen_ids_distinct_exec(&Vec::new()));
    assert!(institution_ids_distinct_exec(&vec![institution(4), institution(5)]));
    assert!(!institution_ids_distinct_exec(&vec![institution(4), institution(4)]));
}

#[test]
fn culture_dictionary_keeps_related_forms() {
    let golden = Word {
        id: 8,
        word_type: WordType::Adjective,
        related_forms: Vec::new(),
        text: String::from("Golden"),
        tags: vec![String::from("Metal")],
    };
    let gold = Word {
        id: 7,
        word_type: WordType::Noun,
        related_forms: vec![golden],
        text: String::from("Gold"),
        tags: vec![String::from("Metal")],
    };
    let culture = CultureConfig {
        era: None,
        historical_figures: vec![(String::from("Ada"), String::from("Byron"))],
        landlocked: false,
        staple_meats: Vec::new(),
        staple_plants: Vec::new(),
        adult_age: 18,
        species_avg_lifespan: 70,
        species_avg_lifespan_variance: 5,
        parental_naming_formats: Vec::new(),
        avg_building_footprint: 12,
        avg_building_floors: 6,
    };
    let out = build_culture_dictionary(&vec![gold], &culture);
    assert_eq!(out.len(), 3);
    assert_eq!(out[0].text, "Gold");
    assert_eq!(out[0].related_forms.len(), 1);
    assert_eq!(out[0].related_forms[0].id, 8);
    assert_eq!(out[0].related_forms[0].text, "Golden");
    assert_eq!(out[0].related_forms[0].word_type, WordType::Adjective);
    assert_eq!(out[1].text, "Ada");
    assert_eq!(out[2].text, "Byron");
}

fn aged(id: u128, age: u32, alive: bool) -> Mind {
    let mut m = mind(id);
    m.age = age;
    m.alive = alive;
    m
}

fn culture() -> CultureConfig {
    CultureConfig {
        era: None,
        historical_figures: Vec::new(),
        landlocked: false,
        staple_meats: Vec::new(),
        staple_plants: Vec::new(),
        adult_age: 18,
        species_avg_lifespan: 70,
        species_avg_lifespan_variance: 5,
        parental_naming_formats: vec![(
            String::from("{{ML}}"),
            String::from("{{ML}}"),
            String::from("{{ML}}"),
            String::from("{{ML}}"),
        )],
        avg_building_footprint: 12,
        avg_building_floors: 6,
    }
}

fn city(citizens: Vec<Mind>) -> City {
    City {
        name: String::from("Testville"),
        citizens,
        institutions: Vec::new(),
        areas: Vec::new(),
        buildings: Vec::new(),
        culture: culture(),
        year: 7,
    }
}

#[test]
fn partner_search_ages_taken_as_signed_numbers() {
    assert!(ages_fit_exec(&vec![aged(1, 30, true), aged(2, 3_000_000_000, true)]));
    assert!(!ages_fit_exec(&vec![aged(1, 2_147_483_650, true)]));
    assert!(ages_fit_exec(&vec![aged(1, 2_147_483_650, false)]));
    assert!(!ages_fit_exec(&vec![aged(1, u32::MAX - 10, true)]));
    assert!(ages_fit_exec(&vec![aged(1, u32::MAX - 19, true)]));
}

#[test]
fn friend_search_ages_taken_as_signed_numbers() {
    assert!(friend_ages_fit_exec(&vec![aged(1, 30, true), aged(2, 3_000_000_000, true)], 18));
    assert!(!friend_ages_fit_exec(&vec![aged(1, u32::MAX - 20, true)], 18));
    assert!(friend_ages_fit_exec(&vec![aged(1, u32::MAX - 30, true)], 18));
    assert!(!friend_ages_fit_exec(&vec![aged(1, 2_147_483_660, true)], 18));
    assert!(friend_ages_fit_exec(&vec![aged(1, 5, true)], u32::MAX));
}

#[test]
fn old_age_pass_leaves_late_partners() {
    let mut old = aged(1, 200, true);
    old.employer = Some(9);
    old.residence = Some(8);
    old.relations.push((RelationVerb::Partner, 2));
    let mut young = aged(2, 20, true);
    young.relations.push((RelationVerb::Partner, 1));
    let mut spouse = aged(3, 25, true);
    spouse.relations.push((RelationVerb::Spouse, 1));
    let mut c = city(vec![old, young, spouse]);
    let cul = culture();
    old_age_pass_per_year(&mut c, &cul);
    assert_eq!(c.citizens.len(), 3);
    assert!(!c.citizens[0].alive);
    assert_eq!(c.citizens[0].employer, None);
    assert_eq!(c.citizens[0].residence, None);
    assert_eq!(c.citizens[0].activity_log.last().unwrap(), "Died in year 7 age 200");
    assert_eq!(c.citizens[0].age, 200);
    assert!(c.citizens[1].alive);
    assert!(c.citizens[1].relations.contains(&(RelationVerb::LatePartner, 1)));
    assert!(c.citizens[2].relations.contains(&(RelationVerb::LateSpouse, 1)));
}

#[test]
fn update_partners_gains_no_new_partner() {
    let mut a = aged(1, 30, true);
    a.gender = Gender::Male;
    a.relations.push((RelationVerb::Partner, 2));
    let mut b = aged(2, 31, true);
    b.relations.push((RelationVerb::Partner, 1));
    let c0 = city(vec![a, b, aged(3, 40, true)]);
    for _ in 0..20 {
        let mut c = city(c0.citizens.iter().map(|m| {
            let mut n = aged(m.id, m.age, m.alive);
            n.gender = m.gender;
            n.relations = m.relations.clone();
            n
        }).collect());
        update_partners_by_year(&mut c);
        assert_eq!(c.citizens.len(), 3);
        for (i, m) in c.citizens.iter().enumerate() {
            assert_eq!(m.id, c0.citizens[i].id);
            assert_eq!(m.age, c0.citizens[i].age);
            assert_eq!(m.alive, c0.citizens[i].alive);
            for r in m.relations.iter() {
                if r.0 == RelationVerb::Partner || r.0 == RelationVerb::Spouse {
                    assert!(c0.citizens[i].relations.contains(&(RelationVerb::Partner, r.1)));
                }
            }
        }
        assert!(c.citizens[2].relations.is_empty());
    }
}

#[test]
fn birth_links_siblings_grandparents_and_piblings() {
    let mut parent = aged(1, 40, true);
    parent.relations.push((RelationVerb::Child, 2));
    parent.relations.push((RelationVerb::Parent, 3));
    parent.relations.push((RelationVerb::Sibling, 4));
    parent.relations.push((RelationVerb::Child, 2));
    let mut sibling = aged(2, 10, true);
    sibling.relations.push((RelationVerb::Parent, 1));
    let grandparent = aged(3, 70, true);
    let mut aunt = aged(4, 38, true);
    aunt.relations.push((RelationVerb::Spouse, 5));
    let uncle = aged(5, 39, true);
    let mut c = city(vec![parent, sibling, grandparent, aunt, uncle]);
    let mut child = aged(9, 0, true);
    child.relations.push((RelationVerb::Parent, 1));
    link_family_at_birth(&mut c, &mut child);
    assert_eq!(
        child.relations,
        vec![
            (RelationVerb::Parent, 1),
            (RelationVerb::Sibling, 2),
            (RelationVerb::Grandparent, 3),
            (RelationVerb::Pibling, 4),
            (RelationVerb::Pibling, 5),
        ]
    );
    assert!(c.citizens[1].relations.contains(&(RelationVerb::Sibling, 9)));
    assert!(c.citizens[2].relations.contains(&(RelationVerb::Grandchild, 9)));
    assert!(c.citizens[3].relations.contains(&(RelationVerb::Nibling, 9)));
    assert!(c.citizens[4].relations.contains(&(RelationVerb::Nibling, 9)));
    assert_eq!(c.citizens[1].activity_log.len(), 1);
}

#[test]
fn friend_year_keeps_social_relations_both_ways() {
    let social = [RelationVerb::Acquaintance, RelationVerb::Friend, RelationVerb::CloseFriend];
    for _ in 0..10 {
        let mut a = aged(1, 30, true);
        a.relations.push((RelationVerb::Friend, 2));
        let mut b = aged(2, 30, true);
        b.relations.push((RelationVerb::Friend, 1));
        let mut c = city(vec![a, b, aged(3, 30, true), aged(4, 31, true), aged(5, 29, true), aged(6, 5, true)]);
        link_friends_within_population_by_year(&mut c);
        for x in c.citizens.iter() {
            for r in x.relations.iter() {
                if social.contains(&r.0) {
                    assert_ne!(r.1, x.id);
                    let y = c.citizens.iter().find(|m| m.id == r.1).unwrap();
                    assert!(y.relations.contains(&(r.0, x.id)));
                }
            }
        }
    }
}

fn year_dictionary() -> Vec<Word> {
    let nouns = lines(&[
        "Sir, Title",
        "Smith, LastName",
        "Barley, PlantTypeCrop",
        "John, FirstName, GenderMale",
        "Mary, FirstName, GenderFemale",
        "Pie, FoodProduct, FoodDish, MeatMammal",
        "Inn, RetailerFood, Serves(Pie)",
        "Tower, BuildingTitle",
    ]);
    let adjectives = lines(&["Green, Colour", "Old, Age", "Upper, Position"]);
    let mut dict = build_dictionary(&parse_lines(&nouns), &parse_lines(&adjectives));
    dict.push(Word {
        id: 77,
        word_type: WordType::Noun,
        related_forms: Vec::new(),
        text: String::from("Cow"),
        tags: vec![String::from("CreatureAnimal"), String::from("CreatureFamilyMammal")],
    });
    dict
}

#[test]
fn simulate_year_runs_every_step() {
    let dict = year_dictionary();
    let mut c = city(vec![aged(1, 30, true), aged(2, 40, true), aged(3, 50, false)]);
    let cul = culture();
    assert_eq!(simulate_year(&mut c, &cul, &dict), Ok(()));
    assert_eq!(c.year, 8);
    assert_eq!(c.citizens.len(), 3);
    assert_eq!(c.citizens[0].age, 31);
    assert_eq!(c.citizens[1].age, 41);
    assert!(!c.citizens[2].alive);
    assert!(c.buildings.len() > 0);
}

#[test]
fn simulate_year_stops_without_outlet_words() {
    let mut c = city(vec![aged(1, 30, true), aged(2, 40, true)]);
    let cul = culture();
    assert_eq!(simulate_year(&mut c, &cul, &Vec::new()), Err(YearError::Missing));
    assert_eq!(c.year, 7);
    assert_eq!(c.citizens[0].age, 30);
}

#[test]
fn simulate_year_stops_on_an_age_out_of_range() {
    let mut cul = culture();
    cul.species_avg_lifespan = 4_000_000_000;
    let mut c = city(vec![aged(1, 2_147_483_660, true), aged(2, 40, true)]);
    c.culture.species_avg_lifespan = 4_000_000_000;
    assert_eq!(simulate_year(&mut c, &cul, &Vec::new()), Err(YearError::Overflow));
    assert_eq!(c.year, 7);
    assert!(c.citizens[0].alive);
}
