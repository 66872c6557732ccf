use citygen::city::building::new_building_no_loc;
use citygen::city::institutions::food_institutions::{random_general_food_outlet, random_specialist_food_outlet};
use citygen::city::locations::gen_location_name;
use citygen::city::population::mind::appearance::random_mind_description;
use citygen::city::population::mind::relations::parental_naming_formats::parse_format;
use citygen::city::population::mind::{random_char2, Gender};
use citygen::culture::{build_culture_dictionary, random_culture};
use citygen::language::adjectives::build_adjectives;
use citygen::language::nouns::build_nouns;
use citygen::language::nouns::food::{random_food_product, MealProducts};
use citygen::language::{build_dictionary, filter_words_by_tag_or, Era, Word, WordType};
use citygen::language2::names::{name, parse_name_format};
use citygen::language2::Dictionary;
use citygen::parser::{format_lines, parse_lines, ParserOutput};
use citygen::templater::render_template_2;
use citygen::language2::templater2::render_template as render_group_template;

fn noun_lines() -> Vec<String> {
    vec![
        "Pie, FoodProduct, FoodDish, MeatMammal, Vegetable",
        "Stew, FoodProduct, FoodDish, Vegetable",
        "Ale, FoodProduct, DrinkAlcohol, BrewableBeer",
        "Barley, PlantTypeCrop, PlantTypeGrain, BrewableBeer",
        "Carrot, PlantTypeCrop",
        "Potato, PlantTypeCrop",
        "Apple, PlantTypeCrop, PlantTypeFruit",
        "Gold, MaterialTagMetal, Adjective(Golden)",
        "Sir, Title",
        "Smith, LastName",
        "Jones, LastName",
        "John, FirstName, GenderMale",
        "Mary, FirstName, GenderFemale",
        "Alex, FirstName",
        "River, GeographyFeatureSizeLocalFeature",
        "Valley, GeographyFeatureSizeAreaFeature",
        "Inn, RetailerFood, Serves(Pie)",
        "Bakery, RetailerFoodSpecialist",
        "Tower, BuildingTitle",
    ]
    .into_iter()
    .map(String::from)
    .collect()
}

fn adjective_lines() -> Vec<String> {
    vec![
        "Red, Colour",
        "Green, Colour",
        "Golden, HairColour",
        "Long, HairLength",
        "Curly, HairState",
        "Tall, CreatureHeight",
        "Slim, CreatureBuild",
        "Old, Age",
        "Upper, Position",
        "Fine, Quality",
    ]
    .into_iter()
    .map(String::from)
    .collect()
}

fn noun_entries() -> ParserOutput {
    parse_lines(&noun_lines())
}

fn adjective_entries() -> ParserOutput {
    parse_lines(&adjective_lines())
}

fn animal(id: u128, text: &str, family: &str) -> Word {
    Word {
        id,
        word_type: WordType::Noun,
        related_forms: Vec::new(),
        text: String::from(text),
        tags: vec![String::from("CreatureAnimal"), String::from(family)],
    }
}

/// The parsed words, and two animals: the noun parser reads no creature
/// category, so animals come as words of their own.
fn dictionary() -> Vec<Word> {
    let mut dict = build_dictionary(&noun_entries(), &adjective_entries());
    dict.push(animal(1, "Cow", "CreatureFamilyMammal"));
    dict.push(animal(2, "Salmon", "CreatureFamilyFish"));
    dict
}

fn group_dictionary() -> Dictionary {
    let mut dict = Dictionary::new();
    let lines = [
        "John, NOUN, HAS_GROUP(First Name), HAS_GROUP(Male Gender), HAS_GROUP(Modern), HAS_GROUP(Medieval)",
        "Mary, NOUN, HAS_GROUP(First Name), HAS_GROUP(Female Gender), HAS_GROUP(Modern), HAS_GROUP(Medieval)",
        "Alex, NOUN, HAS_GROUP(First Name), HAS_GROUP(Modern), HAS_GROUP(Medieval)",
        "Henry, NOUN, HAS_GROUP(Last Name), HAS_GROUP(Modern), HAS_GROUP(Medieval)",
        "Gold, NOUN, HAS_GROUP(Metal), HAS_ADJECTIVE(Golden)",
        "Fine, ADJECTIVE, HAS_GROUP(Quality)",
        "ADJECTIVE_AND(Quality) NOUN_AND(Metal) Harpoon, TEMPLATE, HAS_GROUP(Weapon)",
    ];
    for l in lines {
        dict.parse_datafile_line(String::from(l));
    }
    dict
}

#[test]
fn test_new_building() {
    let dict = dictionary();
    let building = new_building_no_loc(&dict, &random_culture(&dict, &None), false);
    println!("{} with {} floors", building.name, building.floors.len());
    assert!(building.location_id.is_none());
    assert!(building.floors.len() >= 3);
}

#[test]
fn test_random_spec_food_inst() {
    let dict = dictionary();
    let culture = random_culture(&dict, &Some(Era::Modern));
    println!("Specialist Food Outlets:");
    for _i in 0..10 {
        let inst = random_specialist_food_outlet(&dict, &Some(culture.copy()));
        println!("{:?}: {:?}", inst.name, inst.serves);
        assert!(inst.serves.len() <= 7);
    }
    println!("General Food Outlets:");
    for _i in 0..10 {
        let inst = random_general_food_outlet(&dict, &Some(culture.copy()));
        println!("{:?}: {:?}", inst.name, inst.serves);
        assert!(inst.name.ends_with(" Inn"));
    }
}

#[test]
fn test_gen_location_name() {
    let dict = dictionary();
    let name_dict = build_culture_dictionary(&dict, &random_culture(&dict, &None));
    for _i in 0..10 {
        println!("{}", gen_location_name(&name_dict, true, &None));
    }
}

#[test]
fn random_description_test() {
    let dict = dictionary();
    for _i in 0..10 {
        let d = random_mind_description(&dict);
        println!("{} {} {:?} {} {} {}", d.hair_colour, d.hair_length, d.hair_adjectives, d.eye_colour, d.height_adjective, d.build_adjective);
        assert_eq!(d.hair_colour, "Golden");
        assert_eq!(d.hair_adjectives, vec![String::from("Curly")]);
        assert!(d.eye_colour == "Red" || d.eye_colour == "Green");
    }
}

#[test]
fn test_parse_format() {
    let name = parse_format(
        "{{ML}}-{{FL}}",
        ("James", "Freeman-Worthord", &Gender::Male),
        ("Annie", "Antwood-Ford", &Gender::Female),
    );
    println!("Name: {}", name);
    assert_eq!(name, "Freeman-Antwood");
}

#[test]
fn test_random_culture() {
    let dict = dictionary();
    let culture = random_culture(&dict, &None);
    println!("{:?} {} {}", culture.historical_figures, culture.avg_building_footprint, culture.avg_building_floors);
    assert!(culture.historical_figures.len() >= 3 && culture.historical_figures.len() <= 7);
    assert_eq!(culture.avg_building_footprint, 12);
    assert_eq!(culture.avg_building_floors, 6);
    assert_eq!(culture.adult_age, 18);
}

#[test]
fn test_adjective_parser() {
    let adjectives = build_adjectives(&adjective_entries());
    let colours = filter_words_by_tag_or(adjectives.iter().collect(), WordType::Adjective, vec![String::from("Colour")]);
    for adjective in &colours {
        println!("{:#?}", adjective);
    }
    assert_eq!(colours.len(), 2);
}

#[test]
fn test_noun_parser() {
    let nouns = build_nouns(&noun_entries());
    let metals = filter_words_by_tag_or(nouns.iter().collect(), WordType::Noun, vec![String::from("MaterialTagMetal")]);
    for noun in &metals {
        println!("{:#?}", noun);
    }
    assert_eq!(metals.len(), 1);
    assert_eq!(metals[0].text, "Gold");
    assert_eq!(metals[0].related_forms.len(), 1);
    assert_eq!(metals[0].related_forms[0].text, "Golden");
}

#[test]
fn test_random_foods() {
    let dict = dictionary();
    let culture = random_culture(&dict, &Some(Era::Modern));
    println!("Meals:");
    for _i in 0..20 {
        let meal = random_food_product(&dict, &Some(culture.copy()), MealProducts::FoodDish);
        println!("{:?}", meal);
        assert!(meal.ends_with("Pie") || meal.ends_with("Stew"));
    }
    println!("Drinks");
    for _i in 0..10 {
        let drink = random_food_product(&dict, &Some(culture.copy()), MealProducts::DrinkAlcohol);
        println!("{:?}", drink);
        assert_eq!(drink, "Barley Ale");
    }
}

#[test]
fn tag_and_filter() {
    let dict = group_dictionary();
    for t in &dict.templates {
        println!("{} {:?}", t.template, t.groups);
    }
    assert_eq!(dict.templates.len(), 1);
    assert_eq!(dict.templates[0].groups, vec![String::from("Weapon")]);
}

#[test]
fn gen_names() {
    let dict = group_dictionary();
    for _i in 0..25 {
        let (first, last) = name(&dict, &Gender::Ambiguous, Some(String::from("Modern")));
        assert!(first == "John" || first == "Mary" || first == "Alex");
        assert_eq!(last, "Henry");
    }
    for _i in 0..25 {
        let (first, _last) = name(&dict, &Gender::Ambiguous, Some(String::from("Medieval")));
        assert!(first == "John" || first == "Mary" || first == "Alex");
    }
}

#[test]
fn last_name_formats() {
    let dict = group_dictionary();
    let mut mind_1 = random_char2(&dict, &None, 0);
    let mut mind_2 = random_char2(&dict, &None, 0);
    mind_1.gender = Gender::Male;
    mind_2.gender = Gender::Female;
    mind_1.last_name = String::from("Henry-Packel");
    mind_2.last_name = String::from("Harvey-Steel");
    assert!(parse_name_format("{{ML}}-{{FL}}", &mind_1, &mind_2).eq(&"Henry-Harvey"));

    mind_2.gender = Gender::Male;
    mind_1.gender = Gender::Female;
    assert!(parse_name_format("{{ML}}-{{FL}}", &mind_1, &mind_2).eq(&"Harvey-Henry"));
}

#[test]
fn test_render_template() {
    let example_template: &str = "{{Noun(!LastName, !HistoricalFigure)}} {{Noun(GeographyFeatureSizeLocalFeature)}}";
    let d = dictionary();
    let dict = build_culture_dictionary(&d, &random_culture(&d, &None));
    let out = render_template_2(example_template, &dict, &None);
    println!("{}", out);
    assert!(out.ends_with("River"));
}

#[test]
fn test_templater() {
    let dict = group_dictionary();
    for _i in 0..10 {
        let rendered = render_group_template("ADJECTIVE_AND(Quality) NOUN_AND(Metal) Harpoon", &dict);
        println!("{:?}", rendered);
        assert_eq!(rendered, "Fine Gold Harpoon");
    }
}

#[test]
fn format_lines_sorts_each_closed_group() {
    let lines: Vec<String> = vec!["// Fruit", "Pear", "Apple", "// Metals", "Tin", "Gold", "// Open", "Zinc"]
        .into_iter()
        .map(String::from)
        .collect();
    assert_eq!(format_lines(&lines), "\n// Fruit\nApple\nPear\n// Metals\nGold\nTin\n");
}

#[test]
fn format_lines_keeps_lines_before_the_first_heading() {
    let lines: Vec<String> = vec!["b", "a", "// H", "z"].into_iter().map(String::from).collect();
    assert_eq!(format_lines(&lines), "\na\nb\n");
}

#[test]
fn format_lines_orders_by_code_point() {
    let lines: Vec<String> = vec!["ab", "a", "B", "b", "// end"].into_iter().map(String::from).collect();
    assert_eq!(format_lines(&lines), "\nB\na\nab\nb\n");
}

#[test]
fn format_data_files() {
    // The data file itself is read by the application; here its lines are given.
    let lines: Vec<String> = vec!["// Metals", "Tin, MaterialTagMetal", "Gold, MaterialTagMetal", "// End"]
        .into_iter()
        .map(String::from)
        .collect();
    let formatted = format_lines(&lines);
    println!("{}", formatted);
    assert_eq!(formatted, "\n// Metals\nGold, MaterialTagMetal\nTin, MaterialTagMetal\n");
}

#[test]
fn suffix_words_join_the_text_before_in_lower_case() {
    let nouns: Vec<String> = vec!["Smith, LastName", "Ville, Suffixable"].into_iter().map(String::from).collect();
    let dict = build_dictionary(&parse_lines(&nouns), &parse_lines(&Vec::new()));
    assert_eq!(render_template_2("{{Noun(!LastName)}} {{Noun(!Suffixable)}}", &dict, &None), "Smithville");
}

#[test]
fn random_pick_of_one_item_gives_it() {
    for _i in 0..10 {
        assert_eq!(citygen::utils::random_pick(&vec![7u8]), 7u8);
    }
}
