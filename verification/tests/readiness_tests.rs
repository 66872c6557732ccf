use citygen::city::institutions::outlets_ready_exec;
use citygen::city::population::mind::chars_ready_exec;
use citygen::culture::culture_ready_exec;
use citygen::language::{build_dictionary, Era, Word, WordType};
use citygen::parser::parse_lines;

fn lines(v: &[&str]) -> Vec<String> {
    v.iter().map(|s| String::from(*s)).collect()
}

fn parsed_dictionary() -> Vec<Word> {
    let nouns = lines(&[
        "Sir, Title",
        "Smith, LastName",
        "Barley, PlantTypeCrop",
        "Cow, CreatureAnimal, CreatureFamilyMammal",
        "John, FirstName, GenderMale",
        "Mary, FirstName, GenderFemale",
        "Alex, FirstName",
        "Pie, FoodProduct, FoodDish, MeatMammal",
        "Inn, RetailerFood, Serves(Pie)",
    ]);
    let adjectives = lines(&[
        "Golden, HairColour",
        "Long, HairLength",
        "Curly, HairState",
        "Green, Colour",
        "Tall, CreatureHeight",
        "Slim, CreatureBuild",
    ]);
    build_dictionary(&parse_lines(&nouns), &parse_lines(&adjectives))
}

fn animal(id: u128, text: &str, family: &str) -> Word {
    Word {
        id,
        word_type: WordType::Noun,
        related_forms: Vec::new(),
        text: String::from(text),
        tags: vec![String::from("CreatureAnimal"), String::from(family)],
    }
}

#[test]
fn parsed_words_carry_no_creature_category() {
    // The noun tags read from data lines hold creature sizes and families,
    // not categories, so a parsed dictionary has no animals for a culture.
    let dict = parsed_dictionary();
    assert!(!culture_ready_exec(&dict, &None));
}

#[test]
fn culture_ready_with_animals() {
    let mut dict = parsed_dictionary();
    dict.push(animal(1, "Cow", "CreatureFamilyMammal"));
    assert!(culture_ready_exec(&dict, &None));
}

#[test]
fn culture_needs_an_era_word_or_an_untagged_one() {
    let mut dict = parsed_dictionary();
    dict.push(animal(1, "Cow", "CreatureFamilyMammal"));
    assert!(culture_ready_exec(&dict, &Some(Era::Modern)));
}

#[test]
fn chars_ready_checks_names_and_looks() {
    let dict = parsed_dictionary();
    assert!(chars_ready_exec(&dict, &None, true));
    let mut no_looks = parsed_dictionary();
    no_looks.retain(|w| w.text != "Slim");
    assert!(!chars_ready_exec(&no_looks, &None, true));
    let mut no_last_names = parsed_dictionary();
    no_last_names.retain(|w| w.text != "Smith");
    assert!(!chars_ready_exec(&no_last_names, &None, true));
    assert!(chars_ready_exec(&no_last_names, &None, false));
}

#[test]
fn outlets_ready_needs_meat_for_the_pie() {
    let dict = parsed_dictionary();
    assert!(outlets_ready_exec(&dict, &None));
    // The pie asks for a mammal: without the cow there is none.
    let mut no_meat = parsed_dictionary();
    no_meat.retain(|w| w.text != "Cow");
    assert!(!outlets_ready_exec(&no_meat, &None));
}
