//! How people look, and how children take after their parents.
use crate::language::adjectives::AdjectiveTag;
use crate::language::{has_word_by_tag, random_word_by_tag, tag_selection, word_views, Word, WordType, WordView};
use crate::random::random_below;
use crate::text::str_views;
use vstd::prelude::*;

verus! {

/// How a person looks.
pub struct PhysicalDescription {
    pub hair_colour: String,
    pub hair_length: String,
    pub hair_adjectives: Vec<String>,
    pub eye_colour: String,
    pub height_adjective: String,
    pub build_adjective: String,
}

/// The adjectives of the dictionary that carry the tag `tag`.
pub open spec fn descriptors(dict: Seq<WordView>, tag: Seq<char>) -> Seq<WordView> {
    tag_selection(dict, WordType::Adjective, seq![tag], seq![], seq![], None)
}

/// `s` is the text of one of the adjectives tagged `tag`.
pub open spec fn descriptor_of(dict: Seq<WordView>, tag: Seq<char>, s: Seq<char>) -> bool {
    exists|i: int| 0 <= i < descriptors(dict, tag).len() && #[trigger] descriptors(dict, tag)[i].text == s
}

/// The tags of the adjectives a description is drawn from: hair colour,
/// hair length, hair state, eye colour, height and build.
pub open spec fn appearance_tags() -> Seq<Seq<char>> {
    seq![
        AdjectiveTag::HairColour.label(),
        AdjectiveTag::HairLength.label(),
        AdjectiveTag::HairState.label(),
        AdjectiveTag::Colour.label(),
        AdjectiveTag::CreatureHeight.label(),
        AdjectiveTag::CreatureBuild.label(),
    ]
}

/// The dictionary has adjectives for every part of a description.
pub open spec fn descriptions_ready(dict: Seq<WordView>) -> bool {
    forall|k: int| 0 <= k < 6 ==> descriptors(dict, #[trigger] appearance_tags()[k]).len() > 0
}

/// Each part of the description is an adjective of its tag, and there is
/// one hair adjective.
pub open spec fn description_drawn(d: PhysicalDescription, dict: Seq<WordView>) -> bool {
    &&& descriptor_of(dict, AdjectiveTag::HairColour.label(), d.hair_colour@)
    &&& descriptor_of(dict, AdjectiveTag::HairLength.label(), d.hair_length@)
    &&& d.hair_adjectives@.len() == 1
    &&& descriptor_of(dict, AdjectiveTag::HairState.label(), d.hair_adjectives@[0]@)
    &&& descriptor_of(dict, AdjectiveTag::Colour.label(), d.eye_colour@)
    &&& descriptor_of(dict, AdjectiveTag::CreatureHeight.label(), d.height_adjective@)
    &&& descriptor_of(dict, AdjectiveTag::CreatureBuild.label(), d.build_adjective@)
}

fn has_descriptor(dict: &Vec<Word>, target: String) -> (b: bool)
    ensures
        b == (descriptors(word_views(dict@), target@).len() > 0),
{
    let ghost t = target@;
    let all_of = vec![target];
    let none: Vec<String> = Vec::new();
    assert(str_views(all_of@) =~= seq![t]);
    assert(str_views(none@) =~= Seq::<Seq<char>>::empty());
    has_word_by_tag(dict, WordType::Adjective, &all_of, &none, &none, &None)
}

/// Whether the dictionary has adjectives for every part of a description
/// (see [`descriptions_ready`]).
pub fn descriptions_ready_exec(dict: &Vec<Word>) -> (b: bool)
    ensures
        b == descriptions_ready(word_views(dict@)),
{
    let tags = [
        AdjectiveTag::HairColour.to_string(),
        AdjectiveTag::HairLength.to_string(),
        AdjectiveTag::HairState.to_string(),
        AdjectiveTag::Colour.to_string(),
        AdjectiveTag::CreatureHeight.to_string(),
        AdjectiveTag::CreatureBuild.to_string(),
    ];
    let mut k: usize = 0;
    while k < 6
        invariant
            k <= 6,
            forall|q: int| 0 <= q < 6 ==> #[trigger] tags@[q]@ == appearance_tags()[q],
            forall|q: int| 0 <= q < k ==> descriptors(word_views(dict@), #[trigger] appearance_tags()[q]).len() > 0,
        decreases 6 - k,
    {
        if !has_descriptor(dict, tags[k].clone()) {
            return false;
        }
        k = k + 1;
    }
    true
}

fn random_descriptor(dict: &Vec<Word>, target: String) -> (r: String)
    requires
        descriptors(word_views(dict@), target@).len() > 0,
    ensures
        descriptor_of(word_views(dict@), target@, r@),
{
    let ghost t = target@;
    let all_of = vec![target];
    let none: Vec<String> = Vec::new();
    assert(str_views(all_of@) =~= seq![t]);
    assert(str_views(none@) =~= Seq::<Seq<char>>::empty());
    let w = random_word_by_tag(dict, WordType::Adjective, &all_of, &none, &none, &None).unwrap();
    let ghost sel = descriptors(word_views(dict@), t);
    let ghost i = choose|i: int| 0 <= i < sel.len() && sel[i] == w@;
    assert(sel[i].text == w.text@);
    w.text
}

/// A description drawn from the dictionary (see [`description_drawn`]).
pub fn random_mind_description(dict: &Vec<Word>) -> (r: PhysicalDescription)
    requires
        descriptions_ready(word_views(dict@)),
    ensures
        description_drawn(r, word_views(dict@)),
{
    proof {
        assert(descriptors(word_views(dict@), appearance_tags()[0]).len() > 0);
        assert(descriptors(word_views(dict@), appearance_tags()[1]).len() > 0);
        assert(descriptors(word_views(dict@), appearance_tags()[2]).len() > 0);
        assert(descriptors(word_views(dict@), appearance_tags()[3]).len() > 0);
        assert(descriptors(word_views(dict@), appearance_tags()[4]).len() > 0);
        assert(descriptors(word_views(dict@), appearance_tags()[5]).len() > 0);
    }
    let hair_colour = random_descriptor(dict, AdjectiveTag::HairColour.to_string());
    let hair_length = random_descriptor(dict, AdjectiveTag::HairLength.to_string());
    let hair_state = random_descriptor(dict, AdjectiveTag::HairState.to_string());
    let eye_colour = random_descriptor(dict, AdjectiveTag::Colour.to_string());
    let height_adjective = random_descriptor(dict, AdjectiveTag::CreatureHeight.to_string());
    let build_adjective = random_descriptor(dict, AdjectiveTag::CreatureBuild.to_string());
    PhysicalDescription {
        hair_colour,
        hair_length,
        hair_adjectives: vec![hair_state],
        eye_colour,
        height_adjective,
        build_adjective,
    }
}

/// An attribute of a child: the first parent's with chance 9 in 20, the
/// second's with chance 9 in 20, and otherwise a new adjective tagged
/// `tag`.
fn choose_or_mutate_attribute(dict: &Vec<Word>, tag: String, a1: &String, a2: &String) -> (r: String)
    requires
        descriptors(word_views(dict@), tag@).len() > 0,
    ensures
        r@ == a1@ || r@ == a2@ || descriptor_of(word_views(dict@), tag@, r@),
{
    let roll = random_below(20);
    if roll >= 11 {
        a1.clone()
    } else if roll >= 2 {
        a2.clone()
    } else {
        random_descriptor(dict, tag)
    }
}

/// `s` comes from one parent's `a1` or the other's `a2`, or is a new
/// adjective tagged `tag`.
pub open spec fn inherited(dict: Seq<WordView>, tag: Seq<char>, a1: Seq<char>, a2: Seq<char>, s: Seq<char>) -> bool {
    s == a1 || s == a2 || descriptor_of(dict, tag, s)
}

/// A child's description: each part taken from one parent or drawn anew
/// (see [`inherited`]), with one hair adjective.
pub open spec fn child_description_of(
    c: PhysicalDescription,
    p1: PhysicalDescription,
    p2: PhysicalDescription,
    dict: Seq<WordView>,
) -> bool {
    &&& inherited(dict, AdjectiveTag::HairColour.label(), p1.hair_colour@, p2.hair_colour@, c.hair_colour@)
    &&& inherited(dict, AdjectiveTag::HairLength.label(), p1.hair_length@, p2.hair_length@, c.hair_length@)
    &&& c.hair_adjectives@.len() == 1
    &&& inherited(
        dict,
        AdjectiveTag::HairState.label(),
        p1.hair_adjectives@[0]@,
        p2.hair_adjectives@[0]@,
        c.hair_adjectives@[0]@,
    )
    &&& inherited(dict, AdjectiveTag::Colour.label(), p1.eye_colour@, p2.eye_colour@, c.eye_colour@)
    &&& inherited(
        dict,
        AdjectiveTag::CreatureHeight.label(),
        p1.height_adjective@,
        p2.height_adjective@,
        c.height_adjective@,
    )
    &&& inherited(
        dict,
        AdjectiveTag::CreatureBuild.label(),
        p1.build_adjective@,
        p2.build_adjective@,
        c.build_adjective@,
    )
}

/// A child's description from its parents' (see [`child_description_of`]).
/// Each parent must have a hair adjective.
pub fn generate_child_description(
    dict: &Vec<Word>,
    p1: &PhysicalDescription,
    p2: &PhysicalDescription,
) -> (r: PhysicalDescription)
    requires
        descriptions_ready(word_views(dict@)),
        p1.hair_adjectives.len() > 0,
        p2.hair_adjectives.len() > 0,
    ensures
        child_description_of(r, *p1, *p2, word_views(dict@)),
{
    proof {
        assert(descriptors(word_views(dict@), appearance_tags()[0]).len() > 0);
        assert(descriptors(word_views(dict@), appearance_tags()[1]).len() > 0);
        assert(descriptors(word_views(dict@), appearance_tags()[2]).len() > 0);
        assert(descriptors(word_views(dict@), appearance_tags()[3]).len() > 0);
        assert(descriptors(word_views(dict@), appearance_tags()[4]).len() > 0);
        assert(descriptors(word_views(dict@), appearance_tags()[5]).len() > 0);
    }
    let hair_colour = choose_or_mutate_attribute(
        dict,
        AdjectiveTag::HairColour.to_string(),
        &p1.hair_colour,
        &p2.hair_colour,
    );
    let hair_length = choose_or_mutate_attribute(
        dict,
        AdjectiveTag::HairLength.to_string(),
        &p1.hair_length,
        &p2.hair_length,
    );
    let hair_state = choose_or_mutate_attribute(
        dict,
        AdjectiveTag::HairState.to_string(),
        &p1.hair_adjectives[0],
        &p2.hair_adjectives[0],
    );
    let eye_colour = choose_or_mutate_attribute(
        dict,
        AdjectiveTag::Colour.to_string(),
        &p1.eye_colour,
        &p2.eye_colour,
    );
    let height_adjective = choose_or_mutate_attribute(
        dict,
        AdjectiveTag::CreatureHeight.to_string(),
        &p1.height_adjective,
        &p2.height_adjective,
    );
    let build_adjective = choose_or_mutate_attribute(
        dict,
        AdjectiveTag::CreatureBuild.to_string(),
        &p1.build_adjective,
        &p2.build_adjective,
    );
    PhysicalDescription {
        hair_colour,
        hair_length,
        hair_adjectives: vec![hair_state],
        eye_colour,
        height_adjective,
        build_adjective,
    }
}

} // verus!
