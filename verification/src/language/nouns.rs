//! Nouns: the tags they may carry, and how tags in data files are read.
pub mod creatures;
pub mod emotions;
pub mod era;
pub mod food;
pub mod geography;
pub mod materials;
pub mod plants;

use crate::language::nouns::creatures::{creature_tags, spec_creature_tags};
use crate::language::nouns::emotions::{emotion_group_tags, spec_emotion_group_tags};
use crate::language::nouns::era::{era_tags, spec_era_tags};
use crate::language::nouns::food::{food_tags, spec_food_tags};
use crate::language::nouns::geography::{geography_tags, spec_geography_tags};
use crate::language::nouns::materials::{material_tags, spec_material_tags};
use crate::language::nouns::plants::{plant_tags, spec_plant_tags};
use crate::language::{copy_strings, Word, WordType};
use crate::parser::ParserOutput;
use crate::random::new_id;
use crate::text::{
    chars_of, contains_exec, contains_seq, eq_chars, first_occurrence, first_occurrence_exec, last_char_from,
    last_char_from_exec, occurs_at, str_views, string_of, sub_chars, trim, trim_chars,
};
use vstd::prelude::*;

verus! {

/// The tags a noun may carry.
#[derive(PartialEq, Eq, Structural, Debug, Clone, Copy)]
pub enum NounTag {
    AbstractConcept,
    Profession,
    Relation,
    CulturalGroup,
    Good,
    Evil,
    Holy,
    Institution,
    Affliction,
    Symbolic,
    Weapon,
    Worn,
    Furniture,
    Tool,
    Product,
    Construction,
    SubConstruction,
    WorldFeature,
    GeographicFeature,
    Settlement,
    Event,
    Weather,
    BodyPart,
    GlobalSingular,
    Direction,
    Title,
    BuildingTitle,
    GeneralRetailerName,
    RetailerFood,
    RetailerFoodSpecialist,
    RetailerSpecialist,
    EntertainmentVenu,
    ServiceAdmin,
    Suffixable,
    FirstName,
    LastName,
    GenderMale,
    GenderFemale,
    HistoricalFigure,
    FoodProduct,
}

impl NounTag {
    /// The name of the value, as data files and templates spell it.
    pub open spec fn label(self) -> Seq<char> {
        match self {
            NounTag::AbstractConcept => "AbstractConcept"@,
            NounTag::Profession => "Profession"@,
            NounTag::Relation => "Relation"@,
            NounTag::CulturalGroup => "CulturalGroup"@,
            NounTag::Good => "Good"@,
            NounTag::Evil => "Evil"@,
            NounTag::Holy => "Holy"@,
            NounTag::Institution => "Institution"@,
            NounTag::Affliction => "Affliction"@,
            NounTag::Symbolic => "Symbolic"@,
            NounTag::Weapon => "Weapon"@,
            NounTag::Worn => "Worn"@,
            NounTag::Furniture => "Furniture"@,
            NounTag::Tool => "Tool"@,
            NounTag::Product => "Product"@,
            NounTag::Construction => "Construction"@,
            NounTag::SubConstruction => "SubConstruction"@,
            NounTag::WorldFeature => "WorldFeature"@,
            NounTag::GeographicFeature => "GeographicFeature"@,
            NounTag::Settlement => "Settlement"@,
            NounTag::Event => "Event"@,
            NounTag::Weather => "Weather"@,
            NounTag::BodyPart => "BodyPart"@,
            NounTag::GlobalSingular => "GlobalSingular"@,
            NounTag::Direction => "Direction"@,
            NounTag::Title => "Title"@,
            NounTag::BuildingTitle => "BuildingTitle"@,
            NounTag::GeneralRetailerName => "GeneralRetailerName"@,
            NounTag::RetailerFood => "RetailerFood"@,
            NounTag::RetailerFoodSpecialist => "RetailerFoodSpecialist"@,
            NounTag::RetailerSpecialist => "RetailerSpecialist"@,
            NounTag::EntertainmentVenu => "EntertainmentVenu"@,
            NounTag::ServiceAdmin => "ServiceAdmin"@,
            NounTag::Suffixable => "Suffixable"@,
            NounTag::FirstName => "FirstName"@,
            NounTag::LastName => "LastName"@,
            NounTag::GenderMale => "GenderMale"@,
            NounTag::GenderFemale => "GenderFemale"@,
            NounTag::HistoricalFigure => "HistoricalFigure"@,
            NounTag::FoodProduct => "FoodProduct"@,
        }
    }

    /// The name of the value, as data files and templates spell it.
    pub fn to_string(&self) -> (s: String)
        ensures
            s@ == self.label(),
    {
        match self {
            NounTag::AbstractConcept => String::from_str("AbstractConcept"),
            NounTag::Profession => String::from_str("Profession"),
            NounTag::Relation => String::from_str("Relation"),
            NounTag::CulturalGroup => String::from_str("CulturalGroup"),
            NounTag::Good => String::from_str("Good"),
            NounTag::Evil => String::from_str("Evil"),
            NounTag::Holy => String::from_str("Holy"),
            NounTag::Institution => String::from_str("Institution"),
            NounTag::Affliction => String::from_str("Affliction"),
            NounTag::Symbolic => String::from_str("Symbolic"),
            NounTag::Weapon => String::from_str("Weapon"),
            NounTag::Worn => String::from_str("Worn"),
            NounTag::Furniture => String::from_str("Furniture"),
            NounTag::Tool => String::from_str("Tool"),
            NounTag::Product => String::from_str("Product"),
            NounTag::Construction => String::from_str("Construction"),
            NounTag::SubConstruction => String::from_str("SubConstruction"),
            NounTag::WorldFeature => String::from_str("WorldFeature"),
            NounTag::GeographicFeature => String::from_str("GeographicFeature"),
            NounTag::Settlement => String::from_str("Settlement"),
            NounTag::Event => String::from_str("Event"),
            NounTag::Weather => String::from_str("Weather"),
            NounTag::BodyPart => String::from_str("BodyPart"),
            NounTag::GlobalSingular => String::from_str("GlobalSingular"),
            NounTag::Direction => String::from_str("Direction"),
            NounTag::Title => String::from_str("Title"),
            NounTag::BuildingTitle => String::from_str("BuildingTitle"),
            NounTag::GeneralRetailerName => String::from_str("GeneralRetailerName"),
            NounTag::RetailerFood => String::from_str("RetailerFood"),
            NounTag::RetailerFoodSpecialist => String::from_str("RetailerFoodSpecialist"),
            NounTag::RetailerSpecialist => String::from_str("RetailerSpecialist"),
            NounTag::EntertainmentVenu => String::from_str("EntertainmentVenu"),
            NounTag::ServiceAdmin => String::from_str("ServiceAdmin"),
            NounTag::Suffixable => String::from_str("Suffixable"),
            NounTag::FirstName => String::from_str("FirstName"),
            NounTag::LastName => String::from_str("LastName"),
            NounTag::GenderMale => String::from_str("GenderMale"),
            NounTag::GenderFemale => String::from_str("GenderFemale"),
            NounTag::HistoricalFigure => String::from_str("HistoricalFigure"),
            NounTag::FoodProduct => String::from_str("FoodProduct"),
        }
    }

    /// Every value, in declaration order.
    pub open spec fn all() -> Seq<NounTag> {
        seq![NounTag::AbstractConcept, NounTag::Profession, NounTag::Relation, NounTag::CulturalGroup, NounTag::Good, NounTag::Evil, NounTag::Holy, NounTag::Institution, NounTag::Affliction, NounTag::Symbolic, NounTag::Weapon, NounTag::Worn, NounTag::Furniture, NounTag::Tool, NounTag::Product, NounTag::Construction, NounTag::SubConstruction, NounTag::WorldFeature, NounTag::GeographicFeature, NounTag::Settlement, NounTag::Event, NounTag::Weather, NounTag::BodyPart, NounTag::GlobalSingular, NounTag::Direction, NounTag::Title, NounTag::BuildingTitle, NounTag::GeneralRetailerName, NounTag::RetailerFood, NounTag::RetailerFoodSpecialist, NounTag::RetailerSpecialist, NounTag::EntertainmentVenu, NounTag::ServiceAdmin, NounTag::Suffixable, NounTag::FirstName, NounTag::LastName, NounTag::GenderMale, NounTag::GenderFemale, NounTag::HistoricalFigure, NounTag::FoodProduct]
    }

    /// The names of all values, in declaration order.
    pub open spec fn labels() -> Seq<Seq<char>> {
        Self::all().map_values(|t: NounTag| t.label())
    }

    /// Every value, in declaration order.
    pub fn iter() -> (v: Vec<NounTag>)
        ensures
            v@ == Self::all(),
    {
        let v = vec![NounTag::AbstractConcept, NounTag::Profession, NounTag::Relation, NounTag::CulturalGroup, NounTag::Good, NounTag::Evil, NounTag::Holy, NounTag::Institution, NounTag::Affliction, NounTag::Symbolic, NounTag::Weapon, NounTag::Worn, NounTag::Furniture, NounTag::Tool, NounTag::Product, NounTag::Construction, NounTag::SubConstruction, NounTag::WorldFeature, NounTag::GeographicFeature, NounTag::Settlement, NounTag::Event, NounTag::Weather, NounTag::BodyPart, NounTag::GlobalSingular, NounTag::Direction, NounTag::Title, NounTag::BuildingTitle, NounTag::GeneralRetailerName, NounTag::RetailerFood, NounTag::RetailerFoodSpecialist, NounTag::RetailerSpecialist, NounTag::EntertainmentVenu, NounTag::ServiceAdmin, NounTag::Suffixable, NounTag::FirstName, NounTag::LastName, NounTag::GenderMale, NounTag::GenderFemale, NounTag::HistoricalFigure, NounTag::FoodProduct];
        assert(v@ =~= Self::all());
        v
    }
}
/// The generic noun tags: every noun tag.
pub open spec fn spec_build_generic_tags() -> Seq<Seq<char>> {
    NounTag::labels()
}

/// The generic noun tags: every noun tag.
pub fn build_generic_tags() -> (v: Vec<String>)
    ensures
        str_views(v@) == spec_build_generic_tags(),
{
    let mut output: Vec<String> = Vec::new();
    let tags = NounTag::iter();
    let mut i: usize = 0;
    while i < tags.len()
        invariant
            tags@ == NounTag::all(),
            i <= tags.len(),
            str_views(output@) == (Seq::<Seq<char>>::empty()) + NounTag::labels().take(i as int),
        decreases tags.len() - i,
    {
        let t = tags[i].to_string();
        let ghost prev = str_views(output@);
        output.push(t);
        assert(str_views(output@) =~= prev.push(NounTag::labels()[i as int]));
        assert(NounTag::labels().take(i + 1) =~= NounTag::labels().take(i as int).push(NounTag::labels()[i as int]));
        i = i + 1;
        assert(str_views(output@) =~= (Seq::<Seq<char>>::empty()) + NounTag::labels().take(i as int));
    }
    assert(NounTag::labels().take(tags.len() as int) =~= NounTag::labels());
    assert(str_views(output@) =~= spec_build_generic_tags());
    output
}

/// Moves the strings of `more` to the end of `out`.
pub fn append_strings(out: &mut Vec<String>, more: Vec<String>)
    ensures
        str_views(final(out)@) == str_views(old(out)@) + str_views(more@),
{
    let mut more = more;
    let ghost m = more@;
    out.append(&mut more);
    assert(str_views(out@) =~= str_views(old(out)@) + str_views(m));
}

/// Every tag a noun may carry: the generic noun tags, then those of
/// creatures, emotions, eras, geography, materials, plants and food.
pub open spec fn spec_build_noun_tags() -> Seq<Seq<char>> {
    spec_build_generic_tags() + spec_creature_tags() + spec_emotion_group_tags()
        + spec_era_tags() + spec_geography_tags() + spec_material_tags() + spec_plant_tags()
        + spec_food_tags()
}

/// Every tag a noun may carry, in the order of [`spec_build_noun_tags`].
pub fn build_noun_tags() -> (v: Vec<String>)
    ensures
        str_views(v@) == spec_build_noun_tags(),
{
    let mut output = build_generic_tags();
    append_strings(&mut output, creature_tags());
    append_strings(&mut output, emotion_group_tags());
    append_strings(&mut output, era_tags());
    append_strings(&mut output, geography_tags());
    append_strings(&mut output, material_tags());
    append_strings(&mut output, plant_tags());
    append_strings(&mut output, food_tags());
    output
}

/// How a tag written in a noun's data line is read against the known `tags`:
/// the trimmed token when it is the first known tag; otherwise the whole
/// token, untrimmed, when it holds `Serves(`; otherwise the trimmed token
/// when it is any known tag; otherwise nothing. No tag is read when no tag
/// is known.
pub open spec fn noun_tag_match(token: Seq<char>, tags: Seq<Seq<char>>) -> Option<Seq<char>> {
    let t = trim(token);
    if tags.len() == 0 {
        None
    } else if tags[0] == t {
        Some(t)
    } else if contains_seq(t, "Serves("@) {
        Some(token)
    } else if tags.contains(t) {
        Some(t)
    } else {
        None
    }
}

/// Reads a tag of a noun's data line against the known `tags`
/// (see [`noun_tag_match`]).
pub fn string_match_noun_tag(token: &str, tags: &Vec<String>) -> (r: Option<String>)
    ensures
        r matches Some(s) ==> noun_tag_match(token@, str_views(tags@)) == Some(s@),
        r is None ==> noun_tag_match(token@, str_views(tags@)) is None,
{
    let tok = chars_of(token);
    let trimmed = trim_chars(&tok);
    let serves = chars_of("Serves(");
    let mut i: usize = 0;
    while i < tags.len()
        invariant
            i <= tags.len(),
            tok@ == token@,
            trimmed@ == trim(token@),
            serves@ == "Serves("@,
            i > 0 ==> !contains_seq(trim(token@), "Serves("@),
            forall|j: int| 0 <= j < i ==> tags@[j]@ != trim(token@),
        decreases tags.len() - i,
    {
        let tag = chars_of(tags[i].as_str());
        if crate::text::eq_chars(&tag, &trimmed) {
            assert(str_views(tags@)[i as int] == trim(token@));
            return Some(crate::text::string_of(&trimmed));
        }
        if contains_exec(&trimmed, &serves) {
            return Some(crate::text::string_of(&tok));
        }
        i = i + 1;
    }
    assert(!str_views(tags@).contains(trim(token@)));
    None
}

/// The noun tags read from the tokens of a data line against the known
/// tags (see [`noun_tag_match`]), in order.
pub open spec fn noun_tags_read(tokens: Seq<Seq<char>>, known: Seq<Seq<char>>) -> Seq<Seq<char>>
    decreases tokens.len(),
{
    if tokens.len() == 0 {
        Seq::empty()
    } else {
        let rest = noun_tags_read(tokens.drop_last(), known);
        match noun_tag_match(tokens.last(), known) {
            Some(t) => rest.push(t),
            None => rest,
        }
    }
}

/// The adjective a token `Adjective(<form>)` names: from the first
/// `Adjective(` to the last `)` after it (a token is part of a line, so it
/// holds no line break).
pub open spec fn adjective_form(token: Seq<char>) -> Option<Seq<char>> {
    match first_occurrence(token, "Adjective("@) {
        Some(p) => match last_char_from(token, ')', p + 10) {
            Some(q) => Some(token.subrange(p + 10, q)),
            None => None,
        },
        None => None,
    }
}

/// The adjectives a noun's data line names, in order: the noun's own text
/// for each token `Adjective`, and the form of each token
/// `Adjective(<form>)`.
pub open spec fn adjective_terms(subject: Seq<char>, tokens: Seq<Seq<char>>) -> Seq<Seq<char>>
    decreases tokens.len(),
{
    if tokens.len() == 0 {
        Seq::empty()
    } else {
        let t = tokens.last();
        adjective_terms(subject, tokens.drop_last()) + (if t == "Adjective"@ {
            seq![subject]
        } else {
            Seq::empty()
        }) + match adjective_form(t) {
            Some(a) => seq![a],
            None => Seq::empty(),
        }
    }
}

/// The noun `w` built from the data line `subject, tokens`: its text, the
/// noun tags read, and as related forms one adjective for each adjective
/// term, with the noun's tags.
pub open spec fn noun_built(w: Word, subject: Seq<char>, tokens: Seq<Seq<char>>, known: Seq<Seq<char>>) -> bool {
    let tags = noun_tags_read(tokens, known);
    let terms = adjective_terms(subject, tokens);
    &&& w@.word_type == WordType::Noun
    &&& w@.text == subject
    &&& w@.tags == tags
    &&& w.related_forms@.len() == terms.len()
    &&& forall|i: int|
        0 <= i < terms.len() ==> {
            &&& (#[trigger] w.related_forms@[i])@.word_type == WordType::Adjective
            &&& w.related_forms@[i]@.text == terms[i]
            &&& w.related_forms@[i]@.tags == tags
            &&& w.related_forms@[i].related_forms@.len() == 0
        }
}

fn adjective_form_exec(token: &Vec<char>) -> (r: Option<Vec<char>>)
    ensures
        r matches Some(a) ==> adjective_form(token@) == Some(a@),
        r is None ==> adjective_form(token@) is None,
{
    let pat = chars_of("Adjective(");
    proof {
        reveal_strlit("Adjective(");
    }
    assert(pat@.len() == 10);
    match first_occurrence_exec(token, &pat) {
        Some(p) => {
            assert(occurs_at(token@, pat@, p as int));
            assert(p + 10 <= token.len());
            match last_char_from_exec(token, ')', p + 10) {
                Some(q) => {
                    proof {
                        lemma_last_char_from(token@, ')', p + 10);
                    }
                    Some(sub_chars(token, p + 10, q))
                },
                None => None,
            }
        },
        None => None,
    }
}

proof fn lemma_last_char_from(s: Seq<char>, c: char, from: int)
    ensures
        last_char_from(s, c, from) matches Some(q) ==> from <= q < s.len(),
    decreases s.len(),
{
    if s.len() > 0 && s.len() - 1 >= from && s.last() != c {
        lemma_last_char_from(s.drop_last(), c, from);
    }
}

/// The nouns of parsed data lines (see [`noun_built`]), read against the
/// known noun tags (see [`spec_build_noun_tags`]).
pub fn build_nouns(entries: &ParserOutput) -> (r: Vec<Word>)
    ensures
        r.len() == entries.len(),
        forall|i: int|
            0 <= i < r.len() ==> noun_built(
                #[trigger] r@[i],
                entries@[i].0@,
                str_views(entries@[i].1@),
                spec_build_noun_tags(),
            ),
{
    let noun_tags = build_noun_tags();
    let mut output: Vec<Word> = Vec::new();
    let mut i: usize = 0;
    while i < entries.len()
        invariant
            i <= entries.len(),
            output.len() == i,
            str_views(noun_tags@) == spec_build_noun_tags(),
            forall|q: int|
                0 <= q < i ==> noun_built(
                    #[trigger] output@[q],
                    entries@[q].0@,
                    str_views(entries@[q].1@),
                    spec_build_noun_tags(),
                ),
        decreases entries.len() - i,
    {
        let (subject, incoming) = &entries[i];
        let w = build_noun(subject, incoming, &noun_tags);
        let ghost prev = output@;
        output.push(w);
        proof {
            assert forall|q: int|
                0 <= q < i + 1 implies noun_built(
                    #[trigger] output@[q],
                    entries@[q].0@,
                    str_views(entries@[q].1@),
                    spec_build_noun_tags(),
                ) by {
                if q < i {
                    assert(output@[q] == prev[q]);
                }
            }
        }
        i = i + 1;
    }
    output
}

fn build_noun(subject: &String, incoming: &Vec<String>, noun_tags: &Vec<String>) -> (w: Word)
    ensures
        noun_built(w, subject@, str_views(incoming@), str_views(noun_tags@)),
{
    let mut tags: Vec<String> = Vec::new();
    let mut terms: Vec<String> = Vec::new();
    let adjective = chars_of("Adjective");
    let mut k: usize = 0;
    while k < incoming.len()
        invariant
            k <= incoming.len(),
            adjective@ == "Adjective"@,
            str_views(tags@) == noun_tags_read(str_views(incoming@).take(k as int), str_views(noun_tags@)),
            str_views(terms@) == adjective_terms(subject@, str_views(incoming@).take(k as int)),
        decreases incoming.len() - k,
    {
        assert(str_views(incoming@).take(k + 1).drop_last() =~= str_views(incoming@).take(k as int));
        let ghost t = incoming@[k as int]@;
        let ghost prev_tags = str_views(tags@);
        match string_match_noun_tag(incoming[k].as_str(), noun_tags) {
            Some(tag) => {
                tags.push(tag);
                assert(str_views(tags@) =~= prev_tags.push(noun_tag_match(t, str_views(noun_tags@)).unwrap()));
            },
            None => {},
        }
        let ghost prev_terms = str_views(terms@);
        let tok = chars_of(incoming[k].as_str());
        if eq_chars(&tok, &adjective) {
            terms.push(subject.clone());
        }
        let ghost mid = str_views(terms@);
        assert(mid =~= prev_terms + (if t == "Adjective"@ { seq![subject@] } else { Seq::empty() }));
        match adjective_form_exec(&tok) {
            Some(a) => {
                terms.push(string_of(&a));
                assert(str_views(terms@) =~= mid + seq![a@]);
            },
            None => {
                assert(str_views(terms@) =~= mid + Seq::<Seq<char>>::empty());
            },
        }
        k = k + 1;
    }
    assert(str_views(incoming@).take(incoming.len() as int) =~= str_views(incoming@));
    let mut forms: Vec<Word> = Vec::new();
    let mut j: usize = 0;
    while j < terms.len()
        invariant
            j <= terms.len(),
            forms.len() == j,
            forall|q: int|
                0 <= q < j ==> {
                    &&& (#[trigger] forms@[q])@.word_type == WordType::Adjective
                    &&& forms@[q]@.text == terms@[q]@
                    &&& forms@[q]@.tags == str_views(tags@)
                    &&& forms@[q].related_forms@.len() == 0
                },
        decreases terms.len() - j,
    {
        let ghost prev = forms@;
        forms.push(Word {
            id: new_id(),
            word_type: WordType::Adjective,
            text: terms[j].clone(),
            tags: copy_strings(&tags),
            related_forms: Vec::new(),
        });
        proof {
            assert forall|q: int| 0 <= q < j + 1 implies {
                &&& (#[trigger] forms@[q])@.word_type == WordType::Adjective
                &&& forms@[q]@.text == terms@[q]@
                &&& forms@[q]@.tags == str_views(tags@)
                &&& forms@[q].related_forms@.len() == 0
            } by {
                if q < j {
                    assert(forms@[q] == prev[q]);
                }
            }
        }
        j = j + 1;
    }
    Word { id: new_id(), word_type: WordType::Noun, text: subject.clone(), tags, related_forms: forms }
}

} // verus!
