//! Adjectives: the tags they may carry, and how tags in data files are read.
use crate::language::{Word, WordType};
use crate::parser::ParserOutput;
use crate::random::new_id;
use crate::text::{chars_of, eq_chars, str_views, string_of, trim, trim_chars};
use vstd::prelude::*;

verus! {

/// The tags an adjective may carry.
#[derive(PartialEq, Eq, Structural, Debug, Clone, Copy)]
pub enum AdjectiveTag {
    Age,
    Position,
    Quality,
    Colour,
    Size,
    Taste,
    Positive,
    Negative,
    HairColour,
    HairLength,
    HairState,
    CreatureHeight,
    CreatureBuild,
}

impl AdjectiveTag {
    /// The name of the value, as data files and templates spell it.
    pub open spec fn label(self) -> Seq<char> {
        match self {
            AdjectiveTag::Age => "Age"@,
            AdjectiveTag::Position => "Position"@,
            AdjectiveTag::Quality => "Quality"@,
            AdjectiveTag::Colour => "Colour"@,
            AdjectiveTag::Size => "Size"@,
            AdjectiveTag::Taste => "Taste"@,
            AdjectiveTag::Positive => "Positive"@,
            AdjectiveTag::Negative => "Negative"@,
            AdjectiveTag::HairColour => "HairColour"@,
            AdjectiveTag::HairLength => "HairLength"@,
            AdjectiveTag::HairState => "HairState"@,
            AdjectiveTag::CreatureHeight => "CreatureHeight"@,
            AdjectiveTag::CreatureBuild => "CreatureBuild"@,
        }
    }

    /// The name of the value, as data files and templates spell it.
    pub fn to_string(&self) -> (s: String)
        ensures
            s@ == self.label(),
    {
        match self {
            AdjectiveTag::Age => String::from_str("Age"),
            AdjectiveTag::Position => String::from_str("Position"),
            AdjectiveTag::Quality => String::from_str("Quality"),
            AdjectiveTag::Colour => String::from_str("Colour"),
            AdjectiveTag::Size => String::from_str("Size"),
            AdjectiveTag::Taste => String::from_str("Taste"),
            AdjectiveTag::Positive => String::from_str("Positive"),
            AdjectiveTag::Negative => String::from_str("Negative"),
            AdjectiveTag::HairColour => String::from_str("HairColour"),
            AdjectiveTag::HairLength => String::from_str("HairLength"),
            AdjectiveTag::HairState => String::from_str("HairState"),
            AdjectiveTag::CreatureHeight => String::from_str("CreatureHeight"),
            AdjectiveTag::CreatureBuild => String::from_str("CreatureBuild"),
        }
    }

    /// Every value, in declaration order.
    pub open spec fn all() -> Seq<AdjectiveTag> {
        seq![AdjectiveTag::Age, AdjectiveTag::Position, AdjectiveTag::Quality, AdjectiveTag::Colour, AdjectiveTag::Size, AdjectiveTag::Taste, AdjectiveTag::Positive, AdjectiveTag::Negative, AdjectiveTag::HairColour, AdjectiveTag::HairLength, AdjectiveTag::HairState, AdjectiveTag::CreatureHeight, AdjectiveTag::CreatureBuild]
    }

    /// The names of all values, in declaration order.
    pub open spec fn labels() -> Seq<Seq<char>> {
        Self::all().map_values(|t: AdjectiveTag| t.label())
    }

    /// Every value, in declaration order.
    pub fn iter() -> (v: Vec<AdjectiveTag>)
        ensures
            v@ == Self::all(),
    {
        let v = vec![AdjectiveTag::Age, AdjectiveTag::Position, AdjectiveTag::Quality, AdjectiveTag::Colour, AdjectiveTag::Size, AdjectiveTag::Taste, AdjectiveTag::Positive, AdjectiveTag::Negative, AdjectiveTag::HairColour, AdjectiveTag::HairLength, AdjectiveTag::HairState, AdjectiveTag::CreatureHeight, AdjectiveTag::CreatureBuild];
        assert(v@ =~= Self::all());
        v
    }
}

/// Reads an adjective tag of a data line: the trimmed token when it names an
/// adjective tag, otherwise nothing.
pub fn string_match_adjective_tag(token: &str) -> (r: Option<String>)
    ensures
        r matches Some(s) ==> s@ == trim(token@) && AdjectiveTag::labels().contains(s@),
        r is None ==> !AdjectiveTag::labels().contains(trim(token@)),
{
    let tok = chars_of(token);
    let trimmed = trim_chars(&tok);
    let tags = AdjectiveTag::iter();
    let mut i: usize = 0;
    while i < tags.len()
        invariant
            i <= tags.len(),
            tags@ == AdjectiveTag::all(),
            trimmed@ == trim(token@),
            forall|j: int| 0 <= j < i ==> AdjectiveTag::labels()[j] != trim(token@),
        decreases tags.len() - i,
    {
        let label = tags[i].to_string();
        let label_chars = chars_of(label.as_str());
        if eq_chars(&label_chars, &trimmed) {
            assert(AdjectiveTag::labels()[i as int] == trim(token@));
            return Some(label);
        }
        i = i + 1;
    }
    None
}

/// The adjective tags read from the tokens of a data line (see
/// [`string_match_adjective_tag`]), in order.
pub open spec fn adjective_tags_read(tokens: Seq<Seq<char>>) -> Seq<Seq<char>>
    decreases tokens.len(),
{
    if tokens.len() == 0 {
        Seq::empty()
    } else {
        let rest = adjective_tags_read(tokens.drop_last());
        if AdjectiveTag::labels().contains(trim(tokens.last())) {
            rest.push(trim(tokens.last()))
        } else {
            rest
        }
    }
}

/// The adjectives of parsed data lines: one for each entry, its subject as
/// text and the adjective tags read from its tokens, with no related forms.
pub fn build_adjectives(entries: &ParserOutput) -> (r: Vec<Word>)
    ensures
        r.len() == entries.len(),
        forall|i: int|
            0 <= i < r.len() ==> {
                &&& (#[trigger] r@[i])@.word_type == WordType::Adjective
                &&& r@[i]@.text == entries@[i].0@
                &&& r@[i]@.tags == adjective_tags_read(str_views(entries@[i].1@))
                &&& r@[i].related_forms@.len() == 0
            },
{
    let mut output: Vec<Word> = Vec::new();
    let mut i: usize = 0;
    while i < entries.len()
        invariant
            i <= entries.len(),
            output.len() == i,
            forall|q: int|
                0 <= q < i ==> {
                    &&& (#[trigger] output@[q])@.word_type == WordType::Adjective
                    &&& output@[q]@.text == entries@[q].0@
                    &&& output@[q]@.tags == adjective_tags_read(str_views(entries@[q].1@))
                    &&& output@[q].related_forms@.len() == 0
                },
        decreases entries.len() - i,
    {
        let (subject, incoming) = &entries[i];
        let mut tags: Vec<String> = Vec::new();
        let mut k: usize = 0;
        while k < incoming.len()
            invariant
                k <= incoming.len(),
                str_views(tags@) == adjective_tags_read(str_views(incoming@).take(k as int)),
            decreases incoming.len() - k,
        {
            assert(str_views(incoming@).take(k + 1).drop_last() =~= str_views(incoming@).take(k as int));
            let ghost prev = str_views(tags@);
            match string_match_adjective_tag(incoming[k].as_str()) {
                Some(t) => {
                    tags.push(t);
                    assert(str_views(tags@) =~= prev.push(trim(incoming@[k as int]@)));
                },
                None => {},
            }
            k = k + 1;
        }
        assert(str_views(incoming@).take(incoming.len() as int) =~= str_views(incoming@));
        let ghost prev_out = output@;
        output.push(Word {
            id: new_id(),
            word_type: WordType::Adjective,
            text: subject.clone(),
            tags,
            related_forms: Vec::new(),
        });
        proof {
            assert forall|q: int| 0 <= q < i + 1 implies {
                &&& (#[trigger] output@[q])@.word_type == WordType::Adjective
                &&& output@[q]@.text == entries@[q].0@
                &&& output@[q]@.tags == adjective_tags_read(str_views(entries@[q].1@))
                &&& output@[q].related_forms@.len() == 0
            } by {
                if q < i {
                    assert(output@[q] == prev_out[q]);
                }
            }
        }
        i = i + 1;
    }
    output
}

} // verus!
