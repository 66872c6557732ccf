//! Words: the dictionary of nouns and adjectives that names, places and
//! dishes are drawn from, and the filters that select among them.
pub mod adjectives;
pub mod nouns;

use crate::language::adjectives::{adjective_tags_read, build_adjectives};
use crate::language::nouns::{build_nouns, noun_built, spec_build_noun_tags};
use crate::parser::ParserOutput;
use crate::random::{below_drawn, lemma_below_drawn, random_below, Id};
use crate::text::{str_views};
use vstd::prelude::*;

verus! {

/// The period a city, and the words of its culture, belong to.
#[derive(PartialEq, Eq, Structural, Debug, Clone, Copy)]
pub enum Era {
    Modern,
    Future,
    Fantasy,
    Medieval,
}

impl Era {
    /// The name of the value, as data files and templates spell it.
    pub open spec fn label(self) -> Seq<char> {
        match self {
            Era::Modern => "Modern"@,
            Era::Future => "Future"@,
            Era::Fantasy => "Fantasy"@,
            Era::Medieval => "Medieval"@,
        }
    }

    /// The name of the value, as data files and templates spell it.
    pub fn to_string(&self) -> (s: String)
        ensures
            s@ == self.label(),
    {
        match self {
            Era::Modern => String::from_str("Modern"),
            Era::Future => String::from_str("Future"),
            Era::Fantasy => String::from_str("Fantasy"),
            Era::Medieval => String::from_str("Medieval"),
        }
    }

    /// Every value, in declaration order.
    pub open spec fn all() -> Seq<Era> {
        seq![Era::Modern, Era::Future, Era::Fantasy, Era::Medieval]
    }

    /// The names of all values, in declaration order.
    pub open spec fn labels() -> Seq<Seq<char>> {
        Self::all().map_values(|t: Era| t.label())
    }

    /// Every value, in declaration order.
    pub fn iter() -> (v: Vec<Era>)
        ensures
            v@ == Self::all(),
    {
        let v = vec![Era::Modern, Era::Future, Era::Fantasy, Era::Medieval];
        assert(v@ =~= Self::all());
        v
    }
}

impl Default for Era {
    fn default() -> (r: Self)
        ensures
            r == Era::Modern,
    {
        Era::Modern
    }
}

/// The part of speech of a word.
#[derive(PartialEq, Eq, Structural, Debug, Clone, Copy)]
pub enum WordType {
    Noun,
    Adjective,
    Verb,
}

impl WordType {
    /// The name of the value, as data files and templates spell it.
    pub open spec fn label(self) -> Seq<char> {
        match self {
            WordType::Noun => "Noun"@,
            WordType::Adjective => "Adjective"@,
            WordType::Verb => "Verb"@,
        }
    }

    /// The name of the value, as data files and templates spell it.
    pub fn to_string(&self) -> (s: String)
        ensures
            s@ == self.label(),
    {
        match self {
            WordType::Noun => String::from_str("Noun"),
            WordType::Adjective => String::from_str("Adjective"),
            WordType::Verb => String::from_str("Verb"),
        }
    }

    /// Every value, in declaration order.
    pub open spec fn all() -> Seq<WordType> {
        seq![WordType::Noun, WordType::Adjective, WordType::Verb]
    }

    /// The names of all values, in declaration order.
    pub open spec fn labels() -> Seq<Seq<char>> {
        Self::all().map_values(|t: WordType| t.label())
    }

    /// Every value, in declaration order.
    pub fn iter() -> (v: Vec<WordType>)
        ensures
            v@ == Self::all(),
    {
        let v = vec![WordType::Noun, WordType::Adjective, WordType::Verb];
        assert(v@ =~= Self::all());
        v
    }
}

/// A word of the dictionary, with the tags that classify it.
#[derive(Debug)]
pub struct Word {
    pub id: Id,
    pub word_type: WordType,
    pub related_forms: Vec<Word>,
    pub text: String,
    pub tags: Vec<String>,
}

/// What the filters read of a word.
pub struct WordView {
    pub id: Id,
    pub word_type: WordType,
    pub text: Seq<char>,
    pub tags: Seq<Seq<char>>,
}

impl View for Word {
    type V = WordView;

    open spec fn view(&self) -> WordView {
        WordView {
            id: self.id,
            word_type: self.word_type,
            text: self.text@,
            tags: str_views(self.tags@),
        }
    }
}

/// The views of a sequence of words.
pub open spec fn word_views(ws: Seq<Word>) -> Seq<WordView> {
    ws.map_values(|w: Word| w@)
}

/// A copy of a vector of strings.
pub fn copy_strings(v: &Vec<String>) -> (r: Vec<String>)
    ensures
        str_views(r@) == str_views(v@),
{
    let mut r: Vec<String> = Vec::new();
    let mut i: usize = 0;
    while i < v.len()
        invariant
            i <= v.len(),
            str_views(r@) == str_views(v@).take(i as int),
        decreases v.len() - i,
    {
        let ghost prev = str_views(r@);
        r.push(v[i].clone());
        assert(str_views(r@) =~= prev.push(str_views(v@)[i as int]));
        assert(str_views(v@).take(i + 1) =~= str_views(v@).take(i as int).push(str_views(v@)[i as int]));
        i = i + 1;
    }
    assert(str_views(v@).take(v.len() as int) =~= str_views(v@));
    r
}

/// Words `a` and `b` are alike all through: the same view, and related
/// forms alike one for one.
pub open spec fn words_alike(a: Word, b: Word) -> bool
    decreases a,
{
    &&& a@ == b@
    &&& a.related_forms@.len() == b.related_forms@.len()
    &&& forall|i: int|
        0 <= i < a.related_forms@.len() ==> {
            proof {
                assert(decreases_to!(a => a.related_forms));
                assert(decreases_to!(a.related_forms => a.related_forms@));
                assert(decreases_to!(a.related_forms@ => a.related_forms@[i]));
            }
            words_alike(#[trigger] a.related_forms@[i], b.related_forms@[i])
        }
}

impl Word {
    /// A copy of the word, related forms and all.
    pub fn copy(&self) -> (r: Word)
        ensures
            r@ == self@,
            words_alike(r, *self),
        decreases self,
    {
        let mut forms: Vec<Word> = Vec::new();
        let mut i: usize = 0;
        while i < self.related_forms.len()
            invariant
                i <= self.related_forms.len(),
                forms.len() == i,
                forall|q: int| 0 <= q < i ==> words_alike(#[trigger] forms@[q], self.related_forms@[q]),
            decreases self.related_forms.len() - i,
        {
            assert(decreases_to!(self => self.related_forms@[i as int])) by {
                assert(decreases_to!(self => self.related_forms));
                assert(decreases_to!(self.related_forms => self.related_forms@));
                assert(decreases_to!(self.related_forms@ => self.related_forms@[i as int]));
            }
            let ghost prev = forms@;
            forms.push(self.related_forms[i].copy());
            assert forall|q: int| 0 <= q < i + 1 implies words_alike(#[trigger] forms@[q], self.related_forms@[q]) by {
                if q < i {
                    assert(forms@[q] == prev[q]);
                }
            }
            i = i + 1;
        }
        Word {
            id: self.id,
            word_type: self.word_type,
            related_forms: forms,
            text: self.text.clone(),
            tags: copy_strings(&self.tags),
        }
    }
}

/// Whether `s` holds the string `t`.
pub fn contains_string(s: &Vec<String>, t: &String) -> (b: bool)
    ensures
        b == str_views(s@).contains(t@),
{
    let mut i: usize = 0;
    while i < s.len()
        invariant
            i <= s.len(),
            forall|j: int| 0 <= j < i ==> s@[j]@ != t@,
        decreases s.len() - i,
    {
        if s[i].eq(t) {
            assert(str_views(s@)[i as int] == t@);
            return true;
        }
        i = i + 1;
    }
    assert forall|j: int| 0 <= j < str_views(s@).len() implies str_views(s@)[j] != t@ by {}
    false
}

/// Every tag of `wanted` is among `tags`.
pub open spec fn has_all(tags: Seq<Seq<char>>, wanted: Seq<Seq<char>>) -> bool {
    forall|i: int| 0 <= i < wanted.len() ==> tags.contains(#[trigger] wanted[i])
}

/// Some tag of `wanted` is among `tags`.
pub open spec fn has_any(tags: Seq<Seq<char>>, wanted: Seq<Seq<char>>) -> bool {
    exists|i: int| 0 <= i < wanted.len() && tags.contains(#[trigger] wanted[i])
}

pub fn has_all_exec(tags: &Vec<String>, wanted: &Vec<String>) -> (b: bool)
    ensures
        b == has_all(str_views(tags@), str_views(wanted@)),
{
    let mut i: usize = 0;
    while i < wanted.len()
        invariant
            i <= wanted.len(),
            forall|j: int| 0 <= j < i ==> str_views(tags@).contains(#[trigger] str_views(wanted@)[j]),
        decreases wanted.len() - i,
    {
        if !contains_string(tags, &wanted[i]) {
            assert(!str_views(tags@).contains(str_views(wanted@)[i as int]));
            return false;
        }
        i = i + 1;
    }
    true
}

pub fn has_any_exec(tags: &Vec<String>, wanted: &Vec<String>) -> (b: bool)
    ensures
        b == has_any(str_views(tags@), str_views(wanted@)),
{
    let mut i: usize = 0;
    while i < wanted.len()
        invariant
            i <= wanted.len(),
            forall|j: int| 0 <= j < i ==> !str_views(tags@).contains(#[trigger] str_views(wanted@)[j]),
        decreases wanted.len() - i,
    {
        if contains_string(tags, &wanted[i]) {
            assert(str_views(tags@).contains(str_views(wanted@)[i as int]));
            return true;
        }
        i = i + 1;
    }
    false
}

/// The words of type `word_type` that carry every tag of `tags`.
pub open spec fn tag_and_filter(
    words: Seq<WordView>,
    word_type: WordType,
    tags: Seq<Seq<char>>,
) -> Seq<WordView> {
    words.filter(|w: WordView| w.word_type == word_type && has_all(w.tags, tags))
}

/// The words of type `word_type` that carry some tag of `tags`.
pub open spec fn tag_or_filter(
    words: Seq<WordView>,
    word_type: WordType,
    tags: Seq<Seq<char>>,
) -> Seq<WordView> {
    words.filter(|w: WordView| w.word_type == word_type && has_any(w.tags, tags))
}

/// The words of type `word_type` that carry every tag of `tags`, in order.
pub fn filter_words_by_tag_and(words: &Vec<Word>, word_type: WordType, tags: Vec<String>) -> (r:
    Vec<Word>)
    ensures
        word_views(r@) == tag_and_filter(word_views(words@), word_type, str_views(tags@)),
{
    let ghost pred = |w: WordView| w.word_type == word_type && has_all(w.tags, str_views(tags@));
    let mut output: Vec<Word> = Vec::new();
    let mut i: usize = 0;
    while i < words.len()
        invariant
            i <= words.len(),
            pred == (|w: WordView| w.word_type == word_type && has_all(w.tags, str_views(tags@))),
            word_views(output@) == word_views(words@).take(i as int).filter(pred),
        decreases words.len() - i,
    {
        assert(word_views(words@).take(i + 1).drop_last() =~= word_views(words@).take(i as int));
        reveal_with_fuel(Seq::filter, 1);
        if words[i].word_type == word_type && has_all_exec(&words[i].tags, &tags) {
            output.push(words[i].copy());
        }
        i = i + 1;
        assert(word_views(output@) =~= word_views(words@).take(i as int).filter(pred));
    }
    assert(word_views(words@).take(words.len() as int) =~= word_views(words@));
    output
}

/// The words of type `word_type` that carry some tag of `tags`, in order.
pub fn filter_words_by_tag_or(words: Vec<&Word>, word_type: WordType, tags: Vec<String>) -> (r:
    Vec<Word>)
    ensures
        word_views(r@) == tag_or_filter(
            words@.map_values(|w: &Word| w@),
            word_type,
            str_views(tags@),
        ),
{
    let ghost vs = words@.map_values(|w: &Word| w@);
    let ghost pred = |w: WordView| w.word_type == word_type && has_any(w.tags, str_views(tags@));
    let mut output: Vec<Word> = Vec::new();
    let mut i: usize = 0;
    while i < words.len()
        invariant
            i <= words.len(),
            vs == words@.map_values(|w: &Word| w@),
            pred == (|w: WordView| w.word_type == word_type && has_any(w.tags, str_views(tags@))),
            word_views(output@) == vs.take(i as int).filter(pred),
        decreases words.len() - i,
    {
        assert(vs.take(i + 1).drop_last() =~= vs.take(i as int));
        reveal_with_fuel(Seq::filter, 1);
        if words[i].word_type == word_type && has_any_exec(&words[i].tags, &tags) {
            output.push(words[i].copy());
        }
        i = i + 1;
        assert(word_views(output@) =~= vs.take(i as int).filter(pred));
    }
    assert(vs.take(words.len() as int) =~= vs);
    output
}

/// Some word of `options`, drawn at random, or `None` when there is none.
pub fn pick_word(options: &Vec<Word>) -> (r: Option<Word>)
    ensures
        r is None <==> options@.len() == 0,
        r matches Some(w) ==> word_views(options@).contains(w@),
        r matches Some(w) ==> exists|i: int|
            0 <= i < options.len() && #[trigger] below_drawn(options.len(), i as usize) && w@ == options@[i]@,
{
    if options.len() == 0 {
        None
    } else {
        let i = random_below(options.len());
        proof {
            lemma_below_drawn(options.len(), i);
        assert(below_drawn(options.len(), (i as int) as usize));
        }
        let w = options[i].copy();
        assert(word_views(options@)[i as int] == w@);
        Some(w)
    }
}

/// A word of type `word_type` carrying every tag of `tags`, drawn at random;
/// `None` when there is no such word.
pub fn random_word_by_tag_and(words: &Vec<Word>, word_type: WordType, tags: Vec<String>) -> (r:
    Option<Word>)
    ensures
        r is None <==> tag_and_filter(word_views(words@), word_type, str_views(tags@)).len() == 0,
        r matches Some(w) ==> tag_and_filter(word_views(words@), word_type, str_views(tags@)).contains(w@),
{
    let output = filter_words_by_tag_and(words, word_type, tags);
    pick_word(&output)
}

/// The names of all eras.
pub open spec fn era_labels() -> Seq<Seq<char>> {
    Era::labels()
}

/// Whether `w` may be drawn by [`random_word_by_tag`]: a word of the type
/// asked for that has every tag of `all_of` (or `all_of` is empty), some tag
/// of `one_of` (or `one_of` is empty), not every tag of `none_of` (or
/// `none_of` is empty), and, when an era is asked for, either that era's tag
/// or no era tag at all.
pub open spec fn word_selected(
    w: WordView,
    word_type: WordType,
    all_of: Seq<Seq<char>>,
    one_of: Seq<Seq<char>>,
    none_of: Seq<Seq<char>>,
    era: Option<Era>,
) -> bool {
    &&& w.word_type == word_type
    &&& has_all(w.tags, all_of) || all_of.len() == 0
    &&& has_any(w.tags, one_of) || one_of.len() == 0
    &&& !has_all(w.tags, none_of) || none_of.len() == 0
    &&& match era {
        None => true,
        Some(e) => w.tags.contains(e.label()) || !has_any(w.tags, era_labels()),
    }
}

/// The words [`random_word_by_tag`] draws from, in order.
pub open spec fn tag_selection(
    words: Seq<WordView>,
    word_type: WordType,
    all_of: Seq<Seq<char>>,
    one_of: Seq<Seq<char>>,
    none_of: Seq<Seq<char>>,
    era: Option<Era>,
) -> Seq<WordView> {
    words.filter(|w: WordView| word_selected(w, word_type, all_of, one_of, none_of, era))
}

fn era_strings() -> (v: Vec<String>)
    ensures
        str_views(v@) == era_labels(),
{
    let eras = Era::iter();
    let mut v: Vec<String> = Vec::new();
    let mut i: usize = 0;
    while i < eras.len()
        invariant
            eras@ == Era::all(),
            i <= eras.len(),
            str_views(v@) == Era::labels().take(i as int),
        decreases eras.len() - i,
    {
        let ghost prev = str_views(v@);
        v.push(eras[i].to_string());
        assert(str_views(v@) =~= prev.push(Era::labels()[i as int]));
        assert(Era::labels().take(i + 1) =~= Era::labels().take(i as int).push(Era::labels()[i as int]));
        i = i + 1;
    }
    assert(Era::labels().take(eras.len() as int) =~= Era::labels());
    v
}

fn word_selected_exec(
    w: &Word,
    word_type: WordType,
    all_of: &Vec<String>,
    one_of: &Vec<String>,
    none_of: &Vec<String>,
    era: &Option<Era>,
    possible_eras: &Vec<String>,
) -> (b: bool)
    requires
        str_views(possible_eras@) == era_labels(),
    ensures
        b == word_selected(
            w@,
            word_type,
            str_views(all_of@),
            str_views(one_of@),
            str_views(none_of@),
            *era,
        ),
{
    if w.word_type != word_type {
        return false;
    }
    if !(all_of.len() == 0 || has_all_exec(&w.tags, all_of)) {
        return false;
    }
    if !(one_of.len() == 0 || has_any_exec(&w.tags, one_of)) {
        return false;
    }
    if !(none_of.len() == 0 || !has_all_exec(&w.tags, none_of)) {
        return false;
    }
    match era {
        None => true,
        Some(e) => {
            let label = e.to_string();
            contains_string(&w.tags, &label) || !has_any_exec(&w.tags, possible_eras)
        },
    }
}

/// The words [`word_selected`] admits, in order.
pub(crate) fn words_by_tag(
    words: &Vec<Word>,
    word_type: WordType,
    all_of: &Vec<String>,
    one_of: &Vec<String>,
    none_of: &Vec<String>,
    era: &Option<Era>,
) -> (r: Vec<Word>)
    ensures
        word_views(r@) == tag_selection(
            word_views(words@),
            word_type,
            str_views(all_of@),
            str_views(one_of@),
            str_views(none_of@),
            *era,
        ),
{
    let ghost pred = |w: WordView|
        word_selected(w, word_type, str_views(all_of@), str_views(one_of@), str_views(none_of@), *era);
    let possible_eras = era_strings();
    let mut output: Vec<Word> = Vec::new();
    let mut i: usize = 0;
    while i < words.len()
        invariant
            i <= words.len(),
            str_views(possible_eras@) == era_labels(),
            pred == (|w: WordView|
                word_selected(
                    w,
                    word_type,
                    str_views(all_of@),
                    str_views(one_of@),
                    str_views(none_of@),
                    *era,
                )),
            word_views(output@) == word_views(words@).take(i as int).filter(pred),
        decreases words.len() - i,
    {
        assert(word_views(words@).take(i + 1).drop_last() =~= word_views(words@).take(i as int));
        reveal_with_fuel(Seq::filter, 1);
        if word_selected_exec(&words[i], word_type, all_of, one_of, none_of, era, &possible_eras) {
            output.push(words[i].copy());
        }
        i = i + 1;
        assert(word_views(output@) =~= word_views(words@).take(i as int).filter(pred));
    }
    assert(word_views(words@).take(words.len() as int) =~= word_views(words@));
    output
}


/// A word drawn at random among those [`word_selected`] admits; `None` when
/// there is no such word.
pub fn random_word_by_tag(
    words: &Vec<Word>,
    word_type: WordType,
    all_of: &Vec<String>,
    one_of: &Vec<String>,
    none_of: &Vec<String>,
    era: &Option<Era>,
) -> (r: Option<Word>)
    ensures
        r is None <==> tag_selection(
            word_views(words@),
            word_type,
            str_views(all_of@),
            str_views(one_of@),
            str_views(none_of@),
            *era,
        ).len() == 0,
        r matches Some(w) ==> tag_selection(
            word_views(words@),
            word_type,
            str_views(all_of@),
            str_views(one_of@),
            str_views(none_of@),
            *era,
        ).contains(w@),
{
    let output = words_by_tag(words, word_type, all_of, one_of, none_of, era);
    pick_word(&output)
}

/// Whether some word is one [`random_word_by_tag`] may draw.
pub fn has_word_by_tag(
    words: &Vec<Word>,
    word_type: WordType,
    all_of: &Vec<String>,
    one_of: &Vec<String>,
    none_of: &Vec<String>,
    era: &Option<Era>,
) -> (b: bool)
    ensures
        b == (tag_selection(
            word_views(words@),
            word_type,
            str_views(all_of@),
            str_views(one_of@),
            str_views(none_of@),
            *era,
        ).len() > 0),
{
    words_by_tag(words, word_type, all_of, one_of, none_of, era).len() > 0
}

/// The dictionary of parsed data lines: the nouns (see [`build_nouns`]),
/// then the adjectives (see [`build_adjectives`]).
pub fn build_dictionary(noun_entries: &ParserOutput, adjective_entries: &ParserOutput) -> (r: Vec<Word>)
    ensures
        r.len() == noun_entries.len() + adjective_entries.len(),
        forall|i: int|
            0 <= i < noun_entries.len() ==> noun_built(
                #[trigger] r@[i],
                noun_entries@[i].0@,
                str_views(noun_entries@[i].1@),
                spec_build_noun_tags(),
            ),
        forall|i: int|
            noun_entries.len() <= i < r.len() ==> {
                let e = adjective_entries@[i - noun_entries.len()];
                &&& (#[trigger] r@[i])@.word_type == WordType::Adjective
                &&& r@[i]@.text == e.0@
                &&& r@[i]@.tags == adjective_tags_read(str_views(e.1@))
                &&& r@[i].related_forms@.len() == 0
            },
{
    let mut out = build_nouns(noun_entries);
    let mut adjectives = build_adjectives(adjective_entries);
    let ghost n = out@;
    let ghost a = adjectives@;
    out.append(&mut adjectives);
    assert(out@ =~= n + a);
    proof {
        assert forall|i: int| 0 <= i < noun_entries.len() implies noun_built(
            #[trigger] out@[i],
            noun_entries@[i].0@,
            str_views(noun_entries@[i].1@),
            spec_build_noun_tags(),
        ) by {
            assert(out@[i] == n[i]);
        }
        assert forall|i: int| noun_entries.len() <= i < out.len() implies {
            let e = adjective_entries@[i - noun_entries.len()];
            &&& (#[trigger] out@[i])@.word_type == WordType::Adjective
            &&& out@[i]@.text == e.0@
            &&& out@[i]@.tags == adjective_tags_read(str_views(e.1@))
            &&& out@[i].related_forms@.len() == 0
        } by {
            assert(out@[i] == a[i - noun_entries.len()]);
        }
    }
    out
}

} // verus!
