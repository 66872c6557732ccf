//! The culture of a city: its era, famous figures, staple foods, building
//! habits, lifespans and the ways couples and children are named.
use crate::language::nouns::creatures::{CreatureCategory, CreatureFamily};
use crate::language::nouns::plants::PlantType;
use crate::language::nouns::NounTag;
use crate::language::{has_word_by_tag, random_word_by_tag, tag_selection, word_views, words_alike, Era, Word, WordType, WordView};
use crate::random::{new_id, random_below, shuffle};
use crate::text::str_views;
use crate::random::Id;
use vstd::prelude::*;

verus! {

/// A naming format for a couple and their children: the man's and the
/// woman's family names after marriage, then a son's and a daughter's.
pub type NamingFormat = (String, String, String, String);

/// The views of a naming format.
pub open spec fn format_view(f: NamingFormat) -> (Seq<char>, Seq<char>, Seq<char>, Seq<char>) {
    (f.0@, f.1@, f.2@, f.3@)
}

/// The views of naming formats.
pub open spec fn format_views(v: Seq<NamingFormat>) -> Seq<
    (Seq<char>, Seq<char>, Seq<char>, Seq<char>),
> {
    v.map_values(|f: NamingFormat| format_view(f))
}

/// How a city lives.
pub struct CultureConfig {
    pub era: Option<Era>,
    pub historical_figures: Vec<(String, String)>,
    pub landlocked: bool,
    pub staple_meats: Vec<Word>,
    pub staple_plants: Vec<Word>,
    pub adult_age: u32,
    pub species_avg_lifespan: u32,
    pub species_avg_lifespan_variance: u32,
    pub parental_naming_formats: Vec<NamingFormat>,
    pub avg_building_footprint: i32,
    pub avg_building_floors: i32,
}

/// The naming formats a culture may take its own from: both keep the man's
/// name; both keep the woman's; each keeps their own; both join the man's
/// and the woman's; and two patronymic forms (`sson`/`dotter`,
/// `sen`/`datter`) in which each keeps their own name.
pub open spec fn naming_lists_spec() -> Seq<(Seq<char>, Seq<char>, Seq<char>, Seq<char>)> {
    seq![
        ("{{ML}}"@, "{{ML}}"@, "{{ML}}"@, "{{ML}}"@),
        ("{{FL}}"@, "{{FL}}"@, "{{FL}}"@, "{{FL}}"@),
        ("{{ML}}"@, "{{FL}}"@, "{{ML}}"@, "{{FL}}"@),
        ("{{ML}}-{{FL}}"@, "{{ML}}-{{FL}}"@, "{{ML}}-{{FL}}"@, "{{ML}}-{{FL}}"@),
        ("{{ML}}"@, "{{FL}}"@, "{{MF}}sson"@, "{{MF}}dotter"@),
        ("{{ML}}"@, "{{FL}}"@, "{{MF}}sen"@, "{{MF}}datter"@),
    ]
}

fn naming_format(a: &str, b: &str, c: &str, d: &str) -> (r: NamingFormat)
    ensures
        format_view(r) == (a@, b@, c@, d@),
{
    (String::from_str(a), String::from_str(b), String::from_str(c), String::from_str(d))
}

/// The naming formats a culture may take its own from (see
/// [`naming_lists_spec`]).
pub fn paternal_naming_lists() -> (r: Vec<NamingFormat>)
    ensures
        format_views(r@) == naming_lists_spec(),
{
    let r = vec![
        naming_format("{{ML}}", "{{ML}}", "{{ML}}", "{{ML}}"),
        naming_format("{{FL}}", "{{FL}}", "{{FL}}", "{{FL}}"),
        naming_format("{{ML}}", "{{FL}}", "{{ML}}", "{{FL}}"),
        naming_format("{{ML}}-{{FL}}", "{{ML}}-{{FL}}", "{{ML}}-{{FL}}", "{{ML}}-{{FL}}"),
        naming_format("{{ML}}", "{{FL}}", "{{MF}}sson", "{{MF}}dotter"),
        naming_format("{{ML}}", "{{FL}}", "{{MF}}sen", "{{MF}}datter"),
    ];
    assert(format_views(r@) =~= naming_lists_spec());
    r
}

fn copy_words(v: &Vec<Word>) -> (r: Vec<Word>)
    ensures
        word_views(r@) == word_views(v@),
{
    let mut out: Vec<Word> = Vec::new();
    let mut i: usize = 0;
    while i < v.len()
        invariant
            i <= v.len(),
            word_views(out@) == word_views(v@).take(i as int),
        decreases v.len() - i,
    {
        let ghost prev = word_views(out@);
        out.push(v[i].copy());
        assert(word_views(out@) =~= prev.push(v@[i as int]@));
        assert(word_views(v@).take(i + 1) =~= word_views(v@).take(i as int).push(v@[i as int]@));
        i = i + 1;
    }
    assert(word_views(v@).take(v.len() as int) =~= word_views(v@));
    out
}

impl CultureConfig {
    /// A copy of the settings.
    pub fn copy(&self) -> (r: CultureConfig)
        ensures
            r.era == self.era,
            r.landlocked == self.landlocked,
            r.adult_age == self.adult_age,
            r.species_avg_lifespan == self.species_avg_lifespan,
            r.species_avg_lifespan_variance == self.species_avg_lifespan_variance,
            r.avg_building_footprint == self.avg_building_footprint,
            r.avg_building_floors == self.avg_building_floors,
            r.historical_figures@ == self.historical_figures@,
            r.parental_naming_formats@ == self.parental_naming_formats@,
            word_views(r.staple_meats@) == word_views(self.staple_meats@),
            word_views(r.staple_plants@) == word_views(self.staple_plants@),
    {
        let mut figures: Vec<(String, String)> = Vec::new();
        let mut i: usize = 0;
        while i < self.historical_figures.len()
            invariant
                i <= self.historical_figures.len(),
                figures@ == self.historical_figures@.take(i as int),
            decreases self.historical_figures.len() - i,
        {
            let f = &self.historical_figures[i];
            figures.push((f.0.clone(), f.1.clone()));
            i = i + 1;
            assert(figures@ =~= self.historical_figures@.take(i as int));
        }
        assert(self.historical_figures@.take(self.historical_figures.len() as int) =~= self.historical_figures@);
        let mut formats: Vec<NamingFormat> = Vec::new();
        let mut j: usize = 0;
        while j < self.parental_naming_formats.len()
            invariant
                j <= self.parental_naming_formats.len(),
                formats@ == self.parental_naming_formats@.take(j as int),
            decreases self.parental_naming_formats.len() - j,
        {
            let f = &self.parental_naming_formats[j];
            formats.push((f.0.clone(), f.1.clone(), f.2.clone(), f.3.clone()));
            j = j + 1;
            assert(formats@ =~= self.parental_naming_formats@.take(j as int));
        }
        assert(self.parental_naming_formats@.take(self.parental_naming_formats.len() as int)
            =~= self.parental_naming_formats@);
        CultureConfig {
            era: self.era,
            historical_figures: figures,
            landlocked: self.landlocked,
            staple_meats: copy_words(&self.staple_meats),
            staple_plants: copy_words(&self.staple_plants),
            adult_age: self.adult_age,
            species_avg_lifespan: self.species_avg_lifespan,
            species_avg_lifespan_variance: self.species_avg_lifespan_variance,
            parental_naming_formats: formats,
            avg_building_footprint: self.avg_building_footprint,
            avg_building_floors: self.avg_building_floors,
        }
    }
}

/// `s` is the text of a word [`random_word_by_tag`] may draw with these
/// tags.
pub open spec fn drawn_text(
    dict: Seq<WordView>,
    all_of: Seq<Seq<char>>,
    one_of: Seq<Seq<char>>,
    none_of: Seq<Seq<char>>,
    era: Option<Era>,
    s: Seq<char>,
) -> bool {
    exists|i: int|
        0 <= i < tag_selection(dict, WordType::Noun, all_of, one_of, none_of, era).len() && (#[trigger] tag_selection(
            dict,
            WordType::Noun,
            all_of,
            one_of,
            none_of,
            era,
        )[i]).text == s
}

/// The tags of the animals a culture may eat: those that every staple meat
/// carries, those of which it carries one (mammals, and fish unless the city
/// is landlocked), and those it does not carry all of.
pub open spec fn animal_tags(landlocked: bool) -> (Seq<Seq<char>>, Seq<Seq<char>>, Seq<Seq<char>>) {
    (
        seq![CreatureCategory::CreatureAnimal.label()],
        if landlocked {
            seq![CreatureFamily::CreatureFamilyMammal.label()]
        } else {
            seq![CreatureFamily::CreatureFamilyMammal.label(), CreatureFamily::CreatureFamilyFish.label()]
        },
        seq![
            CreatureCategory::CreatureMagical.label(),
            CreatureCategory::CreatureSentient.label(),
            Era::Fantasy.label(),
        ],
    )
}

/// The dictionary can make a culture of the era: it has titles, last
/// names, animals for either kind of city, and crops.
pub open spec fn culture_ready(dict: Seq<WordView>, era: Option<Era>) -> bool {
    &&& tag_selection(dict, WordType::Noun, seq![NounTag::Title.label()], seq![], seq![], era).len() > 0
    &&& tag_selection(dict, WordType::Noun, seq![NounTag::LastName.label()], seq![], seq![], era).len() > 0
    &&& tag_selection(dict, WordType::Noun, animal_tags(true).0, animal_tags(true).1, animal_tags(true).2, era).len()
        > 0
    &&& tag_selection(dict, WordType::Noun, animal_tags(false).0, animal_tags(false).1, animal_tags(false).2, era).len()
        > 0
    &&& tag_selection(dict, WordType::Noun, seq![PlantType::PlantTypeCrop.label()], seq![], seq![], era).len() > 0
}

fn one_string(s: String) -> (v: Vec<String>)
    ensures
        str_views(v@) == seq![s@],
{
    let v = vec![s];
    assert(str_views(v@) =~= seq![s@]);
    v
}

fn no_strings() -> (v: Vec<String>)
    ensures
        str_views(v@) == Seq::<Seq<char>>::empty(),
{
    let v: Vec<String> = Vec::new();
    assert(str_views(v@) =~= Seq::<Seq<char>>::empty());
    v
}

/// The famous figures of a culture: from 3 to 7 of them, each a title and
/// a last name drawn from the dictionary.
fn gen_historical_figures(dict: &Vec<Word>, era: &Option<Era>) -> (r: Vec<(String, String)>)
    requires
        culture_ready(word_views(dict@), *era),
    ensures
        3 <= r.len() <= 7,
        forall|i: int|
            0 <= i < r.len() ==> drawn_text(
                word_views(dict@),
                seq![NounTag::Title.label()],
                seq![],
                seq![],
                *era,
                (#[trigger] r@[i]).0@,
            ) && drawn_text(word_views(dict@), seq![NounTag::LastName.label()], seq![], seq![], *era, r@[i].1@),
{
    let drawn = random_below(8);
    let count: usize = if drawn < 3 { 3 } else { drawn };
    let title = one_string(NounTag::Title.to_string());
    let last = one_string(NounTag::LastName.to_string());
    let none = no_strings();
    let mut output: Vec<(String, String)> = Vec::new();
    let mut k: usize = 0;
    while k < count
        invariant
            k <= count <= 7,
            output.len() == k,
            culture_ready(word_views(dict@), *era),
            str_views(title@) == seq![NounTag::Title.label()],
            str_views(last@) == seq![NounTag::LastName.label()],
            str_views(none@) == Seq::<Seq<char>>::empty(),
            forall|i: int|
                0 <= i < k ==> drawn_text(
                    word_views(dict@),
                    seq![NounTag::Title.label()],
                    seq![],
                    seq![],
                    *era,
                    (#[trigger] output@[i]).0@,
                ) && drawn_text(
                    word_views(dict@),
                    seq![NounTag::LastName.label()],
                    seq![],
                    seq![],
                    *era,
                    output@[i].1@,
                ),
        decreases count - k,
    {
        let t = random_word_by_tag(dict, WordType::Noun, &title, &none, &none, era).unwrap();
        let n = random_word_by_tag(dict, WordType::Noun, &last, &none, &none, era).unwrap();
        proof {
            let st = tag_selection(word_views(dict@), WordType::Noun, seq![NounTag::Title.label()], seq![], seq![], *era);
            let sn = tag_selection(word_views(dict@), WordType::Noun, seq![NounTag::LastName.label()], seq![], seq![], *era);
            let a = choose|a: int| 0 <= a < st.len() && st[a] == t@;
            let b = choose|b: int| 0 <= b < sn.len() && sn[b] == n@;
            assert(st[a].text == t.text@);
            assert(sn[b].text == n.text@);
        }
        let ghost prev = output@;
        output.push((t.text, n.text));
        proof {
            assert forall|i: int|
                0 <= i < k + 1 implies drawn_text(
                    word_views(dict@),
                    seq![NounTag::Title.label()],
                    seq![],
                    seq![],
                    *era,
                    (#[trigger] output@[i]).0@,
                ) && drawn_text(
                    word_views(dict@),
                    seq![NounTag::LastName.label()],
                    seq![],
                    seq![],
                    *era,
                    output@[i].1@,
                ) by {
                if i < k {
                    assert(output@[i] == prev[i]);
                }
            }
        }
        k = k + 1;
    }
    output
}

/// Draws `count` words with the tags, each a word [`random_word_by_tag`] may
/// draw.
fn draw_words(
    dict: &Vec<Word>,
    all_of: &Vec<String>,
    one_of: &Vec<String>,
    none_of: &Vec<String>,
    era: &Option<Era>,
    count: usize,
) -> (r: Vec<Word>)
    requires
        tag_selection(
            word_views(dict@),
            WordType::Noun,
            str_views(all_of@),
            str_views(one_of@),
            str_views(none_of@),
            *era,
        ).len() > 0,
    ensures
        r.len() == count,
        forall|i: int|
            0 <= i < r.len() ==> tag_selection(
                word_views(dict@),
                WordType::Noun,
                str_views(all_of@),
                str_views(one_of@),
                str_views(none_of@),
                *era,
            ).contains(#[trigger] word_views(r@)[i]),
{
    let ghost sel = tag_selection(
        word_views(dict@),
        WordType::Noun,
        str_views(all_of@),
        str_views(one_of@),
        str_views(none_of@),
        *era,
    );
    let mut output: Vec<Word> = Vec::new();
    let mut k: usize = 0;
    while k < count
        invariant
            k <= count,
            output.len() == k,
            sel.len() > 0,
            sel == tag_selection(
                word_views(dict@),
                WordType::Noun,
                str_views(all_of@),
                str_views(one_of@),
                str_views(none_of@),
                *era,
            ),
            forall|i: int| 0 <= i < k ==> sel.contains(#[trigger] word_views(output@)[i]),
        decreases count - k,
    {
        let w = random_word_by_tag(dict, WordType::Noun, all_of, one_of, none_of, era).unwrap();
        let ghost prev = word_views(output@);
        output.push(w);
        proof {
            assert(word_views(output@) =~= prev.push(w@));
            assert forall|i: int| 0 <= i < k + 1 implies sel.contains(#[trigger] word_views(output@)[i]) by {
                if i < k {
                    assert(word_views(output@)[i] == prev[i]);
                }
            }
        }
        k = k + 1;
    }
    output
}

/// The staple meats of a culture: from 2 to 4 animals (see [`animal_tags`]).
fn random_animals(dict: &Vec<Word>, landlocked: bool, era: &Option<Era>) -> (r: Vec<Word>)
    requires
        culture_ready(word_views(dict@), *era),
    ensures
        2 <= r.len() <= 4,
        forall|i: int|
            0 <= i < r.len() ==> tag_selection(
                word_views(dict@),
                WordType::Noun,
                animal_tags(landlocked).0,
                animal_tags(landlocked).1,
                animal_tags(landlocked).2,
                *era,
            ).contains(#[trigger] word_views(r@)[i]),
{
    let drawn = random_below(5);
    let count: usize = if drawn < 2 { 2 } else { drawn };
    let (all_of, one_of, none_of) = animal_tag_lists(landlocked);
    draw_words(dict, &all_of, &one_of, &none_of, era, count)
}

fn animal_tag_lists(landlocked: bool) -> (r: (Vec<String>, Vec<String>, Vec<String>))
    ensures
        (str_views(r.0@), str_views(r.1@), str_views(r.2@)) == animal_tags(landlocked),
{
    let all_of = one_string(CreatureCategory::CreatureAnimal.to_string());
    let mut one_of = one_string(CreatureFamily::CreatureFamilyMammal.to_string());
    if !landlocked {
        let ghost prev = str_views(one_of@);
        one_of.push(CreatureFamily::CreatureFamilyFish.to_string());
        assert(str_views(one_of@) =~= prev.push(CreatureFamily::CreatureFamilyFish.label()));
    }
    let none_of = vec![
        CreatureCategory::CreatureMagical.to_string(),
        CreatureCategory::CreatureSentient.to_string(),
        Era::Fantasy.to_string(),
    ];
    assert(str_views(none_of@) =~= animal_tags(landlocked).2);
    assert(str_views(one_of@) =~= animal_tags(landlocked).1);
    (all_of, one_of, none_of)
}

fn has_noun_tagged(dict: &Vec<Word>, tag: String, era: &Option<Era>) -> (b: bool)
    ensures
        b == (tag_selection(word_views(dict@), WordType::Noun, seq![tag@], seq![], seq![], *era).len() > 0),
{
    let all_of = one_string(tag);
    let none = no_strings();
    has_word_by_tag(dict, WordType::Noun, &all_of, &none, &none, era)
}

/// Whether the dictionary holds every kind of word a culture is drawn from
/// (see [`culture_ready`]).
pub fn culture_ready_exec(dict: &Vec<Word>, era: &Option<Era>) -> (b: bool)
    ensures
        b == culture_ready(word_views(dict@), *era),
{
    let (a1, o1, n1) = animal_tag_lists(true);
    let (a2, o2, n2) = animal_tag_lists(false);
    has_noun_tagged(dict, NounTag::Title.to_string(), era) && has_noun_tagged(dict, NounTag::LastName.to_string(), era)
        && has_word_by_tag(dict, WordType::Noun, &a1, &o1, &n1, era) && has_word_by_tag(
        dict,
        WordType::Noun,
        &a2,
        &o2,
        &n2,
        era,
    ) && has_noun_tagged(dict, PlantType::PlantTypeCrop.to_string(), era)
}

/// The staple crops of a culture: from 3 to 6 crops.
fn random_crops(dict: &Vec<Word>, era: &Option<Era>) -> (r: Vec<Word>)
    requires
        culture_ready(word_views(dict@), *era),
    ensures
        3 <= r.len() <= 6,
        forall|i: int|
            0 <= i < r.len() ==> tag_selection(
                word_views(dict@),
                WordType::Noun,
                seq![PlantType::PlantTypeCrop.label()],
                seq![],
                seq![],
                *era,
            ).contains(#[trigger] word_views(r@)[i]),
{
    let drawn = random_below(7);
    let count: usize = if drawn < 3 { 3 } else { drawn };
    let all_of = one_string(PlantType::PlantTypeCrop.to_string());
    let none = no_strings();
    draw_words(dict, &all_of, &none, &none, era, count)
}

/// The building settings of an era: a footprint of 36 and 15 floors in
/// the future, 6 and 2 in fantasy and medieval times, else 12 and 6.
pub open spec fn era_buildings(era: Option<Era>) -> (i32, i32) {
    match era {
        Some(Era::Future) => (36, 15),
        Some(Era::Fantasy) => (6, 2),
        Some(Era::Medieval) => (6, 2),
        _ => (12, 6),
    }
}

/// A culture as [`random_culture`] makes one: of the era, with famous
/// figures, staple meats and crops drawn from the dictionary, coastal or
/// landlocked, adults from 18, lives of 70 years give or take 5, one or two
/// distinct naming formats of those known (see [`naming_lists_spec`]), and
/// the era's building settings.
pub open spec fn culture_made(c: CultureConfig, dict: Seq<WordView>, era: Option<Era>) -> bool {
    &&& c.era == era
    &&& 3 <= c.historical_figures@.len() <= 7
    &&& forall|i: int|
        0 <= i < c.historical_figures@.len() ==> drawn_text(
            dict,
            seq![NounTag::Title.label()],
            seq![],
            seq![],
            era,
            (#[trigger] c.historical_figures@[i]).0@,
        ) && drawn_text(dict, seq![NounTag::LastName.label()], seq![], seq![], era, c.historical_figures@[i].1@)
    &&& 2 <= c.staple_meats@.len() <= 4
    &&& forall|i: int|
        0 <= i < c.staple_meats@.len() ==> tag_selection(
            dict,
            WordType::Noun,
            animal_tags(c.landlocked).0,
            animal_tags(c.landlocked).1,
            animal_tags(c.landlocked).2,
            era,
        ).contains(#[trigger] word_views(c.staple_meats@)[i])
    &&& 3 <= c.staple_plants@.len() <= 6
    &&& forall|i: int|
        0 <= i < c.staple_plants@.len() ==> tag_selection(
            dict,
            WordType::Noun,
            seq![PlantType::PlantTypeCrop.label()],
            seq![],
            seq![],
            era,
        ).contains(#[trigger] word_views(c.staple_plants@)[i])
    &&& c.adult_age == 18
    &&& c.species_avg_lifespan == 70
    &&& c.species_avg_lifespan_variance == 5
    &&& 1 <= c.parental_naming_formats@.len() <= 2
    &&& format_views(c.parental_naming_formats@).no_duplicates()
    &&& forall|i: int|
        0 <= i < c.parental_naming_formats@.len() ==> naming_lists_spec().contains(
            #[trigger] format_views(c.parental_naming_formats@)[i],
        )
    &&& (c.avg_building_footprint, c.avg_building_floors) == era_buildings(era)
}

/// A culture for the era (see [`culture_made`]).
pub fn random_culture(dict: &Vec<Word>, era: &Option<Era>) -> (r: CultureConfig)
    requires
        culture_ready(word_views(dict@), *era),
    ensures
        culture_made(r, word_views(dict@), *era),
{
    let landlocked = random_below(2) == 1;
    let drawn = random_below(3);
    let naming_system_count: usize = if drawn < 1 { 1 } else { drawn };
    let naming_systems = paternal_naming_lists();
    assert(naming_systems.len() == format_views(naming_systems@).len());
    let mut order: Vec<usize> = vec![0, 1, 2, 3, 4, 5];
    let ghost before = order@;
    shuffle(&mut order);
    proof {
        lemma_naming_lists_distinct();
        lemma_shuffled_order(before, order@);
    }
    let mut formats: Vec<NamingFormat> = Vec::new();
    let mut k: usize = 0;
    while k < naming_system_count
        invariant
            k <= naming_system_count <= 2,
            order@.len() == 6,
            order@.no_duplicates(),
            forall|i: int| 0 <= i < 6 ==> #[trigger] order@[i] < 6,
            format_views(naming_systems@) == naming_lists_spec(),
            naming_systems.len() == 6,
            formats.len() == k,
            forall|i: int| 0 <= i < k ==> #[trigger] format_views(formats@)[i] == naming_lists_spec()[order@[i] as int],
        decreases naming_system_count - k,
    {
        let f = &naming_systems[order[k]];
        let ghost prev = format_views(formats@);
        formats.push((f.0.clone(), f.1.clone(), f.2.clone(), f.3.clone()));
        proof {
            assert(format_views(formats@) =~= prev.push(format_views(naming_systems@)[order@[k as int] as int]));
        }
        k = k + 1;
    }
    let (footprint, floors) = match era {
        Some(Era::Future) => (36, 15),
        Some(Era::Fantasy) => (6, 2),
        Some(Era::Medieval) => (6, 2),
        _ => (12, 6),
    };
    let figures = gen_historical_figures(dict, era);
    let meats = random_animals(dict, landlocked, era);
    let plants = random_crops(dict, era);
    let c = CultureConfig {
        era: *era,
        historical_figures: figures,
        landlocked,
        staple_meats: meats,
        staple_plants: plants,
        adult_age: 18,
        species_avg_lifespan: 70,
        species_avg_lifespan_variance: 5,
        parental_naming_formats: formats,
        avg_building_footprint: footprint,
        avg_building_floors: floors,
    };
    proof {
        let fv = format_views(c.parental_naming_formats@);
        let spec = naming_lists_spec();
        assert forall|a: int, b: int| 0 <= a < b < fv.len() implies fv[a] != fv[b] by {
            assert(order@[a] != order@[b]);
            assert(spec[order@[a] as int] != spec[order@[b] as int]);
        }
        assert forall|i: int| 0 <= i < fv.len() implies spec.contains(#[trigger] fv[i]) by {
            assert(spec[order@[i] as int] == fv[i]);
        }
    }
    c
}

proof fn lemma_naming_lists_distinct()
    ensures
        naming_lists_spec().no_duplicates(),
{
    let s = naming_lists_spec();
    lemma_naming_lists_facts();
    assert(s[0].0 != s[1].0);
    assert(s[0].1 != s[2].1);
    assert(s[1].0 != s[2].0);
    assert forall|a: int, b: int| 0 <= a < b < s.len() implies s[a] != s[b] by {
        if a == 0 && b == 1 {
            assert(s[a].0 != s[b].0);
        } else if a == 0 && b == 2 {
            assert(s[a].1 != s[b].1);
        } else if a == 1 && b == 2 {
            assert(s[a].0 != s[b].0);
        } else if b == 3 {
            assert(s[a].0.len() != s[b].0.len());
        } else {
            assert(s[a].2.len() != s[b].2.len());
        }
    }
}

proof fn lemma_shuffled_order(before: Seq<usize>, after: Seq<usize>)
    requires
        before == seq![0usize, 1, 2, 3, 4, 5],
        after.to_multiset() == before.to_multiset(),
    ensures
        after.len() == 6,
        after.no_duplicates(),
        forall|i: int| 0 <= i < 6 ==> #[trigger] after[i] < 6,
{
    vstd::seq_lib::to_multiset_len(before);
    vstd::seq_lib::to_multiset_len(after);
    assert(before.no_duplicates());
    before.lemma_multiset_has_no_duplicates();
    after.lemma_multiset_has_no_duplicates_conv();
    assert forall|i: int| 0 <= i < 6 implies #[trigger] after[i] < 6 by {
        vstd::seq_lib::to_multiset_contains(after, after[i]);
        vstd::seq_lib::to_multiset_contains(before, after[i]);
        assert(after.contains(after[i]));
    }
}

/// Words `first` and `last` name the famous figure `fig`: nouns without
/// related forms, the first tagged as a first name and the last as a last
/// name, both as a historical figure's.
pub open spec fn figure_words(first: Word, last: Word, fig: (String, String)) -> bool {
    &&& first@.word_type == WordType::Noun
    &&& first@.text == fig.0@
    &&& first@.tags == seq![NounTag::FirstName.label(), NounTag::HistoricalFigure.label()]
    &&& first.related_forms@.len() == 0
    &&& last@.word_type == WordType::Noun
    &&& last@.text == fig.1@
    &&& last@.tags == seq![NounTag::LastName.label(), NounTag::HistoricalFigure.label()]
    &&& last.related_forms@.len() == 0
}

/// The dictionary of a culture: the words of `dict`, then for each famous
/// figure a first name and a last name (see [`figure_words`]).
pub fn build_culture_dictionary(dict: &Vec<Word>, culture: &CultureConfig) -> (r: Vec<Word>)
    ensures
        r.len() == dict.len() + 2 * culture.historical_figures.len(),
        forall|i: int| 0 <= i < dict.len() ==> (#[trigger] r@[i])@ == dict@[i]@,
        forall|i: int| 0 <= i < dict.len() ==> words_alike(#[trigger] r@[i], dict@[i]),
        forall|k: int|
            0 <= k < culture.historical_figures.len() ==> figure_words(
                r@[dict.len() + 2 * k],
                r@[dict.len() + 2 * k + 1],
                #[trigger] culture.historical_figures@[k],
            ),
{
    let mut output: Vec<Word> = Vec::new();
    let mut i: usize = 0;
    while i < dict.len()
        invariant
            i <= dict.len(),
            output.len() == i,
            forall|q: int| 0 <= q < i ==> (#[trigger] output@[q])@ == dict@[q]@,
            forall|q: int| 0 <= q < i ==> words_alike(#[trigger] output@[q], dict@[q]),
        decreases dict.len() - i,
    {
        let ghost prev = output@;
        output.push(dict[i].copy());
        proof {
            assert forall|q: int| 0 <= q < i + 1 implies (#[trigger] output@[q])@ == dict@[q]@ && words_alike(
                output@[q],
                dict@[q],
            ) by {
                if q < i {
                    assert(output@[q] == prev[q]);
                }
            }
        }
        i = i + 1;
    }
    let n = dict.len();
    let mut k: usize = 0;
    while k < culture.historical_figures.len()
        invariant
            k <= culture.historical_figures.len(),
            n == dict.len(),
            output.len() == n + 2 * k,
            forall|q: int| 0 <= q < n ==> (#[trigger] output@[q])@ == dict@[q]@,
            forall|q: int| 0 <= q < n ==> words_alike(#[trigger] output@[q], dict@[q]),
            forall|j: int|
                0 <= j < k ==> figure_words(
                    output@[n + 2 * j],
                    output@[n + 2 * j + 1],
                    #[trigger] culture.historical_figures@[j],
                ),
        decreases culture.historical_figures.len() - k,
    {
        let (first_name, last_name) = &culture.historical_figures[k];
        let first_tags = vec![NounTag::FirstName.to_string(), NounTag::HistoricalFigure.to_string()];
        let last_tags = vec![NounTag::LastName.to_string(), NounTag::HistoricalFigure.to_string()];
        assert(str_views(first_tags@) =~= seq![NounTag::FirstName.label(), NounTag::HistoricalFigure.label()]);
        assert(str_views(last_tags@) =~= seq![NounTag::LastName.label(), NounTag::HistoricalFigure.label()]);
        let first = Word {
            id: new_id(),
            word_type: WordType::Noun,
            text: first_name.clone(),
            tags: first_tags,
            related_forms: Vec::new(),
        };
        let last = Word {
            id: new_id(),
            word_type: WordType::Noun,
            text: last_name.clone(),
            tags: last_tags,
            related_forms: Vec::new(),
        };
        assert(figure_words(first, last, culture.historical_figures@[k as int]));
        let ghost prev = output@;
        output.push(first);
        output.push(last);
        proof {
            assert(output@[n + 2 * k] == first);
            assert(output@[n + 2 * k + 1] == last);
            assert forall|q: int| 0 <= q < n implies (#[trigger] output@[q])@ == dict@[q]@ by {
                assert(output@[q] == prev[q]);
            }
            assert forall|j: int|
                0 <= j < k + 1 implies figure_words(
                    output@[n + 2 * j],
                    output@[n + 2 * j + 1],
                    #[trigger] culture.historical_figures@[j],
                ) by {
                if j < k {
                    assert(output@[n + 2 * j] == prev[n + 2 * j]);
                    assert(output@[n + 2 * j + 1] == prev[n + 2 * j + 1]);
                }
            }
        }
        k = k + 1;
    }
    output
}

} // verus!

verus! {

proof fn lemma_naming_lists_facts()
    ensures
        naming_lists_spec()[0].0[2] != naming_lists_spec()[1].0[2],
        naming_lists_spec()[0].0 != naming_lists_spec()[1].0,
        naming_lists_spec()[0].0.len() == 6,
        naming_lists_spec()[1].0.len() == 6,
        naming_lists_spec()[3].0.len() == 13,
        naming_lists_spec()[0].2.len() == 6,
        naming_lists_spec()[1].2.len() == 6,
        naming_lists_spec()[2].2.len() == 6,
        naming_lists_spec()[4].2.len() == 10,
        naming_lists_spec()[5].2.len() == 9,
        naming_lists_spec()[4].0.len() == 6,
        naming_lists_spec()[5].0.len() == 6,
{
    reveal_strlit("{{ML}}");
    reveal_strlit("{{FL}}");
    reveal_strlit("{{ML}}-{{FL}}");
    reveal_strlit("{{MF}}sson");
    reveal_strlit("{{MF}}sen");
    assert(naming_lists_spec()[0].0[2] != naming_lists_spec()[1].0[2]);
}

} // verus!
