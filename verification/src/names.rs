//! Names of people and places read from name lists, and drawing names from
//! them by tag.
use crate::city::population::mind::Gender;
use crate::parser::{strip_comment, strip_comment_chars};
use crate::random::{below_drawn, lemma_below_drawn, random_below};
use crate::text::{chars_of, eq_chars, split, split_chars, string_of, trim, trim_chars, views};
use vstd::prelude::*;

verus! {

/// The tags a name may carry in the name files.
#[derive(PartialEq, Eq, Structural, Debug, Clone, Copy)]
pub enum NameTag {
    MaleGender,
    FemaleGender,
    AmbigiousGender,
    FirstName,
    LastName,
    StyleUK,
    InstitutionFoodServiceSuffix,
    InstitutionRetailSpecificSuffix,
    InstitutionRetailGeneralSuffix,
    Suffixable,
    Prefixable,
    LocationMajorFeature,
    LocationMinorFeature,
    LocationDescriptor,
    BuildingSuffix,
}

impl NameTag {
    /// The name of the value, as data files and templates spell it.
    pub open spec fn label(self) -> Seq<char> {
        match self {
            NameTag::MaleGender => "MaleGender"@,
            NameTag::FemaleGender => "FemaleGender"@,
            NameTag::AmbigiousGender => "AmbigiousGender"@,
            NameTag::FirstName => "FirstName"@,
            NameTag::LastName => "LastName"@,
            NameTag::StyleUK => "StyleUK"@,
            NameTag::InstitutionFoodServiceSuffix => "InstitutionFoodServiceSuffix"@,
            NameTag::InstitutionRetailSpecificSuffix => "InstitutionRetailSpecificSuffix"@,
            NameTag::InstitutionRetailGeneralSuffix => "InstitutionRetailGeneralSuffix"@,
            NameTag::Suffixable => "Suffixable"@,
            NameTag::Prefixable => "Prefixable"@,
            NameTag::LocationMajorFeature => "LocationMajorFeature"@,
            NameTag::LocationMinorFeature => "LocationMinorFeature"@,
            NameTag::LocationDescriptor => "LocationDescriptor"@,
            NameTag::BuildingSuffix => "BuildingSuffix"@,
        }
    }

    /// The name of the value, as data files and templates spell it.
    pub fn to_string(&self) -> (s: String)
        ensures
            s@ == self.label(),
    {
        match self {
            NameTag::MaleGender => String::from_str("MaleGender"),
            NameTag::FemaleGender => String::from_str("FemaleGender"),
            NameTag::AmbigiousGender => String::from_str("AmbigiousGender"),
            NameTag::FirstName => String::from_str("FirstName"),
            NameTag::LastName => String::from_str("LastName"),
            NameTag::StyleUK => String::from_str("StyleUK"),
            NameTag::InstitutionFoodServiceSuffix => String::from_str("InstitutionFoodServiceSuffix"),
            NameTag::InstitutionRetailSpecificSuffix => String::from_str("InstitutionRetailSpecificSuffix"),
            NameTag::InstitutionRetailGeneralSuffix => String::from_str("InstitutionRetailGeneralSuffix"),
            NameTag::Suffixable => String::from_str("Suffixable"),
            NameTag::Prefixable => String::from_str("Prefixable"),
            NameTag::LocationMajorFeature => String::from_str("LocationMajorFeature"),
            NameTag::LocationMinorFeature => String::from_str("LocationMinorFeature"),
            NameTag::LocationDescriptor => String::from_str("LocationDescriptor"),
            NameTag::BuildingSuffix => String::from_str("BuildingSuffix"),
        }
    }

    /// Every value, in declaration order.
    pub open spec fn all() -> Seq<NameTag> {
        seq![NameTag::MaleGender, NameTag::FemaleGender, NameTag::AmbigiousGender, NameTag::FirstName, NameTag::LastName, NameTag::StyleUK, NameTag::InstitutionFoodServiceSuffix, NameTag::InstitutionRetailSpecificSuffix, NameTag::InstitutionRetailGeneralSuffix, NameTag::Suffixable, NameTag::Prefixable, NameTag::LocationMajorFeature, NameTag::LocationMinorFeature, NameTag::LocationDescriptor, NameTag::BuildingSuffix]
    }

    /// The names of all values, in declaration order.
    pub open spec fn labels() -> Seq<Seq<char>> {
        Self::all().map_values(|t: NameTag| t.label())
    }

    /// Every value, in declaration order.
    pub fn iter() -> (v: Vec<NameTag>)
        ensures
            v@ == Self::all(),
    {
        let v = vec![NameTag::MaleGender, NameTag::FemaleGender, NameTag::AmbigiousGender, NameTag::FirstName, NameTag::LastName, NameTag::StyleUK, NameTag::InstitutionFoodServiceSuffix, NameTag::InstitutionRetailSpecificSuffix, NameTag::InstitutionRetailGeneralSuffix, NameTag::Suffixable, NameTag::Prefixable, NameTag::LocationMajorFeature, NameTag::LocationMinorFeature, NameTag::LocationDescriptor, NameTag::BuildingSuffix];
        assert(v@ =~= Self::all());
        v
    }
}


/// The first tag of `tags` whose name is `t`.
pub open spec fn first_with_label(tags: Seq<NameTag>, t: Seq<char>) -> Option<NameTag>
    decreases tags.len(),
{
    if tags.len() == 0 {
        None
    } else if tags[0].label() == t {
        Some(tags[0])
    } else {
        first_with_label(tags.drop_first(), t)
    }
}

/// The name tag that a token of a name file names: the first tag whose name
/// is the trimmed token.
pub open spec fn name_tag_of(token: Seq<char>) -> Option<NameTag> {
    first_with_label(NameTag::all(), trim(token))
}

/// Reads a tag of a name file (see [`name_tag_of`]).
pub fn string_match_name_tag(token: &str) -> (r: Option<NameTag>)
    ensures
        r == name_tag_of(token@),
{
    let tok = chars_of(token);
    let trimmed = trim_chars(&tok);
    let tags = NameTag::iter();
    let mut i: usize = 0;
    assert(NameTag::all().subrange(0, tags.len() as int) =~= NameTag::all());
    while i < tags.len()
        invariant
            i <= tags.len(),
            tags@ == NameTag::all(),
            trimmed@ == trim(token@),
            name_tag_of(token@) == first_with_label(
                NameTag::all().subrange(i as int, tags.len() as int),
                trim(token@),
            ),
        decreases tags.len() - i,
    {
        assert(NameTag::all().subrange(i as int, tags.len() as int).drop_first()
            =~= NameTag::all().subrange(i + 1, tags.len() as int));
        let label = tags[i].to_string();
        let label_chars = chars_of(label.as_str());
        if eq_chars(&label_chars, &trimmed) {
            return Some(tags[i]);
        }
        i = i + 1;
    }
    None
}

/// A name with its tags.
pub struct NameDefinition {
    pub name: String,
    pub tags: Vec<NameTag>,
}

impl View for NameDefinition {
    type V = (Seq<char>, Seq<NameTag>);

    open spec fn view(&self) -> (Seq<char>, Seq<NameTag>) {
        (self.name@, self.tags@)
    }
}

/// The views of a sequence of names.
pub open spec fn def_views(v: Seq<NameDefinition>) -> Seq<(Seq<char>, Seq<NameTag>)> {
    v.map_values(|d: NameDefinition| d@)
}

impl NameDefinition {
    /// A copy of the name.
    pub fn copy(&self) -> (r: NameDefinition)
        ensures
            r@ == self@,
    {
        let mut tags: Vec<NameTag> = Vec::new();
        let mut i: usize = 0;
        while i < self.tags.len()
            invariant
                i <= self.tags.len(),
                tags@ == self.tags@.take(i as int),
            decreases self.tags.len() - i,
        {
            tags.push(self.tags[i]);
            i = i + 1;
            assert(tags@ =~= self.tags@.take(i as int));
        }
        assert(self.tags@.take(self.tags.len() as int) =~= self.tags@);
        NameDefinition { name: self.name.clone(), tags }
    }

    /// Whether the name carries `tag`.
    pub fn has_tag(&self, tag: &NameTag) -> (b: bool)
        ensures
            b == self.tags@.contains(*tag),
    {
        let mut i: usize = 0;
        while i < self.tags.len()
            invariant
                i <= self.tags.len(),
                forall|j: int| 0 <= j < i ==> self.tags@[j] != *tag,
            decreases self.tags.len() - i,
        {
            if self.tags[i] == *tag {
                return true;
            }
            i = i + 1;
        }
        false
    }
}

/// Lists of first and last names, and both together.
pub struct NameDictionary {
    pub first_names: Vec<NameDefinition>,
    pub last_names: Vec<NameDefinition>,
    pub total_list: Vec<NameDefinition>,
}

/// Whether a name carries `tag`.
pub open spec fn tagged(tag: NameTag) -> spec_fn((Seq<char>, Seq<NameTag>)) -> bool {
    |d: (Seq<char>, Seq<NameTag>)| d.1.contains(tag)
}

/// Whether a name lacks `tag`.
pub open spec fn untagged(tag: NameTag) -> spec_fn((Seq<char>, Seq<NameTag>)) -> bool {
    |d: (Seq<char>, Seq<NameTag>)| !d.1.contains(tag)
}

/// The names that carry `tag`, in order.
pub open spec fn with_tag(
    input: Seq<(Seq<char>, Seq<NameTag>)>,
    tag: NameTag,
) -> Seq<(Seq<char>, Seq<NameTag>)> {
    input.filter(tagged(tag))
}

/// The names that do not carry `tag`, in order.
pub open spec fn without_tag(
    input: Seq<(Seq<char>, Seq<NameTag>)>,
    tag: NameTag,
) -> Seq<(Seq<char>, Seq<NameTag>)> {
    input.filter(untagged(tag))
}

/// The names of `input` that carry `tag`, in order.
pub fn filter_on_tag(input: &Vec<NameDefinition>, tag: &NameTag) -> (r: Vec<NameDefinition>)
    ensures
        def_views(r@) == with_tag(def_views(input@), *tag),
{
    let ghost pred = tagged(*tag);
    let mut output: Vec<NameDefinition> = Vec::new();
    let mut i: usize = 0;
    while i < input.len()
        invariant
            i <= input.len(),
            pred == tagged(*tag),
            def_views(output@) == def_views(input@).take(i as int).filter(pred),
        decreases input.len() - i,
    {
        assert(def_views(input@).take(i + 1).drop_last() =~= def_views(input@).take(i as int));
        reveal_with_fuel(Seq::filter, 1);
        if input[i].has_tag(tag) {
            output.push(input[i].copy());
        }
        i = i + 1;
        assert(def_views(output@) =~= def_views(input@).take(i as int).filter(pred));
    }
    assert(def_views(input@).take(input.len() as int) =~= def_views(input@));
    output
}

/// The names of `input` that do not carry `tag`, in order.
pub fn exclude_on_tag(input: &Vec<NameDefinition>, tag: &NameTag) -> (r: Vec<NameDefinition>)
    ensures
        def_views(r@) == without_tag(def_views(input@), *tag),
{
    let ghost pred = untagged(*tag);
    let mut output: Vec<NameDefinition> = Vec::new();
    let mut i: usize = 0;
    while i < input.len()
        invariant
            i <= input.len(),
            pred == untagged(*tag),
            def_views(output@) == def_views(input@).take(i as int).filter(pred),
        decreases input.len() - i,
    {
        assert(def_views(input@).take(i + 1).drop_last() =~= def_views(input@).take(i as int));
        reveal_with_fuel(Seq::filter, 1);
        if !input[i].has_tag(tag) {
            output.push(input[i].copy());
        }
        i = i + 1;
        assert(def_views(output@) =~= def_views(input@).take(i as int).filter(pred));
    }
    assert(def_views(input@).take(input.len() as int) =~= def_views(input@));
    output
}

/// A name of `list`, drawn at random.
pub fn pick_definition(list: &Vec<NameDefinition>) -> (r: NameDefinition)
    requires
        list.len() > 0,
    ensures
        def_views(list@).contains(r@),
        exists|i: int| 0 <= i < list.len() && #[trigger] below_drawn(list.len(), i as usize) && r@ == list@[i]@,
{
    let i = random_below(list.len());
    proof {
        lemma_below_drawn(list.len(), i);
        assert(below_drawn(list.len(), (i as int) as usize));
    }
    let r = list[i].copy();
    assert(def_views(list@)[i as int] == r@);
    r
}

/// Some name of `list` carries `tag`.
pub open spec fn some_with_tag(list: Seq<(Seq<char>, Seq<NameTag>)>, tag: NameTag) -> bool {
    exists|i: int| 0 <= i < list.len() && (#[trigger] list[i]).1.contains(tag)
}

/// Some name of `list` does not carry `tag`.
pub open spec fn some_without_tag(list: Seq<(Seq<char>, Seq<NameTag>)>, tag: NameTag) -> bool {
    exists|i: int| 0 <= i < list.len() && !(#[trigger] list[i]).1.contains(tag)
}

proof fn lemma_filter_keeps<A>(s: Seq<A>, pred: spec_fn(A) -> bool, i: int)
    requires
        0 <= i < s.len(),
        pred(s[i]),
    ensures
        s.filter(pred).len() > 0,
        s.filter(pred).contains(s[i]),
{
    broadcast use vstd::seq_lib::group_filter_ensures;

    s.lemma_filter_contains_rev(pred, s[i]);
    assert(s.filter(pred).contains(s[i]));
}

/// A name of `list` that carries `tag`, drawn at random. Some name of the
/// list must carry it.
pub fn random_name_definition_filter_tag(list: &Vec<NameDefinition>, tag: &NameTag) -> (r:
    NameDefinition)
    requires
        some_with_tag(def_views(list@), *tag),
    ensures
        def_views(list@).contains(r@),
        r@.1.contains(*tag),
{
    let filtered_list = filter_on_tag(list, tag);
    proof {
        let pred = tagged(*tag);
        let i = choose|i: int| 0 <= i < def_views(list@).len() && (#[trigger] def_views(list@)[i]).1.contains(*tag);
        lemma_filter_keeps(def_views(list@), pred, i);
    }
    let r = pick_definition(&filtered_list);
    proof {
        broadcast use vstd::seq_lib::group_filter_ensures;

        let k = choose|k: int| 0 <= k < def_views(filtered_list@).len() && def_views(filtered_list@)[k] == r@;
        assert(def_views(filtered_list@)[k] == r@);
        crate::utils::lemma_filter_subset(def_views(list@), tagged(*tag));
        crate::utils::lemma_filter_subset(def_views(list@), untagged(*tag));
    }
    r
}

/// A name of `list` that does not carry `tag`, drawn at random. Some name
/// of the list must lack it.
pub fn random_name_definition_exclude_tag(list: &Vec<NameDefinition>, tag: &NameTag) -> (r:
    NameDefinition)
    requires
        some_without_tag(def_views(list@), *tag),
    ensures
        def_views(list@).contains(r@),
        !r@.1.contains(*tag),
{
    let filtered_list = exclude_on_tag(list, tag);
    proof {
        let pred = untagged(*tag);
        let i = choose|i: int| 0 <= i < def_views(list@).len() && !(#[trigger] def_views(list@)[i]).1.contains(*tag);
        lemma_filter_keeps(def_views(list@), pred, i);
    }
    let r = pick_definition(&filtered_list);
    proof {
        broadcast use vstd::seq_lib::group_filter_ensures;

        let k = choose|k: int| 0 <= k < def_views(filtered_list@).len() && def_views(filtered_list@)[k] == r@;
        assert(def_views(filtered_list@)[k] == r@);
        crate::utils::lemma_filter_subset(def_views(list@), tagged(*tag));
        crate::utils::lemma_filter_subset(def_views(list@), untagged(*tag));
    }
    r
}

/// `list` can give a first name to a person of `gender`: for a man, some
/// name not tagged female; for a woman, some name not tagged male; otherwise
/// any name.
pub open spec fn can_name(list: Seq<(Seq<char>, Seq<NameTag>)>, gender: Gender) -> bool {
    match gender {
        Gender::Male => some_without_tag(list, NameTag::FemaleGender),
        Gender::Female => some_without_tag(list, NameTag::MaleGender),
        Gender::Ambiguous => list.len() > 0,
    }
}

/// `name` may be given from `list` to a person of `gender`: it is one of
/// the list's names, not tagged female for a man and not tagged male for a
/// woman.
pub open spec fn fits_gender(
    list: Seq<(Seq<char>, Seq<NameTag>)>,
    gender: Gender,
    name: Seq<char>,
) -> bool {
    exists|i: int|
        0 <= i < list.len() && (#[trigger] list[i]).0 == name && match gender {
            Gender::Male => !list[i].1.contains(NameTag::FemaleGender),
            Gender::Female => !list[i].1.contains(NameTag::MaleGender),
            Gender::Ambiguous => true,
        }
}

fn random_name_for_gender(input: &Vec<NameDefinition>, gender: &Gender) -> (r: String)
    requires
        can_name(def_views(input@), *gender),
    ensures
        fits_gender(def_views(input@), *gender, r@),
{
    match gender {
        Gender::Male => {
            let d = random_name_definition_exclude_tag(input, &NameTag::FemaleGender);
            let ghost i = choose|i: int| 0 <= i < def_views(input@).len() && def_views(input@)[i] == d@;
            assert(def_views(input@)[i] == d@);
            d.name
        },
        Gender::Female => {
            let d = random_name_definition_exclude_tag(input, &NameTag::MaleGender);
            let ghost i = choose|i: int| 0 <= i < def_views(input@).len() && def_views(input@)[i] == d@;
            assert(def_views(input@)[i] == d@);
            d.name
        },
        Gender::Ambiguous => {
            let d = pick_definition(input);
            let ghost i = choose|i: int| 0 <= i < def_views(input@).len() && def_views(input@)[i] == d@;
            assert(def_views(input@)[i] == d@);
            d.name
        },
    }
}

/// A first and a last name for a person of `gender`, drawn at random from
/// the dictionary's lists.
pub fn random_mind_name(dict: &NameDictionary, gender: &Gender) -> (r: (String, String))
    requires
        can_name(def_views(dict.first_names@), *gender),
        dict.last_names.len() > 0,
    ensures
        fits_gender(def_views(dict.first_names@), *gender, r.0@),
        exists|i: int| 0 <= i < dict.last_names.len() && dict.last_names@[i].name@ == r.1@,
{
    let first = random_name_for_gender(&dict.first_names, gender);
    let last = pick_definition(&dict.last_names);
    let ghost i = choose|i: int| 0 <= i < def_views(dict.last_names@).len() && def_views(dict.last_names@)[i] == last@;
    assert(dict.last_names@[i].name@ == last.name@);
    (first, last.name)
}

/// A line of a name file read as a name: the line (its comment cut off)
/// split at commas; the first piece, untrimmed, is the name, and each later
/// piece that names a tag adds that tag. A line whose name is empty holds no
/// name.
pub open spec fn name_line_spec(line: Seq<char>) -> Option<(Seq<char>, Seq<NameTag>)> {
    let pieces = split(strip_comment(line), ',');
    if pieces[0].len() == 0 {
        None
    } else {
        Some((pieces[0], tags_of_pieces(pieces.drop_first())))
    }
}

/// The tags that the pieces name, in order, the others skipped.
pub open spec fn tags_of_pieces(pieces: Seq<Seq<char>>) -> Seq<NameTag>
    decreases pieces.len(),
{
    if pieces.len() == 0 {
        Seq::empty()
    } else {
        let rest = tags_of_pieces(pieces.drop_last());
        match name_tag_of(pieces.last()) {
            Some(t) => rest.push(t),
            None => rest,
        }
    }
}

/// Reads one line of a name file (see [`name_line_spec`]).
pub fn parse_name_line(line: &str) -> (r: Option<NameDefinition>)
    ensures
        r is None <==> name_line_spec(line@) is None,
        r matches Some(d) ==> name_line_spec(line@) == Some(d@),
{
    let chars = chars_of(line);
    let stripped = strip_comment_chars(&chars);
    let pieces = split_chars(&stripped, ',');
    proof {
        crate::text::lemma_split_nonempty(stripped@, ',');
    }
    let ghost all = split(strip_comment(line@), ',');
    assert(views(pieces@)[0] == pieces@[0]@);
    let mut tags: Vec<NameTag> = Vec::new();
    let mut i: usize = 1;
    while i < pieces.len()
        invariant
            1 <= i <= pieces.len(),
            views(pieces@) == all,
            tags@ == tags_of_pieces(all.drop_first().take(i - 1)),
        decreases pieces.len() - i,
    {
        assert(all.drop_first().take(i as int).drop_last() =~= all.drop_first().take(i - 1));
        assert(views(pieces@)[i as int] == pieces@[i as int]@);
        let piece = string_of(&pieces[i]);
        match string_match_name_tag(piece.as_str()) {
            Some(t) => {
                tags.push(t);
            },
            None => {},
        }
        i = i + 1;
    }
    assert(all.drop_first().take(pieces.len() - 1) =~= all.drop_first());
    if pieces[0].len() == 0 {
        None
    } else {
        Some(NameDefinition { name: string_of(&pieces[0]), tags })
    }
}

/// The names that the lines of a name file hold, in order.
pub open spec fn name_lines_spec(lines: Seq<Seq<char>>) -> Seq<(Seq<char>, Seq<NameTag>)>
    decreases lines.len(),
{
    if lines.len() == 0 {
        Seq::empty()
    } else {
        let rest = name_lines_spec(lines.drop_last());
        match name_line_spec(lines.last()) {
            Some(d) => rest.push(d),
            None => rest,
        }
    }
}

/// Reads the lines of a name file (see [`name_lines_spec`]).
pub fn parse_name_lines(lines: &Vec<String>) -> (r: Vec<NameDefinition>)
    ensures
        def_views(r@) == name_lines_spec(crate::text::str_views(lines@)),
{
    let ghost ls = crate::text::str_views(lines@);
    let mut output: Vec<NameDefinition> = Vec::new();
    let mut i: usize = 0;
    while i < lines.len()
        invariant
            i <= lines.len(),
            ls == crate::text::str_views(lines@),
            def_views(output@) == name_lines_spec(ls.take(i as int)),
        decreases lines.len() - i,
    {
        assert(ls.take(i + 1).drop_last() =~= ls.take(i as int));
        assert(ls.take(i + 1).last() == lines@[i as int]@);
        let ghost prev = def_views(output@);
        match parse_name_line(lines[i].as_str()) {
            Some(d) => {
                output.push(d);
                assert(def_views(output@) =~= prev.push(name_line_spec(lines@[i as int]@).unwrap()));
            },
            None => {},
        }
        i = i + 1;
    }
    assert(ls.take(lines.len() as int) =~= ls);
    output
}

/// The name dictionary made from the lines of the first-name and last-name
/// files: the names of each, and all first names followed by all last names.
pub fn gen_name_dict(first_name_lines: &Vec<String>, last_name_lines: &Vec<String>) -> (r:
    NameDictionary)
    ensures
        def_views(r.first_names@) == name_lines_spec(crate::text::str_views(first_name_lines@)),
        def_views(r.last_names@) == name_lines_spec(crate::text::str_views(last_name_lines@)),
        def_views(r.total_list@) == def_views(r.first_names@) + def_views(r.last_names@),
{
    let first_names = parse_name_lines(first_name_lines);
    let last_names = parse_name_lines(last_name_lines);
    let mut total_list: Vec<NameDefinition> = Vec::new();
    let mut i: usize = 0;
    while i < first_names.len()
        invariant
            i <= first_names.len(),
            def_views(total_list@) == def_views(first_names@).take(i as int),
        decreases first_names.len() - i,
    {
        let ghost prev = def_views(total_list@);
        total_list.push(first_names[i].copy());
        assert(def_views(total_list@) =~= prev.push(def_views(first_names@)[i as int]));
        i = i + 1;
        assert(def_views(total_list@) =~= def_views(first_names@).take(i as int));
    }
    let mut j: usize = 0;
    assert(def_views(first_names@).take(first_names.len() as int) =~= def_views(first_names@));
    while j < last_names.len()
        invariant
            j <= last_names.len(),
            def_views(total_list@) == def_views(first_names@) + def_views(last_names@).take(j as int),
        decreases last_names.len() - j,
    {
        let ghost prev = def_views(total_list@);
        total_list.push(last_names[j].copy());
        assert(def_views(total_list@) =~= prev.push(def_views(last_names@)[j as int]));
        j = j + 1;
        assert(def_views(total_list@) =~= def_views(first_names@) + def_views(last_names@).take(j as int));
    }
    assert(def_views(last_names@).take(last_names.len() as int) =~= def_views(last_names@));
    NameDictionary { first_names, last_names, total_list }
}

} // verus!
