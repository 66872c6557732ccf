//! Names of people drawn from the group dictionary, and family names made
//! from naming formats such as `{{ML}}-{{FL}}`.
use crate::city::population::mind::{Gender, Mind};
use crate::name_formats::{blocks, find_blocks, Block, FormatAlphabet};
use crate::language2::{combined, group_members, noun_query_ok, opt_view, views_of_strings, Dictionary, Id, LogicalOperator};
use crate::text::{chars_of, eq_chars, push_all};
use vstd::prelude::*;

verus! {

/// A joiner inside a name: `-`, `_`, space or `:`.
pub open spec fn is_joiner(c: char) -> bool {
    c == '-' || c == '_' || c == ' ' || c == ':'
}

/// The part of a name before its first joiner.
pub open spec fn clean(s: Seq<char>) -> Seq<char>
    decreases s.len(),
{
    if s.len() == 0 {
        s
    } else if is_joiner(s[0]) {
        Seq::empty()
    } else {
        seq![s[0]] + clean(s.drop_first())
    }
}

proof fn lemma_clean_prefix(s: Seq<char>, i: int)
    requires
        0 <= i <= s.len(),
        forall|j: int| 0 <= j < i ==> !is_joiner(#[trigger] s[j]),
        i == s.len() || is_joiner(s[i]),
    ensures
        clean(s) == s.subrange(0, i),
    decreases i,
{
    if i > 0 {
        lemma_clean_prefix(s.drop_first(), i - 1);
        assert(seq![s[0]] + s.drop_first().subrange(0, i - 1) =~= s.subrange(0, i));
    } else {
        assert(s.subrange(0, 0) =~= Seq::<char>::empty());
    }
}

/// The part of `name` before its first joiner.
pub fn clean_name(name: &str) -> (r: &str)
    ensures
        r@ == clean(name@),
{
    let len = name.unicode_len();
    let mut i: usize = 0;
    while i < len && !(name.get_char(i) == '-' || name.get_char(i) == '_' || name.get_char(i)
        == ' ' || name.get_char(i) == ':')
        invariant
            i <= len == name@.len(),
            forall|j: int| 0 <= j < i ==> !is_joiner(#[trigger] name@[j]),
        decreases len - i,
    {
        i = i + 1;
    }
    proof {
        lemma_clean_prefix(name@, i as int);
    }
    name.substring_char(0, i)
}

/// What a naming format reads of a person: first and last name, and gender.
pub type NamedView = ((Seq<char>, Seq<char>), Gender);

/// The person a key of a format speaks of: the other one than the person
/// the previous key spoke of (the first person when both read alike);
/// otherwise, for an `M` key, the second person if he is male, else the
/// first; for an `F` key, the second person if she is female, else the
/// first; for any other key, the first. `true` means the second person.
pub open spec fn keyed_second(
    mind_1: NamedView,
    mind_2: NamedView,
    key: Seq<char>,
    exclude: Option<NamedView>,
) -> bool {
    if exclude matches Some(e) && mind_1 == e {
        true
    } else if exclude matches Some(e) && mind_2 == e {
        false
    } else if key[0] == 'M' {
        mind_2.1 == Gender::Male
    } else if key[0] == 'F' {
        mind_2.1 == Gender::Female
    } else {
        false
    }
}

pub open spec fn named_view<'a>(m: ((&'a str, &'a str), &'a Gender)) -> NamedView {
    ((m.0.0@, m.0.1@), *m.1)
}

fn same_person<'a>(a: ((&'a str, &'a str), &'a Gender), b: ((&'a str, &'a str), &'a Gender)) -> (r:
    bool)
    ensures
        r == (named_view(a) == named_view(b)),
{
    let a0 = chars_of(a.0.0);
    let b0 = chars_of(b.0.0);
    let a1 = chars_of(a.0.1);
    let b1 = chars_of(b.0.1);
    eq_chars(&a0, &b0) && eq_chars(&a1, &b1) && *a.1 == *b.1
}

/// The person a key of a format speaks of (see [`keyed_second`]). The key
/// must not be empty.
pub fn fetch_keyed_parent<'a>(
    mind_1: ((&'a str, &'a str), &'a Gender),
    mind_2: ((&'a str, &'a str), &'a Gender),
    key: &str,
    exclude: Option<((&'a str, &'a str), &'a Gender)>,
) -> (r: ((&'a str, &'a str), &'a Gender))
    requires
        key@.len() > 0,
    ensures
        r == (if keyed_second(
            named_view(mind_1),
            named_view(mind_2),
            key@,
            match exclude {
                Some(e) => Some(named_view(e)),
                None => None,
            },
        ) {
            mind_2
        } else {
            mind_1
        }),
{
    let gender_token = key.get_char(0);
    match exclude {
        Some(e) => {
            if same_person(mind_1, e) {
                return mind_2;
            } else if same_person(mind_2, e) {
                return mind_1;
            }
        },
        None => {},
    }
    if gender_token == 'M' {
        if *mind_2.1 == Gender::Male {
            mind_2
        } else {
            mind_1
        }
    } else if gender_token == 'F' {
        if *mind_2.1 == Gender::Female {
            mind_2
        } else {
            mind_1
        }
    } else {
        mind_1
    }
}

/// The name a key asks of a person: the first name, cut at its first
/// joiner, when the key ends in `F`; otherwise the last name, cut likewise.
pub open spec fn keyed_name(mind: NamedView, key: Seq<char>) -> Seq<char> {
    if key.last() == 'F' {
        clean(mind.0.0)
    } else {
        clean(mind.0.1)
    }
}

/// The name a key asks of a person (see [`keyed_name`]). The key must not
/// be empty.
pub fn fetch_keyed_name<'a>(mind_1: ((&'a str, &'a str), &Gender), key: &str) -> (r: &'a str)
    requires
        key@.len() > 0,
    ensures
        r@ == keyed_name(((mind_1.0.0@, mind_1.0.1@), *mind_1.1), key@),
{
    let name_token = key.get_char(key.unicode_len() - 1);
    if name_token == 'F' {
        clean_name(mind_1.0.0)
    } else {
        clean_name(mind_1.0.1)
    }
}

/// A full-name format filled in for two people: each block gives its text
/// before the key, the name the key asks of the person it speaks of, and
/// its text after the key; each key after the first speaks of the other
/// person than the key before it, where it can.
pub open spec fn render_name_blocks(
    bs: Seq<Block>,
    mind_1: NamedView,
    mind_2: NamedView,
    last: Option<NamedView>,
) -> Seq<char>
    decreases bs.len(),
{
    if bs.len() == 0 {
        Seq::empty()
    } else {
        let b = bs[0];
        let parent = if keyed_second(mind_1, mind_2, b.key, last) {
            mind_2
        } else {
            mind_1
        };
        b.prefix + keyed_name(parent, b.key) + b.suffix + render_name_blocks(
            bs.drop_first(),
            mind_1,
            mind_2,
            Some(parent),
        )
    }
}

/// What a naming format reads of a citizen.
pub open spec fn mind_named_view(m: Mind) -> NamedView {
    ((m.first_name@, m.last_name@), m.gender)
}

/// A full-name format, such as `{{ML}}-{{FL}}`, filled in for two people
/// (see [`render_name_blocks`]).
pub open spec fn name_format_spec(format: Seq<char>, mind_1: Mind, mind_2: Mind) -> Seq<char> {
    render_name_blocks(
        blocks(format, FormatAlphabet::Names),
        mind_named_view(mind_1),
        mind_named_view(mind_2),
        None,
    )
}

/// Fills in a full-name format for two people (see [`name_format_spec`]).
pub fn parse_name_format(format: &str, mind_1: &Mind, mind_2: &Mind) -> (r: String)
    ensures
        r@ == name_format_spec(format@, *mind_1, *mind_2),
{
    let chars = chars_of(format);
    let bs = find_blocks(&chars, FormatAlphabet::Names);
    let ghost all = blocks(format@, FormatAlphabet::Names);
    let m1 = ((mind_1.first_name.as_str(), mind_1.last_name.as_str()), &mind_1.gender);
    let m2 = ((mind_2.first_name.as_str(), mind_2.last_name.as_str()), &mind_2.gender);
    let mut last_mind: Option<((&str, &str), &Gender)> = None;
    let mut output: Vec<char> = Vec::new();
    let mut i: usize = 0;
    assert(all.subrange(0, all.len() as int) =~= all);
    assert(output@ + name_format_spec(format@, *mind_1, *mind_2) =~= name_format_spec(format@, *mind_1, *mind_2));
    while i < bs.len()
        invariant
            i <= bs.len(),
            crate::name_formats::block_views(bs@) == all,
            all == blocks(format@, FormatAlphabet::Names),
            all.len() == bs.len(),
            named_view(m1) == mind_named_view(*mind_1),
            named_view(m2) == mind_named_view(*mind_2),
            name_format_spec(format@, *mind_1, *mind_2) == output@ + render_name_blocks(
                all.subrange(i as int, all.len() as int),
                named_view(m1),
                named_view(m2),
                match last_mind {
                    Some(e) => Some(named_view(e)),
                    None => None,
                },
            ),
        decreases bs.len() - i,
    {
        let ghost rest = all.subrange(i as int, all.len() as int);
        assert(rest.drop_first() =~= all.subrange(i + 1, all.len() as int));
        assert(rest[0] == bs@[i as int]@);
        let b = &bs[i];
        let key = crate::text::string_of(&b.key);
        proof {
            assert(all[i as int].key.len() > 0) by {
                crate::name_formats::lemma_block_keys(format@, FormatAlphabet::Names, 0, i as int);
            }
        }
        let parent = fetch_keyed_parent(m1, m2, key.as_str(), last_mind);
        let name = fetch_keyed_name(parent, key.as_str());
        let ghost before = output@;
        push_all(&mut output, &b.prefix);
        let name_chars = chars_of(name);
        push_all(&mut output, &name_chars);
        push_all(&mut output, &b.suffix);
        last_mind = Some(parent);
        i = i + 1;
        assert(before + (rest[0].prefix + keyed_name(named_view(parent), rest[0].key)
            + rest[0].suffix + render_name_blocks(
            rest.drop_first(),
            named_view(m1),
            named_view(m2),
            Some(named_view(parent)),
        )) =~= output@ + render_name_blocks(
            rest.drop_first(),
            named_view(m1),
            named_view(m2),
            Some(named_view(parent)),
        ));
    }
    assert(all.subrange(bs.len() as int, all.len() as int) =~= Seq::<Block>::empty());
    assert(output@ + Seq::<char>::empty() =~= output@);
    crate::text::string_of(&output)
}

} // verus!

verus! {

/// The groups a first name is drawn from: `First Name`, the gender's group
/// (`Male Gender`, `Female Gender`) unless it is ambiguous, and the era
/// when there is one.
pub open spec fn first_name_groups(gender: Gender, era: Option<Seq<char>>) -> Seq<Seq<char>> {
    let base = match gender {
        Gender::Male => seq!["First Name"@, "Male Gender"@],
        Gender::Female => seq!["First Name"@, "Female Gender"@],
        Gender::Ambiguous => seq!["First Name"@],
    };
    match era {
        Some(e) => base.push(e),
        None => base,
    }
}

/// The groups a last name is drawn from: `Last Name`, and the era when
/// there is one.
pub open spec fn last_name_groups(era: Option<Seq<char>>) -> Seq<Seq<char>> {
    match era {
        Some(e) => seq!["Last Name"@, e],
        None => seq!["Last Name"@],
    }
}

/// The dictionary has names in the groups (see [`noun_query_ok`]).
pub open spec fn names_ready(d: Dictionary, groups: Seq<Seq<char>>) -> bool {
    noun_query_ok(d, groups, LogicalOperator::AND) && combined(d.noun_groups@, groups, LogicalOperator::AND).len() > 0
}

/// `s` is the base of a noun filed under every one of the groups.
pub open spec fn noun_base_in(d: Dictionary, groups: Seq<Seq<char>>, s: Seq<char>) -> bool {
    exists|i: int|
        0 <= i < d.nouns@.len() && combined(d.noun_groups@, groups, LogicalOperator::AND).contains(
            (#[trigger] d.nouns@[i]).id,
        ) && d.nouns@[i].base@ == s
}

fn groups_vec(first: &str, second: Option<&str>, era: &Option<String>) -> (r: Vec<String>)
    ensures
        views_of_strings(r@) == (match second {
            Some(s) => seq![first@, s@],
            None => seq![first@],
        }) + (match era {
            Some(e) => seq![e@],
            None => Seq::empty(),
        }),
{
    let mut v: Vec<String> = Vec::new();
    v.push(String::from_str(first));
    match second {
        Some(s) => {
            v.push(String::from_str(s));
        },
        None => {},
    }
    match era {
        Some(e) => {
            v.push(e.clone());
        },
        None => {},
    }
    proof {
        let head: Seq<Seq<char>> = match second {
            Some(s) => seq![first@, s@],
            None => seq![first@],
        };
        let tail: Seq<Seq<char>> = match era {
            Some(e) => seq![e@],
            None => Seq::empty(),
        };
        assert(views_of_strings(v@) =~= head + tail);
    }
    v
}

/// A first and a last name drawn from the group dictionary (see
/// [`first_name_groups`], [`last_name_groups`]).
pub fn name(dict: &Dictionary, gender: &Gender, era: Option<String>) -> (r: (String, String))
    requires
        names_ready(*dict, first_name_groups(*gender, opt_view(era))),
        names_ready(*dict, last_name_groups(opt_view(era))),
    ensures
        noun_base_in(*dict, first_name_groups(*gender, opt_view(era)), r.0@),
        noun_base_in(*dict, last_name_groups(opt_view(era)), r.1@),
{
    proof {
        reveal_strlit("First Name");
        reveal_strlit("Last Name");
        reveal_strlit("Male Gender");
        reveal_strlit("Female Gender");
    }
    let second = match gender {
        Gender::Male => Some("Male Gender"),
        Gender::Female => Some("Female Gender"),
        Gender::Ambiguous => None,
    };
    let first_tags = groups_vec("First Name", second, &era);
    let last_tags = groups_vec("Last Name", None, &era);
    assert(views_of_strings(first_tags@) =~= first_name_groups(*gender, opt_view(era)));
    assert(views_of_strings(last_tags@) =~= last_name_groups(opt_view(era)));
    let first = dict.pick_noun_with_groups(first_tags);
    let last = dict.pick_noun_with_groups(last_tags);
    proof {
        crate::language2::lemma_noun_at(dict.nouns@, first.id);
        crate::language2::lemma_noun_at(dict.nouns@, last.id);
    }
    (first.base.clone(), last.base.clone())
}


/// The noun at index `i` is filed under the group `g`.
pub open spec fn filed_under(d: Dictionary, i: int, g: Seq<char>) -> bool {
    group_members(d.noun_groups@, g).contains(d.nouns@[i].id)
}

/// What every group of a query holds, the query's ids are filed under.
proof fn lemma_combined_and(idx: Seq<(String, Vec<Id>)>, groups: Seq<Seq<char>>, x: Id)
    requires
        combined(idx, groups, LogicalOperator::AND).contains(x),
    ensures
        forall|g: int| 0 <= g < groups.len() ==> group_members(idx, #[trigger] groups[g]).contains(x),
    decreases groups.len(),
{
    if groups.len() > 1 {
        lemma_combined_and(idx, groups.drop_last(), x);
        assert forall|g: int| 0 <= g < groups.len() implies group_members(idx, #[trigger] groups[g]).contains(x) by {
            if g < groups.len() - 1 {
                assert(groups.drop_last()[g] == groups[g]);
            }
        }
    }
}

/// The names [`name`] draws: the first name is the base of a noun filed
/// under `First Name`, under `Male Gender` for a man and `Female Gender` for
/// a woman, and under the era when one is given; the last name is the base
/// of a noun filed under `Last Name` and under the era when one is given.
pub proof fn lemma_name_groups(d: Dictionary, gender: Gender, era: Option<Seq<char>>, first: Seq<char>, last: Seq<char>)
    requires
        noun_base_in(d, first_name_groups(gender, era), first),
        noun_base_in(d, last_name_groups(era), last),
    ensures
        exists|i: int|
            0 <= i < d.nouns@.len() && (#[trigger] d.nouns@[i]).base@ == first && filed_under(d, i, "First Name"@)
                && (gender == Gender::Male ==> filed_under(d, i, "Male Gender"@)) && (gender == Gender::Female
                ==> filed_under(d, i, "Female Gender"@)) && (era matches Some(e) ==> filed_under(d, i, e)),
        exists|i: int|
            0 <= i < d.nouns@.len() && (#[trigger] d.nouns@[i]).base@ == last && filed_under(d, i, "Last Name"@) && (
            era matches Some(e) ==> filed_under(d, i, e)),
{
    let fg = first_name_groups(gender, era);
    let lg = last_name_groups(era);
    let i = choose|i: int|
        0 <= i < d.nouns@.len() && combined(d.noun_groups@, fg, LogicalOperator::AND).contains(
            (#[trigger] d.nouns@[i]).id,
        ) && d.nouns@[i].base@ == first;
    lemma_combined_and(d.noun_groups@, fg, d.nouns@[i].id);
    assert(group_members(d.noun_groups@, fg[0]).contains(d.nouns@[i].id));
    if gender != Gender::Ambiguous {
        assert(group_members(d.noun_groups@, fg[1]).contains(d.nouns@[i].id));
    }
    if era is Some {
        assert(group_members(d.noun_groups@, fg[fg.len() - 1]).contains(d.nouns@[i].id));
    }
    let l = choose|l: int|
        0 <= l < d.nouns@.len() && combined(d.noun_groups@, lg, LogicalOperator::AND).contains(
            (#[trigger] d.nouns@[l]).id,
        ) && d.nouns@[l].base@ == last;
    lemma_combined_and(d.noun_groups@, lg, d.nouns@[l].id);
    assert(group_members(d.noun_groups@, lg[0]).contains(d.nouns@[l].id));
    if era is Some {
        assert(group_members(d.noun_groups@, lg[lg.len() - 1]).contains(d.nouns@[l].id));
    }
}

} // verus!
