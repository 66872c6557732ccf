//! Family names of couples and children, made from the culture's naming
//! formats such as `{{ML}}-{{FL}}` or `{{MF}}sson`.
use crate::city::population::mind::{Gender, Mind};
use crate::culture::{format_views, CultureConfig};
use crate::name_formats::{blocks, find_blocks, Block, FormatAlphabet};
use crate::random::{below_drawn, lemma_below_drawn, lemma_ratio_drawn, random_below, random_ratio, ratio_drawn};
use crate::text::{chars_of, push_all, split, split_chars, string_of, views};
use vstd::prelude::*;

verus! {

/// What a family-name format reads of a person: first name, last name and
/// gender.
pub type PartnerView = (Seq<char>, Seq<char>, Gender);

/// Which of two partners a format treats as the man: the first if male,
/// else the second if male, else the second if the first is female, else
/// the first. `true` means the first.
pub open spec fn first_is_man(partner_1: PartnerView, partner_2: PartnerView) -> bool {
    if partner_1.2 == Gender::Male {
        true
    } else if partner_2.2 == Gender::Male {
        false
    } else if partner_1.2 == Gender::Female {
        false
    } else {
        true
    }
}

/// The part of a family name before its first `-`.
pub open spec fn first_barrel(s: Seq<char>) -> Seq<char> {
    split(s, '-')[0]
}

/// The text a key stands for, given the man `m` and the woman `f`: `ML`
/// and `FL` the first part of their family names, `MF` and `FF` their first
/// names, any other key nothing.
pub open spec fn family_key_value(key: Seq<char>, m: PartnerView, f: PartnerView) -> Seq<char> {
    if key == seq!['M', 'L'] {
        first_barrel(m.1)
    } else if key == seq!['M', 'F'] {
        m.0
    } else if key == seq!['F', 'L'] {
        first_barrel(f.1)
    } else if key == seq!['F', 'F'] {
        f.0
    } else {
        Seq::empty()
    }
}

/// A format filled in block by block.
pub open spec fn render_family_blocks(bs: Seq<Block>, m: PartnerView, f: PartnerView) -> Seq<char>
    decreases bs.len(),
{
    if bs.len() == 0 {
        Seq::empty()
    } else {
        bs[0].prefix + family_key_value(bs[0].key, m, f) + bs[0].suffix + render_family_blocks(
            bs.drop_first(),
            m,
            f,
        )
    }
}

/// A family-name format filled in for two partners: the blocks of the
/// format, each giving its text before the key, what the key stands for,
/// and its text after the key.
pub open spec fn family_format_spec(
    format: Seq<char>,
    partner_1: PartnerView,
    partner_2: PartnerView,
) -> Seq<char> {
    let (m, f) = if first_is_man(partner_1, partner_2) {
        (partner_1, partner_2)
    } else {
        (partner_2, partner_1)
    };
    render_family_blocks(blocks(format, FormatAlphabet::Family), m, f)
}

pub open spec fn partner_view(p: (&str, &str, &Gender)) -> PartnerView {
    (p.0@, p.1@, *p.2)
}

fn first_barrel_exec(s: &str) -> (r: Vec<char>)
    ensures
        r@ == first_barrel(s@),
{
    let chars = chars_of(s);
    let pieces = split_chars(&chars, '-');
    proof {
        crate::text::lemma_split_nonempty(chars@, '-');
    }
    assert(views(pieces@)[0] == pieces@[0]@);
    crate::text::sub_chars(&pieces[0], 0, pieces[0].len())
}

fn eq_key(key: &Vec<char>, a: char, b: char) -> (r: bool)
    ensures
        r == (key@ == seq![a, b]),
{
    let r = key.len() == 2 && key[0] == a && key[1] == b;
    proof {
        if r {
            assert(key@ =~= seq![a, b]);
        }
    }
    r
}

/// Fills in a family-name format for two partners (see
/// [`family_format_spec`]).
pub fn parse_format(format: &str, partner_1: (&str, &str, &Gender), partner_2: (&str, &str, &Gender)) -> (r:
    String)
    ensures
        r@ == family_format_spec(format@, partner_view(partner_1), partner_view(partner_2)),
{
    let chars = chars_of(format);
    let bs = find_blocks(&chars, FormatAlphabet::Family);
    let ghost all = blocks(format@, FormatAlphabet::Family);
    let (m, f) = if *partner_1.2 == Gender::Male {
        (partner_1, partner_2)
    } else if *partner_2.2 == Gender::Male {
        (partner_2, partner_1)
    } else if *partner_1.2 == Gender::Female {
        (partner_2, partner_1)
    } else {
        (partner_1, partner_2)
    };
    let m_last = first_barrel_exec(m.1);
    let f_last = first_barrel_exec(f.1);
    let m_first = chars_of(m.0);
    let f_first = chars_of(f.0);
    let mut output: Vec<char> = Vec::new();
    let mut i: usize = 0;
    assert(all.subrange(0, all.len() as int) =~= all);
    assert(output@ + family_format_spec(format@, partner_view(partner_1), partner_view(partner_2))
        =~= family_format_spec(format@, partner_view(partner_1), partner_view(partner_2)));
    while i < bs.len()
        invariant
            i <= bs.len(),
            crate::name_formats::block_views(bs@) == all,
            all == blocks(format@, FormatAlphabet::Family),
            all.len() == bs.len(),
            m_last@ == first_barrel(m.1@),
            f_last@ == first_barrel(f.1@),
            m_first@ == m.0@,
            f_first@ == f.0@,
            family_format_spec(format@, partner_view(partner_1), partner_view(partner_2))
                == output@ + render_family_blocks(
                all.subrange(i as int, all.len() as int),
                partner_view(m),
                partner_view(f),
            ),
        decreases bs.len() - i,
    {
        let ghost rest = all.subrange(i as int, all.len() as int);
        assert(rest.drop_first() =~= all.subrange(i + 1, all.len() as int));
        assert(rest[0] == bs@[i as int]@);
        let b = &bs[i];
        let ghost before = output@;
        push_all(&mut output, &b.prefix);
        if eq_key(&b.key, 'M', 'L') {
            push_all(&mut output, &m_last);
        } else if eq_key(&b.key, 'M', 'F') {
            push_all(&mut output, &m_first);
        } else if eq_key(&b.key, 'F', 'L') {
            push_all(&mut output, &f_last);
        } else if eq_key(&b.key, 'F', 'F') {
            push_all(&mut output, &f_first);
        }
        push_all(&mut output, &b.suffix);
        i = i + 1;
        assert(before + (rest[0].prefix + family_key_value(
            rest[0].key,
            partner_view(m),
            partner_view(f),
        ) + rest[0].suffix + render_family_blocks(
            rest.drop_first(),
            partner_view(m),
            partner_view(f),
        )) =~= output@ + render_family_blocks(
            rest.drop_first(),
            partner_view(m),
            partner_view(f),
        ));
    }
    assert(all.subrange(bs.len() as int, all.len() as int) =~= Seq::<Block>::empty());
    assert(output@ + Seq::<char>::empty() =~= output@);
    string_of(&output)
}

pub open spec fn mind_partner_view(m: Mind) -> PartnerView {
    (m.first_name@, m.last_name@, m.gender)
}

/// The family names a couple takes: one of the culture's naming formats,
/// drawn at random, gives the first partner's name by its first entry and
/// the second partner's by its second. The culture must have a format.
pub fn get_new_couple_last_names(partner_m: &Mind, partner_f: &Mind, culture: &CultureConfig) -> (r:
    (String, String))
    requires
        culture.parental_naming_formats.len() > 0,
    ensures
        exists|i: int|
            0 <= i < culture.parental_naming_formats.len() && below_drawn(
                culture.parental_naming_formats.len(),
                i as usize,
            ) && r.0@ == family_format_spec(
                (#[trigger] format_views(culture.parental_naming_formats@)[i]).0,
                mind_partner_view(*partner_m),
                mind_partner_view(*partner_f),
            ) && r.1@ == family_format_spec(
                format_views(culture.parental_naming_formats@)[i].1,
                mind_partner_view(*partner_m),
                mind_partner_view(*partner_f),
            ),
{
    let i = random_below(culture.parental_naming_formats.len());
    proof {
        lemma_below_drawn(culture.parental_naming_formats.len(), i);
    }
    let format = &culture.parental_naming_formats[i];
    let p1 = (partner_m.first_name.as_str(), partner_m.last_name.as_str(), &partner_m.gender);
    let p2 = (partner_f.first_name.as_str(), partner_f.last_name.as_str(), &partner_f.gender);
    let a = parse_format(format.0.as_str(), p1, p2);
    let b = parse_format(format.1.as_str(), p1, p2);
    assert(format_views(culture.parental_naming_formats@)[i as int].0 == format.0@);
    (a, b)
}

/// A child's family name: one of the culture's naming formats, drawn at
/// random, gives it by its son's entry for a boy, its daughter's entry for
/// a girl, and either, at random, otherwise. The culture must have a format.
pub fn get_child_last_name(
    gender: &Gender,
    partner_m: &Mind,
    partner_f: &Mind,
    culture: &CultureConfig,
) -> (r: String)
    requires
        culture.parental_naming_formats.len() > 0,
    ensures
        exists|i: int|
            0 <= i < culture.parental_naming_formats.len() && below_drawn(
                culture.parental_naming_formats.len(),
                i as usize,
            ) && {
                let fv = #[trigger] format_views(culture.parental_naming_formats@)[i];
                let son = family_format_spec(
                    fv.2,
                    mind_partner_view(*partner_m),
                    mind_partner_view(*partner_f),
                );
                let daughter = family_format_spec(
                    fv.3,
                    mind_partner_view(*partner_m),
                    mind_partner_view(*partner_f),
                );
                &&& *gender == Gender::Male ==> r@ == son
                &&& *gender == Gender::Female ==> r@ == daughter
                &&& r@ == son || r@ == daughter
                &&& *gender == Gender::Ambiguous ==> exists|b: bool|
                    #[trigger] ratio_drawn(1, 2, b) && r@ == (if b {
                        son
                    } else {
                        daughter
                    })
            },
{
    let i = random_below(culture.parental_naming_formats.len());
    proof {
        lemma_below_drawn(culture.parental_naming_formats.len(), i);
    }
    let format = &culture.parental_naming_formats[i];
    let son = random_ratio(1, 2);
    proof {
        lemma_ratio_drawn(1, 2, son);
    }
    let target = if *gender == Gender::Male {
        &format.2
    } else if *gender == Gender::Female {
        &format.3
    } else if son {
        &format.2
    } else {
        &format.3
    };
    let p1 = (partner_m.first_name.as_str(), partner_m.last_name.as_str(), &partner_m.gender);
    let p2 = (partner_f.first_name.as_str(), partner_f.last_name.as_str(), &partner_f.gender);
    let r = parse_format(target.as_str(), p1, p2);
    assert(format_views(culture.parental_naming_formats@)[i as int] == crate::culture::format_view(
        *format,
    ));
    r
}

} // verus!
