//! Templates: text with tags that ask a dictionary for words, and tags that
//! ask a list of names for a name of some kind.
use crate::name_formats::{in_alphabet, in_alphabet_exec, lemma_run_end, lemma_run_start, run_end, run_start, FormatAlphabet};
use crate::language::nouns::NounTag;
use crate::names::{
    def_views, name_tag_of, random_name_definition_filter_tag, some_with_tag, string_match_name_tag,
    NameDefinition, NameTag,
};
use crate::language::{contains_string, random_word_by_tag, tag_selection, word_views, Era, Word, WordType, WordView};
use crate::random::{below_drawn, lemma_below_drawn, random_below};
use crate::text::{
    chars_of, contains_char, eq_chars, lowercase, push_all, split, split_chars, str_views,
    string_of, sub_chars, to_lowercase, trim, trim_chars, trim_end, trim_end_chars, views,
    without_char, without_char_exec,
};
use vstd::prelude::*;

verus! {

/// Where the body of a tag opened at `q` ends: after the run of tag
/// characters from `q + 2`.
pub open spec fn body_end(s: Seq<char>, q: int) -> int {
    run_end(s, FormatAlphabet::Tag, q + 2)
}

/// A tag starts at `q`: `{{`, a run of tag characters, `}}`.
pub open spec fn tag_at(s: Seq<char>, q: int) -> bool {
    &&& 0 <= q
    &&& q + 2 <= s.len()
    &&& s[q] == '{'
    &&& s[q + 1] == '{'
    &&& body_end(s, q) + 2 <= s.len()
    &&& s[body_end(s, q)] == '}'
    &&& s[body_end(s, q) + 1] == '}'
}

/// The first place from `q` on where a tag starts.
pub open spec fn next_tag(s: Seq<char>, q: int) -> Option<int>
    decreases s.len() - q,
{
    if q < 0 || q >= s.len() {
        None
    } else if tag_at(s, q) {
        Some(q)
    } else {
        next_tag(s, q + 1)
    }
}

pub proof fn lemma_next_tag(s: Seq<char>, q: int)
    requires
        0 <= q,
    ensures
        next_tag(s, q) matches Some(k) ==> q <= k && tag_at(s, k),
        next_tag(s, q) is None ==> forall|j: int| q <= j < s.len() ==> !tag_at(s, j),
    decreases s.len() - q,
{
    if 0 <= q < s.len() && !tag_at(s, q) {
        lemma_next_tag(s, q + 1);
    }
}

/// A piece of a template: the text before a tag, and the tag's body.
pub struct Term {
    pub prefix: Seq<char>,
    pub body: Seq<char>,
}

/// The pieces of `s` from `p` on, as a search for text before a tag (letters,
/// digits, space, `-`, `:` and `'`) followed by a tag finds them, leftmost
/// first and each after the one before.
pub open spec fn terms_from(s: Seq<char>, p: int) -> Seq<Term>
    decreases s.len() - p,
{
    if p < 0 {
        Seq::empty()
    } else {
        match next_tag(s, p) {
            None => Seq::empty(),
            Some(q) => {
                proof {
                    lemma_next_tag(s, p);
                    lemma_run_end(s, FormatAlphabet::Tag, q + 2);
                }
                let f = body_end(s, q);
                seq![
                    Term {
                        prefix: s.subrange(run_start(s, FormatAlphabet::Family, p, q), q),
                        body: s.subrange(q + 2, f),
                    },
                ] + terms_from(s, f + 2)
            },
        }
    }
}

/// The pieces of a template (see [`terms_from`]).
pub open spec fn terms(s: Seq<char>) -> Seq<Term> {
    terms_from(s, 0)
}

/// The views of found pieces.
pub open spec fn term_views(v: Seq<(Vec<char>, Vec<char>)>) -> Seq<Term> {
    v.map_values(|t: (Vec<char>, Vec<char>)| Term { prefix: t.0@, body: t.1@ })
}

fn tag_at_exec(s: &Vec<char>, q: usize) -> (r: Option<usize>)
    ensures
        r matches Some(f) ==> tag_at(s@, q as int) && f == body_end(s@, q as int),
        r is None ==> !tag_at(s@, q as int),
{
    if q >= s.len() || s.len() - q < 2 {
        return None;
    }
    if s[q] != '{' || s[q + 1] != '{' {
        return None;
    }
    let mut f: usize = q + 2;
    proof {
        lemma_run_end(s@, FormatAlphabet::Tag, q + 2);
    }
    while f < s.len() && in_alphabet_exec(FormatAlphabet::Tag, s[f])
        invariant
            q + 2 <= f <= s.len(),
            run_end(s@, FormatAlphabet::Tag, q + 2) == run_end(s@, FormatAlphabet::Tag, f as int),
        decreases s.len() - f,
    {
        f = f + 1;
    }
    if s.len() - f < 2 {
        return None;
    }
    if s[f] != '}' || s[f + 1] != '}' {
        return None;
    }
    Some(f)
}

/// The pieces of a template (see [`terms`]), as text before the tag and the
/// tag's body.
pub fn find_terms(s: &Vec<char>) -> (r: Vec<(Vec<char>, Vec<char>)>)
    ensures
        term_views(r@) == terms(s@),
{
    let mut out: Vec<(Vec<char>, Vec<char>)> = Vec::new();
    let mut p: usize = 0;
    assert(term_views(out@) + terms_from(s@, 0) =~= terms(s@));
    while p < s.len()
        invariant
            p <= s.len(),
            terms(s@) == term_views(out@) + terms_from(s@, p as int),
        decreases s.len() - p,
    {
        let mut q: usize = p;
        let mut found: Option<usize> = None;
        while found.is_none() && q < s.len()
            invariant
                p <= q <= s.len(),
                found is None ==> next_tag(s@, p as int) == next_tag(s@, q as int),
                found matches Some(f) ==> q < s.len() && tag_at(s@, q as int) && f == body_end(
                    s@,
                    q as int,
                ) && next_tag(s@, p as int) == Some(q as int),
            decreases s.len() - q, if found is None { 1int } else { 0int },
        {
            match tag_at_exec(s, q) {
                Some(f) => {
                    found = Some(f);
                },
                None => {
                    q = q + 1;
                },
            }
        }
        match found {
            None => {
                assert(next_tag(s@, q as int) is None);
                assert(terms_from(s@, p as int) =~= Seq::<Term>::empty());
                assert(term_views(out@) + Seq::<Term>::empty() =~= term_views(out@));
                return out;
            },
            Some(f) => {
                proof {
                    lemma_next_tag(s@, p as int);
                    lemma_run_end(s@, FormatAlphabet::Tag, q + 2);
                }
                let mut a: usize = q;
                while a > p && in_alphabet_exec(FormatAlphabet::Family, s[a - 1])
                    invariant
                        p <= a <= q < s.len(),
                        run_start(s@, FormatAlphabet::Family, p as int, q as int) == run_start(
                            s@,
                            FormatAlphabet::Family,
                            p as int,
                            a as int,
                        ),
                    decreases a,
                {
                    a = a - 1;
                }
                let prefix = sub_chars(s, a, q);
                let body = sub_chars(s, q + 2, f);
                let t = (prefix, body);
                let ghost prev = term_views(out@);
                let ghost tv = Term { prefix: t.0@, body: t.1@ };
                out.push(t);
                assert(term_views(out@) =~= prev.push(tv));
                assert(terms_from(s@, p as int) =~= seq![tv] + terms_from(s@, f + 2));
                assert(term_views(out@) + terms_from(s@, f + 2) =~= prev + terms_from(s@, p as int));
                p = f + 2;
            },
        }
    }
    assert(terms_from(s@, p as int) =~= Seq::<Term>::empty());
    assert(term_views(out@) + Seq::<Term>::empty() =~= term_views(out@));
    out
}

} // verus!

verus! {

/// A tag's body without `)`, cut at each `(`: the word type, then the list
/// of tags asked for.
pub open spec fn tag_pieces(body: Seq<char>) -> Seq<Seq<char>> {
    split(without_char(body, ')'), '(')
}

/// The word type a tag names.
pub open spec fn word_type_named(t: Seq<char>) -> Option<WordType> {
    if t == WordType::Noun.label() {
        Some(WordType::Noun)
    } else if t == WordType::Adjective.label() {
        Some(WordType::Adjective)
    } else if t == WordType::Verb.label() {
        Some(WordType::Verb)
    } else {
        None
    }
}

/// The tags a tag's body asks for, cut at each `,`.
pub open spec fn tag_args(body: Seq<char>) -> Seq<Seq<char>> {
    split(tag_pieces(body)[1], ',')
}

/// The tags marked with `!`: all of them are required; each without its
/// `!` and trimmed.
pub open spec fn required_tags(args: Seq<Seq<char>>) -> Seq<Seq<char>>
    decreases args.len(),
{
    if args.len() == 0 {
        Seq::empty()
    } else if args.last().contains('!') {
        required_tags(args.drop_last()).push(trim(without_char(args.last(), '!')))
    } else {
        required_tags(args.drop_last())
    }
}

/// The tags not marked with `!`, as written: one of them is wanted.
pub open spec fn optional_tags(args: Seq<Seq<char>>) -> Seq<Seq<char>>
    decreases args.len(),
{
    if args.len() == 0 {
        Seq::empty()
    } else if args.last().contains('!') {
        optional_tags(args.drop_last())
    } else {
        optional_tags(args.drop_last()).push(args.last())
    }
}

/// A tag's body names a word type and has a list of tags.
pub open spec fn tag_ok(body: Seq<char>) -> bool {
    tag_pieces(body).len() >= 2 && word_type_named(tag_pieces(body)[0]) is Some
}

/// The words a tag may be filled with (see [`tag_selection`]).
pub open spec fn tag_words(dict: Seq<WordView>, era: Option<Era>, body: Seq<char>) -> Seq<WordView> {
    tag_selection(
        dict,
        word_type_named(tag_pieces(body)[0]).unwrap(),
        required_tags(tag_args(body)),
        optional_tags(tag_args(body)),
        Seq::empty(),
        era,
    )
}

/// `w` can fill the tag: none when the tag is not well formed or no word
/// fits, else one that fits.
pub open spec fn word_fits(dict: Seq<WordView>, era: Option<Era>, body: Seq<char>, w: Option<WordView>) -> bool {
    if !tag_ok(body) {
        w is None
    } else {
        match w {
            None => tag_words(dict, era, body).len() == 0,
            Some(x) => tag_words(dict, era, body).contains(x),
        }
    }
}

/// The pieces filled with the words `ws`: each piece's text, then its
/// word's text trimmed; a suffix (a word tagged suffixable) is joined to the
/// text before it, in lower case.
pub open spec fn rendered(ts: Seq<Term>, ws: Seq<Option<WordView>>) -> Seq<char>
    decreases ts.len(),
{
    if ts.len() == 0 || ws.len() == 0 {
        Seq::empty()
    } else {
        let out = rendered(ts.drop_last(), ws.drop_last()) + ts.last().prefix;
        match ws.last() {
            None => out,
            Some(w) => if w.tags.contains(NounTag::Suffixable.label()) {
                trim_end(out) + lowercase(trim(w.text))
            } else {
                out + trim(w.text)
            },
        }
    }
}

fn word_type_named_exec(t: &Vec<char>) -> (r: Option<WordType>)
    ensures
        r == word_type_named(t@),
{
    let noun = chars_of("Noun");
    let adjective = chars_of("Adjective");
    let verb = chars_of("Verb");
    proof {
        reveal_strlit("Noun");
        reveal_strlit("Adjective");
        reveal_strlit("Verb");
    }
    if eq_chars(t, &noun) {
        Some(WordType::Noun)
    } else if eq_chars(t, &adjective) {
        Some(WordType::Adjective)
    } else if eq_chars(t, &verb) {
        Some(WordType::Verb)
    } else {
        None
    }
}

fn split_tags(args: &Vec<Vec<char>>) -> (r: (Vec<String>, Vec<String>))
    ensures
        str_views(r.0@) == required_tags(views(args@)),
        str_views(r.1@) == optional_tags(views(args@)),
{
    let mut required: Vec<String> = Vec::new();
    let mut optional: Vec<String> = Vec::new();
    let mut i: usize = 0;
    while i < args.len()
        invariant
            i <= args.len(),
            str_views(required@) == required_tags(views(args@).take(i as int)),
            str_views(optional@) == optional_tags(views(args@).take(i as int)),
        decreases args.len() - i,
    {
        let ghost vs = views(args@).take(i + 1);
        assert(vs.drop_last() =~= views(args@).take(i as int));
        assert(vs.last() == args@[i as int]@);
        let a = &args[i];
        if contains_char(a, '!') {
            let cleaned = without_char_exec(a, '!');
            let t = trim_chars(&cleaned);
            let ghost prev = str_views(required@);
            required.push(string_of(&t));
            assert(str_views(required@) =~= prev.push(t@));
        } else {
            let ghost prev = str_views(optional@);
            optional.push(string_of(a));
            assert(str_views(optional@) =~= prev.push(a@));
        }
        i = i + 1;
    }
    assert(views(args@).take(args.len() as int) =~= views(args@));
    (required, optional)
}

/// `r` is a rendering of `template` (see [`rendered`]): words `ws`, one for
/// each piece, each fitting its tag (see [`word_fits`]), fill it, and the
/// whole is trimmed.
pub open spec fn renders(dict: Seq<WordView>, era: Option<Era>, template: Seq<char>, r: Seq<char>) -> bool {
    exists|ws: Seq<Option<WordView>>|
        #![trigger rendered(terms(template), ws)]
        ws.len() == terms(template).len() && (forall|i: int|
            0 <= i < ws.len() ==> word_fits(dict, era, terms(template)[i].body, #[trigger] ws[i]))
            && r == trim(rendered(terms(template), ws))
}

/// Fills a template's tags with words of the dictionary: each tag
/// `{{Type(tags)}}` asks for a word of that type with every tag marked `!`
/// and some other tag (see [`tag_words`]), drawn at random; the pieces are
/// joined as [`rendered`] says, and the whole trimmed. A tag that is not
/// well formed (see [`tag_ok`]) is passed over, leaving the text before it.
pub fn render_template_2(template: &str, dictionary: &Vec<Word>, era: &Option<Era>) -> (r: String)
    ensures
        renders(word_views(dictionary@), *era, template@, r@),
{
    let s = chars_of(template);
    let ts = find_terms(&s);
    let ghost tv = term_views(ts@);
    let suffix_tag = NounTag::Suffixable.to_string();
    let mut out: Vec<char> = Vec::new();
    let ghost mut ws: Seq<Option<WordView>> = Seq::empty();
    let mut i: usize = 0;
    while i < ts.len()
        invariant
            i <= ts.len(),
            tv == term_views(ts@),
            tv == terms(template@),
            suffix_tag@ == NounTag::Suffixable.label(),
            ws.len() == i,
            forall|j: int|
                0 <= j < i ==> word_fits(word_views(dictionary@), *era, tv[j].body, #[trigger] ws[j]),
            out@ == rendered(tv.take(i as int), ws),
        decreases ts.len() - i,
    {
        let prefix = &ts[i].0;
        let body = &ts[i].1;
        assert(tv[i as int] == Term { prefix: prefix@, body: body@ });
        let cleaned = without_char_exec(body, ')');
        let pieces = split_chars(&cleaned, '(');
        let mut w: Option<Word> = None;
        if pieces.len() >= 2 {
            assert(views(pieces@)[0] == pieces@[0]@);
            assert(views(pieces@)[1] == pieces@[1]@);
            match word_type_named_exec(&pieces[0]) {
                Some(wt) => {
                    let args = split_chars(&pieces[1], ',');
                    let (required, optional) = split_tags(&args);
                    let none: Vec<String> = Vec::new();
                    assert(str_views(none@) =~= Seq::<Seq<char>>::empty());
                    w = random_word_by_tag(dictionary, wt, &required, &optional, &none, era);
                },
                None => {},
            }
        }
        let ghost prev = out@;
        push_all(&mut out, prefix);
        match &w {
            Some(word) => {
                let text = chars_of(word.text.as_str());
                let t = trim_chars(&text);
                if contains_string(&word.tags, &suffix_tag) {
                    out = trim_end_chars(&out);
                    let lowered = to_lowercase(string_of(&t).as_str());
                    let lc = chars_of(lowered.as_str());
                    push_all(&mut out, &lc);
                } else {
                    push_all(&mut out, &t);
                }
            },
            None => {},
        }
        proof {
            let nw: Option<WordView> = match w {
                Some(word) => Some(word@),
                None => None,
            };
            let nws = ws.push(nw);
            let nt = tv.take(i + 1);
            assert(nws.drop_last() =~= ws);
            assert(nt.drop_last() =~= tv.take(i as int));
            assert(nt.last() == tv[i as int]);
            assert(word_fits(word_views(dictionary@), *era, tv[i as int].body, nw));
            assert(out@ == rendered(nt, nws));
            ws = nws;
        }
        i = i + 1;
    }
    let trimmed = trim_chars(&out);
    proof {
        assert(tv.take(ts.len() as int) =~= tv);
    }
    string_of(&trimmed)
}

} // verus!

verus! {

/// A name tag starts at `q`: `{{`, a run of letters, `}}`.
pub open spec fn name_tag_at(s: Seq<char>, q: int) -> bool {
    let f = run_end(s, FormatAlphabet::Letters, q + 2);
    &&& 0 <= q
    &&& q + 2 <= s.len()
    &&& s[q] == '{'
    &&& s[q + 1] == '{'
    &&& f + 2 <= s.len()
    &&& s[f] == '}'
    &&& s[f + 1] == '}'
}

/// The first place from `q` on where a name tag starts.
pub open spec fn next_name_tag(s: Seq<char>, q: int) -> Option<int>
    decreases s.len() - q,
{
    if q < 0 || q >= s.len() {
        None
    } else if name_tag_at(s, q) {
        Some(q)
    } else {
        next_name_tag(s, q + 1)
    }
}

pub proof fn lemma_next_name_tag(s: Seq<char>, q: int)
    requires
        0 <= q,
    ensures
        next_name_tag(s, q) matches Some(k) ==> q <= k && name_tag_at(s, k),
    decreases s.len() - q,
{
    if 0 <= q < s.len() && !name_tag_at(s, q) {
        lemma_next_name_tag(s, q + 1);
    }
}

/// The words inside the name tags of `s` from `p` on, leftmost first and
/// each after the one before.
pub open spec fn name_tokens_from(s: Seq<char>, p: int) -> Seq<Seq<char>>
    decreases s.len() - p,
{
    if p < 0 {
        Seq::empty()
    } else {
        match next_name_tag(s, p) {
            None => Seq::empty(),
            Some(q) => {
                proof {
                    lemma_next_name_tag(s, p);
                    lemma_run_end(s, FormatAlphabet::Letters, q + 2);
                }
                let f = run_end(s, FormatAlphabet::Letters, q + 2);
                seq![s.subrange(q + 2, f)] + name_tokens_from(s, f + 2)
            },
        }
    }
}

/// The words inside the name tags of a template.
pub open spec fn name_tokens(s: Seq<char>) -> Seq<Seq<char>> {
    name_tokens_from(s, 0)
}

fn name_tag_at_exec(s: &Vec<char>, q: usize) -> (r: Option<usize>)
    ensures
        r matches Some(f) ==> name_tag_at(s@, q as int) && f == run_end(
            s@,
            FormatAlphabet::Letters,
            q + 2,
        ),
        r is None ==> !name_tag_at(s@, q as int),
{
    if q >= s.len() || s.len() - q < 2 {
        return None;
    }
    if s[q] != '{' || s[q + 1] != '{' {
        return None;
    }
    let mut f: usize = q + 2;
    proof {
        lemma_run_end(s@, FormatAlphabet::Letters, q + 2);
    }
    while f < s.len() && in_alphabet_exec(FormatAlphabet::Letters, s[f])
        invariant
            q + 2 <= f <= s.len(),
            run_end(s@, FormatAlphabet::Letters, q + 2) == run_end(
                s@,
                FormatAlphabet::Letters,
                f as int,
            ),
        decreases s.len() - f,
    {
        f = f + 1;
    }
    if s.len() - f < 2 {
        return None;
    }
    if s[f] != '}' || s[f + 1] != '}' {
        return None;
    }
    Some(f)
}

fn find_name_tokens(s: &Vec<char>) -> (r: Vec<Vec<char>>)
    ensures
        views(r@) == name_tokens(s@),
{
    let mut out: Vec<Vec<char>> = Vec::new();
    let mut p: usize = 0;
    assert(views(out@) + name_tokens_from(s@, 0) =~= name_tokens(s@));
    while p < s.len()
        invariant
            p <= s.len(),
            name_tokens(s@) == views(out@) + name_tokens_from(s@, p as int),
        decreases s.len() - p,
    {
        let mut q: usize = p;
        let mut found: Option<usize> = None;
        while found.is_none() && q < s.len()
            invariant
                p <= q <= s.len(),
                found is None ==> next_name_tag(s@, p as int) == next_name_tag(s@, q as int),
                found matches Some(f) ==> q < s.len() && name_tag_at(s@, q as int) && f == run_end(
                    s@,
                    FormatAlphabet::Letters,
                    q + 2,
                ) && next_name_tag(s@, p as int) == Some(q as int),
            decreases s.len() - q, if found is None { 1int } else { 0int },
        {
            match name_tag_at_exec(s, q) {
                Some(f) => {
                    found = Some(f);
                },
                None => {
                    q = q + 1;
                },
            }
        }
        match found {
            None => {
                assert(next_name_tag(s@, q as int) is None);
                assert(name_tokens_from(s@, p as int) =~= Seq::<Seq<char>>::empty());
                assert(views(out@) + Seq::<Seq<char>>::empty() =~= views(out@));
                return out;
            },
            Some(f) => {
                proof {
                    lemma_next_name_tag(s@, p as int);
                    lemma_run_end(s@, FormatAlphabet::Letters, q + 2);
                }
                let token = sub_chars(s, q + 2, f);
                let ghost prev = views(out@);
                let ghost tv = token@;
                out.push(token);
                assert(views(out@) =~= prev.push(tv));
                assert(name_tokens_from(s@, p as int) =~= seq![tv] + name_tokens_from(s@, f + 2));
                assert(views(out@) + name_tokens_from(s@, f + 2) =~= prev + name_tokens_from(s@, p as int));
                p = f + 2;
            },
        }
    }
    assert(name_tokens_from(s@, p as int) =~= Seq::<Seq<char>>::empty());
    assert(views(out@) + Seq::<Seq<char>>::empty() =~= views(out@));
    out
}

/// Every name tag of the template that names a tag (see [`name_tag_of`])
/// has a name of the list carrying it.
pub open spec fn names_available(s: Seq<char>, list: Seq<(Seq<char>, Seq<NameTag>)>) -> bool {
    forall|i: int|
        0 <= i < name_tokens(s).len() ==> (#[trigger] name_tag_of(name_tokens(s)[i]) matches Some(t)
            ==> some_with_tag(list, t))
}

/// The names of a template filled with the names `ns`, one for each name
/// tag; a tag that names no tag gives nothing. Each name is put after a
/// space, but a suffix (a name tagged suffixable) is joined on in lower case.
pub open spec fn named(tokens: Seq<Seq<char>>, ns: Seq<(Seq<char>, Seq<NameTag>)>) -> Seq<char>
    decreases tokens.len(),
{
    if tokens.len() == 0 || ns.len() == 0 {
        Seq::empty()
    } else {
        let out = named(tokens.drop_last(), ns.drop_last());
        match name_tag_of(tokens.last()) {
            None => out,
            Some(_) => {
                let n = ns.last();
                if n.1.contains(NameTag::Suffixable) {
                    out + lowercase(n.0)
                } else {
                    out + " "@ + n.0
                }
            },
        }
    }
}

/// Fills a template's name tags `{{Tag}}` with names from the list: for
/// each tag, a name carrying it, drawn at random (see [`named`]); the whole
/// trimmed. Each tag asked for must be carried by some name of the list.
pub fn render_template(template: &str, name_list: &Vec<NameDefinition>) -> (r: String)
    requires
        names_available(template@, def_views(name_list@)),
    ensures
        exists|ns: Seq<(Seq<char>, Seq<NameTag>)>|
            #![trigger named(name_tokens(template@), ns)]
            ns.len() == name_tokens(template@).len() && (forall|i: int|
                0 <= i < ns.len() ==> (#[trigger] name_tag_of(name_tokens(template@)[i]) matches Some(
                    t,
                ) ==> def_views(name_list@).contains(ns[i]) && ns[i].1.contains(t)))
                && r@ == trim(named(name_tokens(template@), ns)),
{
    let s = chars_of(template);
    let tokens = find_name_tokens(&s);
    let ghost tv = views(tokens@);
    let mut out: Vec<char> = Vec::new();
    let ghost mut ns: Seq<(Seq<char>, Seq<NameTag>)> = Seq::empty();
    let mut i: usize = 0;
    while i < tokens.len()
        invariant
            i <= tokens.len(),
            tv == views(tokens@),
            tv == name_tokens(template@),
            names_available(template@, def_views(name_list@)),
            ns.len() == i,
            forall|j: int|
                0 <= j < i ==> (#[trigger] name_tag_of(tv[j]) matches Some(t) ==> def_views(
                    name_list@,
                ).contains(ns[j]) && ns[j].1.contains(t)),
            out@ == named(tv.take(i as int), ns),
        decreases tokens.len() - i,
    {
        let token = string_of(&tokens[i]);
        assert(tv[i as int] == tokens@[i as int]@);
        let t = string_match_name_tag(token.as_str());
        let ghost mut nv: (Seq<char>, Seq<NameTag>) = (Seq::empty(), Seq::empty());
        match t {
            Some(tag) => {
                assert(name_tag_of(tv[i as int]) == Some(tag));
                let name = random_name_definition_filter_tag(name_list, &tag);
                let nm = chars_of(name.name.as_str());
                if name.has_tag(&NameTag::Suffixable) {
                    let lowered = to_lowercase(name.name.as_str());
                    let lc = chars_of(lowered.as_str());
                    push_all(&mut out, &lc);
                } else {
                    out.push(' ');
                    push_all(&mut out, &nm);
                }
                proof {
                    nv = name@;
                }
            },
            None => {},
        }
        proof {
            reveal_strlit(" ");
            let nns = ns.push(nv);
            let nt = tv.take(i + 1);
            assert(nns.drop_last() =~= ns);
            assert(nt.drop_last() =~= tv.take(i as int));
            assert(nt.last() == tv[i as int]);
            assert(out@ =~= named(nt, nns));
            ns = nns;
        }
        i = i + 1;
    }
    let trimmed = trim_chars(&out);
    proof {
        assert(tv.take(tokens.len() as int) =~= tv);
    }
    string_of(&trimmed)
}

} // verus!

verus! {

/// One of the templates, drawn at random, filled (see [`renders`]).
pub fn render_one_of(templates: &Vec<&str>, dictionary: &Vec<Word>, era: &Option<Era>) -> (r: String)
    requires
        templates.len() > 0,
    ensures
        exists|i: int|
            0 <= i < templates.len() && renders(
                word_views(dictionary@),
                *era,
                (#[trigger] templates@[i])@,
                r@,
            ),
        exists|i: int|
            0 <= i < templates.len() && #[trigger] below_drawn(templates.len(), i as usize) && renders(
                word_views(dictionary@),
                *era,
                templates@[i]@,
                r@,
            ),
{
    let i = random_below(templates.len());
    proof {
        lemma_below_drawn(templates.len(), i);
        assert(below_drawn(templates.len(), (i as int) as usize));
    }
    let t = templates[i];
    render_template_2(t, dictionary, era)
}

} // verus!
