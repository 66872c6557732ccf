//! Templates of the group dictionary, such as
//! `ADJECTIVE_AND(Quality) NOUN_AND(Metal) Harpoon`: each token names a
//! word type, how its groups combine, and the groups; rendering puts a word
//! filed under those groups in the token's place.
use crate::language2::{
    adjective_query_ok, combined, noun_query_ok, views_of_strings, Dictionary, LogicalOperator, WordType,
};
use crate::text::{chars_of, contains_exec, contains_seq, push_all, replace_all, replace_chars, split, split_chars, string_of, sub_chars, trim, trim_chars, views};
use vstd::prelude::*;

verus! {

/// The classes of characters the template grammar is made of.
#[derive(PartialEq, Eq, Structural, Clone, Copy)]
pub enum CharClass {
    /// Text before a token: anything but a keyword letter or `^`.
    Lead,
    /// The letters a keyword (`NOUN_AND`, `ADJECTIVE_OR`, ...) is spelled
    /// with, and `|`.
    Keyword,
    /// The characters of a token's groups: letters, space, and `,` to `:`.
    Argument,
    /// Text after a token: anything but a keyword letter or a bracket.
    Tail,
}

/// `c` is one of the characters the keywords are spelled with, or `|`.
pub open spec fn keyword_letter(c: char) -> bool {
    ||| c == 'N'
    ||| c == 'O'
    ||| c == 'U'
    ||| c == '_'
    ||| c == 'A'
    ||| c == 'D'
    ||| c == '|'
    ||| c == 'R'
    ||| c == 'J'
    ||| c == 'E'
    ||| c == 'C'
    ||| c == 'T'
    ||| c == 'I'
    ||| c == 'V'
}

/// `c` may stand between the brackets of a token.
pub open spec fn argument_char(c: char) -> bool {
    let n = c as u32;
    ||| 97 <= n <= 122
    ||| 65 <= n <= 90
    ||| n == 32
    ||| 44 <= n <= 58
}

/// `c` belongs to the class `k`.
pub open spec fn in_class(k: CharClass, c: char) -> bool {
    match k {
        CharClass::Lead => !keyword_letter(c) && c != '^',
        CharClass::Keyword => keyword_letter(c),
        CharClass::Argument => argument_char(c),
        CharClass::Tail => !keyword_letter(c) && c != '(' && c != ')',
    }
}

fn in_class_exec(k: CharClass, c: char) -> (b: bool)
    ensures
        b == in_class(k, c),
{
    let keyword = c == 'N' || c == 'O' || c == 'U' || c == '_' || c == 'A' || c == 'D' || c == '|' || c == 'R'
        || c == 'J' || c == 'E' || c == 'C' || c == 'T' || c == 'I' || c == 'V';
    match k {
        CharClass::Lead => !keyword && c != '^',
        CharClass::Keyword => keyword,
        CharClass::Argument => {
            let n = c as u32;
            (97 <= n && n <= 122) || (65 <= n && n <= 90) || n == 32 || (44 <= n && n <= 58)
        },
        CharClass::Tail => !keyword && c != '(' && c != ')',
    }
}

/// Where the run of characters of class `k` that starts at `i` ends.
pub open spec fn run_end(s: Seq<char>, i: int, k: CharClass) -> int
    decreases s.len() - i,
{
    if i < 0 || i >= s.len() || !in_class(k, s[i]) {
        i
    } else {
        run_end(s, i + 1, k)
    }
}

proof fn lemma_run_end(s: Seq<char>, i: int, k: CharClass)
    requires
        0 <= i <= s.len(),
    ensures
        i <= run_end(s, i, k) <= s.len(),
        forall|m: int| i <= m < run_end(s, i, k) ==> in_class(k, #[trigger] s[m]),
        run_end(s, i, k) < s.len() ==> !in_class(k, s[run_end(s, i, k)]),
    decreases s.len() - i,
{
    if i < s.len() && in_class(k, s[i]) {
        lemma_run_end(s, i + 1, k);
    }
}

fn run_end_exec(s: &Vec<char>, i: usize, k: CharClass) -> (r: usize)
    requires
        i <= s.len(),
    ensures
        r == run_end(s@, i as int, k),
{
    let mut j = i;
    while j < s.len() && in_class_exec(k, s[j])
        invariant
            i <= j <= s.len(),
            run_end(s@, j as int, k) == run_end(s@, i as int, k),
        decreases s.len() - j,
    {
        j = j + 1;
    }
    j
}

/// The token grammar matched at `p`: a run of lead text (ending at `q`), a
/// non-empty run of keyword letters (ending at `r`), `(`, a non-empty run
/// of argument characters (ending at `t`), `)`, then a run of tail text
/// (ending at `e`). Returns `(q, r, t, e)`, or `None` when there is no
/// match at `p`.
pub open spec fn match_at(s: Seq<char>, p: int) -> Option<(int, int, int, int)> {
    let q = run_end(s, p, CharClass::Lead);
    let r = run_end(s, q, CharClass::Keyword);
    if q < r && r < s.len() && s[r] == '(' {
        let t = run_end(s, r + 1, CharClass::Argument);
        if r + 1 < t && t < s.len() && s[t] == ')' {
            Some((q, r, t, run_end(s, t + 1, CharClass::Tail)))
        } else {
            None
        }
    } else {
        None
    }
}

proof fn lemma_match_at(s: Seq<char>, p: int)
    requires
        0 <= p <= s.len(),
        match_at(s, p) is Some,
    ensures
        ({
            let (q, r, t, e) = match_at(s, p).unwrap();
            p <= q < r < t < e <= s.len()
        }),
{
    let q = run_end(s, p, CharClass::Lead);
    lemma_run_end(s, p, CharClass::Lead);
    lemma_run_end(s, q, CharClass::Keyword);
    let r = run_end(s, q, CharClass::Keyword);
    lemma_run_end(s, r + 1, CharClass::Argument);
    let t = run_end(s, r + 1, CharClass::Argument);
    lemma_run_end(s, t + 1, CharClass::Tail);
}

fn match_at_exec(s: &Vec<char>, p: usize) -> (m: Option<(usize, usize, usize, usize)>)
    requires
        p <= s.len(),
    ensures
        match m {
            Some((q, r, t, e)) => match_at(s@, p as int) == Some((q as int, r as int, t as int, e as int)),
            None => match_at(s@, p as int) is None,
        },
{
    let q = run_end_exec(s, p, CharClass::Lead);
    proof {
        lemma_run_end(s@, p as int, CharClass::Lead);
    }
    let r = run_end_exec(s, q, CharClass::Keyword);
    proof {
        lemma_run_end(s@, q as int, CharClass::Keyword);
    }
    if q < r && r < s.len() && s[r] == '(' {
        let t = run_end_exec(s, r + 1, CharClass::Argument);
        proof {
            lemma_run_end(s@, r + 1, CharClass::Argument);
        }
        if r + 1 < t && t < s.len() && s[t] == ')' {
            proof {
                lemma_run_end(s@, t + 1, CharClass::Tail);
            }
            let e = run_end_exec(s, t + 1, CharClass::Tail);
            Some((q, r, t, e))
        } else {
            None
        }
    } else {
        None
    }
}

/// The first position from `pos` on where the token grammar matches
/// (the leftmost match).
pub open spec fn next_match(s: Seq<char>, pos: int) -> Option<int>
    decreases s.len() - pos,
{
    if pos < 0 || pos >= s.len() {
        None
    } else if match_at(s, pos) is Some {
        Some(pos)
    } else {
        next_match(s, pos + 1)
    }
}

fn next_match_exec(s: &Vec<char>, pos: usize) -> (r: Option<usize>)
    requires
        pos <= s.len(),
    ensures
        match r {
            Some(p) => next_match(s@, pos as int) == Some(p as int) && pos <= p < s.len() && match_at(
                s@,
                p as int,
            ) is Some,
            None => next_match(s@, pos as int) is None,
        },
{
    let mut p = pos;
    while p < s.len()
        invariant
            pos <= p <= s.len(),
            next_match(s@, p as int) == next_match(s@, pos as int),
        decreases s.len() - p,
    {
        if match_at_exec(s, p).is_some() {
            return Some(p);
        }
        p = p + 1;
    }
    None
}

/// The matches of the template from `pos` on, each as its lead text, its
/// token and its tail text; matches follow one another without overlap,
/// and text between them is left out.
pub open spec fn pieces_from(s: Seq<char>, pos: int) -> Seq<(Seq<char>, Seq<char>, Seq<char>)>
    decreases s.len() - pos,
{
    match next_match(s, pos) {
        None => Seq::empty(),
        Some(p) => match match_at(s, p) {
            Some((q, r, t, e)) => if pos < e <= s.len() {
                seq![(s.subrange(p, q), s.subrange(q, t + 1), s.subrange(t + 1, e))] + pieces_from(s, e)
            } else {
                Seq::empty()
            },
            None => Seq::empty(),
        },
    }
}

/// The matches of the whole template (see [`pieces_from`]).
pub open spec fn pieces(s: Seq<char>) -> Seq<(Seq<char>, Seq<char>, Seq<char>)> {
    pieces_from(s, 0)
}

/// The groups a token names: the keywords and brackets taken out, then
/// the rest split at commas, each part trimmed.
pub open spec fn token_arguments(token: Seq<char>) -> Seq<Seq<char>> {
    let a = replace_all(token, "NOUN_AND"@, Seq::empty());
    let b = replace_all(a, "NOUN_OR"@, Seq::empty());
    let c = replace_all(b, "ADJECTIVE_AND"@, Seq::empty());
    let d = replace_all(c, "ADJECTIVE_OR"@, Seq::empty());
    let e = replace_all(d, "("@, Seq::empty());
    let f = replace_all(e, ")"@, Seq::empty());
    split(f, ',').map_values(|x: Seq<char>| trim(x))
}

/// What a token asks for: a noun with every group (`NOUN_AND(`), a noun
/// with any (`NOUN_OR(`), an adjective with every group (`ADJECTIVE_AND(`)
/// or with any (`ADJECTIVE_OR(`), checked in that order; `None` for
/// anything else.
pub open spec fn token_kind(token: Seq<char>) -> Option<(WordType, LogicalOperator)> {
    if contains_seq(token, "NOUN_AND("@) {
        Some((WordType::Noun, LogicalOperator::AND))
    } else if contains_seq(token, "NOUN_OR("@) {
        Some((WordType::Noun, LogicalOperator::OR))
    } else if contains_seq(token, "ADJECTIVE_AND("@) {
        Some((WordType::Adjective, LogicalOperator::AND))
    } else if contains_seq(token, "ADJECTIVE_OR("@) {
        Some((WordType::Adjective, LogicalOperator::OR))
    } else {
        None
    }
}

/// A word can be found for the token: its groups can be looked up and
/// some word is filed under them.
pub open spec fn token_ready(d: Dictionary, token: Seq<char>) -> bool {
    match token_kind(token) {
        None => true,
        Some((WordType::Noun, op)) => noun_query_ok(d, token_arguments(token), op)
            && combined(d.noun_groups@, token_arguments(token), op).len() > 0,
        Some((WordType::Adjective, op)) => adjective_query_ok(d, token_arguments(token), op)
            && combined(d.adjective_groups@, token_arguments(token), op).len() > 0,
    }
}

/// `w` may stand for the token: nothing when the token asks for no word,
/// else the base of a word filed under its groups.
pub open spec fn token_word(d: Dictionary, token: Seq<char>, w: Seq<char>) -> bool {
    match token_kind(token) {
        None => w == Seq::<char>::empty(),
        Some((WordType::Noun, op)) => exists|i: int|
            0 <= i < d.nouns@.len() && combined(d.noun_groups@, token_arguments(token), op).contains(
                (#[trigger] d.nouns@[i]).id,
            ) && w == d.nouns@[i].base@,
        Some((WordType::Adjective, op)) => exists|i: int|
            0 <= i < d.adjectives@.len() && combined(d.adjective_groups@, token_arguments(token), op).contains(
                (#[trigger] d.adjectives@[i]).id,
            ) && w == d.adjectives@[i].base@,
    }
}

fn token_arguments_exec(token: &Vec<char>) -> (r: Vec<String>)
    ensures
        views_of_strings(r@) == token_arguments(token@),
{
    proof {
        reveal_strlit("NOUN_AND");
        reveal_strlit("NOUN_OR");
        reveal_strlit("ADJECTIVE_AND");
        reveal_strlit("ADJECTIVE_OR");
        reveal_strlit("(");
        reveal_strlit(")");
    }
    let nothing: Vec<char> = Vec::new();
    let a = replace_chars(token, &chars_of("NOUN_AND"), &nothing);
    let b = replace_chars(&a, &chars_of("NOUN_OR"), &nothing);
    let c = replace_chars(&b, &chars_of("ADJECTIVE_AND"), &nothing);
    let d = replace_chars(&c, &chars_of("ADJECTIVE_OR"), &nothing);
    let e = replace_chars(&d, &chars_of("("), &nothing);
    let f = replace_chars(&e, &chars_of(")"), &nothing);
    let parts = split_chars(&f, ',');
    let ghost want = split(f@, ',').map_values(|x: Seq<char>| trim(x));
    let mut out: Vec<String> = Vec::new();
    let mut i: usize = 0;
    while i < parts.len()
        invariant
            i <= parts.len(),
            views(parts@) == split(f@, ','),
            want == split(f@, ',').map_values(|x: Seq<char>| trim(x)),
            views_of_strings(out@) == want.take(i as int),
        decreases parts.len() - i,
    {
        let t = trim_chars(&parts[i]);
        let ghost prev = views_of_strings(out@);
        out.push(string_of(&t));
        proof {
            assert(views(parts@)[i as int] == parts@[i as int]@);
            assert(views_of_strings(out@) =~= prev.push(t@));
            assert(want.take(i + 1) =~= want.take(i as int).push(want[i as int]));
        }
        i = i + 1;
    }
    assert(want.take(parts.len() as int) =~= want);
    out
}

fn token_kind_exec(token: &Vec<char>) -> (r: Option<(WordType, LogicalOperator)>)
    ensures
        r == token_kind(token@),
{
    if contains_exec(token, &chars_of("NOUN_AND(")) {
        Some((WordType::Noun, LogicalOperator::AND))
    } else if contains_exec(token, &chars_of("NOUN_OR(")) {
        Some((WordType::Noun, LogicalOperator::OR))
    } else if contains_exec(token, &chars_of("ADJECTIVE_AND(")) {
        Some((WordType::Adjective, LogicalOperator::AND))
    } else if contains_exec(token, &chars_of("ADJECTIVE_OR(")) {
        Some((WordType::Adjective, LogicalOperator::OR))
    } else {
        None
    }
}

/// The word for a token (see [`token_word`]), drawn at random among those
/// filed under its groups.
fn convert_token_to_word<'a>(token: &Vec<char>, dict: &'a Dictionary) -> (r: &'a str)
    requires
        token_ready(*dict, token@),
    ensures
        token_word(*dict, token@, r@),
{
    match token_kind_exec(token) {
        None => {
            proof {
                reveal_strlit("");
                assert(""@ =~= Seq::<char>::empty());
            }
            ""
        },
        Some((word_type, op)) => {
            let arguments = token_arguments_exec(token);
            dict.get_word_base_with_groups(word_type, arguments, op)
        },
    }
}

/// The pieces filled with the words `ws`: for each piece, its lead text,
/// its word, then its tail text.
pub open spec fn filled(ps: Seq<(Seq<char>, Seq<char>, Seq<char>)>, ws: Seq<Seq<char>>) -> Seq<char>
    decreases ps.len(),
{
    if ps.len() == 0 || ws.len() == 0 {
        Seq::empty()
    } else {
        filled(ps.drop_last(), ws.drop_last()) + ps.last().0 + ws.last() + ps.last().2
    }
}

/// Every token of the template can be given a word (see [`token_ready`]).
pub open spec fn template_ready(d: Dictionary, template: Seq<char>) -> bool {
    forall|k: int| 0 <= k < pieces(template).len() ==> token_ready(d, #[trigger] pieces(template)[k].1)
}

/// `r` is a rendering of the template: words `ws`, one for each piece, each
/// one that may stand for its token (see [`token_word`]), fill the pieces
/// (see [`filled`]).
pub open spec fn renders(d: Dictionary, template: Seq<char>, r: Seq<char>) -> bool {
    exists|ws: Seq<Seq<char>>|
        #![trigger filled(pieces(template), ws)]
        ws.len() == pieces(template).len() && (forall|k: int|
            0 <= k < ws.len() ==> token_word(d, pieces(template)[k].1, #[trigger] ws[k]))
            && r == filled(pieces(template), ws)
}

/// Renders a template: each match of the token grammar (see [`pieces`])
/// gives its lead text, a word drawn for its token, and its tail text;
/// text outside the matches is left out.
pub fn render_template(template: &str, dict: &Dictionary) -> (r: String)
    requires
        template_ready(*dict, template@),
    ensures
        renders(*dict, template@, r@),
{
    let s = chars_of(template);
    let ghost all = pieces(s@);
    let mut out: Vec<char> = Vec::new();
    let mut pos: usize = 0;
    let ghost mut done: Seq<(Seq<char>, Seq<char>, Seq<char>)> = Seq::empty();
    let ghost mut ws: Seq<Seq<char>> = Seq::empty();
    assert(all == done + pieces_from(s@, 0));
    loop
        invariant
            pos <= s.len(),
            s@ == template@,
            all == pieces(s@),
            template_ready(*dict, s@),
            all == done + pieces_from(s@, pos as int),
            ws.len() == done.len(),
            forall|k: int| 0 <= k < ws.len() ==> token_word(*dict, done[k].1, #[trigger] ws[k]),
            out@ == filled(done, ws),
        ensures
            next_match(s@, pos as int) is None,
        decreases s.len() - pos,
    {
        let found = next_match_exec(&s, pos);
        if found.is_none() {
            break;
        }
        let p = found.unwrap();
        let (lead_end, open, close, end) = match_at_exec(&s, p).unwrap();
        proof {
            lemma_match_at(s@, p as int);
        }
        let lead = sub_chars(&s, p, lead_end);
        let token = sub_chars(&s, lead_end, close + 1);
        let tail = sub_chars(&s, close + 1, end);
        let ghost piece = (lead@, token@, tail@);
        assert(pieces_from(s@, pos as int) == seq![piece] + pieces_from(s@, end as int));
        assert(all[done.len() as int] == piece);
        assert(token_ready(*dict, pieces(s@)[done.len() as int].1));
        let word = convert_token_to_word(&token, dict);
        let ghost prev = out@;
        push_all(&mut out, &lead);
        push_all(&mut out, &chars_of(word));
        push_all(&mut out, &tail);
        proof {
            let nd = done.push(piece);
            let nw = ws.push(word@);
            assert(nd.drop_last() =~= done);
            assert(nw.drop_last() =~= ws);
            assert(all =~= nd + pieces_from(s@, end as int));
            assert(out@ =~= filled(nd, nw));
            done = nd;
            ws = nw;
        }
        pos = end;
    }
    assert(pieces_from(s@, pos as int) =~= Seq::<(Seq<char>, Seq<char>, Seq<char>)>::empty());
    assert(all =~= done);
    string_of(&out)
}

} // verus!
