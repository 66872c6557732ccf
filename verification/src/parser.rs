//! Reading the data files that words and names come from: one entry per
//! line, a subject and its tags separated by commas, with an optional
//! trailing `//` comment made of letters and spaces.
use crate::language::copy_strings;
use crate::text::{
    chars_of, contains_exec, contains_seq, push_all, split, split_chars, str_views, string_of, sub_chars, trim,
    trim_chars, views,
};
use vstd::prelude::*;
use vstd::relations::{sorted_by, total_ordering};

verus! {

/// A letter or a space: what a trailing comment may hold.
pub open spec fn is_comment_char(c: char) -> bool {
    ('a' <= c && c <= 'z') || ('A' <= c && c <= 'Z') || c == ' '
}

/// A comment starts at `i` and runs to the end of `s`: `//` followed only
/// by letters and spaces.
pub open spec fn comment_at(s: Seq<char>, i: int) -> bool {
    &&& 0 <= i
    &&& i + 2 <= s.len()
    &&& s[i] == '/'
    &&& s[i + 1] == '/'
    &&& forall|j: int| i + 2 <= j < s.len() ==> is_comment_char(#[trigger] s[j])
}

/// `s` without its trailing comment: cut at the first position where a
/// comment starts, or whole when there is none.
pub open spec fn strip_comment(s: Seq<char>) -> Seq<char> {
    if exists|i: int| comment_at(s, i) {
        s.take(choose|i: int| comment_at(s, i) && forall|j: int| 0 <= j < i ==> !comment_at(s, j))
    } else {
        s
    }
}

fn is_comment_char_exec(c: char) -> (b: bool)
    ensures
        b == is_comment_char(c),
{
    ('a' <= c && c <= 'z') || ('A' <= c && c <= 'Z') || c == ' '
}

fn comment_at_exec(s: &Vec<char>, i: usize) -> (b: bool)
    ensures
        b == comment_at(s@, i as int),
{
    if i >= s.len() || s.len() - i < 2 {
        return false;
    }
    if s[i] != '/' || s[i + 1] != '/' {
        return false;
    }
    let mut j: usize = i + 2;
    while j < s.len()
        invariant
            i + 2 <= j <= s.len(),
            forall|k: int| i + 2 <= k < j ==> is_comment_char(#[trigger] s@[k]),
        decreases s.len() - j,
    {
        if !is_comment_char_exec(s[j]) {
            return false;
        }
        j = j + 1;
    }
    true
}

/// The line without its trailing comment (see [`strip_comment`]).
pub fn strip_comment_chars(s: &Vec<char>) -> (r: Vec<char>)
    ensures
        r@ == strip_comment(s@),
{
    let mut i: usize = 0;
    while i < s.len()
        invariant
            i <= s.len(),
            forall|j: int| 0 <= j < i ==> !comment_at(s@, j),
        decreases s.len() - i,
    {
        if comment_at_exec(s, i) {
            let ghost c = choose|k: int| comment_at(s@, k) && forall|j: int| 0 <= j < k ==> !comment_at(s@, j);
            assert(comment_at(s@, i as int) && forall|j: int| 0 <= j < i ==> !comment_at(s@, j));
            proof {
                if c < i {
                } else if c > i {
                    assert(!comment_at(s@, i as int));
                }
            }
            assert(c == i);
            return sub_chars(s, 0, i);
        }
        i = i + 1;
    }
    assert forall|j: int| !comment_at(s@, j) by {
        if j >= s.len() {
        }
    }
    sub_chars(s, 0, s.len())
}

/// A data line read as an entry: the pieces of the line (its comment cut
/// off) between commas, trimmed; the first is the subject, the rest its
/// tags. A line whose subject is empty holds no entry.
pub open spec fn parse_line_spec(line: Seq<char>) -> Option<(Seq<char>, Seq<Seq<char>>)> {
    let pieces = split(strip_comment(line), ',');
    let subject = trim(pieces[0]);
    if subject.len() == 0 {
        None
    } else {
        Some((subject, pieces.drop_first().map_values(|p: Seq<char>| trim(p))))
    }
}

/// Reads one data line (see [`parse_line_spec`]).
pub fn parse_line(line: &str) -> (r: Option<(String, Vec<String>)>)
    ensures
        r is None <==> parse_line_spec(line@) is None,
        r matches Some(e) ==> parse_line_spec(line@) == Some((e.0@, str_views(e.1@))),
{
    let chars = chars_of(line);
    let stripped = strip_comment_chars(&chars);
    let pieces = split_chars(&stripped, ',');
    proof {
        crate::text::lemma_split_nonempty(stripped@, ',');
    }
    assert(views(pieces@)[0] == pieces@[0]@);
    let subject = trim_chars(&pieces[0]);
    let ghost all = split(strip_comment(line@), ',');
    let mut tags: Vec<String> = Vec::new();
    let mut i: usize = 1;
    while i < pieces.len()
        invariant
            1 <= i <= pieces.len(),
            views(pieces@) == all,
            str_views(tags@) == all.drop_first().map_values(|p: Seq<char>| trim(p)).take(i - 1),
        decreases pieces.len() - i,
    {
        let t = trim_chars(&pieces[i]);
        let ghost prev = str_views(tags@);
        tags.push(string_of(&t));
        assert(views(pieces@)[i as int] == pieces@[i as int]@);
        assert(str_views(tags@) =~= prev.push(t@));
        assert(all.drop_first()[i - 1] == all[i as int]);
        assert(all.drop_first().map_values(|p: Seq<char>| trim(p)).take(i as int) =~= all.drop_first().map_values(|p: Seq<char>| trim(p)).take(i - 1).push(trim(all[i as int])));
        assert(str_views(tags@) =~= all.drop_first().map_values(|p: Seq<char>| trim(p)).take(
            i as int,
        ));
        i = i + 1;
    }
    assert(all.drop_first().map_values(|p: Seq<char>| trim(p)).take(pieces.len() - 1)
        =~= all.drop_first().map_values(|p: Seq<char>| trim(p)));
    if subject.len() == 0 {
        None
    } else {
        Some((string_of(&subject), tags))
    }
}

/// The entries of a data file, in the order of its lines.
pub type ParserOutput = Vec<(String, Vec<String>)>;

/// The entries that the lines hold, in order: each line read by
/// [`parse_line_spec`], the lines without an entry left out.
pub open spec fn parse_lines_spec(lines: Seq<Seq<char>>) -> Seq<(Seq<char>, Seq<Seq<char>>)>
    decreases lines.len(),
{
    if lines.len() == 0 {
        Seq::empty()
    } else {
        let rest = parse_lines_spec(lines.drop_last());
        match parse_line_spec(lines.last()) {
            Some(e) => rest.push(e),
            None => rest,
        }
    }
}

/// The views of parsed entries.
pub open spec fn entry_views(v: Seq<(String, Vec<String>)>) -> Seq<(Seq<char>, Seq<Seq<char>>)> {
    v.map_values(|e: (String, Vec<String>)| (e.0@, str_views(e.1@)))
}

/// Reads the lines of a data file (see [`parse_lines_spec`]).
pub fn parse_lines(lines: &Vec<String>) -> (r: ParserOutput)
    ensures
        entry_views(r@) == parse_lines_spec(str_views(lines@)),
{
    let mut output: ParserOutput = Vec::new();
    let mut i: usize = 0;
    while i < lines.len()
        invariant
            i <= lines.len(),
            entry_views(output@) == parse_lines_spec(str_views(lines@).take(i as int)),
        decreases lines.len() - i,
    {
        assert(str_views(lines@).take(i + 1).drop_last() =~= str_views(lines@).take(i as int));
        assert(str_views(lines@).take(i + 1).last() == lines@[i as int]@);
        let ghost prev = entry_views(output@);
        match parse_line(lines[i].as_str()) {
            Some(e) => {
                output.push(e);
                assert(entry_views(output@) =~= prev.push(parse_line_spec(lines@[i as int]@).unwrap()));
            },
            None => {},
        }
        i = i + 1;
    }
    assert(str_views(lines@).take(lines.len() as int) =~= str_views(lines@));
    output
}

/// `a` comes no later than `b` in the order of `str`: character by
/// character by code point, a prefix before what it begins.
pub open spec fn text_le(a: Seq<char>, b: Seq<char>) -> bool
    decreases a.len(),
{
    if a.len() == 0 {
        true
    } else if b.len() == 0 {
        false
    } else if a[0] != b[0] {
        (a[0] as u32) < (b[0] as u32)
    } else {
        text_le(a.drop_first(), b.drop_first())
    }
}

/// [`text_le`] as a relation.
pub open spec fn text_order() -> spec_fn(Seq<char>, Seq<char>) -> bool {
    |a: Seq<char>, b: Seq<char>| text_le(a, b)
}

proof fn lemma_text_le_reflexive(a: Seq<char>)
    ensures
        text_le(a, a),
    decreases a.len(),
{
    if a.len() > 0 {
        lemma_text_le_reflexive(a.drop_first());
    }
}

proof fn lemma_text_le_antisymmetric(a: Seq<char>, b: Seq<char>)
    requires
        text_le(a, b),
        text_le(b, a),
    ensures
        a == b,
    decreases a.len(),
{
    if a.len() > 0 && b.len() > 0 {
        lemma_text_le_antisymmetric(a.drop_first(), b.drop_first());
        assert(a =~= seq![a[0]] + a.drop_first());
        assert(b =~= seq![b[0]] + b.drop_first());
    }
}

proof fn lemma_text_le_transitive(a: Seq<char>, b: Seq<char>, c: Seq<char>)
    requires
        text_le(a, b),
        text_le(b, c),
    ensures
        text_le(a, c),
    decreases a.len(),
{
    if a.len() > 0 && b.len() > 0 && c.len() > 0 && a[0] == b[0] && b[0] == c[0] {
        lemma_text_le_transitive(a.drop_first(), b.drop_first(), c.drop_first());
    }
}

proof fn lemma_text_le_connected(a: Seq<char>, b: Seq<char>)
    ensures
        text_le(a, b) || text_le(b, a),
    decreases a.len(),
{
    if a.len() > 0 && b.len() > 0 {
        if a[0] == b[0] {
            lemma_text_le_connected(a.drop_first(), b.drop_first());
        } else {
            vstd::utf8::char_u32_cast(a[0], a[0] as u32);
            vstd::utf8::char_u32_cast(b[0], b[0] as u32);
        }
    }
}

/// The order of texts is a total order.
pub proof fn lemma_text_order_total()
    ensures
        total_ordering(text_order()),
{
    let le = text_order();
    assert forall|a: Seq<char>| #[trigger] le(a, a) by {
        lemma_text_le_reflexive(a);
    }
    assert forall|a: Seq<char>, b: Seq<char>| #[trigger] le(a, b) && #[trigger] le(b, a) implies a == b by {
        lemma_text_le_antisymmetric(a, b);
    }
    assert forall|a: Seq<char>, b: Seq<char>, c: Seq<char>|
        #[trigger] le(a, b) && #[trigger] le(b, c) implies #[trigger] le(a, c) by {
        lemma_text_le_transitive(a, b, c);
    }
    assert forall|a: Seq<char>, b: Seq<char>| #[trigger] le(a, b) || #[trigger] le(b, a) by {
        lemma_text_le_connected(a, b);
    }
}

fn text_le_exec(a: &Vec<char>, b: &Vec<char>) -> (r: bool)
    ensures
        r == text_le(a@, b@),
{
    let mut i: usize = 0;
    assert(a@.skip(0) =~= a@);
    assert(b@.skip(0) =~= b@);
    while i < a.len() && i < b.len()
        invariant
            i <= a.len(),
            i <= b.len(),
            text_le(a@, b@) == text_le(a@.skip(i as int), b@.skip(i as int)),
        decreases a.len() - i,
    {
        assert(a@.skip(i as int)[0] == a@[i as int]);
        assert(b@.skip(i as int)[0] == b@[i as int]);
        if a[i] != b[i] {
            return (a[i] as u32) < (b[i] as u32);
        }
        assert(a@.skip(i as int).drop_first() =~= a@.skip(i + 1));
        assert(b@.skip(i as int).drop_first() =~= b@.skip(i + 1));
        i = i + 1;
    }
    i == a.len()
}

/// Every text of `s` comes no later than those after it.
pub open spec fn texts_sorted(s: Seq<Seq<char>>) -> bool {
    forall|i: int, j: int| 0 <= i < j < s.len() ==> text_le(#[trigger] s[i], #[trigger] s[j])
}

/// The texts in order, each as often as it occurs.
fn sort_texts(v: Vec<Vec<char>>) -> (r: Vec<Vec<char>>)
    ensures
        views(r@) == views(v@).sort_by(text_order()),
{
    broadcast use vstd::seq_lib::group_to_multiset_ensures;
    broadcast use vstd::multiset::group_multiset_axioms;

    let ghost all = views(v@);
    let mut rest = v;
    let mut out: Vec<Vec<char>> = Vec::new();
    assert(views(out@) =~= Seq::<Seq<char>>::empty());
    assert(views(out@).to_multiset().add(views(rest@).to_multiset()) =~= all.to_multiset());
    while rest.len() > 0
        invariant
            texts_sorted(views(out@)),
            views(out@).to_multiset().add(views(rest@).to_multiset()) == all.to_multiset(),
        decreases rest.len(),
    {
        let ghost before = views(rest@);
        let x = rest.pop().unwrap();
        assert(before =~= views(rest@).push(x@));
        let mut j: usize = 0;
        while j < out.len() && text_le_exec(&out[j], &x)
            invariant
                j <= out.len(),
                forall|k: int| 0 <= k < j ==> text_le(#[trigger] views(out@)[k], x@),
            decreases out.len() - j,
        {
            j = j + 1;
        }
        let ghost o = views(out@);
        proof {
            if j < out.len() {
                lemma_text_le_connected(o[j as int], x@);
                assert forall|k: int| j <= k < o.len() implies text_le(x@, #[trigger] o[k]) by {
                    if k > j {
                        lemma_text_le_transitive(x@, o[j as int], o[k]);
                    } else {
                        lemma_text_le_connected(o[j as int], x@);
                    }
                }
            }
        }
        out.insert(j, x);
        proof {
            let n = views(out@);
            assert(n =~= o.insert(j as int, x@));
            assert forall|a: int, b: int| 0 <= a < b < n.len() implies text_le(#[trigger] n[a], #[trigger] n[b]) by {
                if b < j {
                    assert(n[a] == o[a] && n[b] == o[b]);
                } else if b == j {
                    assert(n[a] == o[a]);
                } else if a == j {
                    assert(n[b] == o[b - 1]);
                } else if a < j {
                    assert(n[a] == o[a] && n[b] == o[b - 1]);
                    lemma_text_le_transitive(o[a], x@, o[b - 1]);
                } else {
                    assert(n[a] == o[a - 1] && n[b] == o[b - 1]);
                }
            }
            vstd::seq_lib::to_multiset_insert(o, j as int, x@);
            vstd::seq_lib::to_multiset_build(views(rest@), x@);
            assert(n.to_multiset() == o.to_multiset().insert(x@));
            assert(n.to_multiset().add(views(rest@).to_multiset()) =~= all.to_multiset());
        }
    }
    proof {
        assert(views(rest@) =~= Seq::<Seq<char>>::empty());
        assert(views(out@).to_multiset() =~= all.to_multiset());
        lemma_text_order_total();
        all.lemma_sort_by_ensures(text_order());
        assert(sorted_by(views(out@), text_order()));
        vstd::seq_lib::lemma_sorted_unique(views(out@), all.sort_by(text_order()), text_order());
    }
    out
}

/// A line holding `//` heads a group of lines.
pub open spec fn heads_group(line: Seq<char>) -> bool {
    contains_seq(line, seq!['/', '/'])
}

/// A group of lines: its heading and its lines.
pub type LineGroup = (Seq<char>, Seq<Seq<char>>);

/// The groups of the lines: those closed so far, and the one still open.
/// A heading line closes the open group and opens one of its own; any
/// other line joins the open group. The first group opens with an empty
/// heading.
pub open spec fn line_groups(lines: Seq<Seq<char>>) -> (Seq<LineGroup>, LineGroup)
    decreases lines.len(),
{
    if lines.len() == 0 {
        (Seq::empty(), (Seq::empty(), Seq::empty()))
    } else {
        let (closed, open) = line_groups(lines.drop_last());
        if heads_group(lines.last()) {
            (closed.push(open), (lines.last(), Seq::empty()))
        } else {
            (closed, (open.0, open.1.push(lines.last())))
        }
    }
}

/// Lines written one after the other, each ended by a line break.
pub open spec fn lines_text(ls: Seq<Seq<char>>) -> Seq<char>
    decreases ls.len(),
{
    if ls.len() == 0 {
        Seq::empty()
    } else {
        lines_text(ls.drop_last()) + ls.last().push('\n')
    }
}

/// A group as a formatted file writes it: its heading, then its lines in
/// order (see [`text_le`]), each on a line of its own.
pub open spec fn group_text(g: LineGroup) -> Seq<char> {
    g.0.push('\n') + lines_text(g.1.sort_by(text_order()))
}

/// Groups written one after the other (see [`group_text`]).
pub open spec fn groups_text(gs: Seq<LineGroup>) -> Seq<char>
    decreases gs.len(),
{
    if gs.len() == 0 {
        Seq::empty()
    } else {
        groups_text(gs.drop_last()) + group_text(gs.last())
    }
}

/// A data file with the lines of each group in order: every closed group
/// of its lines (see [`line_groups`]); the group still open at the end is
/// not written.
pub open spec fn formatted(lines: Seq<Seq<char>>) -> Seq<char> {
    groups_text(line_groups(lines).0)
}

fn push_lines(out: &mut Vec<char>, ls: &Vec<Vec<char>>)
    ensures
        final(out)@ == old(out)@ + lines_text(views(ls@)),
{
    let ghost o = old(out)@;
    let mut i: usize = 0;
    while i < ls.len()
        invariant
            i <= ls.len(),
            out@ == o + lines_text(views(ls@).take(i as int)),
        decreases ls.len() - i,
    {
        assert(views(ls@).take(i + 1).drop_last() =~= views(ls@).take(i as int));
        assert(views(ls@).take(i + 1).last() == ls@[i as int]@);
        push_all(out, &ls[i]);
        out.push('\n');
        assert(out@ =~= o + lines_text(views(ls@).take(i + 1)));
        i = i + 1;
    }
    assert(views(ls@).take(ls.len() as int) =~= views(ls@));
}

/// Formats the lines of a data file (see [`formatted`]): each group headed
/// by a `//` line gets its lines in order.
pub fn format_lines(lines: &Vec<String>) -> (r: String)
    ensures
        r@ == formatted(str_views(lines@)),
{
    let marker = chars_of("//");
    proof {
        reveal_strlit("//");
        assert(marker@ =~= seq!['/', '/']);
    }
    let mut out: Vec<char> = Vec::new();
    let mut heading: Vec<char> = Vec::new();
    let mut group: Vec<Vec<char>> = Vec::new();
    let ghost all = str_views(lines@);
    let mut i: usize = 0;
    assert(all.take(0) =~= Seq::<Seq<char>>::empty());
    assert(views(group@) =~= Seq::<Seq<char>>::empty());
    while i < lines.len()
        invariant
            i <= lines.len(),
            all == str_views(lines@),
            marker@ == seq!['/', '/'],
            out@ == groups_text(line_groups(all.take(i as int)).0),
            heading@ == line_groups(all.take(i as int)).1.0,
            views(group@) == line_groups(all.take(i as int)).1.1,
        decreases lines.len() - i,
    {
        let ghost prefix = all.take(i + 1);
        assert(prefix.drop_last() =~= all.take(i as int));
        assert(prefix.last() == lines@[i as int]@);
        let line = chars_of(lines[i].as_str());
        if contains_exec(&line, &marker) {
            let ghost open = line_groups(all.take(i as int)).1;
            let ghost closed = line_groups(all.take(i as int)).0;
            let sorted = sort_texts(group);
            push_all(&mut out, &heading);
            out.push('\n');
            push_lines(&mut out, &sorted);
            proof {
                assert(closed.push(open).drop_last() =~= closed);
                assert(out@ =~= groups_text(closed.push(open)));
            }
            heading = line;
            group = Vec::new();
            assert(views(group@) =~= Seq::<Seq<char>>::empty());
        } else {
            let ghost g0 = views(group@);
            group.push(line);
            assert(views(group@) =~= g0.push(lines@[i as int]@));
        }
        i = i + 1;
    }
    assert(all.take(lines.len() as int) =~= all);
    string_of(&out)
}

} // verus!
