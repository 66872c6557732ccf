//! The group dictionary: nouns, adjectives and templates filed under named
//! groups, read from data lines such as `Gold, NOUN, HAS_GROUP(Metal)`.
pub mod names;
pub mod templater2;

use crate::random::{new_id, random_below, Id};
use crate::text::{chars_of, eq_chars, occurs_at, occurs_at_exec, split, split_chars, string_of, sub_chars, trim, trim_chars, views};
use vstd::prelude::*;

verus! {

/// The kinds of words of the group dictionary.
#[derive(PartialEq, Eq, Structural, Debug, Clone, Copy)]
pub enum WordType {
    Noun,
    Adjective,
}

/// How the groups of a query combine: every group, or any of them.
#[derive(PartialEq, Eq, Structural, Debug, Clone, Copy)]
pub enum LogicalOperator {
    AND,
    OR,
}

/// A noun, with the groups it belongs to (each once) and the adjective
/// made from it.
pub struct Noun {
    pub id: Id,
    pub base: String,
    pub recipie: Option<String>,
    pub groups: Vec<String>,
    pub adjective: Option<String>,
}

/// An adjective, with the groups it belongs to (each once) and the noun it
/// comes from.
pub struct Adjective {
    pub id: Id,
    pub base: String,
    pub groups: Vec<String>,
    pub noun: Option<String>,
}

/// A template, with the groups it belongs to (each once).
pub struct Template {
    pub id: Id,
    pub template: String,
    pub groups: Vec<String>,
}

/// The group dictionary. Each group index lists, under a group's name, the
/// ids filed there; `group_groups` lists, under a group's name, the groups
/// that belong to it.
pub struct Dictionary {
    pub nouns: Vec<Noun>,
    pub adjectives: Vec<Adjective>,
    pub templates: Vec<Template>,
    pub noun_groups: Vec<(String, Vec<Id>)>,
    pub adjective_groups: Vec<(String, Vec<Id>)>,
    pub template_groups: Vec<(String, Vec<Id>)>,
    pub group_groups: Vec<(String, Vec<String>)>,
}

impl Dictionary {
    /// An empty dictionary.
    pub fn new() -> (d: Dictionary)
        ensures
            d.nouns@.len() == 0,
            d.adjectives@.len() == 0,
            d.templates@.len() == 0,
            d.noun_groups@.len() == 0,
            d.adjective_groups@.len() == 0,
            d.template_groups@.len() == 0,
            d.group_groups@.len() == 0,
    {
        Dictionary {
            nouns: Vec::new(),
            adjectives: Vec::new(),
            templates: Vec::new(),
            noun_groups: Vec::new(),
            adjective_groups: Vec::new(),
            template_groups: Vec::new(),
            group_groups: Vec::new(),
        }
    }
}

/// The ids filed under `key` in a group index.
pub open spec fn group_members(idx: Seq<(String, Vec<Id>)>, key: Seq<char>) -> Set<Id>
    decreases idx.len(),
{
    if idx.len() == 0 {
        Set::empty()
    } else if idx.last().0@ == key {
        group_members(idx.drop_last(), key).union(idx.last().1@.to_set())
    } else {
        group_members(idx.drop_last(), key)
    }
}

/// The index has an entry for the group `key`.
pub open spec fn has_group(idx: Seq<(String, Vec<Id>)>, key: Seq<char>) -> bool {
    exists|i: int| 0 <= i < idx.len() && (#[trigger] idx[i]).0@ == key
}

/// The group names filed under `key` in `group_groups`.
pub open spec fn group_names(idx: Seq<(String, Vec<String>)>, key: Seq<char>) -> Set<Seq<char>>
    decreases idx.len(),
{
    if idx.len() == 0 {
        Set::empty()
    } else if idx.last().0@ == key {
        group_names(idx.drop_last(), key).union(views_of_strings(idx.last().1@).to_set())
    } else {
        group_names(idx.drop_last(), key)
    }
}

/// The view of an optional string.
pub open spec fn opt_view(o: Option<String>) -> Option<Seq<char>> {
    match o {
        Some(s) => Some(s@),
        None => None,
    }
}

/// The views of strings.
pub open spec fn views_of_strings(v: Seq<String>) -> Seq<Seq<char>> {
    v.map_values(|s: String| s@)
}

proof fn lemma_members_push_entry(idx: Seq<(String, Vec<Id>)>, e: (String, Vec<Id>), key: Seq<char>)
    ensures
        group_members(idx.push(e), key) == if e.0@ == key {
            group_members(idx, key).union(e.1@.to_set())
        } else {
            group_members(idx, key)
        },
{
    assert(idx.push(e).drop_last() =~= idx);
}

proof fn lemma_members_add(idx: Seq<(String, Vec<Id>)>, i: int, e: (String, Vec<Id>), x: Id, key: Seq<char>)
    requires
        0 <= i < idx.len(),
        e.0 == idx[i].0,
        e.1@ == idx[i].1@.push(x),
    ensures
        group_members(idx.update(i, e), key) == if idx[i].0@ == key {
            group_members(idx, key).insert(x)
        } else {
            group_members(idx, key)
        },
    decreases idx.len(),
{
    let u = idx.update(i, e);
    if i == idx.len() - 1 {
        assert(u.drop_last() =~= idx.drop_last());
        if idx[i].0@ == key {
            assert(e.1@.to_set() =~= idx[i].1@.to_set().insert(x)) by {
                assert forall|y: Id| e.1@.to_set().contains(y) <==> idx[i].1@.to_set().insert(x).contains(y) by {
                    if e.1@.contains(y) && y != x {
                        let k = choose|k: int| 0 <= k < e.1@.len() && e.1@[k] == y;
                        assert(idx[i].1@[k] == y);
                    }
                    if idx[i].1@.contains(y) {
                        let k = choose|k: int| 0 <= k < idx[i].1@.len() && idx[i].1@[k] == y;
                        assert(e.1@[k] == y);
                    }
                    if y == x {
                        assert(e.1@[idx[i].1@.len() as int] == x);
                    }
                }
            }
            assert(group_members(u, key) =~= group_members(idx, key).insert(x));
        }
    } else {
        lemma_members_add(idx.drop_last(), i, e, x, key);
        assert(u.drop_last() =~= idx.drop_last().update(i, e));
        assert(u.last() == idx.last());
        if idx.last().0@ == key && idx[i].0@ == key {
            assert(group_members(u, key) =~= group_members(idx, key).insert(x));
        }
    }
}

fn eq_string(a: &String, b: &String) -> (r: bool)
    ensures
        r == (a@ == b@),
{
    let x = chars_of(a.as_str());
    let y = chars_of(b.as_str());
    eq_chars(&x, &y)
}

fn holds_id(v: &Vec<Id>, x: Id) -> (b: bool)
    ensures
        b == v@.contains(x),
{
    let mut i: usize = 0;
    while i < v.len()
        invariant
            i <= v.len(),
            forall|j: int| 0 <= j < i ==> v@[j] != x,
        decreases v.len() - i,
    {
        if v[i] == x {
            return true;
        }
        i = i + 1;
    }
    false
}

/// Files `x` under the group `key`: in the first entry for the group, or
/// in a new entry when there is none.
fn add_to_group(idx: &mut Vec<(String, Vec<Id>)>, key: &String, x: Id)
    ensures
        forall|k: Seq<char>|
            #[trigger] group_members(final(idx)@, k) == if k == key@ {
                group_members(old(idx)@, k).insert(x)
            } else {
                group_members(old(idx)@, k)
            },
        forall|k: Seq<char>| #[trigger] has_group(final(idx)@, k) <==> has_group(old(idx)@, k) || k == key@,
{
    let ghost i0 = idx@;
    let mut i: usize = 0;
    while i < idx.len()
        invariant
            i <= idx.len(),
            idx@ == i0,
            i0 == old(idx)@,
        decreases idx.len() - i,
    {
        if eq_string(&idx[i].0, key) {
            let (name, mut ids) = idx.remove(i);
            let ghost entry_ids = ids@;
            if !holds_id(&ids, x) {
                ids.push(x);
                idx.insert(i, (name, ids));
                proof {
                    assert(idx@ =~= i0.update(i as int, (name, ids)));
                    assert forall|k: Seq<char>| #[trigger] group_members(idx@, k) == if k == key@ {
                        group_members(i0, k).insert(x)
                    } else {
                        group_members(i0, k)
                    } by {
                        lemma_members_add(i0, i as int, (name, ids), x, k);
                    }
                    assert forall|k: Seq<char>| #[trigger] has_group(idx@, k) <==> has_group(i0, k) || k == key@ by {
                        if has_group(i0, k) {
                            let j = choose|j: int| 0 <= j < i0.len() && (#[trigger] i0[j]).0@ == k;
                            assert(idx@[j].0@ == k);
                        }
                        if has_group(idx@, k) {
                            let j = choose|j: int| 0 <= j < idx@.len() && (#[trigger] idx@[j]).0@ == k;
                            assert(i0[j].0@ == k);
                        }
                        if k == key@ {
                            assert(idx@[i as int].0@ == k);
                        }
                    }
                }
            } else {
                idx.insert(i, (name, ids));
                proof {
                    assert(idx@ =~= i0);
                    assert forall|k: Seq<char>| #[trigger] group_members(idx@, k) == if k == key@ {
                        group_members(i0, k).insert(x)
                    } else {
                        group_members(i0, k)
                    } by {
                        if k == key@ {
                            lemma_member_of_entry(i0, i as int, x);
                            assert(group_members(i0, k).insert(x) =~= group_members(i0, k));
                        }
                    }
                    assert(has_group(i0, key@)) by {
                        assert(i0[i as int].0@ == key@);
                    }
                }
            }
            return;
        }
        i = i + 1;
    }
    let mut ids: Vec<Id> = Vec::new();
    ids.push(x);
    let name = key.clone();
    idx.push((name, ids));
    proof {
        assert forall|k: Seq<char>| #[trigger] group_members(idx@, k) == if k == key@ {
            group_members(i0, k).insert(x)
        } else {
            group_members(i0, k)
        } by {
            lemma_members_push_entry(i0, (name, ids), k);
            assert(ids@.to_set() =~= set![x]) by {
                assert forall|y: Id| ids@.to_set().contains(y) <==> y == x by {
                    if y == x {
                        assert(ids@[0] == x);
                    }
                }
            }
            if k == key@ {
                assert(group_members(i0, k).union(set![x]) =~= group_members(i0, k).insert(x));
            }
        }
        assert forall|k: Seq<char>| #[trigger] has_group(idx@, k) <==> has_group(i0, k) || k == key@ by {
            if has_group(i0, k) {
                let j = choose|j: int| 0 <= j < i0.len() && (#[trigger] i0[j]).0@ == k;
                assert(idx@[j].0@ == k);
            }
            if has_group(idx@, k) {
                let j = choose|j: int| 0 <= j < idx@.len() && (#[trigger] idx@[j]).0@ == k;
                if j < i0.len() {
                    assert(i0[j].0@ == k);
                }
            }
            if k == key@ {
                assert(idx@[i0.len() as int].0@ == k);
            }
        }
    }
}

proof fn lemma_member_of_entry(idx: Seq<(String, Vec<Id>)>, i: int, x: Id)
    requires
        0 <= i < idx.len(),
        idx[i].1@.contains(x),
    ensures
        group_members(idx, idx[i].0@).contains(x),
    decreases idx.len(),
{
    if i < idx.len() - 1 {
        lemma_member_of_entry(idx.drop_last(), i, x);
        assert(idx.drop_last()[i] == idx[i]);
    } else {
        assert(idx.last().1@.to_set().contains(x));
    }
}

/// A character a group or word name in a data line may hold: an ASCII
/// letter or a space.
pub open spec fn is_term_char(c: char) -> bool {
    ('a' <= c && c <= 'z') || ('A' <= c && c <= 'Z') || c == ' '
}

/// The end of the run of name characters of `s` from `i`.
pub open spec fn term_run_end(s: Seq<char>, i: int) -> int
    decreases s.len() - i,
{
    if i < 0 || i >= s.len() || !is_term_char(s[i]) {
        i
    } else {
        term_run_end(s, i + 1)
    }
}

/// A term `<key><name>)` starts at `p`.
pub open spec fn term_at(s: Seq<char>, key: Seq<char>, p: int) -> bool {
    occurs_at(s, key, p) && term_run_end(s, p + key.len()) < s.len() && s[term_run_end(s, p + key.len())]
        == ')'
}

/// The name of the first term `<key><name>)` of `s` from `i` on, where a
/// name is a run of ASCII letters and spaces.
pub open spec fn contained_term_from(s: Seq<char>, key: Seq<char>, i: int) -> Option<Seq<char>>
    decreases s.len() + 1 - i,
{
    if i < 0 || i > s.len() {
        None
    } else if term_at(s, key, i) {
        Some(s.subrange(i + key.len(), term_run_end(s, i + key.len())))
    } else {
        contained_term_from(s, key, i + 1)
    }
}

/// The name of the first term `<key><name>)` of `s`, such as the group
/// `Metal` of `HAS_GROUP(Metal)`.
pub open spec fn contained_term(s: Seq<char>, key: Seq<char>) -> Option<Seq<char>> {
    contained_term_from(s, key, 0)
}

fn is_term_char_exec(c: char) -> (b: bool)
    ensures
        b == is_term_char(c),
{
    ('a' <= c && c <= 'z') || ('A' <= c && c <= 'Z') || c == ' '
}

proof fn lemma_term_run_end(s: Seq<char>, i: int)
    requires
        0 <= i <= s.len(),
    ensures
        i <= term_run_end(s, i) <= s.len(),
        forall|j: int| i <= j < term_run_end(s, i) ==> is_term_char(#[trigger] s[j]),
    decreases s.len() - i,
{
    if i < s.len() && is_term_char(s[i]) {
        lemma_term_run_end(s, i + 1);
    }
}

fn term_run_end_exec(s: &Vec<char>, i: usize) -> (r: usize)
    requires
        i <= s.len(),
    ensures
        r == term_run_end(s@, i as int),
{
    let mut j: usize = i;
    while j < s.len() && is_term_char_exec(s[j])
        invariant
            i <= j <= s.len(),
            term_run_end(s@, i as int) == term_run_end(s@, j as int),
        decreases s.len() - j,
    {
        j = j + 1;
    }
    j
}

/// The name of the first term `<key><name>)` of `sample` (see
/// [`contained_term`]).
fn extract_contained_term(sample: &Vec<char>, key: &Vec<char>) -> (r: Option<Vec<char>>)
    ensures
        r matches Some(t) ==> contained_term(sample@, key@) == Some(t@),
        r is None ==> contained_term(sample@, key@) is None,
{
    let mut p: usize = 0;
    loop
        invariant
            p <= sample.len(),
            contained_term(sample@, key@) == contained_term_from(sample@, key@, p as int),
        decreases sample.len() - p,
    {
        if occurs_at_exec(sample, key, p) {
            let start = p + key.len();
            let end = term_run_end_exec(sample, start);
            proof {
                lemma_term_run_end(sample@, start as int);
            }
            if end < sample.len() && sample[end] == ')' {
                return Some(sub_chars(sample, start, end));
            }
        }
        if p == sample.len() {
            assert(contained_term_from(sample@, key@, p + 1) is None);
            return None;
        }
        p = p + 1;
    }
}

/// Files the group name `name` under the group `key` of `group_groups`.
fn add_name_to_group(idx: &mut Vec<(String, Vec<String>)>, key: &String, name: &String)
    ensures
        forall|k: Seq<char>|
            #[trigger] group_names(final(idx)@, k) == if k == key@ {
                group_names(old(idx)@, k).insert(name@)
            } else {
                group_names(old(idx)@, k)
            },
{
    let ghost i0 = idx@;
    let mut i: usize = 0;
    while i < idx.len()
        invariant
            i <= idx.len(),
            idx@ == i0,
            i0 == old(idx)@,
        decreases idx.len() - i,
    {
        if eq_string(&idx[i].0, key) {
            let (entry, mut names) = idx.remove(i);
            let mut found = false;
            let mut j: usize = 0;
            while j < names.len()
                invariant
                    j <= names.len(),
                    !found ==> forall|q: int| 0 <= q < j ==> names@[q]@ != name@,
                    found ==> views_of_strings(names@).contains(name@),
                decreases names.len() - j,
            {
                if eq_string(&names[j], name) {
                    found = true;
                    assert(views_of_strings(names@)[j as int] == name@);
                }
                j = j + 1;
            }
            let ghost before = names@;
            if !found {
                names.push(name.clone());
            }
            idx.insert(i, (entry, names));
            proof {
                assert(idx@ =~= i0.update(i as int, (entry, names)));
                assert(views_of_strings(names@).to_set() =~= views_of_strings(i0[i as int].1@).to_set().insert(name@)) by {
                    assert forall|y: Seq<char>| views_of_strings(names@).to_set().contains(y) <==> views_of_strings(i0[i as int].1@).to_set().insert(name@).contains(y) by {
                        if views_of_strings(names@).contains(y) {
                            let q = choose|q: int| 0 <= q < names@.len() && views_of_strings(names@)[q] == y;
                            if q < before.len() {
                                assert(views_of_strings(before)[q] == y);
                            }
                        }
                        if views_of_strings(before).contains(y) {
                            let q = choose|q: int| 0 <= q < before.len() && views_of_strings(before)[q] == y;
                            assert(views_of_strings(names@)[q] == y);
                        }
                        if y == name@ && !found {
                            assert(views_of_strings(names@)[before.len() as int] == y);
                        }
                    }
                }
                assert forall|k: Seq<char>| #[trigger] group_names(idx@, k) == if k == key@ {
                    group_names(i0, k).insert(name@)
                } else {
                    group_names(i0, k)
                } by {
                    lemma_names_update(i0, i as int, (entry, names), name@, k);
                }
            }
            return;
        }
        i = i + 1;
    }
    let names = vec![name.clone()];
    idx.push((key.clone(), names));
    proof {
        assert forall|k: Seq<char>| #[trigger] group_names(idx@, k) == if k == key@ {
            group_names(i0, k).insert(name@)
        } else {
            group_names(i0, k)
        } by {
            assert(idx@.drop_last() =~= i0);
            assert(views_of_strings(names@).to_set() =~= set![name@]) by {
                assert forall|y: Seq<char>| views_of_strings(names@).to_set().contains(y) <==> y == name@ by {
                    if y == name@ {
                        assert(views_of_strings(names@)[0] == y);
                    }
                }
            }
            if k == key@ {
                assert(group_names(i0, k).union(set![name@]) =~= group_names(i0, k).insert(name@));
            }
        }
    }
}

proof fn lemma_names_update(
    idx: Seq<(String, Vec<String>)>,
    i: int,
    e: (String, Vec<String>),
    x: Seq<char>,
    key: Seq<char>,
)
    requires
        0 <= i < idx.len(),
        e.0 == idx[i].0,
        views_of_strings(e.1@).to_set() == views_of_strings(idx[i].1@).to_set().insert(x),
    ensures
        group_names(idx.update(i, e), key) == if idx[i].0@ == key {
            group_names(idx, key).insert(x)
        } else {
            group_names(idx, key)
        },
    decreases idx.len(),
{
    let u = idx.update(i, e);
    if i == idx.len() - 1 {
        assert(u.drop_last() =~= idx.drop_last());
        if idx[i].0@ == key {
            assert(group_names(u, key) =~= group_names(idx, key).insert(x));
        }
    } else {
        lemma_names_update(idx.drop_last(), i, e, x, key);
        assert(u.drop_last() =~= idx.drop_last().update(i, e));
        if idx.last().0@ == key && idx[i].0@ == key {
            assert(group_names(u, key) =~= group_names(idx, key).insert(x));
        }
    }
}

/// The first field of a data line: the word, template or group it is
/// about.
pub open spec fn line_base(line: Seq<char>) -> Seq<char> {
    split(line, ',')[0]
}

/// The other fields of a data line, trimmed.
pub open spec fn line_data(line: Seq<char>) -> Seq<Seq<char>> {
    split(line, ',').drop_first().map_values(|e: Seq<char>| trim(e))
}

/// The names of the terms `<key><name>)` of the fields, in order.
pub open spec fn field_terms(data: Seq<Seq<char>>, key: Seq<char>) -> Seq<Seq<char>>
    decreases data.len(),
{
    if data.len() == 0 {
        Seq::empty()
    } else {
        match contained_term(trim(data.last()), key) {
            Some(t) => field_terms(data.drop_last(), key).push(t),
            None => field_terms(data.drop_last(), key),
        }
    }
}

/// The name of the last term `<key><name>)` of the fields.
pub open spec fn last_term(data: Seq<Seq<char>>, key: Seq<char>) -> Option<Seq<char>> {
    let t = field_terms(data, key);
    if t.len() == 0 {
        None
    } else {
        Some(t.last())
    }
}

/// Some field, trimmed, is `flag`.
pub open spec fn flagged(data: Seq<Seq<char>>, flag: Seq<char>) -> bool {
    exists|i: int| 0 <= i < data.len() && trim(#[trigger] data[i]) == flag
}

/// The group names of an entry: each once, those of the terms.
pub open spec fn groups_read(groups: Seq<String>, data: Seq<Seq<char>>) -> bool {
    &&& views_of_strings(groups).no_duplicates()
    &&& views_of_strings(groups).to_set() == field_terms(data, "HAS_GROUP("@).to_set()
}

/// Only the given part of the dictionary changed from `a` to `b`: `0` the
/// group groups, `1` the nouns and their index, `2` the adjectives and
/// theirs, `3` the templates and theirs.
pub open spec fn only_changed(a: Dictionary, b: Dictionary, part: int) -> bool {
    &&& part != 0 ==> b.group_groups == a.group_groups
    &&& part != 1 ==> b.nouns == a.nouns && b.noun_groups == a.noun_groups
    &&& part != 2 ==> b.adjectives == a.adjectives && b.adjective_groups == a.adjective_groups
    &&& part != 3 ==> b.templates == a.templates && b.template_groups == a.template_groups
}

/// The index `new` is `old` with `id` filed under each of `terms`.
pub open spec fn filed_under(old: Seq<(String, Vec<Id>)>, new: Seq<(String, Vec<Id>)>, terms: Seq<Seq<char>>, id: Id) -> bool {
    forall|k: Seq<char>|
        #[trigger] group_members(new, k) == if terms.contains(k) {
            group_members(old, k).insert(id)
        } else {
            group_members(old, k)
        }
}

/// What a data line does to the dictionary: a `GROUP` line files its word
/// under each group it names in the group groups; else a `NOUN`, an
/// `ADJECTIVE` or a `TEMPLATE` line adds an entry with a new id, its groups
/// (see [`groups_read`]) and its adjective or noun (the last named), filed
/// under each of its groups; any other line changes nothing.
pub open spec fn line_read(a: Dictionary, b: Dictionary, line: Seq<char>) -> bool {
    let base = line_base(line);
    let data = line_data(line);
    let groups = field_terms(data, "HAS_GROUP("@);
    if data.contains("GROUP"@) {
        &&& only_changed(a, b, 0)
        &&& forall|k: Seq<char>|
            #[trigger] group_names(b.group_groups@, k) == if groups.contains(k) {
                group_names(a.group_groups@, k).insert(base)
            } else {
                group_names(a.group_groups@, k)
            }
    } else if flagged(data, "NOUN"@) {
        &&& only_changed(a, b, 1)
        &&& b.nouns@.len() >= 1
        &&& {
            let n = b.nouns@.last();
            &&& b.nouns@.drop_last() == a.nouns@
            &&& n.base@ == base
            &&& n.recipie is None
            &&& groups_read(n.groups@, data)
            &&& opt_view(n.adjective) == last_term(data, "HAS_ADJECTIVE("@)
            &&& filed_under(a.noun_groups@, b.noun_groups@, groups, n.id)
        }
    } else if flagged(data, "ADJECTIVE"@) {
        &&& only_changed(a, b, 2)
        &&& b.adjectives@.len() >= 1
        &&& {
            let n = b.adjectives@.last();
            &&& b.adjectives@.drop_last() == a.adjectives@
            &&& n.base@ == base
            &&& groups_read(n.groups@, data)
            &&& opt_view(n.noun) == last_term(data, "HAS_NOUN("@)
            &&& filed_under(a.adjective_groups@, b.adjective_groups@, groups, n.id)
        }
    } else if flagged(data, "TEMPLATE"@) {
        &&& only_changed(a, b, 3)
        &&& b.templates@.len() >= 1
        &&& {
            let n = b.templates@.last();
            &&& b.templates@.drop_last() == a.templates@
            &&& n.template@ == base
            &&& groups_read(n.groups@, data)
            &&& filed_under(a.template_groups@, b.template_groups@, groups, n.id)
        }
    } else {
        b == a
    }
}

/// The first field of a line and its other fields, trimmed.
fn line_fields(line: &String) -> (r: (String, Vec<Vec<char>>))
    ensures
        r.0@ == line_base(line@),
        views(r.1@) == line_data(line@),
{
    let chars = chars_of(line.as_str());
    let pieces = split_chars(&chars, ',');
    proof {
        crate::text::lemma_split_nonempty(line@, ',');
    }
    assert(views(pieces@).len() == pieces@.len());
    let base = string_of(&pieces[0]);
    let mut data: Vec<Vec<char>> = Vec::new();
    let mut i: usize = 1;
    while i < pieces.len()
        invariant
            1 <= i <= pieces.len(),
            views(pieces@) == split(line@, ','),
            views(data@) == split(line@, ',').drop_first().take(i - 1).map_values(|e: Seq<char>| trim(e)),
        decreases pieces.len() - i,
    {
        let ghost prev = views(data@);
        data.push(trim_chars(&pieces[i]));
        proof {
            let sp = split(line@, ',');
            assert(views(data@) =~= prev.push(trim(sp[i as int])));
            assert(sp.drop_first().take(i as int) =~= sp.drop_first().take(i - 1).push(sp[i as int]));
            assert(sp.drop_first().take(i as int).map_values(|e: Seq<char>| trim(e)) =~= sp.drop_first().take(
                i - 1,
            ).map_values(|e: Seq<char>| trim(e)).push(trim(sp[i as int])));
        }
        i = i + 1;
    }
    assert(split(line@, ',').drop_first().take(pieces.len() - 1) =~= split(line@, ',').drop_first());
    (base, data)
}

/// The names of the terms `<key><name>)` of the fields (see
/// [`field_terms`]).
fn terms_of(data: &Vec<Vec<char>>, key: &str) -> (r: Vec<String>)
    ensures
        views_of_strings(r@) == field_terms(views(data@), key@),
{
    let k = chars_of(key);
    let mut out: Vec<String> = Vec::new();
    let mut i: usize = 0;
    while i < data.len()
        invariant
            i <= data.len(),
            k@ == key@,
            views_of_strings(out@) == field_terms(views(data@).take(i as int), key@),
        decreases data.len() - i,
    {
        assert(views(data@).take(i + 1).drop_last() =~= views(data@).take(i as int));
        let t = trim_chars(&data[i]);
        let ghost prev = views_of_strings(out@);
        match extract_contained_term(&t, &k) {
            Some(g) => {
                out.push(string_of(&g));
                assert(views_of_strings(out@) =~= prev.push(g@));
            },
            None => {},
        }
        i = i + 1;
    }
    assert(views(data@).take(data.len() as int) =~= views(data@));
    out
}

/// Whether some field, trimmed, is `flag`.
fn flagged_exec(data: &Vec<Vec<char>>, flag: &str) -> (b: bool)
    ensures
        b == flagged(views(data@), flag@),
{
    let f = chars_of(flag);
    let mut i: usize = 0;
    while i < data.len()
        invariant
            i <= data.len(),
            f@ == flag@,
            forall|j: int| 0 <= j < i ==> trim(#[trigger] views(data@)[j]) != flag@,
        decreases data.len() - i,
    {
        let t = trim_chars(&data[i]);
        if eq_chars(&t, &f) {
            assert(trim(views(data@)[i as int]) == flag@);
            return true;
        }
        i = i + 1;
    }
    false
}

/// Whether some field is exactly `flag`.
fn holds_field(data: &Vec<Vec<char>>, flag: &str) -> (b: bool)
    ensures
        b == views(data@).contains(flag@),
{
    let f = chars_of(flag);
    let mut i: usize = 0;
    while i < data.len()
        invariant
            i <= data.len(),
            f@ == flag@,
            forall|j: int| 0 <= j < i ==> views(data@)[j] != flag@,
        decreases data.len() - i,
    {
        if eq_chars(&data[i], &f) {
            assert(views(data@)[i as int] == flag@);
            return true;
        }
        i = i + 1;
    }
    false
}

/// The strings of `v`, each once, in order of first appearance.
fn distinct_strings(v: &Vec<String>) -> (r: Vec<String>)
    ensures
        views_of_strings(r@).no_duplicates(),
        views_of_strings(r@).to_set() == views_of_strings(v@).to_set(),
{
    let mut out: Vec<String> = Vec::new();
    let mut i: usize = 0;
    while i < v.len()
        invariant
            i <= v.len(),
            views_of_strings(out@).no_duplicates(),
            views_of_strings(out@).to_set() == views_of_strings(v@).take(i as int).to_set(),
        decreases v.len() - i,
    {
        let mut seen = false;
        let mut j: usize = 0;
        while j < out.len()
            invariant
                j <= out.len(),
                i < v.len(),
                !seen ==> forall|q: int| 0 <= q < j ==> views_of_strings(out@)[q] != v@[i as int]@,
                seen ==> views_of_strings(out@).contains(v@[i as int]@),
            decreases out.len() - j,
        {
            if eq_string(&out[j], &v[i]) {
                seen = true;
                assert(views_of_strings(out@)[j as int] == v@[i as int]@);
            }
            j = j + 1;
        }
        let ghost prev = views_of_strings(out@);
        if !seen {
            out.push(v[i].clone());
            assert(views_of_strings(out@) =~= prev.push(v@[i as int]@));
        }
        proof {
            let x = v@[i as int]@;
            assert(views_of_strings(v@).take(i + 1) =~= views_of_strings(v@).take(i as int).push(x));
            assert(views_of_strings(out@).to_set() =~= views_of_strings(v@).take(i + 1).to_set()) by {
                assert forall|y: Seq<char>| views_of_strings(out@).to_set().contains(y) <==> views_of_strings(v@).take(i + 1).to_set().contains(y) by {
                    let now = views_of_strings(out@);
                    let upto = views_of_strings(v@).take(i + 1);
                    if now.contains(y) {
                        let q = choose|q: int| 0 <= q < now.len() && now[q] == y;
                        if q < prev.len() {
                            assert(prev.contains(y));
                            assert(views_of_strings(v@).take(i as int).to_set().contains(y));
                            let r = choose|r: int| 0 <= r < i && views_of_strings(v@).take(i as int)[r] == y;
                            assert(upto[r] == y);
                        } else {
                            assert(upto[i as int] == y);
                        }
                    }
                    if upto.contains(y) {
                        let q = choose|q: int| 0 <= q < upto.len() && upto[q] == y;
                        if q < i {
                            assert(views_of_strings(v@).take(i as int)[q] == y);
                            assert(prev.to_set().contains(y));
                            let r = choose|r: int| 0 <= r < prev.len() && prev[r] == y;
                            assert(now[r] == y);
                        } else if !seen {
                            assert(now[prev.len() as int] == y);
                        }
                    }
                }
            }
            if !seen {
                assert forall|a: int, b: int| 0 <= a < b < views_of_strings(out@).len() implies views_of_strings(out@)[a] != views_of_strings(out@)[b] by {
                    if b == prev.len() {
                        assert(prev[a] != x);
                    } else {
                        assert(prev[a] != prev[b]);
                    }
                }
            }
        }
        i = i + 1;
    }
    assert(views_of_strings(v@).take(v.len() as int) =~= views_of_strings(v@));
    out
}

/// Files `id` under each of the groups `terms`.
fn file_under(idx: &mut Vec<(String, Vec<Id>)>, terms: &Vec<String>, id: Id)
    ensures
        filed_under(old(idx)@, final(idx)@, views_of_strings(terms@), id),
{
    let ghost i0 = idx@;
    let mut i: usize = 0;
    while i < terms.len()
        invariant
            i <= terms.len(),
            i0 == old(idx)@,
            filed_under(i0, idx@, views_of_strings(terms@).take(i as int), id),
        decreases terms.len() - i,
    {
        let ghost before = idx@;
        add_to_group(idx, &terms[i], id);
        proof {
            let t = views_of_strings(terms@);
            assert(t.take(i + 1) =~= t.take(i as int).push(t[i as int]));
            assert forall|k: Seq<char>| #[trigger] group_members(idx@, k) == if t.take(i + 1).contains(k) {
                group_members(i0, k).insert(id)
            } else {
                group_members(i0, k)
            } by {
                lemma_push_contains_str(t.take(i as int), t[i as int], k);
                assert(group_members(before, k) == if t.take(i as int).contains(k) {
                    group_members(i0, k).insert(id)
                } else {
                    group_members(i0, k)
                });
                if k == t[i as int] && t.take(i as int).contains(k) {
                    assert(group_members(i0, k).insert(id).insert(id) =~= group_members(i0, k).insert(id));
                }
            }
        }
        i = i + 1;
    }
    assert(views_of_strings(terms@).take(terms.len() as int) =~= views_of_strings(terms@));
}

proof fn lemma_push_contains_str(s: Seq<Seq<char>>, a: Seq<char>, x: Seq<char>)
    ensures
        s.push(a).contains(x) <==> s.contains(x) || x == a,
{
    if s.contains(x) {
        let i = choose|i: int| 0 <= i < s.len() && s[i] == x;
        assert(s.push(a)[i] == x);
    }
    if x == a {
        assert(s.push(a)[s.len() as int] == a);
    }
    if s.push(a).contains(x) {
        let i = choose|i: int| 0 <= i < s.len() + 1 && s.push(a)[i] == x;
        if i < s.len() {
            assert(s[i] == x);
        }
    }
}

fn last_of(v: &Vec<String>) -> (r: Option<String>)
    ensures
        opt_view(r) == (if v@.len() == 0 {
            None::<Seq<char>>
        } else {
            Some(views_of_strings(v@).last())
        }),
{
    if v.len() == 0 {
        None
    } else {
        Some(v[v.len() - 1].clone())
    }
}

impl Dictionary {
    /// Reads a data line into the dictionary (see [`line_read`]).
    pub fn parse_datafile_line(&mut self, line: String)
        ensures
            line_read(*old(self), *final(self), line@),
    {
        let (base, data) = line_fields(&line);
        let groups = terms_of(&data, "HAS_GROUP(");
        proof {
            reveal_strlit("HAS_GROUP(");
        }
        if holds_field(&data, "GROUP") {
            let ghost g0 = self.group_groups@;
            let mut i: usize = 0;
            while i < groups.len()
                invariant
                    i <= groups.len(),
                    self.nouns == old(self).nouns,
                    self.noun_groups == old(self).noun_groups,
                    self.adjectives == old(self).adjectives,
                    self.adjective_groups == old(self).adjective_groups,
                    self.templates == old(self).templates,
                    self.template_groups == old(self).template_groups,
                    g0 == old(self).group_groups@,
                    forall|k: Seq<char>|
                        #[trigger] group_names(self.group_groups@, k) == if views_of_strings(groups@).take(i as int).contains(k) {
                            group_names(g0, k).insert(base@)
                        } else {
                            group_names(g0, k)
                        },
                decreases groups.len() - i,
            {
                let ghost before = self.group_groups@;
                add_name_to_group(&mut self.group_groups, &groups[i], &base);
                proof {
                    let t = views_of_strings(groups@);
                    assert(t.take(i + 1) =~= t.take(i as int).push(t[i as int]));
                    assert forall|k: Seq<char>|
                        #[trigger] group_names(self.group_groups@, k) == if t.take(i + 1).contains(k) {
                            group_names(g0, k).insert(base@)
                        } else {
                            group_names(g0, k)
                        } by {
                        lemma_push_contains_str(t.take(i as int), t[i as int], k);
                        if k == t[i as int] && t.take(i as int).contains(k) {
                            assert(group_names(g0, k).insert(base@).insert(base@) =~= group_names(g0, k).insert(base@));
                        }
                    }
                }
                i = i + 1;
            }
            assert(views_of_strings(groups@).take(groups.len() as int) =~= views_of_strings(groups@));
        } else if flagged_exec(&data, "NOUN") {
            self.create_noun(base, &data, &groups);
        } else if flagged_exec(&data, "ADJECTIVE") {
            self.create_adjective(base, &data, &groups);
        } else if flagged_exec(&data, "TEMPLATE") {
            self.create_template(base, &data, &groups);
        }
    }

    /// Adds the noun of a `NOUN` line (see [`line_read`]), under a new id.
    fn create_noun(&mut self, base: String, data: &Vec<Vec<char>>, groups: &Vec<String>)
        requires
            views_of_strings(groups@) == field_terms(views(data@), "HAS_GROUP("@),
        ensures
            only_changed(*old(self), *final(self), 1),
            final(self).nouns@.len() >= 1,
            ({
                let n = final(self).nouns@.last();
                &&& final(self).nouns@.drop_last() == old(self).nouns@
                &&& n.base@ == base@
                &&& n.recipie is None
                &&& groups_read(n.groups@, views(data@))
                &&& opt_view(n.adjective) == last_term(views(data@), "HAS_ADJECTIVE("@)
                &&& filed_under(old(self).noun_groups@, final(self).noun_groups@, views_of_strings(groups@), n.id)
            }),
    {
        let id = new_id();
        let adjectives = terms_of(data, "HAS_ADJECTIVE(");
        let noun = Noun { id, base, recipie: None, groups: distinct_strings(groups), adjective: last_of(&adjectives) };
        file_under(&mut self.noun_groups, groups, id);
        let ghost n0 = self.nouns@;
        self.nouns.push(noun);
        assert(self.nouns@.drop_last() =~= n0);
    }

    /// Adds the adjective of an `ADJECTIVE` line (see [`line_read`]), under
    /// a new id.
    fn create_adjective(&mut self, base: String, data: &Vec<Vec<char>>, groups: &Vec<String>)
        requires
            views_of_strings(groups@) == field_terms(views(data@), "HAS_GROUP("@),
        ensures
            only_changed(*old(self), *final(self), 2),
            final(self).adjectives@.len() >= 1,
            ({
                let n = final(self).adjectives@.last();
                &&& final(self).adjectives@.drop_last() == old(self).adjectives@
                &&& n.base@ == base@
                &&& groups_read(n.groups@, views(data@))
                &&& opt_view(n.noun) == last_term(views(data@), "HAS_NOUN("@)
                &&& filed_under(
                    old(self).adjective_groups@,
                    final(self).adjective_groups@,
                    views_of_strings(groups@),
                    n.id,
                )
            }),
    {
        let id = new_id();
        let nouns = terms_of(data, "HAS_NOUN(");
        let adjective = Adjective { id, base, groups: distinct_strings(groups), noun: last_of(&nouns) };
        file_under(&mut self.adjective_groups, groups, id);
        let ghost a0 = self.adjectives@;
        self.adjectives.push(adjective);
        assert(self.adjectives@.drop_last() =~= a0);
    }

    /// Adds the template of a `TEMPLATE` line (see [`line_read`]), under a
    /// new id.
    fn create_template(&mut self, template: String, data: &Vec<Vec<char>>, groups: &Vec<String>)
        requires
            views_of_strings(groups@) == field_terms(views(data@), "HAS_GROUP("@),
        ensures
            only_changed(*old(self), *final(self), 3),
            final(self).templates@.len() >= 1,
            ({
                let n = final(self).templates@.last();
                &&& final(self).templates@.drop_last() == old(self).templates@
                &&& n.template@ == template@
                &&& groups_read(n.groups@, views(data@))
                &&& filed_under(
                    old(self).template_groups@,
                    final(self).template_groups@,
                    views_of_strings(groups@),
                    n.id,
                )
            }),
    {
        let id = new_id();
        let t = Template { id, template, groups: distinct_strings(groups) };
        file_under(&mut self.template_groups, groups, id);
        let ghost t0 = self.templates@;
        self.templates.push(t);
        assert(self.templates@.drop_last() =~= t0);
    }
}

/// A noun read from a data line is filed under every group the line names,
/// so a query of any one of those groups finds its id.
pub proof fn lemma_noun_line_filed(a: Dictionary, b: Dictionary, line: Seq<char>, group: Seq<char>)
    requires
        line_read(a, b, line),
        !line_data(line).contains("GROUP"@),
        flagged(line_data(line), "NOUN"@),
        field_terms(line_data(line), "HAS_GROUP("@).contains(group),
    ensures
        b.nouns@.last().base@ == line_base(line),
        combined(b.noun_groups@, seq![group], LogicalOperator::AND).contains(b.nouns@.last().id),
        combined(b.noun_groups@, seq![group], LogicalOperator::OR).contains(b.nouns@.last().id),
{
    let id = b.nouns@.last().id;
    assert(group_members(b.noun_groups@, group) == group_members(a.noun_groups@, group).insert(id));
}

/// The ids filed under the groups: under every one of them (`AND`) or
/// under any (`OR`).
pub open spec fn combined(idx: Seq<(String, Vec<Id>)>, groups: Seq<Seq<char>>, op: LogicalOperator) -> Set<Id>
    decreases groups.len(),
{
    if groups.len() == 0 {
        Set::empty()
    } else if groups.len() == 1 {
        group_members(idx, groups[0])
    } else {
        let prev = combined(idx, groups.drop_last(), op);
        match op {
            LogicalOperator::AND => prev.intersect(group_members(idx, groups.last())),
            LogicalOperator::OR => prev.union(group_members(idx, groups.last())),
        }
    }
}

fn is_member(idx: &Vec<(String, Vec<Id>)>, key: &String, x: Id) -> (b: bool)
    ensures
        b == group_members(idx@, key@).contains(x),
{
    let mut i: usize = 0;
    while i < idx.len()
        invariant
            i <= idx.len(),
            !group_members(idx@.take(i as int), key@).contains(x),
        decreases idx.len() - i,
    {
        assert(idx@.take(i + 1).drop_last() =~= idx@.take(i as int));
        if eq_string(&idx[i].0, key) && holds_id(&idx[i].1, x) {
            proof {
                lemma_members_prefix(idx@, i + 1, key@, x);
            }
            return true;
        }
        i = i + 1;
    }
    assert(idx@.take(idx.len() as int) =~= idx@);
    false
}

proof fn lemma_members_prefix(idx: Seq<(String, Vec<Id>)>, n: int, key: Seq<char>, x: Id)
    requires
        0 <= n <= idx.len(),
        group_members(idx.take(n), key).contains(x),
    ensures
        group_members(idx, key).contains(x),
    decreases idx.len() - n,
{
    if n < idx.len() {
        assert(idx.take(n + 1).drop_last() =~= idx.take(n));
        lemma_members_prefix(idx, n + 1, key, x);
    } else {
        assert(idx.take(n) =~= idx);
    }
}

/// The ids filed under the groups (see [`combined`]), each once.
fn combined_ids(idx: &Vec<(String, Vec<Id>)>, groups: &Vec<String>, op: LogicalOperator) -> (r: Vec<Id>)
    requires
        groups.len() > 0,
    ensures
        r@.no_duplicates(),
        r@.to_set() == combined(idx@, views_of_strings(groups@), op),
{
    let ghost gs = views_of_strings(groups@);
    let mut ids: Vec<Id> = Vec::new();
    let mut e: usize = 0;
    while e < idx.len()
        invariant
            e <= idx.len(),
            groups.len() > 0,
            ids@.no_duplicates(),
            ids@.to_set() == group_members(idx@.take(e as int), groups@[0]@),
        decreases idx.len() - e,
    {
        assert(idx@.take(e + 1).drop_last() =~= idx@.take(e as int));
        if eq_string(&idx[e].0, &groups[0]) {
            let mut q: usize = 0;
            let ghost before = ids@;
            while q < idx[e].1.len()
                invariant
                    e < idx.len(),
                    q <= idx@[e as int].1@.len(),
                    ids@.no_duplicates(),
                    ids@.to_set() == before.to_set().union(idx@[e as int].1@.take(q as int).to_set()),
                decreases idx@[e as int].1@.len() - q,
            {
                let x = idx[e].1[q];
                let ghost prev = ids@;
                let seen = holds_id(&ids, x);
                if !seen {
                    ids.push(x);
                }
                proof {
                    let entry = idx@[e as int].1@;
                    assert(entry.take(q + 1) =~= entry.take(q as int).push(x));
                    assert forall|y: Id| ids@.contains(y) <==> prev.contains(y) || y == x by {
                        lemma_push_contains_id(prev, x, y);
                    }
                    assert(ids@.to_set() =~= before.to_set().union(entry.take(q + 1).to_set())) by {
                        assert forall|y: Id| ids@.to_set().contains(y) <==> before.to_set().union(entry.take(q + 1).to_set()).contains(y) by {
                            lemma_push_contains_id(entry.take(q as int), x, y);
                            assert(prev.to_set().contains(y) <==> prev.contains(y));
                        }
                    }
                    if !prev.contains(x) {
                        assert forall|a: int, b: int| 0 <= a < b < ids@.len() implies ids@[a] != ids@[b] by {
                            if b == prev.len() {
                                assert(prev[a] != x);
                            }
                        }
                    }
                }
                q = q + 1;
            }
            proof {
                let entry = idx@[e as int].1@;
                assert(entry.take(entry.len() as int) =~= entry);
                assert(ids@.to_set() =~= group_members(idx@.take(e + 1), groups@[0]@));
            }
        }
        e = e + 1;
    }
    assert(idx@.take(idx.len() as int) =~= idx@);
    assert(gs.take(1) =~= seq![gs[0]]);
    let mut g: usize = 1;
    while g < groups.len()
        invariant
            1 <= g <= groups.len(),
            gs == views_of_strings(groups@),
            ids@.no_duplicates(),
            ids@.to_set() == combined(idx@, gs.take(g as int), op),
        decreases groups.len() - g,
    {
        let ghost before = ids@;
        let ghost target = group_members(idx@, gs[g as int]);
        let mut next: Vec<Id> = Vec::new();
        match op {
            LogicalOperator::AND => {
                let mut q: usize = 0;
                while q < ids.len()
                    invariant
                        q <= ids.len(),
                        ids@ == before,
                        g < groups.len(),
                        target == group_members(idx@, groups@[g as int]@),
                        before.no_duplicates(),
                        next@.no_duplicates(),
                        forall|y: Id| #![trigger next@.contains(y)] next@.contains(y) <==> before.take(q as int).contains(y) && target.contains(y),
                    decreases ids.len() - q,
                {
                    let x = ids[q];
                    let ghost prev = next@;
                    let member = is_member(idx, &groups[g], x);
                    if member {
                        next.push(x);
                    }
                    proof {
                        assert(before.take(q + 1) =~= before.take(q as int).push(x));
                        assert forall|y: Id| #![trigger next@.contains(y)] next@.contains(y) <==> before.take(q + 1).contains(y) && target.contains(y) by {
                            lemma_push_contains_id(prev, x, y);
                            lemma_push_contains_id(before.take(q as int), x, y);
                            assert(member == target.contains(x));
                            assert(prev.contains(y) <==> before.take(q as int).contains(y) && target.contains(y));
                            assert(before.take(q + 1).contains(y) <==> before.take(q as int).contains(y) || y == x);
                            if !member {
                                assert(next@ == prev);
                            } else {
                                assert(next@ == prev.push(x));
                            }
                        }
                        if next@.len() > prev.len() {
                            assert(!before.take(q as int).contains(x)) by {
                                if before.take(q as int).contains(x) {
                                    let a = choose|a: int| 0 <= a < q && before.take(q as int)[a] == x;
                                    assert(before[a] == before[q as int]);
                                }
                            }
                            assert forall|a: int, b: int| 0 <= a < b < next@.len() implies next@[a] != next@[b] by {
                                if b == prev.len() {
                                    assert(prev.contains(prev[a]));
                                }
                            }
                        }
                    }
                    q = q + 1;
                }
                proof {
                    assert(before.take(before.len() as int) =~= before);
                }
            },
            LogicalOperator::OR => {
                let mut q: usize = 0;
                while q < ids.len()
                    invariant
                        q <= ids.len(),
                        ids@ == before,
                        next@ == before.take(q as int),
                    decreases ids.len() - q,
                {
                    next.push(ids[q]);
                    q = q + 1;
                    assert(next@ =~= before.take(q as int));
                }
                assert(before.take(before.len() as int) =~= before);
                let mut e: usize = 0;
                while e < idx.len()
                    invariant
                        e <= idx.len(),
                        g < groups.len(),
                        next@.no_duplicates(),
                        next@.to_set() == before.to_set().union(group_members(idx@.take(e as int), groups@[g as int]@)),
                    decreases idx.len() - e,
                {
                    assert(idx@.take(e + 1).drop_last() =~= idx@.take(e as int));
                    if eq_string(&idx[e].0, &groups[g]) {
                        let mut q: usize = 0;
                        let ghost mid = next@;
                        while q < idx[e].1.len()
                            invariant
                                e < idx.len(),
                                q <= idx@[e as int].1@.len(),
                                next@.no_duplicates(),
                                next@.to_set() == mid.to_set().union(idx@[e as int].1@.take(q as int).to_set()),
                            decreases idx@[e as int].1@.len() - q,
                        {
                            let x = idx[e].1[q];
                            let ghost prev = next@;
                            let seen = holds_id(&next, x);
                            if !seen {
                                next.push(x);
                            }
                            proof {
                                let entry = idx@[e as int].1@;
                                assert(entry.take(q + 1) =~= entry.take(q as int).push(x));
                                assert forall|y: Id| next@.contains(y) <==> prev.contains(y) || y == x by {
                                    lemma_push_contains_id(prev, x, y);
                                }
                                assert(next@.to_set() =~= mid.to_set().union(entry.take(q + 1).to_set())) by {
                                    assert forall|y: Id| next@.to_set().contains(y) <==> mid.to_set().union(entry.take(q + 1).to_set()).contains(y) by {
                                        lemma_push_contains_id(entry.take(q as int), x, y);
                                        assert(prev.to_set().contains(y) <==> prev.contains(y));
                                    }
                                }
                                if !prev.contains(x) {
                                    assert forall|a: int, b: int| 0 <= a < b < next@.len() implies next@[a] != next@[b] by {
                                        if b == prev.len() {
                                            assert(prev[a] != x);
                                        }
                                    }
                                }
                            }
                            q = q + 1;
                        }
                        proof {
                            let entry = idx@[e as int].1@;
                            assert(entry.take(entry.len() as int) =~= entry);
                            assert(next@.to_set() =~= before.to_set().union(group_members(idx@.take(e + 1), groups@[g as int]@)));
                        }
                    }
                    e = e + 1;
                }
                assert(idx@.take(idx.len() as int) =~= idx@);
            },
        }
        proof {
            assert(gs.take(g + 1).drop_last() =~= gs.take(g as int));
            assert(gs.take(g + 1).last() == gs[g as int]);
            assert(gs[g as int] == groups@[g as int]@);
            let prior = combined(idx@, gs.take(g as int), op);
            let here = group_members(idx@, gs[g as int]);
            match op {
                LogicalOperator::AND => {
                    assert(combined(idx@, gs.take(g + 1), op) == prior.intersect(here));
                },
                LogicalOperator::OR => {
                    assert(combined(idx@, gs.take(g + 1), op) == prior.union(here));
                },
            }
            assert(next@.to_set() =~= combined(idx@, gs.take(g + 1), op)) by {
                assert forall|y: Id| next@.to_set().contains(y) <==> combined(idx@, gs.take(g + 1), op).contains(y) by {
                    assert(before.to_set().contains(y) <==> before.contains(y));
                    assert(next@.to_set().contains(y) <==> next@.contains(y));
                }
            }
        }
        ids = next;
        g = g + 1;
    }
    assert(gs.take(groups.len() as int) =~= gs);
    ids
}

proof fn lemma_push_contains_id(s: Seq<Id>, a: Id, x: Id)
    ensures
        s.push(a).contains(x) <==> s.contains(x) || x == a,
{
    if s.contains(x) {
        let i = choose|i: int| 0 <= i < s.len() && s[i] == x;
        assert(s.push(a)[i] == x);
    }
    if x == a {
        assert(s.push(a)[s.len() as int] == a);
    }
    if s.push(a).contains(x) {
        let i = choose|i: int| 0 <= i < s.len() + 1 && s.push(a)[i] == x;
        if i < s.len() {
            assert(s[i] == x);
        }
    }
}

/// The index of the first noun with id `id`.
pub open spec fn noun_index(nouns: Seq<Noun>, id: Id) -> Option<int>
    decreases nouns.len(),
{
    if nouns.len() == 0 {
        None
    } else {
        match noun_index(nouns.drop_last(), id) {
            Some(i) => Some(i),
            None => if nouns.last().id == id {
                Some(nouns.len() - 1)
            } else {
                None
            },
        }
    }
}

/// The index of the first adjective with id `id`.
pub open spec fn adjective_index(adjectives: Seq<Adjective>, id: Id) -> Option<int>
    decreases adjectives.len(),
{
    if adjectives.len() == 0 {
        None
    } else {
        match adjective_index(adjectives.drop_last(), id) {
            Some(i) => Some(i),
            None => if adjectives.last().id == id {
                Some(adjectives.len() - 1)
            } else {
                None
            },
        }
    }
}

proof fn lemma_noun_index(s: Seq<Noun>, id: Id)
    ensures
        noun_index(s, id) matches Some(i) ==> 0 <= i < s.len() && s[i].id == id && forall|j: int|
            0 <= j < i ==> (#[trigger] s[j]).id != id,
        noun_index(s, id) is None ==> forall|j: int| 0 <= j < s.len() ==> (#[trigger] s[j]).id != id,
    decreases s.len(),
{
    if s.len() > 0 {
        lemma_noun_index(s.drop_last(), id);
        assert forall|j: int| 0 <= j < s.len() - 1 implies s.drop_last()[j] == s[j] by {}
    }
}

proof fn lemma_adjective_index(s: Seq<Adjective>, id: Id)
    ensures
        adjective_index(s, id) matches Some(i) ==> 0 <= i < s.len() && s[i].id == id && forall|j: int|
            0 <= j < i ==> (#[trigger] s[j]).id != id,
        adjective_index(s, id) is None ==> forall|j: int| 0 <= j < s.len() ==> (#[trigger] s[j]).id != id,
    decreases s.len(),
{
    if s.len() > 0 {
        lemma_adjective_index(s.drop_last(), id);
        assert forall|j: int| 0 <= j < s.len() - 1 implies s.drop_last()[j] == s[j] by {}
    }
}

fn noun_index_exec(nouns: &Vec<Noun>, id: Id) -> (r: Option<usize>)
    ensures
        r matches Some(i) ==> noun_index(nouns@, id) == Some(i as int),
        r is None ==> noun_index(nouns@, id) is None,
{
    proof {
        lemma_noun_index(nouns@, id);
    }
    let mut i: usize = 0;
    while i < nouns.len()
        invariant
            i <= nouns.len(),
            forall|j: int| 0 <= j < i ==> (#[trigger] nouns@[j]).id != id,
        decreases nouns.len() - i,
    {
        if nouns[i].id == id {
            proof {
                lemma_noun_index(nouns@, id);
            }
            return Some(i);
        }
        i = i + 1;
    }
    None
}

fn adjective_index_exec(adjectives: &Vec<Adjective>, id: Id) -> (r: Option<usize>)
    ensures
        r matches Some(i) ==> adjective_index(adjectives@, id) == Some(i as int),
        r is None ==> adjective_index(adjectives@, id) is None,
{
    proof {
        lemma_adjective_index(adjectives@, id);
    }
    let mut i: usize = 0;
    while i < adjectives.len()
        invariant
            i <= adjectives.len(),
            forall|j: int| 0 <= j < i ==> (#[trigger] adjectives@[j]).id != id,
        decreases adjectives.len() - i,
    {
        if adjectives[i].id == id {
            proof {
                lemma_adjective_index(adjectives@, id);
            }
            return Some(i);
        }
        i = i + 1;
    }
    None
}

/// The groups can be looked up: there is at least one, each has an entry
/// in the index, and every id filed under them (see [`combined`]) has a
/// noun.
pub open spec fn noun_query_ok(d: Dictionary, groups: Seq<Seq<char>>, op: LogicalOperator) -> bool {
    &&& groups.len() > 0
    &&& forall|i: int| 0 <= i < groups.len() ==> has_group(d.noun_groups@, #[trigger] groups[i])
    &&& forall|x: Id| #[trigger] combined(d.noun_groups@, groups, op).contains(x) ==> noun_index(d.nouns@, x) is Some
}

/// The groups can be looked up among the adjectives (see
/// [`noun_query_ok`]).
pub open spec fn adjective_query_ok(d: Dictionary, groups: Seq<Seq<char>>, op: LogicalOperator) -> bool {
    &&& groups.len() > 0
    &&& forall|i: int| 0 <= i < groups.len() ==> has_group(d.adjective_groups@, #[trigger] groups[i])
    &&& forall|x: Id|
        #[trigger] combined(d.adjective_groups@, groups, op).contains(x) ==> adjective_index(d.adjectives@, x) is Some
}

impl Dictionary {
    /// The nouns filed under the groups (see [`combined`]): for each id
    /// once, the first noun with it.
    pub fn nouns_with_groups(&self, groups: Vec<String>, logical_operator: LogicalOperator) -> (r: Vec<&Noun>)
        requires
            noun_query_ok(*self, views_of_strings(groups@), logical_operator),
        ensures
            forall|i: int|
                0 <= i < r@.len() ==> combined(self.noun_groups@, views_of_strings(groups@), logical_operator).contains(
                    (#[trigger] r@[i]).id,
                ) && *r@[i] == self.nouns@[noun_index(self.nouns@, r@[i].id).unwrap()],
            forall|x: Id|
                #[trigger] combined(self.noun_groups@, views_of_strings(groups@), logical_operator).contains(x)
                    ==> exists|i: int| 0 <= i < r@.len() && (#[trigger] r@[i]).id == x,
            forall|a: int, b: int| 0 <= a < b < r@.len() ==> r@[a].id != r@[b].id,
    {
        let ids = combined_ids(&self.noun_groups, &groups, logical_operator);
        let ghost set = combined(self.noun_groups@, views_of_strings(groups@), logical_operator);
        let mut out: Vec<&Noun> = Vec::new();
        let mut i: usize = 0;
        while i < ids.len()
            invariant
                i <= ids.len(),
                ids@.to_set() == set,
                ids@.no_duplicates(),
                noun_query_ok(*self, views_of_strings(groups@), logical_operator),
                set == combined(self.noun_groups@, views_of_strings(groups@), logical_operator),
                out@.len() == i,
                forall|q: int| 0 <= q < i ==> (#[trigger] out@[q]).id == ids@[q] && *out@[q] == self.nouns@[noun_index(self.nouns@, ids@[q]).unwrap()],
            decreases ids.len() - i,
        {
            assert(ids@.to_set().contains(ids@[i as int]));
            let k = noun_index_exec(&self.nouns, ids[i]).unwrap();
            proof {
                lemma_noun_index(self.nouns@, ids@[i as int]);
            }
            out.push(&self.nouns[k]);
            i = i + 1;
        }
        proof {
            assert forall|x: Id| #[trigger] set.contains(x) implies exists|i: int| 0 <= i < out@.len() && (#[trigger] out@[i]).id == x by {
                assert(ids@.to_set().contains(x));
                let q = choose|q: int| 0 <= q < ids@.len() && ids@[q] == x;
                assert(out@[q].id == x);
            }
            assert forall|i: int| 0 <= i < out@.len() implies set.contains((#[trigger] out@[i]).id) by {
                assert(ids@.to_set().contains(ids@[i]));
            }
        }
        out
    }

    /// The adjectives filed under the groups (see [`combined`]): for each
    /// id once, the first adjective with it.
    pub fn adjectives_with_groups(&self, groups: Vec<String>, logical_operator: LogicalOperator) -> (r: Vec<&Adjective>)
        requires
            adjective_query_ok(*self, views_of_strings(groups@), logical_operator),
        ensures
            forall|i: int|
                0 <= i < r@.len() ==> combined(self.adjective_groups@, views_of_strings(groups@), logical_operator).contains(
                    (#[trigger] r@[i]).id,
                ) && *r@[i] == self.adjectives@[adjective_index(self.adjectives@, r@[i].id).unwrap()],
            forall|x: Id|
                #[trigger] combined(self.adjective_groups@, views_of_strings(groups@), logical_operator).contains(x)
                    ==> exists|i: int| 0 <= i < r@.len() && (#[trigger] r@[i]).id == x,
            forall|a: int, b: int| 0 <= a < b < r@.len() ==> r@[a].id != r@[b].id,
    {
        let ids = combined_ids(&self.adjective_groups, &groups, logical_operator);
        let ghost set = combined(self.adjective_groups@, views_of_strings(groups@), logical_operator);
        let mut out: Vec<&Adjective> = Vec::new();
        let mut i: usize = 0;
        while i < ids.len()
            invariant
                i <= ids.len(),
                ids@.to_set() == set,
                ids@.no_duplicates(),
                adjective_query_ok(*self, views_of_strings(groups@), logical_operator),
                set == combined(self.adjective_groups@, views_of_strings(groups@), logical_operator),
                out@.len() == i,
                forall|q: int| 0 <= q < i ==> (#[trigger] out@[q]).id == ids@[q] && *out@[q] == self.adjectives@[adjective_index(self.adjectives@, ids@[q]).unwrap()],
            decreases ids.len() - i,
        {
            assert(ids@.to_set().contains(ids@[i as int]));
            let k = adjective_index_exec(&self.adjectives, ids[i]).unwrap();
            proof {
                lemma_adjective_index(self.adjectives@, ids@[i as int]);
            }
            out.push(&self.adjectives[k]);
            i = i + 1;
        }
        proof {
            assert forall|x: Id| #[trigger] set.contains(x) implies exists|i: int| 0 <= i < out@.len() && (#[trigger] out@[i]).id == x by {
                assert(ids@.to_set().contains(x));
                let q = choose|q: int| 0 <= q < ids@.len() && ids@[q] == x;
                assert(out@[q].id == x);
            }
            assert forall|i: int| 0 <= i < out@.len() implies set.contains((#[trigger] out@[i]).id) by {
                assert(ids@.to_set().contains(ids@[i]));
            }
        }
        out
    }

    /// A noun drawn at random among those filed under every one of the
    /// groups; there must be one.
    pub fn pick_noun_with_groups(&self, groups: Vec<String>) -> (r: &Noun)
        requires
            noun_query_ok(*self, views_of_strings(groups@), LogicalOperator::AND),
            combined(self.noun_groups@, views_of_strings(groups@), LogicalOperator::AND).len() > 0,
        ensures
            combined(self.noun_groups@, views_of_strings(groups@), LogicalOperator::AND).contains(r.id),
            *r == self.nouns@[noun_index(self.nouns@, r.id).unwrap()],
    {
        let ghost gs = views_of_strings(groups@);
        let options = self.nouns_with_groups(groups, LogicalOperator::AND);
        proof {
            let set = combined(self.noun_groups@, gs, LogicalOperator::AND);
            lemma_finite_combined(self.noun_groups@, gs, LogicalOperator::AND);
            let x = set.choose();
            assert(set.contains(x));
        }
        let k = random_below(options.len());
        options[k]
    }

    /// The base of a word of the type drawn at random among those filed
    /// under the groups (see [`combined`]); there must be one.
    pub fn get_word_base_with_groups(&self, word_type: WordType, groups: Vec<String>, logical_operator: LogicalOperator) -> (r: &str)
        requires
            word_type == WordType::Noun ==> noun_query_ok(*self, views_of_strings(groups@), logical_operator)
                && combined(self.noun_groups@, views_of_strings(groups@), logical_operator).len() > 0,
            word_type == WordType::Adjective ==> adjective_query_ok(*self, views_of_strings(groups@), logical_operator)
                && combined(self.adjective_groups@, views_of_strings(groups@), logical_operator).len() > 0,
        ensures
            word_type == WordType::Noun ==> exists|i: int|
                0 <= i < self.nouns@.len() && combined(self.noun_groups@, views_of_strings(groups@), logical_operator).contains(
                    (#[trigger] self.nouns@[i]).id,
                ) && r@ == self.nouns@[i].base@,
            word_type == WordType::Adjective ==> exists|i: int|
                0 <= i < self.adjectives@.len() && combined(
                    self.adjective_groups@,
                    views_of_strings(groups@),
                    logical_operator,
                ).contains((#[trigger] self.adjectives@[i]).id) && r@ == self.adjectives@[i].base@,
    {
        let ghost gs = views_of_strings(groups@);
        if word_type == WordType::Noun {
            let options = self.nouns_with_groups(groups, logical_operator);
            proof {
                let set = combined(self.noun_groups@, gs, logical_operator);
                lemma_finite_combined(self.noun_groups@, gs, logical_operator);
                let x = set.choose();
                assert(set.contains(x));
            }
            let k = random_below(options.len());
            let n = options[k];
            proof {
                lemma_noun_index(self.nouns@, n.id);
                let i = noun_index(self.nouns@, n.id).unwrap();
                assert(self.nouns@[i] == *n);
            }
            n.base.as_str()
        } else {
            let options = self.adjectives_with_groups(groups, logical_operator);
            proof {
                let set = combined(self.adjective_groups@, gs, logical_operator);
                lemma_finite_combined(self.adjective_groups@, gs, logical_operator);
                let x = set.choose();
                assert(set.contains(x));
            }
            let k = random_below(options.len());
            let a = options[k];
            proof {
                lemma_adjective_index(self.adjectives@, a.id);
                let i = adjective_index(self.adjectives@, a.id).unwrap();
                assert(self.adjectives@[i] == *a);
            }
            a.base.as_str()
        }
    }
}

proof fn lemma_finite_members(idx: Seq<(String, Vec<Id>)>, key: Seq<char>)
    ensures
        group_members(idx, key).finite(),
    decreases idx.len(),
{
    if idx.len() > 0 {
        lemma_finite_members(idx.drop_last(), key);
        vstd::seq_lib::seq_to_set_is_finite(idx.last().1@);
    }
}

proof fn lemma_finite_combined(idx: Seq<(String, Vec<Id>)>, groups: Seq<Seq<char>>, op: LogicalOperator)
    ensures
        combined(idx, groups, op).finite(),
    decreases groups.len(),
{
    if groups.len() == 1 {
        lemma_finite_members(idx, groups[0]);
    } else if groups.len() > 1 {
        lemma_finite_combined(idx, groups.drop_last(), op);
        lemma_finite_members(idx, groups.last());
    }
}

} // verus!

verus! {

/// The first noun with an id is at its index.
pub proof fn lemma_noun_at(nouns: Seq<Noun>, id: Id)
    ensures
        noun_index(nouns, id) matches Some(i) ==> 0 <= i < nouns.len() && nouns[i].id == id,
{
    lemma_noun_index(nouns, id);
}

/// Every id filed in the noun index, and every adjective id filed under a
/// member group, is the id of a noun (the nouns' own group lists are kept
/// by noun id).
pub open spec fn groups_resolvable(d: Dictionary) -> bool {
    &&& forall|k: Seq<char>, x: Id| #[trigger] group_members(d.noun_groups@, k).contains(x) ==> noun_index(d.nouns@, x) is Some
    &&& forall|p: Seq<char>, c: Seq<char>, x: Id|
        #![trigger group_names(d.group_groups@, p).contains(c), group_members(d.adjective_groups@, c).contains(x)]
        group_names(d.group_groups@, p).contains(c) && group_members(d.adjective_groups@, c).contains(x)
            ==> noun_index(d.nouns@, x) is Some
}

/// The index `b` holds what `a` does, and under each group each member
/// group's ids in `a`; whatever else `b` holds under a group, `b` holds
/// under one of its member groups.
pub open spec fn index_grown(a: Seq<(String, Vec<Id>)>, b: Seq<(String, Vec<Id>)>, gg: Seq<(String, Vec<String>)>) -> bool {
    &&& forall|k: Seq<char>, x: Id| #[trigger] group_members(a, k).contains(x) ==> group_members(b, k).contains(x)
    &&& forall|p: Seq<char>, c: Seq<char>, x: Id|
        #![trigger group_names(gg, p).contains(c), group_members(a, c).contains(x)]
        group_names(gg, p).contains(c) && group_members(a, c).contains(x) ==> group_members(b, p).contains(x)
    &&& forall|k: Seq<char>, x: Id|
        #[trigger] group_members(b, k).contains(x) ==> group_members(a, k).contains(x) || exists|c: Seq<char>|
            #[trigger] group_names(gg, k).contains(c) && group_members(b, c).contains(x)
}

/// Noun `b` is noun `a` with possibly more groups.
pub open spec fn noun_grown(a: Noun, b: Noun) -> bool {
    &&& b.id == a.id
    &&& b.base == a.base
    &&& b.recipie == a.recipie
    &&& b.adjective == a.adjective
    &&& forall|g: Seq<char>| views_of_strings(a.groups@).contains(g) ==> #[trigger] views_of_strings(b.groups@).contains(g)
}

/// The nouns `b` are the nouns `a`, each with possibly more groups.
pub open spec fn nouns_grown(a: Seq<Noun>, b: Seq<Noun>) -> bool {
    a.len() == b.len() && forall|i: int| 0 <= i < a.len() ==> noun_grown(a[i], #[trigger] b[i])
}

proof fn lemma_noun_index_same_ids(a: Seq<Noun>, b: Seq<Noun>, id: Id)
    requires
        nouns_grown(a, b),
    ensures
        noun_index(a, id) == noun_index(b, id),
    decreases a.len(),
{
    if a.len() > 0 {
        assert(nouns_grown(a.drop_last(), b.drop_last())) by {
            assert forall|i: int| 0 <= i < a.len() - 1 implies noun_grown(a.drop_last()[i], #[trigger] b.drop_last()[i]) by {
                assert(noun_grown(a[i], b[i]));
            }
        }
        lemma_noun_index_same_ids(a.drop_last(), b.drop_last(), id);
        assert(noun_grown(a[a.len() - 1], b[b.len() - 1]));
    }
}

/// Adds the group `g` to the groups of the first noun with id `id`.
/// The first noun with id `id` lists the group `g`.
pub open spec fn noun_has_group(nouns: Seq<Noun>, id: Id, g: Seq<char>) -> bool {
    noun_index(nouns, id) matches Some(i) && views_of_strings(nouns[i].groups@).contains(g)
}

proof fn lemma_noun_has_group_kept(a: Seq<Noun>, b: Seq<Noun>, id: Id, g: Seq<char>)
    requires
        nouns_grown(a, b),
        noun_has_group(a, id, g),
    ensures
        noun_has_group(b, id, g),
{
    lemma_noun_index_same_ids(a, b, id);
    lemma_noun_index(a, id);
    let i = noun_index(a, id).unwrap();
    assert(noun_grown(a[i], b[i]));
}

fn add_noun_group(nouns: &mut Vec<Noun>, id: Id, g: &String)
    requires
        noun_index(old(nouns)@, id) is Some,
    ensures
        nouns_grown(old(nouns)@, final(nouns)@),
        noun_has_group(final(nouns)@, id, g@),
{
    proof {
        lemma_noun_index(old(nouns)@, id);
    }
    let k = noun_index_exec(nouns, id).unwrap();
    let mut n = nouns.remove(k);
    let ghost n0 = n;
    let mut present = false;
    let mut j: usize = 0;
    while j < n.groups.len()
        invariant
            j <= n.groups.len(),
            present ==> views_of_strings(n.groups@).contains(g@),
        decreases n.groups.len() - j,
    {
        if eq_string(&n.groups[j], g) {
            assert(views_of_strings(n.groups@)[j as int] == g@);
            present = true;
        }
        j = j + 1;
    }
    if !present {
        let ghost before = views_of_strings(n.groups@);
        n.groups.push(g.clone());
        assert(views_of_strings(n.groups@) =~= before.push(g@));
        assert(views_of_strings(n.groups@)[before.len() as int] == g@);
    }
    proof {
        assert forall|x: Seq<char>| views_of_strings(n0.groups@).contains(x) implies #[trigger] views_of_strings(n.groups@).contains(x) by {
            let q = choose|q: int| 0 <= q < n0.groups@.len() && views_of_strings(n0.groups@)[q] == x;
            assert(views_of_strings(n.groups@)[q] == x);
        }
    }
    nouns.insert(k, n);
    proof {
        assert forall|i: int| 0 <= i < old(nouns)@.len() implies noun_grown(old(nouns)@[i], #[trigger] nouns@[i]) by {
            if i != k {
                assert(nouns@[i] == old(nouns)@[i]);
            }
        }
        lemma_noun_index_same_ids(old(nouns)@, nouns@, id);
        assert(nouns@[k as int] == n);
    }
}

fn members_vec(idx: &Vec<(String, Vec<Id>)>, key: &String) -> (r: Vec<Id>)
    ensures
        r@.to_set() == group_members(idx@, key@),
{
    let mut out: Vec<Id> = Vec::new();
    let mut e: usize = 0;
    while e < idx.len()
        invariant
            e <= idx.len(),
            out@.to_set() == group_members(idx@.take(e as int), key@),
        decreases idx.len() - e,
    {
        assert(idx@.take(e + 1).drop_last() =~= idx@.take(e as int));
        if eq_string(&idx[e].0, key) {
            let ghost before = out@;
            let mut q: usize = 0;
            while q < idx[e].1.len()
                invariant
                    e < idx.len(),
                    q <= idx@[e as int].1@.len(),
                    out@ == before + idx@[e as int].1@.take(q as int),
                decreases idx@[e as int].1@.len() - q,
            {
                out.push(idx[e].1[q]);
                q = q + 1;
                assert(out@ =~= before + idx@[e as int].1@.take(q as int));
            }
            proof {
                let entry = idx@[e as int].1@;
                assert(entry.take(entry.len() as int) =~= entry);
                assert(out@.to_set() =~= before.to_set().union(entry.to_set())) by {
                    assert forall|y: Id| out@.to_set().contains(y) <==> before.to_set().union(entry.to_set()).contains(y) by {
                        if out@.contains(y) {
                            let i = choose|i: int| 0 <= i < out@.len() && out@[i] == y;
                            if i < before.len() {
                                assert(before[i] == y);
                            } else {
                                assert(entry[i - before.len()] == y);
                            }
                        }
                        if before.contains(y) {
                            let i = choose|i: int| 0 <= i < before.len() && before[i] == y;
                            assert(out@[i] == y);
                        }
                        if entry.contains(y) {
                            let i = choose|i: int| 0 <= i < entry.len() && entry[i] == y;
                            assert(out@[before.len() + i] == y);
                        }
                    }
                }
            }
        }
        e = e + 1;
    }
    assert(idx@.take(idx.len() as int) =~= idx@);
    out
}

fn copy_index(idx: &Vec<(String, Vec<Id>)>) -> (r: Vec<(String, Vec<Id>)>)
    ensures
        forall|k: Seq<char>| #[trigger] group_members(r@, k) == group_members(idx@, k),
{
    let mut out: Vec<(String, Vec<Id>)> = Vec::new();
    let mut i: usize = 0;
    while i < idx.len()
        invariant
            i <= idx.len(),
            out@.len() == i,
            forall|q: int| 0 <= q < i ==> (#[trigger] out@[q]).0@ == idx@[q].0@ && out@[q].1@ == idx@[q].1@,
        decreases idx.len() - i,
    {
        let mut ids: Vec<Id> = Vec::new();
        let mut q: usize = 0;
        while q < idx[i].1.len()
            invariant
                i < idx.len(),
                q <= idx@[i as int].1@.len(),
                ids@ == idx@[i as int].1@.take(q as int),
            decreases idx@[i as int].1@.len() - q,
        {
            ids.push(idx[i].1[q]);
            q = q + 1;
            assert(ids@ =~= idx@[i as int].1@.take(q as int));
        }
        assert(idx@[i as int].1@.take(idx@[i as int].1@.len() as int) =~= idx@[i as int].1@);
        out.push((idx[i].0.clone(), ids));
        i = i + 1;
    }
    proof {
        assert forall|k: Seq<char>| #[trigger] group_members(out@, k) == group_members(idx@, k) by {
            lemma_members_same(out@, idx@, k);
        }
    }
    out
}

proof fn lemma_members_same(a: Seq<(String, Vec<Id>)>, b: Seq<(String, Vec<Id>)>, k: Seq<char>)
    requires
        a.len() == b.len(),
        forall|q: int| 0 <= q < a.len() ==> (#[trigger] a[q]).0@ == b[q].0@ && a[q].1@ == b[q].1@,
    ensures
        group_members(a, k) == group_members(b, k),
    decreases a.len(),
{
    if a.len() > 0 {
        lemma_members_same(a.drop_last(), b.drop_last(), k);
        assert(a[a.len() - 1].0@ == b[b.len() - 1].0@);
    }
}

fn copy_names(v: &Vec<String>) -> (r: Vec<String>)
    ensures
        r@ == v@,
{
    let mut out: Vec<String> = Vec::new();
    let mut i: usize = 0;
    while i < v.len()
        invariant
            i <= v.len(),
            out@ == v@.take(i as int),
        decreases v.len() - i,
    {
        out.push(v[i].clone());
        i = i + 1;
        assert(out@ =~= v@.take(i as int));
    }
    assert(v@.take(v.len() as int) =~= v@);
    out
}


/// Files every id the snapshot holds under `child` under `parent` too, and
/// adds `parent` to the groups of each such id's noun.
fn merge_into(
    idx: &mut Vec<(String, Vec<Id>)>,
    nouns: &mut Vec<Noun>,
    parent: &String,
    snap: &Vec<(String, Vec<Id>)>,
    child: &String,
)
    requires
        forall|x: Id| #[trigger] group_members(snap@, child@).contains(x) ==> noun_index(old(nouns)@, x) is Some,
    ensures
        forall|k: Seq<char>, x: Id|
            #[trigger] group_members(final(idx)@, k).contains(x) <==> group_members(old(idx)@, k).contains(x) || (k
                == parent@ && group_members(snap@, child@).contains(x)),
        nouns_grown(old(nouns)@, final(nouns)@),
        forall|x: Id| #[trigger] group_members(snap@, child@).contains(x) ==> noun_has_group(final(nouns)@, x, parent@),
{
    let ids = members_vec(snap, child);
    let ghost i0 = idx@;
    let ghost n0 = nouns@;
    let mut q: usize = 0;
    while q < ids.len()
        invariant
            q <= ids.len(),
            ids@.to_set() == group_members(snap@, child@),
            i0 == old(idx)@,
            n0 == old(nouns)@,
            nouns_grown(n0, nouns@),
            forall|x: Id| #[trigger] group_members(snap@, child@).contains(x) ==> noun_index(n0, x) is Some,
            forall|x: Id| #[trigger] ids@.take(q as int).contains(x) ==> noun_has_group(nouns@, x, parent@),
            forall|k: Seq<char>, x: Id|
                #[trigger] group_members(idx@, k).contains(x) <==> group_members(i0, k).contains(x) || (k == parent@
                    && ids@.take(q as int).contains(x)),
        decreases ids.len() - q,
    {
        let x = ids[q];
        let ghost before = idx@;
        proof {
            assert(ids@.to_set().contains(x));
            lemma_noun_index_same_ids(n0, nouns@, x);
        }
        add_to_group(idx, parent, x);
        let ghost nb = nouns@;
        add_noun_group(nouns, x, parent);
        proof {
            assert(nouns_grown(n0, nouns@));
            assert forall|y: Id| #[trigger] ids@.take(q + 1).contains(y) implies noun_has_group(nouns@, y, parent@) by {
                lemma_push_contains_id(ids@.take(q as int), x, y);
                if y != x {
                    lemma_noun_has_group_kept(nb, nouns@, y, parent@);
                }
            }
            assert(ids@.take(q + 1) =~= ids@.take(q as int).push(x));
            assert forall|k: Seq<char>, y: Id|
                #[trigger] group_members(idx@, k).contains(y) <==> group_members(i0, k).contains(y) || (k == parent@
                    && ids@.take(q + 1).contains(y)) by {
                lemma_push_contains_id(ids@.take(q as int), x, y);
                assert(group_members(idx@, k) == if k == parent@ {
                    group_members(before, k).insert(x)
                } else {
                    group_members(before, k)
                });
                assert(group_members(before, k).contains(y) <==> group_members(i0, k).contains(y) || (k == parent@
                    && ids@.take(q as int).contains(y)));
            }
        }
        q = q + 1;
    }
    proof {
        assert(ids@.take(ids.len() as int) =~= ids@);
        assert forall|x: Id| #[trigger] group_members(snap@, child@).contains(x) implies noun_has_group(nouns@, x, parent@) by {
            assert(ids@.to_set().contains(x));
        }
        assert forall|k: Seq<char>, x: Id|
            #[trigger] group_members(idx@, k).contains(x) <==> group_members(i0, k).contains(x) || (k == parent@
                && group_members(snap@, child@).contains(x)) by {
            assert(ids@.to_set().contains(x) <==> ids@.contains(x));
        }
    }
}


/// Some of the first `c` member groups holds `x` in the index.
pub open spec fn in_some_child(idx: Seq<(String, Vec<Id>)>, children: Seq<Seq<char>>, c: int, x: Id) -> bool {
    exists|j: int| 0 <= j < c && #[trigger] group_members(idx, children[j]).contains(x)
}

/// `cur` is `base` with the ids of the first `c` member groups filed
/// under `parent` too.
pub open spec fn merged(
    cur: Seq<(String, Vec<Id>)>,
    base: Seq<(String, Vec<Id>)>,
    parent: Seq<char>,
    children: Seq<Seq<char>>,
    c: int,
) -> bool {
    forall|k: Seq<char>, x: Id|
        #[trigger] group_members(cur, k).contains(x) <==> group_members(base, k).contains(x) || (k == parent
            && in_some_child(base, children, c, x))
}

proof fn lemma_merged_step(
    before: Seq<(String, Vec<Id>)>,
    after: Seq<(String, Vec<Id>)>,
    base: Seq<(String, Vec<Id>)>,
    parent: Seq<char>,
    children: Seq<Seq<char>>,
    c: int,
)
    requires
        0 <= c < children.len(),
        merged(before, base, parent, children, c),
        forall|k: Seq<char>, x: Id|
            #[trigger] group_members(after, k).contains(x) <==> group_members(before, k).contains(x) || (k == parent
                && group_members(base, children[c]).contains(x)),
    ensures
        merged(after, base, parent, children, c + 1),
{
    assert forall|k: Seq<char>, x: Id|
        #[trigger] group_members(after, k).contains(x) <==> group_members(base, k).contains(x) || (k == parent
            && in_some_child(base, children, c + 1, x)) by {
        if in_some_child(base, children, c + 1, x) && !group_members(base, children[c]).contains(x) {
            let j = choose|j: int| 0 <= j < c + 1 && #[trigger] group_members(base, children[j]).contains(x);
            assert(in_some_child(base, children, c, x));
        }
        if in_some_child(base, children, c, x) {
            let j = choose|j: int| 0 <= j < c && #[trigger] group_members(base, children[j]).contains(x);
            assert(in_some_child(base, children, c + 1, x));
        }
        if group_members(base, children[c]).contains(x) {
            assert(in_some_child(base, children, c + 1, x));
        }
    }
}

proof fn lemma_nouns_grown_trans(a: Seq<Noun>, b: Seq<Noun>, c: Seq<Noun>)
    requires
        nouns_grown(a, b),
        nouns_grown(b, c),
    ensures
        nouns_grown(a, c),
{
    assert forall|i: int| 0 <= i < a.len() implies noun_grown(a[i], #[trigger] c[i]) by {
        assert(noun_grown(a[i], b[i]));
        assert(noun_grown(b[i], c[i]));
    }
}

proof fn lemma_names_take(gg: Seq<(String, Vec<String>)>, e: int, p: Seq<char>, c: Seq<char>)
    requires
        0 <= e < gg.len(),
    ensures
        group_names(gg.take(e + 1), p).contains(c) <==> group_names(gg.take(e), p).contains(c) || (gg[e].0@ == p
            && views_of_strings(gg[e].1@).contains(c)),
{
    assert(gg.take(e + 1).drop_last() =~= gg.take(e));
    assert(gg.take(e + 1).last() == gg[e]);
}

proof fn lemma_names_take_sub(gg: Seq<(String, Vec<String>)>, e: int, p: Seq<char>, c: Seq<char>)
    requires
        0 <= e <= gg.len(),
        group_names(gg.take(e), p).contains(c),
    ensures
        group_names(gg, p).contains(c),
    decreases gg.len() - e,
{
    if e < gg.len() {
        lemma_names_take(gg, e, p, c);
        lemma_names_take_sub(gg, e + 1, p, c);
    } else {
        assert(gg.take(e) =~= gg);
    }
}

proof fn lemma_entry_names(gg: Seq<(String, Vec<String>)>, e: int, j: int)
    requires
        0 <= e < gg.len(),
        0 <= j < gg[e].1@.len(),
    ensures
        group_names(gg, gg[e].0@).contains(gg[e].1@[j]@),
{
    assert(views_of_strings(gg[e].1@)[j] == gg[e].1@[j]@);
    lemma_names_take(gg, e, gg[e].0@, gg[e].1@[j]@);
    lemma_names_take_sub(gg, e + 1, gg[e].0@, gg[e].1@[j]@);
}

impl Dictionary {
    /// Files under each group what its member groups hold: every noun id
    /// and adjective id filed under a member group is filed under the group
    /// too (see [`index_grown`]), and the noun with each id newly filed
    /// under a group lists that group (see [`noun_has_group`]); the nouns'
    /// own group lists are kept by noun id, adjective ids among them.
    /// Repeated, this carries ids up chains of groups.
    pub fn append_group_groups(&mut self)
        requires
            groups_resolvable(*old(self)),
        ensures
            final(self).group_groups@ == old(self).group_groups@,
            final(self).adjectives == old(self).adjectives,
            final(self).templates == old(self).templates,
            final(self).template_groups == old(self).template_groups,
            nouns_grown(old(self).nouns@, final(self).nouns@),
            index_grown(old(self).noun_groups@, final(self).noun_groups@, old(self).group_groups@),
            index_grown(old(self).adjective_groups@, final(self).adjective_groups@, old(self).group_groups@),
            groups_resolvable(*final(self)),
            forall|k: Seq<char>, x: Id|
                #[trigger] group_members(final(self).noun_groups@, k).contains(x) && !group_members(
                    old(self).noun_groups@,
                    k,
                ).contains(x) ==> noun_has_group(final(self).nouns@, x, k),
            forall|k: Seq<char>, x: Id|
                #[trigger] group_members(final(self).adjective_groups@, k).contains(x) && !group_members(
                    old(self).adjective_groups@,
                    k,
                ).contains(x) ==> noun_has_group(final(self).nouns@, x, k),
    {
        let ghost gg = self.group_groups@;
        let ghost n0 = self.noun_groups@;
        let ghost a0 = self.adjective_groups@;
        let ghost nouns0 = self.nouns@;
        let mut e: usize = 0;
        assert(gg.take(0) =~= Seq::<(String, Vec<String>)>::empty());
        while e < self.group_groups.len()
            invariant
                e <= self.group_groups.len(),
                self.group_groups@ == gg,
                gg == old(self).group_groups@,
                n0 == old(self).noun_groups@,
                a0 == old(self).adjective_groups@,
                nouns0 == old(self).nouns@,
                self.adjectives == old(self).adjectives,
                self.templates == old(self).templates,
                self.template_groups == old(self).template_groups,
                groups_resolvable(*old(self)),
                nouns_grown(nouns0, self.nouns@),
                forall|k: Seq<char>, x: Id| #[trigger] group_members(n0, k).contains(x) ==> group_members(self.noun_groups@, k).contains(x),
                forall|k: Seq<char>, x: Id| #[trigger] group_members(a0, k).contains(x) ==> group_members(self.adjective_groups@, k).contains(x),
                forall|p: Seq<char>, c: Seq<char>, x: Id|
                    #![trigger group_names(gg.take(e as int), p).contains(c), group_members(n0, c).contains(x)]
                    group_names(gg.take(e as int), p).contains(c) && group_members(n0, c).contains(x) ==> group_members(self.noun_groups@, p).contains(x),
                forall|p: Seq<char>, c: Seq<char>, x: Id|
                    #![trigger group_names(gg.take(e as int), p).contains(c), group_members(a0, c).contains(x)]
                    group_names(gg.take(e as int), p).contains(c) && group_members(a0, c).contains(x) ==> group_members(self.adjective_groups@, p).contains(x),
                forall|k: Seq<char>, x: Id|
                    #[trigger] group_members(self.noun_groups@, k).contains(x) ==> group_members(n0, k).contains(x) || exists|c: Seq<char>|
                        #[trigger] group_names(gg, k).contains(c) && group_members(self.noun_groups@, c).contains(x),
                forall|k: Seq<char>, x: Id|
                    #[trigger] group_members(self.adjective_groups@, k).contains(x) ==> group_members(a0, k).contains(x) || exists|c: Seq<char>|
                        #[trigger] group_names(gg, k).contains(c) && group_members(self.adjective_groups@, c).contains(x),
                forall|k: Seq<char>, x: Id| #[trigger] group_members(self.noun_groups@, k).contains(x) ==> noun_index(nouns0, x) is Some,
                forall|k: Seq<char>, x: Id|
                    #[trigger] group_members(self.adjective_groups@, k).contains(x) && !group_members(a0, k).contains(x) ==> noun_index(nouns0, x) is Some,
                forall|k: Seq<char>, x: Id|
                    #[trigger] group_members(self.noun_groups@, k).contains(x) && !group_members(n0, k).contains(x)
                        ==> noun_has_group(self.nouns@, x, k),
                forall|k: Seq<char>, x: Id|
                    #[trigger] group_members(self.adjective_groups@, k).contains(x) && !group_members(a0, k).contains(x)
                        ==> noun_has_group(self.nouns@, x, k),
            decreases self.group_groups.len() - e,
        {
            let parent = self.group_groups[e].0.clone();
            let children = copy_names(&self.group_groups[e].1);
            let ghost kids = views_of_strings(children@);
            let snap_n = copy_index(&self.noun_groups);
            let snap_a = copy_index(&self.adjective_groups);
            let ghost sn = self.noun_groups@;
            let ghost sa = self.adjective_groups@;
            let ghost nouns_e = self.nouns@;
            let mut c: usize = 0;
            assert(merged(self.noun_groups@, sn, parent@, kids, 0));
            assert(merged(self.adjective_groups@, sa, parent@, kids, 0));
            proof {
                assert forall|x: Id, j: int|
                    0 <= j < kids.len() && #[trigger] group_members(sa, kids[j]).contains(x) implies noun_index(nouns0, x) is Some by {
                    lemma_entry_names(gg, e as int, j);
                    assert(kids[j] == gg[e as int].1@[j]@);
                    if group_members(a0, kids[j]).contains(x) {
                        assert(group_names(old(self).group_groups@, gg[e as int].0@).contains(kids[j]));
                    }
                }
            }
            while c < children.len()
                invariant
                    c <= children.len(),
                    kids == views_of_strings(children@),
                    forall|k: Seq<char>| #[trigger] group_members(snap_n@, k) == group_members(sn, k),
                    forall|k: Seq<char>| #[trigger] group_members(snap_a@, k) == group_members(sa, k),
                    self.group_groups@ == gg,
                    self.adjectives == old(self).adjectives,
                    self.templates == old(self).templates,
                    self.template_groups == old(self).template_groups,
                    nouns_grown(nouns0, nouns_e),
                    nouns_grown(nouns_e, self.nouns@),
                    forall|k: Seq<char>, x: Id| #[trigger] group_members(sn, k).contains(x) ==> noun_index(nouns0, x) is Some,
                    forall|k: Seq<char>, x: Id|
                        #[trigger] group_members(sa, k).contains(x) ==> noun_index(nouns0, x) is Some || (group_members(a0, k).contains(x)),
                    forall|x: Id, j: int|
                        0 <= j < kids.len() && #[trigger] group_members(sa, kids[j]).contains(x) ==> noun_index(nouns0, x) is Some,
                    merged(self.noun_groups@, sn, parent@, kids, c as int),
                    merged(self.adjective_groups@, sa, parent@, kids, c as int),
                    forall|k: Seq<char>, x: Id|
                        #[trigger] group_members(sn, k).contains(x) && !group_members(n0, k).contains(x)
                            ==> noun_has_group(self.nouns@, x, k),
                    forall|k: Seq<char>, x: Id|
                        #[trigger] group_members(sa, k).contains(x) && !group_members(a0, k).contains(x)
                            ==> noun_has_group(self.nouns@, x, k),
                    forall|x: Id| #[trigger] in_some_child(sn, kids, c as int, x) ==> noun_has_group(self.nouns@, x, parent@),
                    forall|x: Id| #[trigger] in_some_child(sa, kids, c as int, x) ==> noun_has_group(self.nouns@, x, parent@),
                decreases children.len() - c,
            {
                let ghost bn = self.noun_groups@;
                let ghost ba = self.adjective_groups@;
                let ghost nb = self.nouns@;
                proof {
                    lemma_nouns_grown_trans(nouns0, nouns_e, self.nouns@);
                    assert forall|x: Id| #[trigger] group_members(snap_n@, children@[c as int]@).contains(x) implies noun_index(self.nouns@, x) is Some by {
                        assert(group_members(sn, children@[c as int]@).contains(x));
                        lemma_noun_index_same_ids(nouns0, self.nouns@, x);
                    }
                }
                merge_into(&mut self.noun_groups, &mut self.nouns, &parent, &snap_n, &children[c]);
                proof {
                    lemma_nouns_grown_trans(nouns0, nouns_e, nb);
                    lemma_nouns_grown_trans(nouns0, nb, self.nouns@);
                    assert(kids[c as int] == children@[c as int]@);
                    lemma_merged_step(bn, self.noun_groups@, sn, parent@, kids, c as int);
                    assert forall|x: Id| #[trigger] group_members(snap_a@, children@[c as int]@).contains(x) implies noun_index(self.nouns@, x) is Some by {
                        assert(group_members(sa, kids[c as int]).contains(x));
                        lemma_noun_index_same_ids(nouns0, self.nouns@, x);
                    }
                }
                let ghost nb2 = self.nouns@;
                merge_into(&mut self.adjective_groups, &mut self.nouns, &parent, &snap_a, &children[c]);
                proof {
                    lemma_nouns_grown_trans(nouns_e, nb2, self.nouns@);
                    lemma_merged_step(ba, self.adjective_groups@, sa, parent@, kids, c as int);
                    let now = self.nouns@;
                    lemma_nouns_grown_trans(nb, nb2, now);
                    assert forall|k: Seq<char>, x: Id|
                        #[trigger] group_members(sn, k).contains(x) && !group_members(n0, k).contains(x)
                            implies noun_has_group(now, x, k) by {
                        lemma_noun_has_group_kept(nb, now, x, k);
                    }
                    assert forall|k: Seq<char>, x: Id|
                        #[trigger] group_members(sa, k).contains(x) && !group_members(a0, k).contains(x)
                            implies noun_has_group(now, x, k) by {
                        lemma_noun_has_group_kept(nb, now, x, k);
                    }
                    assert forall|x: Id| #[trigger] in_some_child(sn, kids, c + 1, x) implies noun_has_group(now, x, parent@) by {
                        if in_some_child(sn, kids, c as int, x) {
                            lemma_noun_has_group_kept(nb, now, x, parent@);
                        } else {
                            let j = choose|j: int| 0 <= j < c + 1 && #[trigger] group_members(sn, kids[j]).contains(x);
                            if j < c {
                                assert(in_some_child(sn, kids, c as int, x));
                            }
                            assert(group_members(snap_n@, children@[c as int]@).contains(x));
                            lemma_noun_has_group_kept(nb2, now, x, parent@);
                        }
                    }
                    assert forall|x: Id| #[trigger] in_some_child(sa, kids, c + 1, x) implies noun_has_group(now, x, parent@) by {
                        if in_some_child(sa, kids, c as int, x) {
                            lemma_noun_has_group_kept(nb, now, x, parent@);
                        } else {
                            let j = choose|j: int| 0 <= j < c + 1 && #[trigger] group_members(sa, kids[j]).contains(x);
                            if j < c {
                                assert(in_some_child(sa, kids, c as int, x));
                            }
                            assert(group_members(snap_a@, children@[c as int]@).contains(x));
                        }
                    }
                }
                c = c + 1;
            }
            proof {
                lemma_nouns_grown_trans(nouns0, nouns_e, self.nouns@);
                let cn = self.noun_groups@;
                let ca = self.adjective_groups@;
                assert forall|j: int| 0 <= j < kids.len() implies group_names(gg, parent@).contains(#[trigger] kids[j]) by {
                    lemma_entry_names(gg, e as int, j);
                }
                // what the earlier groups gained is kept, and this group gains its members' ids
                assert forall|p: Seq<char>, ch: Seq<char>, x: Id|
                    #![trigger group_names(gg.take(e + 1), p).contains(ch), group_members(n0, ch).contains(x)]
                    group_names(gg.take(e + 1), p).contains(ch) && group_members(n0, ch).contains(x) implies group_members(cn, p).contains(x) by {
                    lemma_names_take(gg, e as int, p, ch);
                    if !group_names(gg.take(e as int), p).contains(ch) {
                        let j = choose|j: int| 0 <= j < kids.len() && kids[j] == ch;
                        assert(group_members(sn, kids[j]).contains(x));
                        assert(in_some_child(sn, kids, kids.len() as int, x));
                    }
                }
                assert forall|p: Seq<char>, ch: Seq<char>, x: Id|
                    #![trigger group_names(gg.take(e + 1), p).contains(ch), group_members(a0, ch).contains(x)]
                    group_names(gg.take(e + 1), p).contains(ch) && group_members(a0, ch).contains(x) implies group_members(ca, p).contains(x) by {
                    lemma_names_take(gg, e as int, p, ch);
                    if !group_names(gg.take(e as int), p).contains(ch) {
                        let j = choose|j: int| 0 <= j < kids.len() && kids[j] == ch;
                        assert(group_members(sa, kids[j]).contains(x));
                        assert(in_some_child(sa, kids, kids.len() as int, x));
                    }
                }
                assert forall|k: Seq<char>, x: Id| #[trigger] group_members(cn, k).contains(x) implies group_members(n0, k).contains(x) || exists|ch: Seq<char>|
                    #[trigger] group_names(gg, k).contains(ch) && group_members(cn, ch).contains(x) by {
                    if !group_members(sn, k).contains(x) {
                        let j = choose|j: int| 0 <= j < kids.len() && #[trigger] group_members(sn, kids[j]).contains(x);
                        assert(group_names(gg, k).contains(kids[j]));
                        assert(group_members(cn, kids[j]).contains(x));
                    } else if !group_members(n0, k).contains(x) {
                        let ch = choose|ch: Seq<char>| #[trigger] group_names(gg, k).contains(ch) && group_members(sn, ch).contains(x);
                        assert(group_members(cn, ch).contains(x));
                    }
                }
                assert forall|k: Seq<char>, x: Id| #[trigger] group_members(ca, k).contains(x) implies group_members(a0, k).contains(x) || exists|ch: Seq<char>|
                    #[trigger] group_names(gg, k).contains(ch) && group_members(ca, ch).contains(x) by {
                    if !group_members(sa, k).contains(x) {
                        let j = choose|j: int| 0 <= j < kids.len() && #[trigger] group_members(sa, kids[j]).contains(x);
                        assert(group_names(gg, k).contains(kids[j]));
                        assert(group_members(ca, kids[j]).contains(x));
                    } else if !group_members(a0, k).contains(x) {
                        let ch = choose|ch: Seq<char>| #[trigger] group_names(gg, k).contains(ch) && group_members(sa, ch).contains(x);
                        assert(group_members(ca, ch).contains(x));
                    }
                }
                assert forall|k: Seq<char>, x: Id| #[trigger] group_members(cn, k).contains(x) implies noun_index(nouns0, x) is Some by {
                    if !group_members(sn, k).contains(x) {
                        let j = choose|j: int| 0 <= j < kids.len() && #[trigger] group_members(sn, kids[j]).contains(x);
                    }
                }
                assert forall|k: Seq<char>, x: Id| #[trigger] group_members(ca, k).contains(x) && !group_members(a0, k).contains(x) implies noun_index(nouns0, x) is Some by {
                    if !group_members(sa, k).contains(x) {
                        let j = choose|j: int| 0 <= j < kids.len() && #[trigger] group_members(sa, kids[j]).contains(x);
                    }
                }
            }
            proof {
                let cn = self.noun_groups@;
                let ca = self.adjective_groups@;
                assert forall|k: Seq<char>, x: Id|
                    #[trigger] group_members(cn, k).contains(x) && !group_members(n0, k).contains(x)
                        implies noun_has_group(self.nouns@, x, k) by {
                    if !group_members(sn, k).contains(x) {
                        assert(k == parent@ && in_some_child(sn, kids, kids.len() as int, x));
                    }
                }
                assert forall|k: Seq<char>, x: Id|
                    #[trigger] group_members(ca, k).contains(x) && !group_members(a0, k).contains(x)
                        implies noun_has_group(self.nouns@, x, k) by {
                    if !group_members(sa, k).contains(x) {
                        assert(k == parent@ && in_some_child(sa, kids, kids.len() as int, x));
                    }
                }
            }
            e = e + 1;
        }
        proof {
            assert(gg.take(gg.len() as int) =~= gg);
            assert forall|k: Seq<char>, x: Id| #[trigger] group_members(self.noun_groups@, k).contains(x) implies noun_index(self.nouns@, x) is Some by {
                lemma_noun_index_same_ids(nouns0, self.nouns@, x);
            }
            assert forall|p: Seq<char>, c: Seq<char>, x: Id|
                #![trigger group_names(self.group_groups@, p).contains(c), group_members(self.adjective_groups@, c).contains(x)]
                group_names(self.group_groups@, p).contains(c) && group_members(self.adjective_groups@, c).contains(x)
                    implies noun_index(self.nouns@, x) is Some by {
                lemma_noun_index_same_ids(nouns0, self.nouns@, x);
                if group_members(a0, c).contains(x) {
                    assert(group_names(old(self).group_groups@, p).contains(c));
                }
            }
        }
    }
}

} // verus!

verus! {

/// Some entry of the index files `x` under `key`.
proof fn lemma_members_witness(idx: Seq<(String, Vec<Id>)>, key: Seq<char>, x: Id)
    requires
        group_members(idx, key).contains(x),
    ensures
        exists|e: int, q: int|
            0 <= e < idx.len() && 0 <= q < idx[e].1@.len() && idx[e].0@ == key && #[trigger] idx[e].1@[q] == x,
    decreases idx.len(),
{
    let rest = idx.drop_last();
    let e = idx.len() - 1;
    if group_members(rest, key).contains(x) {
        lemma_members_witness(rest, key, x);
        let (f, q) = choose|f: int, q: int|
            0 <= f < rest.len() && 0 <= q < rest[f].1@.len() && rest[f].0@ == key && #[trigger] rest[f].1@[q] == x;
        assert(idx[f] == rest[f]);
        assert(idx[f].1@[q] == x);
    } else {
        assert(idx[e].1@.to_set().contains(x));
        let q = choose|q: int| 0 <= q < idx[e].1@.len() && idx[e].1@[q] == x;
        assert(idx[e].1@[q] == x);
    }
}

/// Each id of an entry of the index is filed under the entry's group.
proof fn lemma_entry_members(idx: Seq<(String, Vec<Id>)>, e: int, q: int)
    requires
        0 <= e < idx.len(),
        0 <= q < idx[e].1@.len(),
    ensures
        group_members(idx, idx[e].0@).contains(idx[e].1@[q]),
{
    let t = idx.take(e + 1);
    assert(t.drop_last() =~= idx.take(e));
    assert(t.last() == idx[e]);
    assert(idx[e].1@.to_set().contains(idx[e].1@[q]));
    assert(group_members(t, idx[e].0@).contains(idx[e].1@[q]));
    lemma_members_prefix(idx, e + 1, idx[e].0@, idx[e].1@[q]);
}

/// Some entry of `group_groups` names `c` under `key`.
proof fn lemma_names_witness(gg: Seq<(String, Vec<String>)>, key: Seq<char>, c: Seq<char>)
    requires
        group_names(gg, key).contains(c),
    ensures
        exists|e: int, j: int|
            0 <= e < gg.len() && 0 <= j < gg[e].1@.len() && gg[e].0@ == key && #[trigger] gg[e].1@[j]@ == c,
    decreases gg.len(),
{
    let rest = gg.drop_last();
    let e = gg.len() - 1;
    if group_names(rest, key).contains(c) {
        lemma_names_witness(rest, key, c);
        let (f, j) = choose|f: int, j: int|
            0 <= f < rest.len() && 0 <= j < rest[f].1@.len() && rest[f].0@ == key && #[trigger] rest[f].1@[j]@ == c;
        assert(gg[f] == rest[f]);
        assert(gg[f].1@[j]@ == c);
    } else {
        let v = views_of_strings(gg[e].1@);
        assert(v.to_set().contains(c));
        let j = choose|j: int| 0 <= j < v.len() && v[j] == c;
        assert(gg[e].1@[j]@ == c);
    }
}

impl Dictionary {
    /// Whether the dictionary meets [`groups_resolvable`]: whether every id
    /// filed in the noun index, and every id filed under a group that some
    /// group names as a member, is the id of a noun.
    pub fn groups_resolvable_exec(&self) -> (b: bool)
        ensures
            b == groups_resolvable(*self),
    {
        let ghost ng = self.noun_groups@;
        let ghost gg = self.group_groups@;
        let ghost adj = self.adjective_groups@;
        let ghost nouns = self.nouns@;
        let mut e: usize = 0;
        while e < self.noun_groups.len()
            invariant
                e <= ng.len(),
                ng == self.noun_groups@,
                nouns == self.nouns@,
                forall|f: int, q: int|
                    0 <= f < e && 0 <= q < ng[f].1@.len() ==> noun_index(nouns, #[trigger] ng[f].1@[q]) is Some,
            decreases ng.len() - e,
        {
            let mut q: usize = 0;
            while q < self.noun_groups[e].1.len()
                invariant
                    e < ng.len(),
                    q <= ng[e as int].1@.len(),
                    ng == self.noun_groups@,
                    nouns == self.nouns@,
                    forall|f: int, r: int|
                        0 <= f < e && 0 <= r < ng[f].1@.len() ==> noun_index(nouns, #[trigger] ng[f].1@[r]) is Some,
                    forall|r: int| 0 <= r < q ==> noun_index(nouns, #[trigger] ng[e as int].1@[r]) is Some,
                decreases ng[e as int].1@.len() - q,
            {
                if noun_index_exec(&self.nouns, self.noun_groups[e].1[q]).is_none() {
                    proof {
                        lemma_entry_members(ng, e as int, q as int);
                    }
                    return false;
                }
                q = q + 1;
            }
            e = e + 1;
        }
        let mut e: usize = 0;
        while e < self.group_groups.len()
            invariant
                e <= gg.len(),
                gg == self.group_groups@,
                adj == self.adjective_groups@,
                nouns == self.nouns@,
                forall|f: int, j: int, x: Id|
                    0 <= f < e && 0 <= j < gg[f].1@.len() && #[trigger] group_members(adj, gg[f].1@[j]@).contains(x)
                        ==> noun_index(nouns, x) is Some,
            decreases gg.len() - e,
        {
            let mut j: usize = 0;
            while j < self.group_groups[e].1.len()
                invariant
                    e < gg.len(),
                    j <= gg[e as int].1@.len(),
                    gg == self.group_groups@,
                    adj == self.adjective_groups@,
                    nouns == self.nouns@,
                    forall|f: int, i: int, x: Id|
                        0 <= f < e && 0 <= i < gg[f].1@.len() && #[trigger] group_members(adj, gg[f].1@[i]@).contains(x)
                            ==> noun_index(nouns, x) is Some,
                    forall|i: int, x: Id|
                        0 <= i < j && #[trigger] group_members(adj, gg[e as int].1@[i]@).contains(x)
                            ==> noun_index(nouns, x) is Some,
                decreases gg[e as int].1@.len() - j,
            {
                let ids = members_vec(&self.adjective_groups, &self.group_groups[e].1[j]);
                let mut q: usize = 0;
                while q < ids.len()
                    invariant
                        q <= ids.len(),
                        e < gg.len(),
                        j < gg[e as int].1@.len(),
                        gg == self.group_groups@,
                        adj == self.adjective_groups@,
                        nouns == self.nouns@,
                        ids@.to_set() == group_members(adj, gg[e as int].1@[j as int]@),
                        forall|r: int| 0 <= r < q ==> noun_index(nouns, #[trigger] ids@[r]) is Some,
                    decreases ids.len() - q,
                {
                    if noun_index_exec(&self.nouns, ids[q]).is_none() {
                        proof {
                            lemma_entry_names(gg, e as int, j as int);
                            assert(ids@.to_set().contains(ids@[q as int]));
                        }
                        return false;
                    }
                    q = q + 1;
                }
                proof {
                    assert forall|x: Id| #[trigger] group_members(adj, gg[e as int].1@[j as int]@).contains(x) implies noun_index(nouns, x) is Some by {
                        assert(ids@.to_set().contains(x));
                        let r = choose|r: int| 0 <= r < ids@.len() && ids@[r] == x;
                        assert(noun_index(nouns, ids@[r]) is Some);
                    }
                }
                j = j + 1;
            }
            e = e + 1;
        }
        proof {
            assert forall|k: Seq<char>, x: Id| #[trigger] group_members(ng, k).contains(x) implies noun_index(nouns, x) is Some by {
                lemma_members_witness(ng, k, x);
                let (f, q) = choose|f: int, q: int|
                    0 <= f < ng.len() && 0 <= q < ng[f].1@.len() && ng[f].0@ == k && #[trigger] ng[f].1@[q] == x;
                assert(noun_index(nouns, ng[f].1@[q]) is Some);
            }
            assert forall|p: Seq<char>, c: Seq<char>, x: Id|
                #![trigger group_names(gg, p).contains(c), group_members(adj, c).contains(x)]
                group_names(gg, p).contains(c) && group_members(adj, c).contains(x) implies noun_index(nouns, x) is Some by {
                lemma_names_witness(gg, p, c);
                let (f, i) = choose|f: int, i: int|
                    0 <= f < gg.len() && 0 <= i < gg[f].1@.len() && gg[f].0@ == p && #[trigger] gg[f].1@[i]@ == c;
                assert(group_members(adj, gg[f].1@[i]@).contains(x));
            }
        }
        true
    }
}


/// `d` is what reading `lines` one after another into an empty dictionary
/// gives (see [`line_read`]).
pub open spec fn lines_read(lines: Seq<Seq<char>>, d: Dictionary) -> bool
    decreases lines.len(),
{
    if lines.len() == 0 {
        &&& d.nouns@.len() == 0
        &&& d.adjectives@.len() == 0
        &&& d.templates@.len() == 0
        &&& d.noun_groups@.len() == 0
        &&& d.adjective_groups@.len() == 0
        &&& d.template_groups@.len() == 0
        &&& d.group_groups@.len() == 0
    } else {
        exists|d0: Dictionary| lines_read(lines.drop_last(), d0) && #[trigger] line_read(d0, d, lines.last())
    }
}

/// `b` is what one pass of [`Dictionary::append_group_groups`] may give
/// from `a`.
pub open spec fn group_pass(a: Dictionary, b: Dictionary) -> bool {
    &&& b.group_groups@ == a.group_groups@
    &&& b.adjectives == a.adjectives
    &&& b.templates == a.templates
    &&& b.template_groups == a.template_groups
    &&& nouns_grown(a.nouns@, b.nouns@)
    &&& index_grown(a.noun_groups@, b.noun_groups@, a.group_groups@)
    &&& index_grown(a.adjective_groups@, b.adjective_groups@, a.group_groups@)
    &&& groups_resolvable(b)
    &&& forall|k: Seq<char>, x: Id|
        #[trigger] group_members(b.noun_groups@, k).contains(x) && !group_members(a.noun_groups@, k).contains(x)
            ==> noun_has_group(b.nouns@, x, k)
    &&& forall|k: Seq<char>, x: Id|
        #[trigger] group_members(b.adjective_groups@, k).contains(x) && !group_members(
            a.adjective_groups@,
            k,
        ).contains(x) ==> noun_has_group(b.nouns@, x, k)
}

/// `b` is what `n` passes of [`Dictionary::append_group_groups`] may give
/// from `a` (see [`group_pass`]).
pub open spec fn group_passes(a: Dictionary, b: Dictionary, n: nat) -> bool
    decreases n,
{
    if n == 0 {
        b == a
    } else {
        exists|m: Dictionary| group_passes(a, m, (n - 1) as nat) && #[trigger] group_pass(m, b)
    }
}

/// The group dictionary of the data lines `lines`: every line is read into
/// an empty dictionary, in order, and then ten passes of
/// [`Dictionary::append_group_groups`] carry ids up chains of groups.
/// `None` when the dictionary read does not meet [`groups_resolvable`], on
/// which a pass cannot look up the noun of an id.
pub fn build_group_dictionary(lines: &Vec<String>) -> (r: Option<Dictionary>)
    ensures
        r matches Some(d) ==> exists|d0: Dictionary|
            #[trigger] lines_read(views_of_strings(lines@), d0) && groups_resolvable(d0) && group_passes(d0, d, 10),
        r is None ==> exists|d0: Dictionary|
            #[trigger] lines_read(views_of_strings(lines@), d0) && !groups_resolvable(d0),
{
    let ghost v = views_of_strings(lines@);
    let mut dict = Dictionary::new();
    let mut i: usize = 0;
    assert(v.take(0).len() == 0);
    while i < lines.len()
        invariant
            i <= lines.len(),
            v == views_of_strings(lines@),
            lines_read(v.take(i as int), dict),
        decreases lines.len() - i,
    {
        let ghost d0 = dict;
        let line = lines[i].clone();
        dict.parse_datafile_line(line);
        proof {
            let t = v.take(i + 1);
            assert(t.drop_last() =~= v.take(i as int));
            assert(t.last() == lines@[i as int]@);
            assert(line@ == lines@[i as int]@);
            assert(line_read(d0, dict, t.last()));
            assert(lines_read(t.drop_last(), d0));
            assert(t.len() > 0);
            assert(lines_read(t, dict));
        }
        i = i + 1;
    }
    assert(v.take(lines.len() as int) =~= v);
    if !dict.groups_resolvable_exec() {
        return None;
    }
    let ghost d0 = dict;
    let mut n: usize = 0;
    while n < 10
        invariant
            n <= 10,
            groups_resolvable(dict),
            group_passes(d0, dict, n as nat),
        decreases 10 - n,
    {
        let ghost m = dict;
        dict.append_group_groups();
        proof {
            assert(group_pass(m, dict));
            assert(group_passes(d0, m, n as nat));
            assert(group_passes(d0, dict, (n + 1) as nat));
        }
        n = n + 1;
    }
    Some(dict)
}

} // verus!
