//! The grammar of naming formats such as `{{ML}}-{{FL}}` or `{{MF}}sson`:
//! blocks made of a key in double braces with the text around it.
use vstd::prelude::*;

verus! {

/// The alphabets of the text around and inside the keys of formats and
/// templates.
#[derive(PartialEq, Eq, Structural, Clone, Copy)]
pub enum FormatAlphabet {
    /// Any character but `(`, `)`, `{`, `}`, `|`, `*`, `M`, `F` and `L`
    /// (formats of full names).
    Names,
    /// Letters, digits, space, `-`, `:` and `'` (formats of family names,
    /// and the text before a template's tag).
    Family,
    /// Letters, `(`, `)`, space, `,` and `!` (inside a template's tag).
    Tag,
    /// Letters (inside a name template's tag).
    Letters,
}

pub open spec fn in_alphabet(alphabet: FormatAlphabet, c: char) -> bool {
    match alphabet {
        FormatAlphabet::Names => !(c == '(' || c == ')' || c == '{' || c == '}' || c == '|' || c
            == '*' || c == 'M' || c == 'F' || c == 'L'),
        FormatAlphabet::Family => ('a' <= c && c <= 'z') || ('A' <= c && c <= 'Z') || ('0' <= c
            && c <= '9') || c == ' ' || c == '-' || c == ':' || c == '\'',
        FormatAlphabet::Tag => ('a' <= c && c <= 'z') || ('A' <= c && c <= 'Z') || c == '(' || c
            == ')' || c == ' ' || c == ',' || c == '!',
        FormatAlphabet::Letters => ('a' <= c && c <= 'z') || ('A' <= c && c <= 'Z'),
    }
}

pub fn in_alphabet_exec(alphabet: FormatAlphabet, c: char) -> (b: bool)
    ensures
        b == in_alphabet(alphabet, c),
{
    match alphabet {
        FormatAlphabet::Names => !(c == '(' || c == ')' || c == '{' || c == '}' || c == '|' || c
            == '*' || c == 'M' || c == 'F' || c == 'L'),
        FormatAlphabet::Family => ('a' <= c && c <= 'z') || ('A' <= c && c <= 'Z') || ('0' <= c
            && c <= '9') || c == ' ' || c == '-' || c == ':' || c == '\'',
        FormatAlphabet::Tag => ('a' <= c && c <= 'z') || ('A' <= c && c <= 'Z') || c == '(' || c
            == ')' || c == ' ' || c == ',' || c == '!',
        FormatAlphabet::Letters => ('a' <= c && c <= 'z') || ('A' <= c && c <= 'Z'),
    }
}

/// The keys a format may hold: `ML`, `MF`, `FL`, `FF` and `*F*L`.
pub open spec fn format_keys() -> Seq<Seq<char>> {
    seq![seq!['M', 'L'], seq!['M', 'F'], seq!['F', 'L'], seq!['F', 'F'], seq!['*', 'F', '*', 'L']]
}

/// `{{` + `key` + `}}` stands in `s` at `q`.
pub open spec fn braced_at(s: Seq<char>, q: int, key: Seq<char>) -> bool {
    &&& 0 <= q
    &&& q + key.len() + 4 <= s.len()
    &&& s[q] == '{'
    &&& s[q + 1] == '{'
    &&& s.subrange(q + 2, q + 2 + key.len()) == key
    &&& s[q + 2 + key.len()] == '}'
    &&& s[q + 3 + key.len()] == '}'
}

/// The key in braces that stands in `s` at `q`, if any.
pub open spec fn key_at(s: Seq<char>, q: int) -> Option<Seq<char>> {
    if braced_at(s, q, format_keys()[0]) {
        Some(format_keys()[0])
    } else if braced_at(s, q, format_keys()[1]) {
        Some(format_keys()[1])
    } else if braced_at(s, q, format_keys()[2]) {
        Some(format_keys()[2])
    } else if braced_at(s, q, format_keys()[3]) {
        Some(format_keys()[3])
    } else if braced_at(s, q, format_keys()[4]) {
        Some(format_keys()[4])
    } else {
        None
    }
}

/// The first position from `q` on where a key in braces stands.
pub open spec fn next_key(s: Seq<char>, q: int) -> Option<int>
    decreases s.len() - q,
{
    if q < 0 || q >= s.len() {
        None
    } else if key_at(s, q) is Some {
        Some(q)
    } else {
        next_key(s, q + 1)
    }
}

/// Where the run of alphabet characters that ends at `k` begins, not before
/// `p`.
pub open spec fn run_start(s: Seq<char>, alphabet: FormatAlphabet, p: int, k: int) -> int
    decreases k - p,
{
    if k > p && in_alphabet(alphabet, s[k - 1]) {
        run_start(s, alphabet, p, k - 1)
    } else {
        k
    }
}

/// Where the run of alphabet characters that begins at `e` ends.
pub open spec fn run_end(s: Seq<char>, alphabet: FormatAlphabet, e: int) -> int
    decreases s.len() - e,
{
    if 0 <= e < s.len() && in_alphabet(alphabet, s[e]) {
        run_end(s, alphabet, e + 1)
    } else {
        e
    }
}

pub proof fn lemma_next_key(s: Seq<char>, q: int)
    requires
        0 <= q,
    ensures
        next_key(s, q) matches Some(k) ==> (q <= k && key_at(s, k) is Some && k + key_at(
            s,
            k,
        ).unwrap().len() + 4 <= s.len()),
        next_key(s, q) is None ==> forall|j: int| q <= j < s.len() ==> key_at(s, j) is None,
    decreases s.len() - q,
{
    if 0 <= q < s.len() && key_at(s, q) is None {
        lemma_next_key(s, q + 1);
    }
}

pub proof fn lemma_run_end(s: Seq<char>, alphabet: FormatAlphabet, e: int)
    requires
        0 <= e <= s.len(),
    ensures
        e <= run_end(s, alphabet, e) <= s.len(),
        forall|j: int| e <= j < run_end(s, alphabet, e) ==> in_alphabet(alphabet, #[trigger] s[j]),
    decreases s.len() - e,
{
    if e < s.len() && in_alphabet(alphabet, s[e]) {
        lemma_run_end(s, alphabet, e + 1);
    }
}

pub proof fn lemma_run_start(s: Seq<char>, alphabet: FormatAlphabet, p: int, k: int)
    requires
        p <= k,
    ensures
        p <= run_start(s, alphabet, p, k) <= k,
    decreases k - p,
{
    if k > p && in_alphabet(alphabet, s[k - 1]) {
        lemma_run_start(s, alphabet, p, k - 1);
    }
}

/// A block of a format: the text before the key, the key, and the text
/// after it.
pub struct Block {
    pub prefix: Seq<char>,
    pub key: Seq<char>,
    pub suffix: Seq<char>,
}

/// The blocks of `s` from position `p` on, as a regular-expression search
/// for `A*{{KEY}}A*` (with `A` the alphabet) finds them, leftmost first and
/// without overlap; text outside every block is not part of any.
pub open spec fn blocks_from(s: Seq<char>, alphabet: FormatAlphabet, p: int) -> Seq<Block>
    decreases s.len() - p,
{
    if p < 0 {
        Seq::empty()
    } else {
        match next_key(s, p) {
            None => Seq::empty(),
            Some(k) => {
                let key = key_at(s, k).unwrap();
                let ke = k + key.len() + 4;
                proof {
                    lemma_next_key(s, p);
                    lemma_run_end(s, alphabet, ke);
                }
                let e = run_end(s, alphabet, ke);
                seq![
                    Block {
                        prefix: s.subrange(run_start(s, alphabet, p, k), k),
                        key,
                        suffix: s.subrange(ke, e),
                    },
                ] + blocks_from(s, alphabet, e)
            },
        }
    }
}

/// The blocks of a format.
pub open spec fn blocks(s: Seq<char>, alphabet: FormatAlphabet) -> Seq<Block> {
    blocks_from(s, alphabet, 0)
}

/// Every key of a block is one of the format keys, none of them empty.
pub proof fn lemma_block_keys(s: Seq<char>, alphabet: FormatAlphabet, p: int, i: int)
    requires
        0 <= p,
        0 <= i < blocks_from(s, alphabet, p).len(),
    ensures
        format_keys().contains(blocks_from(s, alphabet, p)[i].key),
        blocks_from(s, alphabet, p)[i].key.len() > 0,
    decreases s.len() - p,
{
    lemma_next_key(s, p);
    let k = next_key(s, p).unwrap();
    let key = key_at(s, k).unwrap();
    let ke = k + key.len() + 4;
    lemma_run_end(s, alphabet, ke);
    let e = run_end(s, alphabet, ke);
    if i == 0 {
        assert(format_keys()[0].len() > 0 && format_keys()[1].len() > 0 && format_keys()[2].len() > 0
            && format_keys()[3].len() > 0 && format_keys()[4].len() > 0);
        if key == format_keys()[0] {
            assert(format_keys().contains(key));
        } else if key == format_keys()[1] {
            assert(format_keys()[1] == key);
        } else if key == format_keys()[2] {
            assert(format_keys()[2] == key);
        } else if key == format_keys()[3] {
            assert(format_keys()[3] == key);
        } else {
            assert(format_keys()[4] == key);
        }
    } else {
        lemma_block_keys(s, alphabet, e, i - 1);
    }
}

/// A block as found in a format.
pub struct FoundBlock {
    pub prefix: Vec<char>,
    pub key: Vec<char>,
    pub suffix: Vec<char>,
}

impl View for FoundBlock {
    type V = Block;

    open spec fn view(&self) -> Block {
        Block { prefix: self.prefix@, key: self.key@, suffix: self.suffix@ }
    }
}

pub open spec fn block_views(v: Seq<FoundBlock>) -> Seq<Block> {
    v.map_values(|b: FoundBlock| b@)
}

fn key_exec(i: usize) -> (k: Vec<char>)
    requires
        i < 5,
    ensures
        k@ == format_keys()[i as int],
{
    let k = if i == 0 {
        vec!['M', 'L']
    } else if i == 1 {
        vec!['M', 'F']
    } else if i == 2 {
        vec!['F', 'L']
    } else if i == 3 {
        vec!['F', 'F']
    } else {
        vec!['*', 'F', '*', 'L']
    };
    assert(k@ =~= format_keys()[i as int]);
    k
}

fn braced_at_exec(s: &Vec<char>, q: usize, key: &Vec<char>) -> (b: bool)
    ensures
        b == braced_at(s@, q as int, key@),
{
    if q >= s.len() || s.len() - q < 4 || s.len() - q - 4 < key.len() {
        return false;
    }
    if s[q] != '{' || s[q + 1] != '{' {
        return false;
    }
    if s[q + 2 + key.len()] != '}' || s[q + 3 + key.len()] != '}' {
        return false;
    }
    let mut j: usize = 0;
    while j < key.len()
        invariant
            q + key.len() + 4 <= s.len(),
            j <= key.len(),
            forall|t: int| 0 <= t < j ==> s@[q + 2 + t] == key@[t],
        decreases key.len() - j,
    {
        if s[q + 2 + j] != key[j] {
            assert(s@.subrange(q + 2, q + 2 + key.len())[j as int] != key@[j as int]);
            return false;
        }
        j = j + 1;
    }
    assert(s@.subrange(q + 2, q + 2 + key.len()) =~= key@);
    true
}

fn key_at_exec(s: &Vec<char>, q: usize) -> (r: Option<Vec<char>>)
    ensures
        r matches Some(k) ==> key_at(s@, q as int) == Some(k@),
        r is None ==> key_at(s@, q as int) is None,
{
    let mut i: usize = 0;
    while i < 5
        invariant
            i <= 5,
            forall|t: int| 0 <= t < i ==> !braced_at(s@, q as int, #[trigger] format_keys()[t]),
        decreases 5 - i,
    {
        let key = key_exec(i);
        if braced_at_exec(s, q, &key) {
            assert(!braced_at(s@, q as int, format_keys()[0]) || i == 0);
            return Some(key);
        }
        i = i + 1;
    }
    None
}

/// The blocks of a format (see [`blocks`]).
pub fn find_blocks(s: &Vec<char>, alphabet: FormatAlphabet) -> (r: Vec<FoundBlock>)
    ensures
        block_views(r@) == blocks(s@, alphabet),
{
    let mut out: Vec<FoundBlock> = Vec::new();
    let mut p: usize = 0;
    assert(block_views(out@) + blocks_from(s@, alphabet, 0) =~= blocks(s@, alphabet));
    while p < s.len()
        invariant
            p <= s.len(),
            blocks(s@, alphabet) == block_views(out@) + blocks_from(s@, alphabet, p as int),
        decreases s.len() - p,
    {
        // find the next key
        let mut k: usize = p;
        let mut found: Option<Vec<char>> = None;
        while found.is_none() && k < s.len()
            invariant
                p <= k <= s.len(),
                found is None ==> next_key(s@, p as int) == next_key(s@, k as int),
                found matches Some(key) ==> (k < s.len() && key_at(s@, k as int) == Some(key@)
                    && next_key(s@, p as int) == Some(k as int)),
            decreases s.len() - k, if found is None { 1int } else { 0int },
        {
            match key_at_exec(s, k) {
                Some(key) => {
                    found = Some(key);
                },
                None => {
                    k = k + 1;
                },
            }
        }
        match found {
            None => {
                assert(next_key(s@, k as int) is None);
                assert(blocks_from(s@, alphabet, p as int) =~= Seq::<Block>::empty());
                assert(block_views(out@) + Seq::<Block>::empty() =~= block_views(out@));
                return out;
            },
            Some(key) => {
                assert(next_key(s@, p as int) == Some(k as int));
                proof {
                    lemma_next_key(s@, p as int);
                }
                let ke = k + key.len() + 4;
                let mut a: usize = k;
                while a > p && in_alphabet_exec(alphabet, s[a - 1])
                    invariant
                        p <= a <= k < s.len(),
                        run_start(s@, alphabet, p as int, k as int) == run_start(
                            s@,
                            alphabet,
                            p as int,
                            a as int,
                        ),
                    decreases a,
                {
                    a = a - 1;
                }
                let mut e: usize = ke;
                proof {
                    lemma_run_end(s@, alphabet, ke as int);
                }
                while e < s.len() && in_alphabet_exec(alphabet, s[e])
                    invariant
                        ke <= e <= s.len(),
                        run_end(s@, alphabet, ke as int) == run_end(s@, alphabet, e as int),
                    decreases s.len() - e,
                {
                    e = e + 1;
                }
                let prefix = crate::text::sub_chars(s, a, k);
                let suffix = crate::text::sub_chars(s, ke, e);
                let b = FoundBlock { prefix, key, suffix };
                let ghost prev = block_views(out@);
                out.push(b);
                assert(block_views(out@) =~= prev.push(b@));
                assert(blocks_from(s@, alphabet, p as int) =~= seq![b@] + blocks_from(
                    s@,
                    alphabet,
                    e as int,
                ));
                assert(prev + (seq![b@] + blocks_from(s@, alphabet, e as int)) =~= prev.push(b@)
                    + blocks_from(s@, alphabet, e as int));
                p = e;
            },
        }
    }
    assert(blocks_from(s@, alphabet, p as int) =~= Seq::<Block>::empty());
    assert(block_views(out@) + Seq::<Block>::empty() =~= block_views(out@));
    out
}

} // verus!
