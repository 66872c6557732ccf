//! Text as sequences of characters: trimming, splitting, searching and
//! replacing, and decimal numerals.
use vstd::prelude::*;

verus! {

/// The characters of `s`, in order.
pub fn chars_of(s: &str) -> (v: Vec<char>)
    ensures
        v@ == s@,
{
    broadcast use vstd::string::axiom_spec_iter;

    let mut v: Vec<char> = Vec::new();
    for c in it: s.chars()
        invariant
            v@ == it.seq().take(it.index() as int),
    {
        v.push(c);
    }
    v
}

/// The string spelled by `v` (`String::from_iter` over the characters).
#[verifier::external_body]
pub fn string_of(v: &Vec<char>) -> (s: String)
    ensures
        s@ == v@,
{
    String::from_iter(v.iter())
}

/// Rust's `char::is_whitespace`: the Unicode `White_Space` property.
pub open spec fn is_ws(c: char) -> bool {
    let n = c as u32;
    ||| 9 <= n <= 13
    ||| n == 32
    ||| n == 0x85
    ||| n == 0xa0
    ||| n == 0x1680
    ||| 0x2000 <= n <= 0x200a
    ||| n == 0x2028
    ||| n == 0x2029
    ||| n == 0x202f
    ||| n == 0x205f
    ||| n == 0x3000
}

pub fn is_whitespace(c: char) -> (b: bool)
    ensures
        b == is_ws(c),
{
    let n = c as u32;
    (9 <= n && n <= 13) || n == 32 || n == 0x85 || n == 0xa0 || n == 0x1680 || (0x2000 <= n
        && n <= 0x200a) || n == 0x2028 || n == 0x2029 || n == 0x202f || n == 0x205f || n == 0x3000
}

/// `s` without its leading whitespace.
pub open spec fn trim_start(s: Seq<char>) -> Seq<char>
    decreases s.len(),
{
    if s.len() > 0 && is_ws(s[0]) {
        trim_start(s.drop_first())
    } else {
        s
    }
}

/// `s` without its trailing whitespace.
pub open spec fn trim_end(s: Seq<char>) -> Seq<char>
    decreases s.len(),
{
    if s.len() > 0 && is_ws(s.last()) {
        trim_end(s.drop_last())
    } else {
        s
    }
}

/// `str::trim`: `s` without leading or trailing whitespace.
pub open spec fn trim(s: Seq<char>) -> Seq<char> {
    trim_end(trim_start(s))
}

/// A copy of `s[from..to]`.
pub fn sub_chars(s: &Vec<char>, from: usize, to: usize) -> (r: Vec<char>)
    requires
        from <= to <= s.len(),
    ensures
        r@ == s@.subrange(from as int, to as int),
{
    let mut r: Vec<char> = Vec::new();
    let mut i: usize = from;
    while i < to
        invariant
            from <= i <= to <= s.len(),
            r@ == s@.subrange(from as int, i as int),
        decreases to - i,
    {
        r.push(s[i]);
        i = i + 1;
    }
    r
}

/// `str::trim` on a character vector.
pub fn trim_chars(s: &Vec<char>) -> (r: Vec<char>)
    ensures
        r@ == trim(s@),
{
    let len = s.len();
    let mut a: usize = 0;
    assert(s@.subrange(0, len as int) =~= s@);
    while a < len && is_whitespace(s[a])
        invariant
            a <= len == s.len(),
            trim_start(s@) == trim_start(s@.subrange(a as int, len as int)),
        decreases len - a,
    {
        assert(s@.subrange(a as int, len as int).drop_first() =~= s@.subrange(
            a + 1,
            len as int,
        ));
        a = a + 1;
    }
    assert(trim_start(s@) == s@.subrange(a as int, len as int));
    let mut b: usize = len;
    while b > a && is_whitespace(s[b - 1])
        invariant
            a <= b <= len == s.len(),
            trim(s@) == trim_end(s@.subrange(a as int, b as int)),
        decreases b,
    {
        assert(s@.subrange(a as int, b as int).drop_last() =~= s@.subrange(a as int, b - 1));
        b = b - 1;
    }
    sub_chars(s, a, b)
}

/// `str::split(sep)`: the pieces between the separators, in order; there is
/// always one more piece than there are separators.
pub open spec fn split(s: Seq<char>, sep: char) -> Seq<Seq<char>>
    decreases s.len(),
{
    if s.len() == 0 {
        seq![Seq::empty()]
    } else {
        let r = split(s.drop_last(), sep);
        if s.last() == sep {
            r.push(Seq::empty())
        } else {
            r.update(r.len() - 1, r.last().push(s.last()))
        }
    }
}

pub proof fn lemma_split_nonempty(s: Seq<char>, sep: char)
    ensures
        split(s, sep).len() >= 1,
    decreases s.len(),
{
    if s.len() > 0 {
        lemma_split_nonempty(s.drop_last(), sep);
    }
}

/// The views of a vector of strings.
pub open spec fn str_views(v: Seq<String>) -> Seq<Seq<char>> {
    v.map_values(|x: String| x@)
}

/// The views of a vector of character vectors.
pub open spec fn views(v: Seq<Vec<char>>) -> Seq<Seq<char>> {
    v.map_values(|x: Vec<char>| x@)
}

/// `str::split(sep)`, collected.
pub fn split_chars(s: &Vec<char>, sep: char) -> (r: Vec<Vec<char>>)
    ensures
        views(r@) == split(s@, sep),
{
    let mut r: Vec<Vec<char>> = Vec::new();
    r.push(Vec::new());
    let mut i: usize = 0;
    assert(views(r@) =~= split(s@.take(0), sep));
    while i < s.len()
        invariant
            i <= s.len(),
            views(r@) == split(s@.take(i as int), sep),
        decreases s.len() - i,
    {
        proof {
            lemma_split_nonempty(s@.take(i as int), sep);
        }
        assert(s@.take(i + 1).drop_last() =~= s@.take(i as int));
        let c = s[i];
        if c == sep {
            r.push(Vec::new());
            assert(views(r@) =~= split(s@.take(i + 1), sep));
        } else {
            let mut last = r.pop().unwrap();
            last.push(c);
            r.push(last);
            assert(views(r@) =~= split(s@.take(i + 1), sep));
        }
        i = i + 1;
    }
    assert(s@.take(s.len() as int) =~= s@);
    r
}

/// `s` begins with `p`.
pub open spec fn starts_with(s: Seq<char>, p: Seq<char>) -> bool {
    p.len() <= s.len() && s.subrange(0, p.len() as int) == p
}

/// `p` occurs in `s` at position `i`.
pub open spec fn occurs_at(s: Seq<char>, p: Seq<char>, i: int) -> bool {
    0 <= i && i + p.len() <= s.len() && s.subrange(i, i + p.len()) == p
}

/// `p` occurs somewhere in `s` (`str::contains`).
pub open spec fn contains_seq(s: Seq<char>, p: Seq<char>) -> bool {
    exists|i: int| occurs_at(s, p, i)
}

pub fn occurs_at_exec(s: &Vec<char>, p: &Vec<char>, i: usize) -> (b: bool)
    ensures
        b == occurs_at(s@, p@, i as int),
{
    if i > s.len() || p.len() > s.len() - i {
        return false;
    }
    let mut k: usize = 0;
    while k < p.len()
        invariant
            i + p.len() <= s.len(),
            k <= p.len(),
            forall|j: int| 0 <= j < k ==> s@[i + j] == p@[j],
        decreases p.len() - k,
    {
        if s[i + k] != p[k] {
            assert(s@.subrange(i as int, i + p.len())[k as int] != p@[k as int]);
            return false;
        }
        k = k + 1;
    }
    assert(s@.subrange(i as int, i + p.len()) =~= p@);
    true
}

pub fn contains_exec(s: &Vec<char>, p: &Vec<char>) -> (b: bool)
    ensures
        b == contains_seq(s@, p@),
{
    let mut i: usize = 0;
    while i < s.len()
        invariant
            i <= s.len(),
            forall|j: int| 0 <= j < i ==> !occurs_at(s@, p@, j),
        decreases s.len() - i,
    {
        if occurs_at_exec(s, p, i) {
            return true;
        }
        i = i + 1;
    }
    if occurs_at_exec(s, p, i) {
        return true;
    }
    assert forall|j: int| !occurs_at(s@, p@, j) by {
        if j > s.len() {
            assert(!occurs_at(s@, p@, j));
        }
    }
    false
}

/// `str::replace(p, r)` for a non-empty pattern: every occurrence of `p`,
/// found from left to right without overlap, becomes `r`.
pub open spec fn replace_all(s: Seq<char>, p: Seq<char>, r: Seq<char>) -> Seq<char>
    decreases s.len(),
{
    if p.len() == 0 || s.len() < p.len() {
        s
    } else if s.subrange(0, p.len() as int) == p {
        r + replace_all(s.subrange(p.len() as int, s.len() as int), p, r)
    } else {
        seq![s[0]] + replace_all(s.drop_first(), p, r)
    }
}

pub fn replace_chars(s: &Vec<char>, p: &Vec<char>, r: &Vec<char>) -> (out: Vec<char>)
    requires
        p.len() > 0,
    ensures
        out@ == replace_all(s@, p@, r@),
{
    let mut out: Vec<char> = Vec::new();
    let mut i: usize = 0;
    let len = s.len();
    assert(s@.subrange(0, len as int) =~= s@);
    assert(out@ + replace_all(s@, p@, r@) =~= replace_all(s@, p@, r@));
    while i < len
        invariant
            i <= len == s.len(),
            p.len() > 0,
            replace_all(s@, p@, r@) == out@ + replace_all(s@.subrange(i as int, len as int), p@, r@),
        decreases len - i,
    {
        let rest = Ghost(s@.subrange(i as int, len as int));
        if occurs_at_exec(s, p, i) {
            assert(rest@.subrange(0, p.len() as int) =~= s@.subrange(i as int, i + p.len()));
            assert(rest@.subrange(p.len() as int, rest@.len() as int) =~= s@.subrange(
                i + p.len(),
                len as int,
            ));
            let mut k: usize = 0;
            let ghost out0 = out@;
            while k < r.len()
                invariant
                    k <= r.len(),
                    out@ == out0 + r@.take(k as int),
                decreases r.len() - k,
            {
                out.push(r[k]);
                k = k + 1;
                assert(out@ =~= out0 + r@.take(k as int));
            }
            assert(r@.take(r.len() as int) =~= r@);
            assert(out0 + (r@ + replace_all(s@.subrange(i + p.len(), len as int), p@, r@)) =~= out@
                + replace_all(s@.subrange(i + p.len(), len as int), p@, r@));
            i = i + p.len();
        } else {
            proof {
                if rest@.len() >= p@.len() {
                    assert(rest@.subrange(0, p.len() as int) =~= s@.subrange(i as int, i + p.len()));
                }
            }
            assert(rest@.drop_first() =~= s@.subrange(i + 1, len as int));
            let ghost out0 = out@;
            out.push(s[i]);
            proof {
                if rest@.len() < p@.len() {
                    // replace_all of a short tail is the tail itself
                    assert(replace_all(rest@, p@, r@) == rest@);
                    lemma_replace_short(s@.subrange(i + 1, len as int), p@, r@);
                    assert(rest@ =~= seq![s@[i as int]] + s@.subrange(i + 1, len as int));
                }
                assert(out0 + (seq![s@[i as int]] + replace_all(
                    s@.subrange(i + 1, len as int),
                    p@,
                    r@,
                )) =~= out@ + replace_all(s@.subrange(i + 1, len as int), p@, r@));
            }
            i = i + 1;
        }
    }
    assert(s@.subrange(len as int, len as int) =~= Seq::<char>::empty());
    assert(out@ + Seq::<char>::empty() =~= out@);
    out
}

proof fn lemma_replace_short(s: Seq<char>, p: Seq<char>, r: Seq<char>)
    requires
        s.len() < p.len(),
    ensures
        replace_all(s, p, r) == s,
{
}

/// The character of a decimal digit.
pub open spec fn digit(d: int) -> char {
    if d == 0 {
        '0'
    } else if d == 1 {
        '1'
    } else if d == 2 {
        '2'
    } else if d == 3 {
        '3'
    } else if d == 4 {
        '4'
    } else if d == 5 {
        '5'
    } else if d == 6 {
        '6'
    } else if d == 7 {
        '7'
    } else if d == 8 {
        '8'
    } else {
        '9'
    }
}

/// The decimal numeral of `n`, as `Display` writes it.
pub open spec fn decimal(n: nat) -> Seq<char>
    decreases n,
{
    if n < 10 {
        seq![digit(n as int)]
    } else {
        decimal(n / 10).push(digit((n % 10) as int))
    }
}

fn digit_exec(d: u64) -> (c: char)
    requires
        d < 10,
    ensures
        c == digit(d as int),
{
    if d == 0 {
        '0'
    } else if d == 1 {
        '1'
    } else if d == 2 {
        '2'
    } else if d == 3 {
        '3'
    } else if d == 4 {
        '4'
    } else if d == 5 {
        '5'
    } else if d == 6 {
        '6'
    } else if d == 7 {
        '7'
    } else if d == 8 {
        '8'
    } else {
        '9'
    }
}

/// The decimal numeral of `n`.
pub fn decimal_chars(n: u64) -> (r: Vec<char>)
    ensures
        r@ == decimal(n as nat),
    decreases n,
{
    if n < 10 {
        let mut r = Vec::new();
        r.push(digit_exec(n));
        r
    } else {
        let mut r = decimal_chars(n / 10);
        r.push(digit_exec(n % 10));
        r
    }
}

/// Appends the characters of `s` to `out`.
pub fn push_all(out: &mut Vec<char>, s: &Vec<char>)
    ensures
        final(out)@ == old(out)@ + s@,
{
    let mut i: usize = 0;
    let ghost o = old(out)@;
    while i < s.len()
        invariant
            i <= s.len(),
            out@ == o + s@.take(i as int),
        decreases s.len() - i,
    {
        out.push(s[i]);
        i = i + 1;
        assert(out@ =~= o + s@.take(i as int));
    }
    assert(s@.take(s.len() as int) =~= s@);
}

/// Appends the characters of `s` to `out`.
pub fn push_str(out: &mut Vec<char>, s: &str)
    ensures
        final(out)@ == old(out)@ + s@,
{
    let v = chars_of(s);
    push_all(out, &v);
}

/// Whether two character vectors are equal.
pub fn eq_chars(a: &Vec<char>, b: &Vec<char>) -> (r: bool)
    ensures
        r == (a@ == b@),
{
    if a.len() != b.len() {
        return false;
    }
    let mut i: usize = 0;
    while i < a.len()
        invariant
            a.len() == b.len(),
            i <= a.len(),
            forall|j: int| 0 <= j < i ==> a@[j] == b@[j],
        decreases a.len() - i,
    {
        if a[i] != b[i] {
            return false;
        }
        i = i + 1;
    }
    assert(a@ =~= b@);
    true
}

/// `str::trim_end` on a character vector.
pub fn trim_end_chars(s: &Vec<char>) -> (r: Vec<char>)
    ensures
        r@ == trim_end(s@),
{
    let mut b: usize = s.len();
    assert(s@.subrange(0, b as int) =~= s@);
    while b > 0 && is_whitespace(s[b - 1])
        invariant
            b <= s.len(),
            trim_end(s@) == trim_end(s@.subrange(0, b as int)),
        decreases b,
    {
        assert(s@.subrange(0, b as int).drop_last() =~= s@.subrange(0, b - 1));
        b = b - 1;
    }
    sub_chars(s, 0, b)
}

/// `s` without any copy of `c`, in order.
pub open spec fn without_char(s: Seq<char>, c: char) -> Seq<char>
    decreases s.len(),
{
    if s.len() == 0 {
        Seq::empty()
    } else if s.last() == c {
        without_char(s.drop_last(), c)
    } else {
        without_char(s.drop_last(), c).push(s.last())
    }
}

/// `s` without any copy of `c` (`str::replace(c, "")`).
pub fn without_char_exec(s: &Vec<char>, c: char) -> (r: Vec<char>)
    ensures
        r@ == without_char(s@, c),
{
    let mut out: Vec<char> = Vec::new();
    let mut i: usize = 0;
    while i < s.len()
        invariant
            i <= s.len(),
            out@ == without_char(s@.take(i as int), c),
        decreases s.len() - i,
    {
        assert(s@.take(i + 1).drop_last() =~= s@.take(i as int));
        if s[i] != c {
            out.push(s[i]);
        }
        i = i + 1;
    }
    assert(s@.take(s.len() as int) =~= s@);
    out
}

/// Whether `s` holds `c`.
pub fn contains_char(s: &Vec<char>, c: char) -> (b: bool)
    ensures
        b == s@.contains(c),
{
    let mut i: usize = 0;
    while i < s.len()
        invariant
            i <= s.len(),
            forall|j: int| 0 <= j < i ==> s@[j] != c,
        decreases s.len() - i,
    {
        if s[i] == c {
            return true;
        }
        i = i + 1;
    }
    false
}

/// What `str::to_lowercase` gives for `s`: a function of `s` alone, by the
/// Unicode case tables.
pub uninterp spec fn lowercase(s: Seq<char>) -> Seq<char>;

/// `str::to_lowercase`: the string in lower case (see [`lowercase`]).
#[verifier::external_body]
pub(crate) fn to_lowercase(s: &str) -> (r: String)
    ensures
        r@ == lowercase(s@),
{
    s.to_lowercase()
}

/// The character of a lowercase hexadecimal digit.
pub open spec fn hex_digit(d: int) -> char {
    if d < 10 {
        digit(d)
    } else if d == 10 {
        'a'
    } else if d == 11 {
        'b'
    } else if d == 12 {
        'c'
    } else if d == 13 {
        'd'
    } else if d == 14 {
        'e'
    } else {
        'f'
    }
}

/// The last `count` hexadecimal digits of `n`, most significant first.
pub open spec fn hex_digits(n: nat, count: nat) -> Seq<char>
    decreases count,
{
    if count == 0 {
        Seq::empty()
    } else {
        hex_digits(n / 16, (count - 1) as nat).push(hex_digit((n % 16) as int))
    }
}

/// An id as `uuid` writes it: 32 lowercase hexadecimal digits, in groups
/// of 8, 4, 4, 4 and 12 joined by hyphens.
pub open spec fn id_text(id: u128) -> Seq<char> {
    let h = hex_digits(id as nat, 32);
    h.subrange(0, 8) + "-"@ + h.subrange(8, 12) + "-"@ + h.subrange(12, 16) + "-"@ + h.subrange(16, 20)
        + "-"@ + h.subrange(20, 32)
}

fn hex_digit_exec(d: u128) -> (c: char)
    requires
        d < 16,
    ensures
        c == hex_digit(d as int),
{
    if d < 10 {
        digit_exec(d as u64)
    } else if d == 10 {
        'a'
    } else if d == 11 {
        'b'
    } else if d == 12 {
        'c'
    } else if d == 13 {
        'd'
    } else if d == 14 {
        'e'
    } else {
        'f'
    }
}

/// The text of an id (see [`id_text`]).
pub fn id_chars(id: u128) -> (r: Vec<char>)
    ensures
        r@ == id_text(id),
{
    let mut digits: Vec<char> = Vec::new();
    let mut m: u128 = id;
    let mut k: u64 = 0;
    while k < 32
        invariant
            k <= 32,
            hex_digits(id as nat, 32) == hex_digits(m as nat, (32 - k) as nat) + digits@,
        decreases 32 - k,
    {
        let ghost before = digits@;
        digits.insert(0, hex_digit_exec(m % 16));
        assert(hex_digits(m as nat, (32 - k) as nat) == hex_digits((m / 16) as nat, (31 - k) as nat).push(
            hex_digit((m % 16) as int),
        ));
        assert(hex_digits((m / 16) as nat, (31 - k) as nat).push(hex_digit((m % 16) as int)) + before
            =~= hex_digits((m / 16) as nat, (31 - k) as nat) + digits@);
        m = m / 16;
        k = k + 1;
    }
    assert(hex_digits(m as nat, 0) =~= Seq::<char>::empty());
    assert(digits@ =~= hex_digits(id as nat, 32));
    proof {
        lemma_hex_digits_len(id as nat, 32);
    }
    let mut out: Vec<char> = Vec::new();
    let mut i: usize = 0;
    while i < 32
        invariant
            i <= 32,
            digits@.len() == 32,
            out@ == id_text_prefix(digits@, i as int),
        decreases 32 - i,
    {
        if i == 8 || i == 12 || i == 16 || i == 20 {
            out.push('-');
        }
        out.push(digits[i]);
        i = i + 1;
    }
    proof {
        reveal_strlit("-");
        assert("-"@ =~= seq!['-']);
        lemma_id_text_prefix(digits@);
    }
    out
}

proof fn lemma_hex_digits_len(n: nat, count: nat)
    ensures
        hex_digits(n, count).len() == count,
    decreases count,
{
    if count > 0 {
        lemma_hex_digits_len(n / 16, (count - 1) as nat);
    }
}

/// The text of the first `n` digits of `h`, with the hyphens before them.
spec fn id_text_prefix(h: Seq<char>, n: int) -> Seq<char>
    decreases n,
{
    if n <= 0 {
        Seq::empty()
    } else if n - 1 == 8 || n - 1 == 12 || n - 1 == 16 || n - 1 == 20 {
        id_text_prefix(h, n - 1).push('-').push(h[n - 1])
    } else {
        id_text_prefix(h, n - 1).push(h[n - 1])
    }
}

proof fn lemma_id_text_prefix(h: Seq<char>)
    requires
        h.len() == 32,
        "-"@ == seq!['-'],
    ensures
        id_text_prefix(h, 32) == h.subrange(0, 8) + "-"@ + h.subrange(8, 12) + "-"@ + h.subrange(12, 16)
            + "-"@ + h.subrange(16, 20) + "-"@ + h.subrange(20, 32),
{
    reveal_with_fuel(id_text_prefix, 33);
    assert(id_text_prefix(h, 32) =~= h.subrange(0, 8) + "-"@ + h.subrange(8, 12) + "-"@ + h.subrange(12, 16)
        + "-"@ + h.subrange(16, 20) + "-"@ + h.subrange(20, 32));
}

/// The first position, from `i` on, at which `p` occurs in `s`.
pub open spec fn first_occurrence_from(s: Seq<char>, p: Seq<char>, i: int) -> Option<int>
    decreases s.len() + 1 - i,
{
    if i < 0 || i > s.len() {
        None
    } else if occurs_at(s, p, i) {
        Some(i)
    } else {
        first_occurrence_from(s, p, i + 1)
    }
}

/// The first position at which `p` occurs in `s`.
pub open spec fn first_occurrence(s: Seq<char>, p: Seq<char>) -> Option<int> {
    first_occurrence_from(s, p, 0)
}

/// The last position, from `from` on, of the character `c` in `s`.
pub open spec fn last_char_from(s: Seq<char>, c: char, from: int) -> Option<int>
    decreases s.len(),
{
    if s.len() == 0 || s.len() - 1 < from {
        None
    } else if s.last() == c {
        Some(s.len() - 1)
    } else {
        last_char_from(s.drop_last(), c, from)
    }
}

/// The first position at which `p` occurs in `s` (see [`first_occurrence`]).
pub fn first_occurrence_exec(s: &Vec<char>, p: &Vec<char>) -> (r: Option<usize>)
    ensures
        r matches Some(i) ==> first_occurrence(s@, p@) == Some(i as int) && occurs_at(s@, p@, i as int),
        r is None ==> first_occurrence(s@, p@) is None,
{
    let mut i: usize = 0;
    loop
        invariant
            i <= s.len(),
            first_occurrence(s@, p@) == first_occurrence_from(s@, p@, i as int),
        decreases s.len() - i,
    {
        if occurs_at_exec(s, p, i) {
            return Some(i);
        }
        if i == s.len() {
            assert(first_occurrence_from(s@, p@, i + 1) is None);
            return None;
        }
        i = i + 1;
    }
}

/// The last position, from `from` on, of `c` in `s` (see [`last_char_from`]).
pub fn last_char_from_exec(s: &Vec<char>, c: char, from: usize) -> (r: Option<usize>)
    ensures
        r matches Some(i) ==> last_char_from(s@, c, from as int) == Some(i as int) && i < s.len(),
        r is None ==> last_char_from(s@, c, from as int) is None,
{
    let mut n: usize = s.len();
    assert(s@.take(n as int) =~= s@);
    while n > from
        invariant
            n <= s.len(),
            last_char_from(s@, c, from as int) == last_char_from(s@.take(n as int), c, from as int),
        decreases n,
    {
        assert(s@.take(n as int).drop_last() =~= s@.take(n - 1));
        if s[n - 1] == c {
            return Some(n - 1);
        }
        n = n - 1;
    }
    None
}

} // verus!
