//! Character-level string helpers used throughout the crate.

use vstd::prelude::*;

verus! {

broadcast use vstd::string::group_string_axioms;

/// Appends one character to a `String` (`String::push`).
#[verifier::external_body]
pub(crate) fn push_char(s: &mut String, c: char)
    ensures
        final(s)@ == old(s)@.push(c),
{
    s.push(c);
}

/// The characters of `s`, in order.
pub fn chars_of(s: &str) -> (r: Vec<char>)
    ensures
        r@ == s@,
{
    let mut out: Vec<char> = Vec::new();
    for c in it: s.chars()
        invariant
            out@ == it.seq().take(it.index() as int),
    {
        out.push(c);
    }
    out
}

/// A `String` holding exactly the characters of `cs`.
pub fn string_from_chars(cs: &[char]) -> (r: String)
    ensures
        r@ == cs@,
{
    let mut s = String::new();
    let mut i: usize = 0;
    while i < cs.len()
        invariant
            i <= cs.len(),
            s@ == cs@.take(i as int),
        decreases cs.len() - i,
    {
        push_char(&mut s, cs[i]);
        assert(cs@.take(i as int).push(cs@[i as int]) =~= cs@.take(i + 1));
        i = i + 1;
    }
    assert(cs@.take(cs.len() as int) =~= cs@);
    s
}

/// An owned copy of a string slice.
pub fn owned(s: &str) -> (r: String)
    ensures
        r@ == s@,
{
    s.to_owned()
}

/// Whether `c` occurs in `pool`.
pub fn slice_contains(pool: &[char], c: char) -> (r: bool)
    ensures
        r == pool@.contains(c),
{
    let mut i: usize = 0;
    while i < pool.len()
        invariant
            i <= pool.len(),
            forall|j: int| 0 <= j < i ==> pool@[j] != c,
        decreases pool.len() - i,
    {
        if pool[i] == c {
            return true;
        }
        i = i + 1;
    }
    false
}

/// Whether `needle` occurs as a contiguous run inside `hay`.
pub open spec fn has_infix(hay: Seq<char>, needle: Seq<char>) -> bool {
    exists|k: int|
        0 <= k && k + needle.len() <= hay.len() && #[trigger] hay.subrange(k, k + needle.len())
            == needle
}

/// Whether `needle` occurs as a contiguous run inside `hay`.
pub fn contains_chars(hay: &[char], needle: &[char]) -> (r: bool)
    ensures
        r == has_infix(hay@, needle@),
{
    if needle.len() > hay.len() {
        return false;
    }
    let last = hay.len() - needle.len();
    let mut k: usize = 0;
    while k <= last
        invariant
            last == hay.len() - needle.len(),
            needle.len() <= hay.len(),
            k <= last + 1,
            forall|j: int| 0 <= j < k ==> #[trigger] hay@.subrange(j, j + needle.len()) != needle@,
        decreases last + 1 - k,
    {
        let mut i: usize = 0;
        let mut same = true;
        while i < needle.len()
            invariant
                i <= needle.len(),
                k <= last,
                last == hay.len() - needle.len(),
                same == (forall|t: int| 0 <= t < i ==> hay@[k + t] == needle@[t]),
            decreases needle.len() - i,
        {
            if hay[k + i] != needle[i] {
                same = false;
            }
            i = i + 1;
        }
        if same {
            assert(hay@.subrange(k as int, k + needle.len()) =~= needle@);
            return true;
        }
        assert(hay@.subrange(k as int, k + needle.len()) != needle@) by {
            let t = choose|t: int| 0 <= t < needle.len() && hay@[k + t] != needle@[t];
            assert(hay@.subrange(k as int, k + needle.len())[t] == hay@[k + t]);
        }
        k = k + 1;
    }
    assert forall|j: int|
        0 <= j && j + needle.len() <= hay.len() implies #[trigger] hay@.subrange(
        j,
        j + needle.len(),
    ) != needle@ by {
        assert(j < k);
    }
    false
}

/// The decimal digits `'0'..='9'`, indexed by their value.
pub const DECIMAL_DIGITS: [char; 10] = ['0', '1', '2', '3', '4', '5', '6', '7', '8', '9'];

/// The character of a single decimal digit.
pub open spec fn digit_char(d: nat) -> char {
    DECIMAL_DIGITS@[d as int]
}

/// The decimal notation of `n`, without sign or leading zeros.
pub open spec fn decimal(n: nat) -> Seq<char>
    decreases n,
{
    if n < 10 {
        seq![digit_char(n)]
    } else {
        decimal(n / 10).push(digit_char(n % 10))
    }
}

/// The decimal notation of `n`, as `n.to_string()` writes it.
pub fn decimal_string(n: u64) -> (r: String)
    ensures
        r@ == decimal(n as nat),
{
    let mut m: u64 = n;
    let mut tail: Vec<char> = Vec::new();
    while m >= 10
        invariant
            decimal(n as nat) == decimal(m as nat) + tail@,
        decreases m,
    {
        let d = (m % 10) as usize;
        let ghost old_tail = tail@;
        tail.insert(0, DECIMAL_DIGITS[d]);
        assert(decimal(m as nat) == decimal((m / 10) as nat).push(digit_char((m % 10) as nat)));
        assert(decimal((m / 10) as nat) + tail@ =~= decimal(m as nat) + old_tail);
        m = m / 10;
    }
    let ghost old_tail = tail@;
    tail.insert(0, DECIMAL_DIGITS[m as usize]);
    assert(tail@ =~= decimal(m as nat) + old_tail);
    string_from_chars(tail.as_slice())
}

} // verus!

verus! {

/// Whether two string slices hold the same characters.
pub fn str_eq(a: &str, b: &str) -> (r: bool)
    ensures
        r == (a@ == b@),
{
    let x = chars_of(a);
    let y = chars_of(b);
    if x.len() != y.len() {
        return false;
    }
    let mut i: usize = 0;
    while i < x.len()
        invariant
            x@ == a@,
            y@ == b@,
            x.len() == y.len(),
            i <= x.len(),
            forall|j: int| 0 <= j < i ==> x@[j] == y@[j],
        decreases x.len() - i,
    {
        if x[i] != y[i] {
            assert(x@[i as int] != y@[i as int]);
            return false;
        }
        i = i + 1;
    }
    assert(x@ =~= y@);
    true
}

} // verus!

verus! {

/// A character with the Unicode `White_Space` property, as
/// `char::is_whitespace` decides it.
pub open spec fn white_space(c: char) -> bool {
    ||| c == ' '
    ||| ('\u{9}' <= c <= '\u{d}')
    ||| c == '\u{85}'
    ||| c == '\u{a0}'
    ||| c == '\u{1680}'
    ||| ('\u{2000}' <= c <= '\u{200a}')
    ||| c == '\u{2028}'
    ||| c == '\u{2029}'
    ||| c == '\u{202f}'
    ||| c == '\u{205f}'
    ||| c == '\u{3000}'
}

/// Whether `c` is white space (see [`white_space`]).
pub fn is_white_space(c: char) -> (r: bool)
    ensures
        r == white_space(c),
{
    c == ' ' || ('\u{9}' <= c && c <= '\u{d}') || c == '\u{85}' || c == '\u{a0}' || c
        == '\u{1680}' || ('\u{2000}' <= c && c <= '\u{200a}') || c == '\u{2028}' || c
        == '\u{2029}' || c == '\u{202f}' || c == '\u{205f}' || c == '\u{3000}'
}

/// How many characters of white space open `s`.
pub open spec fn leading_space(s: Seq<char>) -> nat
    decreases s.len(),
{
    if s.len() > 0 && white_space(s[0]) {
        1 + leading_space(s.drop_first())
    } else {
        0
    }
}

/// How many characters of white space close `s`.
pub open spec fn trailing_space(s: Seq<char>) -> nat
    decreases s.len(),
{
    if s.len() > 0 && white_space(s.last()) {
        1 + trailing_space(s.drop_last())
    } else {
        0
    }
}

/// `s` without the white space at both ends, as `str::trim` gives it.
pub open spec fn trimmed(s: Seq<char>) -> Seq<char> {
    let t = s.subrange(leading_space(s) as int, s.len() as int);
    t.subrange(0, t.len() - trailing_space(t))
}

proof fn lemma_leading_space_bound(s: Seq<char>)
    ensures
        leading_space(s) <= s.len(),
    decreases s.len(),
{
    if s.len() > 0 && white_space(s[0]) {
        lemma_leading_space_bound(s.drop_first());
    }
}

proof fn lemma_trailing_space_bound(s: Seq<char>)
    ensures
        trailing_space(s) <= s.len(),
    decreases s.len(),
{
    if s.len() > 0 && white_space(s.last()) {
        lemma_trailing_space_bound(s.drop_last());
    }
}

/// The characters of `s` without white space at either end (`str::trim`).
pub fn trim_chars(s: &[char]) -> (r: Vec<char>)
    ensures
        r@ == trimmed(s@),
{
    let n = s.len();
    let mut a: usize = 0;
    assert(s@.subrange(0, n as int) =~= s@);
    while a < n && is_white_space(s[a])
        invariant
            a <= n,
            n == s@.len(),
            leading_space(s@) == a + leading_space(s@.subrange(a as int, n as int)),
        decreases n - a,
    {
        assert(s@.subrange(a as int, n as int).drop_first() =~= s@.subrange(a + 1, n as int));
        a = a + 1;
    }
    let ghost t = s@.subrange(a as int, n as int);
    let mut b: usize = n;
    while b > a && is_white_space(s[b - 1])
        invariant
            a <= b <= n,
            n == s@.len(),
            t == s@.subrange(a as int, n as int),
            trailing_space(t) == (n - b) + trailing_space(s@.subrange(a as int, b as int)),
        decreases b - a,
    {
        assert(s@.subrange(a as int, b as int).drop_last() =~= s@.subrange(a as int, b - 1));
        b = b - 1;
    }
    proof {
        assert(s@.subrange(a as int, n as int) =~= t);
        lemma_leading_space_bound(s@);
        assert(trimmed(s@) =~= s@.subrange(a as int, b as int));
    }
    let mut out: Vec<char> = Vec::new();
    let mut i = a;
    while i < b
        invariant
            a <= i <= b,
            b <= s.len(),
            out@ == s@.subrange(a as int, i as int),
        decreases b - i,
    {
        out.push(s[i]);
        assert(s@.subrange(a as int, i as int).push(s@[i as int]) =~= s@.subrange(a as int, i + 1));
        i = i + 1;
    }
    out
}

} // verus!
