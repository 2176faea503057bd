//! Character-level reading of sampler lines: character classes, maximal
//! runs, literals and whitespace-separated tokens.

use vstd::prelude::*;

verus! {

broadcast use vstd::string::axiom_spec_iter;

/// White space as `char::is_whitespace` has it (the Unicode `White_Space` set).
pub open spec fn is_space(c: char) -> bool {
    ||| c == ' '
    ||| ('\t' <= c && c <= '\r')
    ||| c == '\u{85}'
    ||| c == '\u{a0}'
    ||| c == '\u{1680}'
    ||| ('\u{2000}' <= c && c <= '\u{200a}')
    ||| c == '\u{2028}'
    ||| c == '\u{2029}'
    ||| c == '\u{202f}'
    ||| c == '\u{205f}'
    ||| c == '\u{3000}'
}

pub open spec fn is_digit(c: char) -> bool {
    '0' <= c && c <= '9'
}

/// A word character: an ASCII letter, an ASCII digit, `_`, or any
/// character beyond ASCII that is not white space (letters, digits and
/// marks of other scripts).
pub open spec fn is_word(c: char) -> bool {
    ||| is_digit(c)
    ||| ('a' <= c && c <= 'z')
    ||| ('A' <= c && c <= 'Z')
    ||| c == '_'
    ||| (c > '\u{7f}' && !is_space(c))
}

/// The classes of characters whose maximal runs the line grammar reads.
#[derive(Clone, Copy, PartialEq, Eq, Structural)]
pub enum CharClass {
    Space,
    NonSpace,
    Digit,
    Word,
    DigitOrPoint,
    /// Anything but a line feed.
    InLine,
}

pub open spec fn in_class(c: char, k: CharClass) -> bool {
    match k {
        CharClass::Space => is_space(c),
        CharClass::NonSpace => !is_space(c),
        CharClass::Digit => is_digit(c),
        CharClass::Word => is_word(c),
        CharClass::DigitOrPoint => is_digit(c) || c == '.',
        CharClass::InLine => c != '\n',
    }
}

/// Where the maximal run of class `k` that starts at `i` ends.
pub open spec fn run_end(s: Seq<char>, i: int, k: CharClass) -> int
    decreases s.len() - i,
{
    if 0 <= i < s.len() && in_class(s[i], k) {
        run_end(s, i + 1, k)
    } else {
        i
    }
}

/// `lit` stands in `s` at position `i`.
pub open spec fn lit_at(s: Seq<char>, i: int, lit: Seq<char>) -> bool {
    0 <= i && i + lit.len() <= s.len() && s.subrange(i, i + lit.len()) == lit
}

/// `lit` stands somewhere in `s`.
pub open spec fn contains(s: Seq<char>, lit: Seq<char>) -> bool {
    exists|i: int| lit_at(s, i, lit)
}

/// The bounds of the `k`-th whitespace-separated token of `s` that starts at
/// or after `i`; `inside` says that `i` is within a token already counted.
pub open spec fn token_from(s: Seq<char>, i: int, k: nat, inside: bool) -> Option<(int, int)>
    decreases s.len() - i,
{
    if i < 0 || i >= s.len() {
        None
    } else if is_space(s[i]) {
        token_from(s, i + 1, k, false)
    } else if inside {
        token_from(s, i + 1, k, true)
    } else if k == 0 {
        Some((i, run_end(s, i, CharClass::NonSpace)))
    } else {
        token_from(s, i + 1, (k - 1) as nat, true)
    }
}

/// The bounds of the `k`-th (from 0) whitespace-separated token of `s`, as
/// `str::split_whitespace` yields them.
pub open spec fn nth_token(s: Seq<char>, k: nat) -> Option<(int, int)> {
    token_from(s, 0, k, false)
}

pub proof fn lemma_run_end(s: Seq<char>, i: int, k: CharClass)
    requires
        0 <= i <= s.len(),
    ensures
        i <= run_end(s, i, k) <= s.len(),
        forall|j: int| i <= j < run_end(s, i, k) ==> in_class(#[trigger] s[j], k),
        run_end(s, i, k) < s.len() ==> !in_class(s[run_end(s, i, k)], k),
    decreases s.len() - i,
{
    if i < s.len() && in_class(s[i], k) {
        lemma_run_end(s, i + 1, k);
    }
}

/// A run that is all of class `k` and stops at the end or at a character
/// outside `k` is the maximal run.
pub proof fn lemma_run_end_exact(s: Seq<char>, i: int, j: int, k: CharClass)
    requires
        0 <= i <= j <= s.len(),
        forall|q: int| i <= q < j ==> in_class(#[trigger] s[q], k),
        j == s.len() || !in_class(s[j], k),
    ensures
        run_end(s, i, k) == j,
    decreases j - i,
{
    if i < j {
        lemma_run_end_exact(s, i + 1, j, k);
    }
}

/// `lit` stands nowhere in `s` when it holds a space followed by `P` and no
/// space in `s` is followed by `P`.
pub proof fn lemma_space_p_absent(s: Seq<char>, lit: Seq<char>, k: int)
    requires
        0 <= k && k + 1 < lit.len(),
        lit[k] == ' ' && lit[k + 1] == 'P',
        forall|q: int| 0 <= q < s.len() - 1 && #[trigger] s[q] == ' ' ==> s[q + 1] != 'P',
    ensures
        !contains(s, lit),
{
    if contains(s, lit) {
        let i = choose|i: int| lit_at(s, i, lit);
        assert(s.subrange(i, i + lit.len())[k] == s[i + k]);
        assert(s.subrange(i, i + lit.len())[k + 1] == s[i + k + 1]);
    }
}

/// A token found by `token_from` lies within `s`, is not empty, and ends
/// where its run of non-space characters ends.
pub proof fn lemma_token_from(s: Seq<char>, i: int, k: nat, inside: bool)
    requires
        0 <= i,
    ensures
        token_from(s, i, k, inside) matches Some((a, b)) ==> i <= a < b <= s.len() && b
            == run_end(s, a, CharClass::NonSpace),
    decreases s.len() - i,
{
    if 0 <= i < s.len() {
        if is_space(s[i]) {
            lemma_token_from(s, i + 1, k, false);
        } else if inside {
            lemma_token_from(s, i + 1, k, true);
        } else if k == 0 {
            lemma_run_end(s, i, CharClass::NonSpace);
        } else {
            lemma_token_from(s, i + 1, (k - 1) as nat, true);
        }
    }
}

/// The characters of `s`, in order.
pub fn chars_of(s: &str) -> (r: Vec<char>)
    ensures
        r@ == s@,
{
    let mut r: Vec<char> = Vec::new();
    for c in it: s.chars()
        invariant
            r@ == it.seq().take(it.index() as int),
    {
        r.push(c);
    }
    r
}

pub fn is_in_class(c: char, k: CharClass) -> (r: bool)
    ensures
        r == in_class(c, k),
{
    let space = c == ' ' || ('\t' <= c && c <= '\r') || c == '\u{85}' || c == '\u{a0}' || c
        == '\u{1680}' || ('\u{2000}' <= c && c <= '\u{200a}') || c == '\u{2028}' || c
        == '\u{2029}' || c == '\u{202f}' || c == '\u{205f}' || c == '\u{3000}';
    let digit = '0' <= c && c <= '9';
    match k {
        CharClass::Space => space,
        CharClass::NonSpace => !space,
        CharClass::Digit => digit,
        CharClass::Word => digit || ('a' <= c && c <= 'z') || ('A' <= c && c <= 'Z') || c == '_'
            || (c > '\u{7f}' && !space),
        CharClass::DigitOrPoint => digit || c == '.',
        CharClass::InLine => c != '\n',
    }
}

/// Where the maximal run of class `k` that starts at `i` ends.
pub fn skip_run(s: &Vec<char>, i: usize, k: CharClass) -> (r: usize)
    requires
        i <= s.len(),
    ensures
        r == run_end(s@, i as int, k),
        i <= r <= s.len(),
{
    proof {
        lemma_run_end(s@, i as int, k);
    }
    let mut j = i;
    while j < s.len() && is_in_class(s[j], k)
        invariant
            i <= j <= s.len(),
            run_end(s@, j as int, k) == run_end(s@, i as int, k),
        decreases s.len() - j,
    {
        j = j + 1;
    }
    j
}

/// The characters of `s[a..b]`.
pub fn slice_chars(s: &Vec<char>, a: usize, b: usize) -> (r: Vec<char>)
    requires
        a <= b <= s.len(),
    ensures
        r@ == s@.subrange(a as int, b as int),
{
    let mut r: Vec<char> = Vec::new();
    let mut i = a;
    while i < b
        invariant
            a <= i <= b <= s.len(),
            r@ == s@.subrange(a as int, i as int),
        decreases b - i,
    {
        r.push(s[i]);
        assert(s@.subrange(a as int, i + 1) =~= s@.subrange(a as int, i as int).push(s@[i as int]));
        i = i + 1;
    }
    r
}

/// Whether `lit` stands in `s` at position `i`.
pub fn has_lit_at(s: &Vec<char>, i: usize, lit: &str) -> (r: bool)
    ensures
        r == lit_at(s@, i as int, lit@),
{
    let l = chars_of(lit);
    if i > s.len() || l.len() > s.len() - i {
        return false;
    }
    let mut j: usize = 0;
    while j < l.len()
        invariant
            j <= l.len(),
            i + l.len() <= s.len(),
            l@ == lit@,
            forall|q: int| 0 <= q < j ==> s@[i + q] == l@[q],
        decreases l.len() - j,
    {
        if s[i + j] != l[j] {
            assert(s@.subrange(i as int, i + l.len())[j as int] != lit@[j as int]);
            return false;
        }
        j = j + 1;
    }
    assert(s@.subrange(i as int, i + l.len()) =~= lit@);
    true
}

/// Whether `lit` stands anywhere in `s`.
pub fn has_lit(s: &Vec<char>, lit: &str) -> (r: bool)
    ensures
        r == contains(s@, lit@),
{
    let mut i: usize = 0;
    while i < s.len()
        invariant
            i <= s.len(),
            forall|q: int| 0 <= q < i ==> !lit_at(s@, q, lit@),
        decreases s.len() - i,
    {
        if has_lit_at(s, i, lit) {
            return true;
        }
        i = i + 1;
    }
    if has_lit_at(s, i, lit) {
        return true;
    }
    assert forall|q: int| !lit_at(s@, q, lit@) by {
        if 0 <= q && q > s.len() {
        }
    }
    false
}

/// The bounds of the `k`-th (from 0) whitespace-separated token of `s`.
pub fn find_token(s: &Vec<char>, k: usize) -> (r: Option<(usize, usize)>)
    ensures
        r matches Some((a, b)) ==> nth_token(s@, k as nat) == Some((a as int, b as int)),
        r is None ==> nth_token(s@, k as nat) is None,
{
    let mut i: usize = 0;
    let mut left: usize = k;
    let mut inside = false;
    while i < s.len()
        invariant
            i <= s.len(),
            token_from(s@, i as int, left as nat, inside) == nth_token(s@, k as nat),
        decreases s.len() - i,
    {
        let c = s[i];
        if is_in_class(c, CharClass::Space) {
            inside = false;
        } else if inside {
        } else if left == 0 {
            let b = skip_run(s, i, CharClass::NonSpace);
            return Some((i, b));
        } else {
            left = left - 1;
            inside = true;
        }
        i = i + 1;
    }
    None
}

} // verus!
