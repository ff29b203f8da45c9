//! Character-level helpers on strings, stated over `Seq<char>`.
use vstd::prelude::*;
use vstd::string::*;

verus! {

/// The views of a sequence of strings.
pub open spec fn strs(v: Seq<String>) -> Seq<Seq<char>> {
    v.map_values(|s: String| s@)
}

pub proof fn lemma_strs_push(v: Seq<String>, x: String)
    ensures
        strs(v.push(x)) == strs(v).push(x@),
{
    assert(strs(v.push(x)) =~= strs(v).push(x@));
}

pub open spec fn is_ascii_digit(c: char) -> bool {
    '0' <= c && c <= '9'
}

/// A key made of decimal digits only, such as the implicit keys of
/// positional template parameters.
pub open spec fn is_numeric_key(s: Seq<char>) -> bool {
    s.len() > 0 && forall|i: int| 0 <= i < s.len() ==> is_ascii_digit(#[trigger] s[i])
}

pub open spec fn digit_char(d: nat) -> char {
    if d == 0 { '0' } else if d == 1 { '1' } else if d == 2 { '2' } else if d == 3 { '3' }
    else if d == 4 { '4' } else if d == 5 { '5' } else if d == 6 { '6' } else if d == 7 { '7' }
    else if d == 8 { '8' } else { '9' }
}

/// The decimal text of `n`, without leading zeros.
pub open spec fn decimal(n: nat) -> Seq<char>
    decreases n,
{
    if n < 10 {
        seq![digit_char(n)]
    } else {
        decimal(n / 10).push(digit_char(n % 10))
    }
}

pub open spec fn has_prefix(s: Seq<char>, p: Seq<char>) -> bool {
    p.len() <= s.len() && s.take(p.len() as int) == p
}

pub open spec fn has_suffix(s: Seq<char>, p: Seq<char>) -> bool {
    p.len() <= s.len() && s.skip(s.len() - p.len()) == p
}

/// `s` without `p` in front, or `s` itself where it does not start with `p`.
pub open spec fn without_prefix(s: Seq<char>, p: Seq<char>) -> Seq<char> {
    if has_prefix(s, p) { s.skip(p.len() as int) } else { s }
}

/// `s` without `p` at its end, or `s` itself where it does not end with `p`.
pub open spec fn without_suffix(s: Seq<char>, p: Seq<char>) -> Seq<char> {
    if has_suffix(s, p) { s.take(s.len() - p.len()) } else { s }
}

/// Equality of two strings, character by character.
pub fn same_text(a: &str, b: &str) -> (r: bool)
    ensures
        r == (a@ == b@),
{
    let n = a.unicode_len();
    if n != b.unicode_len() {
        return false;
    }
    let mut i: usize = 0;
    while i < n
        invariant
            n == a@.len(),
            n == b@.len(),
            i <= n,
            a@.take(i as int) == b@.take(i as int),
        decreases n - i,
    {
        if a.get_char(i) != b.get_char(i) {
            return false;
        }
        assert(a@.take(i + 1) == a@.take(i as int).push(a@[i as int]));
        assert(b@.take(i + 1) == b@.take(i as int).push(b@[i as int]));
        i = i + 1;
    }
    assert(a@.take(n as int) == a@);
    assert(b@.take(n as int) == b@);
    true
}

/// Whether `s` starts with `p`.
pub fn starts_with(s: &str, p: &str) -> (r: bool)
    ensures
        r == has_prefix(s@, p@),
{
    let n = s.unicode_len();
    let m = p.unicode_len();
    if m > n {
        return false;
    }
    let head = s.substring_char(0, m);
    same_text(head, p)
}

/// Whether `s` ends with `p`.
pub fn ends_with(s: &str, p: &str) -> (r: bool)
    ensures
        r == has_suffix(s@, p@),
{
    let n = s.unicode_len();
    let m = p.unicode_len();
    if m > n {
        return false;
    }
    let tail = s.substring_char(n - m, n);
    assert(s@.subrange((n - m) as int, n as int) == s@.skip(n - m));
    same_text(tail, p)
}

/// `s` with one leading `p` removed, if it starts with one.
pub fn strip_prefix(s: &str, p: &str) -> (r: String)
    ensures
        r@ == without_prefix(s@, p@),
{
    let n = s.unicode_len();
    if starts_with(s, p) {
        let m = p.unicode_len();
        let rest = s.substring_char(m, n);
        assert(s@.subrange(m as int, n as int) == s@.skip(m as int));
        rest.to_string()
    } else {
        s.to_string()
    }
}

/// `s` with one trailing `p` removed, if it ends with one.
pub fn strip_suffix(s: &str, p: &str) -> (r: String)
    ensures
        r@ == without_suffix(s@, p@),
{
    let n = s.unicode_len();
    if ends_with(s, p) {
        let m = p.unicode_len();
        let rest = s.substring_char(0, n - m);
        assert(s@.subrange(0, (n - m) as int) == s@.take(n - m));
        rest.to_string()
    } else {
        s.to_string()
    }
}

/// Whether `s` is a non-empty run of decimal digits.
pub fn is_numeric(s: &str) -> (r: bool)
    ensures
        r == is_numeric_key(s@),
{
    let n = s.unicode_len();
    if n == 0 {
        return false;
    }
    let mut i: usize = 0;
    while i < n
        invariant
            n == s@.len(),
            i <= n,
            forall|j: int| 0 <= j < i ==> is_ascii_digit(#[trigger] s@[j]),
        decreases n - i,
    {
        let c = s.get_char(i);
        if !('0' <= c && c <= '9') {
            return false;
        }
        i = i + 1;
    }
    true
}

fn digit_text(d: usize) -> (r: String)
    requires
        d < 10,
    ensures
        r@ == seq![digit_char(d as nat)],
{
    let digits = "0123456789";
    proof {
        reveal_strlit("0123456789");
    }
    let one = digits.substring_char(d, d + 1);
    assert(one@ =~= seq![digit_char(d as nat)]);
    one.to_string()
}

/// The decimal text of `n`.
pub fn decimal_text(n: usize) -> (r: String)
    ensures
        r@ == decimal(n as nat),
    decreases n,
{
    if n < 10 {
        digit_text(n)
    } else {
        let mut s = decimal_text(n / 10);
        let last = digit_text(n % 10);
        s.append(last.as_str());
        s
    }
}

/// `a` followed by `b`.
pub fn joined(a: &str, b: &str) -> (r: String)
    ensures
        r@ == a@ + b@,
{
    let mut s = a.to_string();
    s.append(b);
    s
}

} // verus!
