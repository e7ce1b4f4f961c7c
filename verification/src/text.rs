//! Character-level text utilities shared by the parsers: conversion between
//! `&str` and character vectors, Unicode whitespace trimming, and the decimal
//! number grammars accepted by the standard library's `FromStr` for integers
//! and floating-point values.

use vstd::prelude::*;

verus! {

broadcast use vstd::string::group_string_axioms;

/// The characters of `s`, in order.
pub fn chars_of(s: &str) -> (v: Vec<char>)
    ensures
        v@ == s@,
{
    let mut v: Vec<char> = Vec::new();
    for c in it: s.chars()
        invariant
            v@ == it.seq().take(it.index()),
    {
        v.push(c);
    }
    v
}

/// `String::push` (std): appends one character to the end of the string.
#[verifier::external_body]
pub fn string_push(s: &mut String, c: char)
    ensures
        final(s)@ == old(s)@.push(c),
{
    s.push(c);
}

/// The ASCII digit character of `d` (for `d < 10`).
pub open spec fn digit_char(d: nat) -> char {
    (d + 48) as char
}

/// The decimal rendering of `n`: its digits, most significant first, with no
/// leading zero (`"0"` for zero).
pub open spec fn decimal(n: nat) -> Seq<char>
    decreases n,
{
    if n < 10 {
        seq![digit_char(n)]
    } else {
        decimal(n / 10).push(digit_char(n % 10))
    }
}

/// Append the decimal rendering of `n` to `s`.
pub fn append_decimal(s: &mut String, n: u64)
    ensures
        final(s)@ == old(s)@ + decimal(n as nat),
    decreases n,
{
    let ghost start = s@;
    if n >= 10 {
        append_decimal(s, n / 10);
    }
    let d: u8 = (n % 10) as u8;
    let c: char = (d + 48) as char;
    string_push(s, c);
    proof {
        if n >= 10 {
            assert(s@ =~= start + decimal(n as nat / 10).push(digit_char(n as nat % 10)));
        } else {
            assert(s@ =~= start + seq![digit_char(n as nat)]);
        }
    }
}

/// The decimal rendering of `n` is a non-empty run of digits whose value is
/// `n`.
pub proof fn lemma_decimal(n: nat)
    ensures
        decimal(n).len() > 0,
        all_digits(decimal(n)),
        digits_value(decimal(n)) == n,
    decreases n,
{
    let k: nat = n % 10;
    assert(digit_char(k) as int == k + 48);
    if n >= 10 {
        lemma_decimal(n / 10);
        let d = decimal(n);
        assert(d.drop_last() =~= decimal(n / 10));
        assert(d.last() == digit_char(k));
        assert(digits_value(d) == digits_value(decimal(n / 10)) * 10 + k);
    } else {
        let d = decimal(n);
        assert(d.drop_last() =~= Seq::<char>::empty());
        assert(digits_value(d) == digits_value(Seq::<char>::empty()) * 10 + k);
        assert forall|i: int| 0 <= i < d.len() implies is_digit(#[trigger] d[i]) by {
            if i < d.len() - 1 {
                assert(d[i] == decimal(n / 10)[i]);
            }
        }
    }
}

/// A `String` holding exactly the characters `cs[lo..hi]`.
pub fn string_from_range(cs: &[char], lo: usize, hi: usize) -> (s: String)
    requires
        lo <= hi <= cs@.len(),
    ensures
        s@ == cs@.subrange(lo as int, hi as int),
{
    let mut s = String::new();
    let mut k = lo;
    while k < hi
        invariant
            lo <= k <= hi <= cs@.len(),
            s@ == cs@.subrange(lo as int, k as int),
        decreases hi - k,
    {
        string_push(&mut s, cs[k]);
        k = k + 1;
        assert(s@ =~= cs@.subrange(lo as int, k as int));
    }
    s
}

/// A vector holding exactly the characters `cs[lo..hi]`.
pub fn chars_from_range(cs: &[char], lo: usize, hi: usize) -> (v: Vec<char>)
    requires
        lo <= hi <= cs@.len(),
    ensures
        v@ == cs@.subrange(lo as int, hi as int),
{
    let mut v: Vec<char> = Vec::new();
    let mut k = lo;
    while k < hi
        invariant
            lo <= k <= hi <= cs@.len(),
            v@ == cs@.subrange(lo as int, k as int),
        decreases hi - k,
    {
        v.push(cs[k]);
        k = k + 1;
        assert(v@ =~= cs@.subrange(lo as int, k as int));
    }
    v
}

/// A `String` holding exactly the characters of `cs`.
pub fn string_from_chars(cs: &[char]) -> (s: String)
    ensures
        s@ == cs@,
{
    let s = string_from_range(cs, 0, cs.len());
    assert(cs@.subrange(0, cs@.len() as int) =~= cs@);
    s
}

/// Whether `cs[lo..hi]` spells exactly `word`.
pub fn range_eq(cs: &[char], lo: usize, hi: usize, word: &[char]) -> (b: bool)
    requires
        lo <= hi <= cs@.len(),
    ensures
        b == (cs@.subrange(lo as int, hi as int) == word@),
{
    if hi - lo != word.len() {
        return false;
    }
    let mut k: usize = 0;
    while k < word.len()
        invariant
            lo <= hi <= cs@.len(),
            hi - lo == word@.len(),
            k <= word@.len(),
            forall|j: int| 0 <= j < k ==> cs@[lo + j] == word@[j],
        decreases word@.len() - k,
    {
        if cs[lo + k] != word[k] {
            assert(cs@.subrange(lo as int, hi as int)[k as int] != word@[k as int]);
            return false;
        }
        k = k + 1;
    }
    assert(cs@.subrange(lo as int, hi as int) =~= word@);
    true
}

/// Whether two strings hold the same characters.
pub fn str_eq(a: &str, b: &str) -> (r: bool)
    ensures
        r == (a@ == b@),
{
    let ca = chars_of(a);
    let cb = chars_of(b);
    let r = range_eq(ca.as_slice(), 0, ca.len(), cb.as_slice());
    assert(ca@.subrange(0, ca@.len() as int) =~= ca@);
    r
}

/// `char::is_whitespace`: the Unicode `White_Space` property.
pub open spec fn is_whitespace(c: char) -> bool {
    ||| '\u{9}' <= c <= '\u{d}'
    ||| c == ' '
    ||| c == '\u{85}'
    ||| c == '\u{a0}'
    ||| c == '\u{1680}'
    ||| '\u{2000}' <= c <= '\u{200a}'
    ||| c == '\u{2028}'
    ||| c == '\u{2029}'
    ||| c == '\u{202f}'
    ||| c == '\u{205f}'
    ||| c == '\u{3000}'
}

/// Executable `char::is_whitespace`.
pub fn char_is_whitespace(c: char) -> (b: bool)
    ensures
        b == is_whitespace(c),
{
    ('\u{9}' <= c && c <= '\u{d}') || c == ' ' || c == '\u{85}' || c == '\u{a0}' || c
        == '\u{1680}' || ('\u{2000}' <= c && c <= '\u{200a}') || c == '\u{2028}' || c
        == '\u{2029}' || c == '\u{202f}' || c == '\u{205f}' || c == '\u{3000}'
}

/// `str::trim_end`: the sequence without its trailing whitespace.
pub open spec fn trim_end(s: Seq<char>) -> Seq<char>
    decreases s.len(),
{
    if s.len() > 0 && is_whitespace(s.last()) {
        trim_end(s.drop_last())
    } else {
        s
    }
}

/// `str::trim_start`: the sequence without its leading whitespace.
pub open spec fn trim_start(s: Seq<char>) -> Seq<char>
    decreases s.len(),
{
    if s.len() > 0 && is_whitespace(s[0]) {
        trim_start(s.drop_first())
    } else {
        s
    }
}

/// `str::trim`: the sequence without leading and trailing whitespace.
pub open spec fn trim(s: Seq<char>) -> Seq<char> {
    trim_start(trim_end(s))
}

/// The end of `cs[lo..hi]` once trailing whitespace is dropped.
pub fn trim_end_range(cs: &[char], lo: usize, hi: usize) -> (k: usize)
    requires
        lo <= hi <= cs@.len(),
    ensures
        lo <= k <= hi,
        cs@.subrange(lo as int, k as int) == trim_end(cs@.subrange(lo as int, hi as int)),
{
    let mut k = hi;
    while k > lo && char_is_whitespace(cs[k - 1])
        invariant
            lo <= k <= hi <= cs@.len(),
            trim_end(cs@.subrange(lo as int, hi as int)) == trim_end(
                cs@.subrange(lo as int, k as int),
            ),
        decreases k,
    {
        assert(cs@.subrange(lo as int, k as int).drop_last() =~= cs@.subrange(
            lo as int,
            k - 1,
        ));
        k = k - 1;
    }
    k
}

/// The start of `cs[lo..hi]` once leading whitespace is dropped.
pub fn trim_start_range(cs: &[char], lo: usize, hi: usize) -> (k: usize)
    requires
        lo <= hi <= cs@.len(),
    ensures
        lo <= k <= hi,
        cs@.subrange(k as int, hi as int) == trim_start(cs@.subrange(lo as int, hi as int)),
{
    let mut k = lo;
    while k < hi && char_is_whitespace(cs[k])
        invariant
            lo <= k <= hi <= cs@.len(),
            trim_start(cs@.subrange(lo as int, hi as int)) == trim_start(
                cs@.subrange(k as int, hi as int),
            ),
        decreases hi - k,
    {
        assert(cs@.subrange(k as int, hi as int).drop_first() =~= cs@.subrange(
            k + 1,
            hi as int,
        ));
        k = k + 1;
    }
    k
}

/// The bounds of `cs[lo..hi]` once surrounding whitespace is dropped.
pub fn trim_range(cs: &[char], lo: usize, hi: usize) -> (r: (usize, usize))
    requires
        lo <= hi <= cs@.len(),
    ensures
        lo <= r.0 <= r.1 <= hi,
        cs@.subrange(r.0 as int, r.1 as int) == trim(cs@.subrange(lo as int, hi as int)),
{
    let e = trim_end_range(cs, lo, hi);
    let b = trim_start_range(cs, lo, e);
    (b, e)
}

/// An ASCII decimal digit.
pub open spec fn is_digit(c: char) -> bool {
    '0' <= c <= '9'
}

/// Every character is an ASCII decimal digit.
pub open spec fn all_digits(s: Seq<char>) -> bool {
    forall|i: int| 0 <= i < s.len() ==> is_digit(#[trigger] s[i])
}

/// The value of a string of decimal digits.
pub open spec fn digits_value(s: Seq<char>) -> nat
    decreases s.len(),
{
    if s.len() == 0 {
        0
    } else {
        digits_value(s.drop_last()) * 10 + ((s.last() as int - '0' as int) as nat)
    }
}

/// `FromStr` for a primitive integer type with range `min..=max`: an optional
/// `+` (or `-` for a signed type) followed by one or more decimal digits, whose
/// value lies in range.
pub open spec fn parse_int(s: Seq<char>, signed: bool, min: int, max: int) -> Option<int> {
    if s.len() == 0 {
        None
    } else {
        let neg = signed && s[0] == '-';
        let d = if s[0] == '+' || neg {
            s.drop_first()
        } else {
            s
        };
        if d.len() == 0 || !all_digits(d) {
            None
        } else {
            let v = if neg {
                -(digits_value(d) as int)
            } else {
                digits_value(d) as int
            };
            if min <= v <= max {
                Some(v)
            } else {
                None
            }
        }
    }
}

proof fn lemma_digits_value_prefix(s: Seq<char>, k: int)
    requires
        0 <= k <= s.len(),
        all_digits(s),
    ensures
        digits_value(s.subrange(0, k)) <= digits_value(s),
    decreases s.len(),
{
    if k < s.len() {
        assert(s.drop_last() =~= s.subrange(0, s.len() - 1));
        assert(all_digits(s.drop_last()));
        lemma_digits_value_prefix(s.drop_last(), k);
        assert(s.drop_last().subrange(0, k) =~= s.subrange(0, k));
    } else {
        assert(s.subrange(0, k) =~= s);
    }
}

/// Parse `cs[lo..hi]` as an integer in `min..=max` with the grammar of
/// `FromStr` for primitive integers (see [`parse_int`]).
pub fn parse_int_range(cs: &[char], lo: usize, hi: usize, signed: bool, min: i128, max: i128) -> (r:
    Option<i128>)
    requires
        lo <= hi <= cs@.len(),
        -0x1_0000_0000_0000_0000 <= min <= 0 <= max <= 0x1_0000_0000_0000_0000,
    ensures
        r matches Some(v) ==> parse_int(cs@.subrange(lo as int, hi as int), signed, min as int, max as int) == Some(v as int),
        r is None ==> parse_int(cs@.subrange(lo as int, hi as int), signed, min as int, max as int) is None,
{
    let ghost s = cs@.subrange(lo as int, hi as int);
    if lo == hi {
        return None;
    }
    let first = cs[lo];
    let neg = signed && first == '-';
    let start = if first == '+' || neg { lo + 1 } else { lo };
    let ghost d = cs@.subrange(start as int, hi as int);
    assert(d =~= (if first == '+' || neg { s.drop_first() } else { s }));
    if start == hi {
        return None;
    }
    let limit: u128 = if neg { (-min) as u128 } else { max as u128 };
    let mut acc: u128 = 0;
    let mut k = start;
    while k < hi
        invariant
            lo <= start <= k <= hi <= cs@.len(),
            start < hi,
            s == cs@.subrange(lo as int, hi as int),
            s.len() > 0,
            s[0] == first,
            neg == (signed && first == '-'),
            d == cs@.subrange(start as int, hi as int),
            d == (if first == '+' || neg { s.drop_first() } else { s }),
            neg ==> limit == -min,
            !neg ==> limit == max,
            limit <= 0x1_0000_0000_0000_0000,
            acc <= limit,
            all_digits(cs@.subrange(start as int, k as int)),
            acc == digits_value(cs@.subrange(start as int, k as int)),
        decreases hi - k,
    {
        let c = cs[k];
        if !('0' <= c && c <= '9') {
            assert(d[k - start] == c);
            return None;
        }
        let digit = (c as u32 - '0' as u32) as u128;
        let ghost prev = cs@.subrange(start as int, k as int);
        assert(cs@.subrange(start as int, k + 1).drop_last() =~= prev);
        acc = acc * 10 + digit;
        k = k + 1;
        assert(all_digits(cs@.subrange(start as int, k as int)));
        if acc > limit {
            proof {
                // Any longer digit string is at least as large, so the value is out of range.
                if all_digits(d) {
                    lemma_digits_value_prefix(d, k - start);
                    assert(d.subrange(0, k - start) =~= cs@.subrange(start as int, k as int));
                }
            }
            return None;
        }
    }
    assert(cs@.subrange(start as int, k as int) =~= d);
    if neg {
        Some(-(acc as i128))
    } else {
        Some(acc as i128)
    }
}

/// Executable check that `cs[lo..hi]` is all decimal digits.
pub fn all_digits_range(cs: &[char], lo: usize, hi: usize) -> (b: bool)
    requires
        lo <= hi <= cs@.len(),
    ensures
        b == all_digits(cs@.subrange(lo as int, hi as int)),
{
    let mut k = lo;
    while k < hi
        invariant
            lo <= k <= hi <= cs@.len(),
            forall|j: int| lo <= j < k ==> is_digit(cs@[j]),
        decreases hi - k,
    {
        if !('0' <= cs[k] && cs[k] <= '9') {
            assert(!is_digit(cs@.subrange(lo as int, hi as int)[k - lo]));
            return false;
        }
        k = k + 1;
    }
    assert forall|i: int| 0 <= i < hi - lo implies is_digit(
        #[trigger] cs@.subrange(lo as int, hi as int)[i],
    ) by {
        assert(cs@.subrange(lo as int, hi as int)[i] == cs@[lo + i]);
    }
    true
}

/// Position of the first exponent marker (`e` or `E`), or the length.
pub open spec fn exp_index(s: Seq<char>) -> int
    decreases s.len(),
{
    if s.len() == 0 {
        0
    } else if s[0] == 'e' || s[0] == 'E' {
        0
    } else {
        1 + exp_index(s.drop_first())
    }
}

/// Position of the first `.`, or the length.
pub open spec fn dot_index(s: Seq<char>) -> int
    decreases s.len(),
{
    if s.len() == 0 {
        0
    } else if s[0] == '.' {
        0
    } else {
        1 + dot_index(s.drop_first())
    }
}

proof fn lemma_exp_index(s: Seq<char>, k: int)
    requires
        0 <= k <= s.len(),
        forall|j: int| 0 <= j < k ==> !(s[j] == 'e' || s[j] == 'E'),
        k == s.len() || s[k] == 'e' || s[k] == 'E',
    ensures
        exp_index(s) == k,
    decreases k,
{
    if k > 0 {
        lemma_exp_index(s.drop_first(), k - 1);
    }
}

proof fn lemma_dot_index(s: Seq<char>, k: int)
    requires
        0 <= k <= s.len(),
        forall|j: int| 0 <= j < k ==> s[j] != '.',
        k == s.len() || s[k] == '.',
    ensures
        dot_index(s) == k,
    decreases k,
{
    if k > 0 {
        lemma_dot_index(s.drop_first(), k - 1);
    }
}

/// The sequence without one leading `+` or `-`.
pub open spec fn strip_sign(s: Seq<char>) -> Seq<char> {
    if s.len() > 0 && (s[0] == '+' || s[0] == '-') {
        s.drop_first()
    } else {
        s
    }
}

/// ASCII case-insensitive equality with a lowercase ASCII word.
pub open spec fn word_ieq(s: Seq<char>, w: Seq<char>) -> bool {
    &&& s.len() == w.len()
    &&& forall|i: int|
        0 <= i < s.len() ==> (#[trigger] s[i] == w[i] || s[i] as u32 + 32 == w[i] as u32)
}

/// The mantissa of a decimal literal: digits, optionally with one `.`, and at
/// least one digit overall.
pub open spec fn is_mantissa(m: Seq<char>) -> bool {
    let p = dot_index(m);
    &&& all_digits(m.subrange(0, p))
    &&& if p == m.len() {
        m.len() > 0
    } else {
        all_digits(m.subrange(p + 1, m.len() as int)) && m.len() > 1
    }
}

/// The exponent of a decimal literal: an optional sign and one or more digits.
pub open spec fn is_exponent(x: Seq<char>) -> bool {
    let d = strip_sign(x);
    d.len() > 0 && all_digits(d)
}

/// A decimal literal: a mantissa optionally followed by `e`/`E` and an exponent.
pub open spec fn is_decimal_number(b: Seq<char>) -> bool {
    let e = exp_index(b);
    &&& is_mantissa(b.subrange(0, e))
    &&& (e == b.len() || is_exponent(b.subrange(e + 1, b.len() as int)))
}

/// The grammar that `FromStr` for `f32`/`f64` accepts: an optional sign, then
/// `inf`, `infinity` or `nan` (ASCII case-insensitive) or a decimal literal.
pub open spec fn is_float_literal(s: Seq<char>) -> bool {
    let b = strip_sign(s);
    ||| word_ieq(b, seq!['i', 'n', 'f'])
    ||| word_ieq(b, seq!['i', 'n', 'f', 'i', 'n', 'i', 't', 'y'])
    ||| word_ieq(b, seq!['n', 'a', 'n'])
    ||| is_decimal_number(b)
}

fn exp_index_range(cs: &[char], lo: usize, hi: usize) -> (r: usize)
    requires
        lo <= hi <= cs@.len(),
    ensures
        lo <= r <= hi,
        r - lo == exp_index(cs@.subrange(lo as int, hi as int)),
{
    let mut k = lo;
    while k < hi && !(cs[k] == 'e' || cs[k] == 'E')
        invariant
            lo <= k <= hi <= cs@.len(),
            forall|j: int| lo <= j < k ==> !(cs@[j] == 'e' || cs@[j] == 'E'),
        decreases hi - k,
    {
        k = k + 1;
    }
    proof {
        lemma_exp_index(cs@.subrange(lo as int, hi as int), k - lo);
    }
    k
}

fn dot_index_range(cs: &[char], lo: usize, hi: usize) -> (r: usize)
    requires
        lo <= hi <= cs@.len(),
    ensures
        lo <= r <= hi,
        r - lo == dot_index(cs@.subrange(lo as int, hi as int)),
{
    let mut k = lo;
    while k < hi && cs[k] != '.'
        invariant
            lo <= k <= hi <= cs@.len(),
            forall|j: int| lo <= j < k ==> cs@[j] != '.',
        decreases hi - k,
    {
        k = k + 1;
    }
    proof {
        lemma_dot_index(cs@.subrange(lo as int, hi as int), k - lo);
    }
    k
}

fn word_ieq_range(cs: &[char], lo: usize, hi: usize, w: &[char]) -> (b: bool)
    requires
        lo <= hi <= cs@.len(),
        forall|i: int| 0 <= i < w@.len() ==> 'a' <= #[trigger] w@[i] <= 'z',
    ensures
        b == word_ieq(cs@.subrange(lo as int, hi as int), w@),
{
    let ghost s = cs@.subrange(lo as int, hi as int);
    if hi - lo != w.len() {
        return false;
    }
    let mut k: usize = 0;
    while k < w.len()
        invariant
            lo <= hi <= cs@.len(),
            s == cs@.subrange(lo as int, hi as int),
            hi - lo == w@.len(),
            k <= w@.len(),
            forall|i: int| 0 <= i < w@.len() ==> 'a' <= #[trigger] w@[i] <= 'z',
            forall|j: int| 0 <= j < k ==> (#[trigger] s[j] == w@[j] || s[j] as u32 + 32 == w@[j] as u32),
        decreases w@.len() - k,
    {
        let c = cs[lo + k];
        let l = w[k];
        assert(s[k as int] == c);
        if !(c == l || (c as u32) == (l as u32) - 32) {
            return false;
        }
        k = k + 1;
    }
    true
}

fn is_mantissa_range(cs: &[char], lo: usize, hi: usize) -> (b: bool)
    requires
        lo <= hi <= cs@.len(),
    ensures
        b == is_mantissa(cs@.subrange(lo as int, hi as int)),
{
    let ghost m = cs@.subrange(lo as int, hi as int);
    let p = dot_index_range(cs, lo, hi);
    assert(m.subrange(0, p - lo) =~= cs@.subrange(lo as int, p as int));
    let head = all_digits_range(cs, lo, p);
    if p == hi {
        head && hi > lo
    } else {
        assert(m.subrange(p - lo + 1, m.len() as int) =~= cs@.subrange(p + 1, hi as int));
        let tail = all_digits_range(cs, p + 1, hi);
        head && tail && hi - lo > 1
    }
}

fn is_exponent_range(cs: &[char], lo: usize, hi: usize) -> (b: bool)
    requires
        lo <= hi <= cs@.len(),
    ensures
        b == is_exponent(cs@.subrange(lo as int, hi as int)),
{
    let ghost x = cs@.subrange(lo as int, hi as int);
    let start = if lo < hi && (cs[lo] == '+' || cs[lo] == '-') { lo + 1 } else { lo };
    assert(strip_sign(x) =~= cs@.subrange(start as int, hi as int));
    start < hi && all_digits_range(cs, start, hi)
}

/// Whether `cs[lo..hi]` is accepted by `FromStr` for `f32`/`f64`
/// (see [`is_float_literal`]).
pub fn is_float_literal_range(cs: &[char], lo: usize, hi: usize) -> (b: bool)
    requires
        lo <= hi <= cs@.len(),
    ensures
        b == is_float_literal(cs@.subrange(lo as int, hi as int)),
{
    let ghost s = cs@.subrange(lo as int, hi as int);
    let start = if lo < hi && (cs[lo] == '+' || cs[lo] == '-') { lo + 1 } else { lo };
    let ghost b = cs@.subrange(start as int, hi as int);
    assert(strip_sign(s) =~= b);
    let inf = ['i', 'n', 'f'];
    let infinity = ['i', 'n', 'f', 'i', 'n', 'i', 't', 'y'];
    let nan = ['n', 'a', 'n'];
    assert(inf@ =~= seq!['i', 'n', 'f']);
    assert(infinity@ =~= seq!['i', 'n', 'f', 'i', 'n', 'i', 't', 'y']);
    assert(nan@ =~= seq!['n', 'a', 'n']);
    if word_ieq_range(cs, start, hi, &inf) || word_ieq_range(cs, start, hi, &infinity)
        || word_ieq_range(cs, start, hi, &nan) {
        return true;
    }
    let e = exp_index_range(cs, start, hi);
    assert(b.subrange(0, e - start) =~= cs@.subrange(start as int, e as int));
    if !is_mantissa_range(cs, start, e) {
        return false;
    }
    if e == hi {
        true
    } else {
        assert(b.subrange(e - start + 1, b.len() as int) =~= cs@.subrange(e + 1, hi as int));
        is_exponent_range(cs, e + 1, hi)
    }
}

/// The number of leading `0` characters.
pub open spec fn leading_zeros(s: Seq<char>) -> int
    decreases s.len(),
{
    if s.len() > 0 && s[0] == '0' {
        1 + leading_zeros(s.drop_first())
    } else {
        0
    }
}

proof fn lemma_leading_zeros(s: Seq<char>, k: int)
    requires
        0 <= k <= s.len(),
        forall|j: int| 0 <= j < k ==> s[j] == '0',
        k == s.len() || s[k] != '0',
    ensures
        leading_zeros(s) == k,
    decreases k,
{
    if k > 0 {
        lemma_leading_zeros(s.drop_first(), k - 1);
    }
}

/// The leading zeros of `a + b`: those of `a`, and when `a` is all zeros,
/// those of `b` after it.
proof fn lemma_leading_zeros_concat(a: Seq<char>, b: Seq<char>)
    ensures
        0 <= leading_zeros(a) <= a.len(),
        leading_zeros(a + b) == if leading_zeros(a) < a.len() {
            leading_zeros(a)
        } else {
            a.len() + leading_zeros(b)
        },
    decreases a.len(),
{
    if a.len() == 0 {
        assert(a + b =~= b);
    } else {
        assert((a + b)[0] == a[0]);
        assert((a + b).drop_first() =~= a.drop_first() + b);
        lemma_leading_zeros_concat(a.drop_first(), b);
    }
}

fn leading_zeros_range(cs: &[char], lo: usize, hi: usize) -> (k: usize)
    requires
        lo <= hi <= cs@.len(),
    ensures
        k <= hi - lo,
        k == leading_zeros(cs@.subrange(lo as int, hi as int)),
{
    let mut k = lo;
    while k < hi && cs[k] == '0'
        invariant
            lo <= k <= hi <= cs@.len(),
            forall|j: int| lo <= j < k ==> cs@[j] == '0',
        decreases hi - k,
    {
        k = k + 1;
    }
    proof {
        lemma_leading_zeros(cs@.subrange(lo as int, hi as int), k - lo);
    }
    k - lo
}

/// The digits of a mantissa `m`, without its `.`.
pub open spec fn digits_without_dot(m: Seq<char>) -> Seq<char> {
    let p = dot_index(m);
    if p >= m.len() {
        m
    } else {
        m.subrange(0, p) + m.subrange(p + 1, m.len() as int)
    }
}

/// The digits of the mantissa of an unsigned decimal literal `b`, without
/// its `.`.
pub open spec fn mantissa_digits(b: Seq<char>) -> Seq<char> {
    digits_without_dot(b.subrange(0, exp_index(b)))
}

/// The value of an exponent `x`: an optional sign and digits.
pub open spec fn exponent_of(x: Seq<char>) -> int {
    if x.len() > 0 && x[0] == '-' {
        -(digits_value(strip_sign(x)) as int)
    } else {
        digits_value(strip_sign(x)) as int
    }
}

/// The value of the exponent of an unsigned decimal literal `b`; `0` when it
/// has none.
pub open spec fn exponent_value(b: Seq<char>) -> int {
    let e = exp_index(b);
    if e >= b.len() {
        0
    } else {
        exponent_of(b.subrange(e + 1, b.len() as int))
    }
}

/// The decimal order of an unsigned decimal literal `b` with a nonzero digit:
/// the `o` with `10^(o - 1) <= value < 10^o`, that is the count of its
/// integer digits, less the leading zeros of all its mantissa digits, plus
/// its exponent.
pub open spec fn decimal_order(b: Seq<char>) -> int {
    dot_index(b.subrange(0, exp_index(b))) - leading_zeros(mantissa_digits(b)) + exponent_value(b)
}

/// Whether a float literal (see [`is_float_literal`]) reads as an `f64` that
/// is not greater than zero: one written with a leading `-` (a negative
/// value, `-0.0` or a NaN), a NaN, or a decimal whose digits are all zero or
/// whose value is below `10^-324`. The least positive `f64` is `2^-1074`
/// (about `4.9e-324`) and reading rounds to nearest, ties to even, so a value
/// up to `2^-1075` (about `2.5e-324`) reads as zero, and one of at least
/// `10^-323` reads as positive; between `10^-324` and `10^-323` this says
/// nothing.
pub open spec fn reads_non_positive(s: Seq<char>) -> bool {
    let b = strip_sign(s);
    let d = mantissa_digits(b);
    ||| s.len() > 0 && s[0] == '-'
    ||| word_ieq(b, seq!['n', 'a', 'n'])
    ||| is_decimal_number(b) && (leading_zeros(d) == d.len() || decimal_order(b) <= -324)
}

/// The value of the digits `cs[lo..hi]`, capped at `cap`.
fn digits_value_capped(cs: &[char], lo: usize, hi: usize, cap: u128) -> (v: u128)
    requires
        lo <= hi <= cs@.len(),
        all_digits(cs@.subrange(lo as int, hi as int)),
        cap <= 0x1_0000_0000_0000_0000_0000,
    ensures
        v as int == if digits_value(cs@.subrange(lo as int, hi as int)) < cap {
            digits_value(cs@.subrange(lo as int, hi as int)) as int
        } else {
            cap as int
        },
{
    let mut v: u128 = 0;
    let mut k = lo;
    assert(cs@.subrange(lo as int, lo as int) =~= Seq::<char>::empty());
    while k < hi
        invariant
            lo <= k <= hi <= cs@.len(),
            all_digits(cs@.subrange(lo as int, hi as int)),
            cap <= 0x1_0000_0000_0000_0000_0000,
            v as int == if digits_value(cs@.subrange(lo as int, k as int)) < cap {
                digits_value(cs@.subrange(lo as int, k as int)) as int
            } else {
                cap as int
            },
        decreases hi - k,
    {
        let ghost pre = cs@.subrange(lo as int, k as int);
        let ghost next = cs@.subrange(lo as int, k + 1);
        assert(next.drop_last() =~= pre);
        assert(is_digit(cs@.subrange(lo as int, hi as int)[k - lo]));
        assert(next.last() == cs@[k as int]);
        let d = (cs[k] as u32 - '0' as u32) as u128;
        assert(digits_value(next) == digits_value(pre) * 10 + d);
        let w = v * 10 + d;
        v = if w < cap { w } else { cap };
        k = k + 1;
    }
    assert(cs@.subrange(lo as int, hi as int) =~= cs@.subrange(lo as int, k as int));
    v
}

/// The position of the `.` of the mantissa `cs[lo..hi]`, with the count of
/// its digits and of their leading zeros.
fn mantissa_stats(cs: &[char], lo: usize, hi: usize) -> (r: (usize, usize, usize))
    requires
        lo <= hi <= cs@.len(),
    ensures
        lo <= r.0 <= hi,
        r.0 - lo == dot_index(cs@.subrange(lo as int, hi as int)),
        r.2 == digits_without_dot(cs@.subrange(lo as int, hi as int)).len(),
        r.1 == leading_zeros(digits_without_dot(cs@.subrange(lo as int, hi as int))),
        r.1 <= r.2 <= hi - lo,
{
    let ghost m = cs@.subrange(lo as int, hi as int);
    let p = dot_index_range(cs, lo, hi);
    let zi = leading_zeros_range(cs, lo, p);
    let ghost int_part = cs@.subrange(lo as int, p as int);
    assert(m.subrange(0, p - lo) =~= int_part);
    if p < hi {
        let ghost frac = cs@.subrange(p + 1, hi as int);
        assert(m.subrange(p - lo + 1, m.len() as int) =~= frac);
        proof {
            lemma_leading_zeros_concat(int_part, frac);
            lemma_leading_zeros_concat(frac, Seq::empty());
            assert(frac + Seq::<char>::empty() =~= frac);
        }
        if zi < p - lo {
            (p, zi, hi - lo - 1)
        } else {
            let zf = leading_zeros_range(cs, p + 1, hi);
            (p, zi + zf, hi - lo - 1)
        }
    } else {
        assert(m =~= int_part);
        (p, zi, hi - lo)
    }
}

/// The value of the exponent `cs[lo..hi]`, its magnitude capped at `cap`.
fn exponent_capped(cs: &[char], lo: usize, hi: usize, cap: u128) -> (x: i128)
    requires
        lo <= hi <= cs@.len(),
        is_exponent(cs@.subrange(lo as int, hi as int)),
        cap <= 0x1_0000_0000_0000_0000_0000,
    ensures
        ({
            let v = exponent_of(cs@.subrange(lo as int, hi as int));
            if -cap < v < cap { x == v } else if v < 0 { x == -cap } else { x == cap }
        }),
{
    let neg = cs[lo] == '-';
    let xs = if cs[lo] == '+' || neg { lo + 1 } else { lo };
    assert(strip_sign(cs@.subrange(lo as int, hi as int)) =~= cs@.subrange(xs as int, hi as int));
    let mag = digits_value_capped(cs, xs, hi, cap);
    if neg { -(mag as i128) } else { mag as i128 }
}

/// Whether the float literal `cs[lo..hi]` reads as an `f64` that is not
/// greater than zero (see [`reads_non_positive`]).
#[verifier::rlimit(30)]
pub fn reads_non_positive_range(cs: &[char], lo: usize, hi: usize) -> (r: bool)
    requires
        lo <= hi <= cs@.len(),
    ensures
        r == reads_non_positive(cs@.subrange(lo as int, hi as int)),
{
    let ghost s = cs@.subrange(lo as int, hi as int);
    if lo < hi && cs[lo] == '-' {
        return true;
    }
    let start = if lo < hi && cs[lo] == '+' { lo + 1 } else { lo };
    let ghost b = cs@.subrange(start as int, hi as int);
    assert(strip_sign(s) =~= b);
    let nan = ['n', 'a', 'n'];
    assert(nan@ =~= seq!['n', 'a', 'n']);
    if word_ieq_range(cs, start, hi, &nan) {
        return true;
    }
    let e = exp_index_range(cs, start, hi);
    assert(b.subrange(0, e - start) =~= cs@.subrange(start as int, e as int));
    if !is_mantissa_range(cs, start, e) {
        return false;
    }
    if e < hi {
        assert(b.subrange(e - start + 1, b.len() as int) =~= cs@.subrange(e + 1, hi as int));
        if !is_exponent_range(cs, e + 1, hi) {
            return false;
        }
    }
    let (p, z, len) = mantissa_stats(cs, start, e);
    if z == len {
        return true;
    }
    let a: i128 = (p - start) as i128 - z as i128;
    let cap: u128 = 0x4_0000_0000_0000_0000;
    let x: i128 = if e == hi {
        0
    } else {
        exponent_capped(cs, e + 1, hi, cap)
    };
    a + x <= -324
}

/// Position of the first occurrence of `c`, or the length.
pub open spec fn index_of(s: Seq<char>, c: char) -> int
    decreases s.len(),
{
    if s.len() == 0 {
        0
    } else if s[0] == c {
        0
    } else {
        1 + index_of(s.drop_first(), c)
    }
}

proof fn lemma_index_of(s: Seq<char>, c: char, k: int)
    requires
        0 <= k <= s.len(),
        forall|j: int| 0 <= j < k ==> s[j] != c,
        k == s.len() || s[k] == c,
    ensures
        index_of(s, c) == k,
    decreases k,
{
    if k > 0 {
        lemma_index_of(s.drop_first(), c, k - 1);
    }
}

/// Executable [`index_of`] on `cs[lo..hi]`, as an absolute position.
pub fn index_of_range(cs: &[char], lo: usize, hi: usize, c: char) -> (r: usize)
    requires
        lo <= hi <= cs@.len(),
    ensures
        lo <= r <= hi,
        r - lo == index_of(cs@.subrange(lo as int, hi as int), c),
{
    let mut k = lo;
    while k < hi && cs[k] != c
        invariant
            lo <= k <= hi <= cs@.len(),
            forall|j: int| lo <= j < k ==> cs@[j] != c,
        decreases hi - k,
    {
        k = k + 1;
    }
    proof {
        lemma_index_of(cs@.subrange(lo as int, hi as int), c, k - lo);
    }
    k
}

/// The character views of a sequence of strings.
pub open spec fn views(v: Seq<String>) -> Seq<Seq<char>> {
    v.map_values(|s: String| s@)
}

/// The character view of an optional string.
pub open spec fn opt_view(o: Option<String>) -> Option<Seq<char>> {
    match o {
        Some(s) => Some(s@),
        None => None,
    }
}

/// Whether `tokens` holds a string equal to `word`.
pub fn contains_str(tokens: &[String], word: &str) -> (b: bool)
    ensures
        b == views(tokens@).contains(word@),
{
    let mut i: usize = 0;
    while i < tokens.len()
        invariant
            i <= tokens@.len(),
            forall|j: int| 0 <= j < i ==> tokens@[j]@ != word@,
        decreases tokens@.len() - i,
    {
        if str_eq(tokens[i].as_str(), word) {
            assert(views(tokens@)[i as int] == word@);
            return true;
        }
        i = i + 1;
    }
    assert(!views(tokens@).contains(word@)) by {
        if views(tokens@).contains(word@) {
            let j = choose|j: int| 0 <= j < views(tokens@).len() && views(tokens@)[j] == word@;
            assert(tokens@[j]@ == word@);
        }
    }
    false
}

/// Position of the first whitespace character, or the length.
pub open spec fn first_ws(s: Seq<char>) -> int
    decreases s.len(),
{
    if s.len() == 0 {
        0
    } else if is_whitespace(s[0]) {
        0
    } else {
        1 + first_ws(s.drop_first())
    }
}

/// [`first_ws`] lies within the sequence and every character before it is
/// not whitespace.
pub proof fn lemma_first_ws(s: Seq<char>)
    ensures
        0 <= first_ws(s) <= s.len(),
        first_ws(s) < s.len() ==> is_whitespace(s[first_ws(s)]),
        forall|j: int| 0 <= j < first_ws(s) ==> !is_whitespace(#[trigger] s[j]),
    decreases s.len(),
{
    if s.len() > 0 && !is_whitespace(s[0]) {
        lemma_first_ws(s.drop_first());
        assert forall|j: int| 0 <= j < first_ws(s) implies !is_whitespace(#[trigger] s[j]) by {
            if j > 0 {
                assert(s[j] == s.drop_first()[j - 1]);
            }
        }
    }
}

/// A run of non-whitespace characters followed by whitespace ends at that
/// whitespace.
pub proof fn lemma_first_ws_concat(w: Seq<char>, rest: Seq<char>)
    requires
        forall|j: int| 0 <= j < w.len() ==> !is_whitespace(#[trigger] w[j]),
        rest.len() > 0,
        is_whitespace(rest[0]),
    ensures
        first_ws(w + rest) == w.len(),
    decreases w.len(),
{
    if w.len() > 0 {
        assert((w + rest).drop_first() =~= w.drop_first() + rest);
        lemma_first_ws_concat(w.drop_first(), rest);
    } else {
        assert(w + rest =~= rest);
    }
}

/// `str::split_whitespace`: the maximal runs of non-whitespace characters,
/// in order.
pub open spec fn words(s: Seq<char>) -> Seq<Seq<char>>
    decreases s.len(),
{
    if s.len() == 0 {
        Seq::empty()
    } else if is_whitespace(s[0]) {
        words(s.drop_first())
    } else {
        let k = first_ws(s);
        proof {
            lemma_first_ws(s);
        }
        seq![s.subrange(0, k)] + words(s.subrange(k, s.len() as int))
    }
}

/// The first word of a non-empty run of non-whitespace characters followed
/// by whitespace is that run.
pub proof fn lemma_first_word(w: Seq<char>, rest: Seq<char>)
    requires
        w.len() > 0,
        forall|j: int| 0 <= j < w.len() ==> !is_whitespace(#[trigger] w[j]),
        rest.len() > 0,
        is_whitespace(rest[0]),
    ensures
        words(w + rest).len() > 0,
        words(w + rest)[0] == w,
{
    lemma_first_ws_concat(w, rest);
    assert((w + rest)[0] == w[0]);
    assert((w + rest).subrange(0, w.len() as int) =~= w);
}

/// The `[start, end)` character ranges of the words of `cs[lo..hi]`.
pub fn split_words(cs: &[char], lo: usize, hi: usize) -> (r: Vec<(usize, usize)>)
    requires
        lo <= hi <= cs@.len(),
    ensures
        r@.len() == words(cs@.subrange(lo as int, hi as int)).len(),
        forall|i: int|
            0 <= i < r@.len() ==> {
                &&& lo <= (#[trigger] r@[i]).0 <= r@[i].1 <= hi
                &&& cs@.subrange(r@[i].0 as int, r@[i].1 as int) == words(cs@.subrange(lo as int, hi as int))[i]
            },
{
    let mut r: Vec<(usize, usize)> = Vec::new();
    let mut k = lo;
    while k < hi
        invariant
            lo <= k <= hi <= cs@.len(),
            words(cs@.subrange(lo as int, hi as int)) == r@.map_values(
                |p: (usize, usize)| cs@.subrange(p.0 as int, p.1 as int),
            ) + words(cs@.subrange(k as int, hi as int)),
            forall|i: int| 0 <= i < r@.len() ==> lo <= (#[trigger] r@[i]).0 <= r@[i].1 <= k,
        decreases hi - k,
    {
        let ghost rest = cs@.subrange(k as int, hi as int);
        if char_is_whitespace(cs[k]) {
            assert(rest.drop_first() =~= cs@.subrange(k + 1, hi as int));
            k = k + 1;
        } else {
            let mut e = k;
            while e < hi && !char_is_whitespace(cs[e])
                invariant
                    k <= e <= hi <= cs@.len(),
                    forall|j: int| k <= j < e ==> !is_whitespace(cs@[j]),
                decreases hi - e,
            {
                e = e + 1;
            }
            proof {
                lemma_first_ws(rest);
                let f = first_ws(rest);
                if f < e - k {
                    assert(is_whitespace(rest[f]));
                    assert(rest[f] == cs@[k + f]);
                }
                if f > e - k {
                    assert(!is_whitespace(rest[e - k]));
                    assert(rest[e - k] == cs@[e as int]);
                }
            }
            assert(rest.subrange(0, e - k) =~= cs@.subrange(k as int, e as int));
            assert(rest.subrange(e - k, rest.len() as int) =~= cs@.subrange(e as int, hi as int));
            let ghost before = r@;
            r.push((k, e));
            assert(r@.map_values(|p: (usize, usize)| cs@.subrange(p.0 as int, p.1 as int))
                =~= before.map_values(|p: (usize, usize)| cs@.subrange(p.0 as int, p.1 as int))
                + seq![cs@.subrange(k as int, e as int)]);
            k = e;
        }
    }
    assert(words(cs@.subrange(k as int, hi as int)) =~= Seq::<Seq<char>>::empty());
    assert forall|i: int| 0 <= i < r@.len() implies cs@.subrange(r@[i].0 as int, r@[i].1 as int)
        == words(cs@.subrange(lo as int, hi as int))[i] by {
        assert(words(cs@.subrange(lo as int, hi as int)) =~= r@.map_values(
            |p: (usize, usize)| cs@.subrange(p.0 as int, p.1 as int),
        ));
    }
    r
}

/// [`index_of`] lies within the sequence; every character before it differs
/// from `c`, and the character at it (if any) is `c`.
pub proof fn lemma_index_of_bounds(s: Seq<char>, c: char)
    ensures
        0 <= index_of(s, c) <= s.len(),
        index_of(s, c) < s.len() ==> s[index_of(s, c)] == c,
        forall|j: int| 0 <= j < index_of(s, c) ==> s[j] != c,
    decreases s.len(),
{
    if s.len() > 0 && s[0] != c {
        lemma_index_of_bounds(s.drop_first(), c);
        assert forall|j: int| 0 <= j < index_of(s, c) implies s[j] != c by {
            if j > 0 {
                assert(s[j] == s.drop_first()[j - 1]);
            }
        }
    }
}

/// `str::split` on one character: the pieces between the occurrences of `c`,
/// in order (one more piece than there are occurrences).
pub open spec fn split_char(s: Seq<char>, c: char) -> Seq<Seq<char>>
    decreases s.len(),
{
    let i = index_of(s, c);
    proof {
        lemma_index_of_bounds(s, c);
    }
    if i >= s.len() {
        seq![s]
    } else {
        seq![s.subrange(0, i)] + split_char(s.subrange(i + 1, s.len() as int), c)
    }
}

/// The `[start, end)` character ranges of the pieces of `cs[lo..hi]` split
/// on `c` (see [`split_char`]).
pub fn split_char_range(cs: &[char], lo: usize, hi: usize, c: char) -> (r: Vec<(usize, usize)>)
    requires
        lo <= hi <= cs@.len(),
    ensures
        r@.len() == split_char(cs@.subrange(lo as int, hi as int), c).len(),
        forall|i: int|
            0 <= i < r@.len() ==> {
                &&& lo <= (#[trigger] r@[i]).0 <= r@[i].1 <= hi
                &&& cs@.subrange(r@[i].0 as int, r@[i].1 as int) == split_char(cs@.subrange(lo as int, hi as int), c)[i]
            },
{
    let mut r: Vec<(usize, usize)> = Vec::new();
    let mut k = lo;
    loop
        invariant_except_break
            lo <= k <= hi <= cs@.len(),
            split_char(cs@.subrange(lo as int, hi as int), c) == r@.map_values(
                |p: (usize, usize)| cs@.subrange(p.0 as int, p.1 as int),
            ) + split_char(cs@.subrange(k as int, hi as int), c),
            forall|i: int| 0 <= i < r@.len() ==> lo <= (#[trigger] r@[i]).0 <= r@[i].1 <= k,
        ensures
            split_char(cs@.subrange(lo as int, hi as int), c) == r@.map_values(
                |p: (usize, usize)| cs@.subrange(p.0 as int, p.1 as int),
            ),
            forall|i: int| 0 <= i < r@.len() ==> lo <= (#[trigger] r@[i]).0 <= r@[i].1 <= hi,
        decreases hi - k,
    {
        let ghost rest = cs@.subrange(k as int, hi as int);
        let e = index_of_range(cs, k, hi, c);
        proof {
            lemma_index_of_bounds(rest, c);
        }
        let ghost before = r@;
        r.push((k, e));
        assert(r@.map_values(|p: (usize, usize)| cs@.subrange(p.0 as int, p.1 as int))
            =~= before.map_values(|p: (usize, usize)| cs@.subrange(p.0 as int, p.1 as int))
            + seq![cs@.subrange(k as int, e as int)]);
        assert(rest.subrange(0, e - k) =~= cs@.subrange(k as int, e as int));
        if e == hi {
            assert(split_char(rest, c) =~= seq![cs@.subrange(k as int, e as int)]);
            assert(split_char(cs@.subrange(lo as int, hi as int), c) =~= r@.map_values(
                |p: (usize, usize)| cs@.subrange(p.0 as int, p.1 as int),
            ));
            break;
        }
        assert(rest.subrange(e - k + 1, rest.len() as int) =~= cs@.subrange(e + 1, hi as int));
        k = e + 1;
    }
    assert forall|i: int| 0 <= i < r@.len() implies cs@.subrange(r@[i].0 as int, r@[i].1 as int)
        == split_char(cs@.subrange(lo as int, hi as int), c)[i] by {
        assert(r@.map_values(|p: (usize, usize)| cs@.subrange(p.0 as int, p.1 as int))[i]
            == cs@.subrange(r@[i].0 as int, r@[i].1 as int));
    }
    r
}

/// The sequence without the leading characters equal to `c`.
pub open spec fn strip_char_start(s: Seq<char>, c: char) -> Seq<char>
    decreases s.len(),
{
    if s.len() > 0 && s[0] == c {
        strip_char_start(s.drop_first(), c)
    } else {
        s
    }
}

/// The sequence without the trailing characters equal to `c`.
pub open spec fn strip_char_end(s: Seq<char>, c: char) -> Seq<char>
    decreases s.len(),
{
    if s.len() > 0 && s.last() == c {
        strip_char_end(s.drop_last(), c)
    } else {
        s
    }
}

/// `str::trim_matches` with one character: every leading and trailing `c`
/// removed.
pub open spec fn trim_char(s: Seq<char>, c: char) -> Seq<char> {
    strip_char_start(strip_char_end(s, c), c)
}

/// The bounds of `cs[lo..hi]` with every leading and trailing `c` removed.
pub fn trim_char_range(cs: &[char], lo: usize, hi: usize, c: char) -> (r: (usize, usize))
    requires
        lo <= hi <= cs@.len(),
    ensures
        lo <= r.0 <= r.1 <= hi,
        cs@.subrange(r.0 as int, r.1 as int) == trim_char(cs@.subrange(lo as int, hi as int), c),
{
    let mut e = hi;
    while e > lo && cs[e - 1] == c
        invariant
            lo <= e <= hi <= cs@.len(),
            strip_char_end(cs@.subrange(lo as int, hi as int), c) == strip_char_end(
                cs@.subrange(lo as int, e as int),
                c,
            ),
        decreases e,
    {
        assert(cs@.subrange(lo as int, e as int).drop_last() =~= cs@.subrange(lo as int, e - 1));
        e = e - 1;
    }
    let mut b = lo;
    while b < e && cs[b] == c
        invariant
            lo <= b <= e <= hi <= cs@.len(),
            strip_char_start(cs@.subrange(lo as int, e as int), c) == strip_char_start(
                cs@.subrange(b as int, e as int),
                c,
            ),
        decreases e - b,
    {
        assert(cs@.subrange(b as int, e as int).drop_first() =~= cs@.subrange(b + 1, e as int));
        b = b + 1;
    }
    (b, e)
}

/// Lexicographic order of character sequences (`Ord` for `str`: UTF-8 byte
/// order coincides with code point order).
pub open spec fn seq_lt(a: Seq<char>, b: Seq<char>) -> bool
    decreases a.len(),
{
    if a.len() == 0 {
        b.len() > 0
    } else if b.len() == 0 {
        false
    } else if a[0] != b[0] {
        a[0] < b[0]
    } else {
        seq_lt(a.drop_first(), b.drop_first())
    }
}

proof fn lemma_seq_lt_skip(a: Seq<char>, b: Seq<char>, k: int)
    requires
        0 <= k <= a.len(),
        k <= b.len(),
        a.subrange(0, k) == b.subrange(0, k),
    ensures
        seq_lt(a, b) == seq_lt(a.subrange(k, a.len() as int), b.subrange(k, b.len() as int)),
    decreases k,
{
    if k > 0 {
        assert(a[0] == a.subrange(0, k)[0]);
        assert(b[0] == b.subrange(0, k)[0]);
        assert(a.drop_first().subrange(0, k - 1) =~= a.subrange(1, k));
        assert(b.drop_first().subrange(0, k - 1) =~= b.subrange(1, k));
        assert(a.subrange(1, k) =~= a.subrange(0, k).drop_first());
        assert(b.subrange(1, k) =~= b.subrange(0, k).drop_first());
        lemma_seq_lt_skip(a.drop_first(), b.drop_first(), k - 1);
        assert(a.drop_first().subrange(k - 1, a.len() - 1) =~= a.subrange(k, a.len() as int));
        assert(b.drop_first().subrange(k - 1, b.len() - 1) =~= b.subrange(k, b.len() as int));
    } else {
        assert(a.subrange(0, a.len() as int) =~= a);
        assert(b.subrange(0, b.len() as int) =~= b);
    }
}

/// Whether `a` sorts strictly before `b` (see [`seq_lt`]).
pub fn str_lt(a: &str, b: &str) -> (r: bool)
    ensures
        r == seq_lt(a@, b@),
{
    let ca = chars_of(a);
    let cb = chars_of(b);
    let mut k: usize = 0;
    while k < ca.len() && k < cb.len() && ca[k] == cb[k]
        invariant
            k <= ca@.len(),
            k <= cb@.len(),
            ca@ == a@,
            cb@ == b@,
            ca@.subrange(0, k as int) == cb@.subrange(0, k as int),
        decreases ca@.len() - k,
    {
        assert(ca@.subrange(0, k + 1) =~= ca@.subrange(0, k as int).push(ca@[k as int]));
        assert(cb@.subrange(0, k + 1) =~= cb@.subrange(0, k as int).push(cb@[k as int]));
        k = k + 1;
    }
    proof {
        lemma_seq_lt_skip(ca@, cb@, k as int);
    }
    let ghost ra = ca@.subrange(k as int, ca@.len() as int);
    let ghost rb = cb@.subrange(k as int, cb@.len() as int);
    if k == ca.len() {
        k < cb.len()
    } else if k == cb.len() {
        false
    } else {
        assert(ra[0] == ca@[k as int]);
        assert(rb[0] == cb@[k as int]);
        ca[k] < cb[k]
    }
}

proof fn lemma_seq_lt_irreflexive(a: Seq<char>)
    ensures
        !seq_lt(a, a),
    decreases a.len(),
{
    if a.len() > 0 {
        lemma_seq_lt_irreflexive(a.drop_first());
    }
}

proof fn lemma_seq_lt_trichotomy(a: Seq<char>, b: Seq<char>)
    ensures
        seq_lt(a, b) ==> !seq_lt(b, a),
        a != b ==> seq_lt(a, b) || seq_lt(b, a),
    decreases a.len(),
{
    if a.len() > 0 && b.len() > 0 {
        lemma_seq_lt_trichotomy(a.drop_first(), b.drop_first());
        if a != b && a[0] == b[0] {
            assert(a.drop_first() != b.drop_first()) by {
                if a.drop_first() == b.drop_first() {
                    assert(a =~= seq![a[0]] + a.drop_first());
                    assert(b =~= seq![b[0]] + b.drop_first());
                }
            }
        }
    } else if a != b && a.len() == 0 {
        assert(b.len() > 0) by {
            if b.len() == 0 {
                assert(a =~= b);
            }
        }
    }
}

proof fn lemma_seq_lt_transitive(a: Seq<char>, b: Seq<char>, c: Seq<char>)
    ensures
        seq_lt(a, b) && seq_lt(b, c) ==> seq_lt(a, c),
    decreases a.len(),
{
    if a.len() > 0 && b.len() > 0 && c.len() > 0 {
        lemma_seq_lt_transitive(a.drop_first(), b.drop_first(), c.drop_first());
    }
}

/// [`seq_lt`] is a strict total order: irreflexive, asymmetric, transitive,
/// and any two distinct sequences are ordered one way or the other.
pub proof fn lemma_seq_lt_order(a: Seq<char>, b: Seq<char>, c: Seq<char>)
    ensures
        !seq_lt(a, a),
        seq_lt(a, b) ==> !seq_lt(b, a),
        a != b ==> seq_lt(a, b) || seq_lt(b, a),
        seq_lt(a, b) && seq_lt(b, c) ==> seq_lt(a, c),
{
    lemma_seq_lt_irreflexive(a);
    lemma_seq_lt_trichotomy(a, b);
    lemma_seq_lt_transitive(a, b, c);
}

/// Splitting `a`, `c`, `b` on `c`, where `a` holds no `c`, gives `a` and
/// then the pieces of `b`; splitting `a` alone gives `a`.
pub proof fn lemma_split_char_cons(a: Seq<char>, b: Seq<char>, c: char)
    requires
        forall|j: int| 0 <= j < a.len() ==> a[j] != c,
    ensures
        split_char(a + seq![c] + b, c) == seq![a] + split_char(b, c),
        split_char(a, c) == seq![a],
{
    let s = a + seq![c] + b;
    assert forall|j: int| 0 <= j < a.len() implies s[j] != c by {
        assert(s[j] == a[j]);
    }
    lemma_index_of(s, c, a.len() as int);
    lemma_index_of(a, c, a.len() as int);
    assert(s.subrange(0, a.len() as int) =~= a);
    assert(s.subrange(a.len() as int + 1, s.len() as int) =~= b);
}

/// A sequence without surrounding whitespace, padded with one space on each
/// side, trims back to itself.
pub proof fn lemma_trim_padded(c: Seq<char>)
    requires
        c.len() == 0 || (!is_whitespace(c[0]) && !is_whitespace(c.last())),
    ensures
        trim(seq![' '] + c + seq![' ']) == c,
{
    let s = seq![' '] + c + seq![' '];
    let front = seq![' '] + c;
    assert(s.drop_last() =~= front);
    assert(trim_end(s) == trim_end(front));
    if c.len() == 0 {
        assert(front.drop_last() =~= c);
        assert(trim_end(front) == trim_end(c));
        assert(trim_start(c) == c);
    } else {
        assert(front.last() == c.last());
        assert(trim_end(front) == front);
        assert(front.drop_first() =~= c);
        assert(trim_start(front) == trim_start(c));
        assert(trim_start(c) == c);
    }
}

/// A sequence that starts and ends with a non-whitespace character is its
/// own trim.
pub proof fn lemma_trim_unpadded(s: Seq<char>)
    requires
        s.len() > 0,
        !is_whitespace(s[0]),
        !is_whitespace(s.last()),
    ensures
        trim(s) == s,
{
    assert(trim_end(s) == s);
    assert(trim_start(s) == s);
}

} // verus!
