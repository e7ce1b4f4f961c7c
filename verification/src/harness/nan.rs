//! Replacing bare `NaN` tokens of a JSON text with `null`, so that a strict
//! JSON parser accepts it. Only standalone tokens are replaced: `NaN` that
//! is part of a longer identifier (`NaNny`, `xNaN`) is left alone, and every
//! other character, ASCII or not, is copied unchanged.

use vstd::prelude::*;
use crate::text::{chars_of, string_push};

verus! {

/// An identifier byte: an ASCII letter or digit, or `_`.
pub open spec fn ident_byte(b: u8) -> bool {
    (0x30 <= b <= 0x39) || (0x41 <= b <= 0x5a) || (0x61 <= b <= 0x7a) || b == 0x5f
}

/// Whether `b` is an identifier byte.
pub fn is_ident_byte(b: u8) -> (r: bool)
    ensures
        r == ident_byte(b),
{
    (0x30 <= b && b <= 0x39) || (0x41 <= b && b <= 0x5a) || (0x61 <= b && b <= 0x7a) || b == 0x5f
}

/// An identifier character: an ASCII character whose byte is an identifier
/// byte (no other character has such a byte in its UTF-8 encoding).
pub open spec fn ident_char(c: char) -> bool {
    (c as u32) < 0x80 && ident_byte(c as u32 as u8)
}

/// Whether `c` is an identifier character.
fn is_ident_char(c: char) -> (r: bool)
    ensures
        r == ident_char(c),
{
    (c as u32) < 0x80 && is_ident_byte(c as u32 as u8)
}

/// Whether the character before position `i` is an identifier character.
pub fn preceded_by_ident(chars: &[char], i: usize) -> (r: bool)
    requires
        i <= chars@.len(),
    ensures
        r == (i > 0 && ident_char(chars@[i - 1])),
{
    i > 0 && is_ident_char(chars[i - 1])
}

/// Whether the character at position `i` is an identifier character.
pub fn followed_by_ident(chars: &[char], i: usize) -> (r: bool)
    ensures
        r == (i < chars@.len() && ident_char(chars@[i as int])),
{
    i < chars.len() && is_ident_char(chars[i])
}

/// A standalone `NaN` token starts at position `i` of `s`.
pub open spec fn nan_at(s: Seq<char>, i: int) -> bool {
    &&& 0 <= i
    &&& i + 3 <= s.len()
    &&& s[i] == 'N' && s[i + 1] == 'a' && s[i + 2] == 'N'
    &&& !(i > 0 && ident_char(s[i - 1]))
    &&& !(i + 3 < s.len() && ident_char(s[i + 3]))
}

/// The text of `s` from position `i` with every standalone `NaN` token
/// replaced by `null`, scanning left to right.
pub open spec fn normalize_from(s: Seq<char>, i: int) -> Seq<char>
    decreases s.len() - i,
{
    if i < 0 || i >= s.len() {
        Seq::empty()
    } else if nan_at(s, i) {
        seq!['n', 'u', 'l', 'l'] + normalize_from(s, i + 3)
    } else {
        seq![s[i]] + normalize_from(s, i + 1)
    }
}

/// Replace every standalone `NaN` token of `raw` with `null` (see
/// [`normalize_from`]).
pub fn normalize_nan_tokens(raw: &str) -> (out: String)
    ensures
        out@ == normalize_from(raw@, 0),
{
    let cs = chars_of(raw);
    let mut out = String::new();
    let mut i: usize = 0;
    while i < cs.len()
        invariant
            i <= cs@.len(),
            cs@ == raw@,
            out@ + normalize_from(cs@, i as int) == normalize_from(cs@, 0),
        decreases cs@.len() - i,
    {
        let ghost before = out@;
        if cs[i] == 'N' && cs.len() - i >= 3 && cs[i + 1] == 'a' && cs[i + 2] == 'N' && !preceded_by_ident(cs.as_slice(), i)
            && !followed_by_ident(cs.as_slice(), i + 3) {
            string_push(&mut out, 'n');
            string_push(&mut out, 'u');
            string_push(&mut out, 'l');
            string_push(&mut out, 'l');
            assert(out@ + normalize_from(cs@, i + 3) =~= before + normalize_from(cs@, i as int));
            i = i + 3;
        } else {
            string_push(&mut out, cs[i]);
            assert(out@ + normalize_from(cs@, i + 1) =~= before + normalize_from(cs@, i as int));
            i = i + 1;
        }
    }
    assert(out@ =~= normalize_from(cs@, 0));
    out
}

} // verus!
