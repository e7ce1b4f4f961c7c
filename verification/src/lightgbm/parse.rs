//! The line-based `key=value` tokenizer of LightGBM text models and the typed
//! per-tree field parse, with the exact array length each field must have.
//!
//! Integer fields are parsed to their declared types (`i8`, `i32`, `u32`,
//! `u64`). Floating-point fields (`leaf_value`, `threshold`, `split_gain`) are
//! checked against the grammar that `FromStr` for `f64`/`f32` accepts and kept
//! as their literal text, so converting them to numbers afterwards cannot fail.
//! Every malformed count is a typed error, never an out-of-bounds access.

use vstd::prelude::*;
use crate::lightgbm::error::{DetailModel, LgbError, ParseDetail, ParseLocation};
use crate::text::{index_of, index_of_range, lemma_index_of_bounds, trim, trim_range, trim_end, trim_end_range, chars_from_range, parse_int, parse_int_range, is_float_literal, is_float_literal_range, range_eq, string_from_range, views, chars_of};

verus! {

/// The maximal runs of non-space characters of `s` (`split(' ')` with the
/// empty pieces dropped), in order.
pub open spec fn tokens_of(s: Seq<char>) -> Seq<Seq<char>>
    decreases s.len(),
{
    if s.len() == 0 {
        Seq::empty()
    } else if s[0] == ' ' {
        tokens_of(s.drop_first())
    } else {
        let k = index_of(s, ' ');
        proof {
            lemma_index_of_bounds(s, ' ');
        }
        seq![s.subrange(0, k)] + tokens_of(s.subrange(k, s.len() as int))
    }
}

/// The `[start, end)` character ranges of the tokens of `cs[lo..hi]`.
fn split_tokens(cs: &[char], lo: usize, hi: usize) -> (r: Vec<(usize, usize)>)
    requires
        lo <= hi <= cs@.len(),
    ensures
        r@.len() == tokens_of(cs@.subrange(lo as int, hi as int)).len(),
        forall|i: int|
            0 <= i < r@.len() ==> {
                &&& lo <= (#[trigger] r@[i]).0 <= r@[i].1 <= hi
                &&& cs@.subrange(r@[i].0 as int, r@[i].1 as int) == tokens_of(
                    cs@.subrange(lo as int, hi as int),
                )[i]
            },
{
    let mut r: Vec<(usize, usize)> = Vec::new();
    let mut k = lo;
    while k < hi
        invariant
            lo <= k <= hi <= cs@.len(),
            tokens_of(cs@.subrange(lo as int, hi as int)) == r@.map_values(
                |p: (usize, usize)| cs@.subrange(p.0 as int, p.1 as int),
            ) + tokens_of(cs@.subrange(k as int, hi as int)),
            forall|i: int| 0 <= i < r@.len() ==> lo <= (#[trigger] r@[i]).0 <= r@[i].1 <= k,
        decreases hi - k,
    {
        let ghost rest = cs@.subrange(k as int, hi as int);
        if cs[k] == ' ' {
            assert(rest.drop_first() =~= cs@.subrange(k + 1, hi as int));
            k = k + 1;
        } else {
            let e = index_of_range(cs, k, hi, ' ');
            proof {
                lemma_index_of_bounds(rest, ' ');
            }
            assert(rest.subrange(0, e - k) =~= cs@.subrange(k as int, e as int));
            assert(rest.subrange(e - k, rest.len() as int) =~= cs@.subrange(e as int, hi as int));
            let ghost before = r@;
            r.push((k, e));
            assert(r@.map_values(|p: (usize, usize)| cs@.subrange(p.0 as int, p.1 as int))
                =~= before.map_values(|p: (usize, usize)| cs@.subrange(p.0 as int, p.1 as int))
                + seq![cs@.subrange(k as int, e as int)]);
            k = e;
        }
    }
    assert(tokens_of(cs@.subrange(k as int, hi as int)) =~= Seq::<Seq<char>>::empty());
    assert forall|i: int| 0 <= i < r@.len() implies cs@.subrange(r@[i].0 as int, r@[i].1 as int)
        == tokens_of(cs@.subrange(lo as int, hi as int))[i] by {
        assert(tokens_of(cs@.subrange(lo as int, hi as int)) =~= r@.map_values(
            |p: (usize, usize)| cs@.subrange(p.0 as int, p.1 as int),
        ));
    }
    r
}

/// The value of an integer token: its trimmed text parsed with the grammar of
/// `FromStr` for an integer type with range `min..=max`.
pub open spec fn int_token(tok: Seq<char>, signed: bool, min: int, max: int) -> Option<int> {
    parse_int(trim(tok), signed, min, max)
}

/// The literal of a floating-point token: its trimmed text, when `FromStr` for
/// `f64`/`f32` accepts it.
pub open spec fn float_token(tok: Seq<char>) -> Option<Seq<char>> {
    if is_float_literal(trim(tok)) {
        Some(trim(tok))
    } else {
        None
    }
}

/// The first index in `i..n` whose token is not an integer in range.
pub open spec fn first_bad_int(toks: Seq<Seq<char>>, i: int, n: int, signed: bool, min: int, max: int) -> Option<int>
    decreases n - i,
{
    if i >= n {
        None
    } else if int_token(toks[i], signed, min, max) is None {
        Some(i)
    } else {
        first_bad_int(toks, i + 1, n, signed, min, max)
    }
}

/// The first index in `i..n` whose token is not a floating-point literal.
pub open spec fn first_bad_float(toks: Seq<Seq<char>>, i: int, n: int) -> Option<int>
    decreases n - i,
{
    if i >= n {
        None
    } else if float_token(toks[i]) is None {
        Some(i)
    } else {
        first_bad_float(toks, i + 1, n)
    }
}

/// The outcome of reading `n` entries of an array field whose text is
/// `text`: a blank text with `n > 0` entries expected, fewer tokens than
/// expected, or the first token that is not a number is an error; otherwise
/// the first `n` tokens (any further tokens are ignored).
pub open spec fn array_shape_spec(field: &'static str, text: Seq<char>, n: int) -> Option<DetailModel> {
    let tr = trim(text);
    if tr.len() == 0 {
        if n > 0 {
            Some(DetailModel::EmptyArray { field, num_entry: n })
        } else {
            None
        }
    } else if tokens_of(tr).len() < n {
        Some(DetailModel::TooFewEntries { field, expected: n, found: tokens_of(tr).len() as int })
    } else {
        None
    }
}

/// Reading `n` integer entries (range `min..=max`) of `field` from `text`.
pub open spec fn int_array_spec(field: &'static str, text: Seq<char>, n: int, signed: bool, min: int, max: int) -> Result<
    Seq<int>,
    DetailModel,
> {
    let toks = tokens_of(trim(text));
    match array_shape_spec(field, text, n) {
        Some(d) => Err(d),
        None => if trim(text).len() == 0 {
            Ok(Seq::empty())
        } else {
            match first_bad_int(toks, 0, n, signed, min, max) {
                Some(j) => Err(DetailModel::CannotParseNumber { field, token: toks[j] }),
                None => Ok(Seq::new(n as nat, |i: int| int_token(toks[i], signed, min, max)->0)),
            }
        },
    }
}

/// Reading `n` floating-point entries of `field` from `text`.
pub open spec fn float_array_spec(field: &'static str, text: Seq<char>, n: int) -> Result<
    Seq<Seq<char>>,
    DetailModel,
> {
    let toks = tokens_of(trim(text));
    match array_shape_spec(field, text, n) {
        Some(d) => Err(d),
        None => if trim(text).len() == 0 {
            Ok(Seq::empty())
        } else {
            match first_bad_float(toks, 0, n) {
                Some(j) => Err(DetailModel::CannotParseNumber { field, token: toks[j] }),
                None => Ok(Seq::new(n as nat, |i: int| float_token(toks[i])->0)),
            }
        },
    }
}

/// Parse one integer token `cs[lo..hi]` (trimmed first).
fn parse_int_token(cs: &[char], lo: usize, hi: usize, signed: bool, min: i128, max: i128) -> (r: Option<i128>)
    requires
        lo <= hi <= cs@.len(),
        -0x1_0000_0000_0000_0000 <= min <= 0 <= max <= 0x1_0000_0000_0000_0000,
    ensures
        r matches Some(v) ==> int_token(cs@.subrange(lo as int, hi as int), signed, min as int, max as int) == Some(v as int),
        r is None ==> int_token(cs@.subrange(lo as int, hi as int), signed, min as int, max as int) is None,
{
    let (a, b) = trim_range(cs, lo, hi);
    parse_int_range(cs, a, b, signed, min, max)
}

/// Read `num_entry` integer entries of `field` from the array text `text`.
fn parse_int_array(field: &'static str, text: &[char], num_entry: usize, signed: bool, min: i128, max: i128) -> (r: Result<Vec<i128>, ParseDetail>)
    requires
        -0x1_0000_0000_0000_0000 <= min <= 0 <= max <= 0x1_0000_0000_0000_0000,
    ensures
        r matches Ok(v) ==> int_array_spec(field, text@, num_entry as int, signed, min as int, max as int) == Ok::<Seq<int>, DetailModel>(v@.map_values(|x: i128| x as int)),
        r matches Err(d) ==> int_array_spec(field, text@, num_entry as int, signed, min as int, max as int) == Err::<Seq<int>, DetailModel>(d.model()),
{
    let n = text.len();
    assert(text@.subrange(0, n as int) =~= text@);
    let (a, b) = trim_range(text, 0, n);
    let ghost tr = trim(text@);
    if a == b {
        if num_entry > 0 {
            return Err(ParseDetail::EmptyArray { field, num_entry });
        }
        let empty: Vec<i128> = Vec::new();
        assert(empty@.map_values(|x: i128| x as int) =~= Seq::<int>::empty());
        return Ok(empty);
    }
    let toks = split_tokens(text, a, b);
    if toks.len() < num_entry {
        return Err(ParseDetail::TooFewEntries { field, expected: num_entry, found: toks.len() });
    }
    let ghost tk = tokens_of(tr);
    let mut out: Vec<i128> = Vec::with_capacity(num_entry);
    let mut i: usize = 0;
    while i < num_entry
        invariant
            i <= num_entry <= toks@.len(),
            a <= b,
            tr == trim(text@),
            tr == text@.subrange(a as int, b as int),
            tr.len() > 0,
            tk == tokens_of(tr),
            toks@.len() == tk.len(),
            forall|j: int|
                0 <= j < toks@.len() ==> {
                    &&& a <= (#[trigger] toks@[j]).0 <= toks@[j].1 <= b
                    &&& text@.subrange(toks@[j].0 as int, toks@[j].1 as int) == tk[j]
                },
            b <= text@.len(),
            -0x1_0000_0000_0000_0000 <= min <= 0 <= max <= 0x1_0000_0000_0000_0000,
            out@.len() == i,
            forall|j: int| 0 <= j < i ==> int_token(tk[j], signed, min as int, max as int) == Some(#[trigger] out@[j] as int),
            first_bad_int(tk, 0, num_entry as int, signed, min as int, max as int) == first_bad_int(tk, i as int, num_entry as int, signed, min as int, max as int),
        decreases num_entry - i,
    {
        let (s, e) = toks[i];
        match parse_int_token(text, s, e, signed, min, max) {
            Some(v) => {
                out.push(v);
            },
            None => {
                let token = string_from_range(text, s, e);
                assert(first_bad_int(tk, i as int, num_entry as int, signed, min as int, max as int) == Some(i as int));
                return Err(ParseDetail::CannotParseNumber { field, token });
            },
        }
        i = i + 1;
    }
    assert(out@.map_values(|x: i128| x as int) =~= Seq::new(num_entry as nat, |j: int| int_token(tk[j], signed, min as int, max as int)->0));
    Ok(out)
}

/// Read `num_entry` floating-point entries of `field` from the array text
/// `text`, as their literal texts.
fn parse_float_array(field: &'static str, text: &[char], num_entry: usize) -> (r: Result<Vec<String>, ParseDetail>)
    ensures
        r matches Ok(v) ==> float_array_spec(field, text@, num_entry as int) == Ok::<Seq<Seq<char>>, DetailModel>(views(v@)),
        r matches Err(d) ==> float_array_spec(field, text@, num_entry as int) == Err::<Seq<Seq<char>>, DetailModel>(d.model()),
{
    let n = text.len();
    assert(text@.subrange(0, n as int) =~= text@);
    let (a, b) = trim_range(text, 0, n);
    let ghost tr = trim(text@);
    if a == b {
        if num_entry > 0 {
            return Err(ParseDetail::EmptyArray { field, num_entry });
        }
        let empty: Vec<String> = Vec::new();
        assert(views(empty@) =~= Seq::<Seq<char>>::empty());
        return Ok(empty);
    }
    let toks = split_tokens(text, a, b);
    if toks.len() < num_entry {
        return Err(ParseDetail::TooFewEntries { field, expected: num_entry, found: toks.len() });
    }
    let ghost tk = tokens_of(tr);
    let mut out: Vec<String> = Vec::with_capacity(num_entry);
    let mut i: usize = 0;
    while i < num_entry
        invariant
            i <= num_entry <= toks@.len(),
            a <= b,
            tr == trim(text@),
            tr == text@.subrange(a as int, b as int),
            tr.len() > 0,
            tk == tokens_of(tr),
            toks@.len() == tk.len(),
            forall|j: int|
                0 <= j < toks@.len() ==> {
                    &&& a <= (#[trigger] toks@[j]).0 <= toks@[j].1 <= b
                    &&& text@.subrange(toks@[j].0 as int, toks@[j].1 as int) == tk[j]
                },
            b <= text@.len(),
            out@.len() == i,
            forall|j: int| 0 <= j < i ==> float_token(tk[j]) == Some(#[trigger] out@[j]@),
            first_bad_float(tk, 0, num_entry as int) == first_bad_float(tk, i as int, num_entry as int),
        decreases num_entry - i,
    {
        let (s, e) = toks[i];
        let (ts, te) = trim_range(text, s, e);
        if is_float_literal_range(text, ts, te) {
            out.push(string_from_range(text, ts, te));
        } else {
            let token = string_from_range(text, s, e);
            assert(first_bad_float(tk, i as int, num_entry as int) == Some(i as int));
            return Err(ParseDetail::CannotParseNumber { field, token });
        }
        i = i + 1;
    }
    assert(views(out@) =~= Seq::new(num_entry as nat, |j: int| float_token(tk[j])->0));
    Ok(out)
}

/// The integer values of a sequence of `i8`.
pub open spec fn ints_i8(v: Seq<i8>) -> Seq<int> {
    v.map_values(|x: i8| x as int)
}

/// The integer values of a sequence of `i32`.
pub open spec fn ints_i32(v: Seq<i32>) -> Seq<int> {
    v.map_values(|x: i32| x as int)
}

/// The integer values of a sequence of `u32`.
pub open spec fn ints_u32(v: Seq<u32>) -> Seq<int> {
    v.map_values(|x: u32| x as int)
}

/// The integer values of a sequence of `u64`.
pub open spec fn ints_u64(v: Seq<u64>) -> Seq<int> {
    v.map_values(|x: u64| x as int)
}

proof fn lemma_int_array_in_range(field: &'static str, text: Seq<char>, n: int, signed: bool, min: int, max: int, v: Seq<int>)
    requires
        n >= 0,
        int_array_spec(field, text, n, signed, min, max) == Ok::<Seq<int>, DetailModel>(v),
    ensures
        forall|i: int| 0 <= i < v.len() ==> min <= #[trigger] v[i] <= max,
{
    let toks = tokens_of(trim(text));
    if trim(text).len() > 0 {
        assert(array_shape_spec(field, text, n) is None);
        assert(first_bad_int(toks, 0, n, signed, min, max) is None);
        assert(v =~= Seq::new(n as nat, |i: int| int_token(toks[i], signed, min, max)->0));
        lemma_first_bad_int_none(toks, 0, n, signed, min, max);
        assert forall|i: int| 0 <= i < v.len() implies min <= #[trigger] v[i] <= max by {
            assert(int_token(toks[i], signed, min, max) is Some);
            assert(v[i] == int_token(toks[i], signed, min, max)->0);
        }
    }
}

proof fn lemma_first_bad_int_none(toks: Seq<Seq<char>>, i: int, n: int, signed: bool, min: int, max: int)
    ensures
        first_bad_int(toks, i, n, signed, min, max) is None ==> forall|j: int|
            i <= j < n ==> #[trigger] int_token(toks[j], signed, min, max) is Some,
    decreases n - i,
{
    if i < n {
        lemma_first_bad_int_none(toks, i + 1, n, signed, min, max);
    }
}

/// Read `num_entry` `i8` entries of `field`.
fn parse_i8_array(field: &'static str, text: &[char], num_entry: usize) -> (r: Result<Vec<i8>, ParseDetail>)
    ensures
        r matches Ok(v) ==> int_array_spec(field, text@, num_entry as int, true, -128, 127) == Ok::<Seq<int>, DetailModel>(ints_i8(v@)),
        r matches Err(d) ==> int_array_spec(field, text@, num_entry as int, true, -128, 127) == Err::<Seq<int>, DetailModel>(d.model()),
{
    let wide = parse_int_array(field, text, num_entry, true, -128, 127)?;
    proof {
        lemma_int_array_in_range(field, text@, num_entry as int, true, -128, 127, wide@.map_values(|x: i128| x as int));
    }
    assert forall|j: int| 0 <= j < wide@.len() implies -128 <= #[trigger] wide@[j] <= 127 by {
        assert(wide@.map_values(|x: i128| x as int)[j] == wide@[j] as int);
        assert(wide@.map_values(|x: i128| x as int).len() == wide@.len());
    }
    let mut out: Vec<i8> = Vec::with_capacity(wide.len());
    let mut i: usize = 0;
    while i < wide.len()
        invariant
            i <= wide@.len(),
            forall|j: int| 0 <= j < wide@.len() ==> -128 <= #[trigger] wide@[j] <= 127,
            out@.len() == i,
            forall|j: int| 0 <= j < i ==> #[trigger] out@[j] as int == wide@[j] as int,
        decreases wide@.len() - i,
    {
        out.push(wide[i] as i8);
        i = i + 1;
    }
    assert(ints_i8(out@) =~= wide@.map_values(|x: i128| x as int));
    Ok(out)
}

/// Read `num_entry` `i32` entries of `field`.
fn parse_i32_array(field: &'static str, text: &[char], num_entry: usize) -> (r: Result<Vec<i32>, ParseDetail>)
    ensures
        r matches Ok(v) ==> int_array_spec(field, text@, num_entry as int, true, -0x8000_0000, 0x7fff_ffff) == Ok::<Seq<int>, DetailModel>(ints_i32(v@)),
        r matches Err(d) ==> int_array_spec(field, text@, num_entry as int, true, -0x8000_0000, 0x7fff_ffff) == Err::<Seq<int>, DetailModel>(d.model()),
{
    let wide = parse_int_array(field, text, num_entry, true, -0x8000_0000, 0x7fff_ffff)?;
    proof {
        lemma_int_array_in_range(field, text@, num_entry as int, true, -0x8000_0000, 0x7fff_ffff, wide@.map_values(|x: i128| x as int));
    }
    assert forall|j: int| 0 <= j < wide@.len() implies -0x8000_0000 <= #[trigger] wide@[j] <= 0x7fff_ffff by {
        assert(wide@.map_values(|x: i128| x as int)[j] == wide@[j] as int);
        assert(wide@.map_values(|x: i128| x as int).len() == wide@.len());
    }
    let mut out: Vec<i32> = Vec::with_capacity(wide.len());
    let mut i: usize = 0;
    while i < wide.len()
        invariant
            i <= wide@.len(),
            forall|j: int| 0 <= j < wide@.len() ==> -0x8000_0000 <= #[trigger] wide@[j] <= 0x7fff_ffff,
            out@.len() == i,
            forall|j: int| 0 <= j < i ==> #[trigger] out@[j] as int == wide@[j] as int,
        decreases wide@.len() - i,
    {
        out.push(wide[i] as i32);
        i = i + 1;
    }
    assert(ints_i32(out@) =~= wide@.map_values(|x: i128| x as int));
    Ok(out)
}

/// Read `num_entry` `u32` entries of `field`.
fn parse_u32_array(field: &'static str, text: &[char], num_entry: usize) -> (r: Result<Vec<u32>, ParseDetail>)
    ensures
        r matches Ok(v) ==> int_array_spec(field, text@, num_entry as int, false, 0, 0xffff_ffff) == Ok::<Seq<int>, DetailModel>(ints_u32(v@)),
        r matches Err(d) ==> int_array_spec(field, text@, num_entry as int, false, 0, 0xffff_ffff) == Err::<Seq<int>, DetailModel>(d.model()),
{
    let wide = parse_int_array(field, text, num_entry, false, 0, 0xffff_ffff)?;
    proof {
        lemma_int_array_in_range(field, text@, num_entry as int, false, 0, 0xffff_ffff, wide@.map_values(|x: i128| x as int));
    }
    assert forall|j: int| 0 <= j < wide@.len() implies 0 <= #[trigger] wide@[j] <= 0xffff_ffff by {
        assert(wide@.map_values(|x: i128| x as int)[j] == wide@[j] as int);
        assert(wide@.map_values(|x: i128| x as int).len() == wide@.len());
    }
    let mut out: Vec<u32> = Vec::with_capacity(wide.len());
    let mut i: usize = 0;
    while i < wide.len()
        invariant
            i <= wide@.len(),
            forall|j: int| 0 <= j < wide@.len() ==> 0 <= #[trigger] wide@[j] <= 0xffff_ffff,
            out@.len() == i,
            forall|j: int| 0 <= j < i ==> #[trigger] out@[j] as int == wide@[j] as int,
        decreases wide@.len() - i,
    {
        out.push(wide[i] as u32);
        i = i + 1;
    }
    assert(ints_u32(out@) =~= wide@.map_values(|x: i128| x as int));
    Ok(out)
}

/// Read `num_entry` `u64` entries of `field`.
fn parse_u64_array(field: &'static str, text: &[char], num_entry: usize) -> (r: Result<Vec<u64>, ParseDetail>)
    ensures
        r matches Ok(v) ==> int_array_spec(field, text@, num_entry as int, false, 0, 0xffff_ffff_ffff_ffff) == Ok::<Seq<int>, DetailModel>(ints_u64(v@)),
        r matches Err(d) ==> int_array_spec(field, text@, num_entry as int, false, 0, 0xffff_ffff_ffff_ffff) == Err::<Seq<int>, DetailModel>(d.model()),
{
    let wide = parse_int_array(field, text, num_entry, false, 0, 0xffff_ffff_ffff_ffff)?;
    proof {
        lemma_int_array_in_range(field, text@, num_entry as int, false, 0, 0xffff_ffff_ffff_ffff, wide@.map_values(|x: i128| x as int));
    }
    assert forall|j: int| 0 <= j < wide@.len() implies 0 <= #[trigger] wide@[j] <= 0xffff_ffff_ffff_ffff by {
        assert(wide@.map_values(|x: i128| x as int)[j] == wide@[j] as int);
        assert(wide@.map_values(|x: i128| x as int).len() == wide@.len());
    }
    let mut out: Vec<u64> = Vec::with_capacity(wide.len());
    let mut i: usize = 0;
    while i < wide.len()
        invariant
            i <= wide@.len(),
            forall|j: int| 0 <= j < wide@.len() ==> 0 <= #[trigger] wide@[j] <= 0xffff_ffff_ffff_ffff,
            out@.len() == i,
            forall|j: int| 0 <= j < i ==> #[trigger] out@[j] as int == wide@[j] as int,
        decreases wide@.len() - i,
    {
        out.push(wide[i] as u64);
        i = i + 1;
    }
    assert(ints_u64(out@) =~= wide@.map_values(|x: i128| x as int));
    Ok(out)
}

/// Reading one `i32` scalar of `field` whose text is `token`.
pub open spec fn i32_scalar_spec(field: &'static str, token: Seq<char>) -> Result<int, DetailModel> {
    match int_token(token, true, -0x8000_0000, 0x7fff_ffff) {
        Some(v) => Ok(v),
        None => Err(DetailModel::CannotParseNumber { field, token }),
    }
}

/// Parse one `i32` scalar of `field` (trimmed first).
fn parse_num_i32(field: &'static str, token: &[char]) -> (r: Result<i32, ParseDetail>)
    ensures
        r matches Ok(v) ==> i32_scalar_spec(field, token@) == Ok::<int, DetailModel>(v as int),
        r matches Err(d) ==> i32_scalar_spec(field, token@) == Err::<int, DetailModel>(d.model()),
{
    let n = token.len();
    assert(token@.subrange(0, n as int) =~= token@);
    match parse_int_token(token, 0, n, true, -0x8000_0000, 0x7fff_ffff) {
        Some(v) => Ok(v as i32),
        None => Err(ParseDetail::CannotParseNumber { field, token: string_from_range(token, 0, n) }),
    }
}

/// The character views of `key=value` entries.
pub open spec fn entry_views(d: Seq<(Vec<char>, Vec<char>)>) -> Seq<(Seq<char>, Seq<char>)> {
    d.map_values(|p: (Vec<char>, Vec<char>)| (p.0@, p.1@))
}

/// The value of `key` in a dictionary built by inserting `entries` in order
/// (a later entry replaces an earlier one with the same key).
pub open spec fn dict_get(entries: Seq<(Seq<char>, Seq<char>)>, key: Seq<char>) -> Option<Seq<char>>
    decreases entries.len(),
{
    if entries.len() == 0 {
        None
    } else if entries.last().0 == key {
        Some(entries.last().1)
    } else {
        dict_get(entries.drop_last(), key)
    }
}

/// The index of the entry that holds the value of `key`.
fn dict_lookup(entries: &[(Vec<char>, Vec<char>)], key: &str) -> (r: Option<usize>)
    ensures
        r matches Some(i) ==> i < entries@.len() && dict_get(entry_views(entries@), key@) == Some(entries@[i as int].1@),
        r is None ==> dict_get(entry_views(entries@), key@) is None,
{
    let k = chars_of(key);
    let mut i = entries.len();
    assert(entry_views(entries@).subrange(0, i as int) =~= entry_views(entries@));
    while i > 0
        invariant
            i <= entries@.len(),
            k@ == key@,
            dict_get(entry_views(entries@), key@) == dict_get(entry_views(entries@).subrange(0, i as int), key@),
        decreases i,
    {
        let ghost sub = entry_views(entries@).subrange(0, i as int);
        let n = entries[i - 1].0.len();
        assert(entries[i - 1 as int].0@.subrange(0, n as int) =~= entries[i - 1 as int].0@);
        if range_eq(entries[i - 1].0.as_slice(), 0, n, k.as_slice()) {
            return Some(i - 1);
        }
        assert(sub.drop_last() =~= entry_views(entries@).subrange(0, i - 1));
        i = i - 1;
    }
    assert(entry_views(entries@).subrange(0, 0) =~= Seq::<(Seq<char>, Seq<char>)>::empty());
    None
}

/// A required key: its value, or [`DetailModel::MissingKey`].
pub open spec fn require_spec(entries: Seq<(Seq<char>, Seq<char>)>, key: &'static str) -> Result<Seq<char>, DetailModel> {
    match dict_get(entries, key@) {
        Some(v) => Ok(v),
        None => Err(DetailModel::MissingKey { key }),
    }
}

/// Look up a required key, returning the index of its entry or a typed error.
fn require(entries: &[(Vec<char>, Vec<char>)], key: &'static str) -> (r: Result<usize, ParseDetail>)
    ensures
        r matches Ok(i) ==> i < entries@.len() && require_spec(entry_views(entries@), key) == Ok::<Seq<char>, DetailModel>(entries@[i as int].1@),
        r matches Err(d) ==> require_spec(entry_views(entries@), key) == Err::<Seq<char>, DetailModel>(d.model()),
{
    match dict_lookup(entries, key) {
        Some(i) => Ok(i),
        None => Err(ParseDetail::MissingKey { key }),
    }
}

/// One parsed LightGBM tree, with the raw negative-index leaf encoding of
/// LightGBM preserved. Floating-point fields hold their literal texts.
#[derive(Debug, Clone, Default)]
pub struct LGBTree {
    /// Number of leaves; determines every array length below.
    pub num_leaves: i32,
    /// Number of categorical splits.
    pub num_cat: i32,
    /// Per-leaf output value literals (length `num_leaves`).
    pub leaf_value: Vec<String>,
    /// Per-internal-node decision-type bitfield (length `num_leaves - 1`).
    pub decision_type: Vec<i8>,
    /// Categorical-split boundaries (length `num_cat + 1`).
    pub cat_boundaries: Vec<u64>,
    /// Categorical-split bitsets (length `cat_boundaries.last()`).
    pub cat_threshold: Vec<u32>,
    /// Per-internal-node split feature index (length `num_leaves - 1`).
    pub split_feature: Vec<i32>,
    /// Per-internal-node threshold literals (length `num_leaves - 1`).
    pub threshold: Vec<String>,
    /// Per-internal-node left child (negative: leaf `!child`).
    pub left_child: Vec<i32>,
    /// Per-internal-node right child (negative: leaf `!child`).
    pub right_child: Vec<i32>,
    /// Per-internal-node split gain literals (length `num_leaves - 1`, or empty).
    pub split_gain: Vec<String>,
    /// Per-internal-node sample count (length `num_leaves - 1`, or empty).
    pub internal_count: Vec<i32>,
    /// Per-leaf sample count (length `num_leaves`, or empty).
    pub leaf_count: Vec<i32>,
}

/// The mathematical content of an [`LGBTree`].
#[verifier::ext_equal]
pub struct TreeModel {
    pub num_leaves: int,
    pub num_cat: int,
    pub leaf_value: Seq<Seq<char>>,
    pub decision_type: Seq<int>,
    pub cat_boundaries: Seq<int>,
    pub cat_threshold: Seq<int>,
    pub split_feature: Seq<int>,
    pub threshold: Seq<Seq<char>>,
    pub left_child: Seq<int>,
    pub right_child: Seq<int>,
    pub split_gain: Seq<Seq<char>>,
    pub internal_count: Seq<int>,
    pub leaf_count: Seq<int>,
}

impl LGBTree {
    /// The mathematical content of this tree.
    pub open spec fn model(&self) -> TreeModel {
        TreeModel {
            num_leaves: self.num_leaves as int,
            num_cat: self.num_cat as int,
            leaf_value: views(self.leaf_value@),
            decision_type: ints_i8(self.decision_type@),
            cat_boundaries: ints_u64(self.cat_boundaries@),
            cat_threshold: ints_u32(self.cat_threshold@),
            split_feature: ints_i32(self.split_feature@),
            threshold: views(self.threshold@),
            left_child: ints_i32(self.left_child@),
            right_child: ints_i32(self.right_child@),
            split_gain: views(self.split_gain@),
            internal_count: ints_i32(self.internal_count@),
            leaf_count: ints_i32(self.leaf_count@),
        }
    }
}

/// A required `i32` array of `n` entries under `key` (empty when `n == 0`).
pub open spec fn required_i32s(d: Seq<(Seq<char>, Seq<char>)>, key: &'static str, n: int) -> Result<Seq<int>, DetailModel> {
    if n == 0 {
        Ok(Seq::empty())
    } else {
        match require_spec(d, key) {
            Err(e) => Err(e),
            Ok(t) => int_array_spec(key, t, n, true, -0x8000_0000, 0x7fff_ffff),
        }
    }
}

/// A required floating-point array of `n` entries under `key` (empty when
/// `n == 0`, except for `leaf_value`, which is always required).
pub open spec fn required_floats(d: Seq<(Seq<char>, Seq<char>)>, key: &'static str, n: int) -> Result<Seq<Seq<char>>, DetailModel> {
    match require_spec(d, key) {
        Err(e) => Err(e),
        Ok(t) => float_array_spec(key, t, n),
    }
}

/// An optional `i32` array of `n` entries under `key`: empty when `n == 0`,
/// when the key is absent, or when its text is blank.
pub open spec fn optional_i32s(d: Seq<(Seq<char>, Seq<char>)>, key: &'static str, n: int) -> Result<Seq<int>, DetailModel> {
    if n == 0 {
        Ok(Seq::empty())
    } else {
        match dict_get(d, key@) {
            Some(v) => if trim(v).len() > 0 {
                int_array_spec(key, v, n, true, -0x8000_0000, 0x7fff_ffff)
            } else {
                Ok(Seq::empty())
            },
            None => Ok(Seq::empty()),
        }
    }
}

/// An optional floating-point array of `n` entries under `key`.
pub open spec fn optional_floats(d: Seq<(Seq<char>, Seq<char>)>, key: &'static str, n: int) -> Result<Seq<Seq<char>>, DetailModel> {
    if n == 0 {
        Ok(Seq::empty())
    } else {
        match dict_get(d, key@) {
            Some(v) => if trim(v).len() > 0 {
                float_array_spec(key, v, n)
            } else {
                Ok(Seq::empty())
            },
            None => Ok(Seq::empty()),
        }
    }
}

/// The decision types of `n` internal nodes: all zero when the key is absent.
pub open spec fn decision_types(d: Seq<(Seq<char>, Seq<char>)>, n: int) -> Result<Seq<int>, DetailModel> {
    if n == 0 {
        Ok(Seq::empty())
    } else {
        match dict_get(d, "decision_type"@) {
            None => Ok(Seq::new(n as nat, |i: int| 0)),
            Some(v) => int_array_spec("decision_type", v, n, true, -128, 127),
        }
    }
}

/// The categorical arrays of a tree with `num_cat` categorical splits:
/// `num_cat + 1` boundaries, then as many bitset words as the last boundary.
pub open spec fn categorical_arrays(d: Seq<(Seq<char>, Seq<char>)>, num_cat: int) -> Result<(Seq<int>, Seq<int>), DetailModel> {
    if num_cat > 0 {
        match require_spec(d, "cat_boundaries") {
            Err(e) => Err(e),
            Ok(t) => match int_array_spec("cat_boundaries", t, num_cat + 1, false, 0, 0xffff_ffff_ffff_ffff) {
                Err(e) => Err(e),
                Ok(cb) => match require_spec(d, "cat_threshold") {
                    Err(e) => Err(e),
                    Ok(t2) => {
                        let total = if cb.len() > 0 { (cb.last() as u64) as usize as int } else { 0 };
                        match int_array_spec("cat_threshold", t2, total, false, 0, 0xffff_ffff) {
                            Err(e) => Err(e),
                            Ok(ct) => Ok((cb, ct)),
                        }
                    },
                },
            },
        }
    } else {
        Ok((Seq::empty(), Seq::empty()))
    }
}

/// The tree described by the `key=value` entries `d` of one `Tree=` section,
/// or the first error in reading order: `num_leaves`, `num_cat`, a negative
/// `num_leaves`, `leaf_value`, `decision_type`, the categorical arrays,
/// `split_feature`, `threshold`, `left_child`, `right_child`, `split_gain`,
/// `internal_count`, `leaf_count`. Internal-node arrays have `num_leaves - 1`
/// entries (none for a tree of at most one leaf).
pub open spec fn parse_tree_spec(d: Seq<(Seq<char>, Seq<char>)>) -> Result<TreeModel, DetailModel> {
    match require_spec(d, "num_leaves") {
        Err(e) => Err(e),
        Ok(t) => match i32_scalar_spec("num_leaves", t) {
            Err(e) => Err(e),
            Ok(nl) => match require_spec(d, "num_cat") {
                Err(e) => Err(e),
                Ok(t2) => match i32_scalar_spec("num_cat", t2) {
                    Err(e) => Err(e),
                    Ok(nc) => if nl < 0 {
                        Err(DetailModel::NegativeNumLeaves { num_leaves: nl })
                    } else {
                        let ni = if nl > 0 { nl - 1 } else { 0 };
                        match required_floats(d, "leaf_value", nl) {
                            Err(e) => Err(e),
                            Ok(lv) => match decision_types(d, ni) {
                                Err(e) => Err(e),
                                Ok(dt) => match categorical_arrays(d, nc) {
                                    Err(e) => Err(e),
                                    Ok(cat) => match required_i32s(d, "split_feature", ni) {
                                        Err(e) => Err(e),
                                        Ok(sf) => match (if ni == 0 { Ok(Seq::empty()) } else { required_floats(d, "threshold", ni) }) {
                                            Err(e) => Err(e),
                                            Ok(th) => match required_i32s(d, "left_child", ni) {
                                                Err(e) => Err(e),
                                                Ok(lc) => match required_i32s(d, "right_child", ni) {
                                                    Err(e) => Err(e),
                                                    Ok(rc) => match optional_floats(d, "split_gain", ni) {
                                                        Err(e) => Err(e),
                                                        Ok(sg) => match optional_i32s(d, "internal_count", ni) {
                                                            Err(e) => Err(e),
                                                            Ok(ic) => match optional_i32s(d, "leaf_count", nl) {
                                                                Err(e) => Err(e),
                                                                Ok(lcnt) => Ok(TreeModel {
                                                                    num_leaves: nl,
                                                                    num_cat: nc,
                                                                    leaf_value: lv,
                                                                    decision_type: dt,
                                                                    cat_boundaries: cat.0,
                                                                    cat_threshold: cat.1,
                                                                    split_feature: sf,
                                                                    threshold: th,
                                                                    left_child: lc,
                                                                    right_child: rc,
                                                                    split_gain: sg,
                                                                    internal_count: ic,
                                                                    leaf_count: lcnt,
                                                                }),
                                                            },
                                                        },
                                                    },
                                                },
                                            },
                                        },
                                    },
                                },
                            },
                        }
                    },
                },
            },
        },
    }
}

fn required_i32s_exec(d: &[(Vec<char>, Vec<char>)], key: &'static str, n: usize) -> (r: Result<Vec<i32>, ParseDetail>)
    ensures
        r matches Ok(v) ==> required_i32s(entry_views(d@), key, n as int) == Ok::<Seq<int>, DetailModel>(ints_i32(v@)),
        r matches Err(e) ==> required_i32s(entry_views(d@), key, n as int) == Err::<Seq<int>, DetailModel>(e.model()),
{
    if n == 0 {
        let v: Vec<i32> = Vec::new();
        assert(ints_i32(v@) =~= Seq::<int>::empty());
        return Ok(v);
    }
    let i = require(d, key)?;
    parse_i32_array(key, d[i].1.as_slice(), n)
}

fn required_floats_exec(d: &[(Vec<char>, Vec<char>)], key: &'static str, n: usize) -> (r: Result<Vec<String>, ParseDetail>)
    ensures
        r matches Ok(v) ==> required_floats(entry_views(d@), key, n as int) == Ok::<Seq<Seq<char>>, DetailModel>(views(v@)),
        r matches Err(e) ==> required_floats(entry_views(d@), key, n as int) == Err::<Seq<Seq<char>>, DetailModel>(e.model()),
{
    let i = require(d, key)?;
    parse_float_array(key, d[i].1.as_slice(), n)
}

fn optional_i32s_exec(d: &[(Vec<char>, Vec<char>)], key: &'static str, n: usize) -> (r: Result<Vec<i32>, ParseDetail>)
    ensures
        r matches Ok(v) ==> optional_i32s(entry_views(d@), key, n as int) == Ok::<Seq<int>, DetailModel>(ints_i32(v@)),
        r matches Err(e) ==> optional_i32s(entry_views(d@), key, n as int) == Err::<Seq<int>, DetailModel>(e.model()),
{
    let empty: Vec<i32> = Vec::new();
    assert(ints_i32(empty@) =~= Seq::<int>::empty());
    if n == 0 {
        return Ok(empty);
    }
    match dict_lookup(d, key) {
        Some(i) => {
            let text = d[i].1.as_slice();
            let len = text.len();
            assert(text@.subrange(0, len as int) =~= text@);
            let (a, b) = trim_range(text, 0, len);
            if a < b {
                parse_i32_array(key, text, n)
            } else {
                Ok(empty)
            }
        },
        None => Ok(empty),
    }
}

fn optional_floats_exec(d: &[(Vec<char>, Vec<char>)], key: &'static str, n: usize) -> (r: Result<Vec<String>, ParseDetail>)
    ensures
        r matches Ok(v) ==> optional_floats(entry_views(d@), key, n as int) == Ok::<Seq<Seq<char>>, DetailModel>(views(v@)),
        r matches Err(e) ==> optional_floats(entry_views(d@), key, n as int) == Err::<Seq<Seq<char>>, DetailModel>(e.model()),
{
    let empty: Vec<String> = Vec::new();
    assert(views(empty@) =~= Seq::<Seq<char>>::empty());
    if n == 0 {
        return Ok(empty);
    }
    match dict_lookup(d, key) {
        Some(i) => {
            let text = d[i].1.as_slice();
            let len = text.len();
            assert(text@.subrange(0, len as int) =~= text@);
            let (a, b) = trim_range(text, 0, len);
            if a < b {
                parse_float_array(key, text, n)
            } else {
                Ok(empty)
            }
        },
        None => Ok(empty),
    }
}

fn decision_types_exec(d: &[(Vec<char>, Vec<char>)], n: usize) -> (r: Result<Vec<i8>, ParseDetail>)
    ensures
        r matches Ok(v) ==> decision_types(entry_views(d@), n as int) == Ok::<Seq<int>, DetailModel>(ints_i8(v@)),
        r matches Err(e) ==> decision_types(entry_views(d@), n as int) == Err::<Seq<int>, DetailModel>(e.model()),
{
    if n == 0 {
        let v: Vec<i8> = Vec::new();
        assert(ints_i8(v@) =~= Seq::<int>::empty());
        return Ok(v);
    }
    match dict_lookup(d, "decision_type") {
        None => {
            let mut v: Vec<i8> = Vec::with_capacity(n);
            let mut k: usize = 0;
            while k < n
                invariant
                    k <= n,
                    v@.len() == k,
                    forall|j: int| 0 <= j < k ==> #[trigger] v@[j] == 0i8,
                decreases n - k,
            {
                v.push(0i8);
                k = k + 1;
            }
            assert(ints_i8(v@) =~= Seq::new(n as nat, |i: int| 0int));
            Ok(v)
        },
        Some(i) => parse_i8_array("decision_type", d[i].1.as_slice(), n),
    }
}

fn categorical_arrays_exec(d: &[(Vec<char>, Vec<char>)], num_cat: i32) -> (r: Result<(Vec<u64>, Vec<u32>), ParseDetail>)
    ensures
        r matches Ok(v) ==> categorical_arrays(entry_views(d@), num_cat as int) == Ok::<(Seq<int>, Seq<int>), DetailModel>((ints_u64(v.0@), ints_u32(v.1@))),
        r matches Err(e) ==> categorical_arrays(entry_views(d@), num_cat as int) == Err::<(Seq<int>, Seq<int>), DetailModel>(e.model()),
{
    if num_cat > 0 {
        let i = require(d, "cat_boundaries")?;
        let cb = parse_u64_array("cat_boundaries", d[i].1.as_slice(), (num_cat as usize) + 1)?;
        let j = require(d, "cat_threshold")?;
        let total: usize = if cb.len() > 0 { cb[cb.len() - 1] as usize } else { 0 };
        assert(cb@.len() > 0 ==> ints_u64(cb@).last() == cb@[cb@.len() - 1] as int);
        let ct = parse_u32_array("cat_threshold", d[j].1.as_slice(), total)?;
        Ok((cb, ct))
    } else {
        let cb: Vec<u64> = Vec::new();
        let ct: Vec<u32> = Vec::new();
        assert(ints_u64(cb@) =~= Seq::<int>::empty());
        assert(ints_u32(ct@) =~= Seq::<int>::empty());
        Ok((cb, ct))
    }
}

/// Attach the tree location to a parse error detail.
fn tree_err(idx: usize, detail: ParseDetail) -> (e: LgbError)
    ensures
        e == (LgbError::Parse { line: ParseLocation::Tree(idx), detail }),
{
    LgbError::Parse { line: ParseLocation::Tree(idx), detail }
}

/// Parse the `key=value` entries of the tree section with index `idx` into an
/// [`LGBTree`] (see [`parse_tree_spec`]).
fn parse_tree(idx: usize, d: &[(Vec<char>, Vec<char>)]) -> (r: Result<LGBTree, LgbError>)
    ensures
        r matches Ok(t) ==> parse_tree_spec(entry_views(d@)) == Ok::<TreeModel, DetailModel>(t.model()),
        r matches Err(e) ==> (e matches LgbError::Parse { line, detail } && line == ParseLocation::Tree(idx)
            && parse_tree_spec(entry_views(d@)) == Err::<TreeModel, DetailModel>(detail.model())),
{
    let i = match require(d, "num_leaves") {
        Ok(i) => i,
        Err(e) => return Err(tree_err(idx, e)),
    };
    let num_leaves = match parse_num_i32("num_leaves", d[i].1.as_slice()) {
        Ok(v) => v,
        Err(e) => return Err(tree_err(idx, e)),
    };
    let j = match require(d, "num_cat") {
        Ok(j) => j,
        Err(e) => return Err(tree_err(idx, e)),
    };
    let num_cat = match parse_num_i32("num_cat", d[j].1.as_slice()) {
        Ok(v) => v,
        Err(e) => return Err(tree_err(idx, e)),
    };
    if num_leaves < 0 {
        return Err(tree_err(idx, ParseDetail::NegativeNumLeaves { num_leaves }));
    }
    let n_leaf = num_leaves as usize;
    let n_internal: usize = if n_leaf > 0 { n_leaf - 1 } else { 0 };
    let leaf_value = match required_floats_exec(d, "leaf_value", n_leaf) {
        Ok(v) => v,
        Err(e) => return Err(tree_err(idx, e)),
    };
    let decision_type = match decision_types_exec(d, n_internal) {
        Ok(v) => v,
        Err(e) => return Err(tree_err(idx, e)),
    };
    let (cat_boundaries, cat_threshold) = match categorical_arrays_exec(d, num_cat) {
        Ok(v) => v,
        Err(e) => return Err(tree_err(idx, e)),
    };
    let split_feature = match required_i32s_exec(d, "split_feature", n_internal) {
        Ok(v) => v,
        Err(e) => return Err(tree_err(idx, e)),
    };
    let threshold = if n_internal == 0 {
        let v: Vec<String> = Vec::new();
        assert(views(v@) =~= Seq::<Seq<char>>::empty());
        v
    } else {
        match required_floats_exec(d, "threshold", n_internal) {
            Ok(v) => v,
            Err(e) => return Err(tree_err(idx, e)),
        }
    };
    let left_child = match required_i32s_exec(d, "left_child", n_internal) {
        Ok(v) => v,
        Err(e) => return Err(tree_err(idx, e)),
    };
    let right_child = match required_i32s_exec(d, "right_child", n_internal) {
        Ok(v) => v,
        Err(e) => return Err(tree_err(idx, e)),
    };
    let split_gain = match optional_floats_exec(d, "split_gain", n_internal) {
        Ok(v) => v,
        Err(e) => return Err(tree_err(idx, e)),
    };
    let internal_count = match optional_i32s_exec(d, "internal_count", n_internal) {
        Ok(v) => v,
        Err(e) => return Err(tree_err(idx, e)),
    };
    let leaf_count = match optional_i32s_exec(d, "leaf_count", n_leaf) {
        Ok(v) => v,
        Err(e) => return Err(tree_err(idx, e)),
    };
    let tree = LGBTree {
        num_leaves,
        num_cat,
        leaf_value,
        decision_type,
        cat_boundaries,
        cat_threshold,
        split_feature,
        threshold,
        left_child,
        right_child,
        split_gain,
        internal_count,
        leaf_count,
    };
    Ok(tree)
}

/// The key and value of a line: the text before and after its first `=`; a
/// line without `=` is a key with an empty value.
pub open spec fn entry_of(line: Seq<char>) -> (Seq<char>, Seq<char>) {
    let k = index_of(line, '=');
    if k < line.len() {
        (line.subrange(0, k), line.subrange(k + 1, line.len() as int))
    } else {
        (line, Seq::empty())
    }
}

/// The sections of a model text: the global `key=value` entries, and the
/// entries of each `Tree=` section in file order.
pub struct Sections {
    pub global: Seq<(Seq<char>, Seq<char>)>,
    pub trees: Seq<Seq<(Seq<char>, Seq<char>)>>,
}

/// Reading one line: trailing whitespace is dropped and a blank line is
/// skipped; a line whose key is `Tree` opens a new tree section; any other
/// entry goes to the open tree section, or to the global section before the
/// first tree.
pub open spec fn read_line(st: Sections, raw: Seq<char>) -> Sections {
    let line = trim_end(raw);
    if line.len() == 0 {
        st
    } else {
        let e = entry_of(line);
        if e.0 == "Tree"@ {
            Sections { global: st.global, trees: st.trees.push(Seq::empty()) }
        } else if st.trees.len() > 0 {
            Sections {
                global: st.global,
                trees: st.trees.update(st.trees.len() - 1, st.trees.last().push(e)),
            }
        } else {
            Sections { global: st.global.push(e), trees: st.trees }
        }
    }
}

/// Reading the lines of `s` (separated by `\n`) in order, from state `st`.
pub open spec fn read_lines(s: Seq<char>, st: Sections) -> Sections
    decreases s.len(),
{
    if s.len() == 0 {
        st
    } else {
        let k = index_of(s, '\n');
        proof {
            lemma_index_of_bounds(s, '\n');
        }
        let st2 = read_line(st, s.subrange(0, k));
        if k < s.len() {
            read_lines(s.subrange(k + 1, s.len() as int), st2)
        } else {
            st2
        }
    }
}

/// The sections of the model text `s`.
pub open spec fn sections_of(s: Seq<char>) -> Sections {
    read_lines(s, Sections { global: Seq::empty(), trees: Seq::empty() })
}

/// The character views of the entries of several sections.
pub open spec fn section_views(t: Seq<Vec<(Vec<char>, Vec<char>)>>) -> Seq<Seq<(Seq<char>, Seq<char>)>> {
    t.map_values(|d: Vec<(Vec<char>, Vec<char>)>| entry_views(d@))
}

/// The sections read so far: the finished tree sections `done`, followed by
/// the open one `cur` when a tree section is open.
pub open spec fn state_of(
    global: Seq<(Vec<char>, Vec<char>)>,
    done: Seq<Vec<(Vec<char>, Vec<char>)>>,
    cur: Seq<(Vec<char>, Vec<char>)>,
    in_tree: bool,
) -> Sections {
    Sections {
        global: entry_views(global),
        trees: if in_tree {
            section_views(done).push(entry_views(cur))
        } else {
            section_views(done)
        },
    }
}

/// Split a model text into its global entries and tree sections.
fn split_sections(cs: &[char]) -> (r: (Vec<(Vec<char>, Vec<char>)>, Vec<Vec<(Vec<char>, Vec<char>)>>))
    ensures
        sections_of(cs@) == (Sections { global: entry_views(r.0@), trees: section_views(r.1@) }),
{
    let tree_word = chars_of("Tree");
    let mut global: Vec<(Vec<char>, Vec<char>)> = Vec::new();
    let mut done: Vec<Vec<(Vec<char>, Vec<char>)>> = Vec::new();
    let mut cur: Vec<(Vec<char>, Vec<char>)> = Vec::new();
    let mut in_tree = false;
    let n = cs.len();
    let mut k: usize = 0;
    assert(cs@.subrange(0, n as int) =~= cs@);
    assert(entry_views(global@) =~= Seq::<(Seq<char>, Seq<char>)>::empty());
    assert(section_views(done@) =~= Seq::<Seq<(Seq<char>, Seq<char>)>>::empty());
    while k < n
        invariant
            k <= n == cs@.len(),
            tree_word@ == "Tree"@,
            !in_tree ==> done@.len() == 0,
            read_lines(cs@.subrange(k as int, n as int), state_of(global@, done@, cur@, in_tree))
                == sections_of(cs@),
        decreases n - k,
    {
        let ghost rest = cs@.subrange(k as int, n as int);
        let ghost before = state_of(global@, done@, cur@, in_tree);
        let e = index_of_range(cs, k, n, '\n');
        proof {
            lemma_index_of_bounds(rest, '\n');
        }
        assert(rest.subrange(0, e - k) =~= cs@.subrange(k as int, e as int));
        let t = trim_end_range(cs, k, e);
        if k < t {
            let eq = index_of_range(cs, k, t, '=');
            let ghost line = cs@.subrange(k as int, t as int);
            proof {
                lemma_index_of_bounds(line, '=');
            }
            assert(line.subrange(0, eq - k) =~= cs@.subrange(k as int, eq as int));
            let key = chars_from_range(cs, k, eq);
            let value = if eq < t {
                assert(line.subrange(eq - k + 1, line.len() as int) =~= cs@.subrange(eq + 1, t as int));
                chars_from_range(cs, eq + 1, t)
            } else {
                let v: Vec<char> = Vec::new();
                v
            };
            assert(entry_of(line) == (key@, value@));
            if range_eq(cs, k, eq, tree_word.as_slice()) {
                if in_tree {
                    let ghost old_done = done@;
                    done.push(cur);
                    assert(section_views(done@) =~= section_views(old_done).push(entry_views(cur@)));
                }
                cur = Vec::new();
                in_tree = true;
                assert(entry_views(cur@) =~= Seq::<(Seq<char>, Seq<char>)>::empty());
                assert(state_of(global@, done@, cur@, in_tree) =~= read_line(before, rest.subrange(0, e - k)));
            } else if in_tree {
                let ghost old_cur = cur@;
                cur.push((key, value));
                assert(entry_views(cur@) =~= entry_views(old_cur).push((key@, value@)));
                assert(state_of(global@, done@, cur@, in_tree).trees =~= read_line(before, rest.subrange(0, e - k)).trees);
                assert(state_of(global@, done@, cur@, in_tree) =~= read_line(before, rest.subrange(0, e - k)));
            } else {
                let ghost old_global = global@;
                global.push((key, value));
                assert(entry_views(global@) =~= entry_views(old_global).push((key@, value@)));
                assert(state_of(global@, done@, cur@, in_tree) =~= read_line(before, rest.subrange(0, e - k)));
            }
        } else {
            assert(cs@.subrange(k as int, t as int) =~= Seq::<char>::empty());
        }
        assert(state_of(global@, done@, cur@, in_tree) == read_line(before, cs@.subrange(k as int, e as int)));
        if e < n {
            assert(rest.subrange(e - k + 1, rest.len() as int) =~= cs@.subrange(e + 1, n as int));
            k = e + 1;
        } else {
            k = n;
            assert(cs@.subrange(k as int, n as int) =~= Seq::<char>::empty());
        }
    }
    if in_tree {
        let ghost old_done = done@;
        done.push(cur);
        assert(section_views(done@) =~= section_views(old_done).push(entry_views(cur@)));
    }
    (global, done)
}

/// A parsed LightGBM model: the global header fields and the trees.
#[derive(Debug, Clone, Default)]
pub struct LGBModel {
    /// `max_feature_idx` (the feature count is `max_feature_idx + 1`).
    pub max_feature_idx: i32,
    /// `num_class`.
    pub num_class: i32,
    /// Whether the global `average_output` key is present.
    pub average_output: bool,
    /// The objective name (first token of the `objective=` value), or
    /// `custom` when the key is absent.
    pub objective_name: String,
    /// The remaining tokens of the `objective=` value.
    pub objective_params: Vec<String>,
    /// The parsed trees, in file order.
    pub trees: Vec<LGBTree>,
}

/// The mathematical content of an [`LGBModel`].
#[verifier::ext_equal]
pub struct ModelSpec {
    pub max_feature_idx: int,
    pub num_class: int,
    pub average_output: bool,
    pub objective_name: Seq<char>,
    pub objective_params: Seq<Seq<char>>,
    pub trees: Seq<TreeModel>,
}

impl LGBModel {
    /// The mathematical content of this model.
    pub open spec fn model(&self) -> ModelSpec {
        ModelSpec {
            max_feature_idx: self.max_feature_idx as int,
            num_class: self.num_class as int,
            average_output: self.average_output,
            objective_name: self.objective_name@,
            objective_params: views(self.objective_params@),
            trees: self.trees@.map_values(|t: LGBTree| t.model()),
        }
    }
}

/// The objective name and parameters: `custom` with none when the key is
/// absent; otherwise the trimmed value split at its first space, the rest
/// split into its space-separated tokens.
pub open spec fn objective_spec(global: Seq<(Seq<char>, Seq<char>)>) -> (Seq<char>, Seq<Seq<char>>) {
    match dict_get(global, "objective"@) {
        None => ("custom"@, Seq::empty()),
        Some(o) => {
            let t = trim(o);
            let k = index_of(t, ' ');
            (t.subrange(0, k), if k < t.len() { tokens_of(t.subrange(k + 1, t.len() as int)) } else { Seq::empty() })
        },
    }
}

/// The first tree section from index `i` on that does not parse.
pub open spec fn first_bad_tree(ts: Seq<Seq<(Seq<char>, Seq<char>)>>, i: int) -> Option<int>
    decreases ts.len() - i,
{
    if i >= ts.len() {
        None
    } else if parse_tree_spec(ts[i]) is Err {
        Some(i)
    } else {
        first_bad_tree(ts, i + 1)
    }
}

/// The shape that [`parse_lightgbm`] gives every
/// tree: `leaf_value` has `num_leaves` entries, each internal-node array
/// `num_leaves - 1` (none when `num_leaves <= 1`), and each optional count or
/// gain array is either empty or of that length.
pub open spec fn tree_wf(t: LGBTree) -> bool {
    let nl = t.num_leaves as int;
    let ni = if nl > 0 { nl - 1 } else { 0 };
    &&& nl >= 0
    &&& t.leaf_value@.len() == nl
    &&& t.decision_type@.len() == ni
    &&& t.split_feature@.len() == ni
    &&& t.threshold@.len() == ni
    &&& t.left_child@.len() == ni
    &&& t.right_child@.len() == ni
    &&& (t.leaf_count@.len() == 0 || t.leaf_count@.len() == nl)
    &&& (t.internal_count@.len() == 0 || t.internal_count@.len() == ni)
    &&& (t.split_gain@.len() == 0 || t.split_gain@.len() == ni)
}

proof fn lemma_int_array_len(field: &'static str, text: Seq<char>, n: int, signed: bool, min: int, max: int)
    requires
        n >= 0,
    ensures
        int_array_spec(field, text, n, signed, min, max) matches Ok(v) ==> v.len() == n,
{
}

proof fn lemma_float_array_len(field: &'static str, text: Seq<char>, n: int)
    requires
        n >= 0,
    ensures
        float_array_spec(field, text, n) matches Ok(v) ==> v.len() == n,
{
}

/// A tree section that parses gives a tree of the shape [`tree_wf`].
proof fn lemma_parsed_tree_wf(d: Seq<(Seq<char>, Seq<char>)>, t: LGBTree)
    requires
        parse_tree_spec(d) == Ok::<TreeModel, DetailModel>(t.model()),
    ensures
        tree_wf(t),
{
    let nl = t.num_leaves as int;
    let ni = if nl > 0 { nl - 1 } else { 0 };
    assert(nl >= 0);
    match require_spec(d, "leaf_value") {
        Ok(x) => lemma_float_array_len("leaf_value", x, nl),
        Err(_) => {},
    }
    match dict_get(d, "decision_type"@) {
        Some(x) => lemma_int_array_len("decision_type", x, ni, true, -128, 127),
        None => {},
    }
    match require_spec(d, "split_feature") {
        Ok(x) => lemma_int_array_len("split_feature", x, ni, true, -0x8000_0000, 0x7fff_ffff),
        Err(_) => {},
    }
    match require_spec(d, "threshold") {
        Ok(x) => lemma_float_array_len("threshold", x, ni),
        Err(_) => {},
    }
    match require_spec(d, "left_child") {
        Ok(x) => lemma_int_array_len("left_child", x, ni, true, -0x8000_0000, 0x7fff_ffff),
        Err(_) => {},
    }
    match require_spec(d, "right_child") {
        Ok(x) => lemma_int_array_len("right_child", x, ni, true, -0x8000_0000, 0x7fff_ffff),
        Err(_) => {},
    }
    match dict_get(d, "split_gain"@) {
        Some(x) => lemma_float_array_len("split_gain", x, ni),
        None => {},
    }
    match dict_get(d, "internal_count"@) {
        Some(x) => lemma_int_array_len("internal_count", x, ni, true, -0x8000_0000, 0x7fff_ffff),
        None => {},
    }
    match dict_get(d, "leaf_count"@) {
        Some(x) => lemma_int_array_len("leaf_count", x, nl, true, -0x8000_0000, 0x7fff_ffff),
        None => {},
    }
    assert(t.leaf_value@.len() == views(t.leaf_value@).len());
    assert(t.decision_type@.len() == ints_i8(t.decision_type@).len());
    assert(t.split_feature@.len() == ints_i32(t.split_feature@).len());
    assert(t.threshold@.len() == views(t.threshold@).len());
    assert(t.left_child@.len() == ints_i32(t.left_child@).len());
    assert(t.right_child@.len() == ints_i32(t.right_child@).len());
    assert(t.split_gain@.len() == views(t.split_gain@).len());
    assert(t.internal_count@.len() == ints_i32(t.internal_count@).len());
    assert(t.leaf_count@.len() == ints_i32(t.leaf_count@).len());
}

/// The header scalars `(max_feature_idx, num_class)` of the global entries,
/// or the first error: `max_feature_idx` missing or not an `i32`, then the
/// same for `num_class`.
pub open spec fn header_spec(g: Seq<(Seq<char>, Seq<char>)>) -> Result<(int, int), DetailModel> {
    match require_spec(g, "max_feature_idx") {
        Err(e) => Err(e),
        Ok(t) => match i32_scalar_spec("max_feature_idx", t) {
            Err(e) => Err(e),
            Ok(mfi) => match require_spec(g, "num_class") {
                Err(e) => Err(e),
                Ok(t2) => match i32_scalar_spec("num_class", t2) {
                    Err(e) => Err(e),
                    Ok(nc) => Ok((mfi, nc)),
                },
            },
        },
    }
}

/// The trees of the tree sections `ts`, or the index and error of the first
/// section that does not parse.
pub open spec fn trees_spec(ts: Seq<Seq<(Seq<char>, Seq<char>)>>) -> Result<Seq<TreeModel>, (int, DetailModel)> {
    match first_bad_tree(ts, 0) {
        Some(i) => Err((i, parse_tree_spec(ts[i])->Err_0)),
        None => Ok(Seq::new(ts.len(), |i: int| parse_tree_spec(ts[i])->Ok_0)),
    }
}

/// The model described by the text `s`, or the first error: in the global
/// header (see [`header_spec`]), then in the first tree section that does not
/// parse (see [`parse_tree_spec`]).
pub open spec fn parse_model_spec(s: Seq<char>) -> Result<ModelSpec, (ParseLocation, DetailModel)> {
    let sec = sections_of(s);
    let g = sec.global;
    match header_spec(g) {
        Err(e) => Err((ParseLocation::Global, e)),
        Ok(h) => match trees_spec(sec.trees) {
            Err(p) => Err((ParseLocation::Tree(p.0 as usize), p.1)),
            Ok(ts) => Ok(ModelSpec {
                max_feature_idx: h.0,
                num_class: h.1,
                average_output: dict_get(g, "average_output"@) is Some,
                objective_name: objective_spec(g).0,
                objective_params: objective_spec(g).1,
                trees: ts,
            }),
        },
    }
}

proof fn lemma_first_bad_tree(ts: Seq<Seq<(Seq<char>, Seq<char>)>>, i: int, j: int)
    requires
        0 <= i <= j <= ts.len(),
        forall|m: int| i <= m < j ==> parse_tree_spec(#[trigger] ts[m]) is Ok,
    ensures
        first_bad_tree(ts, i) == first_bad_tree(ts, j),
    decreases j - i,
{
    if i < j {
        lemma_first_bad_tree(ts, i + 1, j);
    }
}

/// The objective name and parameters of the global entries.
fn objective_of(global: &[(Vec<char>, Vec<char>)]) -> (r: (String, Vec<String>))
    ensures
        objective_spec(entry_views(global@)) == (r.0@, views(r.1@)),
{
    match dict_lookup(global, "objective") {
        None => {
            let v: Vec<String> = Vec::new();
            assert(views(v@) =~= Seq::<Seq<char>>::empty());
            (String::from_str("custom"), v)
        },
        Some(i) => {
            let o = global[i].1.as_slice();
            let n = o.len();
            assert(o@.subrange(0, n as int) =~= o@);
            let (a, b) = trim_range(o, 0, n);
            let ghost t = o@.subrange(a as int, b as int);
            let k = index_of_range(o, a, b, ' ');
            proof {
                lemma_index_of_bounds(t, ' ');
            }
            assert(t.subrange(0, k - a) =~= o@.subrange(a as int, k as int));
            let name = string_from_range(o, a, k);
            let mut params: Vec<String> = Vec::new();
            if k < b {
                assert(t.subrange(k - a + 1, t.len() as int) =~= o@.subrange(k + 1, b as int));
                let toks = split_tokens(o, k + 1, b);
                let mut j: usize = 0;
                while j < toks.len()
                    invariant
                        j <= toks@.len(),
                        k + 1 <= b <= o@.len(),
                        toks@.len() == tokens_of(o@.subrange(k + 1, b as int)).len(),
                        forall|m: int| 0 <= m < toks@.len() ==> {
                            &&& k + 1 <= (#[trigger] toks@[m]).0 <= toks@[m].1 <= b
                            &&& o@.subrange(toks@[m].0 as int, toks@[m].1 as int) == tokens_of(o@.subrange(k + 1, b as int))[m]
                        },
                        params@.len() == j,
                        forall|m: int| 0 <= m < j ==> (#[trigger] params@[m])@ == tokens_of(o@.subrange(k + 1, b as int))[m],
                    decreases toks@.len() - j,
                {
                    let (p, q) = toks[j];
                    params.push(string_from_range(o, p, q));
                    j = j + 1;
                }
                assert(views(params@) =~= tokens_of(o@.subrange(k + 1, b as int)));
            } else {
                assert(views(params@) =~= Seq::<Seq<char>>::empty());
            }
            (name, params)
        },
    }
}

/// Parse every tree section in order.
fn parse_trees(trees: &[Vec<(Vec<char>, Vec<char>)>]) -> (r: Result<Vec<LGBTree>, LgbError>)
    ensures
        r matches Ok(v) ==> trees_spec(section_views(trees@)) == Ok::<Seq<TreeModel>, (int, DetailModel)>(
            v@.map_values(|t: LGBTree| t.model()),
        ),
        r matches Ok(v) ==> forall|i: int| 0 <= i < v@.len() ==> tree_wf(#[trigger] v@[i]),
        r matches Err(e) ==> (e matches LgbError::Parse { line, detail } && line is Tree
            && trees_spec(section_views(trees@)) == Err::<Seq<TreeModel>, (int, DetailModel)>((line->0 as int, detail.model()))),
{
    let ghost ts = section_views(trees@);
    let mut out: Vec<LGBTree> = Vec::new();
    let mut idx: usize = 0;
    while idx < trees.len()
        invariant
            idx <= trees@.len(),
            ts == section_views(trees@),
            out@.len() == idx,
            forall|m: int| 0 <= m < idx ==> parse_tree_spec(#[trigger] ts[m]) == Ok::<TreeModel, DetailModel>(out@[m].model()),
            forall|m: int| 0 <= m < idx ==> tree_wf(#[trigger] out@[m]),
        decreases trees@.len() - idx,
    {
        assert(ts[idx as int] == entry_views(trees@[idx as int]@));
        match parse_tree(idx, trees[idx].as_slice()) {
            Ok(t) => {
                proof {
                    lemma_parsed_tree_wf(ts[idx as int], t);
                }
                out.push(t);
            },
            Err(e) => {
                proof {
                    lemma_first_bad_tree(ts, 0, idx as int);
                    assert(first_bad_tree(ts, idx as int) == Some(idx as int));
                }
                return Err(e);
            },
        }
        idx = idx + 1;
    }
    proof {
        lemma_first_bad_tree(ts, 0, ts.len() as int);
    }
    assert(out@.map_values(|t: LGBTree| t.model()) =~= Seq::new(ts.len(), |i: int| parse_tree_spec(ts[i])->Ok_0));
    Ok(out)
}

/// Parse a LightGBM text model into an [`LGBModel`] (see [`parse_model_spec`]).
///
/// Each line is split at its first `=`; lines before the first `Tree=` line
/// form the global section, and each `Tree=` line opens a new tree section.
/// A missing key, an unparseable number or a short array is a typed error.
pub fn parse_lightgbm(model_str: &str) -> (r: Result<LGBModel, LgbError>)
    ensures
        r matches Ok(m) ==> parse_model_spec(model_str@) == Ok::<ModelSpec, (ParseLocation, DetailModel)>(m.model()),
        r matches Ok(m) ==> forall|i: int| 0 <= i < m.trees@.len() ==> tree_wf(#[trigger] m.trees@[i]),
        r matches Err(e) ==> (e matches LgbError::Parse { line, detail }
            && parse_model_spec(model_str@) == Err::<ModelSpec, (ParseLocation, DetailModel)>((line, detail.model()))),
{
    let cs = chars_of(model_str);
    let (global, trees) = split_sections(cs.as_slice());
    let (objective_name, objective_params) = objective_of(global.as_slice());
    let i = match require(global.as_slice(), "max_feature_idx") {
        Ok(i) => i,
        Err(e) => return Err(LgbError::Parse { line: ParseLocation::Global, detail: e }),
    };
    let max_feature_idx = match parse_num_i32("max_feature_idx", global[i].1.as_slice()) {
        Ok(v) => v,
        Err(e) => return Err(LgbError::Parse { line: ParseLocation::Global, detail: e }),
    };
    let j = match require(global.as_slice(), "num_class") {
        Ok(j) => j,
        Err(e) => return Err(LgbError::Parse { line: ParseLocation::Global, detail: e }),
    };
    let num_class = match parse_num_i32("num_class", global[j].1.as_slice()) {
        Ok(v) => v,
        Err(e) => return Err(LgbError::Parse { line: ParseLocation::Global, detail: e }),
    };
    let average_output = dict_lookup(global.as_slice(), "average_output").is_some();
    let out = parse_trees(trees.as_slice())?;
    let m = LGBModel { max_feature_idx, num_class, average_output, objective_name, objective_params, trees: out };
    Ok(m)
}

} // verus!
