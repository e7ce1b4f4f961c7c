//! The packed-node decoder of scikit-learn HistGradientBoosting models.
//!
//! Each tree arrives as a raw buffer of packed little-endian node records
//! (no padding) of 52 bytes (32-bit `feature_idx`) or 56 bytes (64-bit
//! `feature_idx`). Fields are read one by one at their offsets:
//!
//! | field                | type    | 52  | 56  |
//! |----------------------|---------|-----|-----|
//! | `value`              | f64     | 0   | 0   |
//! | `count`              | u32     | 8   | 8   |
//! | `feature_idx`        | i32/i64 | 12  | 12  |
//! | `num_threshold`      | f64     | 16  | 20  |
//! | `missing_go_to_left` | u8      | 24  | 28  |
//! | `left`               | u32     | 25  | 29  |
//! | `right`              | u32     | 29  | 33  |
//! | `gain`               | f64     | 33  | 37  |
//! | `is_categorical`     | u8      | 47  | 51  |
//! | `bitset_idx`         | u32     | 48  | 52  |
//!
//! Floating-point fields are kept as their 64-bit patterns.

use vstd::prelude::*;
use crate::search::{first_failing, lemma_first_failing, lemma_no_failure_before};
use crate::sklearn::arrays::{check_outers, lemma_no_mismatch, outer_spec, positive_spec, require_positive};
use crate::sklearn::error::{DecodeFault, SklError};
use crate::sklearn::gradient::{classifier_header, classifier_header_spec, classifier_meta, classifier_metadata, classifier_tree_count};
use crate::sklearn::meta::{filled, BaseScores, ModelMeta};
use crate::task::TaskType;

verus! {

/// The field offsets of one of the two packed node layouts.
#[derive(Debug, Clone, Copy, PartialEq, Eq, Structural)]
pub struct NodeLayout {
    pub itemsize: usize,
    pub feat_is_i64: bool,
    pub off_value: usize,
    pub off_count: usize,
    pub off_feature_idx: usize,
    pub off_num_threshold: usize,
    pub off_missing: usize,
    pub off_left: usize,
    pub off_right: usize,
    pub off_gain: usize,
    pub off_is_categorical: usize,
    pub off_bitset_idx: usize,
}

/// The layout of a node struct of `itemsize` bytes: the fields after
/// `feature_idx` follow it contiguously.
pub open spec fn layout_spec(itemsize: usize) -> Option<NodeLayout> {
    if itemsize == 52 || itemsize == 56 {
        let after: usize = if itemsize == 56 { 20 } else { 16 };
        Some(NodeLayout {
            itemsize,
            feat_is_i64: itemsize == 56,
            off_value: 0,
            off_count: 8,
            off_feature_idx: 12,
            off_num_threshold: after,
            off_missing: (after + 8) as usize,
            off_left: (after + 9) as usize,
            off_right: (after + 13) as usize,
            off_gain: (after + 17) as usize,
            off_is_categorical: (after + 31) as usize,
            off_bitset_idx: (after + 32) as usize,
        })
    } else {
        None
    }
}

impl NodeLayout {
    /// The layout for `itemsize` (see [`layout_spec`]); any size other than
    /// 52 or 56 is an error.
    pub fn for_itemsize(itemsize: usize) -> (r: Result<NodeLayout, SklError>)
        ensures
            r matches Ok(l) ==> layout_spec(itemsize) == Some(l),
            r matches Err(e) ==> layout_spec(itemsize) is None
                && e == (SklError::HistGbDecode { offset: 0, fault: DecodeFault::UnexpectedItemsize { itemsize } }),
    {
        let feat_is_i64 = if itemsize == 52 {
            false
        } else if itemsize == 56 {
            true
        } else {
            return Err(SklError::HistGbDecode { offset: 0, fault: DecodeFault::UnexpectedItemsize { itemsize } });
        };
        let feat_width: usize = if feat_is_i64 { 8 } else { 4 };
        let after = 12 + feat_width;
        Ok(NodeLayout {
            itemsize,
            feat_is_i64,
            off_value: 0,
            off_count: 8,
            off_feature_idx: 12,
            off_num_threshold: after,
            off_missing: after + 8,
            off_left: after + 9,
            off_right: after + 13,
            off_gain: after + 17,
            off_is_categorical: after + 31,
            off_bitset_idx: after + 32,
        })
    }
}

/// The unsigned little-endian value of the `k` bytes of `b` from `off`.
pub open spec fn le_value(b: Seq<u8>, off: int, k: nat) -> nat
    decreases k,
{
    if k == 0 {
        0
    } else {
        b[off] as nat + 256 * le_value(b, off + 1, (k - 1) as nat)
    }
}

/// The two's-complement value of the `k` bytes of `b` from `off`.
pub open spec fn le_signed(b: Seq<u8>, off: int, k: nat) -> int {
    let u = le_value(b, off, k) as int;
    let half = vstd::arithmetic::power2::pow2((8 * k - 1) as nat) as int;
    if u >= half { u - 2 * half } else { u }
}

/// The error of a field of `k` bytes at `off` that does not fit in a record
/// of `len` bytes.
pub open spec fn short_field(len: int, off: usize, k: int) -> bool {
    off + k > len
}

/// The error of a short record at `off`.
pub open spec fn short_error(off: usize) -> SklError {
    SklError::HistGbDecode { offset: off, fault: DecodeFault::ShortRecord }
}

/// Read the byte at `rec[off]`.
pub fn read_u8(rec: &[u8], off: usize) -> (r: Result<u8, SklError>)
    ensures
        short_field(rec@.len() as int, off, 1) ==> r == Err::<u8, SklError>(short_error(off)),
        !short_field(rec@.len() as int, off, 1) ==> r == Ok::<u8, SklError>(rec@[off as int]),
{
    if off >= rec.len() {
        return Err(SklError::HistGbDecode { offset: off, fault: DecodeFault::ShortRecord });
    }
    Ok(rec[off])
}

/// Read the little-endian `u32` at `rec[off..off + 4]`.
pub fn read_u32(rec: &[u8], off: usize) -> (r: Result<u32, SklError>)
    ensures
        short_field(rec@.len() as int, off, 4) ==> r == Err::<u32, SklError>(short_error(off)),
        !short_field(rec@.len() as int, off, 4) ==> (r matches Ok(v) && v as nat == le_value(rec@, off as int, 4)),
{
    if off >= rec.len() || rec.len() - off < 4 {
        return Err(SklError::HistGbDecode { offset: off, fault: DecodeFault::ShortRecord });
    }
    let v: u32 = rec[off] as u32 + (rec[off + 1] as u32) * 0x100 + (rec[off + 2] as u32) * 0x1_0000 + (rec[off + 3] as u32)
        * 0x100_0000;
    proof {
        reveal_with_fuel(le_value, 5);
    }
    Ok(v)
}

/// Read the little-endian `u64` at `rec[off..off + 8]`.
pub fn read_u64(rec: &[u8], off: usize) -> (r: Result<u64, SklError>)
    ensures
        short_field(rec@.len() as int, off, 8) ==> r == Err::<u64, SklError>(short_error(off)),
        !short_field(rec@.len() as int, off, 8) ==> (r matches Ok(v) && v as nat == le_value(rec@, off as int, 8)),
{
    if off >= rec.len() || rec.len() - off < 8 {
        return Err(SklError::HistGbDecode { offset: off, fault: DecodeFault::ShortRecord });
    }
    let v: u64 = rec[off] as u64 + (rec[off + 1] as u64) * 0x100 + (rec[off + 2] as u64) * 0x1_0000 + (rec[off + 3] as u64)
        * 0x100_0000 + (rec[off + 4] as u64) * 0x1_0000_0000 + (rec[off + 5] as u64) * 0x100_0000_0000 + (rec[off + 6] as u64)
        * 0x1_0000_0000_0000 + (rec[off + 7] as u64) * 0x100_0000_0000_0000;
    proof {
        reveal_with_fuel(le_value, 9);
    }
    Ok(v)
}

/// Read the little-endian `i32` at `rec[off..off + 4]`.
pub fn read_i32(rec: &[u8], off: usize) -> (r: Result<i32, SklError>)
    ensures
        short_field(rec@.len() as int, off, 4) ==> r == Err::<i32, SklError>(short_error(off)),
        !short_field(rec@.len() as int, off, 4) ==> (r matches Ok(v) && v as int == le_signed(rec@, off as int, 4)),
{
    let u = read_u32(rec, off)?;
    proof {
        vstd::arithmetic::power2::lemma2_to64();
    }
    if u >= 0x8000_0000 {
        Ok((u as i64 - 0x1_0000_0000) as i32)
    } else {
        Ok(u as i32)
    }
}

/// Read the little-endian `i64` at `rec[off..off + 8]`.
pub fn read_i64(rec: &[u8], off: usize) -> (r: Result<i64, SklError>)
    ensures
        short_field(rec@.len() as int, off, 8) ==> r == Err::<i64, SklError>(short_error(off)),
        !short_field(rec@.len() as int, off, 8) ==> (r matches Ok(v) && v as int == le_signed(rec@, off as int, 8)),
{
    let u = read_u64(rec, off)?;
    proof {
        vstd::arithmetic::power2::lemma2_to64_rest();
    }
    if u >= 0x8000_0000_0000_0000 {
        Ok(-((0xffff_ffff_ffff_ffff - u) as i64) - 1)
    } else {
        Ok(u as i64)
    }
}

/// One decoded node record (the fields the loader uses); floating-point
/// fields as their bit patterns.
#[derive(Debug, Clone, Copy, PartialEq, Eq, Structural)]
pub struct HistGbNode {
    pub value_bits: u64,
    pub count: u32,
    pub feature_idx: i64,
    pub num_threshold_bits: u64,
    pub missing_go_to_left: u8,
    pub left: u32,
    pub right: u32,
    pub gain_bits: u64,
    pub is_categorical: u8,
    pub bitset_idx: u32,
}

/// The node encoded by the record `b` in layout `l`.
pub open spec fn decoded_node(b: Seq<u8>, l: NodeLayout) -> HistGbNode {
    HistGbNode {
        value_bits: le_value(b, l.off_value as int, 8) as u64,
        count: le_value(b, l.off_count as int, 4) as u32,
        feature_idx: (if l.feat_is_i64 { le_signed(b, l.off_feature_idx as int, 8) } else { le_signed(b, l.off_feature_idx as int, 4) }) as i64,
        num_threshold_bits: le_value(b, l.off_num_threshold as int, 8) as u64,
        missing_go_to_left: b[l.off_missing as int],
        left: le_value(b, l.off_left as int, 4) as u32,
        right: le_value(b, l.off_right as int, 4) as u32,
        gain_bits: le_value(b, l.off_gain as int, 8) as u64,
        is_categorical: b[l.off_is_categorical as int],
        bitset_idx: le_value(b, l.off_bitset_idx as int, 4) as u32,
    }
}

/// The offset of the first field, in reading order (`feature_idx` first,
/// then the fields by offset), that does not fit in a record of `len` bytes.
pub open spec fn decode_fault(len: int, l: NodeLayout) -> Option<usize> {
    let fw: int = if l.feat_is_i64 { 8 } else { 4 };
    if short_field(len, l.off_feature_idx, fw) {
        Some(l.off_feature_idx)
    } else if short_field(len, l.off_value, 8) {
        Some(l.off_value)
    } else if short_field(len, l.off_count, 4) {
        Some(l.off_count)
    } else if short_field(len, l.off_num_threshold, 8) {
        Some(l.off_num_threshold)
    } else if short_field(len, l.off_missing, 1) {
        Some(l.off_missing)
    } else if short_field(len, l.off_left, 4) {
        Some(l.off_left)
    } else if short_field(len, l.off_right, 4) {
        Some(l.off_right)
    } else if short_field(len, l.off_gain, 8) {
        Some(l.off_gain)
    } else if short_field(len, l.off_is_categorical, 1) {
        Some(l.off_is_categorical)
    } else if short_field(len, l.off_bitset_idx, 4) {
        Some(l.off_bitset_idx)
    } else {
        None
    }
}

/// Decode the node record `rec` field by field: the node of [`decoded_node`],
/// or the first field that does not fit (see [`decode_fault`]). A record of
/// at least `itemsize` bytes always decodes.
pub fn decode_node(rec: &[u8], layout: &NodeLayout) -> (r: Result<HistGbNode, SklError>)
    requires
        layout_spec(layout.itemsize) == Some(*layout),
    ensures
        match decode_fault(rec@.len() as int, *layout) {
            Some(o) => r == Err::<HistGbNode, SklError>(short_error(o)),
            None => r == Ok::<HistGbNode, SklError>(decoded_node(rec@, *layout)),
        },
        rec@.len() >= layout.itemsize ==> r is Ok,
{
    let feature_idx = if layout.feat_is_i64 {
        read_i64(rec, layout.off_feature_idx)?
    } else {
        read_i32(rec, layout.off_feature_idx)? as i64
    };
    let value_bits = read_u64(rec, layout.off_value)?;
    let count = read_u32(rec, layout.off_count)?;
    let num_threshold_bits = read_u64(rec, layout.off_num_threshold)?;
    let missing_go_to_left = read_u8(rec, layout.off_missing)?;
    let left = read_u32(rec, layout.off_left)?;
    let right = read_u32(rec, layout.off_right)?;
    let gain_bits = read_u64(rec, layout.off_gain)?;
    let is_categorical = read_u8(rec, layout.off_is_categorical)?;
    let bitset_idx = read_u32(rec, layout.off_bitset_idx)?;
    Ok(HistGbNode {
        value_bits,
        count,
        feature_idx,
        num_threshold_bits,
        missing_go_to_left,
        left,
        right,
        gain_bits,
        is_categorical,
        bitset_idx,
    })
}

/// Whether category `val` is set in 256-bit row `row` of `bm`: bit
/// `val % 32` of word `8 * row + val / 32` (unset when that word is absent).
pub open spec fn bit_set(bm: Seq<u32>, val: u32, row: u32) -> bool {
    let w = 8 * (row as int) + (val as int) / 32;
    w < bm.len() && (bm[w] >> (val % 32)) & 1u32 == 1u32
}

/// Whether category `val` is set in row `row` of `bitmap` (see [`bit_set`]).
pub fn check_bit(bitmap: &[u32], val: u32, row: u32) -> (b: bool)
    requires
        8 * (row as int) + (val as int) / 32 <= usize::MAX,
    ensures
        b == bit_set(bitmap@, val, row),
{
    let word = 8 * (row as usize) + (val as usize) / 32;
    if word < bitmap.len() {
        ((bitmap[word] >> (val % 32)) & 1) == 1
    } else {
        false
    }
}

/// The categories of a categorical split, scanning categories `i..256` of
/// row `row`: each set category `c` contributes `remap[c]` (or `c` itself
/// without a remap row), which must be a `u32`.
pub open spec fn cat_scan(bm: Seq<u32>, row: u32, remap: Option<Seq<i64>>, i: int, acc: Seq<u32>) -> Result<Seq<u32>, SklError>
    decreases 256 - i,
{
    if i >= 256 {
        Ok(acc)
    } else if !bit_set(bm, i as u32, row) {
        cat_scan(bm, row, remap, i + 1, acc)
    } else {
        let tv: Result<int, SklError> = match remap {
            Some(rr) => if i < rr.len() {
                Ok(rr[i] as int)
            } else {
                Err(SklError::HistGbDecode { offset: 0, fault: DecodeFault::CategoryOutOfRange { category: i as u32, len: rr.len() as usize } })
            },
            None => Ok(i),
        };
        match tv {
            Err(e) => Err(e),
            Ok(v) => if 0 <= v <= 0xffff_ffff {
                cat_scan(bm, row, remap, i + 1, acc.push(v as u32))
            } else {
                Err(SklError::HistGbDecode { offset: 0, fault: DecodeFault::CategoryNotU32 { value: v as i64 } })
            },
        }
    }
}

/// The character views of a categories map.
pub open spec fn cmap_view(c: Option<&[Vec<i64>]>) -> Option<Seq<Seq<i64>>> {
    match c {
        Some(cm) => Some(cm@.map_values(|r: Vec<i64>| r@)),
        None => None,
    }
}

/// The left categories of a categorical split on `feature_idx` with bitset
/// row `bitset_idx`: the whole 8-word row must lie in the bitmap; with a
/// categories map, `feature_idx` must index it.
pub open spec fn categorical_spec(feature_idx: i64, bitset_idx: u32, bm: Seq<u32>, cmap: Option<Seq<Seq<i64>>>) -> Result<Seq<u32>, SklError> {
    let row_start = 8 * (bitset_idx as int);
    if row_start > usize::MAX {
        Err(SklError::HistGbDecode { offset: 0, fault: DecodeFault::BitsetRowOverflow { bitset_idx } })
    } else if row_start + 8 > bm.len() {
        Err(SklError::HistGbDecode {
            offset: row_start as usize,
            fault: DecodeFault::BitsetRowOutOfRange { row_start: row_start as usize, bitmap_len: bm.len() as usize },
        })
    } else {
        match cmap {
            None => cat_scan(bm, bitset_idx, None, 0, Seq::empty()),
            Some(cm) => if feature_idx < 0 {
                Err(SklError::HistGbDecode { offset: 0, fault: DecodeFault::NegativeCategoryFeature { feature_idx } })
            } else if feature_idx >= cm.len() {
                Err(SklError::HistGbDecode { offset: 0, fault: DecodeFault::CategoryFeatureOutOfRange { feature_idx, len: cm.len() as usize } })
            } else {
                cat_scan(bm, bitset_idx, Some(cm[feature_idx as int]), 0, Seq::empty())
            },
        }
    }
}

/// Decode a categorical split into its left categories (see
/// [`categorical_spec`]). Without a categories map the result is exactly the
/// set categories of the row, in increasing order.
pub fn decode_categorical(feature_idx: i64, bitset_idx: u32, bitmap: &[u32], categories_map: Option<&[Vec<i64>]>) -> (r: Result<Vec<u32>, SklError>)
    ensures
        r matches Ok(v) ==> categorical_spec(feature_idx, bitset_idx, bitmap@, cmap_view(categories_map)) == Ok::<Seq<u32>, SklError>(v@),
        r matches Err(e) ==> categorical_spec(feature_idx, bitset_idx, bitmap@, cmap_view(categories_map)) == Err::<Seq<u32>, SklError>(e),
        categories_map is None ==> (r matches Ok(v) ==> {
            &&& forall|c: u32| v@.contains(c) <==> (c < 256 && bit_set(bitmap@, c, bitset_idx))
            &&& forall|a: int, b: int| 0 <= a < b < v@.len() ==> v@[a] < v@[b]
        }),
{
    let bi = bitset_idx as u64;
    if bi > (usize::MAX as u64) / 8 {
        return Err(SklError::HistGbDecode { offset: 0, fault: DecodeFault::BitsetRowOverflow { bitset_idx } });
    }
    let row_start = 8 * (bitset_idx as usize);
    if row_start as u64 + 8 > bitmap.len() as u64 {
        return Err(SklError::HistGbDecode {
            offset: row_start,
            fault: DecodeFault::BitsetRowOutOfRange { row_start, bitmap_len: bitmap.len() },
        });
    }
    let ghost cmv = cmap_view(categories_map);
    let remap: Option<&Vec<i64>> = match categories_map {
        Some(cm) => {
            if feature_idx < 0 {
                return Err(SklError::HistGbDecode { offset: 0, fault: DecodeFault::NegativeCategoryFeature { feature_idx } });
            }
            if feature_idx as u64 >= cm.len() as u64 {
                return Err(SklError::HistGbDecode {
                    offset: 0,
                    fault: DecodeFault::CategoryFeatureOutOfRange { feature_idx, len: cm.len() },
                });
            }
            Some(&cm[feature_idx as usize])
        },
        None => None,
    };
    let ghost rv: Option<Seq<i64>> = match remap {
        Some(rr) => Some(rr@),
        None => None,
    };
    assert(categorical_spec(feature_idx, bitset_idx, bitmap@, cmv) == cat_scan(bitmap@, bitset_idx, rv, 0, Seq::empty()));
    let mut out: Vec<u32> = Vec::new();
    let mut i: u32 = 0;
    while i < 256
        invariant
            i <= 256,
            8 * (bitset_idx as int) + 8 <= bitmap@.len(),
            bitmap@.len() <= usize::MAX,
            rv == (match remap {
                Some(rr) => Some(rr@),
                None => None::<Seq<i64>>,
            }),
            cmv == cmap_view(categories_map),
            cat_scan(bitmap@, bitset_idx, rv, i as int, out@) == categorical_spec(feature_idx, bitset_idx, bitmap@, cmv),
            categories_map is None ==> rv is None,
            rv is None ==> forall|c: u32| out@.contains(c) <==> (c < i && bit_set(bitmap@, c, bitset_idx)),
            rv is None ==> forall|a: int, b: int| 0 <= a < b < out@.len() ==> out@[a] < out@[b],
            rv is None ==> forall|a: int| 0 <= a < out@.len() ==> out@[a] < i,
        decreases 256 - i,
    {
        if check_bit(bitmap, i, bitset_idx) {
            let transformed: i64 = match remap {
                Some(rr) => {
                    if (i as usize) >= rr.len() {
                        return Err(SklError::HistGbDecode {
                            offset: 0,
                            fault: DecodeFault::CategoryOutOfRange { category: i, len: rr.len() },
                        });
                    }
                    rr[i as usize]
                },
                None => i as i64,
            };
            if transformed < 0 || transformed > 0xffff_ffff {
                return Err(SklError::HistGbDecode { offset: 0, fault: DecodeFault::CategoryNotU32 { value: transformed } });
            }
            let ghost before = out@;
            out.push(transformed as u32);
            proof {
                if rv is None {
                    assert forall|c: u32| out@.contains(c) <==> (c < i + 1 && bit_set(bitmap@, c, bitset_idx)) by {
                        if c == i {
                            assert(out@[out@.len() - 1] == c);
                        }
                        if out@.contains(c) && c != i {
                            let j = choose|j: int| 0 <= j < out@.len() && out@[j] == c;
                            assert(j < before.len());
                            assert(before.contains(c));
                        }
                        if c < i && bit_set(bitmap@, c, bitset_idx) {
                            assert(before.contains(c));
                            let j = choose|j: int| 0 <= j < before.len() && before[j] == c;
                            assert(out@[j] == c);
                        }
                    }
                }
            }
        } else {
            proof {
                if rv is None {
                    assert forall|c: u32| out@.contains(c) <==> (c < i + 1 && bit_set(bitmap@, c, bitset_idx)) by {
                        if out@.contains(c) {
                            let j = choose|j: int| 0 <= j < out@.len() && out@[j] == c;
                            assert(out@[j] < i);
                        }
                    }
                }
            }
        }
        i = i + 1;
    }
    Ok(out)
}

/// One node of a HistGradientBoosting tree, ready for the builder.
#[derive(Debug, Clone, PartialEq, Eq)]
pub enum HistNode {
    /// A leaf with output `f64::from_bits(value_bits)`.
    Leaf { value_bits: u64, count: u32 },
    /// A `<=` split on input feature `split_index` with threshold
    /// `f64::from_bits(threshold_bits)`.
    Numerical {
        split_index: i32,
        threshold_bits: u64,
        default_left: bool,
        left: i32,
        right: i32,
        gain_bits: u64,
        count: u32,
    },
    /// A categorical split sending `left_categories` to the left child.
    Categorical {
        split_index: i32,
        default_left: bool,
        left_categories: Vec<u32>,
        left: i32,
        right: i32,
        gain_bits: u64,
        count: u32,
    },
}

/// The mathematical content of a [`HistNode`].
pub enum HistNodeModel {
    Leaf { value_bits: u64, count: u32 },
    Numerical { split_index: i32, threshold_bits: u64, default_left: bool, left: i32, right: i32, gain_bits: u64, count: u32 },
    Categorical { split_index: i32, default_left: bool, left_categories: Seq<u32>, left: i32, right: i32, gain_bits: u64, count: u32 },
}

impl HistNode {
    /// The mathematical content of this node.
    pub open spec fn model(&self) -> HistNodeModel {
        match *self {
            HistNode::Leaf { value_bits, count } => HistNodeModel::Leaf { value_bits, count },
            HistNode::Numerical { split_index, threshold_bits, default_left, left, right, gain_bits, count } =>
                HistNodeModel::Numerical { split_index, threshold_bits, default_left, left, right, gain_bits, count },
            HistNode::Categorical { split_index, default_left, left_categories, left, right, gain_bits, count } =>
                HistNodeModel::Categorical {
                    split_index,
                    default_left,
                    left_categories: left_categories@,
                    left,
                    right,
                    gain_bits,
                    count,
                },
        }
    }
}

/// Node `k` of tree `tree` decoded as `nd`: a leaf when its left child, read
/// as a signed 32-bit id, is at most 0; otherwise a split on input feature
/// `features_map[feature_idx]`, sending missing values left when
/// `missing_go_to_left == 1`, categorical when `is_categorical == 1`.
pub open spec fn hist_node_spec(nd: HistGbNode, tree: usize, k: int, bm: Seq<u32>, fmap: Seq<i32>, cmap: Option<Seq<Seq<i64>>>) -> Result<HistNodeModel, SklError> {
    let left = nd.left as i32;
    let right = nd.right as i32;
    if left <= 0 {
        Ok(HistNodeModel::Leaf { value_bits: nd.value_bits, count: nd.count })
    } else if nd.feature_idx < 0 {
        Err(SklError::HistGbDecode { offset: 0, fault: DecodeFault::NegativeFeatureIdx { tree, node: k as usize, feature_idx: nd.feature_idx } })
    } else if nd.feature_idx >= fmap.len() {
        Err(SklError::HistGbDecode {
            offset: 0,
            fault: DecodeFault::FeatureIdxOutOfRange { tree, node: k as usize, feature_idx: nd.feature_idx, len: fmap.len() as usize },
        })
    } else {
        let split_index = fmap[nd.feature_idx as int];
        let default_left = nd.missing_go_to_left == 1;
        if nd.is_categorical == 1 {
            match categorical_spec(nd.feature_idx, nd.bitset_idx, bm, cmap) {
                Err(e) => Err(e),
                Ok(cats) => Ok(HistNodeModel::Categorical {
                    split_index,
                    default_left,
                    left_categories: cats,
                    left,
                    right,
                    gain_bits: nd.gain_bits,
                    count: nd.count,
                }),
            }
        } else {
            Ok(HistNodeModel::Numerical {
                split_index,
                threshold_bits: nd.num_threshold_bits,
                default_left,
                left,
                right,
                gain_bits: nd.gain_bits,
                count: nd.count,
            })
        }
    }
}

/// The record of node `k` in a packed buffer.
pub open spec fn record(bytes: Seq<u8>, l: NodeLayout, k: int) -> Seq<u8> {
    bytes.subrange(k * l.itemsize, (k + 1) * l.itemsize)
}

/// Node `k` of a tree whose packed nodes are `bytes`.
pub open spec fn packed_node_spec(bytes: Seq<u8>, l: NodeLayout, tree: usize, k: int, bm: Seq<u32>, fmap: Seq<i32>, cmap: Option<Seq<Seq<i64>>>) -> Result<
    HistNodeModel,
    SklError,
> {
    hist_node_spec(decoded_node(record(bytes, l, k), l), tree, k, bm, fmap, cmap)
}

/// The nodes of tree `tree`: a node count in `0..=i32::MAX`, a buffer of at
/// least `node_count * itemsize` bytes, then every node in order.
pub open spec fn hist_tree_spec(tree: usize, node_count: i64, bytes: Seq<u8>, bm: Seq<u32>, l: NodeLayout, fmap: Seq<i32>, cmap: Option<Seq<Seq<i64>>>) -> Result<
    Seq<HistNodeModel>,
    SklError,
> {
    if node_count < 0 {
        Err(SklError::HistGbDecode { offset: 0, fault: DecodeFault::NegativeNodeCount { tree, node_count } })
    } else if node_count > 0x7fff_ffff {
        Err(SklError::HistGbDecode { offset: 0, fault: DecodeFault::NodeCountTooLarge { tree, node_count } })
    } else if node_count * l.itemsize > usize::MAX {
        Err(SklError::HistGbDecode { offset: 0, fault: DecodeFault::BufferSizeOverflow { tree } })
    } else if bytes.len() < node_count * l.itemsize {
        Err(SklError::HistGbDecode {
            offset: 0,
            fault: DecodeFault::ShortNodesBuffer { tree, got: bytes.len() as usize, need: (node_count * l.itemsize) as usize },
        })
    } else {
        let fails = |k: int| packed_node_spec(bytes, l, tree, k, bm, fmap, cmap) is Err;
        match first_failing(fails, 0, node_count as int) {
            Some(k) => Err(packed_node_spec(bytes, l, tree, k, bm, fmap, cmap)->Err_0),
            None => Ok(Seq::new(node_count as nat, |k: int| packed_node_spec(bytes, l, tree, k, bm, fmap, cmap)->Ok_0)),
        }
    }
}

/// The character views of the nodes of a tree.
pub open spec fn node_models(v: Seq<HistNode>) -> Seq<HistNodeModel> {
    v.map_values(|n: HistNode| n.model())
}

/// Decode one node (see [`hist_node_spec`]).
fn plan_node(nd: HistGbNode, tree: usize, k: usize, bitmap: &[u32], features_map: &[i32], categories_map: Option<&[Vec<i64>]>) -> (r: Result<HistNode, SklError>)
    ensures
        r matches Ok(n) ==> hist_node_spec(nd, tree, k as int, bitmap@, features_map@, cmap_view(categories_map)) == Ok::<HistNodeModel, SklError>(n.model()),
        r matches Err(e) ==> hist_node_spec(nd, tree, k as int, bitmap@, features_map@, cmap_view(categories_map)) == Err::<HistNodeModel, SklError>(e),
{
    let left = nd.left as i32;
    let right = nd.right as i32;
    if left <= 0 {
        return Ok(HistNode::Leaf { value_bits: nd.value_bits, count: nd.count });
    }
    if nd.feature_idx < 0 {
        return Err(SklError::HistGbDecode {
            offset: 0,
            fault: DecodeFault::NegativeFeatureIdx { tree, node: k, feature_idx: nd.feature_idx },
        });
    }
    if nd.feature_idx as u64 >= features_map.len() as u64 {
        return Err(SklError::HistGbDecode {
            offset: 0,
            fault: DecodeFault::FeatureIdxOutOfRange { tree, node: k, feature_idx: nd.feature_idx, len: features_map.len() },
        });
    }
    let split_index = features_map[nd.feature_idx as usize];
    let default_left = nd.missing_go_to_left == 1;
    if nd.is_categorical == 1 {
        let left_categories = decode_categorical(nd.feature_idx, nd.bitset_idx, bitmap, categories_map)?;
        Ok(HistNode::Categorical { split_index, default_left, left_categories, left, right, gain_bits: nd.gain_bits, count: nd.count })
    } else {
        Ok(HistNode::Numerical {
            split_index,
            threshold_bits: nd.num_threshold_bits,
            default_left,
            left,
            right,
            gain_bits: nd.gain_bits,
            count: nd.count,
        })
    }
}

/// Decode the nodes of tree `tree` (see [`hist_tree_spec`]). No field is
/// read before the buffer is known to hold every record.
pub fn plan_tree(
    tree: usize,
    node_count: i64,
    nodes_bytes: &[u8],
    bitmap: &[u32],
    layout: &NodeLayout,
    features_map: &[i32],
    categories_map: Option<&[Vec<i64>]>,
) -> (r: Result<Vec<HistNode>, SklError>)
    requires
        layout_spec(layout.itemsize) == Some(*layout),
    ensures
        r matches Ok(v) ==> hist_tree_spec(tree, node_count, nodes_bytes@, bitmap@, *layout, features_map@, cmap_view(categories_map))
            == Ok::<Seq<HistNodeModel>, SklError>(node_models(v@)),
        r matches Err(e) ==> hist_tree_spec(tree, node_count, nodes_bytes@, bitmap@, *layout, features_map@, cmap_view(categories_map))
            == Err::<Seq<HistNodeModel>, SklError>(e),
{
    if node_count < 0 {
        return Err(SklError::HistGbDecode { offset: 0, fault: DecodeFault::NegativeNodeCount { tree, node_count } });
    }
    if node_count > 0x7fff_ffff {
        return Err(SklError::HistGbDecode { offset: 0, fault: DecodeFault::NodeCountTooLarge { tree, node_count } });
    }
    let n = node_count as usize;
    let itemsize = layout.itemsize;
    assert((n as u64) * (itemsize as u64) <= 0x7fff_ffff * 56) by (nonlinear_arith)
        requires
            n <= 0x7fff_ffff,
            itemsize <= 56,
    ;
    let need64: u64 = (n as u64) * (itemsize as u64);
    if need64 > usize::MAX as u64 {
        return Err(SklError::HistGbDecode { offset: 0, fault: DecodeFault::BufferSizeOverflow { tree } });
    }
    let need = need64 as usize;
    if nodes_bytes.len() < need {
        return Err(SklError::HistGbDecode { offset: 0, fault: DecodeFault::ShortNodesBuffer { tree, got: nodes_bytes.len(), need } });
    }
    let ghost cmv = cmap_view(categories_map);
    let ghost fails = |k: int| packed_node_spec(nodes_bytes@, *layout, tree, k, bitmap@, features_map@, cmv) is Err;
    let mut out: Vec<HistNode> = Vec::new();
    let mut k: usize = 0;
    while k < n
        invariant
            k <= n,
            n == node_count as usize,
            0 <= node_count <= 0x7fff_ffff,
            itemsize == layout.itemsize,
            layout_spec(layout.itemsize) == Some(*layout),
            n * itemsize <= nodes_bytes@.len(),
            n * itemsize <= usize::MAX,
            cmv == cmap_view(categories_map),
            fails == (|k: int| packed_node_spec(nodes_bytes@, *layout, tree, k, bitmap@, features_map@, cmv) is Err),
            out@.len() == k,
            forall|j: int| 0 <= j < k ==> packed_node_spec(nodes_bytes@, *layout, tree, j, bitmap@, features_map@, cmv)
                == Ok::<HistNodeModel, SklError>((#[trigger] out@[j]).model()),
        decreases n - k,
    {
        assert((k + 1) * itemsize <= n * itemsize) by (nonlinear_arith)
            requires
                k + 1 <= n,
        ;
        assert(k * itemsize + itemsize == (k + 1) * itemsize) by (nonlinear_arith);
        let base = k * itemsize;
        let rec = &nodes_bytes[base..base + itemsize];
        assert(rec@ == record(nodes_bytes@, *layout, k as int));
        let nd = match decode_node(rec, layout) {
            Ok(nd) => nd,
            Err(e) => {
                return Err(e);
            },
        };
        match plan_node(nd, tree, k, bitmap, features_map, categories_map) {
            Ok(node) => {
                out.push(node);
            },
            Err(e) => {
                proof {
                    assert forall|j: int| 0 <= j < k implies !#[trigger] fails(j) by {
                        assert(packed_node_spec(nodes_bytes@, *layout, tree, j, bitmap@, features_map@, cmv)
                            == Ok::<HistNodeModel, SklError>(out@[j].model()));
                    }
                    lemma_first_failing(fails, 0, k as int, n as int);
                }
                return Err(e);
            },
        }
        k = k + 1;
    }
    proof {
        assert forall|j: int| 0 <= j < n implies !#[trigger] fails(j) by {
            assert(packed_node_spec(nodes_bytes@, *layout, tree, j, bitmap@, features_map@, cmv)
                == Ok::<HistNodeModel, SklError>(out@[j].model()));
        }
        lemma_first_failing(fails, 0, n as int, n as int);
    }
    assert(node_models(out@) =~= Seq::new(n as nat, |k: int| packed_node_spec(nodes_bytes@, *layout, tree, k, bitmap@, features_map@, cmv)->Ok_0));
    Ok(out)
}

/// The trees of a model with `n_trees` trees: a 52- or 56-byte layout, one
/// node count, node buffer and bitmap per tree, then each tree in order.
pub open spec fn hist_model_spec(
    n_trees: usize,
    itemsize: usize,
    node_count: Seq<i64>,
    nodes: Seq<&[u8]>,
    bitsets: Seq<&[u32]>,
    fmap: Seq<i32>,
    cmap: Option<Seq<Seq<i64>>>,
) -> Result<Seq<Seq<HistNodeModel>>, SklError> {
    match layout_spec(itemsize) {
        None => Err(SklError::HistGbDecode { offset: 0, fault: DecodeFault::UnexpectedItemsize { itemsize } }),
        Some(l) => {
            let outer = seq![
                ("node_count", node_count.len() as usize),
                ("nodes", nodes.len() as usize),
                ("raw_left_cat_bitsets", bitsets.len() as usize),
            ];
            match outer_spec(outer, n_trees) {
                Err(e) => Err(e),
                Ok(_) => {
                    let tree = |t: int| hist_tree_spec(t as usize, node_count[t], nodes[t]@, bitsets[t]@, l, fmap, cmap);
                    match first_failing(|t: int| tree(t) is Err, 0, n_trees as int) {
                        Some(t) => Err(tree(t)->Err_0),
                        None => Ok(Seq::new(n_trees as nat, |t: int| tree(t)->Ok_0)),
                    }
                },
            }
        },
    }
}

/// The node models of every tree.
pub open spec fn tree_models(v: Seq<Vec<HistNode>>) -> Seq<Seq<HistNodeModel>> {
    v.map_values(|t: Vec<HistNode>| node_models(t@))
}

/// Decode every tree of a model (see [`hist_model_spec`]).
pub fn plan_trees(
    n_trees: usize,
    itemsize: usize,
    node_count: &[i64],
    nodes: &[&[u8]],
    bitsets: &[&[u32]],
    features_map: &[i32],
    categories_map: Option<&[Vec<i64>]>,
) -> (r: Result<Vec<Vec<HistNode>>, SklError>)
    ensures
        r matches Ok(v) ==> hist_model_spec(n_trees, itemsize, node_count@, nodes@, bitsets@, features_map@, cmap_view(categories_map))
            == Ok::<Seq<Seq<HistNodeModel>>, SklError>(tree_models(v@)),
        r matches Err(e) ==> hist_model_spec(n_trees, itemsize, node_count@, nodes@, bitsets@, features_map@, cmap_view(categories_map))
            == Err::<Seq<Seq<HistNodeModel>>, SklError>(e),
{
    let layout = NodeLayout::for_itemsize(itemsize)?;
    let outer = [("node_count", node_count.len()), ("nodes", nodes.len()), ("raw_left_cat_bitsets", bitsets.len())];
    let ghost outer_s = seq![
        ("node_count", node_count@.len() as usize),
        ("nodes", nodes@.len() as usize),
        ("raw_left_cat_bitsets", bitsets@.len() as usize),
    ];
    assert(outer@ =~= outer_s);
    check_outers(&outer, n_trees)?;
    proof {
        lemma_no_mismatch(outer@, n_trees as int, 0);
        assert(outer@[0].1 == n_trees && outer@[1].1 == n_trees && outer@[2].1 == n_trees);
    }
    let ghost cmv = cmap_view(categories_map);
    let ghost tree = |t: int| hist_tree_spec(t as usize, node_count@[t], nodes@[t]@, bitsets@[t]@, layout, features_map@, cmv);
    let ghost fails = |t: int| tree(t) is Err;
    let mut out: Vec<Vec<HistNode>> = Vec::new();
    let mut t: usize = 0;
    while t < n_trees
        invariant
            t <= n_trees,
            node_count@.len() == n_trees,
            nodes@.len() == n_trees,
            bitsets@.len() == n_trees,
            layout_spec(itemsize) == Some(layout),
            outer_spec(outer_s, n_trees) is Ok,
            outer_s == seq![
                ("node_count", node_count@.len() as usize),
                ("nodes", nodes@.len() as usize),
                ("raw_left_cat_bitsets", bitsets@.len() as usize),
            ],
            cmv == cmap_view(categories_map),
            tree == (|t: int| hist_tree_spec(t as usize, node_count@[t], nodes@[t]@, bitsets@[t]@, layout, features_map@, cmv)),
            fails == (|t: int| tree(t) is Err),
            out@.len() == t,
            forall|j: int| 0 <= j < t ==> tree(j) == Ok::<Seq<HistNodeModel>, SklError>(node_models((#[trigger] out@[j])@)),
        decreases n_trees - t,
    {
        match plan_tree(t, node_count[t], nodes[t], bitsets[t], &layout, features_map, categories_map) {
            Ok(v) => {
                out.push(v);
            },
            Err(e) => {
                proof {
                    assert forall|j: int| 0 <= j < t implies !#[trigger] fails(j) by {
                        assert(tree(j) == Ok::<Seq<HistNodeModel>, SklError>(node_models(out@[j]@)));
                    }
                    lemma_first_failing(fails, 0, t as int, n_trees as int);
                }
                return Err(e);
            },
        }
        t = t + 1;
    }
    proof {
        assert forall|j: int| 0 <= j < n_trees implies !#[trigger] fails(j) by {
            assert(tree(j) == Ok::<Seq<HistNodeModel>, SklError>(node_models(out@[j]@)));
        }
        lemma_first_failing(fails, 0, n_trees as int, n_trees as int);
    }
    assert(tree_models(out@) =~= Seq::new(n_trees as nat, |t: int| tree(t)->Ok_0));
    Ok(out)
}

/// A decoded HistGradientBoosting model: its metadata and trees.
#[derive(Debug)]
pub struct HistPlan {
    pub meta: ModelMeta,
    pub trees: Vec<Vec<HistNode>>,
}

/// Decode a `HistGradientBoostingRegressor`: `n_iter` and `n_features` at
/// least 1, then the trees (see [`hist_model_spec`]). Metadata: a regressor
/// summing its `n_iter` trees, the `identity` postprocessor and the supplied
/// baseline prediction as base score.
pub fn plan_hist_gradient_boosting_regressor(
    n_iter: i32,
    n_features: i32,
    expected_sizeof_node_struct: usize,
    node_count: &[i64],
    nodes: &[&[u8]],
    raw_left_cat_bitsets: &[&[u32]],
    features_map: &[i32],
    categories_map: Option<&[Vec<i64>]>,
) -> (r: Result<HistPlan, SklError>)
    ensures
        r matches Err(e) ==> if positive_spec("n_iter", n_iter) is Err {
            positive_spec("n_iter", n_iter) == Err::<i32, SklError>(e)
        } else if positive_spec("n_features", n_features) is Err {
            positive_spec("n_features", n_features) == Err::<i32, SklError>(e)
        } else {
            hist_model_spec(n_iter as usize, expected_sizeof_node_struct, node_count@, nodes@, raw_left_cat_bitsets@, features_map@,
                cmap_view(categories_map)) == Err::<Seq<Seq<HistNodeModel>>, SklError>(e)
        },
        r matches Ok(p) ==> {
            &&& n_iter >= 1 && n_features >= 1
            &&& hist_model_spec(n_iter as usize, expected_sizeof_node_struct, node_count@, nodes@, raw_left_cat_bitsets@, features_map@,
                cmap_view(categories_map)) == Ok::<Seq<Seq<HistNodeModel>>, SklError>(tree_models(p.trees@))
            &&& p.meta.num_feature == n_features
            &&& p.meta.task_type == TaskType::Regressor
            &&& !p.meta.average_tree_output
            &&& p.meta.num_target == 1
            &&& p.meta.num_class@ == seq![1i32]
            &&& p.meta.leaf_vector_shape == (1i32, 1i32)
            &&& p.meta.target_id@ == Seq::new(n_iter as nat, |i: int| 0i32)
            &&& p.meta.class_id@ == Seq::new(n_iter as nat, |i: int| 0i32)
            &&& p.meta.postprocessor == "identity"
            &&& p.meta.base_scores == BaseScores::Given(1)
        },
{
    require_positive("n_iter", n_iter)?;
    require_positive("n_features", n_features)?;
    let num_class = filled(1, 1);
    assert(num_class@ =~= seq![1i32]);
    let meta = ModelMeta {
        num_feature: n_features,
        task_type: TaskType::Regressor,
        average_tree_output: false,
        num_target: 1,
        num_class,
        leaf_vector_shape: (1, 1),
        target_id: filled(n_iter as usize, 0),
        class_id: filled(n_iter as usize, 0),
        postprocessor: "identity",
        base_scores: BaseScores::Given(1),
    };
    let trees = plan_trees(
        n_iter as usize,
        expected_sizeof_node_struct,
        node_count,
        nodes,
        raw_left_cat_bitsets,
        features_map,
        categories_map,
    )?;
    Ok(HistPlan { meta, trees })
}

/// Decode a `HistGradientBoostingClassifier`: the classifier header (see
/// [`classifier_header_spec`], base scores under `baseline_prediction`),
/// then the trees, one per round for two classes and one per round and class
/// otherwise. See [`classifier_meta`] for the metadata.
pub fn plan_hist_gradient_boosting_classifier<F>(
    n_iter: i32,
    n_features: i32,
    n_classes: i32,
    expected_sizeof_node_struct: usize,
    node_count: &[i64],
    nodes: &[&[u8]],
    raw_left_cat_bitsets: &[&[u32]],
    features_map: &[i32],
    categories_map: Option<&[Vec<i64>]>,
    baseline_prediction: &[F],
) -> (r: Result<HistPlan, SklError>)
    ensures
        r matches Err(e) ==> match classifier_header_spec(n_iter, n_features, n_classes, baseline_prediction@.len() as usize, "baseline_prediction") {
            Err(he) => e == he,
            Ok(_) => hist_model_spec(classifier_tree_count(n_iter, n_classes) as usize, expected_sizeof_node_struct, node_count@, nodes@,
                raw_left_cat_bitsets@, features_map@, cmap_view(categories_map)) == Err::<Seq<Seq<HistNodeModel>>, SklError>(e),
        },
        r matches Ok(p) ==> {
            &&& classifier_header_spec(n_iter, n_features, n_classes, baseline_prediction@.len() as usize, "baseline_prediction") is Ok
            &&& hist_model_spec(classifier_tree_count(n_iter, n_classes) as usize, expected_sizeof_node_struct, node_count@, nodes@,
                raw_left_cat_bitsets@, features_map@, cmap_view(categories_map)) == Ok::<Seq<Seq<HistNodeModel>>, SklError>(tree_models(p.trees@))
            &&& classifier_meta(p.meta, n_features, n_iter, n_classes)
        },
{
    let n_trees = classifier_header(n_iter, n_features, n_classes, baseline_prediction.len(), "baseline_prediction")?;
    let meta = classifier_metadata(n_iter, n_features, n_classes, n_trees);
    let trees = plan_trees(n_trees, expected_sizeof_node_struct, node_count, nodes, raw_left_cat_bitsets, features_map, categories_map)?;
    Ok(HistPlan { meta, trees })
}


/// Whether `m` is what the node record `nd` says, with input features
/// renumbered by `fmap`: a leaf when the left child (as a signed id) is at
/// most 0, carrying its value and count; otherwise a split on
/// `fmap[feature_idx]` with the record's children, gain and count, which is
/// categorical exactly when `is_categorical == 1`, carries the record's
/// threshold when numerical, and, numerical or categorical, sends missing
/// values left exactly when `missing_go_to_left == 1`.
pub open spec fn decodes_as(nd: HistGbNode, fmap: Seq<i32>, m: HistNodeModel) -> bool {
    match m {
        HistNodeModel::Leaf { value_bits, count } => {
            &&& nd.left as i32 <= 0
            &&& value_bits == nd.value_bits
            &&& count == nd.count
        },
        HistNodeModel::Numerical { split_index, threshold_bits, default_left, left, right, gain_bits, count } => {
            &&& nd.left as i32 > 0
            &&& nd.is_categorical != 1
            &&& 0 <= nd.feature_idx < fmap.len()
            &&& split_index == fmap[nd.feature_idx as int]
            &&& threshold_bits == nd.num_threshold_bits
            &&& default_left == (nd.missing_go_to_left == 1)
            &&& left == nd.left as i32
            &&& right == nd.right as i32
            &&& gain_bits == nd.gain_bits
            &&& count == nd.count
        },
        HistNodeModel::Categorical { split_index, default_left, left, right, gain_bits, count, .. } => {
            &&& nd.left as i32 > 0
            &&& nd.is_categorical == 1
            &&& 0 <= nd.feature_idx < fmap.len()
            &&& split_index == fmap[nd.feature_idx as int]
            &&& default_left == (nd.missing_go_to_left == 1)
            &&& left == nd.left as i32
            &&& right == nd.right as i32
            &&& gain_bits == nd.gain_bits
            &&& count == nd.count
        },
    }
}

/// A decoded node is what its record says (see [`decodes_as`]); in
/// particular every split, numerical or categorical, sends missing values
/// left exactly when the record's `missing_go_to_left` is 1.
pub proof fn lemma_node_decodes_record(nd: HistGbNode, tree: usize, k: int, bm: Seq<u32>, fmap: Seq<i32>, cmap: Option<Seq<Seq<i64>>>)
    ensures
        hist_node_spec(nd, tree, k, bm, fmap, cmap) matches Ok(m) ==> decodes_as(nd, fmap, m),
{
}

/// Every node of a decoded tree is what its packed record says (see
/// [`decodes_as`]).
pub proof fn lemma_tree_decodes_records(
    tree: usize,
    node_count: i64,
    bytes: Seq<u8>,
    bm: Seq<u32>,
    l: NodeLayout,
    fmap: Seq<i32>,
    cmap: Option<Seq<Seq<i64>>>,
)
    ensures
        hist_tree_spec(tree, node_count, bytes, bm, l, fmap, cmap) matches Ok(nodes) ==> forall|k: int|
            0 <= k < nodes.len() ==> decodes_as(decoded_node(record(bytes, l, k), l), fmap, #[trigger] nodes[k]),
{
    if hist_tree_spec(tree, node_count, bytes, bm, l, fmap, cmap) is Ok {
        let fails = |k: int| packed_node_spec(bytes, l, tree, k, bm, fmap, cmap) is Err;
        assert forall|k: int| 0 <= k < node_count implies !#[trigger] fails(k) by {
            lemma_no_failure_before(fails, 0, node_count as int, k);
        }
        let nodes = hist_tree_spec(tree, node_count, bytes, bm, l, fmap, cmap)->Ok_0;
        assert forall|k: int| 0 <= k < nodes.len() implies decodes_as(decoded_node(record(bytes, l, k), l), fmap, #[trigger] nodes[k]) by {
            assert(!fails(k));
            lemma_node_decodes_record(decoded_node(record(bytes, l, k), l), tree, k, bm, fmap, cmap);
        }
    }
}

} // verus!
