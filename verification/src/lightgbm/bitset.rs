//! Decoding of a LightGBM categorical-split bitset into its category list.
//!
//! Category `i` is present when bit `i % 32` (least significant bit first) of
//! word `bits[i / 32]` is set.

use vstd::prelude::*;

verus! {

/// Whether category `i` is set in the word array `bits`.
pub open spec fn bit_is_set(bits: Seq<u32>, i: int) -> bool {
    (bits[i / 32] >> ((i % 32) as u32)) & 1u32 == 1u32
}

/// The categories among `0..n` whose bit is set, in ascending order.
pub open spec fn set_bits_below(bits: Seq<u32>, n: int) -> Seq<u32>
    decreases n,
{
    if n <= 0 {
        Seq::empty()
    } else {
        let prev = set_bits_below(bits, n - 1);
        if bit_is_set(bits, n - 1) {
            prev.push((n - 1) as u32)
        } else {
            prev
        }
    }
}

/// Every category of the bitset `bits` (all `bits.len() * 32` positions).
pub open spec fn bitset_categories(bits: Seq<u32>) -> Seq<u32> {
    set_bits_below(bits, (bits.len() * 32) as int)
}

/// The list of categories below `n` is strictly increasing, holds only values
/// below `n` whose bit is set, and holds every such value.
pub proof fn lemma_set_bits_below(bits: Seq<u32>, n: int)
    requires
        0 <= n <= bits.len() * 32,
        n <= 0x1_0000_0000,
    ensures
        forall|a: int, b: int|
            0 <= a < b < set_bits_below(bits, n).len() ==> set_bits_below(bits, n)[a]
                < set_bits_below(bits, n)[b],
        forall|k: int|
            0 <= k < set_bits_below(bits, n).len() ==> {
                &&& 0 <= #[trigger] set_bits_below(bits, n)[k] < n
                &&& bit_is_set(bits, set_bits_below(bits, n)[k] as int)
            },
        forall|c: int|
            0 <= c < n && bit_is_set(bits, c) ==> #[trigger] set_bits_below(bits, n).contains(
                c as u32,
            ),
    decreases n,
{
    if n > 0 {
        lemma_set_bits_below(bits, n - 1);
        let prev = set_bits_below(bits, n - 1);
        let cur = set_bits_below(bits, n);
        assert forall|c: int| 0 <= c < n && bit_is_set(bits, c) implies cur.contains(
            c as u32,
        ) by {
            if c < n - 1 {
                assert(prev.contains(c as u32));
                let w = choose|w: int| 0 <= w < prev.len() && prev[w] == c as u32;
                assert(cur[w] == c as u32);
            } else {
                assert(cur[cur.len() - 1] == c as u32);
            }
        }
    }
}

/// Decode a categorical-split bitset word array into its category list: every
/// category `i` in `0..bits.len() * 32` whose bit is set, in ascending order,
/// each written as a `u32` (so beyond `2^32` positions a category wraps, as
/// `i as u32` does).
pub fn bitset_to_list(bits: &[u32]) -> (result: Vec<u32>)
    requires
        bits@.len() * 32 <= usize::MAX,
    ensures
        result@ == bitset_categories(bits@),
        bits@.len() * 32 <= 0x1_0000_0000 ==> {
            &&& forall|a: int, b: int| 0 <= a < b < result@.len() ==> result@[a] < result@[b]
            &&& forall|k: int|
                0 <= k < result@.len() ==> {
                    &&& #[trigger] result@[k] < bits@.len() * 32
                    &&& bit_is_set(bits@, result@[k] as int)
                }
            &&& forall|c: int|
                0 <= c < bits@.len() * 32 && bit_is_set(bits@, c) ==> #[trigger] result@.contains(c as u32)
        },
{
    let nslots = bits.len();
    let nbits = nslots * 32;
    let mut result: Vec<u32> = Vec::new();
    let mut i: usize = 0;
    while i < nbits
        invariant
            nbits == bits@.len() * 32,
            i <= nbits,
            result@ == set_bits_below(bits@, i as int),
        decreases nbits - i,
    {
        let i1 = i / 32;
        let i2 = (i % 32) as u32;
        if (bits[i1] >> i2) & 1 == 1 {
            result.push(i as u32);
        }
        i = i + 1;
    }
    proof {
        if nbits <= 0x1_0000_0000 {
            lemma_set_bits_below(bits@, nbits as int);
        }
    }
    result
}

proof fn lemma_set_bits_prefix(a: Seq<u32>, b: Seq<u32>, m: int)
    requires
        0 <= m <= a.len() * 32,
    ensures
        set_bits_below(a + b, m) == set_bits_below(a, m),
    decreases m,
{
    if m > 0 {
        lemma_set_bits_prefix(a, b, m - 1);
        let i = m - 1;
        assert((a + b)[i / 32] == a[i / 32]);
    }
}

/// The categories of `b` moved past the `a.len()` words before it.
pub open spec fn shifted(cats: Seq<u32>, words: int) -> Seq<u32> {
    cats.map_values(|x: u32| (x + 32 * words) as u32)
}

proof fn lemma_set_bits_suffix(a: Seq<u32>, b: Seq<u32>, n: int)
    requires
        0 <= n <= b.len() * 32,
        (a.len() + b.len()) * 32 <= 0x1_0000_0000,
    ensures
        set_bits_below(a + b, a.len() * 32 + n) == set_bits_below(a, (a.len() * 32) as int)
            + shifted(set_bits_below(b, n), a.len() as int),
    decreases n,
{
    let base: int = (a.len() * 32) as int;
    if n == 0 {
        lemma_set_bits_prefix(a, b, base);
        assert(set_bits_below(b, 0) =~= Seq::<u32>::empty());
        assert(shifted(Seq::<u32>::empty(), a.len() as int) =~= Seq::<u32>::empty());
        assert(set_bits_below(a, base) + Seq::<u32>::empty() =~= set_bits_below(a, base));
    } else {
        lemma_set_bits_suffix(a, b, n - 1);
        let j = n - 1;
        let i = base + j;
        assert(i / 32 == a.len() + j / 32);
        assert(i % 32 == j % 32);
        assert((a + b)[i / 32] == b[j / 32]);
        assert(bit_is_set(a + b, i) == bit_is_set(b, j));
        let prev = set_bits_below(b, j);
        if bit_is_set(b, j) {
            assert(shifted(prev.push(j as u32), a.len() as int) =~= shifted(prev, a.len() as int).push(i as u32));
        }
        assert(set_bits_below(a, base) + shifted(set_bits_below(b, n), a.len() as int) =~= if bit_is_set(b, j) {
            (set_bits_below(a, base) + shifted(prev, a.len() as int)).push(i as u32)
        } else {
            set_bits_below(a, base) + shifted(prev, a.len() as int)
        });
    }
}

/// Decoding two bitsets laid end to end gives the categories of the first,
/// then those of the second moved up by 32 for every word of the first (word
/// `w` holds categories `32 * w .. 32 * w + 31`).
pub proof fn lemma_bitset_concat(a: Seq<u32>, b: Seq<u32>)
    requires
        (a.len() + b.len()) * 32 <= 0x1_0000_0000,
    ensures
        bitset_categories(a + b) == bitset_categories(a) + shifted(bitset_categories(b), a.len() as int),
{
    lemma_set_bits_suffix(a, b, (b.len() * 32) as int);
    assert((a + b).len() * 32 == a.len() * 32 + b.len() * 32);
}

} // verus!
