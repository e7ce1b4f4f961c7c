//! The first index of a range at which a property fails, and the largest
//! entry of a sequence.

use vstd::prelude::*;

verus! {

/// The first index in `i..n` at which `fails` holds.
pub open spec fn first_failing(fails: spec_fn(int) -> bool, i: int, n: int) -> Option<int>
    decreases n - i,
{
    if i >= n {
        None
    } else if fails(i) {
        Some(i)
    } else {
        first_failing(fails, i + 1, n)
    }
}

/// Skipping a prefix on which nothing fails does not change the first
/// failing index.
pub proof fn lemma_first_failing(fails: spec_fn(int) -> bool, i: int, j: int, n: int)
    requires
        0 <= i <= j <= n,
        forall|k: int| i <= k < j ==> !#[trigger] fails(k),
    ensures
        first_failing(fails, i, n) == first_failing(fails, j, n),
    decreases j - i,
{
    if i < j {
        lemma_first_failing(fails, i + 1, j, n);
    }
}

/// The largest entry of a non-empty sequence.
pub open spec fn seq_max(s: Seq<i32>) -> int
    decreases s.len(),
{
    if s.len() <= 1 {
        s[0] as int
    } else {
        let m = seq_max(s.drop_last());
        if s.last() as int > m { s.last() as int } else { m }
    }
}

/// The largest entry bounds every entry and is one of them.
pub proof fn lemma_seq_max(s: Seq<i32>)
    requires
        s.len() > 0,
    ensures
        forall|i: int| 0 <= i < s.len() ==> s[i] as int <= seq_max(s),
        exists|i: int| 0 <= i < s.len() && s[i] as int == seq_max(s),
    decreases s.len(),
{
    if s.len() > 1 {
        lemma_seq_max(s.drop_last());
        let m = seq_max(s.drop_last());
        assert forall|i: int| 0 <= i < s.len() implies s[i] as int <= seq_max(s) by {
            if i < s.len() - 1 {
                assert(s[i] == s.drop_last()[i]);
            }
        }
        let j = choose|j: int| 0 <= j < s.drop_last().len() && s.drop_last()[j] as int == m;
        if s.last() as int > m {
            assert(s[s.len() - 1] as int == seq_max(s));
        } else {
            assert(s[j] as int == seq_max(s));
        }
    } else {
        assert(s[0] as int == seq_max(s));
    }
}

/// The largest entry of a non-empty slice.
pub fn max_of(s: &[i32]) -> (m: i32)
    requires
        s@.len() > 0,
    ensures
        m as int == seq_max(s@),
{
    let mut m = s[0];
    let mut i: usize = 1;
    assert(s@.subrange(0, 1) =~= seq![s@[0]]);
    while i < s.len()
        invariant
            1 <= i <= s@.len(),
            m as int == seq_max(s@.subrange(0, i as int)),
        decreases s@.len() - i,
    {
        assert(s@.subrange(0, i + 1).drop_last() =~= s@.subrange(0, i as int));
        if s[i] > m {
            m = s[i];
        }
        i = i + 1;
    }
    assert(s@.subrange(0, s@.len() as int) =~= s@);
    m
}


/// When nothing fails in `i..n`, no index there fails: the first failing
/// index is `None` exactly when the property holds nowhere in the range.
pub proof fn lemma_no_failure_before(fails: spec_fn(int) -> bool, i: int, n: int, k: int)
    requires
        i <= k < n,
        first_failing(fails, i, n) is None,
    ensures
        !fails(k),
    decreases k - i,
{
    if i < k {
        lemma_no_failure_before(fails, i + 1, n, k);
    }
}

/// When no index of `i..n` fails, the first failing index is `None`.
pub proof fn lemma_none_failing(fails: spec_fn(int) -> bool, i: int, n: int)
    requires
        forall|k: int| i <= k < n ==> !#[trigger] fails(k),
    ensures
        first_failing(fails, i, n) is None,
    decreases n - i,
{
    if i < n {
        lemma_none_failing(fails, i + 1, n);
    }
}

} // verus!
