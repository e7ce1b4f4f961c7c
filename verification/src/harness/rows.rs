//! The rows of the memory report table: reading them back out of a report's
//! text, and merging a fresh set of rows for one allocator with the rows of
//! the other allocators, ordered by allocator and then by model.

use vstd::prelude::*;
use vstd::multiset::Multiset;
use crate::harness::memory::{MemRow, leading_u64, leading_u64_range};
use crate::text::{
    chars_of, is_whitespace, lemma_seq_lt_order, lemma_split_char_cons, lemma_trim_padded, lemma_trim_unpadded,
    range_eq, seq_lt, split_char, split_char_range, str_eq, str_lt, string_from_range, strip_char_end,
    strip_char_start, trim, trim_char, trim_char_range, trim_range,
};

verus! {

/// The content of a report row.
pub struct RowModel {
    pub model: Seq<char>,
    pub allocator: Seq<char>,
    pub peak_rss_bytes: u64,
    pub bytes_allocated: Option<u64>,
    pub method: Seq<char>,
}

/// The content of a row.
pub open spec fn row_model(r: MemRow) -> RowModel {
    RowModel {
        model: r.model@,
        allocator: r.allocator@,
        peak_rss_bytes: r.peak_rss_bytes,
        bytes_allocated: r.bytes_allocated,
        method: r.method@,
    }
}

/// The contents of a sequence of rows.
pub open spec fn rows_model(rs: Seq<MemRow>) -> Seq<RowModel> {
    rs.map_values(|r: MemRow| row_model(r))
}

/// A parsed integer as a `u64`.
pub open spec fn opt_u64(o: Option<int>) -> Option<u64> {
    match o {
        Some(v) => Some(v as u64),
        None => None,
    }
}

/// The cells of a table line: the trimmed line with its outer `|` removed,
/// split on `|`, each piece trimmed.
pub open spec fn line_cells(line: Seq<char>) -> Seq<Seq<char>> {
    split_char(trim_char(trim(line), '|'), '|').map_values(|c: Seq<char>| trim(c))
}

/// The row a report line holds, if any: a line that starts with `|` once
/// trimmed, has exactly five cells, is neither the header (first cell
/// `Model`) nor the separator (first cell starting with `---`), and whose
/// third cell starts with an integer (which the size table's rows lack).
pub open spec fn report_row(line: Seq<char>) -> Option<RowModel> {
    let t = trim(line);
    let cells = line_cells(line);
    if t.len() == 0 || t[0] != '|' {
        None
    } else if cells.len() != 5 {
        None
    } else if cells[0] == "Model"@ || (cells[0].len() >= 3 && cells[0].subrange(0, 3) == "---"@) {
        None
    } else {
        match leading_u64(cells[2]) {
            None => None,
            Some(rss) => Some(
                RowModel {
                    model: cells[0],
                    allocator: cells[1],
                    peak_rss_bytes: rss as u64,
                    bytes_allocated: opt_u64(leading_u64(cells[3])),
                    method: cells[4],
                },
            ),
        }
    }
}

/// The rows held by a sequence of lines, in order.
pub open spec fn report_rows(lines: Seq<Seq<char>>) -> Seq<RowModel>
    decreases lines.len(),
{
    if lines.len() == 0 {
        Seq::empty()
    } else {
        let rest = report_rows(lines.drop_last());
        match report_row(lines.last()) {
            Some(r) => rest.push(r),
            None => rest,
        }
    }
}

/// The row held by the line `cs[lo..hi]` (see [`report_row`]).
fn parse_report_line(cs: &[char], lo: usize, hi: usize) -> (r: Option<MemRow>)
    requires
        lo <= hi <= cs@.len(),
    ensures
        match report_row(cs@.subrange(lo as int, hi as int)) {
            None => r is None,
            Some(m) => r matches Some(row) && row_model(row) == m,
        },
{
    let ghost line = cs@.subrange(lo as int, hi as int);
    let (a, b) = trim_range(cs, lo, hi);
    if a == b || cs[a] != '|' {
        assert(a < b ==> trim(line)[0] == cs@[a as int]);
        return None;
    }
    let (a1, b1) = trim_char_range(cs, a, b, '|');
    let pieces = split_char_range(cs, a1, b1, '|');
    let ghost cells = line_cells(line);
    assert(cells.len() == pieces@.len());
    if pieces.len() != 5 {
        return None;
    }
    let (c0, d0) = trim_range(cs, pieces[0].0, pieces[0].1);
    let (c1, d1) = trim_range(cs, pieces[1].0, pieces[1].1);
    let (c2, d2) = trim_range(cs, pieces[2].0, pieces[2].1);
    let (c3, d3) = trim_range(cs, pieces[3].0, pieces[3].1);
    let (c4, d4) = trim_range(cs, pieces[4].0, pieces[4].1);
    assert(cells[0] == cs@.subrange(c0 as int, d0 as int));
    assert(cells[1] == cs@.subrange(c1 as int, d1 as int));
    assert(cells[2] == cs@.subrange(c2 as int, d2 as int));
    assert(cells[3] == cs@.subrange(c3 as int, d3 as int));
    assert(cells[4] == cs@.subrange(c4 as int, d4 as int));
    let header = chars_of("Model");
    let dashes = chars_of("---");
    if range_eq(cs, c0, d0, header.as_slice()) {
        return None;
    }
    if d0 - c0 >= 3 {
        assert(cells[0].subrange(0, 3) =~= cs@.subrange(c0 as int, c0 + 3));
        if range_eq(cs, c0, c0 + 3, dashes.as_slice()) {
            return None;
        }
    }
    let rss = match leading_u64_range(cs, c2, d2) {
        Some(v) => v,
        None => {
            return None;
        },
    };
    let allocated = leading_u64_range(cs, c3, d3);
    Some(
        MemRow {
            model: string_from_range(cs, c0, d0),
            allocator: string_from_range(cs, c1, d1),
            peak_rss_bytes: rss,
            bytes_allocated: allocated,
            method: string_from_range(cs, c4, d4),
        },
    )
}

/// The rows of the main table of a previously written report: every line
/// (split on `\n`; a trailing `\r` is whitespace and trimmed away) that holds
/// a row, in order (see [`report_row`]). Text that holds none gives no rows.
pub fn parse_existing_rows(text: &str) -> (rows: Vec<MemRow>)
    ensures
        rows_model(rows@) == report_rows(split_char(text@, '\n')),
{
    let cs = chars_of(text);
    let n = cs.len();
    assert(cs@.subrange(0, n as int) =~= cs@);
    let lines = split_char_range(cs.as_slice(), 0, n, '\n');
    let ghost all = split_char(cs@, '\n');
    let mut rows: Vec<MemRow> = Vec::new();
    let mut i: usize = 0;
    while i < lines.len()
        invariant
            i <= lines@.len(),
            n == cs@.len(),
            cs@ == text@,
            all == split_char(cs@, '\n'),
            lines@.len() == all.len(),
            forall|j: int|
                0 <= j < lines@.len() ==> {
                    &&& 0 <= (#[trigger] lines@[j]).0 <= lines@[j].1 <= n
                    &&& cs@.subrange(lines@[j].0 as int, lines@[j].1 as int) == all[j]
                },
            rows_model(rows@) == report_rows(all.subrange(0, i as int)),
        decreases lines@.len() - i,
    {
        let (lo, hi) = lines[i];
        let ghost before = rows@;
        let parsed = parse_report_line(cs.as_slice(), lo, hi);
        assert(all.subrange(0, i + 1).drop_last() =~= all.subrange(0, i as int));
        assert(all.subrange(0, i + 1).last() == all[i as int]);
        match parsed {
            Some(row) => {
                rows.push(row);
                assert(rows_model(rows@) =~= rows_model(before).push(row_model(row)));
            },
            None => {},
        }
        i = i + 1;
    }
    assert(all.subrange(0, i as int) =~= all);
    rows
}

/// `y` sorts strictly before `x`: by allocator, then by model.
pub open spec fn sorts_after(x: RowModel, y: RowModel) -> bool {
    seq_lt(y.allocator, x.allocator) || (y.allocator == x.allocator && seq_lt(y.model, x.model))
}

/// The first position of `s` whose row sorts after `x`, or the length.
pub open spec fn first_after(s: Seq<RowModel>, x: RowModel) -> int
    decreases s.len(),
{
    if s.len() == 0 {
        0
    } else if sorts_after(s[0], x) {
        0
    } else {
        1 + first_after(s.drop_first(), x)
    }
}

/// `s` with `x` inserted after every row that does not sort after it.
pub open spec fn insert_sorted(s: Seq<RowModel>, x: RowModel) -> Seq<RowModel> {
    s.insert(first_after(s, x), x)
}

/// The stable sort of `s` by allocator, then model: equal keys keep their
/// order.
pub open spec fn sort_rows(s: Seq<RowModel>) -> Seq<RowModel>
    decreases s.len(),
{
    if s.len() == 0 {
        s
    } else {
        insert_sorted(sort_rows(s.drop_last()), s.last())
    }
}

/// The rows of `s` whose allocator is not `allocator`, in order.
pub open spec fn kept_rows(s: Seq<RowModel>, allocator: Seq<char>) -> Seq<RowModel>
    decreases s.len(),
{
    if s.len() == 0 {
        s
    } else {
        let rest = kept_rows(s.drop_last(), allocator);
        if s.last().allocator != allocator {
            rest.push(s.last())
        } else {
            rest
        }
    }
}

proof fn lemma_first_after(s: Seq<RowModel>, x: RowModel, k: int)
    requires
        0 <= k <= s.len(),
        forall|j: int| 0 <= j < k ==> !sorts_after(#[trigger] s[j], x),
        k == s.len() || sorts_after(s[k], x),
    ensures
        first_after(s, x) == k,
    decreases k,
{
    if k > 0 {
        assert forall|j: int| 0 <= j < k - 1 implies !sorts_after(#[trigger] s.drop_first()[j], x) by {
            assert(s.drop_first()[j] == s[j + 1]);
        }
        lemma_first_after(s.drop_first(), x, k - 1);
    }
}

/// Whether `s` sorts after `x` (see [`sorts_after`]).
fn row_sorts_after(s: &MemRow, x: &MemRow) -> (b: bool)
    ensures
        b == sorts_after(row_model(*s), row_model(*x)),
{
    if str_lt(x.allocator.as_str(), s.allocator.as_str()) {
        true
    } else if str_eq(x.allocator.as_str(), s.allocator.as_str()) {
        str_lt(x.model.as_str(), s.model.as_str())
    } else {
        false
    }
}

/// Insert `row` into `sorted` after every row that does not sort after it.
fn insert_row(sorted: &mut Vec<MemRow>, row: MemRow)
    ensures
        rows_model(final(sorted)@) == insert_sorted(rows_model(old(sorted)@), row_model(row)),
{
    let ghost s = rows_model(sorted@);
    let mut k: usize = 0;
    while k < sorted.len() && !row_sorts_after(&sorted[k], &row)
        invariant
            k <= sorted@.len(),
            s == rows_model(sorted@),
            forall|j: int| 0 <= j < k ==> !sorts_after(#[trigger] s[j], row_model(row)),
        decreases sorted@.len() - k,
    {
        k = k + 1;
    }
    proof {
        lemma_first_after(s, row_model(row), k as int);
    }
    let ghost before = sorted@;
    sorted.insert(k, row);
    assert(rows_model(sorted@) =~= s.insert(k as int, row_model(row)));
}

/// Merge the freshly sampled `new_rows` (all for `allocator`) with the rows
/// of a previous report: the previous rows of `allocator` are dropped, the
/// others kept, and the whole is stably sorted by allocator, then model, so
/// that each allocator's rows form one block.
pub fn merge_existing_rows(existing: Vec<MemRow>, allocator: &str, new_rows: Vec<MemRow>) -> (merged:
    Vec<MemRow>)
    ensures
        rows_model(merged@) == sort_rows(
            kept_rows(rows_model(existing@), allocator@) + rows_model(new_rows@),
        ),
{
    let ghost ex = rows_model(existing@);
    let ghost nw = rows_model(new_rows@);
    let mut existing = existing;
    let mut new_rows = new_rows;
    let mut sorted: Vec<MemRow> = Vec::new();
    let ghost mut i: int = 0;
    assert(kept_rows(ex.subrange(0, 0), allocator@) =~= Seq::<RowModel>::empty());
    assert(sort_rows(Seq::<RowModel>::empty()) =~= Seq::<RowModel>::empty());
    while existing.len() > 0
        invariant
            0 <= i <= ex.len(),
            existing@.len() == ex.len() - i,
            rows_model(existing@) == ex.subrange(i, ex.len() as int),
            rows_model(sorted@) == sort_rows(kept_rows(ex.subrange(0, i), allocator@)),
        decreases existing@.len(),
    {
        let ghost rest = existing@;
        let row = existing.remove(0);
        assert(row_model(row) == rows_model(rest)[0]);
        assert(ex[i] == row_model(row)) by {
            assert(ex.subrange(i, ex.len() as int)[0] == ex[i]);
        }
        assert(ex.subrange(0, i + 1).drop_last() =~= ex.subrange(0, i));
        let keep = !str_eq(row.allocator.as_str(), allocator);
        if keep {
            let ghost seen = kept_rows(ex.subrange(0, i), allocator@);
            insert_row(&mut sorted, row);
            assert(seen.push(ex[i]).drop_last() =~= seen);
        }
        proof {
            i = i + 1;
        }
        assert forall|k: int| 0 <= k < existing@.len() implies rows_model(existing@)[k]
            == ex.subrange(i, ex.len() as int)[k] by {
            assert(existing@[k] == rest[k + 1]);
            assert(rows_model(rest)[k + 1] == ex.subrange(i - 1, ex.len() as int)[k + 1]);
        }
        assert(rows_model(existing@) =~= ex.subrange(i, ex.len() as int));
    }
    assert(ex.subrange(0, i) =~= ex);
    let ghost kept = kept_rows(ex, allocator@);
    let ghost mut j: int = 0;
    assert(kept + nw.subrange(0, 0) =~= kept);
    while new_rows.len() > 0
        invariant
            0 <= j <= nw.len(),
            new_rows@.len() == nw.len() - j,
            rows_model(new_rows@) == nw.subrange(j, nw.len() as int),
            rows_model(sorted@) == sort_rows(kept + nw.subrange(0, j)),
        decreases new_rows@.len(),
    {
        let ghost rest = new_rows@;
        let row = new_rows.remove(0);
        assert(row_model(row) == rows_model(rest)[0]);
        assert(nw[j] == row_model(row)) by {
            assert(nw.subrange(j, nw.len() as int)[0] == nw[j]);
        }
        let ghost seen = kept + nw.subrange(0, j);
        insert_row(&mut sorted, row);
        assert((kept + nw.subrange(0, j + 1)).drop_last() =~= seen);
        assert((kept + nw.subrange(0, j + 1)).last() == nw[j]);
        proof {
            j = j + 1;
        }
        assert forall|k: int| 0 <= k < new_rows@.len() implies rows_model(new_rows@)[k]
            == nw.subrange(j, nw.len() as int)[k] by {
            assert(new_rows@[k] == rest[k + 1]);
            assert(rows_model(rest)[k + 1] == nw.subrange(j - 1, nw.len() as int)[k + 1]);
        }
        assert(rows_model(new_rows@) =~= nw.subrange(j, nw.len() as int));
    }
    assert(nw.subrange(0, j) =~= nw);
    sorted
}

/// Every row sorts no earlier than the rows before it.
pub open spec fn rows_sorted(s: Seq<RowModel>) -> bool {
    forall|i: int, j: int| 0 <= i < j < s.len() ==> !sorts_after(#[trigger] s[i], #[trigger] s[j])
}

proof fn lemma_sorts_after_order(a: RowModel, b: RowModel, c: RowModel)
    ensures
        sorts_after(a, b) ==> !sorts_after(b, a),
        sorts_after(a, b) && sorts_after(b, c) ==> sorts_after(a, c),
{
    lemma_seq_lt_order(a.allocator, b.allocator, c.allocator);
    lemma_seq_lt_order(b.allocator, a.allocator, c.allocator);
    lemma_seq_lt_order(c.allocator, b.allocator, a.allocator);
    lemma_seq_lt_order(a.model, b.model, c.model);
    lemma_seq_lt_order(b.model, a.model, c.model);
    lemma_seq_lt_order(c.model, b.model, a.model);
}

proof fn lemma_first_after_bounds(s: Seq<RowModel>, x: RowModel)
    ensures
        0 <= first_after(s, x) <= s.len(),
        forall|j: int| 0 <= j < first_after(s, x) ==> !sorts_after(#[trigger] s[j], x),
        first_after(s, x) < s.len() ==> sorts_after(s[first_after(s, x)], x),
    decreases s.len(),
{
    if s.len() > 0 && !sorts_after(s[0], x) {
        lemma_first_after_bounds(s.drop_first(), x);
        assert forall|j: int| 0 <= j < first_after(s, x) implies !sorts_after(#[trigger] s[j], x) by {
            if j > 0 {
                assert(s[j] == s.drop_first()[j - 1]);
            }
        }
    }
}

proof fn lemma_insert_sorted(s: Seq<RowModel>, x: RowModel)
    requires
        rows_sorted(s),
    ensures
        rows_sorted(insert_sorted(s, x)),
        insert_sorted(s, x).to_multiset() == s.to_multiset().insert(x),
{
    broadcast use vstd::seq_lib::group_seq_properties;
    broadcast use vstd::multiset::group_multiset_axioms;

    let k = first_after(s, x);
    lemma_first_after_bounds(s, x);
    let t = s.insert(k, x);
    assert forall|i: int, j: int| 0 <= i < j < t.len() implies !sorts_after(#[trigger] t[i], #[trigger] t[j]) by {
        if j < k {
            assert(t[i] == s[i] && t[j] == s[j]);
        } else if j == k {
            assert(t[i] == s[i] && t[j] == x);
        } else if i > k {
            assert(t[i] == s[i - 1] && t[j] == s[j - 1]);
        } else if i == k {
            assert(t[i] == x && t[j] == s[j - 1]);
            lemma_sorts_after_order(s[k], x, s[j - 1]);
            lemma_sorts_after_order(x, s[j - 1], s[k]);
            lemma_sorts_after_order(s[j - 1], x, s[k]);
            if j - 1 > k {
                assert(!sorts_after(s[k], s[j - 1]));
            }
        } else {
            assert(t[i] == s[i] && t[j] == s[j - 1]);
        }
    }
    assert(t.remove(k) =~= s);
    assert(t[k] == x);
    assert(t.to_multiset().remove(x) == s.to_multiset());
    assert(t.to_multiset().count(x) > 0) by {
        assert(t.contains(x));
    }
    assert(t.to_multiset() =~= s.to_multiset().insert(x));
}

proof fn lemma_sort_rows(s: Seq<RowModel>)
    ensures
        rows_sorted(sort_rows(s)),
        sort_rows(s).to_multiset() == s.to_multiset(),
    decreases s.len(),
{
    broadcast use vstd::seq_lib::group_seq_properties;

    if s.len() > 0 {
        lemma_sort_rows(s.drop_last());
        lemma_insert_sorted(sort_rows(s.drop_last()), s.last());
        assert(s.drop_last().push(s.last()) =~= s);
    }
}

proof fn lemma_kept_rows(s: Seq<RowModel>, allocator: Seq<char>, r: RowModel)
    ensures
        kept_rows(s, allocator).to_multiset().count(r) == (if r.allocator == allocator {
            0
        } else {
            s.to_multiset().count(r)
        }),
    decreases s.len(),
{
    broadcast use vstd::seq_lib::group_seq_properties;
    broadcast use vstd::multiset::group_multiset_axioms;

    if s.len() == 0 {
        assert(s.to_multiset() =~= Multiset::empty());
    } else {
        lemma_kept_rows(s.drop_last(), allocator, r);
        assert(s.drop_last().push(s.last()) =~= s);
    }
}

/// Merging orders the table by allocator, then model, so that the rows of
/// one allocator form one contiguous block, and it holds exactly the new
/// rows together with the earlier rows of every other allocator (each as
/// often as before): the earlier rows of `allocator` are replaced.
pub proof fn lemma_merge_rows(existing: Seq<RowModel>, allocator: Seq<char>, new_rows: Seq<RowModel>)
    ensures
        rows_sorted(sort_rows(kept_rows(existing, allocator) + new_rows)),
        forall|i: int, j: int, l: int|
            0 <= i < j < l < sort_rows(kept_rows(existing, allocator) + new_rows).len()
                && (#[trigger] sort_rows(kept_rows(existing, allocator) + new_rows)[i]).allocator
                == (#[trigger] sort_rows(kept_rows(existing, allocator) + new_rows)[l]).allocator
                ==> (#[trigger] sort_rows(kept_rows(existing, allocator) + new_rows)[j]).allocator
                == sort_rows(kept_rows(existing, allocator) + new_rows)[i].allocator,
        forall|r: RowModel|
            #[trigger] sort_rows(kept_rows(existing, allocator) + new_rows).to_multiset().count(r)
                == new_rows.to_multiset().count(r) + (if r.allocator == allocator {
                0
            } else {
                existing.to_multiset().count(r)
            }),
{
    broadcast use vstd::multiset::group_multiset_axioms;

    let all = kept_rows(existing, allocator) + new_rows;
    let m = sort_rows(all);
    lemma_sort_rows(all);
    assert forall|i: int, j: int, l: int|
        0 <= i < j < l < m.len() && (#[trigger] m[i]).allocator == (#[trigger] m[l]).allocator
        implies (#[trigger] m[j]).allocator == m[i].allocator by {
        assert(!sorts_after(m[i], m[j]));
        assert(!sorts_after(m[j], m[l]));
        lemma_seq_lt_order(m[j].allocator, m[i].allocator, m[l].allocator);
    }
    assert forall|r: RowModel| #[trigger] m.to_multiset().count(r) == new_rows.to_multiset().count(r)
        + (if r.allocator == allocator {
        0
    } else {
        existing.to_multiset().count(r)
    }) by {
        vstd::seq_lib::lemma_multiset_commutative(kept_rows(existing, allocator), new_rows);
        lemma_kept_rows(existing, allocator, r);
    }
}

/// A cell as the report writes it: padded with one space on each side.
pub open spec fn pad(c: Seq<char>) -> Seq<char> {
    seq![' '] + c + seq![' ']
}

/// The padded cells joined by `|`: `c0 | c1 | c2 | c3 | c4` with a space
/// on each outer side.
pub open spec fn joined_cells(
    c0: Seq<char>,
    c1: Seq<char>,
    c2: Seq<char>,
    c3: Seq<char>,
    c4: Seq<char>,
) -> Seq<char> {
    pad(c0) + seq!['|'] + (pad(c1) + seq!['|'] + (pad(c2) + seq!['|'] + (pad(c3) + seq!['|'] + pad(c4))))
}

/// A table line of five cells as the report writes it:
/// `| c0 | c1 | c2 | c3 | c4 |`.
pub open spec fn table_line(
    c0: Seq<char>,
    c1: Seq<char>,
    c2: Seq<char>,
    c3: Seq<char>,
    c4: Seq<char>,
) -> Seq<char> {
    seq!['|'] + joined_cells(c0, c1, c2, c3, c4) + seq!['|']
}

/// A cell a table line can carry intact: it holds no `|` and has no
/// surrounding whitespace.
pub open spec fn plain_cell(c: Seq<char>) -> bool {
    &&& forall|j: int| 0 <= j < c.len() ==> c[j] != '|'
    &&& (c.len() == 0 || (!is_whitespace(c[0]) && !is_whitespace(c.last())))
}

proof fn lemma_pad_plain(c: Seq<char>)
    requires
        plain_cell(c),
    ensures
        forall|j: int| 0 <= j < pad(c).len() ==> pad(c)[j] != '|',
        trim(pad(c)) == c,
        pad(c)[0] == ' ',
        pad(c).last() == ' ',
{
    assert forall|j: int| 0 <= j < pad(c).len() implies pad(c)[j] != '|' by {
        if 1 <= j < c.len() + 1 {
            assert(pad(c)[j] == c[j - 1]);
        }
    }
    lemma_trim_padded(c);
}

proof fn lemma_line_outer(inner: Seq<char>)
    requires
        inner.len() > 0,
        inner[0] == ' ',
        inner.last() == ' ',
    ensures
        trim(seq!['|'] + inner + seq!['|']) == seq!['|'] + inner + seq!['|'],
        trim_char(seq!['|'] + inner + seq!['|'], '|') == inner,
{
    let line = seq!['|'] + inner + seq!['|'];
    assert(line[0] == '|');
    assert(line.last() == '|');
    lemma_trim_unpadded(line);
    let no_last = line.drop_last();
    assert(no_last =~= seq!['|'] + inner);
    assert(no_last.last() == ' ');
    assert(strip_char_end(no_last, '|') == no_last);
    assert(strip_char_end(line, '|') == no_last);
    assert(no_last.drop_first() =~= inner);
    assert(strip_char_start(inner, '|') == inner);
    assert(strip_char_start(no_last, '|') == inner);
}

proof fn lemma_joined_pieces(c0: Seq<char>, c1: Seq<char>, c2: Seq<char>, c3: Seq<char>, c4: Seq<char>)
    requires
        plain_cell(c0),
        plain_cell(c1),
        plain_cell(c2),
        plain_cell(c3),
        plain_cell(c4),
    ensures
        split_char(joined_cells(c0, c1, c2, c3, c4), '|') == seq![pad(c0), pad(c1), pad(c2), pad(c3), pad(c4)],
{
    lemma_pad_plain(c0);
    lemma_pad_plain(c1);
    lemma_pad_plain(c2);
    lemma_pad_plain(c3);
    lemma_pad_plain(c4);
    let rest3 = pad(c3) + seq!['|'] + pad(c4);
    let rest2 = pad(c2) + seq!['|'] + rest3;
    let rest1 = pad(c1) + seq!['|'] + rest2;
    lemma_split_char_cons(pad(c4), Seq::empty(), '|');
    lemma_split_char_cons(pad(c3), pad(c4), '|');
    lemma_split_char_cons(pad(c2), rest3, '|');
    lemma_split_char_cons(pad(c1), rest2, '|');
    lemma_split_char_cons(pad(c0), rest1, '|');
    assert(split_char(rest3, '|') =~= seq![pad(c3), pad(c4)]);
    assert(split_char(rest2, '|') =~= seq![pad(c2), pad(c3), pad(c4)]);
    assert(split_char(rest1, '|') =~= seq![pad(c1), pad(c2), pad(c3), pad(c4)]);
}

/// A table line of the shape the report writes reads back as the row it was
/// written from, whenever its cells are plain, its first cell is neither the
/// header's nor a separator's, and its resident-size cell starts with an
/// integer: the rows a run writes are the rows the next run merges.
pub proof fn lemma_written_row_reads_back(
    model: Seq<char>,
    allocator: Seq<char>,
    rss_cell: Seq<char>,
    allocated_cell: Seq<char>,
    method: Seq<char>,
)
    requires
        plain_cell(model),
        plain_cell(allocator),
        plain_cell(rss_cell),
        plain_cell(allocated_cell),
        plain_cell(method),
        model != "Model"@,
        !(model.len() >= 3 && model.subrange(0, 3) == "---"@),
        leading_u64(rss_cell) is Some,
    ensures
        report_row(table_line(model, allocator, rss_cell, allocated_cell, method)) == Some(
            RowModel {
                model,
                allocator,
                peak_rss_bytes: leading_u64(rss_cell)->Some_0 as u64,
                bytes_allocated: opt_u64(leading_u64(allocated_cell)),
                method,
            },
        ),
{
    let inner = joined_cells(model, allocator, rss_cell, allocated_cell, method);
    let line = table_line(model, allocator, rss_cell, allocated_cell, method);
    lemma_pad_plain(model);
    lemma_pad_plain(allocator);
    lemma_pad_plain(rss_cell);
    lemma_pad_plain(allocated_cell);
    lemma_pad_plain(method);
    assert(inner[0] == ' ');
    assert(inner.last() == ' ');
    lemma_line_outer(inner);
    lemma_joined_pieces(model, allocator, rss_cell, allocated_cell, method);
    let cells = line_cells(line);
    assert(cells =~= seq![model, allocator, rss_cell, allocated_cell, method]);
}

} // verus!
