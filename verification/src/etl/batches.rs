//! Rows in batches.
use crate::models::value::{row_view, rows_view, CellValue};
use vstd::prelude::*;

verus! {

/// The size of batches where none is given.
pub const DEFAULT_BATCH_SIZE: usize = 5000;

/// How many batches of `size` rows `len` rows make.
pub open spec fn batch_count(len: nat, size: nat) -> nat {
    if size == 0 {
        0
    } else if len % size == 0 {
        len / size
    } else {
        len / size + 1
    }
}

/// Where a batch ends.
pub open spec fn batch_end(len: nat, size: nat, i: nat) -> nat {
    if (i + 1) * size <= len {
        (i + 1) * size
    } else {
        len
    }
}

/// The `i`-th batch.
pub open spec fn batch<A>(rows: Seq<A>, size: nat, i: nat) -> Seq<A> {
    rows.subrange((i * size) as int, batch_end(rows.len(), size, i) as int)
}

/// All batches up to the `n`-th, one after the other.
pub open spec fn first_batches<A>(rows: Seq<A>, size: nat, n: nat) -> Seq<A>
    decreases n,
{
    if n == 0 {
        seq![]
    } else {
        first_batches(rows, size, (n - 1) as nat) + batch(rows, size, (n - 1) as nat)
    }
}

/// Batches start inside the rows, are not empty, and only the last one may be short.
pub proof fn law_batches_are_full(len: nat, size: nat, i: nat)
    requires
        size > 0,
        i < batch_count(len, size),
    ensures
        i * size < len,
        i * size < batch_end(len, size, i) <= len,
        batch_end(len, size, i) - i * size <= size,
        i + 1 < batch_count(len, size) ==> batch_end(len, size, i) == (i + 1) * size,
        i + 1 == batch_count(len, size) ==> batch_end(len, size, i) == len,
{
    let q = len / size;
    let r = len % size;
    assert(len == q * size + r && 0 <= r < size) by (nonlinear_arith)
        requires
            size > 0,
            q == len / size,
            r == len % size,
    ;
    assert(i * size < len && (i + 1) * size == i * size + size && (i + 1 <= q ==> (i + 1) * size
        <= q * size) && (i == q ==> i * size == q * size)) by (nonlinear_arith)
        requires
            size > 0,
            len == q * size + r,
            0 <= r < size,
            i < q || (i == q && r > 0),
    ;
    if i + 1 == batch_count(len, size) {
        assert((i + 1) * size >= len) by (nonlinear_arith)
            requires
                size > 0,
                len == q * size + r,
                0 <= r < size,
                (r == 0 && i + 1 == q) || (r > 0 && i == q),
        ;
    }
}

proof fn lemma_first_batches<A>(rows: Seq<A>, size: nat, n: nat)
    requires
        size > 0,
        n <= batch_count(rows.len(), size),
    ensures
        n == 0 ==> first_batches(rows, size, n) == rows.take(0),
        n > 0 ==> first_batches(rows, size, n) == rows.take(
            batch_end(rows.len(), size, (n - 1) as nat) as int,
        ),
    decreases n,
{
    if n == 0 {
        assert(first_batches(rows, size, n) =~= rows.take(0));
    } else {
        let m = (n - 1) as nat;
        lemma_first_batches(rows, size, m);
        law_batches_are_full(rows.len(), size, m);
        if m > 0 {
            law_batches_are_full(rows.len(), size, (m - 1) as nat);
        } else {
            assert(m * size == 0) by (nonlinear_arith)
                requires
                    m == 0,
            ;
        }
        assert(first_batches(rows, size, n) =~= rows.take(
            batch_end(rows.len(), size, m) as int,
        ));
    }
}

/// The batches together are the rows: none is left out, none comes twice.
pub proof fn law_batches_cover_the_rows<A>(rows: Seq<A>, size: nat)
    requires
        size > 0,
    ensures
        first_batches(rows, size, batch_count(rows.len(), size)) == rows,
{
    let n = batch_count(rows.len(), size);
    lemma_first_batches(rows, size, n);
    if n > 0 {
        law_batches_are_full(rows.len(), size, (n - 1) as nat);
    } else {
        let len = rows.len();
        assert(len == 0) by (nonlinear_arith)
            requires
                size > 0,
                len % size == 0,
                len / size == 0,
        ;
    }
    assert(first_batches(rows, size, n) =~= rows);
}

/// How many batches `len` rows make.
pub fn count_batches(len: usize, size: usize) -> (r: usize)
    requires
        size > 0,
    ensures
        r == batch_count(len as nat, size as nat),
        r <= len,
{
    let q: usize = len / size;
    let rest: usize = len % size;
    assert(q <= len && (rest > 0 ==> q < len)) by (nonlinear_arith)
        requires
            size > 0,
            q == len / size,
            rest == len % size,
    ;
    if rest == 0 {
        q
    } else {
        q + 1
    }
}

/// A copy of a row.
pub fn copy_row(row: &Vec<CellValue>) -> (r: Vec<CellValue>)
    ensures
        row_view(r@) == row_view(row@),
{
    let mut out: Vec<CellValue> = Vec::new();
    let mut i: usize = 0;
    while i < row.len()
        invariant
            i <= row@.len(),
            out@.len() == i,
            forall|j: int| 0 <= j < i ==> #[trigger] out@[j]@ == row@[j]@,
        decreases row@.len() - i,
    {
        out.push(row[i].copy());
        i += 1;
    }
    assert(row_view(out@) =~= row_view(row@));
    out
}

/// A copy of the `i`-th batch.
pub fn copy_batch(rows: &Vec<Vec<CellValue>>, size: usize, i: usize) -> (r: Vec<Vec<CellValue>>)
    requires
        size > 0,
        i < batch_count(rows@.len(), size as nat),
    ensures
        rows_view(r@) == batch(rows_view(rows@), size as nat, i as nat),
{
    proof {
        law_batches_are_full(rows@.len(), size as nat, i as nat);
    }
    let len: usize = rows.len();
    let from: usize = i * size;
    let to: usize = if len - from >= size {
        from + size
    } else {
        len
    };
    assert((i + 1) * size == i * size + size) by (nonlinear_arith);
    assert(to == batch_end(rows@.len(), size as nat, i as nat));
    let mut out: Vec<Vec<CellValue>> = Vec::new();
    let mut k: usize = from;
    while k < to
        invariant
            from <= k <= to <= rows@.len(),
            out@.len() == k - from,
            forall|j: int|
                0 <= j < k - from ==> row_view(#[trigger] out@[j]@) == row_view(
                    rows@[from + j]@,
                ),
        decreases to - k,
    {
        out.push(copy_row(&rows[k]));
        k += 1;
    }
    assert(rows_view(out@) =~= batch(rows_view(rows@), size as nat, i as nat));
    out
}

} // verus!
