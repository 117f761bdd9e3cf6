use vstd::prelude::*;

use vstd::arithmetic::div_mod::{
    lemma_fundamental_div_mod, lemma_fundamental_div_mod_converse, lemma_mod_bound,
};

use crate::error::MatrixError;
use crate::vector::{checked_dot, dot_fits, dot_spec, lemma_dot_fits_bounded, Vector};

verus! {

/// A row-major two-dimensional container that owns its buffer.
#[derive(Debug)]
pub struct Matrix {
    pub rows: usize,
    pub cols: usize,
    pub data: Vec<i64>,
}

impl Matrix {
    /// The shape invariant: the buffer holds exactly one element per cell.
    pub open spec fn wf(&self) -> bool {
        self.data@.len() == (self.rows as int) * (self.cols as int)
    }

    /// Stores the triple as given; the shape invariant is the caller's
    /// concern and is required by the operations that index the buffer.
    pub fn new(rows: usize, cols: usize, data: Vec<i64>) -> (m: Matrix)
        ensures
            m.rows == rows,
            m.cols == cols,
            m.data@ == data@,
    {
        Matrix { rows, cols, data }
    }
}

/// The element at row `i`, column `j` of `m`, row-major.
pub open spec fn mat_at(m: Matrix, i: int, j: int) -> i64 {
    m.data@[i * (m.cols as int) + j]
}

/// Row `i` of `m`: `cols` contiguous elements.
pub open spec fn spec_row(m: Matrix, i: int) -> Seq<i64> {
    m.data@.subrange(i * (m.cols as int), (i + 1) * (m.cols as int))
}

/// Column `j` of `m`: one element from each row, stride `cols`.
pub open spec fn spec_col(m: Matrix, j: int) -> Seq<i64> {
    Seq::new(m.rows as nat, |l: int| m.data@[l * (m.cols as int) + j])
}

/// Row `i` of a well-formed matrix lies within the buffer, has `cols`
/// elements, and reads back the row-major cells.
pub proof fn lemma_row_in_bounds(m: Matrix, i: int)
    requires
        m.wf(),
        0 <= i < m.rows,
    ensures
        0 <= i * (m.cols as int),
        i * (m.cols as int) + (m.cols as int) <= m.data@.len(),
        (i + 1) * (m.cols as int) == i * (m.cols as int) + (m.cols as int),
        spec_row(m, i).len() == m.cols,
        forall|t: int| 0 <= t < m.cols ==> spec_row(m, i)[t] == mat_at(m, i, t),
{
    let r = m.rows as int;
    let c = m.cols as int;
    assert(0 <= i * c && (i + 1) * c <= r * c && (i + 1) * c == i * c + c) by (nonlinear_arith)
        requires
            0 <= i,
            i < r,
            0 <= c,
    ;
    assert forall|t: int| 0 <= t < m.cols implies spec_row(m, i)[t] == mat_at(m, i, t) by {
        assert(spec_row(m, i)[t] == m.data@[i * c + t]);
    }
}

/// Column `j` of a well-formed matrix lies within the buffer, has `rows`
/// elements, and reads back the row-major cells.
pub proof fn lemma_col_in_bounds(m: Matrix, j: int)
    requires
        m.wf(),
        0 <= j < m.cols,
    ensures
        spec_col(m, j).len() == m.rows,
        forall|l: int|
            0 <= l < m.rows ==> 0 <= #[trigger] (l * (m.cols as int)) && l * (m.cols as int) + j
                < m.data@.len(),
        forall|l: int| 0 <= l < m.rows ==> spec_col(m, j)[l] == mat_at(m, l, j),
{
    let r = m.rows as int;
    let c = m.cols as int;
    assert forall|l: int|
        0 <= l < m.rows implies 0 <= #[trigger] (l * c) && l * c + j < m.data@.len() by {
        assert(0 <= l * c && l * c + j < r * c) by (nonlinear_arith)
            requires
                0 <= l,
                l < r,
                0 <= j,
                j < c,
        ;
    }
}

/// Copies row `i` of `m` into a fresh vector.
pub fn row_of(m: &Matrix, i: usize) -> (v: Vector)
    requires
        m.wf(),
        i < m.rows,
    ensures
        v@ == spec_row(*m, i as int),
        v@.len() == m.cols,
{
    proof {
        lemma_row_in_bounds(*m, i as int);
    }
    let c = m.cols;
    let len = m.data.len();
    proof {
        assert((i as int) * (c as int) + (c as int) <= len);
    }
    let start = i * c;
    let mut out: Vec<i64> = Vec::new();
    let mut t: usize = 0;
    while t < c
        invariant
            m.wf(),
            i < m.rows,
            c == m.cols,
            start == i * c,
            0 <= t <= c,
            len == m.data@.len(),
            (i as int) * (c as int) + (c as int) <= m.data@.len(),
            spec_row(*m, i as int).len() == c,
            forall|u: int| 0 <= u < m.cols ==> spec_row(*m, i as int)[u] == mat_at(*m, i as int, u),
            out@.len() == t,
            forall|u: int| 0 <= u < t ==> out@[u] == spec_row(*m, i as int)[u],
        decreases c - t,
    {
        out.push(m.data[start + t]);
        proof {
            assert(spec_row(*m, i as int)[t as int] == mat_at(*m, i as int, t as int));
            assert(mat_at(*m, i as int, t as int) == m.data@[(i as int) * (m.cols as int) + (
            t as int)]);
        }
        t = t + 1;
    }
    proof {
        assert(out@ =~= spec_row(*m, i as int));
    }
    Vector { data: out }
}

/// Materializes column `j` of `m` as a contiguous copy, striding through
/// the buffer with step `cols`.
pub fn col_of(m: &Matrix, j: usize) -> (v: Vector)
    requires
        m.wf(),
        j < m.cols,
    ensures
        v@ == spec_col(*m, j as int),
        v@.len() == m.rows,
{
    proof {
        lemma_col_in_bounds(*m, j as int);
    }
    let r = m.rows;
    let c = m.cols;
    let len = m.data.len();
    let mut out: Vec<i64> = Vec::new();
    let mut l: usize = 0;
    while l < r
        invariant
            m.wf(),
            j < m.cols,
            r == m.rows,
            c == m.cols,
            len == m.data@.len(),
            0 <= l <= r,
            forall|u: int|
                0 <= u < m.rows ==> 0 <= #[trigger] (u * (m.cols as int)) && u * (m.cols as int)
                    + (j as int) < m.data@.len(),
            spec_col(*m, j as int).len() == r,
            forall|u: int| 0 <= u < m.rows ==> spec_col(*m, j as int)[u] == mat_at(
                *m,
                u,
                j as int,
            ),
            out@.len() == l,
            forall|u: int| 0 <= u < l ==> out@[u] == spec_col(*m, j as int)[u],
        decreases r - l,
    {
        proof {
            assert(0 <= (l as int) * (m.cols as int) && (l as int) * (m.cols as int) + (j as int)
                < m.data@.len());
        }
        out.push(m.data[l * c + j]);
        l = l + 1;
    }
    proof {
        assert(out@ =~= spec_col(*m, j as int));
    }
    Vector { data: out }
}

/// One unit of work: the operand vectors for a single output cell and the
/// destination linear index the reply must be written to.
pub struct MsgInput {
    pub idx: usize,
    pub row: Vector,
    pub col: Vector,
}

impl MsgInput {
    pub fn new(idx: usize, row: Vector, col: Vector) -> (m: MsgInput)
        ensures
            m.idx == idx,
            m.row == row,
            m.col == col,
    {
        MsgInput { idx, row, col }
    }
}

/// A reply: the computed value, tagged with the destination index of the
/// task it answers. Emitted exactly once per task.
#[derive(Debug, Clone, Copy, PartialEq, Eq, Structural)]
pub struct MsgOutput {
    pub idx: usize,
    pub value: i64,
}

/// The task for cell `k` of the product of `a` (left) and `b` (right):
/// destination index `k`, row `k / b.cols` of `a`, column `k % b.cols` of
/// `b`.
pub open spec fn task_correct(a: Matrix, b: Matrix, task: MsgInput, k: int) -> bool {
    &&& task.idx == k
    &&& task.row@ == spec_row(a, k / (b.cols as int))
    &&& task.col@ == spec_col(b, k % (b.cols as int))
}

/// Cell `k` of the product matrix: the dot product of the row and column
/// that cell `k` selects.
pub open spec fn product_entry(a: Matrix, b: Matrix, k: int) -> int {
    dot_spec(spec_row(a, k / (b.cols as int)), spec_col(b, k % (b.cols as int)))
}

/// Every cell of the product of `a` and `b` can be computed in `i64`
/// arithmetic without overflow.
pub open spec fn mul_fits(a: Matrix, b: Matrix) -> bool {
    forall|i: int, j: int|
        0 <= i < a.rows && 0 <= j < b.cols ==> dot_fits(
            #[trigger] spec_row(a, i),
            #[trigger] spec_col(b, j),
        )
}

/// For a linear index `k` into an `r` by `c` grid, `k / c` is a valid row
/// and `k % c` a valid column.
pub proof fn lemma_linear_index_bounds(k: int, r: int, c: int)
    requires
        0 <= k,
        k < r * c,
        0 < c,
    ensures
        0 <= k / c < r,
        0 <= k % c < c,
        k == (k / c) * c + (k % c),
{
    lemma_fundamental_div_mod(k, c);
    lemma_mod_bound(k, c);
    let q = k / c;
    let rem = k % c;
    assert(0 <= q < r && k == q * c + rem) by (nonlinear_arith)
        requires
            k == c * q + rem,
            0 <= rem < c,
            0 <= k,
            k < r * c,
            0 < c,
    ;
}

/// Builds one task per output cell of the product of `a` and `b`, in
/// row-major creation order: task `k` carries destination index `k`, row
/// `k / b.cols` of `a`, and column `k % b.cols` of `b`.
pub fn make_tasks(a: &Matrix, b: &Matrix) -> (tasks: Vec<MsgInput>)
    requires
        a.wf(),
        b.wf(),
        a.cols == b.rows,
        (a.rows as int) * (b.cols as int) <= usize::MAX as int,
    ensures
        tasks@.len() == (a.rows as int) * (b.cols as int),
        forall|k: int| 0 <= k < tasks@.len() ==> task_correct(*a, *b, #[trigger] tasks@[k], k),
{
    let r = a.rows;
    let c = b.cols;
    let mut tasks: Vec<MsgInput> = Vec::new();
    let mut i: usize = 0;
    while i < r
        invariant
            a.wf(),
            b.wf(),
            a.cols == b.rows,
            r == a.rows,
            c == b.cols,
            (r as int) * (c as int) <= usize::MAX as int,
            0 <= i <= r,
            tasks@.len() == (i as int) * (c as int),
            forall|k: int| 0 <= k < tasks@.len() ==> task_correct(*a, *b, #[trigger] tasks@[k], k),
        decreases r - i,
    {
        let mut j: usize = 0;
        proof {
            assert((i as int) * (c as int) + (c as int) == (i + 1) * (c as int) && (i + 1) * (
            c as int) <= (r as int) * (c as int)) by (nonlinear_arith)
                requires
                    0 <= i,
                    (i as int) < r as int,
                    0 <= c as int,
            ;
        }
        while j < c
            invariant
                a.wf(),
                b.wf(),
                a.cols == b.rows,
                r == a.rows,
                c == b.cols,
                (r as int) * (c as int) <= usize::MAX as int,
                0 <= i < r,
                0 <= j <= c,
                (i as int) * (c as int) + (c as int) <= (r as int) * (c as int),
                tasks@.len() == (i as int) * (c as int) + (j as int),
                forall|k: int|
                    0 <= k < tasks@.len() ==> task_correct(*a, *b, #[trigger] tasks@[k], k),
            decreases c - j,
        {
            let idx = i * c + j;
            let row = row_of(a, i);
            let col = col_of(b, j);
            proof {
                lemma_fundamental_div_mod_converse(idx as int, c as int, i as int, j as int);
            }
            tasks.push(MsgInput::new(idx, row, col));
            j = j + 1;
        }
        i = i + 1;
    }
    tasks
}

/// The worker step for one task: the dot product of the task's operands,
/// tagged with the task's own destination index. Reports `None` exactly
/// when the operand lengths differ or the arithmetic would overflow.
pub fn compute_cell(input: MsgInput) -> (r: Option<MsgOutput>)
    ensures
        match r {
            Some(out) => input.row@.len() == input.col@.len() && dot_fits(input.row@, input.col@)
                && out.idx == input.idx && out.value as int == dot_spec(input.row@, input.col@),
            None => !(input.row@.len() == input.col@.len() && dot_fits(input.row@, input.col@)),
        },
{
    if input.row.data.len() != input.col.data.len() {
        return None;
    }
    match checked_dot(&input.row, &input.col) {
        Some(v) => Some(MsgOutput { idx: input.idx, value: v }),
        None => None,
    }
}

/// A reply that answers some cell of the product of `a` and `b` with the
/// correct value for that cell.
pub open spec fn reply_correct(a: Matrix, b: Matrix, out: MsgOutput) -> bool {
    &&& (out.idx as int) < (a.rows as int) * (b.cols as int)
    &&& out.value as int == product_entry(a, b, out.idx as int)
}

/// Writes each reply's value to the reply's own destination index in a
/// fresh `rows` by `cols` buffer seeded with zeros. Placement depends only
/// on the indices carried by the replies, never on their order.
pub fn assemble(rows: usize, cols: usize, outputs: &Vec<MsgOutput>) -> (m: Matrix)
    requires
        (rows as int) * (cols as int) <= usize::MAX as int,
        forall|t: int|
            0 <= t < outputs@.len() ==> (#[trigger] outputs@[t]).idx < (rows as int) * (
            cols as int),
        forall|t1: int, t2: int|
            0 <= t1 < outputs@.len() && 0 <= t2 < outputs@.len() && (#[trigger] outputs@[t1]).idx
                == (#[trigger] outputs@[t2]).idx ==> outputs@[t1].value == outputs@[t2].value,
    ensures
        m.rows == rows,
        m.cols == cols,
        m.wf(),
        forall|t: int|
            0 <= t < outputs@.len() ==> m.data@[(#[trigger] outputs@[t]).idx as int]
                == outputs@[t].value,
        forall|k: int|
            0 <= k < m.data@.len() && (forall|t: int|
                0 <= t < outputs@.len() ==> (#[trigger] outputs@[t]).idx != k)
                ==> #[trigger] m.data@[k] == 0,
{
    let n = rows * cols;
    let mut data: Vec<i64> = Vec::new();
    let mut z: usize = 0;
    while z < n
        invariant
            0 <= z <= n,
            data@.len() == z,
            forall|k: int| 0 <= k < z ==> #[trigger] data@[k] == 0,
        decreases n - z,
    {
        data.push(0);
        z = z + 1;
    }
    let mut t: usize = 0;
    while t < outputs.len()
        invariant
            n == (rows as int) * (cols as int),
            data@.len() == n,
            0 <= t <= outputs@.len(),
            forall|u: int|
                0 <= u < outputs@.len() ==> (#[trigger] outputs@[u]).idx < (rows as int) * (
                cols as int),
            forall|t1: int, t2: int|
                0 <= t1 < outputs@.len() && 0 <= t2 < outputs@.len() && (#[trigger] outputs@[t1]).idx
                    == (#[trigger] outputs@[t2]).idx ==> outputs@[t1].value == outputs@[t2].value,
            forall|u: int|
                0 <= u < t ==> data@[(#[trigger] outputs@[u]).idx as int] == outputs@[u].value,
            forall|k: int|
                0 <= k < data@.len() && (forall|u: int|
                    0 <= u < outputs@.len() ==> (#[trigger] outputs@[u]).idx != k)
                    ==> #[trigger] data@[k] == 0,
        decreases outputs@.len() - t,
    {
        let idx = outputs[t].idx;
        let val = outputs[t].value;
        data.set(idx, val);
        t = t + 1;
    }
    Matrix { rows, cols, data }
}

/// Multiplies `a` by `b`. Fails with `DimensionMismatch` exactly when
/// `a.cols != b.rows`; otherwise builds one task per output cell, computes
/// each task's dot product, and assembles the replies by their own
/// destination indices into an `a.rows` by `b.cols` matrix.
pub fn multiply(a: &Matrix, b: &Matrix) -> (r: Result<Matrix, MatrixError>)
    requires
        a.wf(),
        b.wf(),
        a.cols == b.rows ==> (a.rows as int) * (b.cols as int) <= usize::MAX as int && mul_fits(
            *a,
            *b,
        ),
    ensures
        match r {
            Ok(m) => a.cols == b.rows && m.rows == a.rows && m.cols == b.cols && m.wf()
                && forall|k: int|
                0 <= k < m.data@.len() ==> (#[trigger] m.data@[k]) as int == product_entry(
                    *a,
                    *b,
                    k,
                ),
            Err(e) => a.cols != b.rows && e == MatrixError::DimensionMismatch,
        },
{
    if a.cols != b.rows {
        return Err(MatrixError::DimensionMismatch);
    }
    let ghost total: int = (a.rows as int) * (b.cols as int);
    let mut tasks = make_tasks(a, b);
    let mut outputs: Vec<MsgOutput> = Vec::new();
    while tasks.len() > 0
        invariant
            a.wf(),
            b.wf(),
            a.cols == b.rows,
            mul_fits(*a, *b),
            total == (a.rows as int) * (b.cols as int),
            total <= usize::MAX as int,
            tasks@.len() + outputs@.len() == total,
            forall|k: int| 0 <= k < tasks@.len() ==> task_correct(*a, *b, #[trigger] tasks@[k], k),
            forall|u: int|
                0 <= u < outputs@.len() ==> reply_correct(*a, *b, #[trigger] outputs@[u])
                    && (#[trigger] outputs@[u]).idx as int == total - 1 - u,
        decreases tasks@.len(),
    {
        let ghost k: int = tasks@.len() - 1;
        match tasks.pop() {
            Some(task) => {
                proof {
                    assert(task_correct(*a, *b, task, k));
                    assert(0 < b.cols) by (nonlinear_arith)
                        requires
                            0 <= k,
                            k < (a.rows as int) * (b.cols as int),
                            0 <= b.cols as int,
                    ;
                    lemma_linear_index_bounds(k, a.rows as int, b.cols as int);
                    lemma_row_in_bounds(*a, k / (b.cols as int));
                    lemma_col_in_bounds(*b, k % (b.cols as int));
                }
                match compute_cell(task) {
                    Some(out) => {
                        outputs.push(out);
                    },
                    None => {
                        proof {
                            assert(false);
                        }
                    },
                }
            },
            None => {
                proof {
                    assert(false);
                }
            },
        }
    }
    proof {
        assert forall|t1: int, t2: int|
            0 <= t1 < outputs@.len() && 0 <= t2 < outputs@.len() && (#[trigger] outputs@[t1]).idx
                == (#[trigger] outputs@[t2]).idx implies outputs@[t1].value
            == outputs@[t2].value by {
            assert(t1 == t2);
        }
    }
    let m = assemble(a.rows, b.cols, &outputs);
    proof {
        assert forall|k: int|
            0 <= k < m.data@.len() implies (#[trigger] m.data@[k]) as int == product_entry(
            *a,
            *b,
            k,
        ) by {
            let u = total - 1 - k;
            assert(outputs@[u].idx as int == k);
            assert(m.data@[outputs@[u].idx as int] == outputs@[u].value);
        }
    }
    Ok(m)
}

/// Overflow freedom for a whole multiplication from one element bound:
/// if every element of `a` and `b` is at most `bound` in magnitude and
/// `a.cols * bound * bound` fits in `i64`, every cell of the product can
/// be computed without overflow.
pub proof fn lemma_mul_fits_bounded(a: Matrix, b: Matrix, bound: int)
    requires
        a.wf(),
        b.wf(),
        a.cols == b.rows,
        0 <= bound,
        forall|t: int| 0 <= t < a.data@.len() ==> -bound <= #[trigger] a.data@[t] <= bound,
        forall|t: int| 0 <= t < b.data@.len() ==> -bound <= #[trigger] b.data@[t] <= bound,
        (a.cols as int) * bound * bound <= i64::MAX,
    ensures
        mul_fits(a, b),
{
    assert forall|i: int, j: int| 0 <= i < a.rows && 0 <= j < b.cols implies dot_fits(
        #[trigger] spec_row(a, i),
        #[trigger] spec_col(b, j),
    ) by {
        lemma_row_in_bounds(a, i);
        lemma_col_in_bounds(b, j);
        let r = spec_row(a, i);
        let c = spec_col(b, j);
        assert forall|t: int| 0 <= t < r.len() implies -bound <= #[trigger] r[t] <= bound by {
            assert(r[t] == mat_at(a, i, t));
            assert(0 <= i * (a.cols as int) + t < a.data@.len());
        }
        assert forall|t: int| 0 <= t < c.len() implies -bound <= #[trigger] c[t] <= bound by {
            assert(c[t] == mat_at(b, t, j));
            assert(0 <= t * (b.cols as int) + j < b.data@.len());
        }
        lemma_dot_fits_bounded(r, c, bound);
    }
}

/// The sequential triple-loop reference for cell `(i, j)` of the product:
/// the sum over `l < n` of `a[i][l] * b[l][j]`.
pub open spec fn ref_entry(a: Matrix, b: Matrix, i: int, j: int, n: int) -> int
    decreases n,
{
    if n <= 0 {
        0
    } else {
        ref_entry(a, b, i, j, n - 1) + mat_at(a, i, n - 1) * mat_at(b, n - 1, j)
    }
}

proof fn lemma_dot_row_col(a: Matrix, b: Matrix, i: int, j: int, n: int)
    requires
        a.wf(),
        b.wf(),
        a.cols == b.rows,
        0 <= i < a.rows,
        0 <= j < b.cols,
        0 <= n <= a.cols,
    ensures
        dot_spec(spec_row(a, i).take(n), spec_col(b, j).take(n)) == ref_entry(a, b, i, j, n),
    decreases n,
{
    lemma_row_in_bounds(a, i);
    lemma_col_in_bounds(b, j);
    if n > 0 {
        lemma_dot_row_col(a, b, i, j, n - 1);
        assert(spec_row(a, i).take(n).drop_last() =~= spec_row(a, i).take(n - 1));
        assert(spec_col(b, j).take(n).drop_last() =~= spec_col(b, j).take(n - 1));
        assert(spec_row(a, i).take(n).last() == mat_at(a, i, n - 1));
        assert(spec_col(b, j).take(n).last() == mat_at(b, n - 1, j));
    }
}

/// Whatever the worker count and scheduling, the engine's value for an
/// output cell is the one the sequential triple-loop reference computes:
/// cell `(i, j)` of the product equals the sum over `l` of
/// `a[i][l] * b[l][j]`.
pub proof fn lemma_multiply_matches_reference(a: Matrix, b: Matrix, i: int, j: int)
    requires
        a.wf(),
        b.wf(),
        a.cols == b.rows,
        0 <= i < a.rows,
        0 <= j < b.cols,
    ensures
        product_entry(a, b, i * (b.cols as int) + j) == ref_entry(a, b, i, j, a.cols as int),
{
    let c = b.cols as int;
    let k = i * c + j;
    lemma_fundamental_div_mod_converse(k, c, i, j);
    lemma_row_in_bounds(a, i);
    lemma_col_in_bounds(b, j);
    lemma_dot_row_col(a, b, i, j, a.cols as int);
    assert(spec_row(a, i).take(a.cols as int) =~= spec_row(a, i));
    assert(spec_col(b, j).take(a.cols as int) =~= spec_col(b, j));
}

/// Some reply in `outs` is addressed to cell `k`.
pub open spec fn has_reply(outs: Seq<MsgOutput>, k: int) -> bool {
    exists|t: int| 0 <= t < outs.len() && (#[trigger] outs[t]).idx as int == k
}

/// Every reply in `outs` answers its own cell of the product of `a` and
/// `b` correctly.
pub open spec fn replies_correct(a: Matrix, b: Matrix, outs: Seq<MsgOutput>) -> bool {
    forall|t: int| 0 <= t < outs.len() ==> reply_correct(a, b, #[trigger] outs[t])
}

/// Every cell of the product of `a` and `b` is answered by some reply in
/// `outs`.
pub open spec fn replies_complete(a: Matrix, b: Matrix, outs: Seq<MsgOutput>) -> bool {
    forall|k: int| 0 <= k < (a.rows as int) * (b.cols as int) ==> #[trigger] has_reply(outs, k)
}

/// `data` holds each reply's value at the reply's own destination index.
pub open spec fn gathered(outs: Seq<MsgOutput>, data: Seq<i64>) -> bool {
    forall|t: int|
        0 <= t < outs.len() ==> data[(#[trigger] outs[t]).idx as int] == outs[t].value
}

/// Determinism of the scatter-gather: two complete sets of correct
/// replies, in any two arrival orders, gather into identical buffers,
/// because every write is addressed by the reply's own index and every
/// correct reply for a cell carries the same value.
pub proof fn lemma_gather_deterministic(
    a: Matrix,
    b: Matrix,
    outs1: Seq<MsgOutput>,
    outs2: Seq<MsgOutput>,
    d1: Seq<i64>,
    d2: Seq<i64>,
)
    requires
        d1.len() == (a.rows as int) * (b.cols as int),
        d2.len() == d1.len(),
        replies_correct(a, b, outs1),
        replies_correct(a, b, outs2),
        replies_complete(a, b, outs1),
        replies_complete(a, b, outs2),
        gathered(outs1, d1),
        gathered(outs2, d2),
    ensures
        d1 == d2,
{
    assert forall|k: int| 0 <= k < d1.len() implies d1[k] == d2[k] by {
        assert(has_reply(outs1, k));
        assert(has_reply(outs2, k));
        let t1 = choose|t: int| 0 <= t < outs1.len() && (#[trigger] outs1[t]).idx as int == k;
        let t2 = choose|t: int| 0 <= t < outs2.len() && (#[trigger] outs2[t]).idx as int == k;
        assert(d1[k] == outs1[t1].value);
        assert(d2[k] == outs2[t2].value);
        assert(outs1[t1].value as int == product_entry(a, b, k));
        assert(outs2[t2].value as int == product_entry(a, b, k));
    }
    assert(d1 =~= d2);
}

} // verus!
