use vstd::prelude::*;

use crate::error::MatrixError;

verus! {

/// An ordered sequence of values exposing a dot-product operation.
pub struct Vector {
    pub data: Vec<i64>,
}

impl View for Vector {
    type V = Seq<i64>;

    open spec fn view(&self) -> Seq<i64> {
        self.data@
    }
}

impl Vector {
    /// Constructs a vector owning the given elements.
    pub fn new(data: Vec<i64>) -> (v: Vector)
        ensures
            v@ == data@,
    {
        Vector { data }
    }

    /// The number of elements.
    pub fn len(&self) -> (n: usize)
        ensures
            n == self@.len(),
    {
        self.data.len()
    }
}

/// Whether a mathematical integer fits in `i64`.
pub open spec fn in_i64(x: int) -> bool {
    i64::MIN <= x <= i64::MAX
}

/// The mathematical dot product of two equal-length sequences:
/// the sum of the element-wise products, seeded with zero.
pub open spec fn dot_spec(a: Seq<i64>, b: Seq<i64>) -> int
    decreases a.len(),
{
    if a.len() == 0 || b.len() == 0 {
        0
    } else {
        dot_spec(a.drop_last(), b.drop_last()) + a.last() * b.last()
    }
}

/// Whether the dot product of `a` and `b` can be computed in `i64`
/// arithmetic without overflow: every element-wise product fits, and so
/// does every prefix of the running sum.
pub open spec fn dot_fits(a: Seq<i64>, b: Seq<i64>) -> bool {
    &&& forall|i: int| 0 <= i < a.len() ==> in_i64(#[trigger] (a[i] * b[i]))
    &&& forall|n: int| 0 <= n <= a.len() ==> in_i64(dot_spec(#[trigger] a.take(n), b.take(n)))
}

/// Computes the dot product with overflow checks at every step, reporting
/// `None` exactly when some intermediate value leaves the `i64` range.
pub(crate) fn checked_dot(a: &Vector, b: &Vector) -> (r: Option<i64>)
    requires
        a@.len() == b@.len(),
    ensures
        match r {
            Some(v) => dot_fits(a@, b@) && v as int == dot_spec(a@, b@),
            None => !dot_fits(a@, b@),
        },
{
    let n = a.data.len();
    let mut result: i64 = 0;
    let mut i: usize = 0;
    proof {
        assert(a@.take(0) =~= Seq::<i64>::empty());
        assert(b@.take(0) =~= Seq::<i64>::empty());
    }
    while i < n
        invariant
            n == a@.len(),
            n == b@.len(),
            0 <= i <= n,
            forall|j: int| 0 <= j < i ==> in_i64(#[trigger] (a@[j] * b@[j])),
            forall|m: int| 0 <= m <= i ==> in_i64(dot_spec(#[trigger] a@.take(m), b@.take(m))),
            result as int == dot_spec(a@.take(i as int), b@.take(i as int)),
        decreases n - i,
    {
        proof {
            assert(a@.take(i + 1).drop_last() =~= a@.take(i as int));
            assert(b@.take(i + 1).drop_last() =~= b@.take(i as int));
            assert(a@.take(i + 1).last() == a@[i as int]);
            assert(b@.take(i + 1).last() == b@[i as int]);
            assert(dot_spec(a@.take(i + 1), b@.take(i + 1)) == dot_spec(
                a@.take(i as int),
                b@.take(i as int),
            ) + a@[i as int] * b@[i as int]);
        }
        let prod: i64 = match a.data[i].checked_mul(b.data[i]) {
            Some(p) => p,
            None => {
                return None;
            },
        };
        let next: i64 = match result.checked_add(prod) {
            Some(s) => s,
            None => {
                return None;
            },
        };
        result = next;
        i = i + 1;
    }
    proof {
        assert(a@.take(n as int) =~= a@);
        assert(b@.take(n as int) =~= b@);
    }
    Some(result)
}

/// Computes the dot product of `a` and `b`: the sum of the element-wise
/// products, seeded with the additive identity. Fails with
/// `DimensionMismatch` exactly when the lengths differ.
pub fn dot_product(a: Vector, b: Vector) -> (r: Result<i64, MatrixError>)
    requires
        a@.len() == b@.len() ==> dot_fits(a@, b@),
    ensures
        match r {
            Ok(v) => a@.len() == b@.len() && v as int == dot_spec(a@, b@),
            Err(e) => a@.len() != b@.len() && e == MatrixError::DimensionMismatch,
        },
{
    if a.data.len() != b.data.len() {
        return Err(MatrixError::DimensionMismatch);
    }
    match checked_dot(&a, &b) {
        Some(v) => Ok(v),
        None => {
            proof {
                assert(false);
            }
            Err(MatrixError::DimensionMismatch)
        },
    }
}

/// A dot product over prefixes of elements bounded by `bound` in
/// magnitude is itself bounded by `n * bound * bound` in magnitude.
pub proof fn lemma_dot_bounded(a: Seq<i64>, b: Seq<i64>, bound: int, n: int)
    requires
        a.len() == b.len(),
        0 <= bound,
        forall|i: int| 0 <= i < a.len() ==> -bound <= #[trigger] a[i] <= bound,
        forall|i: int| 0 <= i < b.len() ==> -bound <= #[trigger] b[i] <= bound,
        0 <= n <= a.len(),
    ensures
        -(n * bound * bound) <= dot_spec(a.take(n), b.take(n)) <= n * bound * bound,
    decreases n,
{
    if n == 0 {
        assert(a.take(0) =~= Seq::<i64>::empty());
    } else {
        lemma_dot_bounded(a, b, bound, n - 1);
        assert(a.take(n).drop_last() =~= a.take(n - 1));
        assert(b.take(n).drop_last() =~= b.take(n - 1));
        assert(a.take(n).last() == a[n - 1]);
        assert(b.take(n).last() == b[n - 1]);
        let x = a[n - 1] as int;
        let y = b[n - 1] as int;
        assert(-(bound * bound) <= x * y <= bound * bound && n * bound * bound == (n - 1) * bound
            * bound + bound * bound) by (nonlinear_arith)
            requires
                -bound <= x <= bound,
                -bound <= y <= bound,
                0 <= bound,
        ;
    }
}

/// Overflow freedom from element bounds: a dot product of equal-length
/// vectors whose elements are at most `bound` in magnitude fits in `i64`
/// whenever `len * bound * bound` does.
pub proof fn lemma_dot_fits_bounded(a: Seq<i64>, b: Seq<i64>, bound: int)
    requires
        a.len() == b.len(),
        0 <= bound,
        forall|i: int| 0 <= i < a.len() ==> -bound <= #[trigger] a[i] <= bound,
        forall|i: int| 0 <= i < b.len() ==> -bound <= #[trigger] b[i] <= bound,
        a.len() * bound * bound <= i64::MAX,
    ensures
        dot_fits(a, b),
{
    let len = a.len() as int;
    assert forall|i: int| 0 <= i < a.len() implies in_i64(#[trigger] (a[i] * b[i])) by {
        let x = a[i] as int;
        let y = b[i] as int;
        assert(-(bound * bound) <= x * y <= bound * bound && bound * bound <= len * bound
            * bound) by (nonlinear_arith)
            requires
                -bound <= x <= bound,
                -bound <= y <= bound,
                0 <= bound,
                1 <= len,
        ;
    }
    assert forall|n: int| 0 <= n <= a.len() implies in_i64(
        dot_spec(#[trigger] a.take(n), b.take(n)),
    ) by {
        lemma_dot_bounded(a, b, bound, n);
        assert(n * bound * bound <= len * bound * bound) by (nonlinear_arith)
            requires
                0 <= n <= len,
                0 <= bound,
        ;
    }
}

/// If either operand is all zeros, the dot product is zero.
pub proof fn lemma_dot_zero(a: Seq<i64>, b: Seq<i64>)
    requires
        a.len() == b.len(),
        (forall|i: int| 0 <= i < a.len() ==> a[i] == 0) || (forall|i: int|
            0 <= i < b.len() ==> b[i] == 0),
    ensures
        dot_spec(a, b) == 0,
    decreases a.len(),
{
    if a.len() > 0 {
        lemma_dot_zero(a.drop_last(), b.drop_last());
    }
}

} // verus!
