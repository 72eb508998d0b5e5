use vstd::prelude::*;

use crate::algebra::{equiv, le, lt, ScalarT};

verus! {

/// Every knot is `<=` the one after it.
pub open spec fn sorted<N: ScalarT>(k: Seq<N>) -> bool {
    forall|i: int| 0 <= i < k.len() - 1 ==> #[trigger] le(k[i], k[i + 1])
}

/// A knot vector: at least two knots, sorted, and the first knot differs
/// from the last, so that the parameter range is not empty.
pub open spec fn valid_knots<N: ScalarT>(k: Seq<N>) -> bool {
    &&& k.len() >= 2
    &&& sorted(k)
    &&& !equiv(k[0], k.last())
}

/// `u` lies in the parameter range `[k[0], k.last()]`.
pub open spec fn in_range<N: ScalarT>(k: Seq<N>, u: N) -> bool {
    le(k[0], u) && le(u, k.last())
}

/// `u` pulled into the parameter range `[k[0], k.last()]`.
pub open spec fn clamp_spec<N: ScalarT>(k: Seq<N>, u: N) -> N {
    if lt(u, k[0]) {
        k[0]
    } else if lt(k.last(), u) {
        k.last()
    } else {
        u
    }
}

/// `i` is the index of the knot span that holds `u`:
/// `k[i] <= u < k[i + 1]` below the end of the range, and
/// `k[i] < u == k[i + 1]` at its end.
pub open spec fn is_span<N: ScalarT>(k: Seq<N>, u: N, i: int) -> bool {
    &&& 0 <= i < k.len() - 1
    &&& if le(k.last(), u) {
        lt(k[i], u) && equiv(k[i + 1], u)
    } else {
        le(k[i], u) && lt(u, k[i + 1])
    }
}

/// The index of the knot span that holds `u`.
pub open spec fn span_of<N: ScalarT>(k: Seq<N>, u: N) -> int {
    choose|i: int| is_span(k, u, i)
}

/// The first `degree` knots are equivalent to the first one, and the last
/// `degree + 1` knots to the last one, in a vector of at least
/// `2 * (degree + 1)` knots.
pub open spec fn is_clamped_spec<N: ScalarT>(k: Seq<N>, degree: nat) -> bool {
    &&& k.len() >= 2 * (degree + 1)
    &&& forall|i: int| 1 <= i < degree ==> equiv(#[trigger] k[i], k[0])
    &&& forall|i: int| k.len() - degree - 1 <= i < k.len() - 1 ==> equiv(#[trigger] k[i], k.last())
}

/// In a sorted knot vector a knot is `<=` every knot after it.
pub proof fn lemma_sorted_le<N: ScalarT>(k: Seq<N>, i: int, j: int)
    requires
        sorted(k),
        0 <= i <= j < k.len(),
    ensures
        le(k[i], k[j]),
    decreases j - i,
{
    if i < j {
        lemma_sorted_le(k, i, j - 1);
        assert(le(k[j - 1], k[(j - 1) + 1]));
    }
}

/// The span of a parameter value is unique: no two indices both hold it.
pub proof fn lemma_span_unique<N: ScalarT>(k: Seq<N>, u: N, i: int, j: int)
    requires
        valid_knots(k),
        is_span(k, u, i),
        is_span(k, u, j),
    ensures
        i == j,
{
    if i < j {
        lemma_span_ordered(k, u, i, j);
    } else if j < i {
        lemma_span_ordered(k, u, j, i);
    }
}

proof fn lemma_span_ordered<N: ScalarT>(k: Seq<N>, u: N, i: int, j: int)
    requires
        valid_knots(k),
        0 <= i < j < k.len() - 1,
    ensures
        !(is_span(k, u, i) && is_span(k, u, j)),
{
    lemma_sorted_le(k, i + 1, j);
}

/// Below the end of the range, some span before index `j` holds `u` when
/// `u < k[j]`.
proof fn lemma_span_exists_below<N: ScalarT>(k: Seq<N>, u: N, j: int)
    requires
        valid_knots(k),
        in_range(k, u),
        !le(k.last(), u),
        0 < j < k.len(),
        lt(u, k[j]),
    ensures
        exists|i: int| is_span(k, u, i),
    decreases j,
{
    if le(k[j - 1], u) {
        assert(is_span(k, u, j - 1));
    } else {
        lemma_span_exists_below(k, u, j - 1);
    }
}

/// At the end of the range, some span before index `j` holds `u` when
/// `k[j]` is equivalent to `u`.
proof fn lemma_span_exists_at_end<N: ScalarT>(k: Seq<N>, u: N, j: int)
    requires
        valid_knots(k),
        in_range(k, u),
        le(k.last(), u),
        0 < j < k.len(),
        equiv(k[j], u),
    ensures
        exists|i: int| is_span(k, u, i),
    decreases j,
{
    lemma_sorted_le(k, 0, k.len() - 1);
    if lt(k[j - 1], u) {
        assert(is_span(k, u, j - 1));
    } else {
        lemma_sorted_le(k, j - 1, k.len() - 1);
        lemma_span_exists_at_end(k, u, j - 1);
    }
}

/// Every parameter value in the range lies in exactly one span, which is
/// `span_of(k, u)`.
pub proof fn lemma_span_of<N: ScalarT>(k: Seq<N>, u: N)
    requires
        valid_knots(k),
        in_range(k, u),
    ensures
        is_span(k, u, span_of(k, u)),
        forall|i: int| is_span(k, u, i) ==> i == span_of(k, u),
{
    lemma_sorted_le(k, 0, k.len() - 1);
    if le(k.last(), u) {
        lemma_span_exists_at_end(k, u, k.len() - 1);
    } else {
        lemma_span_exists_below(k, u, k.len() - 1);
    }
    assert forall|i: int| is_span(k, u, i) implies i == span_of(k, u) by {
        lemma_span_unique(k, u, i, span_of(k, u));
    }
}

/// A clamped value lies in the range.
pub proof fn lemma_clamp_in_range<N: ScalarT>(k: Seq<N>, u: N)
    requires
        valid_knots(k),
    ensures
        in_range(k, clamp_spec(k, u)),
{
    lemma_sorted_le(k, 0, k.len() - 1);
}

/// Clamping a parameter value twice gives what clamping it once gives.
pub proof fn lemma_clamp_idempotent<N: ScalarT>(k: Seq<N>, u: N)
    requires
        valid_knots(k),
    ensures
        clamp_spec(k, clamp_spec(k, u)) == clamp_spec(k, u),
{
    lemma_sorted_le(k, 0, k.len() - 1);
}

/// Vector of knots in non-decreasing order.
///
/// Knot values exist in the parameter space of a NURBS curve. They partition
/// the total 1D parameter range into regions over which the interpolating
/// polynomials of the NURBS curve are active. Thus, in combination with the
/// degree of a NURBS curve, they define the non-uniform B-spline basis
/// functions.
#[derive(Debug, PartialEq)]
pub struct KnotVec<N: ScalarT> {
    knots: Vec<N>,
}

impl<N: ScalarT> View for KnotVec<N> {
    type V = Seq<N>;

    closed spec fn view(&self) -> Seq<N> {
        self.knots@
    }
}

impl<N: ScalarT> KnotVec<N> {
    #[verifier::type_invariant]
    spec fn inv(self) -> bool {
        valid_knots(self.knots@)
    }

    /// Creates a new knot vector if possible.
    ///
    /// A new knot vector must satisfy the following criteria:
    /// * it must contain >= 2 elements
    /// * it must be sorted (non-decreasing)
    /// * it must represent a non-zero span (the last knot cannot be equal to
    ///   the first)
    pub fn new(knots: Vec<N>) -> (r: Option<Self>)
        ensures
            r.is_some() <==> valid_knots(knots@),
            r matches Some(kv) ==> kv@ == knots@,
    {
        let n = knots.len();
        if n < 2 {
            return None;
        }
        let mut i: usize = 0;
        while i + 1 < n
            invariant
                n == knots@.len(),
                n >= 2,
                i < n,
                forall|j: int| 0 <= j < i ==> #[trigger] le(knots@[j], knots@[j + 1]),
            decreases n - i,
        {
            if !knots[i].le(&knots[i + 1]) {
                assert(!le(knots@[i as int], knots@[i as int + 1]));
                return None;
            }
            i += 1;
        }
        let first = knots[0];
        let last = knots[n - 1];
        if first.le(&last) && last.le(&first) {
            None
        } else {
            Some(KnotVec { knots })
        }
    }

    /// Returns the number of knots in the knot vector.
    ///
    /// Every knot vector is valid: it has at least two knots, they are
    /// sorted, and its parameter range is not empty.
    pub fn len(&self) -> (r: usize)
        ensures
            r == self@.len(),
            valid_knots(self@),
    {
        proof {
            use_type_invariant(self);
        }
        self.knots.len()
    }

    /// Checks if a knot vector is clamped.
    ///
    /// A knot vector is clamped if the first knot value is repeated at the
    /// start of the knot vector, and if the last knot is repeated `degree + 1`
    /// times at the end of the knot vector. The start run checked is that of
    /// the knots before index `degree`.
    pub fn is_clamped(&self, degree: usize) -> (r: bool)
        ensures
            r == is_clamped_spec(self@, degree as nat),
    {
        let n = self.knots.len();
        if degree >= n / 2 {
            return false;
        }
        let start_knot = self.knots[0];
        let mut i: usize = 1;
        while i < degree
            invariant
                n == self@.len(),
                2 * (degree + 1) <= n,
                start_knot == self@[0],
                1 <= i,
                forall|j: int| 1 <= j < i && j < degree ==> equiv(#[trigger] self@[j], self@[0]),
            decreases degree - i,
        {
            let knot = self.knots[i];
            if !(knot.le(&start_knot) && start_knot.le(&knot)) {
                return false;
            }
            i += 1;
        }
        let end_knot = self.knots[n - 1];
        let mut e: usize = n - degree - 1;
        while e < n - 1
            invariant
                n == self@.len(),
                2 * (degree + 1) <= n,
                end_knot == self@.last(),
                n - degree - 1 <= e <= n - 1,
                forall|j: int| 1 <= j < degree ==> equiv(#[trigger] self@[j], self@[0]),
                forall|j: int| n - degree - 1 <= j < e ==> equiv(#[trigger] self@[j], self@.last()),
            decreases n - 1 - e,
        {
            let knot = self.knots[e];
            if !(knot.le(&end_knot) && end_knot.le(&knot)) {
                return false;
            }
            e += 1;
        }
        true
    }

    /// Checks if the knot vector is empty (always returns `false`).
    pub fn is_empty(&self) -> (r: bool)
        ensures
            r == (self@.len() == 0),
            !r,
    {
        proof {
            use_type_invariant(self);
        }
        false
    }

    /// Returns the minimum parameter value contained in this knot vector.
    pub fn min_u(&self) -> (r: N)
        ensures
            r == self@[0],
    {
        proof {
            use_type_invariant(self);
        }
        self.knots[0]
    }

    /// Returns the maximum parameter value contained in this knot vector.
    pub fn max_u(&self) -> (r: N)
        ensures
            r == self@.last(),
    {
        proof {
            use_type_invariant(self);
        }
        self.knots[self.knots.len() - 1]
    }

    /// Clamps a parameter value to the allowed range of the parameter.
    pub fn clamp(&self, u: N) -> (r: N)
        ensures
            r == clamp_spec(self@, u),
            in_range(self@, r),
    {
        proof {
            use_type_invariant(self);
            lemma_sorted_le(self@, 0, self@.len() - 1);
        }
        if u.lt(&self.min_u()) {
            self.min_u()
        } else if self.max_u().lt(&u) {
            self.max_u()
        } else {
            u
        }
    }

    /// Finds the index of the span inside the knot vector which contains the
    /// parameter value `u`.
    ///
    /// Each pair of knots in the knot vector defines a span. Spans are
    /// zero length for knots with a multiplicity > 1. The index `i` returned
    /// satisfies:
    ///
    /// ```text
    /// knots[i] <= u < knots[i+1], when u < knots.max_u()
    /// knots[i] < u == knots[i+1], when u == knots.max_u()
    /// ```
    pub fn find_span(&self, u: N) -> (r: usize)
        requires
            in_range(self@, u),
        ensures
            is_span(self@, u, r as int),
    {
        proof {
            use_type_invariant(self);
        }
        let n = self.knots.len();
        let max = self.knots[n - 1];
        if max.le(&u) {
            // at the end of the range, look backward for the last knot that
            // is below `u`
            proof {
                lemma_sorted_le(self@, 0, n - 1);
            }
            let mut i: usize = n - 1;
            while !self.knots[i].lt(&u)
                invariant
                    n == self@.len(),
                    i < n,
                    lt(self@[0], u),
                    forall|j: int| i < j < n ==> !lt(#[trigger] self@[j], u),
                decreases i,
            {
                i -= 1;
            }
            proof {
                lemma_sorted_le(self@, i + 1, n - 1);
            }
            i
        } else {
            // binary search for the span
            let mut low: usize = 0;
            let mut high: usize = n - 1;
            let mut mid: usize = low + (high - low) / 2;
            while u.lt(&self.knots[mid]) || self.knots[mid + 1].le(&u)
                invariant
                    n == self@.len(),
                    low < high < n,
                    mid == (low + high) / 2,
                    le(self@[low as int], u),
                    lt(u, self@[high as int]),
                decreases high - low,
            {
                if u.lt(&self.knots[mid]) {
                    high = mid;
                } else {
                    low = mid;
                }
                mid = low + (high - low) / 2;
            }
            mid
        }
    }
}

impl<N: ScalarT> vstd::std_specs::core::IndexSpecImpl<usize> for KnotVec<N> {
    open spec fn index_req(&self, index: &usize) -> bool {
        *index < self@.len()
    }
}

impl<N: ScalarT> std::ops::Index<usize> for KnotVec<N> {
    type Output = N;

    fn index(&self, i: usize) -> (r: &N)
        ensures
            *r == self@[i as int],
    {
        &self.knots[i]
    }
}

} // verus!
