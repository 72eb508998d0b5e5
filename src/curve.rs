use vstd::prelude::*;

use crate::algebra::{equiv, exact_arithmetic, le, lt, zero, ScalarT, VectorT};
use crate::knotvec::{
    clamp_spec, in_range, is_clamped_spec, is_span, lemma_clamp_in_range, lemma_sorted_le,
    lemma_span_of, lemma_span_unique, span_of, valid_knots, KnotVec,
};

verus! {

/// Reasons for which a curve cannot be built from its parts.
#[derive(Clone, Copy, Debug, PartialEq, Eq, Structural)]
pub enum CurveError {
    /// The degree is not positive.
    InvalidDegree,
    /// Fewer than `degree + 1` control points were supplied.
    InsufficientControlPoints { degree: usize, number_supplied: usize },
    /// The numbers of weights and of control points differ.
    MismatchedWeightsAndControlPoints,
    /// The knot vector does not hold `degree + control_points.len() + 1`
    /// knots.
    InvalidKnotCount { required_knot_len: usize, receieved_knot_len: usize },
    /// The knot vector is not clamped at the curve's degree.
    KnotVectorNotClamped,
}

/// The mathematical content of a curve.
pub struct CurveModel<N, V> {
    pub degree: nat,
    pub control_points: Seq<V>,
    pub weights: Seq<N>,
    pub knots: Seq<N>,
}

/// The properties that every curve has.
pub open spec fn valid_curve<N: ScalarT, V>(m: CurveModel<N, V>) -> bool {
    &&& m.degree > 0
    &&& m.control_points.len() > m.degree
    &&& m.weights.len() == m.control_points.len()
    &&& m.knots.len() == m.degree + m.control_points.len() + 1
    &&& valid_knots(m.knots)
    &&& is_clamped_spec(m.knots, m.degree)
}

/// The first check that parts of these sizes fail when a curve is built from
/// them, or `None` if they pass every check.
pub open spec fn construction_error<N: ScalarT>(
    degree: usize,
    n_points: usize,
    n_weights: usize,
    knots: Seq<N>,
) -> Option<CurveError> {
    if degree == 0 {
        Some(CurveError::InvalidDegree)
    } else if n_points <= degree {
        Some(CurveError::InsufficientControlPoints { degree, number_supplied: n_points })
    } else if n_weights != n_points {
        Some(CurveError::MismatchedWeightsAndControlPoints)
    } else if knots.len() != degree + n_points + 1 {
        Some(
            CurveError::InvalidKnotCount {
                required_knot_len: (degree + n_points + 1) as usize,
                receieved_knot_len: knots.len() as usize,
            },
        )
    } else if !is_clamped_spec(knots, degree as nat) {
        Some(CurveError::KnotVectorNotClamped)
    } else {
        None
    }
}

/// Every point of the sequence scaled by `s`.
pub open spec fn scaled<V: VectorT>(points: Seq<V>, s: V::Field) -> Seq<V> {
    points.map_values(|p: V| p.scale_spec(s))
}

/// The blending factor at level `r` and row `j` of the de Boor recurrence,
/// for the parameter value `u` in span `k`.
pub open spec fn alpha<N: ScalarT, V>(m: CurveModel<N, V>, u: N, k: int, r: int, j: int) -> N {
    let kp = m.knots[j + k - m.degree];
    u.sub_spec(kp).div_spec(m.knots[j + 1 + k - r].sub_spec(kp))
}

/// The homogeneous weight at level `r` and row `j` of the de Boor
/// recurrence, for the parameter value `u` in span `k`.
pub open spec fn blend_weight<N: ScalarT, V>(
    m: CurveModel<N, V>,
    u: N,
    k: int,
    r: nat,
    j: int,
) -> N
    decreases r,
{
    if r == 0 {
        m.weights[j + k - m.degree]
    } else {
        let a = alpha(m, u, k, r as int, j);
        let na = N::one_spec().sub_spec(a);
        blend_weight(m, u, k, (r - 1) as nat, j - 1).mul_spec(na).add_spec(
            blend_weight(m, u, k, (r - 1) as nat, j).mul_spec(a),
        )
    }
}

/// The homogeneous point at level `r` and row `j` of the de Boor
/// recurrence, for the parameter value `u` in span `k`. At level 0 it is the
/// control point multiplied by its weight.
pub open spec fn blend_point<N: ScalarT, V: VectorT<Field = N>>(
    m: CurveModel<N, V>,
    u: N,
    k: int,
    r: nat,
    j: int,
) -> V
    decreases r,
{
    if r == 0 {
        let i = j + k - m.degree;
        m.control_points[i].scale_spec(m.weights[i])
    } else {
        let a = alpha(m, u, k, r as int, j);
        let na = N::one_spec().sub_spec(a);
        blend_point(m, u, k, (r - 1) as nat, j - 1).scale_spec(na).add_spec(
            blend_point(m, u, k, (r - 1) as nat, j).scale_spec(a),
        )
    }
}

/// The point of the curve at parameter value `u`: `u` is clamped to the
/// parameter range, the de Boor recurrence is run on its span, and the
/// homogeneous result is divided by its weight.
pub open spec fn curve_point<N: ScalarT, V: VectorT<Field = N>>(m: CurveModel<N, V>, u: N) -> V {
    let uu = clamp_spec(m.knots, u);
    let k = span_of(m.knots, uu);
    let d = m.degree as int;
    blend_point(m, uu, k, m.degree, d).scale_spec(
        N::one_spec().div_spec(blend_weight(m, uu, k, m.degree, d)),
    )
}

/// The span of `u`, once clamped, leaves room for the `degree + 1` control
/// points that the recurrence draws on. This holds for every `u` when the
/// first `degree + 1` knots are equivalent.
pub open spec fn evaluable_at<N: ScalarT, V>(m: CurveModel<N, V>, u: N) -> bool {
    span_of(m.knots, clamp_spec(m.knots, u)) >= m.degree
}

/// When the first `degree + 1` knots are equivalent, the curve can be
/// evaluated at every parameter value.
pub proof fn lemma_evaluable_everywhere<N: ScalarT, V>(m: CurveModel<N, V>, u: N)
    requires
        valid_curve(m),
        equiv(m.knots[m.degree as int], m.knots[0]),
    ensures
        evaluable_at(m, u),
{
    let kn = m.knots;
    let uu = clamp_spec(kn, u);
    lemma_clamp_in_range(kn, u);
    lemma_span_of(kn, uu);
    let k = span_of(kn, uu);
    lemma_sorted_le(kn, 0, kn.len() - 1);
    if k < m.degree {
        lemma_sorted_le(kn, k + 1, m.degree as int);
    }
}

/// The span of a parameter value in range ends before the run of knots
/// at the end of a curve's knot vector.
proof fn lemma_span_below_end<N: ScalarT, V>(m: CurveModel<N, V>, u: N, k: int)
    requires
        valid_curve(m),
        in_range(m.knots, u),
        is_span(m.knots, u, k),
    ensures
        k < m.control_points.len(),
{
    let kn = m.knots;
    if k >= m.control_points.len() {
        assert(equiv(kn[k], kn.last()));
    }
}

/// In exact arithmetic, scaling the points by a nonzero factor and then by
/// its inverse gives the points back.
pub proof fn lemma_scale_round_trip<N: ScalarT, V: VectorT<Field = N>>(points: Seq<V>, s: N)
    requires
        exact_arithmetic::<N, V>(),
        s != zero::<N>(),
    ensures
        scaled(scaled(points, s), N::one_spec().div_spec(s)) == points,
{
    let inv = N::one_spec().div_spec(s);
    let back = scaled(scaled(points, s), inv);
    assert forall|i: int| 0 <= i < points.len() implies back[i] == points[i] by {
        assert(points[i].scale_spec(s).scale_spec(inv) == points[i]) by {
            reveal(exact_arithmetic);
        }
    }
    assert(back =~= points);
}

/// At the start of the range, where every blending factor is zero, each
/// level of the recurrence shifts the previous one up by a row.
proof fn lemma_blend_at_start<N: ScalarT, V: VectorT<Field = N>>(
    m: CurveModel<N, V>,
    r: nat,
    j: int,
)
    requires
        exact_arithmetic::<N, V>(),
        valid_curve(m),
        equiv(m.knots[m.degree as int], m.knots[0]),
        r <= j <= m.degree,
    ensures
        blend_point(m, m.knots[0], m.degree as int, r, j) == blend_point(
            m,
            m.knots[0],
            m.degree as int,
            0,
            j - r,
        ),
        blend_weight(m, m.knots[0], m.degree as int, r, j) == blend_weight(
            m,
            m.knots[0],
            m.degree as int,
            0,
            j - r,
        ),
    decreases r,
{
    if r > 0 {
        let u = m.knots[0];
        let k = m.degree as int;
        lemma_blend_at_start(m, (r - 1) as nat, j - 1);
        let kp = m.knots[j];
        assert(equiv(kp, u));
        assert(le(kp, u) && le(u, kp));
        assert(kp == u) by {
            reveal(exact_arithmetic);
        }
        assert(u.sub_spec(kp) == zero::<N>()) by {
            reveal(exact_arithmetic);
        }
        let a = alpha(m, u, k, r as int, j);
        assert(a == zero::<N>()) by {
            reveal(exact_arithmetic);
        }
        let na = N::one_spec().sub_spec(a);
        assert(na == N::one_spec()) by {
            reveal(exact_arithmetic);
        }
        let p0 = blend_point(m, u, k, (r - 1) as nat, j - 1);
        let p1 = blend_point(m, u, k, (r - 1) as nat, j);
        assert(p0.scale_spec(na) == p0) by {
            reveal(exact_arithmetic);
        }
        assert(p0.add_spec(p1.scale_spec(a)) == p0) by {
            reveal(exact_arithmetic);
        }
        let w0 = blend_weight(m, u, k, (r - 1) as nat, j - 1);
        let w1 = blend_weight(m, u, k, (r - 1) as nat, j);
        assert(w0.mul_spec(na) == w0) by {
            reveal(exact_arithmetic);
        }
        assert(w0.add_spec(w1.mul_spec(a)) == w0) by {
            reveal(exact_arithmetic);
        }
    }
}

/// At the end of the range, where every blending factor is one, each level
/// of the recurrence keeps the previous one.
proof fn lemma_blend_at_end<N: ScalarT, V: VectorT<Field = N>>(
    m: CurveModel<N, V>,
    r: nat,
    j: int,
)
    requires
        exact_arithmetic::<N, V>(),
        valid_curve(m),
        lt(m.knots[m.control_points.len() - 1], m.knots.last()),
        r <= j <= m.degree,
    ensures
        blend_point(m, m.knots.last(), m.control_points.len() - 1, r, j) == blend_point(
            m,
            m.knots.last(),
            m.control_points.len() - 1,
            0,
            j,
        ),
        blend_weight(m, m.knots.last(), m.control_points.len() - 1, r, j) == blend_weight(
            m,
            m.knots.last(),
            m.control_points.len() - 1,
            0,
            j,
        ),
    decreases r,
{
    if r > 0 {
        let u = m.knots.last();
        let n = m.control_points.len() as int;
        let k = n - 1;
        lemma_blend_at_end(m, (r - 1) as nat, j);
        let kp = m.knots[j + k - m.degree];
        lemma_sorted_le(m.knots, j + k - m.degree, k);
        assert(lt(kp, u));
        let top = m.knots[j + 1 + k - r];
        if j + 1 + k - r < m.knots.len() - 1 {
            assert(equiv(top, u));
            assert(le(top, u) && le(u, top));
        }
        assert(top == u) by {
            reveal(exact_arithmetic);
        }
        let x = u.sub_spec(kp);
        assert(x != zero::<N>()) by {
            reveal(exact_arithmetic);
        }
        let a = alpha(m, u, k, r as int, j);
        assert(a == x.div_spec(x));
        assert(a == N::one_spec()) by {
            reveal(exact_arithmetic);
        }
        let na = N::one_spec().sub_spec(a);
        assert(na == zero::<N>()) by {
            reveal(exact_arithmetic);
        }
        let p0 = blend_point(m, u, k, (r - 1) as nat, j - 1);
        let p1 = blend_point(m, u, k, (r - 1) as nat, j);
        assert(p1.scale_spec(a) == p1) by {
            reveal(exact_arithmetic);
        }
        assert(p0.scale_spec(na).add_spec(p1) == p1) by {
            reveal(exact_arithmetic);
        }
        let w0 = blend_weight(m, u, k, (r - 1) as nat, j - 1);
        let w1 = blend_weight(m, u, k, (r - 1) as nat, j);
        assert(w1.mul_spec(a) == w1) by {
            reveal(exact_arithmetic);
        }
        assert(w0.mul_spec(na).add_spec(w1) == w1) by {
            reveal(exact_arithmetic);
        }
    }
}

/// In exact arithmetic, a curve passes through its first control point at
/// the start of its parameter range and through its last control point at
/// the end, whatever the (nonzero) weights of those points.
///
/// This needs the first `degree + 1` knots to be equal and no more than
/// those, and no more than the last `degree + 1` knots to be equal: with a
/// longer run of equal knots at an end, the control point at that end no
/// longer contributes to the curve there.
pub proof fn lemma_interpolates_end_points<N: ScalarT, V: VectorT<Field = N>>(m: CurveModel<N, V>)
    requires
        exact_arithmetic::<N, V>(),
        valid_curve(m),
        equiv(m.knots[m.degree as int], m.knots[0]),
        lt(m.knots[0], m.knots[m.degree + 1 as int]),
        lt(m.knots[m.control_points.len() - 1], m.knots.last()),
        m.weights[0] != zero::<N>(),
        m.weights.last() != zero::<N>(),
    ensures
        curve_point(m, m.knots[0]) == m.control_points[0],
        curve_point(m, m.knots.last()) == m.control_points.last(),
{
    let kn = m.knots;
    let d = m.degree as int;
    let n = m.control_points.len() as int;
    let one = N::one_spec();
    lemma_sorted_le(kn, 0, kn.len() - 1);

    // start of the range
    let u0 = kn[0];
    assert(clamp_spec(kn, u0) == u0);
    assert(is_span(kn, u0, d));
    lemma_span_unique(kn, u0, d, span_of(kn, u0));
    lemma_blend_at_start(m, m.degree, d);
    let p0 = m.control_points[0];
    let w0 = m.weights[0];
    assert(p0.scale_spec(w0).scale_spec(one.div_spec(w0)) == p0) by {
        reveal(exact_arithmetic);
    }
    assert(curve_point(m, u0) == p0);

    // end of the range
    let u1 = kn.last();
    assert(clamp_spec(kn, u1) == u1);
    assert(equiv(kn[n], u1));
    assert(is_span(kn, u1, n - 1));
    lemma_span_unique(kn, u1, n - 1, span_of(kn, u1));
    lemma_blend_at_end(m, m.degree, d);
    let p1 = m.control_points[n - 1];
    let w1 = m.weights[n - 1];
    assert(p1.scale_spec(w1).scale_spec(one.div_spec(w1)) == p1) by {
        reveal(exact_arithmetic);
    }
    assert(curve_point(m, u1) == p1);
}

/// NURBS curve.
///
/// Non-Uniform Rational B-Spline.
#[derive(PartialEq, Debug)]
#[verifier::reject_recursive_types(N)]
pub struct Curve<N: ScalarT, V: VectorT<Field = N>> {
    degree: usize,
    control_points: Vec<V>,
    weights: Vec<N>,
    knots: KnotVec<N>,
}

impl<N: ScalarT, V: VectorT<Field = N>> View for Curve<N, V> {
    type V = CurveModel<N, V>;

    closed spec fn view(&self) -> CurveModel<N, V> {
        CurveModel {
            degree: self.degree as nat,
            control_points: self.control_points@,
            weights: self.weights@,
            knots: self.knots@,
        }
    }
}

impl<N: ScalarT, V: VectorT<Field = N>> Curve<N, V> {
    #[verifier::type_invariant]
    spec fn inv(self) -> bool {
        valid_curve(self@)
    }

    /// Creates a new NURBS Curve.
    ///
    /// The following basic properties must be satisfied for a NURBS curve:
    /// * `degree` > 0
    /// * `control_points.len() > degree`
    /// * `weights.len() == control_points.len()`
    /// * `knots.len() == degree + control_points.len() + 1`
    /// * `knots.is_clamped(degree)`
    ///
    /// They are checked in this order, and the first that fails gives the
    /// error.
    pub fn new(degree: usize, control_points: Vec<V>, weights: Vec<N>, knots: KnotVec<N>) -> (r:
        Result<Self, CurveError>)
        requires
            control_points@.len() <= usize::MAX / 2,
        ensures
            r is Ok <==> construction_error(
                degree,
                control_points@.len() as usize,
                weights@.len() as usize,
                knots@,
            ) is None,
            r matches Err(e) ==> construction_error(
                degree,
                control_points@.len() as usize,
                weights@.len() as usize,
                knots@,
            ) == Some(e),
            r matches Ok(c) ==> c@ == (CurveModel {
                degree: degree as nat,
                control_points: control_points@,
                weights: weights@,
                knots: knots@,
            }),
    {
        let n_points = control_points.len();
        if degree == 0 {
            Err(CurveError::InvalidDegree)
        } else if n_points <= degree {
            Err(CurveError::InsufficientControlPoints { degree, number_supplied: n_points })
        } else if weights.len() != n_points {
            Err(CurveError::MismatchedWeightsAndControlPoints)
        } else if knots.len() != degree + n_points + 1 {
            Err(
                CurveError::InvalidKnotCount {
                    required_knot_len: degree + n_points + 1,
                    receieved_knot_len: knots.len(),
                },
            )
        } else if !knots.is_clamped(degree) {
            Err(CurveError::KnotVectorNotClamped)
        } else {
            Ok(Curve { degree, control_points, weights, knots })
        }
    }

    /// Interpolates the curve at a parameter value.
    ///
    /// This method uses the de Boor algorithm to evaluate the NURBS curve at
    /// a given parameter value `u`, in homogeneous coordinates.
    ///
    /// The parameter `u` is clamped to the allowed range of the parameter
    /// space of the curve (which is the range from `self.knots().min_u()` to
    /// `self.knots().max_u()` inclusive).
    pub fn de_boor(&self, u: N) -> (r: V)
        requires
            evaluable_at(self@, u),
        ensures
            r == curve_point(self@, u),
    {
        proof {
            use_type_invariant(self);
        }
        let ghost m = self@;
        // clamp u and find the knot span containing u
        let uu = self.knots.clamp(u);
        let k = self.knots.find_span(uu);
        proof {
            lemma_span_unique(m.knots, uu, k as int, span_of(m.knots, uu));
            lemma_span_below_end(m, uu, k as int);
        }
        let deg = self.degree;
        let n_points = self.control_points.len();
        let n_knots = self.knots.len();

        // populate the initial column with homogeneous points and weights
        let mut d: Vec<V> = Vec::with_capacity(deg + 1);
        let mut dw: Vec<N> = Vec::with_capacity(deg + 1);
        let mut j: usize = 0;
        while j <= deg
            invariant
                m == self@,
                valid_curve(m),
                deg == m.degree,
                deg <= k < m.control_points.len(),
                n_points == m.control_points.len(),
                n_knots == m.knots.len(),
                j <= deg + 1,
                d@.len() == j,
                dw@.len() == j,
                forall|t: int| 0 <= t < j ==> #[trigger] d@[t] == blend_point(m, uu, k as int, 0, t),
                forall|t: int|
                    0 <= t < j ==> #[trigger] dw@[t] == blend_weight(m, uu, k as int, 0, t),
            decreases deg + 1 - j,
        {
            let i: usize = k - deg + j;
            d.push(self.control_points[i].scale(self.weights[i]));
            dw.push(self.weights[i]);
            j += 1;
        }

        // the triangular recurrence, one level at a time; each level is
        // written over the previous from the top down
        let mut r: usize = 1;
        while r <= deg
            invariant
                m == self@,
                valid_curve(m),
                deg == m.degree,
                deg <= k < m.control_points.len(),
                n_points == m.control_points.len(),
                n_knots == m.knots.len(),
                1 <= r <= deg + 1,
                d@.len() == deg + 1,
                dw@.len() == deg + 1,
                forall|t: int|
                    r - 1 <= t <= deg ==> #[trigger] d@[t] == blend_point(
                        m,
                        uu,
                        k as int,
                        (r - 1) as nat,
                        t,
                    ),
                forall|t: int|
                    r - 1 <= t <= deg ==> #[trigger] dw@[t] == blend_weight(
                        m,
                        uu,
                        k as int,
                        (r - 1) as nat,
                        t,
                    ),
            decreases deg + 1 - r,
        {
            let mut j: usize = deg;
            while j >= r
                invariant
                    m == self@,
                    valid_curve(m),
                    deg == m.degree,
                    deg <= k < m.control_points.len(),
                    n_points == m.control_points.len(),
                    n_knots == m.knots.len(),
                n_points == m.control_points.len(),
                n_knots == m.knots.len(),
                    1 <= r <= deg,
                    r - 1 <= j <= deg,
                    d@.len() == deg + 1,
                    dw@.len() == deg + 1,
                    forall|t: int|
                        j < t <= deg ==> #[trigger] d@[t] == blend_point(
                            m,
                            uu,
                            k as int,
                            r as nat,
                            t,
                        ),
                    forall|t: int|
                        j < t <= deg ==> #[trigger] dw@[t] == blend_weight(
                            m,
                            uu,
                            k as int,
                            r as nat,
                            t,
                        ),
                    forall|t: int|
                        r - 1 <= t <= j ==> #[trigger] d@[t] == blend_point(
                            m,
                            uu,
                            k as int,
                            (r - 1) as nat,
                            t,
                        ),
                    forall|t: int|
                        r - 1 <= t <= j ==> #[trigger] dw@[t] == blend_weight(
                            m,
                            uu,
                            k as int,
                            (r - 1) as nat,
                            t,
                        ),
                decreases j,
            {
                let kp = self.knots[k - deg + j];
                let alpha = uu.sub(kp).div(self.knots[k - r + j + 1].sub(kp));
                let nalpha = N::one().sub(alpha);
                let p = d[j - 1].scale(nalpha).add(d[j].scale(alpha));
                let w = dw[j - 1].mul(nalpha).add(dw[j].mul(alpha));
                d.set(j, p);
                dw.set(j, w);
                j -= 1;
            }
            r += 1;
        }

        // convert from homogeneous to Cartesian coordinates
        d[deg].scale(N::one().div(dw[deg]))
    }

    /// Returns the vector of control points.
    pub fn control_points(&self) -> (r: &Vec<V>)
        ensures
            r@ == self@.control_points,
    {
        &self.control_points
    }

    /// Returns the knot vector.
    pub fn knots(&self) -> (r: &KnotVec<N>)
        ensures
            r@ == self@.knots,
    {
        &self.knots
    }

    /// Scales the curve by a uniform amount about the origin: every control
    /// point is multiplied by `scale_factor`.
    pub fn uniform_scale(&mut self, scale_factor: N)
        ensures
            final(self)@ == (CurveModel {
                control_points: scaled(old(self)@.control_points, scale_factor),
                ..old(self)@
            }),
    {
        proof {
            use_type_invariant(&*self);
        }
        let n = self.control_points.len();
        let mut points: Vec<V> = Vec::with_capacity(n);
        let mut i: usize = 0;
        while i < n
            invariant
                n == self@.control_points.len(),
                i <= n,
                points@.len() == i,
                forall|j: int|
                    0 <= j < i ==> #[trigger] points@[j] == self@.control_points[j].scale_spec(
                        scale_factor,
                    ),
            decreases n - i,
        {
            points.push(self.control_points[i].scale(scale_factor));
            i += 1;
        }
        assert(points@ =~= scaled(self@.control_points, scale_factor));
        self.control_points = points;
    }
}

} // verus!
