//! Membership function library: pure numeric shape functions mapping a
//! crisp value to a membership degree.
//!
//! Everything is fixed-point: a stored `i64` value `v` stands for the
//! real number `v / SCALE`. Degrees lie in `[0, SCALE]` (`SCALE` is the
//! degree 1.0). Coordinates are bounded by `COORD_MAX`, which keeps every
//! interpolation product inside `i64`.
use vstd::prelude::*;

verus! {

use vstd::arithmetic::div_mod::{
    lemma_basic_div, lemma_div_is_ordered, lemma_div_multiples_vanish, lemma_div_pos_is_pos,
};
use vstd::arithmetic::mul::lemma_mul_inequality;

/// Fixed-point scale: the real number 1.0 is stored as `SCALE`.
pub const SCALE: i64 = 1000;

/// Bound on the magnitude of every coordinate (and of crisp inputs after
/// clamping). Keeps `(x2 - x1) * SCALE` within `i64`.
pub const COORD_MAX: i64 = 1_000_000_000_000_000;

/// One breakpoint of a piecewise-linear envelope: the membership degree
/// at `x` is `y`.
#[derive(Clone, Copy, Debug, PartialEq, Eq, Structural)]
pub struct Point {
    pub x: i64,
    pub y: i64,
}

/// Linear interpolation between `(x1, y1)` and `(x2, y2)` at `x`, with
/// the interpolated offset rounded toward `y1`. Meaningful for
/// `x1 <= x <= x2` with `x1 < x2`.
pub open spec fn lin_interp(x1: int, y1: int, x2: int, y2: int, x: int) -> int {
    if y2 >= y1 {
        y1 + (x - x1) * (y2 - y1) / (x2 - x1)
    } else {
        y1 - (x - x1) * (y1 - y2) / (x2 - x1)
    }
}

/// An interpolated degree always lies between the two endpoint degrees.
pub proof fn lemma_lin_interp_bounds(x1: int, y1: int, x2: int, y2: int, x: int)
    requires
        x1 <= x <= x2,
        x1 < x2,
    ensures
        y1 <= y2 ==> y1 <= lin_interp(x1, y1, x2, y2, x) <= y2,
        y2 <= y1 ==> y2 <= lin_interp(x1, y1, x2, y2, x) <= y1,
{
    let w = x2 - x1;
    let t = x - x1;
    if y2 >= y1 {
        let d = y2 - y1;
        lemma_mul_inequality(0, t, d);
        lemma_div_pos_is_pos(t * d, w);
        lemma_mul_inequality(t, w, d);
        lemma_div_is_ordered(t * d, w * d, w);
        lemma_div_multiples_vanish(d, w);
        assert(w * d == d * w);
    } else {
        let d = y1 - y2;
        lemma_mul_inequality(0, t, d);
        lemma_div_pos_is_pos(t * d, w);
        lemma_mul_inequality(t, w, d);
        lemma_div_is_ordered(t * d, w * d, w);
        lemma_div_multiples_vanish(d, w);
        assert(w * d == d * w);
    }
}

/// Interpolation is exact at both endpoints.
pub proof fn lemma_lin_interp_ends(x1: int, y1: int, x2: int, y2: int)
    requires
        x1 < x2,
    ensures
        lin_interp(x1, y1, x2, y2, x1) == y1,
        lin_interp(x1, y1, x2, y2, x2) == y2,
{
    let w = x2 - x1;
    if y2 >= y1 {
        let d = y2 - y1;
        assert(0 * d == 0);
        lemma_basic_div(0, w);
        lemma_div_multiples_vanish(d, w);
        assert(w * d == d * w);
    } else {
        let d = y1 - y2;
        assert(0 * d == 0);
        lemma_basic_div(0, w);
        lemma_div_multiples_vanish(d, w);
        assert(w * d == d * w);
    }
}

/// Triangular shape with feet `a` and `c` and peak `b`: 0 outside
/// `[a, c]`, rising linearly on `[a, b]`, falling linearly on `[b, c]`.
pub open spec fn tri_mem(a: int, b: int, c: int, x: int) -> int {
    if x <= a || x >= c {
        0
    } else if x <= b {
        lin_interp(a, 0, b, SCALE as int, x)
    } else {
        lin_interp(b, SCALE as int, c, 0, x)
    }
}

/// Trapezoidal shape: 0 outside `[a, d]`, rising on `[a, b]`, a plateau
/// of full membership on `[b, c]`, falling on `[c, d]`.
pub open spec fn trap_mem(a: int, b: int, c: int, d: int, x: int) -> int {
    if x <= a || x >= d {
        0
    } else if x <= b {
        lin_interp(a, 0, b, SCALE as int, x)
    } else if x <= c {
        SCALE as int
    } else {
        lin_interp(c, SCALE as int, d, 0, x)
    }
}

/// Piecewise-linear envelope: the degree of the nearest endpoint outside
/// the breakpoints, linear interpolation between consecutive breakpoints
/// inside them.
pub open spec fn pw_mem(pts: Seq<Point>, x: int) -> int
    decreases pts.len(),
{
    if pts.len() == 0 {
        0
    } else if x <= pts[0].x {
        pts[0].y as int
    } else if pts.len() == 1 {
        pts[0].y as int
    } else if x <= pts[1].x {
        lin_interp(pts[0].x as int, pts[0].y as int, pts[1].x as int, pts[1].y as int, x)
    } else {
        pw_mem(pts.drop_first(), x)
    }
}

/// Well-formed envelope: at least one breakpoint, strictly increasing
/// x-coordinates, degrees in `[0, SCALE]`, coordinates within bounds.
pub open spec fn env_wf(pts: Seq<Point>) -> bool {
    &&& pts.len() >= 1
    &&& forall|i: int|
        0 <= i < pts.len() ==> -COORD_MAX <= (#[trigger] pts[i]).x <= COORD_MAX
    &&& forall|i: int| 0 <= i < pts.len() ==> 0 <= (#[trigger] pts[i]).y <= SCALE
    &&& forall|i: int| 0 <= i < pts.len() - 1 ==> (#[trigger] pts[i]).x < pts[i + 1].x
}

/// The earliest breakpoint of maximal degree among the first `n`.
pub open spec fn rep_upto(pts: Seq<Point>, n: int) -> Point
    decreases n,
{
    if n <= 1 {
        pts[0]
    } else {
        let prev = rep_upto(pts, n - 1);
        if pts[n - 1].y > prev.y {
            pts[n - 1]
        } else {
            prev
        }
    }
}

/// Representative breakpoint of an envelope: the earliest breakpoint of
/// maximal degree.
pub open spec fn pw_rep(pts: Seq<Point>) -> Point {
    rep_upto(pts, pts.len() as int)
}

/// The representative breakpoint is one of the breakpoints and carries
/// their maximal degree.
pub proof fn lemma_rep_upto(pts: Seq<Point>, n: int)
    requires
        1 <= n <= pts.len(),
    ensures
        exists|i: int| 0 <= i < n && rep_upto(pts, n) == pts[i],
        forall|i: int| 0 <= i < n ==> (#[trigger] pts[i]).y <= rep_upto(pts, n).y,
    decreases n,
{
    if n <= 1 {
        assert(rep_upto(pts, n) == pts[0]);
    } else {
        lemma_rep_upto(pts, n - 1);
    }
}

/// A membership function: a closed set of shape kinds, each mapping a
/// crisp fixed-point value to a degree in `[0, SCALE]`.
#[derive(Clone, Debug)]
pub enum MembershipFunction {
    Triangular { a: i64, b: i64, c: i64 },
    Trapezoidal { a: i64, b: i64, c: i64, d: i64 },
    PiecewiseLinear { points: Vec<Point> },
}

impl MembershipFunction {
    /// Well-formed shape parameters: monotone knots within bounds.
    pub open spec fn wf(&self) -> bool {
        match *self {
            MembershipFunction::Triangular { a, b, c } => {
                &&& a <= b <= c
                &&& -COORD_MAX <= a
                &&& c <= COORD_MAX
            },
            MembershipFunction::Trapezoidal { a, b, c, d } => {
                &&& a <= b <= c <= d
                &&& -COORD_MAX <= a
                &&& d <= COORD_MAX
            },
            MembershipFunction::PiecewiseLinear { points } => env_wf(points@),
        }
    }

    /// The degree of `x`, as a mathematical function of the shape.
    pub open spec fn spec_mem(&self, x: int) -> int {
        match *self {
            MembershipFunction::Triangular { a, b, c } => tri_mem(a as int, b as int, c as int, x),
            MembershipFunction::Trapezoidal { a, b, c, d } => trap_mem(
                a as int,
                b as int,
                c as int,
                d as int,
                x,
            ),
            MembershipFunction::PiecewiseLinear { points } => pw_mem(points@, x),
        }
    }

    /// The shape's representative coordinate: its (earliest) peak, used
    /// by defuzzification.
    pub open spec fn spec_rep(&self) -> int {
        match *self {
            MembershipFunction::Triangular { a, b, c } => b as int,
            MembershipFunction::Trapezoidal { a, b, c, d } => b as int,
            MembershipFunction::PiecewiseLinear { points } => pw_rep(points@).x as int,
        }
    }

    /// Evaluate the membership degree of `value`.
    pub fn membership(&self, value: i64) -> (r: i64)
        requires
            self.wf(),
            -COORD_MAX <= value <= COORD_MAX,
        ensures
            r == self.spec_mem(value as int),
            0 <= r <= SCALE,
    {
        match self {
            MembershipFunction::Triangular { a, b, c } => {
                let a = *a;
                let b = *b;
                let c = *c;
                if value <= a || value >= c {
                    0
                } else if value <= b {
                    interp_eval(a, 0, b, SCALE, value)
                } else {
                    interp_eval(b, SCALE, c, 0, value)
                }
            },
            MembershipFunction::Trapezoidal { a, b, c, d } => {
                let a = *a;
                let b = *b;
                let c = *c;
                let d = *d;
                if value <= a || value >= d {
                    0
                } else if value <= b {
                    interp_eval(a, 0, b, SCALE, value)
                } else if value <= c {
                    SCALE
                } else {
                    interp_eval(c, SCALE, d, 0, value)
                }
            },
            MembershipFunction::PiecewiseLinear { points } => pw_eval(points, value),
        }
    }

    /// The representative coordinate of the shape.
    pub fn representative(&self) -> (r: i64)
        requires
            self.wf(),
        ensures
            r == self.spec_rep(),
            -COORD_MAX <= r <= COORD_MAX,
    {
        match self {
            MembershipFunction::Triangular { a, b, c } => *b,
            MembershipFunction::Trapezoidal { a, b, c, d } => *b,
            MembershipFunction::PiecewiseLinear { points } => {
                let mut best: Point = points[0];
                let mut k: usize = 1;
                while k < points.len()
                    invariant
                        env_wf(points@),
                        1 <= k <= points@.len(),
                        best == rep_upto(points@, k as int),
                    decreases points@.len() - k,
                {
                    let p = points[k];
                    if p.y > best.y {
                        best = p;
                    }
                    k = k + 1;
                }
                proof {
                    lemma_rep_upto(points@, points@.len() as int);
                }
                best.x
            },
        }
    }

    /// A well-formed membership function returns degrees in `[0, SCALE]`.
    pub proof fn lemma_mem_bounds(&self, x: int)
        requires
            self.wf(),
        ensures
            0 <= self.spec_mem(x) <= SCALE,
    {
        match *self {
            MembershipFunction::Triangular { a, b, c } => {
                lemma_tri_mem_bounds(a as int, b as int, c as int, x);
            },
            MembershipFunction::Trapezoidal { a, b, c, d } => {
                lemma_trap_mem_bounds(a as int, b as int, c as int, d as int, x);
            },
            MembershipFunction::PiecewiseLinear { points } => {
                lemma_pw_mem_bounds(points@, x);
            },
        }
    }
}

/// A triangular degree lies in `[0, SCALE]`.
pub proof fn lemma_tri_mem_bounds(a: int, b: int, c: int, x: int)
    requires
        a <= b <= c,
    ensures
        0 <= tri_mem(a, b, c, x) <= SCALE,
{
    if x <= a || x >= c {
    } else if x <= b {
        lemma_lin_interp_bounds(a, 0, b, SCALE as int, x);
    } else {
        lemma_lin_interp_bounds(b, SCALE as int, c, 0, x);
    }
}

/// A trapezoidal degree lies in `[0, SCALE]`.
pub proof fn lemma_trap_mem_bounds(a: int, b: int, c: int, d: int, x: int)
    requires
        a <= b <= c <= d,
    ensures
        0 <= trap_mem(a, b, c, d, x) <= SCALE,
{
    if x <= a || x >= d {
    } else if x <= b {
        lemma_lin_interp_bounds(a, 0, b, SCALE as int, x);
    } else if x <= c {
    } else {
        lemma_lin_interp_bounds(c, SCALE as int, d, 0, x);
    }
}

/// A piecewise-linear degree lies in `[0, SCALE]`.
pub proof fn lemma_pw_mem_bounds(pts: Seq<Point>, x: int)
    requires
        env_wf(pts),
    ensures
        0 <= pw_mem(pts, x) <= SCALE,
    decreases pts.len(),
{
    if x <= pts[0].x {
    } else if pts.len() == 1 {
    } else if x <= pts[1].x {
        lemma_lin_interp_bounds(pts[0].x as int, pts[0].y as int, pts[1].x as int, pts[1].y as int, x);
    } else {
        assert(env_wf(pts.drop_first())) by {
            assert forall|i: int| 0 <= i < pts.drop_first().len() - 1 implies (#[trigger] pts.drop_first()[i]).x
                < pts.drop_first()[i + 1].x by {
                assert(pts.drop_first()[i] == pts[i + 1]);
                assert(pts.drop_first()[i + 1] == pts[i + 2]);
            }
        }
        lemma_pw_mem_bounds(pts.drop_first(), x);
    }
}

/// Linear interpolation, executable form.
fn interp_eval(x1: i64, y1: i64, x2: i64, y2: i64, x: i64) -> (r: i64)
    requires
        -COORD_MAX <= x1 < x2 <= COORD_MAX,
        0 <= y1 <= SCALE,
        0 <= y2 <= SCALE,
        x1 <= x <= x2,
    ensures
        r == lin_interp(x1 as int, y1 as int, x2 as int, y2 as int, x as int),
        0 <= r <= SCALE,
{
    proof {
        lemma_lin_interp_bounds(x1 as int, y1 as int, x2 as int, y2 as int, x as int);
        if y2 >= y1 {
            lemma_mul_inequality(0, (x - x1) as int, (y2 - y1) as int);
            lemma_mul_inequality((x - x1) as int, (x2 - x1) as int, (y2 - y1) as int);
            lemma_mul_inequality((x2 - x1) as int, 2 * COORD_MAX as int, (y2 - y1) as int);
            lemma_mul_inequality((y2 - y1) as int, SCALE as int, 2 * COORD_MAX as int);
            lemma_div_pos_is_pos(((x - x1) as int) * ((y2 - y1) as int), (x2 - x1) as int);
        } else {
            lemma_mul_inequality(0, (x - x1) as int, (y1 - y2) as int);
            lemma_mul_inequality((x - x1) as int, (x2 - x1) as int, (y1 - y2) as int);
            lemma_mul_inequality((x2 - x1) as int, 2 * COORD_MAX as int, (y1 - y2) as int);
            lemma_mul_inequality((y1 - y2) as int, SCALE as int, 2 * COORD_MAX as int);
            lemma_div_pos_is_pos(((x - x1) as int) * ((y1 - y2) as int), (x2 - x1) as int);
        }
    }
    if y2 >= y1 {
        y1 + (x - x1) * (y2 - y1) / (x2 - x1)
    } else {
        y1 - (x - x1) * (y1 - y2) / (x2 - x1)
    }
}

/// Piecewise-linear evaluation, executable form.
fn pw_eval(points: &Vec<Point>, x: i64) -> (r: i64)
    requires
        env_wf(points@),
        -COORD_MAX <= x <= COORD_MAX,
    ensures
        r == pw_mem(points@, x as int),
        0 <= r <= SCALE,
{
    proof {
        lemma_pw_mem_bounds(points@, x as int);
    }
    if x <= points[0].x {
        return points[0].y;
    }
    let n = points.len();
    let mut k: usize = 1;
    proof {
        assert(points@.skip(0) =~= points@);
    }
    while k < n
        invariant
            env_wf(points@),
            n == points@.len(),
            1 <= k <= n,
            x > points@[k - 1].x,
            -COORD_MAX <= x <= COORD_MAX,
            pw_mem(points@, x as int) == pw_mem(points@.skip(k - 1), x as int),
        decreases n - k,
    {
        proof {
            lemma_env_wf_skip(points@, k as int - 1);
        }
        if x <= points[k].x {
            assert(points@.skip(k - 1)[0] == points@[k - 1]);
            assert(points@.skip(k - 1)[1] == points@[k as int]);
            return interp_eval(points[k - 1].x, points[k - 1].y, points[k].x, points[k].y, x);
        }
        proof {
            assert(points@.skip(k - 1).drop_first() =~= points@.skip(k as int));
            assert(points@.skip(k - 1)[0] == points@[k - 1]);
            assert(points@.skip(k - 1)[1] == points@[k as int]);
        }
        k = k + 1;
    }
    proof {
        assert(points@.skip(k - 1)[0] == points@[k - 1]);
        assert(points@.skip(k - 1).len() == 1);
    }
    points[k - 1].y
}

/// A suffix of a well-formed envelope is a well-formed envelope.
pub proof fn lemma_env_wf_skip(pts: Seq<Point>, k: int)
    requires
        env_wf(pts),
        0 <= k < pts.len(),
    ensures
        env_wf(pts.skip(k)),
{
    assert forall|i: int| 0 <= i < pts.skip(k).len() - 1 implies (#[trigger] pts.skip(k)[i]).x < pts.skip(
        k,
    )[i + 1].x by {
        assert(pts.skip(k)[i] == pts[k + i]);
        assert(pts.skip(k)[i + 1] == pts[k + i + 1]);
    }
    assert forall|i: int| 0 <= i < pts.skip(k).len() implies -COORD_MAX <= (#[trigger] pts.skip(k)[i]).x
        <= COORD_MAX && 0 <= pts.skip(k)[i].y <= SCALE by {
        assert(pts.skip(k)[i] == pts[k + i]);
    }
}

/// Triangular membership function over `[a, c]` with peak `b`.
pub fn triangular(a: i64, b: i64, c: i64) -> (r: MembershipFunction)
    requires
        a <= b <= c,
        -COORD_MAX <= a,
        c <= COORD_MAX,
    ensures
        r == (MembershipFunction::Triangular { a, b, c }),
        r.wf(),
{
    MembershipFunction::Triangular { a, b, c }
}

/// Trapezoidal membership function over `[a, d]` with plateau `[b, c]`.
pub fn trapezoidal(a: i64, b: i64, c: i64, d: i64) -> (r: MembershipFunction)
    requires
        a <= b <= c <= d,
        -COORD_MAX <= a,
        d <= COORD_MAX,
    ensures
        r == (MembershipFunction::Trapezoidal { a, b, c, d }),
        r.wf(),
{
    MembershipFunction::Trapezoidal { a, b, c, d }
}

/// Whether `points` forms a well-formed envelope.
pub fn check_envelope(points: &Vec<Point>) -> (r: bool)
    ensures
        r == env_wf(points@),
{
    if points.len() == 0 {
        return false;
    }
    let n = points.len();
    let mut k: usize = 0;
    while k < n
        invariant
            n == points@.len() >= 1,
            0 <= k <= n,
            forall|i: int| 0 <= i < k ==> -COORD_MAX <= (#[trigger] points@[i]).x <= COORD_MAX,
            forall|i: int| 0 <= i < k ==> 0 <= (#[trigger] points@[i]).y <= SCALE,
            forall|i: int|
                0 <= i < k && i + 1 < n ==> (#[trigger] points@[i]).x < points@[i + 1].x,
        decreases n - k,
    {
        let p = points[k];
        if p.x < -COORD_MAX || p.x > COORD_MAX {
            return false;
        }
        if p.y < 0 || p.y > SCALE {
            return false;
        }
        if k + 1 < n {
            if points[k + 1].x <= p.x {
                return false;
            }
        }
        k = k + 1;
    }
    true
}

/// Law: a triangular shape is 0 at its left foot and everywhere outside
/// the open interval `(a, c)`.
pub proof fn lemma_triangular_outside(a: int, b: int, c: int, x: int)
    requires
        a <= b <= c,
        x <= a || x >= c,
    ensures
        tri_mem(a, b, c, x) == 0,
{
}

/// Law: a non-degenerate triangular shape reaches full membership
/// exactly at its peak.
pub proof fn lemma_triangular_at_peak(a: int, b: int, c: int)
    requires
        a < b < c,
    ensures
        tri_mem(a, b, c, b) == SCALE,
{
    lemma_lin_interp_ends(a, 0, b, SCALE as int);
}

} // verus!
