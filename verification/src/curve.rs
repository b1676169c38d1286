//! Cubic Bezier paths between two points of the grid.
//!
//! A path leaves `start` toward `end`. Its two inner control points sit one
//! third and two thirds of the way along the straight segment, each pushed
//! sideways by a signed offset. The curve parameter is the exact fraction
//! `n / d`; sampled coordinates are rounded down to whole units.

use vstd::prelude::*;
use vstd::arithmetic::div_mod::lemma_div_is_ordered;
use vstd::arithmetic::div_mod::lemma_div_multiples_vanish;
use vstd::arithmetic::div_mod::lemma_fundamental_div_mod;
use vstd::arithmetic::div_mod::lemma_fundamental_div_mod_converse;
use crate::geometry::IVec2;
use crate::numeric::clamp_i32;
use crate::numeric::clamp_i64;
use crate::numeric::floor_div;
use crate::numeric::int_sqrt;
use crate::numeric::isqrt;
use crate::numeric::lemma_int_sqrt_bounded;
use crate::numeric::lemma_int_sqrt_unique;
use crate::numeric::saturate_i32;
use crate::numeric::saturate_i64;

verus! {

/// The largest numerator and denominator a curve parameter may have.
pub const PARAMETER_LIMIT: u64 = 1_073_741_824;

/// The largest magnitude of a sideways displacement of a control point.
pub const BEND_LIMIT: i64 = 2_147_483_648;

/// The sideways displacement of one inner control point.
#[derive(Clone, Copy, Debug, PartialEq, Eq, Structural)]
pub struct Bend {
    pub x: i64,
    pub y: i64,
}

/// The tangent of a path: the displacement per unit of the curve parameter.
/// Its coordinates are wide enough for the difference of any two points.
#[derive(Clone, Copy, Debug, PartialEq, Eq, Structural)]
pub struct Tangent {
    pub x: i64,
    pub y: i64,
}

/// A single-segment cubic Bezier path.
#[derive(Clone, Copy, Debug, PartialEq, Eq, Structural)]
pub struct Curve {
    pub start: IVec2,
    pub end: IVec2,
    pub bend1: Bend,
    pub bend2: Bend,
}

/// The quotient `a / sqrt(s)` rounded toward zero, and zero where `s` is zero.
pub open spec fn over_root(a: int, s: int) -> int {
    if s <= 0 {
        0
    } else if a >= 0 {
        int_sqrt(((a * a) / s) as nat) as int
    } else {
        -(int_sqrt(((a * a) / s) as nat) as int)
    }
}

/// The numerator, over `d * d * d`, of one coordinate of the Bezier point at
/// `n / d`. The inner control coordinates are given tripled, which keeps
/// every term an integer.
pub open spec fn bezier_numerator(head: int, inner1: int, inner2: int, tail: int, n: int, d: int) -> int {
    let u = d - n;
    u * u * u * head + u * u * n * inner1 + u * n * n * inner2 + n * n * n * tail
}

/// One coordinate of the Bezier point at `n / d`, rounded down and saturated.
pub open spec fn bezier_axis(head: int, inner1: int, inner2: int, tail: int, n: int, d: int) -> int {
    clamp_i32(bezier_numerator(head, inner1, inner2, tail, n, d) / (d * d * d))
}

/// The numerator, over `d * d`, of one coordinate of the Bezier tangent at `n / d`.
pub open spec fn tangent_numerator(head: int, inner1: int, inner2: int, tail: int, n: int, d: int) -> int {
    let u = d - n;
    u * u * (inner1 - 3 * head) + 2 * u * n * (inner2 - inner1) + n * n * (3 * tail - inner2)
}

/// One coordinate of the Bezier tangent at `n / d`, rounded down and
/// saturated to 64 bits.
pub open spec fn tangent_axis(head: int, inner1: int, inner2: int, tail: int, n: int, d: int) -> int {
    clamp_i64(tangent_numerator(head, inner1, inner2, tail, n, d) / (d * d))
}

proof fn lemma_product_bound(a: int, b: int, ba: int, bb: int)
    by (nonlinear_arith)
    requires
        -ba <= a <= ba,
        -bb <= b <= bb,
    ensures
        -(ba * bb) <= a * b <= ba * bb,
{
}

/// Computes `over_root(v * offset, s)` for a component `v` of a displacement
/// whose squared length is `s`.
fn sideways(v: i64, offset: i32, s: u128) -> (r: i64)
    requires
        -4_294_967_296 < v < 4_294_967_296,
        v * v <= s,
    ensures
        r == over_root(v * offset, s as int),
        -BEND_LIMIT <= r <= BEND_LIMIT,
{
    if s == 0 {
        return 0;
    }
    proof {
        lemma_product_bound(v as int, offset as int, 4_294_967_296, 2_147_483_648);
    }
    let a: i128 = (v as i128) * (offset as i128);
    let size: u128 = if a >= 0 {
        a as u128
    } else {
        (-a) as u128
    };
    proof {
        lemma_product_bound(
            size as int,
            size as int,
            9_223_372_036_854_775_808,
            9_223_372_036_854_775_808,
        );
        assert(size * size == a * a) by (nonlinear_arith)
            requires
                size == a || size == -a,
        ;
    }
    let square: u128 = size * size;
    let q: u128 = square / s;
    let m: u64 = isqrt(q);
    proof {
        lemma_over_root_bounded(v as int, offset as int, s as int);
    }
    if a >= 0 {
        m as i64
    } else {
        -(m as i64)
    }
}

/// Evaluates one coordinate of the Bezier point at `n / d`.
fn eval_bezier_axis(head: i32, inner1: i64, inner2: i64, tail: i32, n: u64, d: u64) -> (r: i32)
    requires
        0 < d <= PARAMETER_LIMIT,
        n <= PARAMETER_LIMIT,
        -12_884_901_888 <= inner1 <= 12_884_901_888,
        -12_884_901_888 <= inner2 <= 12_884_901_888,
    ensures
        r == bezier_axis(head as int, inner1 as int, inner2 as int, tail as int, n as int, d as int),
{
    let dd: i128 = d as i128;
    let nn: i128 = n as i128;
    let u: i128 = dd - nn;
    proof {
        // The parameter's parts are bounded by 2^30, their squares by 2^60
        // and their cubes by 2^90, so every term stays far inside 128 bits.
        lemma_product_bound(u as int, u as int, 1_073_741_824, 1_073_741_824);
        lemma_product_bound(nn as int, nn as int, 1_073_741_824, 1_073_741_824);
        lemma_product_bound(dd as int, dd as int, 1_073_741_824, 1_073_741_824);
        lemma_product_bound(u * u, u as int, 1_152_921_504_606_846_976, 1_073_741_824);
        lemma_product_bound(u * u, nn as int, 1_152_921_504_606_846_976, 1_073_741_824);
        lemma_product_bound(u as int, nn as int, 1_073_741_824, 1_073_741_824);
        lemma_product_bound(u * nn, nn as int, 1_152_921_504_606_846_976, 1_073_741_824);
        lemma_product_bound(nn * nn, nn as int, 1_152_921_504_606_846_976, 1_073_741_824);
        lemma_product_bound(dd * dd, dd as int, 1_152_921_504_606_846_976, 1_073_741_824);
        lemma_product_bound(
            u * u * u,
            head as int,
            1_237_940_039_285_380_274_899_124_224,
            2_147_483_648,
        );
        lemma_product_bound(
            u * u * nn,
            inner1 as int,
            1_237_940_039_285_380_274_899_124_224,
            12_884_901_888,
        );
        lemma_product_bound(
            u * nn * nn,
            inner2 as int,
            1_237_940_039_285_380_274_899_124_224,
            12_884_901_888,
        );
        lemma_product_bound(
            nn * nn * nn,
            tail as int,
            1_237_940_039_285_380_274_899_124_224,
            2_147_483_648,
        );
        assert(dd * dd * dd > 0) by (nonlinear_arith)
            requires
                dd > 0,
        ;
    }
    let t0: i128 = u * u * u * (head as i128);
    let t1: i128 = u * u * nn * (inner1 as i128);
    let t2: i128 = u * nn * nn * (inner2 as i128);
    let t3: i128 = nn * nn * nn * (tail as i128);
    let numerator: i128 = t0 + t1 + t2 + t3;
    let denominator: i128 = dd * dd * dd;
    saturate_i32(floor_div(numerator, denominator))
}

/// Evaluates one coordinate of the Bezier tangent at `n / d`.
fn eval_tangent_axis(head: i32, inner1: i64, inner2: i64, tail: i32, n: u64, d: u64) -> (r: i64)
    requires
        0 < d <= PARAMETER_LIMIT,
        n <= PARAMETER_LIMIT,
        -12_884_901_888 <= inner1 <= 12_884_901_888,
        -12_884_901_888 <= inner2 <= 12_884_901_888,
    ensures
        r == tangent_axis(head as int, inner1 as int, inner2 as int, tail as int, n as int, d as int),
{
    let dd: i128 = d as i128;
    let nn: i128 = n as i128;
    let u: i128 = dd - nn;
    let lead: i128 = (inner1 as i128) - 3 * (head as i128);
    let middle: i128 = (inner2 as i128) - (inner1 as i128);
    let trail: i128 = 3 * (tail as i128) - (inner2 as i128);
    proof {
        lemma_product_bound(u as int, u as int, 1_073_741_824, 1_073_741_824);
        lemma_product_bound(nn as int, nn as int, 1_073_741_824, 1_073_741_824);
        lemma_product_bound(dd as int, dd as int, 1_073_741_824, 1_073_741_824);
        lemma_product_bound(2 * u, nn as int, 2_147_483_648, 1_073_741_824);
        lemma_product_bound(u * u, lead as int, 1_152_921_504_606_846_976, 25_769_803_776);
        lemma_product_bound(2 * u * nn, middle as int, 2_305_843_009_213_693_952, 25_769_803_776);
        lemma_product_bound(nn * nn, trail as int, 1_152_921_504_606_846_976, 25_769_803_776);
        assert(dd * dd > 0) by (nonlinear_arith)
            requires
                dd > 0,
        ;
    }
    let t0: i128 = u * u * lead;
    let t1: i128 = 2 * u * nn * middle;
    let t2: i128 = nn * nn * trail;
    let numerator: i128 = t0 + t1 + t2;
    let denominator: i128 = dd * dd;
    saturate_i64(floor_div(numerator, denominator))
}

impl Curve {
    /// The sideways displacements stay within the range of the offsets that made them.
    pub open spec fn wf(&self) -> bool {
        &&& -BEND_LIMIT <= self.bend1.x <= BEND_LIMIT
        &&& -BEND_LIMIT <= self.bend1.y <= BEND_LIMIT
        &&& -BEND_LIMIT <= self.bend2.x <= BEND_LIMIT
        &&& -BEND_LIMIT <= self.bend2.y <= BEND_LIMIT
    }

    /// The displacement of length `offset`, rounded toward zero in each
    /// coordinate, along the direction from `start` to `end` turned a quarter
    /// turn counter-clockwise. It is zero where `start` equals `end`.
    pub open spec fn bend_for(start: IVec2, end: IVec2, offset: i32) -> Bend {
        let dx = end.x - start.x;
        let dy = end.y - start.y;
        let s = dx * dx + dy * dy;
        Bend { x: over_root(-dy * offset, s) as i64, y: over_root(dx * offset, s) as i64 }
    }

    /// The path from `start` to `end` whose inner control points are pushed
    /// sideways by `offset1` and `offset2`.
    pub open spec fn generated(start: IVec2, end: IVec2, offset1: i32, offset2: i32) -> Curve {
        Curve {
            start,
            end,
            bend1: Curve::bend_for(start, end, offset1),
            bend2: Curve::bend_for(start, end, offset2),
        }
    }

    /// Three times the first inner control point: a third of the way from
    /// `start` to `end`, displaced by the first bend.
    pub open spec fn control1_x3(&self) -> (int, int) {
        (
            2 * self.start.x + self.end.x + 3 * self.bend1.x,
            2 * self.start.y + self.end.y + 3 * self.bend1.y,
        )
    }

    /// Three times the second inner control point: two thirds of the way from
    /// `start` to `end`, displaced by the second bend.
    pub open spec fn control2_x3(&self) -> (int, int) {
        (
            self.start.x + 2 * self.end.x + 3 * self.bend2.x,
            self.start.y + 2 * self.end.y + 3 * self.bend2.y,
        )
    }

    /// The point of the path at parameter `n / d`.
    pub open spec fn position_at(&self, n: int, d: int) -> IVec2 {
        IVec2 {
            x: bezier_axis(
                self.start.x as int,
                self.control1_x3().0,
                self.control2_x3().0,
                self.end.x as int,
                n,
                d,
            ) as i32,
            y: bezier_axis(
                self.start.y as int,
                self.control1_x3().1,
                self.control2_x3().1,
                self.end.y as int,
                n,
                d,
            ) as i32,
        }
    }

    /// The tangent of the path, per unit of the parameter, at `n / d`.
    pub open spec fn velocity_at(&self, n: int, d: int) -> Tangent {
        Tangent {
            x: tangent_axis(
                self.start.x as int,
                self.control1_x3().0,
                self.control2_x3().0,
                self.end.x as int,
                n,
                d,
            ) as i64,
            y: tangent_axis(
                self.start.y as int,
                self.control1_x3().1,
                self.control2_x3().1,
                self.end.y as int,
                n,
                d,
            ) as i64,
        }
    }

    /// Builds the path from `start` to `end` shaped by two signed offsets.
    pub fn new(start: IVec2, end: IVec2, offset1: i32, offset2: i32) -> (c: Curve)
        ensures
            c == Curve::generated(start, end, offset1, offset2),
            c.wf(),
    {
        let dx: i64 = end.x as i64 - start.x as i64;
        let dy: i64 = end.y as i64 - start.y as i64;
        proof {
            lemma_product_bound(dx as int, dx as int, 4_294_967_295, 4_294_967_295);
            lemma_product_bound(dy as int, dy as int, 4_294_967_295, 4_294_967_295);
            assert(dx * dx >= 0) by (nonlinear_arith);
            assert(dy * dy >= 0) by (nonlinear_arith);
            assert((-dy) * (-dy) == dy * dy) by (nonlinear_arith);
        }
        let s: u128 = (dx as i128 * dx as i128 + dy as i128 * dy as i128) as u128;
        let bend1 = Bend { x: sideways(-dy, offset1, s), y: sideways(dx, offset1, s) };
        let bend2 = Bend { x: sideways(-dy, offset2, s), y: sideways(dx, offset2, s) };
        Curve { start, end, bend1, bend2 }
    }

    /// Samples the point of the path at parameter `n / d`.
    pub fn position(&self, n: u64, d: u64) -> (p: IVec2)
        requires
            self.wf(),
            0 < d <= PARAMETER_LIMIT,
            n <= PARAMETER_LIMIT,
        ensures
            p == self.position_at(n as int, d as int),
    {
        let c1x: i64 = 2 * (self.start.x as i64) + self.end.x as i64 + 3 * self.bend1.x;
        let c1y: i64 = 2 * (self.start.y as i64) + self.end.y as i64 + 3 * self.bend1.y;
        let c2x: i64 = self.start.x as i64 + 2 * (self.end.x as i64) + 3 * self.bend2.x;
        let c2y: i64 = self.start.y as i64 + 2 * (self.end.y as i64) + 3 * self.bend2.y;
        IVec2 {
            x: eval_bezier_axis(self.start.x, c1x, c2x, self.end.x, n, d),
            y: eval_bezier_axis(self.start.y, c1y, c2y, self.end.y, n, d),
        }
    }

    /// Samples the tangent of the path at parameter `n / d`.
    pub fn velocity(&self, n: u64, d: u64) -> (v: Tangent)
        requires
            self.wf(),
            0 < d <= PARAMETER_LIMIT,
            n <= PARAMETER_LIMIT,
        ensures
            v == self.velocity_at(n as int, d as int),
    {
        let c1x: i64 = 2 * (self.start.x as i64) + self.end.x as i64 + 3 * self.bend1.x;
        let c1y: i64 = 2 * (self.start.y as i64) + self.end.y as i64 + 3 * self.bend1.y;
        let c2x: i64 = self.start.x as i64 + 2 * (self.end.x as i64) + 3 * self.bend2.x;
        let c2y: i64 = self.start.y as i64 + 2 * (self.end.y as i64) + 3 * self.bend2.y;
        Tangent {
            x: eval_tangent_axis(self.start.x, c1x, c2x, self.end.x, n, d),
            y: eval_tangent_axis(self.start.y, c1y, c2y, self.end.y, n, d),
        }
    }
}


proof fn lemma_over_root_bounded(v: int, offset: int, s: int)
    requires
        v * v <= s,
    ensures
        offset >= 0 ==> -offset <= over_root(v * offset, s) <= offset,
        offset <= 0 ==> offset <= over_root(v * offset, s) <= -offset,
{
    if s > 0 {
        let a = v * offset;
        let reach: nat = if offset >= 0 {
            offset as nat
        } else {
            (-offset) as nat
        };
        assert(reach * reach == offset * offset) by (nonlinear_arith)
            requires
                reach == offset || reach == -offset,
        ;
        assert(a * a <= s * (reach * reach) && a * a >= 0) by (nonlinear_arith)
            requires
                a == v * offset,
                v * v <= s,
                reach * reach == offset * offset,
        ;
        lemma_div_is_ordered(a * a, s * (reach * reach), s);
        lemma_div_multiples_vanish((reach * reach) as int, s);
        lemma_div_is_ordered(0, a * a, s);
        lemma_int_sqrt_bounded(((a * a) / s) as nat, reach);
    }
}

/// What `over_root` returns is the quotient of `a` by the square root of
/// `s` with its fraction cut off: it has the sign of `a`, and its square
/// times `s` is the largest such product that does not exceed `a * a`.
pub proof fn lemma_over_root_brackets(a: int, s: int)
    requires
        s > 0,
    ensures
        ({
            let m = over_root(a, s);
            &&& a >= 0 ==> m >= 0
            &&& a <= 0 ==> m <= 0
            &&& m * m * s <= a * a
            &&& a >= 0 ==> a * a < (m + 1) * (m + 1) * s
            &&& a <= 0 ==> a * a < (m - 1) * (m - 1) * s
        }),
{
    let square = a * a;
    assert(square >= 0) by (nonlinear_arith)
        requires
            square == a * a,
    ;
    let q = square / s;
    let rest = square % s;
    lemma_fundamental_div_mod(square, s);
    lemma_div_is_ordered(0, square, s);
    crate::numeric::lemma_int_sqrt_exists(q as nat);
    let r = int_sqrt(q as nat) as int;
    assert(r * r * s <= square) by (nonlinear_arith)
        requires
            r * r <= q,
            square == s * q + rest,
            0 <= rest,
            s > 0,
    ;
    assert(square < (r + 1) * (r + 1) * s) by (nonlinear_arith)
        requires
            q + 1 <= (r + 1) * (r + 1),
            square == s * q + rest,
            rest < s,
            s > 0,
    ;
    let m = over_root(a, s);
    if a < 0 {
        assert(m == -r);
        assert(m * m == r * r && (m - 1) * (m - 1) == (r + 1) * (r + 1)) by (nonlinear_arith)
            requires
                m == -r,
        ;
    } else {
        assert(m == r);
        if a == 0 {
            assert(square == 0);
            assert(r * r * s >= 0) by (nonlinear_arith)
                requires
                    s > 0,
            ;
            assert(r == 0) by (nonlinear_arith)
                requires
                    r * r * s <= 0,
                    s > 0,
                    r >= 0,
            ;
            assert((m - 1) * (m - 1) * s == s) by (nonlinear_arith)
                requires
                    m == 0,
            ;
        }
    }
}

/// Negating an offset mirrors the sideways displacement exactly, since it
/// is rounded toward zero.
pub proof fn lemma_negated_offset_mirrors_bend(start: IVec2, end: IVec2, offset: i32)
    requires
        offset > i32::MIN,
    ensures
        Curve::bend_for(start, end, (-offset) as i32).x == -Curve::bend_for(start, end, offset).x,
        Curve::bend_for(start, end, (-offset) as i32).y == -Curve::bend_for(start, end, offset).y,
{
    let dx = end.x - start.x;
    let dy = end.y - start.y;
    let s = dx * dx + dy * dy;
    let mirrored = (-offset) as i32;
    lemma_bend_bounded(start, end, offset);
    lemma_bend_bounded(start, end, mirrored);
    assert(-dy * mirrored == -(-dy * offset) && dx * mirrored == -(dx * offset)) by (nonlinear_arith)
        requires
            mirrored == -offset,
    ;
    lemma_over_root_odd(-dy * offset, s);
    lemma_over_root_odd(dx * offset, s);
}

proof fn lemma_over_root_odd(a: int, s: int)
    ensures
        over_root(-a, s) == -over_root(a, s),
{
    assert((-a) * (-a) == a * a) by (nonlinear_arith);
    if s > 0 && a == 0 {
        vstd::arithmetic::div_mod::lemma_div_basics(s);
        assert(0nat * 0nat == 0 && (0nat + 1) * (0nat + 1) == 1) by (nonlinear_arith);
        lemma_int_sqrt_unique(0, 0);
    }
}

/// The sideways displacement is never longer, in either coordinate, than
/// the offset that it was made from.
pub proof fn lemma_bend_bounded(start: IVec2, end: IVec2, offset: i32)
    ensures
        ({
            let bend = Curve::bend_for(start, end, offset);
            let dx = end.x - start.x;
            let dy = end.y - start.y;
            let s = dx * dx + dy * dy;
            &&& bend.x == over_root(-dy * offset, s)
            &&& bend.y == over_root(dx * offset, s)
            &&& -BEND_LIMIT <= bend.x <= BEND_LIMIT
            &&& -BEND_LIMIT <= bend.y <= BEND_LIMIT
            &&& offset >= 0 ==> -offset <= bend.x <= offset && -offset <= bend.y <= offset
            &&& offset <= 0 ==> offset <= bend.x <= -offset && offset <= bend.y <= -offset
        }),
{
    let dx = end.x - start.x;
    let dy = end.y - start.y;
    let s = dx * dx + dy * dy;
    assert(dx * dx >= 0 && dy * dy >= 0 && (-dy) * (-dy) == dy * dy) by (nonlinear_arith);
    lemma_over_root_bounded(-dy, offset as int, s);
    lemma_over_root_bounded(dx, offset as int, s);
}

proof fn lemma_axis_at_ends(head: int, inner1: int, inner2: int, tail: int, d: int)
    requires
        d > 0,
        i32::MIN <= head <= i32::MAX,
        i32::MIN <= tail <= i32::MAX,
    ensures
        bezier_axis(head, inner1, inner2, tail, 0, d) == head,
        bezier_axis(head, inner1, inner2, tail, d, d) == tail,
{
    let cube = d * d * d;
    assert(cube > 0) by (nonlinear_arith)
        requires
            cube == d * d * d,
            d > 0,
    ;
    assert(bezier_numerator(head, inner1, inner2, tail, 0, d) == cube * head) by (nonlinear_arith)
        requires
            cube == d * d * d,
    ;
    assert(bezier_numerator(head, inner1, inner2, tail, d, d) == cube * tail) by (nonlinear_arith)
        requires
            cube == d * d * d,
    ;
    lemma_div_multiples_vanish(head, cube);
    lemma_div_multiples_vanish(tail, cube);
}

/// A path passes through its first point at parameter zero and through its
/// last point at parameter one, whatever its offsets are.
pub proof fn lemma_curve_endpoints(c: Curve, d: int)
    requires
        d > 0,
    ensures
        c.position_at(0, d) == c.start,
        c.position_at(d, d) == c.end,
{
    lemma_axis_at_ends(
        c.start.x as int,
        c.control1_x3().0,
        c.control2_x3().0,
        c.end.x as int,
        d,
    );
    lemma_axis_at_ends(
        c.start.y as int,
        c.control1_x3().1,
        c.control2_x3().1,
        c.end.y as int,
        d,
    );
}

proof fn lemma_unbent_numerator(head: int, tail: int, u: int, n: int)
    ensures
        bezier_numerator(head, 2 * head + tail, head + 2 * tail, tail, n, u + n) == (u + n) * (u + n) * (u * head
            + n * tail),
{
    let uu = u * u;
    let un = u * n;
    let nn = n * n;
    let dd = (u + n) * (u + n);
    assert(dd == uu + 2 * un + nn) by (nonlinear_arith)
        requires
            dd == (u + n) * (u + n),
            uu == u * u,
            un == u * n,
            nn == n * n,
    ;
    assert(uu * n == un * u) by (nonlinear_arith)
        requires
            uu == u * u,
            un == u * n,
    ;
    assert(u * n * n == un * n);
    assert(u * nn == un * n) by (nonlinear_arith)
        requires
            nn == n * n,
            un == u * n,
    ;
    let a = uu * u;
    let b = un * u;
    let c = un * n;
    let e = nn * n;
    let x = u * head;
    let y = n * tail;
    assert(uu * x == a * head) by (nonlinear_arith)
        requires
            x == u * head,
            a == uu * u,
    ;
    assert(un * x == b * head) by (nonlinear_arith)
        requires
            x == u * head,
            b == un * u,
    ;
    assert(nn * x == c * head) by (nonlinear_arith)
        requires
            x == u * head,
            c == u * nn,
    ;
    assert(uu * y == b * tail) by (nonlinear_arith)
        requires
            y == n * tail,
            b == uu * n,
    ;
    assert(un * y == c * tail) by (nonlinear_arith)
        requires
            y == n * tail,
            c == un * n,
    ;
    assert(nn * y == e * tail) by (nonlinear_arith)
        requires
            y == n * tail,
            e == nn * n,
    ;
    assert(dd * (x + y) == uu * x + 2 * (un * x) + nn * x + uu * y + 2 * (un * y) + nn * y)
        by (nonlinear_arith)
        requires
            dd == uu + 2 * un + nn,
    ;
    assert((a + 2 * b + c) * head == a * head + 2 * (b * head) + c * head) by (nonlinear_arith);
    assert((b + 2 * c + e) * tail == b * tail + 2 * (c * tail) + e * tail) by (nonlinear_arith);
    assert(dd * (u * head + n * tail) == (a + 2 * b + c) * head + (b + 2 * c + e) * tail);
    assert(a * head + b * (2 * head + tail) + c * (head + 2 * tail) + e * tail == (a + 2 * b + c) * head + (b
        + 2 * c + e) * tail) by (nonlinear_arith);
    assert(u + n - n == u);
}

proof fn lemma_straight_axis(head: int, tail: int, n: int, d: int)
    requires
        d > 0,
        0 <= n <= d,
        i32::MIN <= head <= i32::MAX,
        i32::MIN <= tail <= i32::MAX,
    ensures
        bezier_axis(head, 2 * head + tail, head + 2 * tail, tail, n, d) == head + (n * (tail - head)) / d,
        head <= tail ==> head <= head + (n * (tail - head)) / d <= tail,
        tail <= head ==> tail <= head + (n * (tail - head)) / d <= head,
{
    let cube = d * d * d;
    let delta = tail - head;
    let w = n * delta;
    let q = w / d;
    let r = w % d;
    lemma_fundamental_div_mod(w, d);
    assert(cube > 0) by (nonlinear_arith)
        requires
            cube == d * d * d,
            d > 0,
    ;
    let numerator = bezier_numerator(head, 2 * head + tail, head + 2 * tail, tail, n, d);
    lemma_unbent_numerator(head, tail, d - n, n);
    assert(numerator == d * d * (d * head + w)) by (nonlinear_arith)
        requires
            numerator == d * d * ((d - n) * head + n * tail),
            w == n * (tail - head),
    ;
    assert(numerator == cube * (head + q) + d * d * r) by (nonlinear_arith)
        requires
            numerator == d * d * (d * head + w),
            w == d * q + r,
            cube == d * d * d,
    ;
    assert(0 <= d * d * r < cube) by (nonlinear_arith)
        requires
            0 <= r < d,
            d > 0,
            cube == d * d * d,
    ;
    lemma_fundamental_div_mod_converse(numerator, cube, head + q, d * d * r);
    if delta >= 0 {
        assert(0 <= w <= d * delta) by (nonlinear_arith)
            requires
                w == n * delta,
                0 <= n <= d,
                delta >= 0,
        ;
        lemma_div_is_ordered(0, w, d);
        lemma_div_is_ordered(w, d * delta, d);
        lemma_div_multiples_vanish(delta, d);
    } else {
        assert(d * delta <= w <= 0) by (nonlinear_arith)
            requires
                w == n * delta,
                0 <= n <= d,
                delta < 0,
        ;
        lemma_div_is_ordered(d * delta, w, d);
        lemma_div_is_ordered(w, 0, d);
        lemma_div_multiples_vanish(delta, d);
    }
}

proof fn lemma_axis_within_box(
    head: int,
    inner1: int,
    inner2: int,
    tail: int,
    n: int,
    d: int,
    low: int,
    high: int,
)
    requires
        d > 0,
        0 <= n <= d,
        low <= head <= high,
        low <= tail <= high,
        3 * low <= inner1 <= 3 * high,
        3 * low <= inner2 <= 3 * high,
    ensures
        low <= bezier_numerator(head, inner1, inner2, tail, n, d) / (d * d * d) <= high,
{
    let u = d - n;
    let a = u * u * u;
    let b = u * u * n;
    let c = u * n * n;
    let e = n * n * n;
    let cube = d * d * d;
    assert(a >= 0 && b >= 0 && c >= 0 && e >= 0) by (nonlinear_arith)
        requires
            u >= 0,
            n >= 0,
            a == u * u * u,
            b == u * u * n,
            c == u * n * n,
            e == n * n * n,
    ;
    assert(cube > 0) by (nonlinear_arith)
        requires
            cube == d * d * d,
            d > 0,
    ;
    assert(a + 3 * b + 3 * c + e == cube) by {
        let uu = u * u;
        let un = u * n;
        let nn = n * n;
        let dd = d * d;
        assert(dd == uu + 2 * un + nn) by (nonlinear_arith)
            requires
                d == u + n,
                dd == d * d,
                uu == u * u,
                un == u * n,
                nn == n * n,
        ;
        assert(cube == dd * u + dd * n) by (nonlinear_arith)
            requires
                cube == d * d * d,
                dd == d * d,
                d == u + n,
        ;
        assert(dd * u == uu * u + 2 * (un * u) + nn * u) by (nonlinear_arith)
            requires
                dd == uu + 2 * un + nn,
        ;
        assert(dd * n == uu * n + 2 * (un * n) + nn * n) by (nonlinear_arith)
            requires
                dd == uu + 2 * un + nn,
        ;
        assert(un * u == uu * n && nn * u == un * n) by (nonlinear_arith)
            requires
                uu == u * u,
                un == u * n,
                nn == n * n,
        ;
        assert(un * n == u * n * n);
    }
    let numerator = bezier_numerator(head, inner1, inner2, tail, n, d);
    assert(numerator == a * head + b * inner1 + c * inner2 + e * tail);
    assert(a * low <= a * head <= a * high) by (nonlinear_arith)
        requires
            a >= 0,
            low <= head <= high,
    ;
    assert(b * (3 * low) <= b * inner1 <= b * (3 * high)) by (nonlinear_arith)
        requires
            b >= 0,
            3 * low <= inner1 <= 3 * high,
    ;
    assert(c * (3 * low) <= c * inner2 <= c * (3 * high)) by (nonlinear_arith)
        requires
            c >= 0,
            3 * low <= inner2 <= 3 * high,
    ;
    assert(e * low <= e * tail <= e * high) by (nonlinear_arith)
        requires
            e >= 0,
            low <= tail <= high,
    ;
    assert(a * low + b * (3 * low) + c * (3 * low) + e * low == cube * low) by (nonlinear_arith)
        requires
            a + 3 * b + 3 * c + e == cube,
    ;
    assert(a * high + b * (3 * high) + c * (3 * high) + e * high == cube * high)
        by (nonlinear_arith)
        requires
            a + 3 * b + 3 * c + e == cube,
    ;
    lemma_div_is_ordered(cube * low, numerator, cube);
    lemma_div_is_ordered(numerator, cube * high, cube);
    lemma_div_multiples_vanish(low, cube);
    lemma_div_multiples_vanish(high, cube);
}

/// Between its ends the path stays inside every box that holds its four
/// control points: no point of it lies further out than the control points
/// do. In particular no coordinate saturates there as long as the control
/// points are within the range of coordinates.
pub proof fn lemma_path_within_control_box(c: Curve, n: int, d: int, low: IVec2, high: IVec2)
    requires
        d > 0,
        0 <= n <= d,
        low.x <= c.start.x <= high.x,
        low.y <= c.start.y <= high.y,
        low.x <= c.end.x <= high.x,
        low.y <= c.end.y <= high.y,
        3 * low.x <= c.control1_x3().0 <= 3 * high.x,
        3 * low.y <= c.control1_x3().1 <= 3 * high.y,
        3 * low.x <= c.control2_x3().0 <= 3 * high.x,
        3 * low.y <= c.control2_x3().1 <= 3 * high.y,
    ensures
        low.x <= c.position_at(n, d).x <= high.x,
        low.y <= c.position_at(n, d).y <= high.y,
{
    lemma_axis_within_box(
        c.start.x as int,
        c.control1_x3().0,
        c.control2_x3().0,
        c.end.x as int,
        n,
        d,
        low.x as int,
        high.x as int,
    );
    lemma_axis_within_box(
        c.start.y as int,
        c.control1_x3().1,
        c.control2_x3().1,
        c.end.y as int,
        n,
        d,
        low.y as int,
        high.y as int,
    );
}

proof fn lemma_unbent_tangent(head: int, tail: int, u: int, n: int)
    ensures
        tangent_numerator(head, 2 * head + tail, head + 2 * tail, tail, n, u + n) == (u + n) * (u
            + n) * (tail - head),
{
    let delta = tail - head;
    let uu = u * u;
    let un = u * n;
    let nn = n * n;
    let dd = (u + n) * (u + n);
    assert(dd == uu + 2 * un + nn) by (nonlinear_arith)
        requires
            dd == (u + n) * (u + n),
            uu == u * u,
            un == u * n,
            nn == n * n,
    ;
    assert(dd * delta == uu * delta + 2 * (un * delta) + nn * delta) by (nonlinear_arith)
        requires
            dd == uu + 2 * un + nn,
    ;
    assert(2 * u * n * delta == 2 * (un * delta)) by (nonlinear_arith)
        requires
            un == u * n,
    ;
    assert(u + n - n == u);
}

proof fn lemma_straight_tangent_axis(head: int, tail: int, n: int, d: int)
    requires
        d > 0,
    ensures
        tangent_axis(head, 2 * head + tail, head + 2 * tail, tail, n, d) == clamp_i64(tail - head),
{
    lemma_unbent_tangent(head, tail, d - n, n);
    let square = d * d;
    assert(square > 0) by (nonlinear_arith)
        requires
            square == d * d,
            d > 0,
    ;
    lemma_div_multiples_vanish(tail - head, square);
}

/// With both offsets zero the tangent is the same all along the path, and
/// beyond its ends: the displacement from `start` to `end`.
pub proof fn lemma_straight_heading(start: IVec2, end: IVec2, n: int, d: int)
    requires
        d > 0,
    ensures
        Curve::generated(start, end, 0, 0).velocity_at(n, d).x == end.x - start.x,
        Curve::generated(start, end, 0, 0).velocity_at(n, d).y == end.y - start.y,
{
    lemma_straight_without_offsets(start, end, 0, d);
    lemma_straight_tangent_axis(start.x as int, end.x as int, n, d);
    lemma_straight_tangent_axis(start.y as int, end.y as int, n, d);
}

/// With both offsets zero the path is the straight segment: each inner
/// control point lies on the segment, a third and two thirds of the way
/// along it, and the point at `n / d` is the linear blend of the two ends,
/// rounded down.
pub proof fn lemma_straight_without_offsets(start: IVec2, end: IVec2, n: int, d: int)
    requires
        d > 0,
        0 <= n <= d,
    ensures
        ({
            let c = Curve::generated(start, end, 0, 0);
            &&& c.bend1 == Bend { x: 0, y: 0 }
            &&& c.bend2 == Bend { x: 0, y: 0 }
            &&& c.control1_x3().0 - 3 * start.x == end.x - start.x
            &&& c.control1_x3().1 - 3 * start.y == end.y - start.y
            &&& c.control2_x3().0 - 3 * start.x == 2 * (end.x - start.x)
            &&& c.control2_x3().1 - 3 * start.y == 2 * (end.y - start.y)
            &&& c.position_at(n, d).x == start.x + (n * (end.x - start.x)) / d
            &&& c.position_at(n, d).y == start.y + (n * (end.y - start.y)) / d
        }),
{
    let dx = end.x - start.x;
    let dy = end.y - start.y;
    let s = dx * dx + dy * dy;
    if s > 0 {
        vstd::arithmetic::div_mod::lemma_div_basics(s);
        assert(0nat * 0nat == 0 && (0nat + 1) * (0nat + 1) == 1) by (nonlinear_arith);
        lemma_int_sqrt_unique(0, 0);
    }
    assert(-dy * 0 == 0 && dx * 0 == 0);
    assert(over_root(0, s) == 0);
    lemma_straight_axis(start.x as int, end.x as int, n, d);
    lemma_straight_axis(start.y as int, end.y as int, n, d);
}

} // verus!
