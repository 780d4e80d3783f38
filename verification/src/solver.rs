use vstd::prelude::*;

use crate::locator::Position;

verus! {

/// Solver coordinates must lie within this bound (every pixel coordinate
/// does), so that the exact arithmetic below stays inside an `i128`.
pub const COORD_LIMIT: i64 = 0x1_0000_0000;

/// Bound on the linear entries and the denominator of a solved map:
/// 8 * COORD_LIMIT^2.
pub const SOLVED_LINEAR_BOUND: i128 = 0x8_0000_0000_0000_0000;

/// Bound on the translation entries of a solved map: 24 * COORD_LIMIT^3.
pub const SOLVED_TRANSLATION_BOUND: i128 = 0x18000000000000000000000000;

/// Entry bound under which two maps can be composed without overflow.
pub const COMPOSE_ENTRY_LIMIT: i128 = 0x2000_0000_0000_0000;

/// A 2D point with exact integer coordinates.
#[derive(Clone, Copy, PartialEq, Eq, Structural, Debug)]
pub struct Point {
    pub x: i64,
    pub y: i64,
}

impl Point {
    pub open spec fn in_range(self) -> bool {
        &&& -(COORD_LIMIT as int) <= self.x <= COORD_LIMIT as int
        &&& -(COORD_LIMIT as int) <= self.y <= COORD_LIMIT as int
    }
}

/// An ordered triple of 2D points. Vertex `i` of a source triangle
/// corresponds to vertex `i` of a destination triangle.
#[derive(Clone, Copy, PartialEq, Eq, Structural, Debug)]
pub struct Triangle {
    pub v0: Point,
    pub v1: Point,
    pub v2: Point,
}

impl Triangle {
    /// Twice the signed area: the cross product of the two edges leaving
    /// vertex 0.
    pub open spec fn det(self) -> int {
        (self.v1.x - self.v0.x) * (self.v2.y - self.v0.y) - (self.v1.y - self.v0.y) * (self.v2.x
            - self.v0.x)
    }

    /// Degenerate: the three vertices are collinear, which includes every
    /// triangle with two coincident vertices. Exactly these triangles admit
    /// no (or no unique) affine correspondence.
    pub open spec fn is_degenerate_spec(self) -> bool {
        self.det() == 0
    }

    pub open spec fn in_range(self) -> bool {
        self.v0.in_range() && self.v1.in_range() && self.v2.in_range()
    }
}

/// Why a transform could not be solved: the named triangle is degenerate.
#[derive(Clone, Copy, PartialEq, Eq, Structural, Debug)]
pub enum SolveError {
    DegenerateInput,
    DegenerateOutput,
}

/// The mathematical value of an affine map: it carries the homogeneous
/// point (x, y, 1) to ((a*x + b*y + tx) / den, (c*x + d*y + ty) / den, 1).
pub struct AffineModel {
    pub a: int,
    pub b: int,
    pub tx: int,
    pub c: int,
    pub d: int,
    pub ty: int,
    pub den: int,
}

impl AffineModel {
    /// The map carries `p` exactly onto `q`.
    pub open spec fn maps(self, p: Point, q: Point) -> bool {
        &&& self.a * p.x + self.b * p.y + self.tx == self.den * q.x
        &&& self.c * p.x + self.d * p.y + self.ty == self.den * q.y
    }

    /// The map carries each vertex of `s` exactly onto the matching vertex
    /// of `d`.
    pub open spec fn maps_triangle(self, s: Triangle, d: Triangle) -> bool {
        self.maps(s.v0, d.v0) && self.maps(s.v1, d.v1) && self.maps(s.v2, d.v2)
    }

    /// The identity map: the linear part is `den` times the unit matrix and
    /// the translation is zero.
    pub open spec fn is_identity(self) -> bool {
        &&& self.a == self.den
        &&& self.b == 0
        &&& self.c == 0
        &&& self.d == self.den
        &&& self.tx == 0
        &&& self.ty == 0
        &&& self.den != 0
    }
}

/// The composition `after ∘ first`: first apply `first`, then `after`.
pub open spec fn compose_model(after: AffineModel, first: AffineModel) -> AffineModel {
    AffineModel {
        a: after.a * first.a + after.b * first.c,
        b: after.a * first.b + after.b * first.d,
        tx: after.a * first.tx + after.b * first.ty + after.tx * first.den,
        c: after.c * first.a + after.d * first.c,
        d: after.c * first.b + after.d * first.d,
        ty: after.c * first.tx + after.d * first.ty + after.ty * first.den,
        den: after.den * first.den,
    }
}

/// The solved map carrying `input` onto `output`: Cramer's rule over the
/// edges leaving vertex 0, with the input determinant as the common
/// denominator.
pub open spec fn solve_spec(input: Triangle, output: Triangle) -> AffineModel {
    let u1x = input.v1.x - input.v0.x;
    let u1y = input.v1.y - input.v0.y;
    let u2x = input.v2.x - input.v0.x;
    let u2y = input.v2.y - input.v0.y;
    let v1x = output.v1.x - output.v0.x;
    let v1y = output.v1.y - output.v0.y;
    let v2x = output.v2.x - output.v0.x;
    let v2y = output.v2.y - output.v0.y;
    let det = u1x * u2y - u1y * u2x;
    let a = v1x * u2y - v2x * u1y;
    let b = v2x * u1x - v1x * u2x;
    let c = v1y * u2y - v2y * u1y;
    let d = v2y * u1x - v1y * u2x;
    AffineModel {
        a: a,
        b: b,
        tx: output.v0.x * det - (a * input.v0.x + b * input.v0.y),
        c: c,
        d: d,
        ty: output.v0.y * det - (c * input.v0.x + d * input.v0.y),
        den: det,
    }
}

/// The exact integer representation of a solved affine map.
#[derive(Clone, Copy, PartialEq, Eq, Structural, Debug)]
pub struct AffineMap {
    pub a: i128,
    pub b: i128,
    pub tx: i128,
    pub c: i128,
    pub d: i128,
    pub ty: i128,
    pub den: i128,
}

impl View for AffineMap {
    type V = AffineModel;

    open spec fn view(&self) -> AffineModel {
        AffineModel {
            a: self.a as int,
            b: self.b as int,
            tx: self.tx as int,
            c: self.c as int,
            d: self.d as int,
            ty: self.ty as int,
            den: self.den as int,
        }
    }
}

impl AffineMap {
    /// Entry bounds holding of every solved map; they rule out overflow when
    /// the map is applied to an in-range point.
    pub open spec fn solved_bounds(self) -> bool {
        &&& -SOLVED_LINEAR_BOUND <= self.a <= SOLVED_LINEAR_BOUND
        &&& -SOLVED_LINEAR_BOUND <= self.b <= SOLVED_LINEAR_BOUND
        &&& -SOLVED_LINEAR_BOUND <= self.c <= SOLVED_LINEAR_BOUND
        &&& -SOLVED_LINEAR_BOUND <= self.d <= SOLVED_LINEAR_BOUND
        &&& -SOLVED_LINEAR_BOUND <= self.den <= SOLVED_LINEAR_BOUND
        &&& -SOLVED_TRANSLATION_BOUND <= self.tx <= SOLVED_TRANSLATION_BOUND
        &&& -SOLVED_TRANSLATION_BOUND <= self.ty <= SOLVED_TRANSLATION_BOUND
    }

    /// Entries small enough that an exact composition cannot overflow.
    pub open spec fn compose_bounds(self) -> bool {
        &&& -COMPOSE_ENTRY_LIMIT <= self.a <= COMPOSE_ENTRY_LIMIT
        &&& -COMPOSE_ENTRY_LIMIT <= self.b <= COMPOSE_ENTRY_LIMIT
        &&& -COMPOSE_ENTRY_LIMIT <= self.c <= COMPOSE_ENTRY_LIMIT
        &&& -COMPOSE_ENTRY_LIMIT <= self.d <= COMPOSE_ENTRY_LIMIT
        &&& -COMPOSE_ENTRY_LIMIT <= self.tx <= COMPOSE_ENTRY_LIMIT
        &&& -COMPOSE_ENTRY_LIMIT <= self.ty <= COMPOSE_ENTRY_LIMIT
        &&& -COMPOSE_ENTRY_LIMIT <= self.den <= COMPOSE_ENTRY_LIMIT
    }
}

proof fn lemma_mul_bound(a: int, b: int, ka: int, kb: int)
    by (nonlinear_arith)
    requires
        -ka <= a <= ka,
        -kb <= b <= kb,
        0 <= ka,
        0 <= kb,
    ensures
        -(ka * kb) <= a * b <= ka * kb,
{
}

/// The core of Cramer's rule in two unknowns: the solved row coefficients
/// reproduce the first edge equation, scaled by the determinant.
proof fn lemma_cramer_edge1(u1x: int, u1y: int, u2x: int, u2y: int, w1: int, w2: int)
    ensures
        (w1 * u2y - w2 * u1y) * u1x + (w2 * u1x - w1 * u2x) * u1y == (u1x * u2y - u1y * u2x) * w1,
{
    broadcast use vstd::arithmetic::mul::group_mul_properties;

}

/// The core of Cramer's rule in two unknowns: the solved row coefficients
/// reproduce the second edge equation, scaled by the determinant.
proof fn lemma_cramer_edge2(u1x: int, u1y: int, u2x: int, u2y: int, w1: int, w2: int)
    ensures
        (w1 * u2y - w2 * u1y) * u2x + (w2 * u1x - w1 * u2x) * u2y == (u1x * u2y - u1y * u2x) * w2,
{
    broadcast use vstd::arithmetic::mul::group_mul_properties;

}

/// The core of Cramer's rule in two unknowns: the solved row coefficients
/// reproduce both edge equations, scaled by the determinant.
proof fn lemma_cramer_edges(
    u1x: int,
    u1y: int,
    u2x: int,
    u2y: int,
    w1: int,
    w2: int,
    a: int,
    b: int,
    det: int,
)
    requires
        det == u1x * u2y - u1y * u2x,
        a == w1 * u2y - w2 * u1y,
        b == w2 * u1x - w1 * u2x,
    ensures
        a * u1x + b * u1y == det * w1,
        a * u2x + b * u2y == det * w2,
{
    lemma_cramer_edge1(u1x, u1y, u2x, u2y, w1, w2);
    lemma_cramer_edge2(u1x, u1y, u2x, u2y, w1, w2);
}

/// One row of Cramer's rule: coefficients built from the input edges and a
/// row of output coordinates interpolate all three vertices exactly.
proof fn lemma_affine_row(
    s0x: int,
    s0y: int,
    s1x: int,
    s1y: int,
    s2x: int,
    s2y: int,
    q0: int,
    q1: int,
    q2: int,
    a: int,
    b: int,
    t: int,
    det: int,
)
    requires
        det == (s1x - s0x) * (s2y - s0y) - (s1y - s0y) * (s2x - s0x),
        a == (q1 - q0) * (s2y - s0y) - (q2 - q0) * (s1y - s0y),
        b == (q2 - q0) * (s1x - s0x) - (q1 - q0) * (s2x - s0x),
        t == q0 * det - (a * s0x + b * s0y),
    ensures
        a * s0x + b * s0y + t == det * q0,
        a * s1x + b * s1y + t == det * q1,
        a * s2x + b * s2y + t == det * q2,
{
    lemma_cramer_edges(
        s1x - s0x,
        s1y - s0y,
        s2x - s0x,
        s2y - s0y,
        q1 - q0,
        q2 - q0,
        a,
        b,
        det,
    );
    vstd::arithmetic::mul::lemma_mul_is_distributive_sub(a, s1x, s0x);
    vstd::arithmetic::mul::lemma_mul_is_distributive_sub(b, s1y, s0y);
    vstd::arithmetic::mul::lemma_mul_is_distributive_sub(a, s2x, s0x);
    vstd::arithmetic::mul::lemma_mul_is_distributive_sub(b, s2y, s0y);
    vstd::arithmetic::mul::lemma_mul_is_distributive_sub(det, q1, q0);
    vstd::arithmetic::mul::lemma_mul_is_distributive_sub(det, q2, q0);
    vstd::arithmetic::mul::lemma_mul_is_commutative(det, q0);
}

/// Exactness law: the solved map carries each input vertex exactly onto the
/// matching output vertex, and its denominator is the input determinant.
pub proof fn lemma_solve_spec_maps(input: Triangle, output: Triangle)
    ensures
        solve_spec(input, output).maps_triangle(input, output),
        solve_spec(input, output).den == input.det(),
{
    let m = solve_spec(input, output);
    lemma_affine_row(
        input.v0.x as int,
        input.v0.y as int,
        input.v1.x as int,
        input.v1.y as int,
        input.v2.x as int,
        input.v2.y as int,
        output.v0.x as int,
        output.v1.x as int,
        output.v2.x as int,
        m.a,
        m.b,
        m.tx,
        m.den,
    );
    lemma_affine_row(
        input.v0.x as int,
        input.v0.y as int,
        input.v1.x as int,
        input.v1.y as int,
        input.v2.x as int,
        input.v2.y as int,
        output.v0.y as int,
        output.v1.y as int,
        output.v2.y as int,
        m.c,
        m.d,
        m.ty,
        m.den,
    );
}

/// Identity law: solving a triangle onto itself yields the identity map.
pub proof fn lemma_solve_identity(t: Triangle)
    requires
        !t.is_degenerate_spec(),
    ensures
        solve_spec(t, t).is_identity(),
{
    let m = solve_spec(t, t);
    let u1x = t.v1.x - t.v0.x;
    let u1y = t.v1.y - t.v0.y;
    let u2x = t.v2.x - t.v0.x;
    let u2y = t.v2.y - t.v0.y;
    assert(m.a == m.den && m.b == 0 && m.c == 0 && m.d == m.den) by (nonlinear_arith)
        requires
            m.den == u1x * u2y - u1y * u2x,
            m.a == u1x * u2y - u2x * u1y,
            m.b == u2x * u1x - u1x * u2x,
            m.c == u1y * u2y - u2y * u1y,
            m.d == u2y * u1x - u1y * u2x,
    ;
    assert(m.tx == 0) by (nonlinear_arith)
        requires
            m.tx == t.v0.x * m.den - (m.a * t.v0.x + m.b * t.v0.y),
            m.a == m.den,
            m.b == 0,
    ;
    assert(m.ty == 0) by (nonlinear_arith)
        requires
            m.ty == t.v0.y * m.den - (m.c * t.v0.x + m.d * t.v0.y),
            m.d == m.den,
            m.c == 0,
    ;
}

/// Degeneracy law: a triangle with two coincident vertices is degenerate.
pub proof fn lemma_coincident_vertices_degenerate(t: Triangle)
    requires
        t.v0 == t.v1 || t.v0 == t.v2 || t.v1 == t.v2,
    ensures
        t.is_degenerate_spec(),
{
    assert(t.det() == 0) by (nonlinear_arith)
        requires
            t.v0 == t.v1 || t.v0 == t.v2 || t.v1 == t.v2,
            t.det() == (t.v1.x - t.v0.x) * (t.v2.y - t.v0.y) - (t.v1.y - t.v0.y) * (t.v2.x
                - t.v0.x),
    ;
}

/// One row of a composition: chaining the two row equations of the factors
/// yields the row equation of the product.
proof fn lemma_compose_row(
    a1: int,
    b1: int,
    t1: int,
    c1: int,
    d1: int,
    s1: int,
    den1: int,
    e2: int,
    f2: int,
    g2: int,
    den2: int,
    px: int,
    py: int,
    qx: int,
    qy: int,
    rx: int,
)
    requires
        a1 * px + b1 * py + t1 == den1 * qx,
        c1 * px + d1 * py + s1 == den1 * qy,
        e2 * qx + f2 * qy + g2 == den2 * rx,
    ensures
        (e2 * a1 + f2 * c1) * px + (e2 * b1 + f2 * d1) * py + (e2 * t1 + f2 * s1 + g2 * den1) == (
        den2 * den1) * rx,
{
    lemma_scale_row(e2, f2, g2, den1, den2, qx, qy, rx);
    assert(e2 * (a1 * px + b1 * py + t1) == e2 * (den1 * qx));
    assert(f2 * (c1 * px + d1 * py + s1) == f2 * (den1 * qy));
    lemma_collect_rows(a1, b1, t1, c1, d1, s1, e2, f2, px, py);
}

/// Scaling a satisfied row equation by a common factor.
proof fn lemma_scale_row(
    e2: int,
    f2: int,
    g2: int,
    den1: int,
    den2: int,
    qx: int,
    qy: int,
    rx: int,
)
    requires
        e2 * qx + f2 * qy + g2 == den2 * rx,
    ensures
        e2 * (den1 * qx) + f2 * (den1 * qy) + g2 * den1 == (den2 * den1) * rx,
{
    broadcast use vstd::arithmetic::mul::group_mul_properties;

}

/// Ring rearrangement: collecting the coefficients of a composed row.
proof fn lemma_collect_rows(
    a1: int,
    b1: int,
    t1: int,
    c1: int,
    d1: int,
    s1: int,
    e2: int,
    f2: int,
    px: int,
    py: int,
)
    ensures
        (e2 * a1 + f2 * c1) * px + (e2 * b1 + f2 * d1) * py + (e2 * t1 + f2 * s1) == e2 * (a1 * px
            + b1 * py + t1) + f2 * (c1 * px + d1 * py + s1),
{
    broadcast use vstd::arithmetic::mul::group_mul_properties;

}

/// Composition law, pointwise: if `first` carries `p` onto `q` and `after`
/// carries `q` onto `r`, their composition carries `p` onto `r`.
pub proof fn lemma_compose_model_maps(
    after: AffineModel,
    first: AffineModel,
    p: Point,
    q: Point,
    r: Point,
)
    requires
        first.maps(p, q),
        after.maps(q, r),
    ensures
        compose_model(after, first).maps(p, r),
{
    lemma_compose_row(
        first.a,
        first.b,
        first.tx,
        first.c,
        first.d,
        first.ty,
        first.den,
        after.a,
        after.b,
        after.tx,
        after.den,
        p.x as int,
        p.y as int,
        q.x as int,
        q.y as int,
        r.x as int,
    );
    lemma_compose_row(
        first.a,
        first.b,
        first.tx,
        first.c,
        first.d,
        first.ty,
        first.den,
        after.c,
        after.d,
        after.ty,
        after.den,
        p.x as int,
        p.y as int,
        q.x as int,
        q.y as int,
        r.y as int,
    );
}

/// Uniqueness law: an affine map that fixes every vertex of a non-degenerate
/// triangle is the identity.
pub proof fn lemma_fixing_triangle_is_identity(m: AffineModel, t: Triangle)
    requires
        !t.is_degenerate_spec(),
        m.den != 0,
        m.maps(t.v0, t.v0),
        m.maps(t.v1, t.v1),
        m.maps(t.v2, t.v2),
    ensures
        m.is_identity(),
{
    let u1x = t.v1.x - t.v0.x;
    let u1y = t.v1.y - t.v0.y;
    let u2x = t.v2.x - t.v0.x;
    let u2y = t.v2.y - t.v0.y;
    let det = t.det();
    assert((m.a - m.den) * u1x + m.b * u1y == 0) by (nonlinear_arith)
        requires
            m.a * t.v0.x + m.b * t.v0.y + m.tx == m.den * t.v0.x,
            m.a * t.v1.x + m.b * t.v1.y + m.tx == m.den * t.v1.x,
            u1x == t.v1.x - t.v0.x,
            u1y == t.v1.y - t.v0.y,
    ;
    assert((m.a - m.den) * u2x + m.b * u2y == 0) by (nonlinear_arith)
        requires
            m.a * t.v0.x + m.b * t.v0.y + m.tx == m.den * t.v0.x,
            m.a * t.v2.x + m.b * t.v2.y + m.tx == m.den * t.v2.x,
            u2x == t.v2.x - t.v0.x,
            u2y == t.v2.y - t.v0.y,
    ;
    assert(m.a == m.den && m.b == 0) by (nonlinear_arith)
        requires
            (m.a - m.den) * u1x + m.b * u1y == 0,
            (m.a - m.den) * u2x + m.b * u2y == 0,
            det == u1x * u2y - u1y * u2x,
            det != 0,
    ;
    assert(m.tx == 0) by (nonlinear_arith)
        requires
            m.a * t.v0.x + m.b * t.v0.y + m.tx == m.den * t.v0.x,
            m.a == m.den,
            m.b == 0,
    ;
    assert((m.d - m.den) * u1y + m.c * u1x == 0) by (nonlinear_arith)
        requires
            m.c * t.v0.x + m.d * t.v0.y + m.ty == m.den * t.v0.y,
            m.c * t.v1.x + m.d * t.v1.y + m.ty == m.den * t.v1.y,
            u1x == t.v1.x - t.v0.x,
            u1y == t.v1.y - t.v0.y,
    ;
    assert((m.d - m.den) * u2y + m.c * u2x == 0) by (nonlinear_arith)
        requires
            m.c * t.v0.x + m.d * t.v0.y + m.ty == m.den * t.v0.y,
            m.c * t.v2.x + m.d * t.v2.y + m.ty == m.den * t.v2.y,
            u2x == t.v2.x - t.v0.x,
            u2y == t.v2.y - t.v0.y,
    ;
    assert(m.d == m.den && m.c == 0) by (nonlinear_arith)
        requires
            (m.d - m.den) * u1y + m.c * u1x == 0,
            (m.d - m.den) * u2y + m.c * u2x == 0,
            det == u1x * u2y - u1y * u2x,
            det != 0,
    ;
    assert(m.ty == 0) by (nonlinear_arith)
        requires
            m.c * t.v0.x + m.d * t.v0.y + m.ty == m.den * t.v0.y,
            m.d == m.den,
            m.c == 0,
    ;
}

/// Composability law: solving input onto output and output back onto input
/// gives maps whose composition is the identity.
pub proof fn lemma_solve_composability(s: Triangle, d: Triangle)
    requires
        !s.is_degenerate_spec(),
        !d.is_degenerate_spec(),
    ensures
        compose_model(solve_spec(d, s), solve_spec(s, d)).is_identity(),
{
    let fwd = solve_spec(s, d);
    let back = solve_spec(d, s);
    let both = compose_model(back, fwd);
    lemma_solve_spec_maps(s, d);
    lemma_solve_spec_maps(d, s);
    lemma_compose_model_maps(back, fwd, s.v0, d.v0, s.v0);
    lemma_compose_model_maps(back, fwd, s.v1, d.v1, s.v1);
    lemma_compose_model_maps(back, fwd, s.v2, d.v2, s.v2);
    assert(both.den != 0) by (nonlinear_arith)
        requires
            both.den == back.den * fwd.den,
            back.den != 0,
            fwd.den != 0,
    ;
    lemma_fixing_triangle_is_identity(both, s);
}

/// Converts three marker positions into the triangle they span, in order.
pub fn make_triangle(a: &Position, b: &Position, c: &Position) -> (t: Triangle)
    ensures
        t.v0.x == a.x && t.v0.y == a.y,
        t.v1.x == b.x && t.v1.y == b.y,
        t.v2.x == c.x && t.v2.y == c.y,
        t.in_range(),
{
    Triangle {
        v0: Point { x: a.x as i64, y: a.y as i64 },
        v1: Point { x: b.x as i64, y: b.y as i64 },
        v2: Point { x: c.x as i64, y: c.y as i64 },
    }
}

/// The triangle of the first three ordered markers, or `None` when fewer
/// than three markers were found.
pub fn first_triangle(markers: &Vec<Position>) -> (r: Option<Triangle>)
    ensures
        r is Some <==> markers@.len() >= 3,
        r matches Some(t) ==> {
            &&& t.v0.x == markers@[0].x && t.v0.y == markers@[0].y
            &&& t.v1.x == markers@[1].x && t.v1.y == markers@[1].y
            &&& t.v2.x == markers@[2].x && t.v2.y == markers@[2].y
            &&& t.in_range()
        },
{
    if markers.len() >= 3 {
        Some(make_triangle(&markers[0], &markers[1], &markers[2]))
    } else {
        None
    }
}

/// Whether the triangle is degenerate: two coincident vertices or all three
/// vertices collinear.
pub fn is_degenerate(t: &Triangle) -> (r: bool)
    requires
        t.in_range(),
    ensures
        r == t.is_degenerate_spec(),
{
    let u1x = t.v1.x as i128 - t.v0.x as i128;
    let u1y = t.v1.y as i128 - t.v0.y as i128;
    let u2x = t.v2.x as i128 - t.v0.x as i128;
    let u2y = t.v2.y as i128 - t.v0.y as i128;
    proof {
        lemma_mul_bound(u1x as int, u2y as int, 2 * COORD_LIMIT as int, 2 * COORD_LIMIT as int);
        lemma_mul_bound(u1y as int, u2x as int, 2 * COORD_LIMIT as int, 2 * COORD_LIMIT as int);
    }
    u1x * u2y - u1y * u2x == 0
}

/// Solves for the affine transform that carries `input` exactly onto
/// `output`. Fails exactly when one of the triangles is degenerate, the
/// input triangle reported first.
pub fn get_transform(input: &Triangle, output: &Triangle) -> (r: Result<AffineMap, SolveError>)
    requires
        input.in_range(),
        output.in_range(),
    ensures
        r is Err <==> (input.is_degenerate_spec() || output.is_degenerate_spec()),
        r == Err::<AffineMap, SolveError>(SolveError::DegenerateInput)
            <==> input.is_degenerate_spec(),
        r == Err::<AffineMap, SolveError>(SolveError::DegenerateOutput) <==> (
        !input.is_degenerate_spec() && output.is_degenerate_spec()),
        r matches Ok(m) ==> {
            &&& m@ == solve_spec(*input, *output)
            &&& m@.maps_triangle(*input, *output)
            &&& m@.den == input.det()
            &&& m@.den != 0
            &&& m.solved_bounds()
        },
{
    let s0x = input.v0.x as i128;
    let s0y = input.v0.y as i128;
    let d0x = output.v0.x as i128;
    let d0y = output.v0.y as i128;
    let u1x = input.v1.x as i128 - s0x;
    let u1y = input.v1.y as i128 - s0y;
    let u2x = input.v2.x as i128 - s0x;
    let u2y = input.v2.y as i128 - s0y;
    let v1x = output.v1.x as i128 - d0x;
    let v1y = output.v1.y as i128 - d0y;
    let v2x = output.v2.x as i128 - d0x;
    let v2y = output.v2.y as i128 - d0y;
    let ghost edge = 2 * COORD_LIMIT as int;
    proof {
        lemma_mul_bound(u1x as int, u2y as int, edge, edge);
        lemma_mul_bound(u1y as int, u2x as int, edge, edge);
        lemma_mul_bound(v1x as int, v2y as int, edge, edge);
        lemma_mul_bound(v1y as int, v2x as int, edge, edge);
    }
    let det = u1x * u2y - u1y * u2x;
    if det == 0 {
        return Err(SolveError::DegenerateInput);
    }
    let out_det = v1x * v2y - v1y * v2x;
    if out_det == 0 {
        return Err(SolveError::DegenerateOutput);
    }
    proof {
        lemma_mul_bound(v1x as int, u2y as int, edge, edge);
        lemma_mul_bound(v2x as int, u1y as int, edge, edge);
        lemma_mul_bound(v2x as int, u1x as int, edge, edge);
        lemma_mul_bound(v1x as int, u2x as int, edge, edge);
        lemma_mul_bound(v1y as int, u2y as int, edge, edge);
        lemma_mul_bound(v2y as int, u1y as int, edge, edge);
        lemma_mul_bound(v2y as int, u1x as int, edge, edge);
        lemma_mul_bound(v1y as int, u2x as int, edge, edge);
    }
    let a = v1x * u2y - v2x * u1y;
    let b = v2x * u1x - v1x * u2x;
    let c = v1y * u2y - v2y * u1y;
    let d = v2y * u1x - v1y * u2x;
    proof {
        lemma_mul_bound(d0x as int, det as int, COORD_LIMIT as int, SOLVED_LINEAR_BOUND as int);
        lemma_mul_bound(d0y as int, det as int, COORD_LIMIT as int, SOLVED_LINEAR_BOUND as int);
        lemma_mul_bound(a as int, s0x as int, SOLVED_LINEAR_BOUND as int, COORD_LIMIT as int);
        lemma_mul_bound(b as int, s0y as int, SOLVED_LINEAR_BOUND as int, COORD_LIMIT as int);
        lemma_mul_bound(c as int, s0x as int, SOLVED_LINEAR_BOUND as int, COORD_LIMIT as int);
        lemma_mul_bound(d as int, s0y as int, SOLVED_LINEAR_BOUND as int, COORD_LIMIT as int);
    }
    let tx = d0x * det - (a * s0x + b * s0y);
    let ty = d0y * det - (c * s0x + d * s0y);
    let m = AffineMap { a, b, tx, c, d, ty, den: det };
    proof {
        lemma_solve_spec_maps(*input, *output);
    }
    Ok(m)
}

/// Applies the map to a point, exactly: returns the numerators of the image
/// coordinates over the map's denominator.
pub fn apply(m: &AffineMap, p: &Point) -> (r: (i128, i128))
    requires
        m.solved_bounds(),
        p.in_range(),
    ensures
        r.0 == m@.a * p.x + m@.b * p.y + m@.tx,
        r.1 == m@.c * p.x + m@.d * p.y + m@.ty,
{
    proof {
        lemma_mul_bound(m.a as int, p.x as int, SOLVED_LINEAR_BOUND as int, COORD_LIMIT as int);
        lemma_mul_bound(m.b as int, p.y as int, SOLVED_LINEAR_BOUND as int, COORD_LIMIT as int);
        lemma_mul_bound(m.c as int, p.x as int, SOLVED_LINEAR_BOUND as int, COORD_LIMIT as int);
        lemma_mul_bound(m.d as int, p.y as int, SOLVED_LINEAR_BOUND as int, COORD_LIMIT as int);
    }
    let x = m.a * p.x as i128 + m.b * p.y as i128 + m.tx;
    let y = m.c * p.x as i128 + m.d * p.y as i128 + m.ty;
    (x, y)
}

/// Composes two solved maps exactly: first apply `first`, then `after`.
pub fn compose(after: &AffineMap, first: &AffineMap) -> (r: AffineMap)
    requires
        after.compose_bounds(),
        first.compose_bounds(),
    ensures
        r@ == compose_model(after@, first@),
{
    let ghost k = COMPOSE_ENTRY_LIMIT as int;
    proof {
        lemma_mul_bound(after.a as int, first.a as int, k, k);
        lemma_mul_bound(after.b as int, first.c as int, k, k);
        lemma_mul_bound(after.a as int, first.b as int, k, k);
        lemma_mul_bound(after.b as int, first.d as int, k, k);
        lemma_mul_bound(after.a as int, first.tx as int, k, k);
        lemma_mul_bound(after.b as int, first.ty as int, k, k);
        lemma_mul_bound(after.tx as int, first.den as int, k, k);
        lemma_mul_bound(after.c as int, first.a as int, k, k);
        lemma_mul_bound(after.d as int, first.c as int, k, k);
        lemma_mul_bound(after.c as int, first.b as int, k, k);
        lemma_mul_bound(after.d as int, first.d as int, k, k);
        lemma_mul_bound(after.c as int, first.tx as int, k, k);
        lemma_mul_bound(after.d as int, first.ty as int, k, k);
        lemma_mul_bound(after.ty as int, first.den as int, k, k);
        lemma_mul_bound(after.den as int, first.den as int, k, k);
    }
    AffineMap {
        a: after.a * first.a + after.b * first.c,
        b: after.a * first.b + after.b * first.d,
        tx: after.a * first.tx + after.b * first.ty + after.tx * first.den,
        c: after.c * first.a + after.d * first.c,
        d: after.c * first.b + after.d * first.d,
        ty: after.c * first.tx + after.d * first.ty + after.ty * first.den,
        den: after.den * first.den,
    }
}

} // verus!
