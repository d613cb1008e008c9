use vstd::prelude::*;

verus! {

/// Largest coordinate magnitude the library computes with.  Positions and
/// velocities are kept well inside this bound so that every dot product and
/// reflection below fits in an `i64`.
pub const COORD_LIMIT: i64 = 1_000_000_000;

/// A 2D vector with integer components: a position in world units or a
/// velocity in units per second.
#[derive(Clone, Copy, PartialEq, Eq, Structural, Debug)]
pub struct Vec2 {
    pub x: i64,
    pub y: i64,
}

/// Dot product of two vectors, as unbounded integers.
pub open spec fn dot_spec(a: Vec2, b: Vec2) -> int {
    a.x * b.x + a.y * b.y
}

/// Squared Euclidean length of a vector.
pub open spec fn norm_sq_spec(v: Vec2) -> int {
    v.x * v.x + v.y * v.y
}

/// The four unit vectors along the coordinate axes: the only contact normals
/// an axis-aligned arena produces.
pub open spec fn is_axis_unit(n: Vec2) -> bool {
    ||| (n.x == 1 && n.y == 0)
    ||| (n.x == -1 && n.y == 0)
    ||| (n.x == 0 && n.y == 1)
    ||| (n.x == 0 && n.y == -1)
}

/// Both components within `COORD_LIMIT`.
pub open spec fn in_coord_range(v: Vec2) -> bool {
    &&& -COORD_LIMIT <= v.x <= COORD_LIMIT
    &&& -COORD_LIMIT <= v.y <= COORD_LIMIT
}

/// Reflection of `v` about the plane orthogonal to the unit normal `n`:
/// `v - 2 (v.n) n`, componentwise.
pub open spec fn reflect_x_spec(v: Vec2, n: Vec2) -> int {
    v.x - 2 * dot_spec(v, n) * n.x
}

/// See `reflect_x_spec`.
pub open spec fn reflect_y_spec(v: Vec2, n: Vec2) -> int {
    v.y - 2 * dot_spec(v, n) * n.y
}

impl Vec2 {
    pub fn new(x: i64, y: i64) -> (r: Vec2)
        ensures
            r.x == x,
            r.y == y,
    {
        Vec2 { x, y }
    }

    /// Dot product with another vector.
    pub fn dot(&self, other: &Vec2) -> (r: i64)
        requires
            in_coord_range(*self),
            in_coord_range(*other),
        ensures
            r == dot_spec(*self, *other),
    {
        proof {
            lemma_mul_bound(self.x as int, other.x as int, COORD_LIMIT as int);
            lemma_mul_bound(self.y as int, other.y as int, COORD_LIMIT as int);
        }
        self.x * other.x + self.y * other.y
    }

    /// Squared length of this vector.
    pub fn norm_sq(&self) -> (r: i64)
        requires
            in_coord_range(*self),
        ensures
            r == norm_sq_spec(*self),
            r >= 0,
    {
        proof {
            lemma_mul_bound(self.x as int, self.x as int, COORD_LIMIT as int);
            lemma_mul_bound(self.y as int, self.y as int, COORD_LIMIT as int);
            lemma_square_nonneg(self.x as int);
            lemma_square_nonneg(self.y as int);
        }
        self.x * self.x + self.y * self.y
    }

    /// Reflects this velocity about the surface with outward unit normal `n`:
    /// the component along `n` flips sign, the tangential component stays.
    /// The law of reflection: the normal component is exactly negated and the
    /// squared speed is preserved.
    pub fn reflect(&self, n: &Vec2) -> (r: Vec2)
        requires
            in_coord_range(*self),
            is_axis_unit(*n),
        ensures
            r.x == reflect_x_spec(*self, *n),
            r.y == reflect_y_spec(*self, *n),
            dot_spec(r, *n) == -dot_spec(*self, *n),
            norm_sq_spec(r) == norm_sq_spec(*self),
            in_coord_range(r),
    {
        let d = self.dot(n);
        proof {
            assert(-COORD_LIMIT <= d <= COORD_LIMIT) by (nonlinear_arith)
                requires
                    is_axis_unit(*n),
                    in_coord_range(*self),
                    d == dot_spec(*self, *n),
            ;
            assert(-2 * COORD_LIMIT <= 2 * d * n.x <= 2 * COORD_LIMIT
                && -2 * COORD_LIMIT <= 2 * d * n.y <= 2 * COORD_LIMIT) by (nonlinear_arith)
                requires
                    is_axis_unit(*n),
                    -COORD_LIMIT <= d <= COORD_LIMIT,
            ;
        }
        let r = Vec2 {
            x: self.x - 2 * d * n.x,
            y: self.y - 2 * d * n.y,
        };
        proof {
            lemma_reflect_preserves_norm(*self, *n);
            assert(dot_spec(r, *n) == -dot_spec(*self, *n)) by (nonlinear_arith)
                requires
                    is_axis_unit(*n),
                    r.x == reflect_x_spec(*self, *n),
                    r.y == reflect_y_spec(*self, *n),
            ;
            assert(in_coord_range(r)) by (nonlinear_arith)
                requires
                    is_axis_unit(*n),
                    in_coord_range(*self),
                    r.x == reflect_x_spec(*self, *n),
                    r.y == reflect_y_spec(*self, *n),
            ;
        }
        r
    }
}

/// `|a| <= m` and `|b| <= m` bound the product by `m * m`.
proof fn lemma_mul_bound(a: int, b: int, m: int) by (nonlinear_arith)
    requires
        0 <= m,
        -m <= a <= m,
        -m <= b <= m,
    ensures
        -(m * m) <= a * b <= m * m,
{
}

proof fn lemma_square_nonneg(a: int) by (nonlinear_arith)
    ensures
        a * a >= 0,
{
}

/// Reflection about an axis-aligned unit normal flips one component and so
/// preserves the squared length.
proof fn lemma_reflect_preserves_norm(v: Vec2, n: Vec2)
    requires
        is_axis_unit(n),
    ensures
        reflect_x_spec(v, n) * reflect_x_spec(v, n) + reflect_y_spec(v, n) * reflect_y_spec(v, n)
            == norm_sq_spec(v),
{
    assert(reflect_x_spec(v, n) * reflect_x_spec(v, n)
        + reflect_y_spec(v, n) * reflect_y_spec(v, n) == norm_sq_spec(v)) by (nonlinear_arith)
        requires
            is_axis_unit(n),
    ;
}

} // verus!
