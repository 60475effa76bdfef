//! Two-dimensional fixed-point vectors.

use vstd::prelude::*;

verus! {

/// The length of a direction vector: a direction component of `UNIT`
/// stands for 1.
pub const UNIT: i64 = 1_000_000;

/// Whether `r` is the square root of `n`, rounded down.
pub open spec fn is_floor_sqrt(r: int, n: int) -> bool {
    0 <= r && r * r <= n < (r + 1) * (r + 1)
}

/// The square root of `n`, rounded down.
pub open spec fn floor_sqrt(n: int) -> int {
    choose|r: int| is_floor_sqrt(r, n)
}

/// At most one number is the rounded-down square root of `n`.
pub proof fn lemma_floor_sqrt_unique(r: int, s: int, n: int)
    requires
        is_floor_sqrt(r, n),
        is_floor_sqrt(s, n),
    ensures
        r == s,
{
    if r < s {
        assert((r + 1) * (r + 1) <= s * s) by (nonlinear_arith)
            requires
                0 <= r,
                r + 1 <= s,
        ;
    } else if s < r {
        assert((s + 1) * (s + 1) <= r * r) by (nonlinear_arith)
            requires
                0 <= s,
                s + 1 <= r,
        ;
    }
}

/// Computes the square root of `n`, rounded down.
pub fn isqrt(n: u64) -> (r: u64)
    ensures
        is_floor_sqrt(r as int, n as int),
        r as int == floor_sqrt(n as int),
        r < 0x1_0000_0000,
{
    let mut lo: u64 = 0;
    let mut hi: u64 = 0x1_0000_0000;
    assert(0x1_0000_0000u64 * 0x1_0000_0000u64 > n) by (nonlinear_arith);
    while hi - lo > 1
        invariant
            lo < hi <= 0x1_0000_0000,
            lo * lo <= n < hi * hi,
        decreases hi - lo,
    {
        let mid: u64 = lo + (hi - lo) / 2;
        assert(mid * mid <= 0x1_0000_0000u64 * 0x1_0000_0000u64) by (nonlinear_arith)
            requires
                mid <= 0x1_0000_0000u64,
        ;
        let square: u128 = (mid as u128) * (mid as u128);
        if square <= n as u128 {
            lo = mid;
        } else {
            hi = mid;
        }
    }
    proof {
        assert(is_floor_sqrt(lo as int, n as int));
        lemma_floor_sqrt_unique(lo as int, floor_sqrt(n as int), n as int);
    }
    lo
}

/// The largest component, in magnitude, of a vector that can be normalized.
pub const NORMALIZE_MAX: i64 = 0x100_0000_0000;

/// A number divided by a positive one, rounded toward zero.
pub open spec fn trunc_div(a: int, n: int) -> int {
    if a >= 0 {
        a / n
    } else {
        -((-a) / n)
    }
}

/// The component `a` of a vector whose squared length is `n`, after the
/// vector has been scaled to the length `UNIT`: `|a| * UNIT / sqrt(n)`
/// rounded toward zero, with the sign of `a`.
pub open spec fn unit_component(a: int, n: int) -> int {
    let m = floor_sqrt(a * a * (UNIT * UNIT) / n);
    if a >= 0 {
        m
    } else {
        -m
    }
}

/// A point or a displacement of the plane in fixed-point coordinates.
#[derive(Clone, Copy, Debug, PartialEq, Eq, Structural)]
pub struct Vec2 {
    pub x: i64,
    pub y: i64,
}

impl Vec2 {
    /// The scalar product.
    pub open spec fn dot(self, other: Vec2) -> int {
        self.x * other.x + self.y * other.y
    }

    /// The squared length.
    pub open spec fn norm_sq(self) -> int {
        self.x * self.x + self.y * self.y
    }

    /// The squared distance between two points.
    pub open spec fn dist_sq(self, other: Vec2) -> int {
        (self.x - other.x) * (self.x - other.x) + (self.y - other.y) * (self.y - other.y)
    }

    pub open spec fn is_zero(self) -> bool {
        self.x == 0 && self.y == 0
    }

    /// Whether the vector is a direction: its length is `UNIT`, up to the
    /// rounding of its two components toward zero.
    pub open spec fn is_unit(self) -> bool {
        UNIT * UNIT - 4 * UNIT - 2 < self.norm_sq() <= UNIT * UNIT
    }

    /// Whether both components are small enough for `normalize`.
    pub open spec fn can_normalize(self) -> bool {
        &&& -NORMALIZE_MAX <= self.x <= NORMALIZE_MAX
        &&& -NORMALIZE_MAX <= self.y <= NORMALIZE_MAX
    }

    /// The direction of a vector other than zero.
    pub open spec fn normalized(self) -> Vec2 {
        Vec2 {
            x: unit_component(self.x as int, self.norm_sq()) as i64,
            y: unit_component(self.y as int, self.norm_sq()) as i64,
        }
    }

    /// Whether two points are at most `reach` apart.
    pub open spec fn touches(self, other: Vec2, reach: int) -> bool {
        reach >= 0 && self.dist_sq(other) <= reach * reach
    }

    /// Whether two points are less than `reach` apart.
    pub open spec fn overlaps(self, other: Vec2, reach: int) -> bool {
        reach > 0 && self.dist_sq(other) < reach * reach
    }

    /// The mirror image of `self` in the line at right angles to `d`,
    /// scaled by the squared length of `d`:
    /// `self * (d . d) - 2 * (self . d) * d`, component by component.
    pub open spec fn mirror_scaled(self, d: Vec2) -> (int, int) {
        let n = d.norm_sq();
        let k = 2 * self.dot(d);
        (self.x * n - k * d.x, self.y * n - k * d.y)
    }

    /// The mirror image of `self` in the line at right angles to `d`:
    /// `self - 2 * (self . d) * d / (d . d)`, each quotient rounded
    /// toward zero.
    pub open spec fn mirrored(self, d: Vec2) -> Vec2 {
        let n = d.norm_sq();
        let k = 2 * self.dot(d);
        Vec2 {
            x: (self.x - trunc_div(k * d.x, n)) as i64,
            y: (self.y - trunc_div(k * d.y, n)) as i64,
        }
    }

    /// The direction `self` after an elastic bounce off a surface whose
    /// normal runs along `d`.
    pub open spec fn reflected(self, d: Vec2) -> Vec2 {
        self.mirrored(d).normalized()
    }

    pub fn new(x: i64, y: i64) -> (v: Vec2)
        ensures
            v == (Vec2 { x, y }),
    {
        Vec2 { x, y }
    }

    /// Scales a vector other than zero to the length `UNIT`.
    pub fn normalize(self) -> (r: Vec2)
        requires
            !self.is_zero(),
            self.can_normalize(),
        ensures
            r == self.normalized(),
            r.is_unit(),
            (self.x >= 0 ==> 0 <= r.x <= UNIT) && (self.x <= 0 ==> -UNIT <= r.x <= 0),
            (self.y >= 0 ==> 0 <= r.y <= UNIT) && (self.y <= 0 ==> -UNIT <= r.y <= 0),
    {
        let ax: u128 = magnitude(self.x);
        let ay: u128 = magnitude(self.y);
        assert(ax * ax <= 0x100_0000_0000 * 0x100_0000_0000 && ay * ay <= 0x100_0000_0000
            * 0x100_0000_0000) by (nonlinear_arith)
            requires
                ax <= 0x100_0000_0000,
                ay <= 0x100_0000_0000,
        ;
        assert(ax * ax + ay * ay > 0) by (nonlinear_arith)
            requires
                ax > 0 || ay > 0,
        ;
        let sx: u128 = ax * ax;
        let sy: u128 = ay * ay;
        let n: u128 = sx + sy;
        let scale: u128 = 1_000_000_000_000;
        assert(UNIT * UNIT == 1_000_000_000_000);
        assert(sx * scale <= u128::MAX && sy * scale <= u128::MAX) by (nonlinear_arith)
            requires
                sx <= 0x100_0000_0000 * 0x100_0000_0000,
                sy <= 0x100_0000_0000 * 0x100_0000_0000,
                scale == 1_000_000_000_000,
        ;
        let qx: u128 = sx * scale / n;
        let qy: u128 = sy * scale / n;
        proof {
            lemma_quotient_bounds(sx as int, n as int, scale as int);
            lemma_quotient_bounds(sy as int, n as int, scale as int);
        }
        let mx: u64 = isqrt(qx as u64);
        let my: u64 = isqrt(qy as u64);
        proof {
            assert(self.x * self.x == ax * ax && self.y * self.y == ay * ay) by (nonlinear_arith)
                requires
                    ax == self.x || ax == -self.x,
                    ay == self.y || ay == -self.y,
            ;
            lemma_directions_are_unit(sx as int, sy as int, mx as int, my as int);
            if self.x == 0 {
                assert(sx * scale == 0) by (nonlinear_arith)
                    requires
                        sx == ax * ax,
                        ax == 0,
                ;
                assert(mx == 0) by (nonlinear_arith)
                    requires
                        mx * mx <= 0,
                ;
            }
            if self.y == 0 {
                assert(sy * scale == 0) by (nonlinear_arith)
                    requires
                        sy == ay * ay,
                        ay == 0,
                ;
                assert(my == 0) by (nonlinear_arith)
                    requires
                        my * my <= 0,
                ;
            }
        }
        let r = Vec2 {
            x: if self.x >= 0 { mx as i64 } else { -(mx as i64) },
            y: if self.y >= 0 { my as i64 } else { -(my as i64) },
        };
        assert(r.x * r.x == mx * mx && r.y * r.y == my * my) by (nonlinear_arith)
            requires
                r.x == mx || r.x == -mx,
                r.y == my || r.y == -my,
        ;
        r
    }

    /// Tests whether the vector is a direction.
    pub fn is_direction(self) -> (b: bool)
        ensures
            b == self.is_unit(),
    {
        let ax: u128 = magnitude(self.x);
        let ay: u128 = magnitude(self.y);
        proof {
            lemma_squares(self.x as int, ax as int);
            lemma_squares(self.y as int, ay as int);
            lemma_square_order(ax as int, 1_000_000);
            lemma_square_order(ay as int, 1_000_000);
        }
        if ax > 1_000_000 || ay > 1_000_000 {
            return false;
        }
        let n: u128 = ax * ax + ay * ay;
        999_995_999_998 < n && n <= 1_000_000_000_000
    }

    /// Tests whether two points are at most `reach` apart.
    pub fn is_within(self, other: Vec2, reach: i64) -> (b: bool)
        ensures
            b == self.touches(other, reach as int),
    {
        if reach < 0 {
            return false;
        }
        let dx: u128 = gap(self.x, other.x);
        let dy: u128 = gap(self.y, other.y);
        let r: u128 = reach as u128;
        proof {
            lemma_squares(self.x - other.x, dx as int);
            lemma_squares(self.y - other.y, dy as int);
            lemma_square_order(dx as int, r as int);
            lemma_square_order(dy as int, r as int);
            lemma_square_order(r as int, 0x8000_0000_0000_0000);
            assert(0x8000_0000_0000_0000 * 0x8000_0000_0000_0000
                == 0x4000_0000_0000_0000_0000_0000_0000_0000int);
        }
        if dx > r || dy > r {
            return false;
        }
        dx * dx + dy * dy <= r * r
    }

    /// Tests whether two points are less than `reach` apart.
    pub fn is_closer_than(self, other: Vec2, reach: i64) -> (b: bool)
        ensures
            b == self.overlaps(other, reach as int),
    {
        if reach <= 0 {
            return false;
        }
        let dx: u128 = gap(self.x, other.x);
        let dy: u128 = gap(self.y, other.y);
        let r: u128 = reach as u128;
        proof {
            lemma_squares(self.x - other.x, dx as int);
            lemma_squares(self.y - other.y, dy as int);
            lemma_square_order(dx as int, r as int);
            lemma_square_order(dy as int, r as int);
            lemma_square_order(r as int, 0x8000_0000_0000_0000);
            assert(0x8000_0000_0000_0000 * 0x8000_0000_0000_0000
                == 0x4000_0000_0000_0000_0000_0000_0000_0000int);
        }
        if dx > r || dy > r {
            return false;
        }
        dx * dx + dy * dy < r * r
    }

    /// Reflects the direction `self` about the normal along `d` and scales
    /// the result back to the length `UNIT`.
    pub fn reflect(self, d: Vec2) -> (r: Vec2)
        requires
            self.is_unit(),
            !d.is_zero(),
            d.can_normalize(),
        ensures
            r == self.reflected(d),
            r.is_unit(),
    {
        proof {
            lemma_unit_components(self);
            lemma_dividend_bounds(self, d);
            lemma_trunc_div_bounds(2 * self.dot(d) * d.x, d.norm_sq(), 4 * UNIT);
            lemma_trunc_div_bounds(2 * self.dot(d) * d.y, d.norm_sq(), 4 * UNIT);
            lemma_mirrored_is_not_zero(self, d);
        }
        let dx: i128 = d.x as i128;
        let dy: i128 = d.y as i128;
        assert(dx * dx <= 0x100_0000_0000 * 0x100_0000_0000 && dy * dy <= 0x100_0000_0000
            * 0x100_0000_0000) by (nonlinear_arith)
            requires
                -0x100_0000_0000 <= dx <= 0x100_0000_0000,
                -0x100_0000_0000 <= dy <= 0x100_0000_0000,
        ;
        let n: i128 = dx * dx + dy * dy;
        assert(-0x100_0000_0000 * 1_000_000 <= self.x * dx <= 0x100_0000_0000 * 1_000_000
            && -0x100_0000_0000 * 1_000_000 <= self.y * dy <= 0x100_0000_0000 * 1_000_000)
            by (nonlinear_arith)
            requires
                -0x100_0000_0000 <= dx <= 0x100_0000_0000,
                -0x100_0000_0000 <= dy <= 0x100_0000_0000,
                -1_000_000 <= self.x <= 1_000_000,
                -1_000_000 <= self.y <= 1_000_000,
        ;
        let k: i128 = 2 * (self.x as i128 * dx + self.y as i128 * dy);
        assert(-0x100_0000_0000 * 0x100_0000_0000 * 4_000_000 <= k * dx <= 0x100_0000_0000
            * 0x100_0000_0000 * 4_000_000 && -0x100_0000_0000 * 0x100_0000_0000 * 4_000_000 <= k
            * dy <= 0x100_0000_0000 * 0x100_0000_0000 * 4_000_000) by (nonlinear_arith)
            requires
                -0x100_0000_0000 <= dx <= 0x100_0000_0000,
                -0x100_0000_0000 <= dy <= 0x100_0000_0000,
                -0x100_0000_0000 * 4_000_000 <= k <= 0x100_0000_0000 * 4_000_000,
        ;
        let px: i128 = trunc_divide(k * dx, n);
        let py: i128 = trunc_divide(k * dy, n);
        let m = Vec2 { x: (self.x as i128 - px) as i64, y: (self.y as i128 - py) as i64 };
        assert(m == self.mirrored(d));
        m.normalize()
    }
}

/// The two distance tests differ at the rim and nowhere else: two points
/// that overlap also touch, and two points that touch without overlapping
/// are exactly `reach` apart.
pub proof fn lemma_rim_touches(a: Vec2, b: Vec2, reach: int)
    ensures
        a.overlaps(b, reach) ==> a.touches(b, reach),
        a.touches(b, reach) && !a.overlaps(b, reach) <==> reach >= 0 && a.dist_sq(b) == reach
            * reach,
{
    if reach == 0 {
        lemma_squares(a.x - b.x, a.x - b.x);
        lemma_squares(a.y - b.y, a.y - b.y);
    }
}

/// How far apart two coordinates are.
fn gap(a: i64, b: i64) -> (d: u128)
    ensures
        d == if a >= b { a - b } else { b - a },
        d < 0x1_0000_0000_0000_0000,
{
    let diff: i128 = a as i128 - b as i128;
    if diff >= 0 {
        diff as u128
    } else {
        (-diff) as u128
    }
}

/// A number and its absolute value have the same square.
proof fn lemma_squares(a: int, m: int)
    by (nonlinear_arith)
    requires
        m == a || m == -a,
    ensures
        m * m == a * a,
        0 <= a * a,
{
}

/// Squaring keeps the order of numbers that are not negative.
proof fn lemma_square_order(a: int, b: int)
    by (nonlinear_arith)
    requires
        0 <= a,
        0 <= b,
    ensures
        a <= b ==> a * a <= b * b,
        a > b ==> a * a > b * b,
{
}

/// Divides by a positive number, rounding toward zero.
pub(crate) fn trunc_divide(a: i128, n: i128) -> (q: i128)
    requires
        n > 0,
        a > i128::MIN,
    ensures
        q == trunc_div(a as int, n as int),
{
    if a >= 0 {
        a / n
    } else {
        let m: u128 = (-a) as u128;
        let q: u128 = m / (n as u128);
        assert(q <= m);
        -(q as i128)
    }
}

/// Neither component of a direction is longer than `UNIT`.
pub proof fn lemma_unit_components(v: Vec2)
    requires
        v.is_unit(),
    ensures
        -UNIT <= v.x <= UNIT,
        -UNIT <= v.y <= UNIT,
{
    assert(-UNIT <= v.x <= UNIT && -UNIT <= v.y <= UNIT) by (nonlinear_arith)
        requires
            v.x * v.x + v.y * v.y <= UNIT * UNIT,
    ;
}

/// What a bounce about `d` takes away from a direction `v`, before the
/// division: at most four times `UNIT` times the squared length of `d`, in
/// each component.
proof fn lemma_dividend_bounds(v: Vec2, d: Vec2)
    requires
        v.is_unit(),
        !d.is_zero(),
    ensures
        d.norm_sq() > 0,
        -((4 * UNIT) * d.norm_sq()) <= 2 * v.dot(d) * d.x <= (4 * UNIT) * d.norm_sq(),
        -((4 * UNIT) * d.norm_sq()) <= 2 * v.dot(d) * d.y <= (4 * UNIT) * d.norm_sq(),
{
    lemma_unit_components(v);
    let n = d.norm_sq();
    let k = 2 * v.dot(d);
    let (vx, vy, dx, dy) = (v.x as int, v.y as int, d.x as int, d.y as int);
    let u = UNIT as int;
    assert(n > 0) by (nonlinear_arith)
        requires
            n == dx * dx + dy * dy,
            dx != 0 || dy != 0,
    ;
    assert(-n <= 2 * (dx * dy) <= n && 0 <= dx * dx <= n && 0 <= dy * dy <= n) by (nonlinear_arith)
        requires
            n == dx * dx + dy * dy,
    ;
    assert(-u * (dx * dx) <= vx * (dx * dx) <= u * (dx * dx) && -u * (dy * dy) <= vy * (dy * dy)
        <= u * (dy * dy)) by (nonlinear_arith)
        requires
            -u <= vx <= u,
            -u <= vy <= u,
            0 <= dx * dx,
            0 <= dy * dy,
    ;
    assert(-u * n <= 2 * (vx * (dx * dy)) <= u * n && -u * n <= 2 * (vy * (dx * dy)) <= u * n)
        by (nonlinear_arith)
        requires
            -u <= vx <= u,
            -u <= vy <= u,
            -n <= 2 * (dx * dy) <= n,
    ;
    assert(k * dx == 2 * (vx * (dx * dx)) + 2 * (vy * (dx * dy)) && k * dy == 2 * (vx * (dx * dy))
        + 2 * (vy * (dy * dy))) by (nonlinear_arith)
        requires
            k == 2 * (vx * dx + vy * dy),
    ;
    assert(u * (dx * dx) <= u * n && u * (dy * dy) <= u * n) by (nonlinear_arith)
        requires
            0 <= dx * dx <= n,
            0 <= dy * dy <= n,
            u >= 0,
    ;
    assert(-((4 * u) * n) <= k * dx <= (4 * u) * n);
    assert(-((4 * u) * n) <= k * dy <= (4 * u) * n);
}

/// A quotient rounded toward zero is as small as its dividend allows, and
/// the rest is smaller than the divisor.
proof fn lemma_trunc_div_bounds(a: int, n: int, b: int)
    requires
        0 < n,
        0 <= b,
        -(b * n) <= a <= b * n,
    ensures
        -b <= trunc_div(a, n) <= b,
        -n < a - trunc_div(a, n) * n < n,
{
    let m = if a >= 0 { a } else { -a };
    let q = m / n;
    vstd::arithmetic::div_mod::lemma_fundamental_div_mod(m, n);
    vstd::arithmetic::div_mod::lemma_mod_bound(m, n);
    assert(n * q <= m < n * q + n);
    assert(q <= b) by (nonlinear_arith)
        requires
            n * q <= m,
            m <= b * n,
            0 < n,
    ;
    assert(0 <= q) by (nonlinear_arith)
        requires
            m < n * q + n,
            0 <= m,
            0 < n,
    ;
    assert(trunc_div(a, n) == if a >= 0 { q } else { -q });
    assert(trunc_div(a, n) * n == if a >= 0 { n * q } else { -(n * q) }) by (nonlinear_arith)
        requires
            trunc_div(a, n) == if a >= 0 { q } else { -q },
    ;
}

/// A bounce keeps the length: the scaled mirror image of `v` is as long as
/// `v`, times the squared length of `d`.
pub proof fn lemma_mirror_keeps_length(v: Vec2, d: Vec2)
    ensures
        v.mirror_scaled(d).0 * v.mirror_scaled(d).0 + v.mirror_scaled(d).1 * v.mirror_scaled(d).1
            == v.norm_sq() * (d.norm_sq() * d.norm_sq()),
{
    let (vx, vy, dx, dy) = (v.x as int, v.y as int, d.x as int, d.y as int);
    let n = d.norm_sq();
    let s = v.dot(d);
    let k = 2 * s;
    let wx = vx * n - k * dx;
    let wy = vy * n - k * dy;
    lemma_square_of_difference(vx * n, k * dx);
    lemma_square_of_difference(vy * n, k * dy);
    lemma_product_of_products(vx, n, vx, n);
    lemma_product_of_products(vy, n, vy, n);
    lemma_product_of_products(vx, n, k, dx);
    lemma_product_of_products(vy, n, k, dy);
    lemma_product_of_products(k, dx, k, dx);
    lemma_product_of_products(k, dy, k, dy);
    let kn = n * k;
    let kk = k * k;
    let nn = n * n;
    assert(wx * wx + wy * wy == (vx * vx) * nn + (vy * vy) * nn - 2 * (kn * (vx * dx)) - 2 * (kn
        * (vy * dy)) + kk * (dx * dx) + kk * (dy * dy));
    assert(kn * (vx * dx) + kn * (vy * dy) == kn * s) by (nonlinear_arith)
        requires
            s == vx * dx + vy * dy,
    ;
    assert(kk * (dx * dx) + kk * (dy * dy) == kk * n) by (nonlinear_arith)
        requires
            n == dx * dx + dy * dy,
    ;
    assert(2 * (kn * s) == kk * n) by (nonlinear_arith)
        requires
            k == 2 * s,
            kn == n * k,
            kk == k * k,
    ;
    assert((vx * vx) * nn + (vy * vy) * nn == (vx * vx + vy * vy) * nn) by (nonlinear_arith);
}

/// `(a - b)^2 = a^2 - 2ab + b^2`.
proof fn lemma_square_of_difference(a: int, b: int)
    by (nonlinear_arith)
    ensures
        (a - b) * (a - b) == a * a - 2 * (a * b) + b * b,
{
}

/// `(ab)(cd) = (ac)(bd)`.
proof fn lemma_product_of_products(a: int, b: int, c: int, d: int)
    by (nonlinear_arith)
    ensures
        (a * b) * (c * d) == (a * c) * (b * d),
        (a * b) * (c * d) == (b * c) * (a * d),
{
}

/// The rounded mirror image of a direction is not the zero vector.
proof fn lemma_mirrored_is_not_zero(v: Vec2, d: Vec2)
    requires
        v.is_unit(),
        !d.is_zero(),
    ensures
        v.x - trunc_div(2 * v.dot(d) * d.x, d.norm_sq()) != 0 || v.y - trunc_div(
            2 * v.dot(d) * d.y,
            d.norm_sq(),
        ) != 0,
{
    lemma_dividend_bounds(v, d);
    let (vx, vy, dx, dy) = (v.x as int, v.y as int, d.x as int, d.y as int);
    let n = d.norm_sq();
    let k = 2 * v.dot(d);
    let qx = trunc_div(k * dx, n);
    let qy = trunc_div(k * dy, n);
    if vx - qx == 0 && vy - qy == 0 {
        let wx = vx * n - k * dx;
        let wy = vy * n - k * dy;
        lemma_trunc_div_bounds(k * dx, n, 4 * UNIT);
        lemma_trunc_div_bounds(k * dy, n, 4 * UNIT);
        assert(qx * n == vx * n && qy * n == vy * n);
        assert(-n < wx < n && -n < wy < n);
        assert(wx * wx < n * n && wy * wy < n * n) by (nonlinear_arith)
            requires
                -n < wx < n,
                -n < wy < n,
        ;
        lemma_mirror_keeps_length(v, d);
        assert(v.norm_sq() * (n * n) < 2 * (n * n));
        assert(false) by (nonlinear_arith)
            requires
                v.norm_sq() * (n * n) < 2 * (n * n),
                v.norm_sq() >= 2,
                n > 0,
        ;
    }
}

/// The direction of a vector is a direction.
pub proof fn lemma_normalized_is_unit(v: Vec2)
    requires
        !v.is_zero(),
    ensures
        v.normalized().is_unit(),
{
    let (x, y) = (v.x as int, v.y as int);
    let n = v.norm_sq();
    let u = UNIT * UNIT;
    lemma_squares(x, x);
    lemma_squares(y, y);
    assert(n > 0) by (nonlinear_arith)
        requires
            n == x * x + y * y,
            x != 0 || y != 0,
    ;
    lemma_quotient_bounds(x * x, n, u);
    lemma_quotient_bounds(y * y, n, u);
    lemma_floor_sqrt_exists(x * x * u / n);
    lemma_floor_sqrt_exists(y * y * u / n);
    let mx = floor_sqrt(x * x * u / n);
    let my = floor_sqrt(y * y * u / n);
    lemma_directions_are_unit(x * x, y * y, mx, my);
    let r = v.normalized();
    assert(r.x == mx || r.x == -mx);
    assert(r.y == my || r.y == -my);
    lemma_squares(r.x as int, mx);
    lemma_squares(r.y as int, my);
}

/// Every number that is not negative has a rounded-down square root.
pub proof fn lemma_floor_sqrt_exists(n: int)
    requires
        0 <= n,
    ensures
        is_floor_sqrt(floor_sqrt(n), n),
    decreases n,
{
    if n == 0 {
        assert(is_floor_sqrt(0, 0));
    } else {
        lemma_floor_sqrt_exists(n - 1);
        let r = floor_sqrt(n - 1);
        if (r + 1) * (r + 1) <= n {
            assert((r + 2) * (r + 2) > n) by (nonlinear_arith)
                requires
                    0 <= r,
                    n - 1 < (r + 1) * (r + 1),
            ;
            assert(is_floor_sqrt(r + 1, n));
        } else {
            assert(is_floor_sqrt(r, n));
        }
    }
}

/// A direction that bounces off a surface is a direction again.
pub proof fn lemma_reflected_is_unit(v: Vec2, d: Vec2)
    requires
        v.is_unit(),
        !d.is_zero(),
    ensures
        v.reflected(d).is_unit(),
{
    lemma_unit_components(v);
    lemma_dividend_bounds(v, d);
    lemma_trunc_div_bounds(2 * v.dot(d) * d.x, d.norm_sq(), 4 * UNIT);
    lemma_trunc_div_bounds(2 * v.dot(d) * d.y, d.norm_sq(), 4 * UNIT);
    lemma_mirrored_is_not_zero(v, d);
    lemma_normalized_is_unit(v.mirrored(d));
}

/// The absolute value of `a`.
fn magnitude(a: i64) -> (m: u128)
    ensures
        m == if a >= 0 { a as int } else { -a },
{
    if a >= 0 {
        a as u128
    } else {
        (-(a as i128)) as u128
    }
}

/// A part `s` of a whole `n`, scaled by `scale` and divided by `n`, is at
/// most `scale`.
proof fn lemma_quotient_bounds(s: int, n: int, scale: int)
    requires
        0 <= s <= n,
        0 < n,
        0 <= scale,
    ensures
        0 <= s * scale / n <= scale,
{
    assert(s * scale <= n * scale) by (nonlinear_arith)
        requires
            0 <= s <= n,
            0 <= scale,
    ;
    assert(0 <= s * scale) by (nonlinear_arith)
        requires
            0 <= s,
            0 <= scale,
    ;
    vstd::arithmetic::div_mod::lemma_div_is_ordered(s * scale, n * scale, n);
    vstd::arithmetic::div_mod::lemma_div_multiples_vanish(scale, n);
    vstd::arithmetic::mul::lemma_mul_is_commutative(scale, n);
    vstd::arithmetic::div_mod::lemma_div_pos_is_pos(s * scale, n);
}

/// What rounding down does to one component: with `q = s * u / n` and `m`
/// the rounded-down root of `q`, `m * m * n <= s * u < (m + 1) * (m + 1) * n`.
proof fn lemma_component_bounds(s: int, n: int, u: int, m: int)
    requires
        0 <= s,
        0 < n,
        0 <= u,
        is_floor_sqrt(m, s * u / n),
    ensures
        m * m * n <= s * u,
        s * u < (m + 1) * (m + 1) * n,
{
    let p = s * u;
    let q = p / n;
    vstd::arithmetic::div_mod::lemma_fundamental_div_mod(p, n);
    vstd::arithmetic::div_mod::lemma_mod_bound(p, n);
    assert(n * q <= p < n * q + n);
    assert(m * m * n <= n * q) by (nonlinear_arith)
        requires
            m * m <= q,
            0 < n,
    ;
    assert((m + 1) * (m + 1) * n >= n * q + n) by (nonlinear_arith)
        requires
            (m + 1) * (m + 1) >= q + 1,
            0 < n,
    ;
}

/// The rounded components of a normalized vector make a direction.
proof fn lemma_directions_are_unit(sx: int, sy: int, mx: int, my: int)
    requires
        0 <= sx,
        0 <= sy,
        0 < sx + sy,
        is_floor_sqrt(mx, sx * (UNIT * UNIT) / (sx + sy)),
        is_floor_sqrt(my, sy * (UNIT * UNIT) / (sx + sy)),
    ensures
        mx <= UNIT,
        my <= UNIT,
        UNIT * UNIT - 4 * UNIT - 2 < mx * mx + my * my <= UNIT * UNIT,
{
    let n = sx + sy;
    let u = UNIT * UNIT;
    lemma_component_bounds(sx, n, u, mx);
    lemma_component_bounds(sy, n, u, my);
    assert((mx * mx + my * my) * n <= u * n) by (nonlinear_arith)
        requires
            mx * mx * n <= sx * u,
            my * my * n <= sy * u,
            n == sx + sy,
    ;
    assert(mx * mx + my * my <= u) by (nonlinear_arith)
        requires
            (mx * mx + my * my) * n <= u * n,
            0 < n,
    ;
    assert(((mx + 1) * (mx + 1) + (my + 1) * (my + 1)) * n > u * n) by (nonlinear_arith)
        requires
            sx * u < (mx + 1) * (mx + 1) * n,
            sy * u < (my + 1) * (my + 1) * n,
            n == sx + sy,
    ;
    assert((mx + 1) * (mx + 1) + (my + 1) * (my + 1) > u) by (nonlinear_arith)
        requires
            ((mx + 1) * (mx + 1) + (my + 1) * (my + 1)) * n > u * n,
            0 < n,
    ;
    assert(mx <= UNIT && my <= UNIT) by (nonlinear_arith)
        requires
            mx * mx + my * my <= UNIT * UNIT,
            0 <= mx,
            0 <= my,
    ;
    assert(mx * mx + my * my + 2 * mx + 2 * my + 2 == (mx + 1) * (mx + 1) + (my + 1) * (my + 1))
        by (nonlinear_arith);
}

} // verus!
