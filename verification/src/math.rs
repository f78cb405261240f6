//! Integer vectors, division rounding toward zero, and integer square roots.

use vstd::prelude::*;

verus! {

/// The fixed-point representation of one, used for scale factors and for the
/// components of unit vectors.
pub const UNIT: i32 = 1000;

/// Whether `x` is representable as a stored scalar.
pub open spec fn fits(x: int) -> bool {
    i32::MIN <= x <= i32::MAX
}

/// The quotient of `a` by a positive `b`, rounded toward zero.
pub open spec fn div_toward_zero(a: int, b: int) -> int
    recommends
        b > 0,
{
    if a >= 0 {
        a / b
    } else {
        -((-a) / b)
    }
}

/// Whether `r` is the least natural number whose square reaches `n`.
pub open spec fn is_ceil_sqrt(n: int, r: int) -> bool {
    &&& r >= 0
    &&& n <= r * r
    &&& r > 0 ==> (r - 1) * (r - 1) < n
}

/// The square root of `n`, rounded up.
pub open spec fn ceil_sqrt(n: int) -> int {
    choose|r: int| is_ceil_sqrt(n, r)
}

/// A mathematical vector in the plane.
pub struct Vector {
    pub x: int,
    pub y: int,
}

/// The vector with the given components.
pub open spec fn vector(x: int, y: int) -> Vector {
    Vector { x, y }
}

impl Vector {
    pub open spec fn zero() -> Vector {
        Vector { x: 0, y: 0 }
    }

    pub open spec fn plus(self, other: Vector) -> Vector {
        Vector { x: self.x + other.x, y: self.y + other.y }
    }

    pub open spec fn minus(self, other: Vector) -> Vector {
        Vector { x: self.x - other.x, y: self.y - other.y }
    }

    pub open spec fn times(self, k: int) -> Vector {
        Vector { x: self.x * k, y: self.y * k }
    }

    /// Componentwise quotient by a positive `k`, rounded toward zero.
    pub open spec fn over(self, k: int) -> Vector
        recommends
            k > 0,
    {
        Vector { x: div_toward_zero(self.x, k), y: div_toward_zero(self.y, k) }
    }

    pub open spec fn dot(self, other: Vector) -> int {
        self.x * other.x + self.y * other.y
    }

    pub open spec fn norm_sq(self) -> int {
        self.dot(self)
    }

    pub open spec fn fits(self) -> bool {
        fits(self.x) && fits(self.y)
    }

    /// The vector along `self` whose length is `length`: each component of
    /// `self` times `length`, over the length of `self` rounded up to a
    /// whole number, the quotient rounded toward zero. Both roundings
    /// shorten, so the result is never longer than `length`. Meaningful for
    /// a nonzero `self`.
    pub open spec fn rescaled(self, length: int) -> Vector
        recommends
            self != Vector::zero(),
    {
        self.times(length).over(ceil_sqrt(self.norm_sq()))
    }
}

/// A stored vector in the plane.
#[derive(Clone, Copy, Debug, PartialEq, Eq)]
pub struct Vec2 {
    pub x: i32,
    pub y: i32,
}

impl View for Vec2 {
    type V = Vector;

    open spec fn view(&self) -> Vector {
        Vector { x: self.x as int, y: self.y as int }
    }
}

/// The stored vector equal to `v`, where there is one.
pub open spec fn narrowed(v: Vector) -> Option<Vec2> {
    if v.fits() {
        Some(Vec2 { x: v.x as i32, y: v.y as i32 })
    } else {
        None
    }
}

pub proof fn lemma_ceil_sqrt_unique(n: int, a: int, b: int)
    requires
        is_ceil_sqrt(n, a),
        is_ceil_sqrt(n, b),
    ensures
        a == b,
{
    if a < b {
        assert(a * a <= (b - 1) * (b - 1)) by (nonlinear_arith)
            requires
                0 <= a <= b - 1,
        ;
    } else if b < a {
        assert(b * b <= (a - 1) * (a - 1)) by (nonlinear_arith)
            requires
                0 <= b <= a - 1,
        ;
    }
}

/// Every witness of [`is_ceil_sqrt`] is the value of [`ceil_sqrt`].
pub proof fn lemma_ceil_sqrt_is(n: int, r: int)
    requires
        is_ceil_sqrt(n, r),
    ensures
        ceil_sqrt(n) == r,
{
    lemma_ceil_sqrt_unique(n, r, ceil_sqrt(n));
}

/// The square root of `n`, rounded up.
pub fn ceil_sqrt_of(n: u128) -> (r: u128)
    ensures
        is_ceil_sqrt(n as int, r as int),
        r == ceil_sqrt(n as int),
{
    let mut lo: u128 = 0;
    let mut hi: u128 = 0x1_0000_0000_0000_0000;
    assert(n <= hi * hi) by (nonlinear_arith)
        requires
            hi == 0x1_0000_0000_0000_0000,
            n <= u128::MAX,
    ;
    while lo < hi
        invariant
            lo <= hi <= 0x1_0000_0000_0000_0000,
            n <= hi * hi,
            lo > 0 ==> (lo - 1) * (lo - 1) < n,
        decreases hi - lo,
    {
        let mid: u128 = lo + (hi - lo) / 2;
        assert(mid * mid <= 0xffff_ffff_ffff_ffff * 0xffff_ffff_ffff_ffff) by (nonlinear_arith)
            requires
                0 <= mid <= 0xffff_ffff_ffff_ffff,
        ;
        if mid * mid >= n {
            hi = mid;
        } else {
            lo = mid + 1;
        }
    }
    proof {
        lemma_ceil_sqrt_is(n as int, lo as int);
    }
    lo
}

impl Vec2 {
    pub fn new(x: i32, y: i32) -> (r: Vec2)
        ensures
            r.x == x,
            r.y == y,
    {
        Vec2 { x, y }
    }

    pub fn zero() -> (r: Vec2)
        ensures
            r@ == Vector::zero(),
    {
        Vec2 { x: 0, y: 0 }
    }

    /// Whether both components are zero.
    pub fn is_zero(self) -> (r: bool)
        ensures
            r == (self@ == Vector::zero()),
    {
        self.x == 0 && self.y == 0
    }

    /// The sum, or `None` where it is not representable.
    pub fn checked_add(self, other: Vec2) -> (r: Option<Vec2>)
        ensures
            r == narrowed(self@.plus(other@)),
    {
        narrow(self.x as i128 + other.x as i128, self.y as i128 + other.y as i128)
    }

    /// The difference, or `None` where it is not representable.
    pub fn checked_sub(self, other: Vec2) -> (r: Option<Vec2>)
        ensures
            r == narrowed(self@.minus(other@)),
    {
        narrow(self.x as i128 - other.x as i128, self.y as i128 - other.y as i128)
    }

    /// The scalar product.
    pub fn dot(self, other: Vec2) -> (r: i128)
        ensures
            r == self@.dot(other@),
    {
        let a: i64 = mul_wide(self.x, other.x);
        let b: i64 = mul_wide(self.y, other.y);
        a as i128 + b as i128
    }

    /// The squared length.
    pub fn norm_sq(self) -> (r: i128)
        ensures
            r == self@.norm_sq(),
    {
        self.dot(self)
    }
}

/// [`ceil_sqrt`] is defined on every integer.
pub proof fn lemma_ceil_sqrt_exists(n: int)
    ensures
        is_ceil_sqrt(n, ceil_sqrt(n)),
    decreases n,
{
    if n <= 0 {
        assert(is_ceil_sqrt(n, 0));
    } else {
        lemma_ceil_sqrt_exists(n - 1);
        let r = ceil_sqrt(n - 1);
        if n <= r * r {
            assert(is_ceil_sqrt(n, r));
        } else {
            assert((r + 1) * (r + 1) == r * r + 2 * r + 1) by (nonlinear_arith);
            assert(is_ceil_sqrt(n, r + 1));
        }
    }
}

/// How [`div_toward_zero`] relates quotient, divisor and dividend.
pub proof fn lemma_div_toward_zero(a: int, b: int)
    requires
        b > 0,
    ensures
        a >= 0 ==> 0 <= div_toward_zero(a, b) * b <= a < (div_toward_zero(a, b) + 1) * b,
        a <= 0 ==> (div_toward_zero(a, b) - 1) * b < a <= div_toward_zero(a, b) * b <= 0,
{
    let q = div_toward_zero(a, b);
    if a >= 0 {
        vstd::arithmetic::div_mod::lemma_fundamental_div_mod(a, b);
        assert(0 <= q * b <= a < (q + 1) * b && (a == 0 ==> (q - 1) * b < 0)) by (nonlinear_arith)
            requires
                a == b * q + a % b,
                0 <= a % b < b,
                b > 0,
                a >= 0,
        ;
    } else {
        vstd::arithmetic::div_mod::lemma_fundamental_div_mod(-a, b);
        let p = (-a) / b;
        assert((q - 1) * b < a <= q * b <= 0) by (nonlinear_arith)
            requires
                q == -p,
                -a == b * p + (-a) % b,
                0 <= (-a) % b < b,
                b > 0,
                a < 0,
        ;
    }
}

/// Rounding toward zero never lengthens: the square of the quotient, times
/// the square of the divisor, is at most the square of the dividend.
pub proof fn lemma_div_toward_zero_square(a: int, b: int)
    requires
        b > 0,
    ensures
        div_toward_zero(a, b) * div_toward_zero(a, b) * (b * b) <= a * a,
{
    lemma_div_toward_zero(a, b);
    let q = div_toward_zero(a, b);
    if a >= 0 {
        assert(q * q * (b * b) <= a * a) by (nonlinear_arith)
            requires
                0 <= q * b <= a,
        ;
    } else {
        assert(q * q * (b * b) <= a * a) by (nonlinear_arith)
            requires
                a <= q * b <= 0,
        ;
    }
}

/// A rescaled vector is never longer than the length asked for.
pub proof fn lemma_rescaled_within(d: Vector, length: int)
    requires
        d != Vector::zero(),
    ensures
        d.rescaled(length).norm_sq() <= length * length,
{
    let n = d.norm_sq();
    let l = ceil_sqrt(n);
    lemma_ceil_sqrt_exists(n);
    assert(n >= 1) by (nonlinear_arith)
        requires
            n == d.x * d.x + d.y * d.y,
            d.x != 0 || d.y != 0,
    ;
    assert(l >= 1 && l * l >= 1) by (nonlinear_arith)
        requires
            l >= 0,
            1 <= n <= l * l,
    ;
    let q = d.rescaled(length);
    lemma_div_toward_zero_square(d.x * length, l);
    lemma_div_toward_zero_square(d.y * length, l);
    let a = q.x * q.x;
    let b = q.y * q.y;
    let m = l * l;
    let k = length * length;
    assert((d.x * length) * (d.x * length) == (d.x * d.x) * k) by (nonlinear_arith)
        requires
            k == length * length,
    ;
    assert((d.y * length) * (d.y * length) == (d.y * d.y) * k) by (nonlinear_arith)
        requires
            k == length * length,
    ;
    assert((a + b) * m <= n * k) by (nonlinear_arith)
        requires
            a * m <= (d.x * d.x) * k,
            b * m <= (d.y * d.y) * k,
            n == d.x * d.x + d.y * d.y,
    ;
    assert(n * k <= m * k) by (nonlinear_arith)
        requires
            n <= m,
            k == length * length,
    ;
    assert(a + b <= k) by (nonlinear_arith)
        requires
            (a + b) * m <= m * k,
            m >= 1,
    ;
}

/// A vector rescaled to a length of at least two is not zero: its greater
/// component is at least half as long as the length asked for, less one.
pub proof fn lemma_rescaled_not_zero(d: Vector, length: int)
    requires
        d != Vector::zero(),
        length >= 2,
    ensures
        d.rescaled(length) != Vector::zero(),
{
    let n = d.norm_sq();
    let l = ceil_sqrt(n);
    lemma_ceil_sqrt_exists(n);
    let ax = vstd::math::abs(d.x);
    let ay = vstd::math::abs(d.y);
    let m = if ax >= ay { ax } else { ay };
    assert(1 <= n <= 2 * (m * m)) by (nonlinear_arith)
        requires
            n == d.x * d.x + d.y * d.y,
            d.x != 0 || d.y != 0,
            m >= d.x,
            m >= -d.x,
            m >= d.y,
            m >= -d.y,
    ;
    assert(1 <= l <= 2 * m) by (nonlinear_arith)
        requires
            l >= 0,
            1 <= n <= l * l,
            l > 0 ==> (l - 1) * (l - 1) < n,
            n <= 2 * (m * m),
            m >= 1,
    ;
    let c = if ax >= ay { d.x } else { d.y };
    let q = div_toward_zero(c * length, l);
    lemma_div_toward_zero(c * length, l);
    assert(q != 0) by (nonlinear_arith)
        requires
            c == m || c == -m,
            m >= 1,
            length >= 2,
            1 <= l <= 2 * m,
            c * length >= 0 ==> c * length < (q + 1) * l,
            c * length <= 0 ==> (q - 1) * l < c * length,
    ;
}

/// The stored vector with the given components, where they fit.
pub fn narrow(x: i128, y: i128) -> (r: Option<Vec2>)
    ensures
        r == narrowed(vector(x as int, y as int)),
{
    if -0x8000_0000 <= x && x <= 0x7fff_ffff && -0x8000_0000 <= y && y <= 0x7fff_ffff {
        Some(Vec2 { x: x as i32, y: y as i32 })
    } else {
        None
    }
}

/// The exact product of two stored scalars; its magnitude is at most `2^62`.
pub fn mul_wide(a: i32, b: i32) -> (r: i64)
    ensures
        r == a * b,
        -0x4000_0000_0000_0000 <= r <= 0x4000_0000_0000_0000,
{
    assert(-0x4000_0000_0000_0000 <= a * b <= 0x4000_0000_0000_0000) by (nonlinear_arith)
        requires
            -0x8000_0000 <= a <= 0x7fff_ffff,
            -0x8000_0000 <= b <= 0x7fff_ffff,
    ;
    (a as i64) * (b as i64)
}

/// The quotient of `a` by a positive `b`, rounded toward zero.
pub fn div_round_zero(a: i128, b: i128) -> (r: i128)
    requires
        b > 0,
    ensures
        r == div_toward_zero(a as int, b as int),
{
    a / b
}

/// The vector `(dx, dy)` rescaled to `length`.
pub(crate) fn rescale(dx: i64, dy: i64, length: i64) -> (r: (i128, i128))
    requires
        dx != 0 || dy != 0,
        -0x1_0000_0000 <= dx <= 0x1_0000_0000,
        -0x1_0000_0000 <= dy <= 0x1_0000_0000,
        -0x4000_0000_0000_0000 <= length <= 0x4000_0000_0000_0000,
    ensures
        vector(r.0 as int, r.1 as int) == vector(dx as int, dy as int).rescaled(length as int),
        -length <= r.0 <= length || length <= r.0 <= -length,
        -length <= r.1 <= length || length <= r.1 <= -length,
{
    let ghost d = vector(dx as int, dy as int);
    let x: i128 = dx as i128;
    let y: i128 = dy as i128;
    let s: i128 = length as i128;
    assert(0 <= x * x <= 0x1_0000_0000_0000_0000 && 0 <= y * y <= 0x1_0000_0000_0000_0000 && 1 <= x
        * x + y * y) by (nonlinear_arith)
        requires
            x != 0 || y != 0,
            -0x1_0000_0000 <= x <= 0x1_0000_0000,
            -0x1_0000_0000 <= y <= 0x1_0000_0000,
    ;
    let n: i128 = x * x + y * y;
    let l: u128 = ceil_sqrt_of(n as u128);
    assert(1 <= l <= 0x2_0000_0000) by (nonlinear_arith)
        requires
            1 <= n <= 0x2_0000_0000_0000_0000,
            is_ceil_sqrt(n as int, l as int),
    ;
    assert(-0x4000_0000_0000_0000_0000_0000 <= x * s <= 0x4000_0000_0000_0000_0000_0000
        && -0x4000_0000_0000_0000_0000_0000 <= y * s <= 0x4000_0000_0000_0000_0000_0000)
        by (nonlinear_arith)
        requires
            -0x1_0000_0000 <= x <= 0x1_0000_0000,
            -0x1_0000_0000 <= y <= 0x1_0000_0000,
            -0x4000_0000_0000_0000 <= s <= 0x4000_0000_0000_0000,
    ;
    let qx: i128 = div_round_zero(x * s, l as i128);
    let qy: i128 = div_round_zero(y * s, l as i128);
    proof {
        lemma_rescaled_within(d, length as int);
        assert(d.rescaled(length as int) == vector(qx as int, qy as int));
        assert((-s <= qx <= s || s <= qx <= -s) && (-s <= qy <= s || s <= qy <= -s))
            by (nonlinear_arith)
            requires
                qx * qx + qy * qy <= s * s,
        ;
    }
    (qx, qy)
}

impl Vec2 {
    /// The vector of the given length that points from `self` toward
    /// `target`, each component rounded toward zero. `None` where the two
    /// points coincide or the result is not representable.
    pub fn toward(self, target: Vec2, length: i32) -> (r: Option<Vec2>)
        ensures
            r == (if self@ == target@ {
                None
            } else {
                narrowed(target@.minus(self@).rescaled(length as int))
            }),
    {
        let dx: i64 = target.x as i64 - self.x as i64;
        let dy: i64 = target.y as i64 - self.y as i64;
        if dx == 0 && dy == 0 {
            return None;
        }
        let q = rescale(dx, dy, length as i64);
        narrow(q.0, q.1)
    }
}

} // verus!
