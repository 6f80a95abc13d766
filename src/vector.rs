use vstd::prelude::*;

use crate::math::{isqrt, isqrt_spec, lemma_isqrt_unique};

verus! {

/// A geometric three-dimensional vector.
///
/// Scene geometry uses integer lattice coordinates (`Vec3i`): every
/// operation below is exact, and the contracts say exactly what it returns.
#[derive(Clone, Copy, Debug, PartialEq, Eq, Structural, Default)]
pub struct Vec3<T> {
    pub x: T,
    pub y: T,
    pub z: T,
}

pub type Point3<T> = Vec3<T>;

pub type Vec3i = Vec3<i64>;

pub type Point3i = Vec3i;

pub type Color3i = Vec3i;

/// Largest magnitude of a component that products of two vectors accept:
/// the square of it, three times over, still fits in an `i64`.
pub const PRODUCT_LIMIT: i64 = 1_500_000_000;

/// The fixed-point one of unit vectors: a normalized vector has length
/// about `UNIT`.
pub const UNIT: i64 = 1024;

/// Quotient of `a` by `b`, rounded toward zero as Rust's integer `/` does.
pub open spec fn trunc_div(a: int, b: int) -> int {
    if a >= 0 {
        a / b
    } else {
        -((-a) / b)
    }
}

/// Whether an integer fits in an `i64`.
pub open spec fn fits(v: int) -> bool {
    i64::MIN <= v <= i64::MAX
}

impl<T> Vec3<T> {
    pub fn new(x: T, y: T, z: T) -> (r: Self)
        ensures
            r.x == x,
            r.y == y,
            r.z == z,
    {
        Self { x, y, z }
    }

    /// Converts each component into another type.
    pub fn into<U: From<T>>(self) -> (r: Vec3<U>)
        ensures
            call_ensures(U::from, (self.x,), r.x),
            call_ensures(U::from, (self.y,), r.y),
            call_ensures(U::from, (self.z,), r.z),
    {
        Vec3::new(U::from(self.x), U::from(self.y), U::from(self.z))
    }
}

impl Vec3<i64> {
    /// Every component lies in `[-m, m]`.
    pub open spec fn bounded(self, m: int) -> bool {
        -m <= self.x <= m && -m <= self.y <= m && -m <= self.z <= m
    }

    pub open spec fn dot_spec(self, rhs: Self) -> int {
        self.x * rhs.x + self.y * rhs.y + self.z * rhs.z
    }

    pub open spec fn length_sq_spec(self) -> int {
        self.dot_spec(self)
    }

    /// The Euclidean length, rounded down to an integer.
    pub open spec fn length_spec(self) -> int {
        isqrt_spec(self.length_sq_spec())
    }

    pub open spec fn cross_spec(self, rhs: Self) -> Self {
        Vec3 {
            x: (self.y * rhs.z - self.z * rhs.y) as i64,
            y: (self.z * rhs.x - self.x * rhs.z) as i64,
            z: (self.x * rhs.y - self.y * rhs.x) as i64,
        }
    }

    /// The unit vector in fixed point: each component times `UNIT`, divided
    /// by the length, rounded toward zero; the zero vector is its own
    /// normalization.
    pub open spec fn normalize_spec(self) -> Self {
        let l = self.length_spec();
        if l == 0 {
            self
        } else {
            Vec3 {
                x: trunc_div(self.x * UNIT, l) as i64,
                y: trunc_div(self.y * UNIT, l) as i64,
                z: trunc_div(self.z * UNIT, l) as i64,
            }
        }
    }

    pub open spec fn scale_spec(self, s: int) -> Self {
        Vec3 { x: (self.x * s) as i64, y: (self.y * s) as i64, z: (self.z * s) as i64 }
    }

    pub fn dot(&self, rhs: &Self) -> (r: i64)
        requires
            self.bounded(PRODUCT_LIMIT as int),
            rhs.bounded(PRODUCT_LIMIT as int),
        ensures
            r == self.dot_spec(*rhs),
    {
        proof {
            lemma_product_bound(self.x as int, rhs.x as int);
            lemma_product_bound(self.y as int, rhs.y as int);
            lemma_product_bound(self.z as int, rhs.z as int);
        }
        self.x * rhs.x + self.y * rhs.y + self.z * rhs.z
    }

    pub fn length_sq(&self) -> (r: i64)
        requires
            self.bounded(PRODUCT_LIMIT as int),
        ensures
            r == self.length_sq_spec(),
            r >= 0,
    {
        proof {
            lemma_square_nonneg(self.x as int);
            lemma_square_nonneg(self.y as int);
            lemma_square_nonneg(self.z as int);
        }
        self.dot(self)
    }

    /// The Euclidean length, rounded down.
    pub fn length(&self) -> (r: i64)
        requires
            self.bounded(PRODUCT_LIMIT as int),
        ensures
            r == self.length_spec(),
            r >= 0,
            r as int * r as int <= self.length_sq_spec() < (r as int + 1) * (r as int + 1),
    {
        let sq = self.length_sq();
        let s = isqrt(sq as u128);
        proof {
            lemma_product_bound(self.x as int, self.x as int);
            lemma_product_bound(self.y as int, self.y as int);
            lemma_product_bound(self.z as int, self.z as int);
            lemma_isqrt_unique(sq as int, s as int);
            assert(s < 3_000_000_000) by (nonlinear_arith)
                requires
                    s * s <= sq,
                    sq <= 7_000_000_000_000_000_000int,
            ;
        }
        s as i64
    }

    /// The vector scaled to length `UNIT`, as far as integers allow: each
    /// component times `UNIT`, divided by the rounded-down length.
    pub fn normalize(&self) -> (r: Self)
        requires
            self.bounded(PRODUCT_LIMIT as int),
        ensures
            r == self.normalize_spec(),
            r.bounded(UNIT as int) || r == *self,
    {
        let l = self.length();
        if l == 0 {
            *self
        } else {
            proof {
                lemma_square_nonneg(self.x as int);
                lemma_square_nonneg(self.y as int);
                lemma_square_nonneg(self.z as int);
                lemma_component_within_length(self.x as int, self.length_sq_spec(), l as int);
                lemma_component_within_length(self.y as int, self.length_sq_spec(), l as int);
                lemma_component_within_length(self.z as int, self.length_sq_spec(), l as int);
                lemma_scaled_quotient(self.x as int, l as int);
                lemma_scaled_quotient(self.y as int, l as int);
                lemma_scaled_quotient(self.z as int, l as int);
            }
            Self::new(self.x * UNIT / l, self.y * UNIT / l, self.z * UNIT / l)
        }
    }

    pub fn cross(&self, rhs: &Self) -> (r: Self)
        requires
            self.bounded(PRODUCT_LIMIT as int),
            rhs.bounded(PRODUCT_LIMIT as int),
        ensures
            r == self.cross_spec(*rhs),
    {
        proof {
            lemma_product_bound(self.y as int, rhs.z as int);
            lemma_product_bound(self.z as int, rhs.y as int);
            lemma_product_bound(self.z as int, rhs.x as int);
            lemma_product_bound(self.x as int, rhs.z as int);
            lemma_product_bound(self.x as int, rhs.y as int);
            lemma_product_bound(self.y as int, rhs.x as int);
        }
        Self::new(
            self.y * rhs.z - self.z * rhs.y,
            self.z * rhs.x - self.x * rhs.z,
            self.x * rhs.y - self.y * rhs.x,
        )
    }
}

proof fn lemma_product_bound(a: int, b: int)
    requires
        -PRODUCT_LIMIT <= a <= PRODUCT_LIMIT,
        -PRODUCT_LIMIT <= b <= PRODUCT_LIMIT,
    ensures
        -2_250_000_000_000_000_000 <= a * b <= 2_250_000_000_000_000_000,
{
    assert(-2_250_000_000_000_000_000 <= a * b <= 2_250_000_000_000_000_000) by (nonlinear_arith)
        requires
            -1_500_000_000 <= a <= 1_500_000_000,
            -1_500_000_000 <= b <= 1_500_000_000,
    ;
}

/// A dot product of bounded vectors is bounded.
pub proof fn lemma_dot_bound(u: Vec3<i64>, v: Vec3<i64>, m: int, n: int)
    requires
        u.bounded(m),
        v.bounded(n),
    ensures
        -(3 * m * n) <= u.dot_spec(v) <= 3 * m * n,
{
    assert(-(m * n) <= u.x * v.x <= m * n) by (nonlinear_arith)
        requires
            -m <= u.x <= m,
            -n <= v.x <= n,
    ;
    assert(-(m * n) <= u.y * v.y <= m * n) by (nonlinear_arith)
        requires
            -m <= u.y <= m,
            -n <= v.y <= n,
    ;
    assert(-(m * n) <= u.z * v.z <= m * n) by (nonlinear_arith)
        requires
            -m <= u.z <= m,
            -n <= v.z <= n,
    ;
    assert(3 * m * n == m * n + m * n + m * n) by (nonlinear_arith);
}

/// A component is at most the rounded-down length in magnitude.
proof fn lemma_component_within_length(x: int, sq: int, l: int)
    requires
        x * x <= sq,
        0 <= l,
        sq < (l + 1) * (l + 1),
    ensures
        -l <= x <= l,
{
    if x > l {
        assert(x * x >= (l + 1) * (l + 1)) by (nonlinear_arith)
            requires
                x >= l + 1,
                l >= 0,
        ;
    }
    if x < -l {
        assert(x * x >= (l + 1) * (l + 1)) by (nonlinear_arith)
            requires
                -x >= l + 1,
                l >= 0,
        ;
    }
}

/// `x·UNIT / l` rounded toward zero stays within `UNIT` for `|x| ≤ l`.
proof fn lemma_scaled_quotient(x: int, l: int)
    requires
        0 < l,
        -l <= x <= l,
    ensures
        -UNIT <= trunc_div(x * UNIT, l) <= UNIT,
{
    if x >= 0 {
        assert(0 <= (x * 1024) / l <= 1024) by (nonlinear_arith)
            requires
                0 < l,
                0 <= x <= l,
        ;
    } else {
        assert(0 <= (-(x * 1024)) / l <= 1024) by (nonlinear_arith)
            requires
                0 < l,
                -l <= x < 0,
        ;
    }
}

proof fn lemma_square_nonneg(a: int)
    ensures
        a * a >= 0,
{
    assert(a * a >= 0) by (nonlinear_arith);
}

impl std::ops::Neg for Vec3<i64> {
    type Output = Self;

    fn neg(self) -> (r: Self) {
        Self::new(-self.x, -self.y, -self.z)
    }
}

impl vstd::std_specs::ops::NegSpecImpl for Vec3<i64> {
    open spec fn obeys_neg_spec() -> bool {
        true
    }

    open spec fn neg_req(self) -> bool {
        self.x != i64::MIN && self.y != i64::MIN && self.z != i64::MIN
    }

    open spec fn neg_spec(self) -> Self {
        Vec3 { x: (-self.x) as i64, y: (-self.y) as i64, z: (-self.z) as i64 }
    }
}

impl std::ops::Add for Vec3<i64> {
    type Output = Self;

    fn add(self, other: Self) -> (r: Self) {
        Self::new(self.x + other.x, self.y + other.y, self.z + other.z)
    }
}

impl vstd::std_specs::ops::AddSpecImpl for Vec3<i64> {
    open spec fn obeys_add_spec() -> bool {
        true
    }

    open spec fn add_req(self, rhs: Self) -> bool {
        fits(self.x + rhs.x) && fits(self.y + rhs.y) && fits(self.z + rhs.z)
    }

    open spec fn add_spec(self, rhs: Self) -> Self {
        Vec3 { x: (self.x + rhs.x) as i64, y: (self.y + rhs.y) as i64, z: (self.z + rhs.z) as i64 }
    }
}

impl std::ops::Sub for Vec3<i64> {
    type Output = Self;

    fn sub(self, other: Self) -> (r: Self) {
        Self::new(self.x - other.x, self.y - other.y, self.z - other.z)
    }
}

impl vstd::std_specs::ops::SubSpecImpl for Vec3<i64> {
    open spec fn obeys_sub_spec() -> bool {
        true
    }

    open spec fn sub_req(self, rhs: Self) -> bool {
        fits(self.x - rhs.x) && fits(self.y - rhs.y) && fits(self.z - rhs.z)
    }

    open spec fn sub_spec(self, rhs: Self) -> Self {
        Vec3 { x: (self.x - rhs.x) as i64, y: (self.y - rhs.y) as i64, z: (self.z - rhs.z) as i64 }
    }
}

/// Hadamard product
impl std::ops::Mul for Vec3<i64> {
    type Output = Self;

    fn mul(self, other: Self) -> (r: Self) {
        Self::new(self.x * other.x, self.y * other.y, self.z * other.z)
    }
}

impl vstd::std_specs::ops::MulSpecImpl for Vec3<i64> {
    open spec fn obeys_mul_spec() -> bool {
        true
    }

    open spec fn mul_req(self, rhs: Self) -> bool {
        fits(self.x * rhs.x) && fits(self.y * rhs.y) && fits(self.z * rhs.z)
    }

    open spec fn mul_spec(self, rhs: Self) -> Self {
        Vec3 { x: (self.x * rhs.x) as i64, y: (self.y * rhs.y) as i64, z: (self.z * rhs.z) as i64 }
    }
}

/// Scalar multiplication
impl std::ops::Mul<i64> for Vec3<i64> {
    type Output = Self;

    fn mul(self, scalar: i64) -> (r: Self) {
        Self::new(self.x * scalar, self.y * scalar, self.z * scalar)
    }
}

impl vstd::std_specs::ops::MulSpecImpl<i64> for Vec3<i64> {
    open spec fn obeys_mul_spec() -> bool {
        true
    }

    open spec fn mul_req(self, scalar: i64) -> bool {
        fits(self.x * scalar) && fits(self.y * scalar) && fits(self.z * scalar)
    }

    open spec fn mul_spec(self, scalar: i64) -> Self {
        self.scale_spec(scalar as int)
    }
}

/// Inverse Hadamard product
impl std::ops::Div for Vec3<i64> {
    type Output = Self;

    fn div(self, other: Self) -> (r: Self) {
        Self::new(self.x / other.x, self.y / other.y, self.z / other.z)
    }
}

impl vstd::std_specs::ops::DivSpecImpl for Vec3<i64> {
    open spec fn obeys_div_spec() -> bool {
        true
    }

    open spec fn div_req(self, rhs: Self) -> bool {
        rhs.x != 0 && rhs.y != 0 && rhs.z != 0 && self.x != i64::MIN && self.y != i64::MIN
            && self.z != i64::MIN
    }

    open spec fn div_spec(self, rhs: Self) -> Self {
        Vec3 {
            x: trunc_div(self.x as int, rhs.x as int) as i64,
            y: trunc_div(self.y as int, rhs.y as int) as i64,
            z: trunc_div(self.z as int, rhs.z as int) as i64,
        }
    }
}

/// Scalar division
impl std::ops::Div<i64> for Vec3<i64> {
    type Output = Self;

    fn div(self, scalar: i64) -> (r: Self) {
        Self::new(self.x / scalar, self.y / scalar, self.z / scalar)
    }
}

impl vstd::std_specs::ops::DivSpecImpl<i64> for Vec3<i64> {
    open spec fn obeys_div_spec() -> bool {
        true
    }

    open spec fn div_req(self, scalar: i64) -> bool {
        scalar != 0 && self.x != i64::MIN && self.y != i64::MIN && self.z != i64::MIN
    }

    open spec fn div_spec(self, scalar: i64) -> Self {
        Vec3 {
            x: trunc_div(self.x as int, scalar as int) as i64,
            y: trunc_div(self.y as int, scalar as int) as i64,
            z: trunc_div(self.z as int, scalar as int) as i64,
        }
    }
}

} // verus!
