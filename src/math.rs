use vstd::prelude::*;

verus! {

/// `r` is the square root of `n` rounded down.
pub open spec fn is_isqrt(n: int, r: int) -> bool {
    0 <= r && r * r <= n < (r + 1) * (r + 1)
}

/// The square root of a nonnegative integer, rounded down.
pub open spec fn isqrt_spec(n: int) -> int {
    choose|r: int| is_isqrt(n, r)
}

/// The rounded-down square root is unique, so it is the one `isqrt_spec` picks.
pub proof fn lemma_isqrt_unique(n: int, r: int)
    requires
        is_isqrt(n, r),
    ensures
        isqrt_spec(n) == r,
{
    let s = isqrt_spec(n);
    assert(is_isqrt(n, s));
    if s < r {
        assert((s + 1) * (s + 1) <= r * r) by (nonlinear_arith)
            requires
                0 <= s < r,
        ;
    } else if s > r {
        assert((r + 1) * (r + 1) <= s * s) by (nonlinear_arith)
            requires
                0 <= r < s,
        ;
    }
}

/// Every nonnegative integer has a rounded-down square root.
pub proof fn lemma_isqrt_exists(n: int)
    requires
        n >= 0,
    ensures
        is_isqrt(n, isqrt_spec(n)),
    decreases n,
{
    if n == 0 {
        assert(is_isqrt(0, 0));
    } else {
        lemma_isqrt_exists(n - 1);
        let r = isqrt_spec(n - 1);
        if (r + 1) * (r + 1) <= n {
            assert(n < (r + 2) * (r + 2)) by (nonlinear_arith)
                requires
                    n - 1 < (r + 1) * (r + 1),
                    r >= 0,
            ;
            assert(is_isqrt(n, r + 1));
        } else {
            assert(is_isqrt(n, r));
        }
    }
}

/// The square root of `n`, rounded down, by bisection.
pub fn isqrt(n: u128) -> (r: u64)
    ensures
        is_isqrt(n as int, r as int),
{
    let mut lo: u128 = 0;
    let mut hi: u128 = 0x1_0000_0000_0000_0000;
    while hi - lo > 1
        invariant
            lo < hi <= 0x1_0000_0000_0000_0000,
            lo * lo <= n,
            n < hi * hi,
        decreases hi - lo,
    {
        let mid = lo + (hi - lo) / 2;
        assert(mid * mid <= u128::MAX) by (nonlinear_arith)
            requires
                mid < 0x1_0000_0000_0000_0000,
        ;
        if mid * mid <= n {
            lo = mid;
        } else {
            hi = mid;
        }
    }
    lo as u64
}

} // verus!

verus! {

/// Largest magnitude of a coefficient that `solve_quadratic` accepts: with it
/// the discriminant fits in an `i128` and every root in an `i64`.
pub const COEFFICIENT_LIMIT: i64 = 1_152_921_504_606_846_976;

/// The real roots of a quadratic, each rounded down to an integer.
#[derive(Debug, PartialEq, Eq, Structural)]
pub enum QuadraticSolution {
    Zero,
    One { x: i64 },
    Two { x1: i64, x2: i64 },
}

pub open spec fn discriminant(a: int, b: int, c: int) -> int {
    b * b - 4 * a * c
}

/// The square root of a nonnegative integer, rounded up.
pub open spec fn ceil_sqrt(n: int) -> int {
    let s = isqrt_spec(n);
    if s * s == n {
        s
    } else {
        s + 1
    }
}

/// The classification of `a·x² + b·x + c = 0` by its discriminant `D`, with
/// the roots `(−b ∓ √D) / 2a` rounded down: `⌊−b − √D⌋ = −b − ⌈√D⌉` and
/// `⌊−b + √D⌋ = −b + ⌊√D⌋`, and rounding those down again after dividing by
/// `2a > 0` rounds the exact roots down. The coefficients are first
/// brought to `a > 0` (negating all three keeps the roots), so that the
/// root with `−√D` is never the larger one.
pub open spec fn solution_spec(a: int, b: int, c: int) -> QuadraticSolution {
    let (a, b, c) = if a < 0 {
        (-a, -b, -c)
    } else {
        (a, b, c)
    };
    let d = discriminant(a, b, c);
    if d < 0 {
        QuadraticSolution::Zero
    } else if d == 0 {
        QuadraticSolution::One { x: ((-b) / (2 * a)) as i64 }
    } else {
        QuadraticSolution::Two {
            x1: ((-b - ceil_sqrt(d)) / (2 * a)) as i64,
            x2: ((-b + isqrt_spec(d)) / (2 * a)) as i64,
        }
    }
}

/// `n / d` rounded down.
fn floor_div(n: i128, d: i128) -> (r: i128)
    requires
        0 < d <= 0x1_0000_0000_0000_0000,
        -0x1_0000_0000_0000_0000 <= n <= 0x1_0000_0000_0000_0000,
    ensures
        r == n / d,
{
    if n >= 0 {
        n / d
    } else {
        let q = (-n + d - 1) / d;
        proof {
            let m: int = -n;
            assert(d * q <= m + d - 1 < d * (q + 1)) by (nonlinear_arith)
                requires
                    q == (m + d - 1) / (d as int),
                    d > 0,
                    m > 0,
            ;
            assert(d * (-q) <= n < d * (-q + 1)) by (nonlinear_arith)
                requires
                    d * q <= m + d - 1 < d * (q + 1),
                    n == -m,
            ;
            lemma_floor_div_unique(n as int, d as int, -q);
        }
        -q
    }
}

proof fn lemma_floor_div_unique(n: int, d: int, q: int)
    requires
        d > 0,
        d * q <= n < d * (q + 1),
    ensures
        q == n / d,
{
    let e = n / d;
    assert(d * e <= n < d * (e + 1)) by (nonlinear_arith)
        requires
            d > 0,
            e == n / d,
    ;
    if e < q {
        assert(d * (e + 1) <= d * q) by (nonlinear_arith)
            requires
                d > 0,
                e < q,
        ;
    } else if e > q {
        assert(d * (q + 1) <= d * e) by (nonlinear_arith)
            requires
                d > 0,
                q < e,
        ;
    }
}

/// Solves `a·x² + b·x + c = 0` over the integers.
///
/// A negative discriminant gives `Zero`, a zero one the single root
/// `−b / 2a`, a positive one the two roots with `x1 ≤ x2`; roots are rounded
/// down, so two real roots within one unit interval give equal rounded
/// roots. A degenerate quadratic (`a = 0`) is refused by the precondition.
pub fn solve_quadratic(a: i64, b: i64, c: i64) -> (r: QuadraticSolution)
    requires
        a != 0,
        -COEFFICIENT_LIMIT <= a <= COEFFICIENT_LIMIT,
        -COEFFICIENT_LIMIT <= b <= COEFFICIENT_LIMIT,
        -COEFFICIENT_LIMIT <= c <= COEFFICIENT_LIMIT,
    ensures
        r == solution_spec(a as int, b as int, c as int),
        discriminant(a as int, b as int, c as int) < 0 <==> r is Zero,
        discriminant(a as int, b as int, c as int) == 0 <==> r is One,
        r is Two ==> r->x1 <= r->x2,
{
    proof {
        lemma_discriminant_negated(a as int, b as int, c as int);
    }
    let (a, b, c): (i128, i128, i128) = if a < 0 {
        (-(a as i128), -(b as i128), -(c as i128))
    } else {
        (a as i128, b as i128, c as i128)
    };
    assert(0 < a <= 0x1000_0000_0000_0000);
    assert(-0x1000_0000_0000_0000 <= b <= 0x1000_0000_0000_0000);
    assert(-0x1000_0000_0000_0000 <= c <= 0x1000_0000_0000_0000);
    proof {
        assert(0 <= b * b <= 0x100_0000_0000_0000_0000_0000_0000_0000) by (nonlinear_arith)
            requires
                -0x1000_0000_0000_0000 <= b <= 0x1000_0000_0000_0000,
        ;
        assert(-0x400_0000_0000_0000_0000_0000_0000_0000 <= (4 * a) * c
            <= 0x400_0000_0000_0000_0000_0000_0000_0000) by (nonlinear_arith)
            requires
                0 < a <= 0x1000_0000_0000_0000,
                -0x1000_0000_0000_0000 <= c <= 0x1000_0000_0000_0000,
        ;
    }
    let d = b * b - 4 * a * c;
    if d < 0 {
        QuadraticSolution::Zero
    } else if d == 0 {
        let x = floor_div(-b, 2 * a);
        proof {
            lemma_quotient_bound(-b as int, 2 * a as int);
        }
        QuadraticSolution::One { x: x as i64 }
    } else {
        let s = isqrt(d as u128);
        proof {
            lemma_isqrt_unique(d as int, s as int);
            if s >= 0x4000_0000_0000_0000 {
                assert(s * s >= 0x1000_0000_0000_0000_0000_0000_0000_0000) by (nonlinear_arith)
                    requires
                        s >= 0x4000_0000_0000_0000,
                ;
            }
        }
        let s = s as i128;
        let up = if s * s == d {
            s
        } else {
            s + 1
        };
        let x1 = floor_div(-b - up, 2 * a);
        let x2 = floor_div(-b + s, 2 * a);
        proof {
            lemma_quotient_bound(-b - up, 2 * a as int);
            lemma_quotient_bound(-b + s, 2 * a as int);
            lemma_floor_div_monotone(-b - up, -b + s, 2 * a as int);
        }
        QuadraticSolution::Two { x1: x1 as i64, x2: x2 as i64 }
    }
}

pub proof fn lemma_discriminant_negated(a: int, b: int, c: int)
    ensures
        discriminant(-a, -b, -c) == discriminant(a, b, c),
{
    assert((-b) * (-b) == b * b) by (nonlinear_arith);
    assert(4 * (-a) * (-c) == 4 * a * c) by (nonlinear_arith);
}

proof fn lemma_quotient_bound(n: int, d: int)
    requires
        d >= 1,
        -0x7000_0000_0000_0000 <= n <= 0x7000_0000_0000_0000,
    ensures
        -0x7000_0000_0000_0000 <= n / d <= 0x7000_0000_0000_0000,
{
    assert(-0x7000_0000_0000_0000 <= n / d <= 0x7000_0000_0000_0000) by (nonlinear_arith)
        requires
            d >= 1,
            -0x7000_0000_0000_0000 <= n <= 0x7000_0000_0000_0000,
    ;
}

proof fn lemma_floor_div_monotone(m: int, n: int, d: int)
    requires
        d > 0,
        m <= n,
    ensures
        m / d <= n / d,
{
    vstd::arithmetic::div_mod::lemma_div_is_ordered(m, n, d);
}

} // verus!

verus! {

/// Where the quadratic has whole-number roots `r1 ≤ r2`, that is
/// `a·x² + b·x + c = a·(x − r1)·(x − r2)` with `a > 0`, the solver returns
/// exactly them (one root where they coincide), and each makes the
/// polynomial vanish.
pub proof fn lemma_whole_roots(a: int, r1: int, r2: int)
    requires
        0 < a,
        r1 <= r2,
        i64::MIN <= r1,
        r2 <= i64::MAX,
    ensures
        ({
            let b = -a * (r1 + r2);
            let c = a * r1 * r2;
            &&& a * r1 * r1 + b * r1 + c == 0
            &&& a * r2 * r2 + b * r2 + c == 0
            &&& r1 == r2 ==> solution_spec(a, b, c) == QuadraticSolution::One { x: r1 as i64 }
            &&& r1 < r2 ==> solution_spec(a, b, c) == QuadraticSolution::Two {
                x1: r1 as i64,
                x2: r2 as i64,
            }
        }),
{
    let b = -a * (r1 + r2);
    let c = a * r1 * r2;
    let s = a * (r2 - r1);
    assert(a * r1 * r1 + b * r1 + c == 0 && a * r2 * r2 + b * r2 + c == 0) by (nonlinear_arith)
        requires
            b == -a * (r1 + r2),
            c == a * r1 * r2,
    ;
    assert(discriminant(a, b, c) == s * s) by (nonlinear_arith)
        requires
            b == -a * (r1 + r2),
            c == a * r1 * r2,
            s == a * (r2 - r1),
    ;
    assert(s >= 0) by (nonlinear_arith)
        requires
            a > 0,
            r1 <= r2,
            s == a * (r2 - r1),
    ;
    assert(s * s < (s + 1) * (s + 1)) by (nonlinear_arith)
        requires
            s >= 0,
    ;
    lemma_isqrt_unique(s * s, s);
    assert(-b - s == 2 * a * r1 && -b + s == 2 * a * r2 && -b == a * (r1 + r2)) by (nonlinear_arith)
        requires
            b == -a * (r1 + r2),
            s == a * (r2 - r1),
    ;
    vstd::arithmetic::div_mod::lemma_div_multiples_vanish(r1, 2 * a);
    vstd::arithmetic::div_mod::lemma_div_multiples_vanish(r2, 2 * a);
    if r1 == r2 {
        assert(s == 0) by (nonlinear_arith)
            requires
                s == a * (r2 - r1),
                r1 == r2,
        ;
        assert(-b == 2 * a * r1);
        assert(s * s == 0) by (nonlinear_arith)
            requires
                s == 0,
        ;
        assert(discriminant(a, b, c) == 0);
        assert((-b) / (2 * a) == r1);
    } else {
        assert(s > 0) by (nonlinear_arith)
            requires
                a > 0,
                r1 < r2,
                s == a * (r2 - r1),
        ;
        assert(s * s > 0) by (nonlinear_arith)
            requires
                s > 0,
        ;
        assert(isqrt_spec(discriminant(a, b, c)) == s);
        assert(ceil_sqrt(discriminant(a, b, c)) == s);
        assert((-b - s) / (2 * a) == r1);
        assert((-b + s) / (2 * a) == r2);
    }
}

} // verus!

verus! {

/// `x ≤ (−b + √d) / 2a < x + 1` for `a > 0`: `x` is the larger root,
/// rounded down. Stated without square roots: `2a·x + b ≤ √d < 2a·(x+1) + b`.
pub open spec fn floors_upper_root(a: int, b: int, d: int, x: int) -> bool {
    let lo = 2 * a * x + b;
    let hi = 2 * a * (x + 1) + b;
    &&& lo <= 0 || lo * lo <= d
    &&& hi > 0 && hi * hi > d
}

/// `x ≤ (−b − √d) / 2a < x + 1` for `a > 0`: `x` is the smaller root,
/// rounded down. Stated without square roots: `2a·x + b ≤ −√d < 2a·(x+1) + b`.
pub open spec fn floors_lower_root(a: int, b: int, d: int, x: int) -> bool {
    let lo = 2 * a * x + b;
    let hi = 2 * a * (x + 1) + b;
    &&& lo <= 0 && lo * lo >= d
    &&& hi > 0 || hi * hi < d
}

/// Every root that the solver returns is the exact real root rounded down:
/// for `a > 0` the single root of a zero discriminant, and the smaller and
/// the larger of two roots, each lie within one below the real value.
pub proof fn lemma_roots_rounded_down(a: int, b: int, c: int)
    requires
        0 < a <= COEFFICIENT_LIMIT,
        -COEFFICIENT_LIMIT <= b <= COEFFICIENT_LIMIT,
        -COEFFICIENT_LIMIT <= c <= COEFFICIENT_LIMIT,
    ensures
        ({
            let d = discriminant(a, b, c);
            match solution_spec(a, b, c) {
                QuadraticSolution::Zero => d < 0,
                QuadraticSolution::One { x } => d == 0 && floors_lower_root(a, b, d, x as int)
                    && floors_upper_root(a, b, d, x as int),
                QuadraticSolution::Two { x1, x2 } => d > 0 && floors_lower_root(a, b, d, x1 as int)
                    && floors_upper_root(a, b, d, x2 as int),
            }
        }),
{
    let d = discriminant(a, b, c);
    assert(0 <= b * b <= 0x100_0000_0000_0000_0000_0000_0000_0000) by (nonlinear_arith)
        requires
            -0x1000_0000_0000_0000 <= b <= 0x1000_0000_0000_0000,
    ;
    assert(-0x400_0000_0000_0000_0000_0000_0000_0000 <= (4 * a) * c
        <= 0x400_0000_0000_0000_0000_0000_0000_0000) by (nonlinear_arith)
        requires
            0 < a <= 0x1000_0000_0000_0000,
            -0x1000_0000_0000_0000 <= c <= 0x1000_0000_0000_0000,
    ;
    if d >= 0 {
        lemma_isqrt_exists(d);
        let s = isqrt_spec(d);
        if s > 0x4000_0000_0000_0000 {
            assert(s * s > 0x1000_0000_0000_0000_0000_0000_0000_0000) by (nonlinear_arith)
                requires
                    s > 0x4000_0000_0000_0000,
            ;
        }
        let u = ceil_sqrt(d);
        assert(u * u >= d) by (nonlinear_arith)
            requires
                s >= 0,
                s * s <= d < (s + 1) * (s + 1),
                u == s || u == s + 1,
                u == s ==> s * s == d,
                u == s + 1 ==> s * s != d,
        ;
        assert(d > 0 ==> (u - 1) * (u - 1) < d) by (nonlinear_arith)
            requires
                s >= 0,
                s * s <= d < (s + 1) * (s + 1),
                u == s || u == s + 1,
                u == s ==> s * s == d,
                u == s + 1 ==> s * s != d,
        ;
        assert(u >= 0);
        let m = 2 * a;
        let x1 = (-b - u) / m;
        let x2 = (-b + s) / m;
        lemma_quotient_bound(-b - u, m);
        lemma_quotient_bound(-b + s, m);
        assert(m * x1 <= -b - u < m * (x1 + 1)) by (nonlinear_arith)
            requires
                m > 0,
                x1 == (-b - u) / m,
        ;
        assert(m * x2 <= -b + s < m * (x2 + 1)) by (nonlinear_arith)
            requires
                m > 0,
                x2 == (-b + s) / m,
        ;
        // The larger root.
        let lo2 = m * x2 + b;
        let hi2 = m * (x2 + 1) + b;
        assert(lo2 <= 0 || lo2 * lo2 <= d) by (nonlinear_arith)
            requires
                lo2 <= s,
                s >= 0,
                s * s <= d,
        ;
        assert(hi2 > 0 && hi2 * hi2 > d) by (nonlinear_arith)
            requires
                hi2 >= s + 1,
                s >= 0,
                d < (s + 1) * (s + 1),
        ;
        // The smaller root.
        let lo1 = m * x1 + b;
        let hi1 = m * (x1 + 1) + b;
        assert(lo1 <= 0 && lo1 * lo1 >= d) by (nonlinear_arith)
            requires
                lo1 <= -u,
                u >= 0,
                u * u >= d,
        ;
        assert(d > 0 ==> (hi1 > 0 || hi1 * hi1 < d)) by (nonlinear_arith)
            requires
                hi1 >= 1 - u,
                u >= 0,
                d > 0 ==> (u - 1) * (u - 1) < d,
        ;
        assert(2 * a * x2 + b == lo2 && 2 * a * (x2 + 1) + b == hi2);
        assert(2 * a * x1 + b == lo1 && 2 * a * (x1 + 1) + b == hi1);
        if d == 0 {
            assert(s == 0) by (nonlinear_arith)
                requires
                    s >= 0,
                    s * s <= d,
                    d == 0,
            ;
            assert(u == 0);
            assert(lo2 * lo2 >= d && (hi2 > 0 || hi2 * hi2 < d)) by (nonlinear_arith)
                requires
                    d == 0,
                    lo2 <= 0,
                    hi2 > 0,
            ;
        }
    }
}

} // verus!

verus! {

/// `2a·t + b`. For `a > 0`, `4a·(a·t² + b·t + c) = slope(t)² − D`, and the
/// real roots are where `slope(t) = ∓√D`.
pub open spec fn slope(a: int, b: int, t: int) -> int {
    2 * a * t + b
}

/// For `a > 0` and `d ≥ 0`: the smaller real root `(−b − √d) / 2a` lies in
/// `[m, n]`, that is `slope(m) ≤ −√d ≤ slope(n)`.
pub open spec fn lower_root_within(a: int, b: int, d: int, m: int, n: int) -> bool {
    let gm = slope(a, b, m);
    let gn = slope(a, b, n);
    &&& gm <= 0 && gm * gm >= d
    &&& gn >= 0 || gn * gn <= d
}

/// For `a > 0` and `d ≥ 0`: the larger real root `(−b + √d) / 2a` lies in
/// `[m, n]`, that is `slope(m) ≤ √d ≤ slope(n)`.
pub open spec fn upper_root_within(a: int, b: int, d: int, m: int, n: int) -> bool {
    let gm = slope(a, b, m);
    let gn = slope(a, b, n);
    &&& gm <= 0 || gm * gm <= d
    &&& gn >= 0 && gn * gn >= d
}

/// The whole numbers from `⌈r1⌉` to `⌊r2⌋`, given the rounded-down roots
/// `x1 = ⌊r1⌋` and `x2 = ⌊r2⌋`; `⌈r1⌉` is `x1` exactly where `x1` is the root.
pub open spec fn span_between(a: int, b: int, d: int, x1: int, x2: int) -> Option<(int, int)> {
    let e = if slope(a, b, x1) * slope(a, b, x1) == d {
        x1
    } else {
        x1 + 1
    };
    if e <= x2 {
        Some((e, x2))
    } else {
        None
    }
}

/// For `a > 0`: the first and last whole numbers `t` with
/// `a·t² + b·t + c ≤ 0`, those between the real roots, if there are any.
pub open spec fn span_spec(a: int, b: int, c: int) -> Option<(int, int)> {
    let d = discriminant(a, b, c);
    match solution_spec(a, b, c) {
        QuadraticSolution::Zero => None,
        QuadraticSolution::One { x } => span_between(a, b, d, x as int, x as int),
        QuadraticSolution::Two { x1, x2 } => span_between(a, b, d, x1 as int, x2 as int),
    }
}

proof fn lemma_slope_monotone(a: int, b: int, t: int, u: int)
    requires
        a > 0,
        t <= u,
    ensures
        slope(a, b, t) <= slope(a, b, u),
        t < u ==> slope(a, b, t) + 2 * a <= slope(a, b, u),
{
    assert(2 * a * t <= 2 * a * u) by (nonlinear_arith)
        requires
            a > 0,
            t <= u,
    ;
    assert(t < u ==> 2 * a * t + 2 * a <= 2 * a * u) by (nonlinear_arith)
        requires
            a > 0,
    ;
}

proof fn lemma_square_le(x: int, y: int)
    requires
        0 <= x <= y,
    ensures
        x * x <= y * y,
{
    assert(x * x <= y * y) by (nonlinear_arith)
        requires
            0 <= x <= y,
    ;
}

proof fn lemma_square_lt(x: int, y: int)
    requires
        0 <= x < y,
    ensures
        x * x < y * y,
{
    assert(x * x < y * y) by (nonlinear_arith)
        requires
            0 <= x < y,
    ;
}

/// `4a·(a·t² + b·t + c) = slope(t)² − D`.
proof fn lemma_completed_square(a: int, b: int, c: int, t: int)
    ensures
        4 * a * (a * t * t + b * t + c) == slope(a, b, t) * slope(a, b, t) - discriminant(a, b, c),
{
    assert(4 * a * (a * t * t + b * t + c) == (2 * a * t + b) * (2 * a * t + b) - (b * b - 4 * a
        * c)) by (nonlinear_arith);
}

/// The span holds exactly the whole numbers where the quadratic is not
/// positive: for `a > 0`, `a·t² + b·t + c ≤ 0` if and only if
/// `span_spec` is `(e, x)` with `e ≤ t ≤ x`.
pub proof fn lemma_span_exact(a: int, b: int, c: int, t: int)
    requires
        0 < a <= COEFFICIENT_LIMIT,
        -COEFFICIENT_LIMIT <= b <= COEFFICIENT_LIMIT,
        -COEFFICIENT_LIMIT <= c <= COEFFICIENT_LIMIT,
    ensures
        a * t * t + b * t + c <= 0 <==> (span_spec(a, b, c) matches Some((e, x)) && e <= t <= x),
{
    let d = discriminant(a, b, c);
    let g = slope(a, b, t);
    lemma_completed_square(a, b, c, t);
    lemma_roots_rounded_down(a, b, c);
    assert(a * t * t + b * t + c <= 0 <==> g * g <= d) by (nonlinear_arith)
        requires
            a > 0,
            4 * a * (a * t * t + b * t + c) == g * g - d,
    ;
    assert(g * g >= 0) by (nonlinear_arith);
    if d >= 0 {
        let (x1, x2) = match solution_spec(a, b, c) {
            QuadraticSolution::One { x } => (x as int, x as int),
            QuadraticSolution::Two { x1, x2 } => (x1 as int, x2 as int),
            QuadraticSolution::Zero => (0, 0),
        };
        assert(floors_lower_root(a, b, d, x1) && floors_upper_root(a, b, d, x2));
        let lo = slope(a, b, x1);
        let e = if lo * lo == d {
            x1
        } else {
            x1 + 1
        };
        assert(span_spec(a, b, c) == span_between(a, b, d, x1, x2));
        // e is the smaller root rounded up.
        let ge = slope(a, b, e);
        let gp = slope(a, b, e - 1);
        lemma_slope_monotone(a, b, e - 1, e);
        if lo * lo == d {
            assert(2 * a * (x1 - 1) + b == 2 * a * x1 + b - 2 * a) by (nonlinear_arith);
            assert(gp == lo - 2 * a);
            lemma_square_lt(-lo, -gp);
            assert((-lo) * (-lo) == lo * lo && (-gp) * (-gp) == gp * gp) by (nonlinear_arith);
        } else {
            assert(gp == lo);
            if lo == 0 {
                assert(lo * lo == 0) by (nonlinear_arith)
                    requires
                        lo == 0,
                ;
            }
            assert(slope(a, b, x1 + 1) == 2 * a * (x1 + 1) + b);
        }
        assert(ge >= 0 || ge * ge <= d);
        assert(gp < 0 && gp * gp > d);
        // x2 is the larger root rounded down.
        let gx = slope(a, b, x2);
        let gn = slope(a, b, x2 + 1);
        assert(gx <= 0 || gx * gx <= d);
        assert(gn > 0 && gn * gn > d);
        if e <= t <= x2 {
            lemma_slope_monotone(a, b, e, t);
            lemma_slope_monotone(a, b, t, x2);
            if g >= 0 {
                if gx > 0 {
                    lemma_square_le(g, gx);
                } else {
                    assert(g * g == 0) by (nonlinear_arith)
                        requires
                            g == 0,
                    ;
                }
            } else {
                lemma_square_le(-g, -ge);
                assert((-g) * (-g) == g * g && (-ge) * (-ge) == ge * ge) by (nonlinear_arith);
            }
        }
        if t < e {
            lemma_slope_monotone(a, b, t, e - 1);
            lemma_square_le(-gp, -g);
            assert((-g) * (-g) == g * g && (-gp) * (-gp) == gp * gp) by (nonlinear_arith);
        }
        if t > x2 {
            lemma_slope_monotone(a, b, x2 + 1, t);
            lemma_square_le(gn, g);
        }
        assert(g * g <= d <==> e <= t <= x2);
        assert(e <= x2 ==> span_spec(a, b, c) == Some((e, x2)));
        assert(e > x2 ==> span_spec(a, b, c) is None);
    } else {
        assert(span_spec(a, b, c) is None);
    }
}

} // verus!

verus! {

/// Largest magnitude of a coefficient that the span functions accept.
pub const SPAN_LIMIT: i64 = 1_099_511_627_776;

/// Largest magnitude of an interval bound that the root position tests accept.
pub const PARAM_LIMIT: i64 = 1_048_576;

proof fn lemma_small_coefficients(a: int, b: int, c: int)
    requires
        0 < a <= SPAN_LIMIT,
        -SPAN_LIMIT <= b <= SPAN_LIMIT,
        -SPAN_LIMIT <= c <= SPAN_LIMIT,
    ensures
        discriminant(a, b, c) <= 0x8_0000_0000_0000_0000_0000,
        discriminant(a, b, c) >= -0x8_0000_0000_0000_0000_0000,
{
    assert(0 <= b * b <= 0x1_0000_0000_0000_0000_0000) by (nonlinear_arith)
        requires
            -0x100_0000_0000 <= b <= 0x100_0000_0000,
    ;
    assert(-0x4_0000_0000_0000_0000_0000 <= 4 * a * c <= 0x4_0000_0000_0000_0000_0000)
        by (nonlinear_arith)
        requires
            0 < a <= 0x100_0000_0000,
            -0x100_0000_0000 <= c <= 0x100_0000_0000,
    ;
}

/// The first and last whole numbers between the real roots of
/// `a·x² + b·x + c` with `a > 0`: the smaller root rounded up and the larger
/// rounded down, or `None` where no whole number lies between them.
pub fn solve_span(a: i64, b: i64, c: i64) -> (r: Option<(i64, i64)>)
    requires
        0 < a <= SPAN_LIMIT,
        -SPAN_LIMIT <= b <= SPAN_LIMIT,
        -SPAN_LIMIT <= c <= SPAN_LIMIT,
    ensures
        match r {
            Some((e, x)) => span_spec(a as int, b as int, c as int) == Some((e as int, x as int)),
            None => span_spec(a as int, b as int, c as int) is None,
        },
{
    proof {
        lemma_small_coefficients(a as int, b as int, c as int);
        lemma_roots_rounded_down(a as int, b as int, c as int);
    }
    let (x1, x2) = match solve_quadratic(a, b, c) {
        QuadraticSolution::Zero => {
            return None;
        },
        QuadraticSolution::One { x } => (x, x),
        QuadraticSolution::Two { x1, x2 } => (x1, x2),
    };
    let ghost dd = discriminant(a as int, b as int, c as int);
    let d = small_discriminant(a, b, c);
    assert(floors_lower_root(a as int, b as int, dd, x1 as int));
    let ghost lo_s = slope(a as int, b as int, x1 as int);
    let ghost hi_s = slope(a as int, b as int, x1 as int + 1);
    proof {
        assert(hi_s == lo_s + 2 * a) by (nonlinear_arith)
            requires
                lo_s == 2 * a * x1 + b,
                hi_s == 2 * a * (x1 + 1) + b,
        ;
        if hi_s <= -0x80_0000_0000_0000 {
            assert(hi_s * hi_s >= 0x4000_0000_0000_0000_0000_0000_0000) by (nonlinear_arith)
                requires
                    hi_s <= -0x80_0000_0000_0000,
            ;
        }
        assert(-0x81_0000_0000_0000 <= lo_s <= 0);
        assert(-0x82_0000_0000_0000 <= 2 * a * x1 <= 0x1_0000_0000_0000) by (nonlinear_arith)
            requires
                lo_s == 2 * a * x1 + b,
                -0x81_0000_0000_0000 <= lo_s <= 0,
                -0x100_0000_0000 <= b <= 0x100_0000_0000,
        ;
        assert(-0x82_0000_0000_0000 <= x1 <= 0x1_0000_0000_0000) by (nonlinear_arith)
            requires
                -0x82_0000_0000_0000 <= 2 * a * x1 <= 0x1_0000_0000_0000,
                a >= 1,
        ;
        assert(0 <= lo_s * lo_s <= 0x1_0000_0000_0000_0000_0000_0000_0000) by (nonlinear_arith)
            requires
                -0x81_0000_0000_0000 <= lo_s <= 0,
        ;
    }
    let lo: i128 = 2 * (a as i128) * (x1 as i128) + (b as i128);
    let e: i64 = if lo * lo == d {
        x1
    } else {
        x1 + 1
    };
    if e <= x2 {
        Some((e, x2))
    } else {
        None
    }
}

/// Whether the smaller real root lies in `[m, n]` (see `lower_root_within`).
pub fn lower_root_in(a: i64, b: i64, c: i64, m: i64, n: i64) -> (r: bool)
    requires
        0 < a <= SPAN_LIMIT,
        -SPAN_LIMIT <= b <= SPAN_LIMIT,
        -SPAN_LIMIT <= c <= SPAN_LIMIT,
        -PARAM_LIMIT <= m <= PARAM_LIMIT,
        -PARAM_LIMIT <= n <= PARAM_LIMIT,
    ensures
        r == lower_root_within(a as int, b as int, discriminant(a as int, b as int, c as int), m as int, n as int),
{
    let d = small_discriminant(a, b, c);
    let gm = small_slope(a, b, m);
    let gn = small_slope(a, b, n);
    (gm <= 0 && gm * gm >= d) && (gn >= 0 || gn * gn <= d)
}

/// Whether the larger real root lies in `[m, n]` (see `upper_root_within`).
pub fn upper_root_in(a: i64, b: i64, c: i64, m: i64, n: i64) -> (r: bool)
    requires
        0 < a <= SPAN_LIMIT,
        -SPAN_LIMIT <= b <= SPAN_LIMIT,
        -SPAN_LIMIT <= c <= SPAN_LIMIT,
        -PARAM_LIMIT <= m <= PARAM_LIMIT,
        -PARAM_LIMIT <= n <= PARAM_LIMIT,
    ensures
        r == upper_root_within(a as int, b as int, discriminant(a as int, b as int, c as int), m as int, n as int),
{
    let d = small_discriminant(a, b, c);
    let gm = small_slope(a, b, m);
    let gn = small_slope(a, b, n);
    (gm <= 0 || gm * gm <= d) && (gn >= 0 && gn * gn >= d)
}

fn small_discriminant(a: i64, b: i64, c: i64) -> (r: i128)
    requires
        0 < a <= SPAN_LIMIT,
        -SPAN_LIMIT <= b <= SPAN_LIMIT,
        -SPAN_LIMIT <= c <= SPAN_LIMIT,
    ensures
        r == discriminant(a as int, b as int, c as int),
{
    proof {
        lemma_small_coefficients(a as int, b as int, c as int);
        assert(0 <= b * b <= 0x1_0000_0000_0000_0000_0000) by (nonlinear_arith)
            requires
                -0x100_0000_0000 <= b <= 0x100_0000_0000,
        ;
        assert(-0x4_0000_0000_0000_0000_0000 <= (4 * a) * c <= 0x4_0000_0000_0000_0000_0000)
            by (nonlinear_arith)
            requires
                0 < a <= 0x100_0000_0000,
                -0x100_0000_0000 <= c <= 0x100_0000_0000,
        ;
    }
    (b as i128) * (b as i128) - 4 * (a as i128) * (c as i128)
}

fn small_slope(a: i64, b: i64, t: i64) -> (r: i128)
    requires
        0 < a <= SPAN_LIMIT,
        -SPAN_LIMIT <= b <= SPAN_LIMIT,
        -PARAM_LIMIT <= t <= PARAM_LIMIT,
    ensures
        r == slope(a as int, b as int, t as int),
        -0x4000_0000_0000_0000 <= r <= 0x4000_0000_0000_0000,
        0 <= r * r <= 0x1000_0000_0000_0000_0000_0000_0000_0000,
{
    proof {
        assert(-0x2000_0000_0000_0000 <= 2 * a * t <= 0x2000_0000_0000_0000) by (nonlinear_arith)
            requires
                0 < a <= 0x100_0000_0000,
                -0x10_0000 <= t <= 0x10_0000,
        ;
    }
    let r = 2 * (a as i128) * (t as i128) + (b as i128);
    proof {
        assert(0 <= r * r <= 0x1000_0000_0000_0000_0000_0000_0000_0000) by (nonlinear_arith)
            requires
                -0x4000_0000_0000_0000 <= r <= 0x4000_0000_0000_0000,
        ;
    }
    r
}

} // verus!
