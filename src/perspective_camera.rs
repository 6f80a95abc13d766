use rand::Rng;
use vstd::prelude::*;

use crate::camera::Camera;
use crate::ray::{Ray, COORD_LIMIT};
use crate::sample::{Fraction, Sample};
pub use crate::vector::UNIT;
use crate::vector::{trunc_div, Point3i, Vec3, Vec3i};

verus! {

/// Largest magnitude of a coordinate of a camera's frame and of its lens
/// radius; rays built from such a frame stay within `COORD_LIMIT`.
pub const CAMERA_LIMIT: i64 = 6000;

/// The upper end of the interval of every camera ray, which starts at zero.
pub const MAX_T: i64 = 1000;

/// How many points `random_in_unit_disk` draws before it settles on the
/// center. A draw lands in the disk with probability above 3/4, so all of
/// them miss with probability below 10^-38.
pub const DISK_ATTEMPTS: u32 = 64;

/// `q` is a point of the unit disk in the `z = 0` plane, in units of `UNIT`.
pub open spec fn in_unit_disk(q: Vec3i) -> bool {
    q.x * q.x + q.y * q.y <= UNIT * UNIT && q.z == 0
}

/// Relies on rand's `Rng::gen_range` on an inclusive range of `i64`, drawn
/// from `thread_rng`: a uniformly drawn value between the two bounds, both
/// included. It panics on an empty range, which the precondition rules out
/// (and `thread_rng` panics if the operating system gives no seed at all).
#[verifier::external_body]
fn random_between(lo: i64, hi: i64) -> (r: i64)
    requires
        lo <= hi,
    ensures
        lo <= r <= hi,
{
    rand::thread_rng().gen_range(lo..=hi)
}

/// The point `(rx, ry)` of the `z = 0` plane where it lies in the unit disk
/// (in units of `UNIT`), else `None`: one trial of rejection sampling.
pub fn disk_point(rx: i64, ry: i64) -> (r: Option<Vec3i>)
    requires
        -UNIT <= rx <= UNIT,
        -UNIT <= ry <= UNIT,
    ensures
        r == (if rx * rx + ry * ry <= UNIT * UNIT {
            Some(Vec3 { x: rx, y: ry, z: 0 })
        } else {
            None
        }),
{
    proof {
        assert(0 <= rx * rx <= 1024 * 1024 && 0 <= ry * ry <= 1024 * 1024) by (nonlinear_arith)
            requires
                -1024 <= rx <= 1024,
                -1024 <= ry <= 1024,
        ;
    }
    if rx * rx + ry * ry <= UNIT * UNIT {
        Some(Vec3::new(rx, ry, 0))
    } else {
        None
    }
}

/// A random point of the unit disk, by rejection sampling over the
/// enclosing square: each pair drawn goes through `disk_point`, and the
/// first point it keeps is returned.
pub fn random_in_unit_disk() -> (r: Vec3i)
    ensures
        in_unit_disk(r),
{
    let mut attempt: u32 = 0;
    while attempt < DISK_ATTEMPTS
        decreases DISK_ATTEMPTS - attempt,
    {
        let rx = random_between(-UNIT, UNIT);
        let ry = random_between(-UNIT, UNIT);
        if let Some(q) = disk_point(rx, ry) {
            return q;
        }
        attempt = attempt + 1;
    }
    Vec3::new(0, 0, 0)
}

/// `c · f` for a fraction `f` of `[0, 1]`, rounded toward zero.
pub open spec fn scale_by(c: int, f: Fraction) -> int {
    trunc_div(c * f.num, f.den as int)
}

pub open spec fn scaled(v: Vec3i, f: Fraction) -> Vec3i {
    Vec3 {
        x: scale_by(v.x as int, f) as i64,
        y: scale_by(v.y as int, f) as i64,
        z: scale_by(v.z as int, f) as i64,
    }
}

pub open spec fn plus(a: Vec3i, b: Vec3i) -> Vec3i {
    Vec3 { x: (a.x + b.x) as i64, y: (a.y + b.y) as i64, z: (a.z + b.z) as i64 }
}

pub open spec fn minus(a: Vec3i, b: Vec3i) -> Vec3i {
    Vec3 { x: (a.x - b.x) as i64, y: (a.y - b.y) as i64, z: (a.z - b.z) as i64 }
}

/// A perspective camera with a thin lens, given by its frame: the eye
/// `origin`, the `top_left` corner of the screen rectangle with its spans
/// `horizontal` and `vertical`, the lens basis `u`, `v` (in units of `UNIT`)
/// and the lens radius.
pub struct PerspectiveCamera {
    pub origin: Point3i,
    pub top_left: Point3i,
    pub horizontal: Vec3i,
    pub vertical: Vec3i,
    pub u: Vec3i,
    pub v: Vec3i,
    pub lens_radius: i64,
}

impl PerspectiveCamera {
    pub open spec fn wf_spec(self) -> bool {
        &&& self.origin.bounded(CAMERA_LIMIT as int)
        &&& self.top_left.bounded(CAMERA_LIMIT as int)
        &&& self.horizontal.bounded(CAMERA_LIMIT as int)
        &&& self.vertical.bounded(CAMERA_LIMIT as int)
        &&& self.u.bounded(UNIT as int)
        &&& self.v.bounded(UNIT as int)
        &&& 0 <= self.lens_radius <= CAMERA_LIMIT
    }

    /// The offset of the ray's origin in the lens plane for the disk point `q`.
    /// The disk point is scaled by the lens radius to `(rx, ry)`, and the
    /// offset is `u·rx + v·ry`, all divisions by `UNIT` rounded toward zero.
    pub open spec fn lens_offset(self, q: Vec3i) -> Vec3i {
        let rx = trunc_div(q.x * self.lens_radius, UNIT as int);
        let ry = trunc_div(q.y * self.lens_radius, UNIT as int);
        Vec3 {
            x: trunc_div(self.u.x * rx + self.v.x * ry, UNIT as int) as i64,
            y: trunc_div(self.u.y * rx + self.v.y * ry, UNIT as int) as i64,
            z: trunc_div(self.u.z * rx + self.v.z * ry, UNIT as int) as i64,
        }
    }

    /// The ray through the screen point of `sample`, leaving the lens at the
    /// point that the disk point `q` picks.
    pub open spec fn ray_spec(self, sample: Sample, q: Vec3i) -> Ray {
        let offset = self.lens_offset(q);
        let target = plus(
            plus(self.top_left, scaled(self.horizontal, sample.x)),
            scaled(self.vertical, sample.y),
        );
        Ray {
            o: plus(self.origin, offset),
            d: minus(minus(target, self.origin), offset),
            min_t: 0,
            max_t: MAX_T,
        }
    }

    pub fn from_frame(
        origin: Point3i,
        top_left: Point3i,
        horizontal: Vec3i,
        vertical: Vec3i,
        u: Vec3i,
        v: Vec3i,
        lens_radius: i64,
    ) -> (r: Self)
        ensures
            r == (PerspectiveCamera { origin, top_left, horizontal, vertical, u, v, lens_radius }),
    {
        Self { origin, top_left, horizontal, vertical, u, v, lens_radius }
    }


    fn lens_offset_exec(&self, q: Vec3i) -> (r: Vec3i)
        requires
            self.wf_spec(),
            in_unit_disk(q),
        ensures
            r == self.lens_offset(q),
            r.bounded(2 * self.lens_radius),
    {
        proof {
            lemma_disk_bounds(q.x as int, q.y as int);
            lemma_small_product(self.lens_radius as int, q.x as int, self.lens_radius as int, UNIT as int);
            lemma_small_product(self.lens_radius as int, q.y as int, self.lens_radius as int, UNIT as int);
        }
        let rx = q.x * self.lens_radius / UNIT;
        let ry = q.y * self.lens_radius / UNIT;
        proof {
            lemma_quotient_within(q.x * self.lens_radius, UNIT as int, self.lens_radius as int);
            lemma_quotient_within(q.y * self.lens_radius, UNIT as int, self.lens_radius as int);
            lemma_small_product(self.u.x as int, rx as int, UNIT as int, self.lens_radius as int);
            lemma_small_product(self.u.y as int, rx as int, UNIT as int, self.lens_radius as int);
            lemma_small_product(self.u.z as int, rx as int, UNIT as int, self.lens_radius as int);
            lemma_small_product(self.v.x as int, ry as int, UNIT as int, self.lens_radius as int);
            lemma_small_product(self.v.y as int, ry as int, UNIT as int, self.lens_radius as int);
            lemma_small_product(self.v.z as int, ry as int, UNIT as int, self.lens_radius as int);
        }
        let ox = self.u.x * rx + self.v.x * ry;
        let oy = self.u.y * rx + self.v.y * ry;
        let oz = self.u.z * rx + self.v.z * ry;
        proof {
            lemma_quotient_within(ox as int, UNIT as int, 2 * self.lens_radius);
            lemma_quotient_within(oy as int, UNIT as int, 2 * self.lens_radius);
            lemma_quotient_within(oz as int, UNIT as int, 2 * self.lens_radius);
        }
        Vec3::new(ox / UNIT, oy / UNIT, oz / UNIT)
    }

    /// The ray through the screen point of `sample` that leaves the lens at
    /// the point that the disk point `q` picks.
    pub fn ray_through(&self, sample: &Sample, q: Vec3i) -> (r: Ray)
        requires
            self.wf_spec(),
            sample.wf(),
            in_unit_disk(q),
        ensures
            r == self.ray_spec(*sample, q),
            r.wf(),
            self.lens_offset(q).bounded(2 * self.lens_radius),
            self.lens_radius == 0 ==> r.o == self.origin,
    {
        let offset = self.lens_offset_exec(q);
        let across = scale_vector(self.horizontal, sample.x);
        let down = scale_vector(self.vertical, sample.y);
        let target = self.top_left + across + down;
        Ray::new(self.origin + offset, target - self.origin - offset, 0, MAX_T)
    }
}

/// `c · f` rounded toward zero, computed without overflow.
fn scale_component(c: i64, f: Fraction) -> (r: i64)
    requires
        -CAMERA_LIMIT <= c <= CAMERA_LIMIT,
        f.wf(),
    ensures
        r == scale_by(c as int, f),
        -CAMERA_LIMIT <= r <= CAMERA_LIMIT,
{
    proof {
        assert(-(CAMERA_LIMIT * f.den) <= c * f.num <= CAMERA_LIMIT * f.den) by (nonlinear_arith)
            requires
                -CAMERA_LIMIT <= c <= CAMERA_LIMIT,
                0 <= f.num <= f.den,
        ;
        lemma_quotient_within(c * f.num, f.den as int, CAMERA_LIMIT as int);
    }
    ((c as i128) * (f.num as i128) / (f.den as i128)) as i64
}

fn scale_vector(v: Vec3i, f: Fraction) -> (r: Vec3i)
    requires
        v.bounded(CAMERA_LIMIT as int),
        f.wf(),
    ensures
        r == scaled(v, f),
        r.bounded(CAMERA_LIMIT as int),
{
    Vec3::new(scale_component(v.x, f), scale_component(v.y, f), scale_component(v.z, f))
}

/// A quotient rounded toward zero stays within the bound that the
/// numerator has relative to the divisor.
proof fn lemma_quotient_within(n: int, d: int, m: int)
    requires
        d > 0,
        m >= 0,
        -(m * d) <= n <= m * d,
    ensures
        -m <= trunc_div(n, d) <= m,
{
    if n >= 0 {
        assert(n / d <= m) by (nonlinear_arith)
            requires
                d > 0,
                0 <= n <= m * d,
        ;
        assert(n / d >= 0) by (nonlinear_arith)
            requires
                d > 0,
                0 <= n,
        ;
    } else {
        assert((-n) / d <= m) by (nonlinear_arith)
            requires
                d > 0,
                0 <= -n <= m * d,
        ;
        assert((-n) / d >= 0) by (nonlinear_arith)
            requires
                d > 0,
                0 <= -n,
        ;
    }
}

proof fn lemma_small_product(a: int, b: int, m: int, n: int)
    requires
        -m <= a <= m,
        -n <= b <= n,
    ensures
        -(m * n) <= a * b <= m * n,
        -(m * n) <= b * a <= m * n,
        m * n == n * m,
{
    assert(a * b == b * a && m * n == n * m) by (nonlinear_arith);
    assert(-(m * n) <= a * b <= m * n) by (nonlinear_arith)
        requires
            -m <= a <= m,
            -n <= b <= n,
    ;
}

proof fn lemma_disk_bounds(x: int, y: int)
    requires
        x * x + y * y <= UNIT * UNIT,
    ensures
        -UNIT <= x <= UNIT,
        -UNIT <= y <= UNIT,
{
    assert(-1024 <= x <= 1024 && -1024 <= y <= 1024) by (nonlinear_arith)
        requires
            x * x + y * y <= 1024 * 1024,
    ;
}

impl Camera for PerspectiveCamera {
    open spec fn wf(&self) -> bool {
        self.wf_spec()
    }

    open spec fn shoots(&self, sample: Sample, ray: Ray) -> bool {
        exists|q: Vec3i| in_unit_disk(q) && ray == self.ray_spec(sample, q)
    }

    fn get_ray(&self, sample: &Sample) -> (r: Ray) {
        let q = random_in_unit_disk();
        self.ray_through(sample, q)
    }
}

} // verus!

verus! {

/// `trunc(n / m)·m` is at most `n` in magnitude, so its square is at most `n²`.
proof fn lemma_trunc_square(n: int, m: int)
    requires
        m > 0,
    ensures
        trunc_div(n, m) * trunc_div(n, m) * (m * m) <= n * n,
{
    let q = trunc_div(n, m);
    if n >= 0 {
        assert(0 <= q * m <= n) by (nonlinear_arith)
            requires
                m > 0,
                n >= 0,
                q == n / m,
        ;
        assert(q * q * (m * m) <= n * n) by (nonlinear_arith)
            requires
                0 <= q * m <= n,
        ;
    } else {
        assert(0 <= (-q) * m <= -n) by (nonlinear_arith)
            requires
                m > 0,
                n < 0,
                -q == (-n) / m,
        ;
        assert(q * q * (m * m) <= n * n) by (nonlinear_arith)
            requires
                0 <= (-q) * m <= -n,
        ;
    }
}

proof fn lemma_square_of_sum(a: int, x: int, b: int, y: int)
    ensures
        (a * x + b * y) * (a * x + b * y) == (x * x) * (a * a) + (y * y) * (b * b) + 2 * ((x * y) * (
        a * b)),
{
    let s = a * x;
    let t = b * y;
    assert((s + t) * (s + t) == s * s + t * t + 2 * (s * t)) by (nonlinear_arith);
    assert(s * s == (x * x) * (a * a)) by (nonlinear_arith)
        requires
            s == a * x,
    ;
    assert(t * t == (y * y) * (b * b)) by (nonlinear_arith)
        requires
            t == b * y,
    ;
    assert(s * t == (x * y) * (a * b)) by (nonlinear_arith)
        requires
            s == a * x,
            t == b * y,
    ;
}

proof fn lemma_distribute3(k: int, p: int, q: int, r: int)
    ensures
        k * p + k * q + k * r == k * (p + q + r),
{
    assert(k * p + k * q + k * r == k * (p + q + r)) by (nonlinear_arith);
}

/// With an orthogonal lens basis of length at most `UNIT`, the ray's origin
/// stays within the lens radius of the eye: the squared length of the lens
/// offset is at most the squared radius.
pub proof fn lemma_lens_within_radius(camera: PerspectiveCamera, q: Vec3i)
    requires
        camera.wf_spec(),
        in_unit_disk(q),
        camera.u.dot_spec(camera.v) == 0,
        camera.u.length_sq_spec() <= UNIT * UNIT,
        camera.v.length_sq_spec() <= UNIT * UNIT,
    ensures
        camera.lens_offset(q).length_sq_spec() <= camera.lens_radius * camera.lens_radius,
{
    let l = camera.lens_radius as int;
    let u = camera.u;
    let v = camera.v;
    let rx = trunc_div(q.x * l, UNIT as int);
    let ry = trunc_div(q.y * l, UNIT as int);
    let wx = u.x * rx + v.x * ry;
    let wy = u.y * rx + v.y * ry;
    let wz = u.z * rx + v.z * ry;
    let off = camera.lens_offset(q);
    lemma_disk_bounds(q.x as int, q.y as int);
    lemma_small_product(l, q.x as int, l, UNIT as int);
    lemma_small_product(l, q.y as int, l, UNIT as int);
    lemma_quotient_within(q.x * l, UNIT as int, l);
    lemma_quotient_within(q.y * l, UNIT as int, l);
    lemma_small_product(u.x as int, rx, UNIT as int, l);
    lemma_small_product(u.y as int, rx, UNIT as int, l);
    lemma_small_product(u.z as int, rx, UNIT as int, l);
    lemma_small_product(v.x as int, ry, UNIT as int, l);
    lemma_small_product(v.y as int, ry, UNIT as int, l);
    lemma_small_product(v.z as int, ry, UNIT as int, l);
    lemma_quotient_within(wx, UNIT as int, 2 * l);
    lemma_quotient_within(wy, UNIT as int, 2 * l);
    lemma_quotient_within(wz, UNIT as int, 2 * l);
    assert(off.x == trunc_div(wx, UNIT as int) && off.y == trunc_div(wy, UNIT as int) && off.z
        == trunc_div(wz, UNIT as int));
    lemma_trunc_square(q.x * l, UNIT as int);
    lemma_trunc_square(q.y * l, UNIT as int);
    lemma_trunc_square(wx, UNIT as int);
    lemma_trunc_square(wy, UNIT as int);
    lemma_trunc_square(wz, UNIT as int);
    let lu = u.x * u.x + u.y * u.y + u.z * u.z;
    let lv = v.x * v.x + v.y * v.y + v.z * v.z;
    let uv = u.x * v.x + u.y * v.y + u.z * v.z;
    assert(lu == u.length_sq_spec() && lv == v.length_sq_spec() && uv == u.dot_spec(v));
    lemma_square_of_sum(u.x as int, rx, v.x as int, ry);
    lemma_square_of_sum(u.y as int, rx, v.y as int, ry);
    lemma_square_of_sum(u.z as int, rx, v.z as int, ry);
    lemma_distribute3(rx * rx, u.x * u.x, u.y * u.y, u.z * u.z);
    lemma_distribute3(ry * ry, v.x * v.x, v.y * v.y, v.z * v.z);
    lemma_distribute3(rx * ry, u.x * v.x, u.y * v.y, u.z * v.z);
    assert(wx * wx + wy * wy + wz * wz == (rx * rx) * lu + (ry * ry) * lv + 2 * ((rx * ry) * uv));
    assert((rx * rx) * lu <= (rx * rx) * (UNIT * UNIT)) by (nonlinear_arith)
        requires
            lu <= UNIT * UNIT,
    ;
    assert((ry * ry) * lv <= (ry * ry) * (UNIT * UNIT)) by (nonlinear_arith)
        requires
            lv <= UNIT * UNIT,
    ;
    assert((rx * ry) * uv == 0) by (nonlinear_arith)
        requires
            uv == 0,
    ;
    assert((rx * rx) * (UNIT * UNIT) + (ry * ry) * (UNIT * UNIT) == (rx * rx + ry * ry) * (1024
        * 1024)) by (nonlinear_arith);
    assert(rx * rx * (UNIT * UNIT) <= (q.x * l) * (q.x * l));
    assert(ry * ry * (UNIT * UNIT) <= (q.y * l) * (q.y * l));
    assert((q.x * l) * (q.x * l) + (q.y * l) * (q.y * l) <= l * l * (UNIT * UNIT)) by (nonlinear_arith)
        requires
            q.x * q.x + q.y * q.y <= UNIT * UNIT,
    ;
    assert(off.x * off.x + off.y * off.y + off.z * off.z <= l * l) by (nonlinear_arith)
        requires
            off.x * off.x * (1024 * 1024) <= wx * wx,
            off.y * off.y * (1024 * 1024) <= wy * wy,
            off.z * off.z * (1024 * 1024) <= wz * wz,
            wx * wx + wy * wy + wz * wz <= (rx * rx + ry * ry) * (1024 * 1024),
            (rx * rx + ry * ry) * (1024 * 1024) <= l * l * (1024 * 1024),
    ;
}

} // verus!
