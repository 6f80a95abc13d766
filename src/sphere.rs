use vstd::prelude::*;

use crate::interaction::Interaction;
use crate::math::{
    discriminant, lemma_span_exact, lower_root_in, lower_root_within, slope, solve_span, span_spec,
    upper_root_in, upper_root_within,
};
use crate::primitive::Primitive;
use crate::ray::{Ray, COORD_LIMIT};
use crate::vector::{lemma_dot_bound, Point3i, Vec3, Vec3i};

verus! {

/// A sphere given by its center and radius.
#[derive(Clone, Copy, Debug, PartialEq, Eq, Structural)]
pub struct Sphere {
    pub center: Point3i,
    pub radius: i64,
}

/// The coefficients `(a, b, c)` of `a·t² + b·t + c = 0`, whose roots are
/// the parameters at which `ray` meets the sphere's surface.
pub open spec fn sphere_coefficients(center: Point3i, radius: int, ray: Ray) -> (int, int, int) {
    let oc = Vec3 {
        x: (ray.o.x - center.x) as i64,
        y: (ray.o.y - center.y) as i64,
        z: (ray.o.z - center.z) as i64,
    };
    (
        ray.d.dot_spec(ray.d),
        2 * oc.dot_spec(ray.d),
        center.dot_spec(center) + ray.o.dot_spec(ray.o) - 2 * center.dot_spec(ray.o) - radius
            * radius,
    )
}

impl Sphere {
    pub open spec fn wf_spec(self) -> bool {
        self.center.bounded(COORD_LIMIT as int) && 0 <= self.radius <= COORD_LIMIT
    }

    /// The outward normal at `p`: `p − center`, normalized.
    pub open spec fn normal_spec(self, p: Point3i) -> Vec3i {
        Vec3 {
            x: (p.x - self.center.x) as i64,
            y: (p.y - self.center.y) as i64,
            z: (p.z - self.center.z) as i64,
        }.normalize_spec()
    }

    /// The interaction on the surface at parameter `t`, where that lies on the ray.
    pub open spec fn surface_at(self, ray: Ray, t: int) -> Option<Interaction> {
        match ray.at_spec(t) {
            Some(p) => Some(
                Interaction {
                    p,
                    t: t as i64,
                    n: Some(self.normal_spec(p)),
                    wo: Vec3 { x: (-ray.d.x) as i64, y: (-ray.d.y) as i64, z: (-ray.d.z) as i64 },
                },
            ),
            None => None,
        }
    }

    /// The first hit of `ray` on the sphere. The whole parameters whose
    /// points lie in the closed ball run from the entry root rounded up to
    /// the exit root rounded down (`span_spec`); without any there is no hit.
    /// Where the entry root lies in the ray's interval the hit is at the
    /// rounded-up entry; else, where the exit root does (a ray that starts
    /// inside leaves through the far side), at the rounded-down exit; else
    /// there is none. A ray without direction meets nothing.
    pub open spec fn hit_spec(self, ray: Ray) -> Option<Interaction> {
        let (a, b, c) = sphere_coefficients(self.center, self.radius as int, ray);
        let d = discriminant(a, b, c);
        if a == 0 {
            None
        } else {
            match span_spec(a, b, c) {
                None => None,
                Some((entry, exit)) => if lower_root_within(a, b, d, ray.min_t as int, ray.max_t as int) {
                    self.surface_at(ray, entry)
                } else if upper_root_within(a, b, d, ray.min_t as int, ray.max_t as int) {
                    self.surface_at(ray, exit)
                } else {
                    None
                },
            }
        }
    }

    pub fn new(center: Point3i, radius: i64) -> (r: Self)
        ensures
            r == (Sphere { center, radius }),
    {
        Self { center, radius }
    }

    fn normal_at_point(&self, p: Point3i) -> (r: Vec3i)
        requires
            self.wf_spec(),
            p.bounded(COORD_LIMIT + COORD_LIMIT * COORD_LIMIT),
        ensures
            r == self.normal_spec(p),
    {
        (p - self.center).normalize()
    }

    fn surface_at_exec(&self, ray: &Ray, t: i64) -> (r: Option<Interaction>)
        requires
            self.wf_spec(),
            ray.wf(),
        ensures
            r == self.surface_at(*ray, t as int),
    {
        match ray.at(t) {
            Some(p) => Some(Interaction::new_on_surface(p, t, self.normal_at_point(p), std::ops::Neg::neg(ray.d))),
            None => None,
        }
    }
}

impl Primitive for Sphere {
    open spec fn wf(&self) -> bool {
        self.wf_spec()
    }

    open spec fn hit(&self, ray: Ray) -> Option<Interaction> {
        self.hit_spec(ray)
    }

    fn test(&self, ray: &Ray) -> (r: Option<Interaction>) {
        let oc = ray.o - self.center;
        proof {
            let l = COORD_LIMIT as int;
            lemma_dot_bound(ray.d, ray.d, l, l);
            lemma_dot_bound(oc, ray.d, 2 * l, l);
            lemma_dot_bound(self.center, self.center, l, l);
            lemma_dot_bound(ray.o, ray.o, l, l);
            lemma_dot_bound(self.center, ray.o, l, l);
            assert(0 <= self.radius * self.radius <= l * l) by (nonlinear_arith)
                requires
                    0 <= self.radius <= l,
            ;
        }
        let a = ray.d.length_sq();
        let b = 2 * oc.dot(&ray.d);
        let c = self.center.dot(&self.center) + ray.o.dot(&ray.o) - 2 * (self.center.dot(&ray.o))
            - self.radius * self.radius;
        if a == 0 {
            return None;
        }
        match solve_span(a, b, c) {
            None => None,
            Some((entry, exit)) => if lower_root_in(a, b, c, ray.min_t, ray.max_t) {
                self.surface_at_exec(ray, entry)
            } else if upper_root_in(a, b, c, ray.min_t, ray.max_t) {
                self.surface_at_exec(ray, exit)
            } else {
                None
            },
        }
    }
}

} // verus!

verus! {

/// The last whole parameter of the span, where there is one.
pub open spec fn span_exit(a: int, b: int, c: int) -> int {
    match span_spec(a, b, c) {
        Some((_, exit)) => exit,
        None => 0,
    }
}

/// The squared distance between two points.
pub open spec fn distance_sq(p: Point3i, q: Point3i) -> int {
    (p.x - q.x) * (p.x - q.x) + (p.y - q.y) * (p.y - q.y) + (p.z - q.z) * (p.z - q.z)
}

proof fn lemma_expand(o: int, d: int, t: int)
    ensures
        (o + d * t) * (o + d * t) == o * o + 2 * t * (o * d) + t * t * (d * d),
{
    assert((o + d * t) * (o + d * t) == o * o + 2 * t * (o * d) + t * t * (d * d))
        by (nonlinear_arith);
}

/// The sphere's quadratic at `t` is the squared distance of the ray's point
/// at `t` from the center, less the squared radius.
pub proof fn lemma_quadratic_is_distance(sphere: Sphere, ray: Ray, t: int)
    requires
        sphere.wf_spec(),
        ray.wf(),
        ray.contains(t),
    ensures
        ray.at_spec(t) is Some,
        ({
            let (a, b, c) = sphere_coefficients(sphere.center, sphere.radius as int, ray);
            a * t * t + b * t + c == distance_sq(ray.at_spec(t)->0, sphere.center) - sphere.radius
                * sphere.radius
        }),
{
    let (a, b, c) = sphere_coefficients(sphere.center, sphere.radius as int, ray);
    let ce = sphere.center;
    let o = ray.o;
    let d = ray.d;
    crate::ray::lemma_step_bound(d.x as int, t);
    crate::ray::lemma_step_bound(d.y as int, t);
    crate::ray::lemma_step_bound(d.z as int, t);
    let p = ray.at_spec(t)->0;
    assert(p.x == o.x + d.x * t && p.y == o.y + d.y * t && p.z == o.z + d.z * t);
    assert(c == (o.x - ce.x) * (o.x - ce.x) + (o.y - ce.y) * (o.y - ce.y) + (o.z - ce.z) * (o.z
        - ce.z) - sphere.radius * sphere.radius) by {
        assert(ce.dot_spec(ce) + o.dot_spec(o) - 2 * ce.dot_spec(o) == (o.x - ce.x) * (o.x - ce.x)
            + (o.y - ce.y) * (o.y - ce.y) + (o.z - ce.z) * (o.z - ce.z)) by (nonlinear_arith);
    }
    lemma_expand(o.x - ce.x, d.x as int, t);
    lemma_expand(o.y - ce.y, d.y as int, t);
    lemma_expand(o.z - ce.z, d.z as int, t);
    assert(p.x - ce.x == (o.x - ce.x) + d.x * t);
    assert(p.y - ce.y == (o.y - ce.y) + d.y * t);
    assert(p.z - ce.z == (o.z - ce.z) + d.z * t);
    assert(a * t * t == t * t * (d.x * d.x) + t * t * (d.y * d.y) + t * t * (d.z * d.z))
        by (nonlinear_arith)
        requires
            a == d.x * d.x + d.y * d.y + d.z * d.z,
    ;
    assert(b * t == 2 * t * ((o.x - ce.x) * d.x) + 2 * t * ((o.y - ce.y) * d.y) + 2 * t * ((o.z
        - ce.z) * d.z)) by (nonlinear_arith)
        requires
            b == 2 * ((o.x - ce.x) * d.x + (o.y - ce.y) * d.y + (o.z - ce.z) * d.z),
    ;
}

/// Every hit lies on the ray within its interval and in the closed ball:
/// its point is at most the radius away from the center.
pub proof fn lemma_hit_in_ball(sphere: Sphere, ray: Ray)
    requires
        sphere.wf_spec(),
        ray.wf(),
    ensures
        sphere.hit_spec(ray) matches Some(i) ==> ray.contains(i.t as int) && ray.at_spec(i.t as int)
            == Some(i.p) && distance_sq(i.p, sphere.center) <= sphere.radius * sphere.radius,
{
    let (a, b, c) = sphere_coefficients(sphere.center, sphere.radius as int, ray);
    if let Some(i) = sphere.hit_spec(ray) {
        let t = i.t as int;
        lemma_coefficient_bounds(sphere, ray);
        lemma_span_exact(a, b, c, t);
        lemma_quadratic_is_distance(sphere, ray, t);
    }
}

/// A ray none of whose points in its interval lies in the closed ball
/// yields no interaction.
pub proof fn lemma_outside_misses(sphere: Sphere, ray: Ray)
    requires
        sphere.wf_spec(),
        ray.wf(),
        forall|t: int|
            ray.contains(t) ==> distance_sq(#[trigger] ray.at_spec(t)->0, sphere.center)
                > sphere.radius * sphere.radius,
    ensures
        sphere.hit_spec(ray) is None,
{
    lemma_hit_in_ball(sphere, ray);
    if let Some(i) = sphere.hit_spec(ray) {
        assert(ray.at_spec(i.t as int)->0 == i.p);
    }
}

proof fn lemma_coefficient_bounds(sphere: Sphere, ray: Ray)
    requires
        sphere.wf_spec(),
        ray.wf(),
    ensures
        ({
            let (a, b, c) = sphere_coefficients(sphere.center, sphere.radius as int, ray);
            &&& 0 <= a <= crate::math::COEFFICIENT_LIMIT
            &&& -crate::math::COEFFICIENT_LIMIT <= b <= crate::math::COEFFICIENT_LIMIT
            &&& -crate::math::COEFFICIENT_LIMIT <= c <= crate::math::COEFFICIENT_LIMIT
        }),
{
    let l = COORD_LIMIT as int;
    let oc = Vec3 {
        x: (ray.o.x - sphere.center.x) as i64,
        y: (ray.o.y - sphere.center.y) as i64,
        z: (ray.o.z - sphere.center.z) as i64,
    };
    lemma_dot_bound(ray.d, ray.d, l, l);
    lemma_dot_bound(oc, ray.d, 2 * l, l);
    lemma_dot_bound(sphere.center, sphere.center, l, l);
    lemma_dot_bound(ray.o, ray.o, l, l);
    lemma_dot_bound(sphere.center, ray.o, l, l);
    assert(0 <= sphere.radius * sphere.radius <= l * l) by (nonlinear_arith)
        requires
            0 <= sphere.radius <= l,
    ;
    assert(ray.d.dot_spec(ray.d) >= 0) by (nonlinear_arith);
}

/// A ray that starts strictly inside the sphere, with its interval starting
/// at zero, never hits at its entry root, which lies behind the origin: the
/// hit, if any, is at the exit rounded down.
pub proof fn lemma_inside_exits(sphere: Sphere, ray: Ray)
    requires
        sphere.wf_spec(),
        ray.wf(),
        ray.min_t == 0,
        0 <= ray.max_t,
        ray.d.length_sq_spec() > 0,
        distance_sq(ray.o, sphere.center) < sphere.radius * sphere.radius,
    ensures
        ({
            let (a, b, c) = sphere_coefficients(sphere.center, sphere.radius as int, ray);
            &&& span_spec(a, b, c) is Some
            &&& sphere.hit_spec(ray) == if upper_root_within(
                a,
                b,
                discriminant(a, b, c),
                0,
                ray.max_t as int,
            ) {
                sphere.surface_at(ray, span_exit(a, b, c))
            } else {
                None
            }
        }),
{
    let (a, b, c) = sphere_coefficients(sphere.center, sphere.radius as int, ray);
    lemma_coefficient_bounds(sphere, ray);
    lemma_quadratic_is_distance(sphere, ray, 0);
    assert(ray.at_spec(0)->0 == ray.o);
    assert(a * 0 * 0 + b * 0 + c == c) by (nonlinear_arith);
    lemma_span_exact(a, b, c, 0);
    let d = discriminant(a, b, c);
    assert(d > b * b) by (nonlinear_arith)
        requires
            a > 0,
            c < 0,
            d == b * b - 4 * a * c,
    ;
    assert(slope(a, b, 0) == b);
    assert(!lower_root_within(a, b, d, 0, ray.max_t as int));
}

} // verus!

verus! {

proof fn lemma_square_sides(g: int, s: int)
    requires
        s >= 0,
    ensures
        (g <= 0 && g * g >= s * s) <==> g <= -s,
        (g >= 0 || g * g <= s * s) <==> g >= -s,
        (g <= 0 || g * g <= s * s) <==> g <= s,
        (g >= 0 && g * g >= s * s) <==> g >= s,
{
    assert((g <= 0 && g * g >= s * s) <==> g <= -s) by (nonlinear_arith)
        requires
            s >= 0,
    ;
    assert((g >= 0 || g * g <= s * s) <==> g >= -s) by (nonlinear_arith)
        requires
            s >= 0,
    ;
    assert((g <= 0 || g * g <= s * s) <==> g <= s) by (nonlinear_arith)
        requires
            s >= 0,
    ;
    assert((g >= 0 && g * g >= s * s) <==> g >= s) by (nonlinear_arith)
        requires
            s >= 0,
    ;
}

/// A ray that meets the sphere's surface at the whole-number parameters
/// `t1 ≤ t2` (its quadratic is `a·(t − t1)·(t − t2)`) hits it exactly at
/// those analytic points: at `t1` where `t1` lies in the ray's interval,
/// else at `t2` where that does, else not at all.
pub proof fn lemma_chord_hits(sphere: Sphere, ray: Ray, t1: int, t2: int)
    requires
        sphere.wf_spec(),
        ray.wf(),
        t1 <= t2,
        i64::MIN <= t1,
        t2 <= i64::MAX,
        ({
            let (a, b, c) = sphere_coefficients(sphere.center, sphere.radius as int, ray);
            &&& a > 0
            &&& b == -a * (t1 + t2)
            &&& c == a * t1 * t2
        }),
    ensures
        sphere.hit_spec(ray) == if ray.contains(t1) {
            sphere.surface_at(ray, t1)
        } else if ray.contains(t2) {
            sphere.surface_at(ray, t2)
        } else {
            None
        },
{
    let (a, b, c) = sphere_coefficients(sphere.center, sphere.radius as int, ray);
    crate::math::lemma_whole_roots(a, t1, t2);
    let s = a * (t2 - t1);
    let d = discriminant(a, b, c);
    assert(d == s * s && s >= 0) by (nonlinear_arith)
        requires
            b == -a * (t1 + t2),
            c == a * t1 * t2,
            s == a * (t2 - t1),
            a > 0,
            t1 <= t2,
            d == b * b - 4 * a * c,
    ;
    assert(slope(a, b, t1) == -s) by (nonlinear_arith)
        requires
            b == -a * (t1 + t2),
            s == a * (t2 - t1),
    ;
    assert(slope(a, b, t1) * slope(a, b, t1) == d) by (nonlinear_arith)
        requires
            slope(a, b, t1) == -s,
            d == s * s,
    ;
    assert(span_spec(a, b, c) == Some((t1, t2)));
    let m = ray.min_t as int;
    let n = ray.max_t as int;
    assert forall|u: int| #![auto]
        (slope(a, b, u) <= -s <==> u <= t1) && (slope(a, b, u) >= -s <==> u >= t1) && (slope(
            a,
            b,
            u,
        ) <= s <==> u <= t2) && (slope(a, b, u) >= s <==> u >= t2) by {
        assert(slope(a, b, u) + s == 2 * a * (u - t1) && slope(a, b, u) - s == 2 * a * (u - t2))
            by (nonlinear_arith)
            requires
                b == -a * (t1 + t2),
                s == a * (t2 - t1),
        ;
        assert((2 * a * (u - t1) <= 0 <==> u <= t1) && (2 * a * (u - t1) >= 0 <==> u >= t1) && (2
            * a * (u - t2) <= 0 <==> u <= t2) && (2 * a * (u - t2) >= 0 <==> u >= t2))
            by (nonlinear_arith)
            requires
                a > 0,
        ;
    }
    lemma_square_sides(slope(a, b, m), s);
    lemma_square_sides(slope(a, b, n), s);
    assert(lower_root_within(a, b, d, m, n) <==> ray.contains(t1));
    assert(upper_root_within(a, b, d, m, n) <==> ray.contains(t2));
}

} // verus!
