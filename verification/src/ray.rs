//! Rays, lights, materials, and the geometric primitives they interact
//! with.
//!
//! A primitive is a tagged variant over spheres and infinite planes,
//! dispatched by a single match: adding a shape means adding a variant.
//! Intersection works on the fixed-point scalars of [`crate::fx`]; where
//! floating point would produce non-finite intermediate values (a negative
//! discriminant, a ray parallel to a plane) the degenerate input is
//! rejected explicitly, and the outcome is a miss, as the non-finite
//! comparisons would have resolved it.

use crate::fx::{fx_add, fx_div, fx_mul, fx_neg, fx_sqrt, fx_sub, FX_ONE};
use crate::fx::{fx_add_spec, fx_div_spec, fx_mul_spec, fx_neg_spec, fx_sqrt_spec, fx_sub_spec};
use crate::vector::{dot_spec, norm_spec, sat64, vneg_spec, vsub_spec, Vector};
use vstd::prelude::*;

verus! {

/// Defines how a light can behave.
#[derive(Clone, Copy, Debug)]
pub enum LightType {
    /// A point light that emits light from a single point.
    Point(Vector),
    /// A directional light that emits light from a single direction.
    /// The `Vector` held holds the direction going _to_ the light source.
    Directional(Vector),
    /// An ambient light illuminates everything equally.
    Ambient,
}

/// A light source in the scene.
#[derive(Clone, Copy, Debug)]
pub struct Light {
    pub color: Vector,
    pub kind: LightType,
}

/// A mathematical ray structure.
#[derive(Clone, Copy, Debug)]
pub struct Ray {
    /// The origin.
    pub o: Vector,
    /// The direction.
    pub d: Vector,
}

/// Defines how a ray can intersect with things.
#[derive(PartialEq, Eq, Structural, Clone, Copy, Debug)]
pub enum HitType {
    /// Indicates an intersection at time parameter `t`.
    Hit(i64),
    /// Indicates no intersection.
    Miss(),
}

/// Controls how colors appear in the scene.
#[derive(Clone, Copy, Debug)]
pub struct Material {
    /// Diffuse albedo, conventionally within the unit cube.
    pub color: Vector,
    /// Specular exponent as a plain integer power; non-positive disables
    /// specular highlights.
    pub specular: i64,
    /// Reflectivity from 0 to 1, in fixed point.
    pub refl: i64,
}

/// Defines an infinite plane with a given normal.
#[derive(Clone, Copy, Debug)]
pub struct Plane {
    /// A point on the plane.
    pub p: Vector,
    /// A normal perpendicular to the plane.
    pub n: Vector,
    /// The material of the plane.
    pub mat: Material,
}

/// Defines a sphere.
#[derive(Clone, Copy, Debug)]
pub struct Sphere {
    /// The center of the sphere.
    pub c: Vector,
    /// The radius of the sphere.
    pub r: i64,
    /// The material of the sphere.
    pub mat: Material,
}

/// A renderable shape: the tagged variant the resolver dispatches over.
#[derive(Clone, Copy, Debug)]
pub enum Primitive {
    Sphere(Sphere),
    Plane(Plane),
}

/// Three-component well-formedness of a ray: every scene vector in this
/// renderer is declared with length 3.
pub open spec fn ray_wf(r: Ray) -> bool {
    r.o.dlen() == 3 && r.d.dlen() == 3
}

/// Three-component well-formedness of a material's color.
pub open spec fn material_wf(m: Material) -> bool {
    m.color.dlen() == 3
}

/// Three-component well-formedness of a plane.
pub open spec fn plane_wf(pl: Plane) -> bool {
    pl.p.dlen() == 3 && pl.n.dlen() == 3 && material_wf(pl.mat)
}

/// Three-component well-formedness of a sphere.
pub open spec fn sphere_wf(s: Sphere) -> bool {
    s.c.dlen() == 3 && material_wf(s.mat)
}

/// Three-component well-formedness of a primitive.
pub open spec fn prim_wf(pr: Primitive) -> bool {
    match pr {
        Primitive::Sphere(s) => sphere_wf(s),
        Primitive::Plane(pl) => plane_wf(pl),
    }
}

/// Three-component well-formedness of a light.
pub open spec fn light_wf(l: Light) -> bool {
    l.color.dlen() == 3 && match l.kind {
        LightType::Point(v) => v.dlen() == 3,
        LightType::Directional(v) => v.dlen() == 3,
        LightType::Ambient => true,
    }
}

/// What `Plane::hit` returns: a facing test on the negated direction, then
/// the plane equation solved for `t`, reported only within the open
/// interval. A ray parallel to the plane (a zero denominator) fails the
/// strict facing test and is a miss outright, where floating point would
/// reach the same outcome through non-finite comparisons.
pub open spec fn plane_hit_spec(pl: Plane, r: Ray, t0: int, t1: int) -> HitType {
    let denom = dot_spec(pl.n, vneg_spec(r.d));
    if denom > 0 {
        let t = fx_div_spec(dot_spec(pl.n, vsub_spec(r.o, pl.p)), denom);
        if t0 < t && t < t1 {
            HitType::Hit(sat64(t))
        } else {
            HitType::Miss()
        }
    } else {
        HitType::Miss()
    }
}

/// What `Sphere::hit` returns: the quadratic `a t^2 + b t + c = 0` solved
/// in fixed point, each root tested against the open interval, the nearer
/// in-range root winning. A negative discriminant is a miss outright,
/// where floating point would reach the same outcome through non-finite
/// comparisons.
pub open spec fn sphere_hit_spec(s: Sphere, r: Ray, t0: int, t1: int) -> HitType {
    let a = dot_spec(r.d, r.d);
    let oc = vsub_spec(r.o, s.c);
    let b = fx_mul_spec(2 * FX_ONE, dot_spec(oc, r.d));
    let c = fx_sub_spec(dot_spec(oc, oc), fx_mul_spec(s.r as int, s.r as int));
    let disc = fx_sub_spec(fx_mul_spec(b, b), fx_mul_spec(fx_mul_spec(4 * FX_ONE, a), c));
    if disc < 0 {
        HitType::Miss()
    } else {
        let sq = fx_sqrt_spec(disc);
        let den = fx_mul_spec(2 * FX_ONE, a);
        let r1 = fx_div_spec(fx_add_spec(fx_neg_spec(b), sq), den);
        let r2 = fx_div_spec(fx_sub_spec(fx_neg_spec(b), sq), den);
        let in1 = t0 < r1 && r1 < t1;
        let in2 = t0 < r2 && r2 < t1;
        if !in1 && !in2 {
            HitType::Miss()
        } else if in1 && !in2 {
            HitType::Hit(sat64(r1))
        } else if !in1 && in2 {
            HitType::Hit(sat64(r2))
        } else if r1 < r2 {
            HitType::Hit(sat64(r1))
        } else {
            HitType::Hit(sat64(r2))
        }
    }
}

/// What a primitive's intersection test returns, by its variant.
pub open spec fn prim_hit_spec(pr: Primitive, r: Ray, t0: int, t1: int) -> HitType {
    match pr {
        Primitive::Sphere(s) => sphere_hit_spec(s, r, t0, t1),
        Primitive::Plane(pl) => plane_hit_spec(pl, r, t0, t1),
    }
}

/// The outward normal a primitive reports at surface point `p`.
pub open spec fn prim_normal_spec(pr: Primitive, p: Vector) -> Vector {
    match pr {
        Primitive::Sphere(s) => norm_spec(vsub_spec(p, s.c)),
        Primitive::Plane(pl) => pl.n,
    }
}

/// The material a primitive reports, constant over its surface.
pub open spec fn prim_material_spec(pr: Primitive) -> Material {
    match pr {
        Primitive::Sphere(s) => s.mat,
        Primitive::Plane(pl) => pl.mat,
    }
}

impl Plane {
    /// Checks for a hit from ray `r` over the open time range `t`.
    pub fn hit(&self, r: &Ray, t: (i64, i64)) -> (h: HitType)
        requires
            plane_wf(*self),
            ray_wf(*r),
        ensures
            h == plane_hit_spec(*self, *r, t.0 as int, t.1 as int),
    {
        let denom = self.n.dot(r.d.neg());
        if denom > 0 {
            let tt = fx_div(self.n.dot(r.o.sub(self.p)), denom);
            if t.0 < tt && tt < t.1 {
                return HitType::Hit(tt);
            } else {
                return HitType::Miss();
            }
        }
        HitType::Miss()
    }

    /// Calculates a normal at point `p` on the plane surface.
    pub fn normal(&self, p: &Vector) -> (n: Vector)
        ensures
            n == self.n,
    {
        let _ = p;
        self.n
    }

    /// Calculates the color at point `p` on the surface.
    /// Constant unless the material is defined procedurally.
    pub fn material(&self, p: &Vector) -> (m: Material)
        ensures
            m == self.mat,
    {
        let _ = p;
        self.mat
    }
}

impl Sphere {
    /// Checks if ray `r` hits the sphere over the open time range `t`.
    pub fn hit(&self, r: &Ray, t: (i64, i64)) -> (h: HitType)
        requires
            sphere_wf(*self),
            ray_wf(*r),
        ensures
            h == sphere_hit_spec(*self, *r, t.0 as int, t.1 as int),
    {
        let a = r.d.dot(r.d);
        let oc = r.o.sub(self.c);
        let b = fx_mul(2 * FX_ONE, oc.dot(r.d));
        let c = fx_sub(oc.dot(oc), fx_mul(self.r, self.r));
        let disc = fx_sub(fx_mul(b, b), fx_mul(fx_mul(4 * FX_ONE, a), c));
        if disc < 0 {
            return HitType::Miss();
        }
        let sq = fx_sqrt(disc);
        let den = fx_mul(2 * FX_ONE, a);
        let t1 = fx_div(fx_add(fx_neg(b), sq), den);
        let t2 = fx_div(fx_sub(fx_neg(b), sq), den);
        let in1 = t.0 < t1 && t1 < t.1;
        let in2 = t.0 < t2 && t2 < t.1;
        if !in1 && !in2 {
            HitType::Miss()
        } else if in1 && !in2 {
            HitType::Hit(t1)
        } else if !in1 && in2 {
            HitType::Hit(t2)
        } else if t1 < t2 {
            HitType::Hit(t1)
        } else {
            HitType::Hit(t2)
        }
    }

    /// Calculates a normal at point `p` on the sphere surface.
    pub fn normal(&self, p: &Vector) -> (n: Vector)
        requires
            sphere_wf(*self),
            p.dlen() == 3,
        ensures
            n == norm_spec(vsub_spec(*p, self.c)),
    {
        (*p).sub(self.c).norm()
    }

    /// Calculates the color at point `p` on the surface.
    /// Constant unless the material is defined procedurally.
    pub fn material(&self, p: &Vector) -> (m: Material)
        ensures
            m == self.mat,
    {
        let _ = p;
        self.mat
    }
}

impl Primitive {
    /// Checks for a hit from ray `r` over the open time range `t`.
    pub fn hit(&self, r: &Ray, t: (i64, i64)) -> (h: HitType)
        requires
            prim_wf(*self),
            ray_wf(*r),
        ensures
            h == prim_hit_spec(*self, *r, t.0 as int, t.1 as int),
    {
        match self {
            Primitive::Sphere(s) => s.hit(r, t),
            Primitive::Plane(pl) => pl.hit(r, t),
        }
    }

    /// Calculates a normal at point `p` on the primitive's surface.
    pub fn normal(&self, p: &Vector) -> (n: Vector)
        requires
            prim_wf(*self),
            p.dlen() == 3,
        ensures
            n == prim_normal_spec(*self, *p),
    {
        match self {
            Primitive::Sphere(s) => s.normal(p),
            Primitive::Plane(pl) => pl.normal(p),
        }
    }

    /// Calculates the color at point `p` on the primitive's surface.
    pub fn material(&self, p: &Vector) -> (m: Material)
        ensures
            m == prim_material_spec(*self),
    {
        match self {
            Primitive::Sphere(s) => s.material(p),
            Primitive::Plane(pl) => pl.material(p),
        }
    }
}

} // verus!
