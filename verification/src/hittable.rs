//! Hit records, parameter intervals, and the scene aggregate.

use vstd::prelude::*;

use crate::fixed::{FX_MAX, FX_MIN};
use crate::material::Material;
use crate::ray::Ray;
use crate::sphere::{spec_sphere_hit, Sphere};
use crate::vec3::{dot, spec_dot, spec_neg, Point3, Vec3};

verus! {

/// What an accepted intersection reports: position, oriented unit
/// normal, ray parameter, which face was struck, and the material.
#[derive(Clone, Copy, Debug)]
pub struct HitRecord {
    pub p: Point3,
    pub normal: Vec3,
    pub t: i64,
    pub front_face: bool,
    pub mat: Option<Material>,
}

impl HitRecord {
    /// An empty record: all zero, no material.
    pub fn new() -> (r: Self)
        ensures
            r.p == (Vec3 { x: 0i64, y: 0i64, z: 0i64 }),
            r.normal == (Vec3 { x: 0i64, y: 0i64, z: 0i64 }),
            r.t == 0i64,
            r.front_face == false,
            r.mat is None,
    {
        Self {
            p: Point3 { x: 0, y: 0, z: 0 },
            normal: Vec3 { x: 0, y: 0, z: 0 },
            t: 0,
            front_face: false,
            mat: None,
        }
    }

    /// Store the normal oriented against the incoming ray; the given
    /// `outward_normal` is assumed to have unit length.
    pub fn set_face_normal(&mut self, ray: &Ray, outward_normal: Vec3)
        ensures
            final(self).front_face == (spec_dot(ray.dir, outward_normal) < 0),
            final(self).normal == if spec_dot(ray.dir, outward_normal) < 0 {
                outward_normal
            } else {
                spec_neg(outward_normal)
            },
            final(self).p == old(self).p,
            final(self).t == old(self).t,
            final(self).mat == old(self).mat,
    {
        self.front_face = dot(&ray.direction(), &outward_normal) < 0;
        self.normal = if self.front_face {
            outward_normal
        } else {
            outward_normal.neg()
        };
    }
}

/// A closed parameter range with infinity sentinels at the scale's ends.
#[derive(Clone, Copy, Debug)]
pub struct Interval {
    pub min: i64,
    pub max: i64,
}

/// Whether `x` lies in the closed range.
pub open spec fn spec_contains(i: Interval, x: int) -> bool {
    i.min <= x <= i.max
}

/// Whether `x` lies strictly inside the range.
pub open spec fn spec_surrounds(i: Interval, x: int) -> bool {
    i.min < x < i.max
}

/// `x` pulled into the closed range.
pub open spec fn spec_clamp(i: Interval, x: int) -> int {
    if x < i.min {
        i.min as int
    } else if x > i.max {
        i.max as int
    } else {
        x
    }
}

impl Interval {
    /// The degenerate range holding only zero.
    pub fn new() -> (r: Self)
        ensures
            r.min == 0i64 && r.max == 0i64,
    {
        Self { min: 0, max: 0 }
    }

    /// The empty range: its lower sentinel exceeds its upper.
    pub fn empty() -> (r: Self)
        ensures
            r.min == FX_MAX && r.max == FX_MIN,
    {
        Self { min: FX_MAX, max: FX_MIN }
    }

    /// The range of every scalar.
    pub fn universe() -> (r: Self)
        ensures
            r.min == FX_MIN && r.max == FX_MAX,
    {
        Self { min: FX_MIN, max: FX_MAX }
    }

    /// The range with the given ends.
    pub fn from(min: i64, max: i64) -> (r: Self)
        ensures
            r.min == min && r.max == max,
    {
        Self { min, max }
    }

    /// Whether `x` lies in the closed range.
    pub fn contains(&self, x: i64) -> (r: bool)
        ensures
            r == spec_contains(*self, x as int),
    {
        self.min <= x && x <= self.max
    }

    /// Whether `x` lies strictly inside the range.
    pub fn surrounds(&self, x: i64) -> (r: bool)
        ensures
            r == spec_surrounds(*self, x as int),
    {
        self.min < x && x < self.max
    }

    /// `x` pulled into the closed range.
    pub fn clamp(&self, x: i64) -> (r: i64)
        ensures
            r as int == spec_clamp(*self, x as int),
    {
        if x < self.min {
            self.min
        } else if x > self.max {
            self.max
        } else {
            x
        }
    }
}

/// Clamping a well-formed interval is idempotent: clamping a clamped
/// value changes nothing.  (An empty sentinel interval, whose lower end
/// exceeds its upper, is excluded: there the two ends chase each other.)
pub proof fn lemma_clamp_idempotent(i: Interval, x: int)
    requires
        i.min <= i.max,
    ensures
        spec_clamp(i, spec_clamp(i, x)) == spec_clamp(i, x),
{
}

/// A well-formed scene member: it carries a material, and a well-formed
/// one.  (A sphere without a material is a degenerate testing
/// affordance: a hit on it shows the normal-visualization fallback.)
pub open spec fn spec_sphere_wf(s: Sphere) -> bool {
    match s.mat {
        None => false,
        Some(m) => crate::material::spec_material_wf(m),
    }
}

/// A well-formed scene: every member is.
pub open spec fn spec_world_wf(objects: Seq<Sphere>) -> bool {
    forall|k: int| 0 <= k < objects.len() ==> #[trigger] spec_sphere_wf(objects[k])
}

/// Appending a well-formed member keeps a scene well formed.
pub proof fn lemma_world_wf_push(objects: Seq<Sphere>, s: Sphere)
    requires
        spec_world_wf(objects),
        spec_sphere_wf(s),
    ensures
        spec_world_wf(objects.push(s)),
{
    let pushed = objects.push(s);
    assert forall|k: int| 0 <= k < pushed.len() implies #[trigger] spec_sphere_wf(pushed[k]) by {
        if k < objects.len() {
            assert(pushed[k] == objects[k]);
        } else {
            assert(pushed[k] == s);
        }
    }
}

/// The scene: an ordered aggregate of spheres, queried for the closest
/// hit; the order of members never changes the answer.
#[derive(Debug)]
pub struct HittableList {
    pub objects: Vec<Sphere>,
}

impl HittableList {
    /// An empty scene.
    pub fn new() -> (r: Self)
        ensures
            r.objects@.len() == 0,
    {
        Self { objects: Vec::new() }
    }

    /// A scene holding one object.
    pub fn from(object: Sphere) -> (r: Self)
        ensures
            r.objects@.len() == 1,
            r.objects@[0] == object,
    {
        let mut objects = Vec::new();
        objects.push(object);
        Self { objects }
    }

    /// Append an object to the scene.
    pub fn add(&mut self, object: Sphere)
        ensures
            final(self).objects@ == old(self).objects@.push(object),
    {
        self.objects.push(object);
    }

    /// The closest hit among all members strictly inside `ray_t`: the
    /// answer is some member's own hit for the full interval, and no
    /// member hits nearer.  No hit is reported only when no member hits.
    #[verifier::rlimit(50)]
    pub fn hit(&self, ray: &Ray, ray_t: Interval) -> (res: Option<HitRecord>)
        ensures
            match res {
                None => forall|k: int|
                    0 <= k < self.objects@.len() ==> spec_sphere_hit(
                        self.objects@[k],
                        *ray,
                        ray_t,
                    ) is None,
                Some(rec) => {
                    &&& exists|k: int|
                        0 <= k < self.objects@.len() && spec_sphere_hit(
                            self.objects@[k],
                            *ray,
                            ray_t,
                        ) == Some(rec)
                    &&& forall|k: int|
                        0 <= k < self.objects@.len() ==> match #[trigger] spec_sphere_hit(
                            self.objects@[k],
                            *ray,
                            ray_t,
                        ) {
                            Some(h) => rec.t <= h.t,
                            None => true,
                        }
                },
            },
    {
        let mut result: Option<HitRecord> = None;
        let mut closest_so_far: i64 = ray_t.max;
        let mut idx: usize = 0;

        while idx < self.objects.len()
            invariant
                idx <= self.objects@.len(),
                match result {
                    None => closest_so_far == ray_t.max && forall|k: int|
                        0 <= k < idx ==> spec_sphere_hit(self.objects@[k], *ray, ray_t) is None,
                    Some(rec) => {
                        &&& closest_so_far == rec.t
                        &&& exists|k: int|
                            0 <= k < idx && spec_sphere_hit(self.objects@[k], *ray, ray_t) == Some(
                                rec,
                            )
                        &&& forall|k: int|
                            0 <= k < idx ==> match #[trigger] spec_sphere_hit(
                                self.objects@[k],
                                *ray,
                                ray_t,
                            ) {
                                Some(h) => rec.t <= h.t,
                                None => true,
                            }
                    },
                },
            decreases self.objects@.len() - idx,
        {
            let object = &self.objects[idx];
            let shrunk = Interval::from(ray_t.min, closest_so_far);
            match object.hit(ray, shrunk) {
                Some(temp_rec) => {
                    proof {
                        crate::sphere::lemma_sphere_hit_t(*object, *ray, shrunk, temp_rec);
                        crate::sphere::lemma_sphere_hit_widen(
                            *object,
                            *ray,
                            ray_t.min,
                            closest_so_far,
                            ray_t.max,
                            temp_rec,
                        );
                    }
                    closest_so_far = temp_rec.t;
                    result = Some(temp_rec);
                },
                None => {
                    proof {
                        crate::sphere::lemma_sphere_hit_shrink_none(
                            *object,
                            *ray,
                            ray_t.min,
                            closest_so_far,
                            ray_t.max,
                        );
                        if let Some(h) = spec_sphere_hit(self.objects@[idx as int], *ray, ray_t) {
                            crate::sphere::lemma_sphere_hit_t(*object, *ray, ray_t, h);
                        }
                    }
                },
            }
            idx = idx + 1;
        }
        result
    }
}

} // verus!
