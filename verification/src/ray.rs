//! Rays: an origin with a direction, evaluated along a parameter.

use vstd::prelude::*;

use crate::vec3::{spec_add, spec_scale, Point3, Vec3};

verus! {

/// A half-line through `orig` along `dir` (not necessarily unit length).
#[derive(Clone, Copy, Debug)]
pub struct Ray {
    pub orig: Point3,
    pub dir: Vec3,
}

/// The point reached after parameter `t` along the ray.
pub open spec fn spec_at(r: Ray, t: int) -> Point3 {
    spec_add(r.orig, spec_scale(r.dir, t))
}

impl Ray {
    /// The degenerate ray at the origin.
    pub fn new() -> (r: Self)
        ensures
            r.orig == (Vec3 { x: 0i64, y: 0i64, z: 0i64 }),
            r.dir == (Vec3 { x: 0i64, y: 0i64, z: 0i64 }),
    {
        Self { orig: Point3 { x: 0, y: 0, z: 0 }, dir: Vec3 { x: 0, y: 0, z: 0 } }
    }

    /// A ray with the given origin and direction.
    pub fn from(orig: Point3, dir: Vec3) -> (r: Self)
        ensures
            r.orig == orig,
            r.dir == dir,
    {
        Self { orig, dir }
    }

    /// The origin.
    pub fn origin(&self) -> (r: Point3)
        ensures
            r == self.orig,
    {
        self.orig
    }

    /// The direction.
    pub fn direction(&self) -> (r: Vec3)
        ensures
            r == self.dir,
    {
        self.dir
    }

    /// The point reached after parameter `t`.
    pub fn at(&self, t: i64) -> (r: Vec3)
        ensures
            r == spec_at(*self, t as int),
    {
        self.orig.add(&self.dir.scale(t))
    }
}

} // verus!
