//! Rays: an origin with a direction, evaluated parametrically.

use vstd::prelude::*;

verus! {

use crate::fixed::fmuls;
use crate::fixed::fmul;
use crate::vec3::Vec3;
use crate::vec3::Vec3s;
use crate::vec3::Point3;
use crate::vec3::s_add;
use crate::vec3::s_scale;

/// The mathematical model of a ray.
pub ghost struct Rays {
    pub origin: Vec3s,
    pub direction: Vec3s,
}

/// The point a parameter `t` steps along the ray: `origin + t * direction`.
pub open spec fn s_ray_at(r: Rays, t: int) -> Vec3s {
    s_add(r.origin, s_scale(r.direction, t))
}

#[derive(Clone, Copy, Debug)]
pub struct Ray {
    pub origin: Point3,
    pub direction: Vec3,
}

impl View for Ray {
    type V = Rays;

    open spec fn view(&self) -> Rays {
        Rays { origin: self.origin@, direction: self.direction@ }
    }
}

impl Default for Ray {
    /// A ray at rest at the origin.
    fn default() -> (r: Ray)
        ensures
            r@.origin == (Vec3s { x: 0, y: 0, z: 0 }),
            r@.direction == (Vec3s { x: 0, y: 0, z: 0 }),
    {
        Ray { origin: Point3 { x: 0, y: 0, z: 0 }, direction: Vec3 { x: 0, y: 0, z: 0 } }
    }
}

impl Ray {
    pub fn new(origin: Point3, direction: Vec3) -> (r: Ray)
        ensures
            r@.origin == origin@,
            r@.direction == direction@,
    {
        Ray { origin, direction }
    }

    pub fn origin(self) -> (r: Point3)
        ensures
            r@ == self@.origin,
    {
        self.origin
    }

    pub fn direction(self) -> (r: Vec3)
        ensures
            r@ == self@.direction,
    {
        self.direction
    }

    /// The point the parameter `t` reaches along this ray.
    pub fn at(self, t: i128) -> (r: Point3)
        requires
            -(i128::MAX as int) <= self@.direction.x * t <= i128::MAX as int,
            -(i128::MAX as int) <= self@.direction.y * t <= i128::MAX as int,
            -(i128::MAX as int) <= self@.direction.z * t <= i128::MAX as int,
            -(i128::MAX as int) <= self@.origin.x + fmuls(self@.direction.x, t as int)
                <= i128::MAX as int,
            -(i128::MAX as int) <= self@.origin.y + fmuls(self@.direction.y, t as int)
                <= i128::MAX as int,
            -(i128::MAX as int) <= self@.origin.z + fmuls(self@.direction.z, t as int)
                <= i128::MAX as int,
        ensures
            r@ == s_ray_at(self@, t as int),
    {
        Point3 {
            x: self.origin.x + fmul(self.direction.x, t),
            y: self.origin.y + fmul(self.direction.y, t),
            z: self.origin.z + fmul(self.direction.z, t),
        }
    }
}

} // verus!
