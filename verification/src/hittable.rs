//! Hit records: the transient result of a ray-object intersection, and the
//! bounds the renderer keeps every intersection inside.

use vstd::prelude::*;

verus! {

use crate::fixed::SCALE;
use crate::color::Color;
use crate::material::Material;
use crate::ray::Ray;
use crate::vec3::Vec3;
use crate::vec3::Vec3s;
use crate::vec3::Point3;
use crate::vec3::VOP_MAX;
use crate::vec3::bounded;
use crate::vec3::s_dot;
use crate::vec3::s_neg;

/// Componentwise bound on the rays the intersection tests accept; a ray
/// outside it hits nothing.
pub const RAY_MAX: i128 = 549755813888;

/// Componentwise bound on scene geometry: sphere centers and radii.
pub const WORLD_MAX: i128 = 68719476736;

/// Componentwise bound on hit points; an intersection farther out than this
/// is discarded as a miss.
pub const POINT_MAX: i128 = 274877906944;

/// Componentwise bound on outward normals, four times the unit; a normal is
/// near-unit whenever the hit is genuine.
pub const NORMAL_MAX: i128 = 4 * SCALE;

/// The mathematical model of a hit record.
pub ghost struct HitRecs {
    pub point: Vec3s,
    pub normal: Vec3s,
    pub material: Material,
    pub t: int,
    pub front_face: bool,
}

#[derive(Clone, Copy, Debug)]
pub struct HitRecord {
    pub point: Point3,
    pub normal: Vec3,
    pub material: Material,
    pub t: i128,
    pub front_face: bool,
}

impl View for HitRecord {
    type V = HitRecs;

    open spec fn view(&self) -> HitRecs {
        HitRecs {
            point: self.point@,
            normal: self.normal@,
            material: self.material,
            t: self.t as int,
            front_face: self.front_face,
        }
    }
}

impl HitRecord {
    /// Record which side the ray struck: the stored normal always faces
    /// against the incoming ray, and `front_face` remembers whether that is
    /// the outward side.
    pub fn set_face_normal(&mut self, ray: Ray, outward_normal: Vec3)
        requires
            bounded(ray@.direction, VOP_MAX as int),
            bounded(outward_normal@, VOP_MAX as int),
        ensures
            final(self)@.front_face == (s_dot(ray@.direction, outward_normal@) < 0),
            final(self)@.normal == (
            if s_dot(ray@.direction, outward_normal@) < 0 {
                outward_normal@
            } else {
                s_neg(outward_normal@)
            }),
            final(self)@.point == old(self)@.point,
            final(self)@.material == old(self)@.material,
            final(self)@.t == old(self)@.t,
    {
        self.front_face = ray.direction().dot(outward_normal) < 0;
        self.normal = if self.front_face {
            outward_normal
        } else {
            outward_normal.neg()
        };
    }
}

impl Default for HitRecord {
    /// A blank record: everything zero, the material a black diffuse.
    fn default() -> (r: HitRecord)
        ensures
            r@.point == (Vec3s { x: 0, y: 0, z: 0 }),
            r@.normal == (Vec3s { x: 0, y: 0, z: 0 }),
            r@.material == Material::Lambertian(Color { x: 0, y: 0, z: 0 }),
            r@.t == 0,
            r@.front_face == false,
    {
        HitRecord {
            point: Point3::zero(),
            normal: Vec3::zero(),
            material: Material::Lambertian(Color::zero()),
            t: 0,
            front_face: false,
        }
    }
}

} // verus!
