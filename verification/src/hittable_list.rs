//! The scene: a flat collection of spheres, hit-tested by narrowing the
//! search interval to the closest intersection found so far.

use vstd::prelude::*;

verus! {

use crate::hittable::HitRecord;
use crate::hittable::HitRecs;
use crate::interval::Interval;
use crate::ray::Ray;
use crate::ray::Rays;
use crate::sphere::Sphere;
use crate::sphere::sphere_wf;
use crate::sphere::spec_sphere_hit;
use crate::sphere::lemma_sphere_hit_some;
use crate::hittable::RAY_MAX;
use crate::material::material_ok;
use crate::material::rec_ok;
use crate::vec3::bounded;
use crate::vec3::s_len_sq;

/// The nearest hit of the ray against a sequence of spheres over
/// `(tmin, tmax)`: each object can only improve on the closest hit found
/// among those before it, strictly, so the first of equally near hits wins.
pub open spec fn spec_list_hit(objs: Seq<Sphere>, r: Rays, tmin: int, tmax: int) -> Option<
    HitRecs,
> {
    spec_list_hit_rec(objs, r, tmin, tmax)
}

pub open spec fn spec_list_hit_rec(objs: Seq<Sphere>, r: Rays, tmin: int, tmax: int) -> Option<HitRecs>
    decreases objs.len(),
{
    if objs.len() == 0 {
        Option::None
    } else {
        let before = spec_list_hit_rec(objs.drop_last(), r, tmin, tmax);
        match before {
            Option::None => spec_sphere_hit(objs.last(), r, tmin, tmax),
            Option::Some(h) => match spec_sphere_hit(objs.last(), r, tmin, h.t) {
                Option::None => Option::Some(h),
                Option::Some(h2) => Option::Some(h2),
            },
        }
    }
}

/// Whatever the scene returns as the closest hit came from some genuine
/// sphere hit, so it carries the same guarantees: an in-range ray with a
/// usable direction, in-range record fields, a well-formed material.
pub proof fn lemma_list_hit_some(objs: Seq<Sphere>, r: Rays, tmin: int, tmax: int)
    requires
        forall|i: int| 0 <= i < objs.len() ==> sphere_wf(#[trigger] objs[i]),
        spec_list_hit_rec(objs, r, tmin, tmax) is Some,
    ensures
        bounded(r.direction, RAY_MAX as int),
        1 <= s_len_sq(r.direction),
        rec_ok(spec_list_hit_rec(objs, r, tmin, tmax)->Some_0),
        material_ok(spec_list_hit_rec(objs, r, tmin, tmax)->Some_0.material),
    decreases objs.len(),
{
    let before = spec_list_hit_rec(objs.drop_last(), r, tmin, tmax);
    if before is Some {
        lemma_list_hit_some(objs.drop_last(), r, tmin, tmax);
        let h = before->Some_0;
        if spec_sphere_hit(objs.last(), r, tmin, h.t) is Some {
            lemma_sphere_hit_some(objs.last(), r, tmin, h.t);
        }
    } else {
        lemma_sphere_hit_some(objs.last(), r, tmin, tmax);
    }
}

pub struct HittableList {
    pub objects: Vec<Sphere>,
}

/// Every sphere in the scene is well formed.
pub open spec fn list_wf(l: HittableList) -> bool {
    forall|i: int| 0 <= i < l.objects@.len() ==> sphere_wf(#[trigger] l.objects@[i])
}

impl HittableList {
    pub fn new() -> (r: HittableList)
        ensures
            r.objects@.len() == 0,
            list_wf(r),
    {
        HittableList { objects: Vec::new() }
    }

    pub fn add(&mut self, object: Sphere)
        requires
            sphere_wf(object),
            list_wf(*old(self)),
        ensures
            final(self).objects@ == old(self).objects@.push(object),
            list_wf(*final(self)),
    {
        self.objects.push(object);
    }

    /// Test the ray against every object, keeping the closest hit.  On a
    /// hit the record holds that closest intersection; on a miss it is
    /// untouched.  The result is exactly `spec_list_hit`.
    pub fn hit(&self, ray: Ray, ray_t: Interval, record: &mut HitRecord) -> (b: bool)
        requires
            list_wf(*self),
        ensures
            match spec_list_hit(self.objects@, ray@, ray_t.min as int, ray_t.max as int) {
                Option::Some(h) => b && final(record)@ == h,
                Option::None => !b && *final(record) == *old(record),
            },
    {
        let ghost objs = self.objects@;
        let mut temp_record = HitRecord::default();
        let mut hit_anything = false;
        let mut closest_so_far = ray_t.max();
        let n = self.objects.len();
        let mut i: usize = 0;
        while i < n
            invariant
                list_wf(*self),
                objs == self.objects@,
                n == objs.len(),
                0 <= i <= n,
                match spec_list_hit_rec(objs.take(i as int), ray@, ray_t.min as int,
                    ray_t.max as int) {
                    Option::Some(h) => hit_anything && temp_record@ == h && record@ == h
                        && closest_so_far == h.t,
                    Option::None => !hit_anything && *record == *old(record) && closest_so_far
                        == ray_t.max,
                },
            decreases n - i,
        {
            proof {
                assert(objs.take(i + 1).drop_last() =~= objs.take(i as int));
                assert(objs.take(i + 1).last() == objs[i as int]);
            }
            if self.objects[i].hit(ray, Interval::new(ray_t.min(), closest_so_far),
                &mut temp_record) {
                hit_anything = true;
                closest_so_far = temp_record.t;
                *record = temp_record;
            }
            i = i + 1;
        }
        proof {
            assert(objs.take(n as int) =~= objs);
        }
        hit_anything
    }
}

} // verus!
