//! Hit records, the intersection protocol, and the scene aggregate with
//! its nearest-hit reduction.

use vstd::prelude::*;
use crate::fixed::SCALE;
use crate::vec3::{Vec3, bounded, in_range, rdot, dot_spec, neg_spec};
use crate::ray::Ray;
use crate::materials::{Material, MaterialKind, ScatterSample, material_kind_wf, scatter_input_ok};
use crate::sphere::{Sphere, sphere_hit_spec};
use crate::{Point3, Color};

verus! {

/// Largest coordinate magnitude of scene points and ray origins.
pub const WORLD_MAX: i64 = 0x100000000;

/// Largest ray parameter a hit query may use as its upper window edge.
pub const T_MAX: i64 = 0x1000000000;

/// The shadow-acne guard: the lower window edge the integrator uses.
pub const T_EPS: i64 = 65;

/// Smallest sphere radius magnitude the intersection arithmetic accepts.
pub const RADIUS_MIN: i64 = 4096;

/// Largest sphere radius magnitude the intersection arithmetic accepts.
pub const RADIUS_MAX: i64 = 0x10000000;

/// What every hit query assumes of the ray and the window: the origin in
/// the world box, the direction in range and of length at least one unit,
/// and the window inside `[0, T_MAX]`.
pub open spec fn hit_query_ok(r: Ray, t_min: i64, t_max: i64) -> bool {
    &&& bounded(r.origin, WORLD_MAX as int)
    &&& in_range(r.direction)
    &&& rdot(r.direction, r.direction) >= SCALE
    &&& 0 <= t_min
    &&& t_max <= T_MAX
}

#[derive(Clone, Copy, Debug)]
pub struct HitRecord {
    pub point: Point3,
    pub normal: Vec3,
    pub distance: i64,
    pub is_front_face: bool,
    pub material: Option<MaterialKind>,
}

/// The record a hit constructs: the normal flipped to oppose the ray, and
/// the front-face flag saying whether the outward normal already did.
pub open spec fn hit_record_spec(outward_normal: Vec3, ray: Ray, distance: i64, point: Point3)
    -> HitRecord {
    let ff = dot_spec(ray.direction, outward_normal) < 0;
    HitRecord {
        point,
        normal: if ff {
            outward_normal
        } else {
            neg_spec(outward_normal)
        },
        distance,
        is_front_face: ff,
        material: None,
    }
}

/// As `hit_record_spec`, carrying a material.
pub open spec fn hit_record_mat_spec(
    outward_normal: Vec3,
    ray: Ray,
    distance: i64,
    point: Point3,
    material: MaterialKind,
) -> HitRecord {
    let base = hit_record_spec(outward_normal, ray, distance, point);
    HitRecord {
        point: base.point,
        normal: base.normal,
        distance: base.distance,
        is_front_face: base.is_front_face,
        material: Some(material),
    }
}

impl HitRecord {
    /// What the scattering code assumes of a record.
    pub open spec fn wf(&self) -> bool {
        &&& bounded(self.normal, SCALE as int)
        &&& match self.material {
            Some(m) => material_kind_wf(m),
            None => true,
        }
    }

    pub fn new(outward_normal: Vec3, ray: &Ray, distance: i64, point: Point3) -> (h: Self)
        requires
            in_range(ray.direction),
            bounded(outward_normal, SCALE as int),
        ensures
            h == hit_record_spec(outward_normal, *ray, distance, point),
            h.wf(),
    {
        let is_front_face = ray.direction.dot(outward_normal) < 0;
        let normal = if is_front_face {
            outward_normal
        } else {
            outward_normal.neg()
        };
        Self { point, distance, normal, is_front_face, material: None }
    }

    pub fn new_with_material(
        outward_normal: Vec3,
        ray: &Ray,
        distance: i64,
        point: Point3,
        material: MaterialKind,
    ) -> (h: Self)
        requires
            in_range(ray.direction),
            bounded(outward_normal, SCALE as int),
            material.wf_spec(),
        ensures
            h == hit_record_mat_spec(outward_normal, *ray, distance, point, material),
            h.wf(),
    {
        let mut rec = Self::new(outward_normal, ray, distance, point);
        rec.material = Some(material);
        rec
    }

    /// Ask the record's material, if any, to scatter the incoming ray.
    pub fn scatter(&self, r: &Ray, samp: &ScatterSample) -> (res: Option<(Ray, Color)>)
        requires
            self.wf(),
            scatter_input_ok(*r, *self, *samp),
        ensures
            res == match self.material {
                Some(m) => m.scatter_spec(*r, *self, *samp),
                None => None::<(Ray, Color)>,
            },
    {
        match &self.material {
            Some(m) => m.scatter(r, self, samp),
            None => None,
        }
    }
}

/// The intersection capability: report the nearest intersection inside the
/// open window `(t_min, t_max)`, or nothing.
pub trait Hittable {
    /// What the implementor assumes of itself.
    spec fn wf(&self) -> bool;

    /// The record `hit` returns, as a function of the query.
    spec fn hit_spec(&self, r: Ray, t_min: i64, t_max: i64) -> Option<HitRecord>;

    fn hit(&self, r: &Ray, t_min: i64, t_max: i64) -> (res: Option<HitRecord>)
        requires
            self.wf(),
            hit_query_ok(*r, t_min, t_max),
        ensures
            res == self.hit_spec(*r, t_min, t_max),
    ;
}

/// The insertion-ordered scene aggregate.
pub struct HittableList {
    pub objects: Vec<Sphere>,
}

/// The nearest-hit fold: each primitive in turn is queried with the window
/// cut at the best distance so far, so a candidate must strictly beat it;
/// on equal distances the earlier primitive keeps the hit.
pub open spec fn list_hit_loop(
    objects: Seq<Sphere>,
    i: int,
    r: Ray,
    t_min: i64,
    closest: i64,
    best: Option<HitRecord>,
) -> Option<HitRecord>
    decreases objects.len() - i,
{
    if i < 0 || i >= objects.len() {
        best
    } else {
        match sphere_hit_spec(objects[i], r, t_min, closest) {
            Some(h) => list_hit_loop(objects, i + 1, r, t_min, h.distance, Some(h)),
            None => list_hit_loop(objects, i + 1, r, t_min, closest, best),
        }
    }
}

impl HittableList {
    pub fn new() -> (l: Self)
        ensures
            l.objects@ =~= Seq::<Sphere>::empty(),
            l.wf(),
    {
        Self { objects: Vec::new() }
    }

    pub fn add(&mut self, object: Sphere)
        requires
            old(self).wf(),
            object.wf(),
        ensures
            final(self).objects@ == old(self).objects@.push(object),
            final(self).wf(),
    {
        self.objects.push(object);
    }
}

impl Hittable for HittableList {
    /// Every primitive of the scene is well formed.
    open spec fn wf(&self) -> bool {
        forall|i: int| 0 <= i < self.objects@.len() ==> (#[trigger] self.objects@[i]).wf()
    }

    open spec fn hit_spec(&self, r: Ray, t_min: i64, t_max: i64) -> Option<HitRecord> {
        list_hit_loop(self.objects@, 0, r, t_min, t_max, None)
    }

    fn hit(&self, r: &Ray, t_min: i64, t_max: i64) -> (res: Option<HitRecord>)
        ensures
            res == self.hit_spec(*r, t_min, t_max),
    {
        let ghost all = self.objects@;
        let mut closest_so_far: i64 = t_max;
        let mut output: Option<HitRecord> = None;
        let n = self.objects.len();
        let mut idx: usize = 0;
        while idx < n
            invariant
                n == all.len(),
                0 <= idx <= n,
                self.objects@ == all,
                self.wf(),
                hit_query_ok(*r, t_min, closest_so_far),
                closest_so_far <= t_max,
                list_hit_loop(all, 0, *r, t_min, t_max, None) == list_hit_loop(all, idx as int,
                    *r, t_min, closest_so_far, output),
            decreases n - idx,
        {
            let item = &self.objects[idx];
            if let Some(rec) = item.hit(r, t_min, closest_so_far) {
                proof {
                    crate::sphere::lemma_sphere_hit_window(all[idx as int], *r, t_min,
                        closest_so_far);
                }
                closest_so_far = rec.distance;
                output = Some(rec);
            }
            idx = idx + 1;
        }
        output
    }
}

} // verus!
