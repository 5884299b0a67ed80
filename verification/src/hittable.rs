use vstd::prelude::*;
use crate::fixed::T_FAR;
use crate::math::{Ray, Vector3};
use crate::shapes::{sphere_hit_record, sphere_hit_t, sphere_hits, Sphere};

verus! {

/// The result of a successful ray/surface intersection: the ray parameter at
/// the hit, the world-space hit point, and the outward surface normal there.
#[derive(Debug, Clone, Copy, PartialEq, Eq, Structural)]
pub struct HitRecord {
    pub t_at_point: i64,
    pub point: Vector3,
    pub normal_from_point: Vector3,
}

/// The all-zero record handed back when nothing was hit.
pub open spec fn empty_record() -> HitRecord {
    HitRecord {
        t_at_point: 0,
        point: Vector3 { x: 0, y: 0, z: 0 },
        normal_from_point: Vector3 { x: 0, y: 0, z: 0 },
    }
}

impl HitRecord {
    pub fn empty_new() -> (r: HitRecord)
        ensures
            r == empty_record(),
    {
        HitRecord {
            t_at_point: 0,
            point: Vector3 { x: 0, y: 0, z: 0 },
            normal_from_point: Vector3 { x: 0, y: 0, z: 0 },
        }
    }

    pub fn new(t_at_point: i64, point: Vector3, normal_from_point: Vector3) -> (r: HitRecord)
        ensures
            r == (HitRecord { t_at_point, point, normal_from_point }),
    {
        HitRecord { t_at_point, point, normal_from_point }
    }

    pub fn get_t(&self) -> (r: i64)
        ensures
            r == self.t_at_point,
    {
        self.t_at_point
    }

    pub fn get_point(&self) -> (r: Vector3)
        ensures
            r == self.point,
    {
        self.point
    }

    pub fn get_normal(&self) -> (r: Vector3)
        ensures
            r == self.normal_from_point,
    {
        self.normal_from_point
    }
}

/// The capability of being tested against a ray over an open parameter
/// interval.  `hit_model` is the exact outcome of the test, and
/// `hit_inputs_ok` says which inputs the test is meaningful for.
pub trait Hittable {
    spec fn hit_inputs_ok(&self, ray: Ray, min_t: int, max_t: int) -> bool;

    spec fn hit_model(&self, ray: Ray, min_t: int, max_t: int) -> (bool, HitRecord);

    /// Test the ray over the open interval `(min_t, max_t)`; on a hit the
    /// record describes the nearest accepted intersection.
    fn did_hit(&self, ray: &Ray, min_t: i64, max_t: i64) -> (res: (bool, HitRecord))
        requires
            self.hit_inputs_ok(*ray, min_t as int, max_t as int),
        ensures
            res == self.hit_model(*ray, min_t as int, max_t as int),
    ;
}

/// Every sphere of the scene lies inside the coordinate range with a positive
/// radius.
pub open spec fn scene_valid(spheres: Seq<Sphere>) -> bool {
    forall|i: int| 0 <= i < spheres.len() ==> (#[trigger] spheres[i]).valid()
}

/// The outcome of testing a ray against every sphere in order, shrinking the
/// upper bound of the search to the closest hit found so far.  This mirrors
/// the scan the scene performs, so the globally nearest hit wins.
pub open spec fn scene_outcome(spheres: Seq<Sphere>, ray: Ray, t_min: int, t_max: int) -> (
    bool,
    HitRecord,
)
    decreases spheres.len(),
{
    if spheres.len() == 0 {
        (false, empty_record())
    } else {
        let prev = scene_outcome(spheres.drop_last(), ray, t_min, t_max);
        let closest = if prev.0 {
            prev.1.t_at_point as int
        } else {
            t_max
        };
        if sphere_hits(spheres.last(), ray, t_min, closest) {
            (true, sphere_hit_record(spheres.last(), ray, t_min, closest))
        } else {
            prev
        }
    }
}

/// What the scene scan computes, said without recursion: it reports a hit
/// exactly when some sphere is hit within the full interval, and then its
/// record is the record of a hit sphere whose accepted parameter is minimal
/// over all hit spheres.
pub proof fn lemma_scene_outcome_characterization(
    spheres: Seq<Sphere>,
    ray: Ray,
    t_min: int,
    t_max: int,
)
    requires
        ray.valid(),
        i64::MIN <= t_min,
        t_max <= i64::MAX,
    ensures
        ({
            let oc = scene_outcome(spheres, ray, t_min, t_max);
            &&& (oc.0 <==> exists|i: int|
                0 <= i < spheres.len() && sphere_hits(#[trigger] spheres[i], ray, t_min, t_max))
            &&& (oc.0 ==> t_min < oc.1.t_at_point < t_max)
            &&& (oc.0 ==> exists|i: int|
                0 <= i < spheres.len() && sphere_hits(#[trigger] spheres[i], ray, t_min, t_max)
                    && oc.1 == sphere_hit_record(spheres[i], ray, t_min, t_max)
                    && oc.1.t_at_point == sphere_hit_t(spheres[i], ray, t_min, t_max))
            &&& (oc.0 ==> forall|j: int|
                0 <= j < spheres.len() && sphere_hits(#[trigger] spheres[j], ray, t_min, t_max)
                    ==> oc.1.t_at_point <= sphere_hit_t(spheres[j], ray, t_min, t_max))
        }),
    decreases spheres.len(),
{
    let n = spheres.len() as int;
    let oc = scene_outcome(spheres, ray, t_min, t_max);
    if n > 0 {
        let prefix = spheres.drop_last();
        lemma_scene_outcome_characterization(prefix, ray, t_min, t_max);
        let prev = scene_outcome(prefix, ray, t_min, t_max);
        let closest = if prev.0 {
            prev.1.t_at_point as int
        } else {
            t_max
        };
        let last = spheres.last();
        crate::shapes::lemma_hit_bound_monotonic(last, ray, t_min, closest, t_max);
        assert(forall|i: int| 0 <= i < n - 1 ==> prefix[i] == spheres[i]);
        if sphere_hits(last, ray, t_min, closest) {
            assert(sphere_hits(spheres[n - 1], ray, t_min, t_max));
            assert(oc.1 == sphere_hit_record(spheres[n - 1], ray, t_min, t_max));
            assert(oc.1.t_at_point == sphere_hit_t(spheres[n - 1], ray, t_min, t_max)
                && t_min < oc.1.t_at_point < t_max);
        } else {
            if prev.0 {
                let wi = choose|i: int|
                    0 <= i < n - 1 && sphere_hits(#[trigger] prefix[i], ray, t_min, t_max)
                        && prev.1 == sphere_hit_record(prefix[i], ray, t_min, t_max)
                        && prev.1.t_at_point == sphere_hit_t(prefix[i], ray, t_min, t_max);
                assert(sphere_hits(spheres[wi], ray, t_min, t_max) && oc.1 == sphere_hit_record(
                    spheres[wi],
                    ray,
                    t_min,
                    t_max,
                ) && oc.1.t_at_point == sphere_hit_t(spheres[wi], ray, t_min, t_max));
            }
        }
    }
}

/// On a hit, the scene's record inherits the bounds of the accepted sphere's
/// record.
pub proof fn lemma_scene_record_bounds(spheres: Seq<Sphere>, ray: Ray, t_min: int, t_max: int)
    requires
        scene_valid(spheres),
        ray.valid(),
        0 <= t_min,
        t_max <= T_FAR as int,
    ensures
        ({
            let oc = scene_outcome(spheres, ray, t_min, t_max);
            oc.0 ==> {
                &&& t_min < oc.1.t_at_point < t_max
                &&& crate::math::within(oc.1.point, 0x200_0000_0000)
                &&& crate::math::within(oc.1.normal_from_point, 0x400_0000_0000_0000)
            }
        }),
{
    lemma_scene_outcome_characterization(spheres, ray, t_min, t_max);
    let oc = scene_outcome(spheres, ray, t_min, t_max);
    if oc.0 {
        let i = choose|i: int|
            0 <= i < spheres.len() && sphere_hits(#[trigger] spheres[i], ray, t_min, t_max)
                && oc.1 == sphere_hit_record(spheres[i], ray, t_min, t_max) && oc.1.t_at_point
                == sphere_hit_t(spheres[i], ray, t_min, t_max);
        crate::shapes::lemma_hit_record_bounds(spheres[i], ray, t_min, t_max);
    }
}

/// Nearest-hit resolution does not depend on the order the spheres were
/// inserted in: two scenes holding the same spheres report the same hit
/// verdict, and on a hit the same accepted ray parameter.
pub proof fn lemma_scene_hit_order_independent(
    u: Seq<Sphere>,
    w: Seq<Sphere>,
    ray: Ray,
    t_min: int,
    t_max: int,
)
    requires
        u.to_multiset() == w.to_multiset(),
        ray.valid(),
        i64::MIN <= t_min,
        t_max <= i64::MAX,
    ensures
        scene_outcome(u, ray, t_min, t_max).0 == scene_outcome(w, ray, t_min, t_max).0,
        scene_outcome(u, ray, t_min, t_max).0 ==> scene_outcome(
            u,
            ray,
            t_min,
            t_max,
        ).1.t_at_point == scene_outcome(w, ray, t_min, t_max).1.t_at_point,
{
    u.to_multiset_ensures();
    w.to_multiset_ensures();
    lemma_scene_outcome_characterization(u, ray, t_min, t_max);
    lemma_scene_outcome_characterization(w, ray, t_min, t_max);
    let ocu = scene_outcome(u, ray, t_min, t_max);
    let ocw = scene_outcome(w, ray, t_min, t_max);
    if ocu.0 {
        let i = choose|i: int|
            0 <= i < u.len() && sphere_hits(#[trigger] u[i], ray, t_min, t_max) && ocu.1
                == sphere_hit_record(u[i], ray, t_min, t_max) && ocu.1.t_at_point
                == sphere_hit_t(u[i], ray, t_min, t_max);
        assert(w.contains(u[i])) by {
            assert(u.contains(u[i]));
            assert(u.to_multiset().count(u[i]) > 0);
            assert(w.to_multiset().count(u[i]) > 0);
        }
        let j = choose|j: int| 0 <= j < w.len() && w[j] == u[i];
        assert(sphere_hits(w[j], ray, t_min, t_max));
        assert(ocw.0);
    }
    if ocw.0 {
        let i = choose|i: int|
            0 <= i < w.len() && sphere_hits(#[trigger] w[i], ray, t_min, t_max) && ocw.1
                == sphere_hit_record(w[i], ray, t_min, t_max) && ocw.1.t_at_point
                == sphere_hit_t(w[i], ray, t_min, t_max);
        assert(u.contains(w[i])) by {
            assert(w.contains(w[i]));
            assert(w.to_multiset().count(w[i]) > 0);
            assert(u.to_multiset().count(w[i]) > 0);
        }
        let j = choose|j: int| 0 <= j < u.len() && u[j] == w[i];
        assert(sphere_hits(u[j], ray, t_min, t_max));
        assert(ocu.0);
    }
    if ocu.0 && ocw.0 {
        // Each accepted parameter is attained by a sphere the other scene
        // also holds, so each is at most the other.
        let i = choose|i: int|
            0 <= i < u.len() && sphere_hits(#[trigger] u[i], ray, t_min, t_max) && ocu.1
                == sphere_hit_record(u[i], ray, t_min, t_max) && ocu.1.t_at_point
                == sphere_hit_t(u[i], ray, t_min, t_max);
        assert(w.contains(u[i])) by {
            assert(u.contains(u[i]));
            assert(u.to_multiset().count(u[i]) > 0);
            assert(w.to_multiset().count(u[i]) > 0);
        }
        let j = choose|j: int| 0 <= j < w.len() && w[j] == u[i];
        assert(ocw.1.t_at_point <= sphere_hit_t(w[j], ray, t_min, t_max));
        let k = choose|k: int|
            0 <= k < w.len() && sphere_hits(#[trigger] w[k], ray, t_min, t_max) && ocw.1
                == sphere_hit_record(w[k], ray, t_min, t_max) && ocw.1.t_at_point
                == sphere_hit_t(w[k], ray, t_min, t_max);
        assert(u.contains(w[k])) by {
            assert(w.contains(w[k]));
            assert(w.to_multiset().count(w[k]) > 0);
            assert(u.to_multiset().count(w[k]) > 0);
        }
        let m = choose|m: int| 0 <= m < u.len() && u[m] == w[k];
        assert(ocu.1.t_at_point <= sphere_hit_t(u[m], ray, t_min, t_max));
    }
}

/// An ordered collection of spheres, tested as one aggregate.
pub struct HittableList {
    pub list: Vec<Sphere>,
}

impl HittableList {
    pub fn new(size: usize) -> (r: HittableList)
        ensures
            r.list@ =~= Seq::<Sphere>::empty(),
    {
        HittableList { list: Vec::with_capacity(size) }
    }

    pub fn add(&mut self, sphere: Sphere)
        ensures
            final(self).list@ =~= old(self).list@.push(sphere),
    {
        self.list.push(sphere);
    }

    pub fn get_list(&self) -> (r: &Vec<Sphere>)
        ensures
            r@ =~= self.list@,
    {
        &self.list
    }
}

impl Hittable for HittableList {
    open spec fn hit_inputs_ok(&self, ray: Ray, min_t: int, max_t: int) -> bool {
        &&& scene_valid(self.list@)
        &&& ray.valid()
        &&& 0 <= min_t
        &&& max_t <= T_FAR as int
    }

    open spec fn hit_model(&self, ray: Ray, min_t: int, max_t: int) -> (bool, HitRecord) {
        scene_outcome(self.list@, ray, min_t, max_t)
    }

    fn did_hit(&self, ray: &Ray, min_t: i64, max_t: i64) -> (res: (bool, HitRecord)) {
        let ghost all = self.list@;
        let mut hit_anything: bool = false;
        let mut closest_hit_so_far: i64 = max_t;
        let mut hit_record: HitRecord = HitRecord::empty_new();
        let n: usize = self.list.len();
        let mut i: usize = 0;
        while i < n
            invariant
                n == self.list.len(),
                all == self.list@,
                i <= n,
                scene_valid(all),
                ray.valid(),
                0 <= min_t,
                max_t <= T_FAR as int,
                (hit_anything, hit_record) == scene_outcome(
                    all.take(i as int),
                    *ray,
                    min_t as int,
                    max_t as int,
                ),
                closest_hit_so_far as int == if hit_anything {
                    hit_record.t_at_point as int
                } else {
                    max_t as int
                },
                hit_anything ==> min_t < closest_hit_so_far < max_t,
            decreases n - i,
        {
            let shape: Sphere = self.list[i];
            let (did_hit, record) = shape.did_hit(ray, min_t, closest_hit_so_far);
            proof {
                assert(all.take(i + 1).drop_last() =~= all.take(i as int));
                assert(all.take(i + 1).last() == all[i as int]);
            }
            if did_hit {
                hit_anything = true;
                closest_hit_so_far = record.get_t();
                hit_record = record;
            }
            i = i + 1;
        }
        proof {
            assert(all.take(n as int) =~= all);
        }
        (hit_anything, hit_record)
    }
}

} // verus!
