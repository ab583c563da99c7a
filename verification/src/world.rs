//! The scene: an insertion-ordered list of spheres, answering the
//! globally nearest intersection.

use vstd::prelude::*;

verus! {

use crate::hittable::{HitRecord, Hittable};
use crate::material::mat_wf;
use crate::ray::Ray;
use crate::shapes::{Sphere, sphere_hit_t, is_sphere_hit, lemma_hit_shrink};

/// What the scene's intersection answers: no member hits within the
/// range, or the record of one member's hit, no member hitting
/// nearer.
pub open spec fn is_nearest_hit(
    objects: Seq<Sphere>,
    r: Ray,
    t_min: int,
    t_max: int,
    res: Option<HitRecord>,
) -> bool {
    match res {
        Option::None => forall|k: int|
            0 <= k < objects.len() ==> #[trigger] sphere_hit_t(objects[k], r, t_min, t_max)
                is None,
        Option::Some(rec) => {
            &&& exists|k: int|
                0 <= k < objects.len() && #[trigger] is_sphere_hit(
                    objects[k],
                    r,
                    t_min,
                    t_max,
                    res,
                )
            &&& forall|k: int|
                0 <= k < objects.len() ==> (#[trigger] sphere_hit_t(objects[k], r, t_min, t_max)
                    matches Some(t) ==> rec.t <= t)
        },
    }
}

/// The scene's nearest intersection does not depend on the order in
/// which its members were inserted: two scenes holding the same
/// spheres agree on whether anything is hit, and on the nearest
/// parametric distance.
pub proof fn lemma_hit_order_invariant(
    objs1: Seq<Sphere>,
    objs2: Seq<Sphere>,
    r: Ray,
    t_min: int,
    t_max: int,
    res1: Option<HitRecord>,
    res2: Option<HitRecord>,
)
    requires
        forall|s: Sphere| objs1.contains(s) <==> objs2.contains(s),
        is_nearest_hit(objs1, r, t_min, t_max, res1),
        is_nearest_hit(objs2, r, t_min, t_max, res2),
    ensures
        res1 is Some <==> res2 is Some,
        res1 matches Some(rec1) ==> (res2 matches Some(rec2) ==> rec1.t == rec2.t),
{
    lemma_nearest_t_bound(objs1, objs2, r, t_min, t_max, res1, res2);
    lemma_nearest_t_bound(objs2, objs1, r, t_min, t_max, res2, res1);
}

/// One direction of the order-invariance argument: if the first
/// scene reports a hit, the second reports one at most as far.
proof fn lemma_nearest_t_bound(
    objs1: Seq<Sphere>,
    objs2: Seq<Sphere>,
    r: Ray,
    t_min: int,
    t_max: int,
    res1: Option<HitRecord>,
    res2: Option<HitRecord>,
)
    requires
        forall|s: Sphere| objs1.contains(s) <==> objs2.contains(s),
        is_nearest_hit(objs1, r, t_min, t_max, res1),
        is_nearest_hit(objs2, r, t_min, t_max, res2),
    ensures
        res1 matches Some(rec1) ==> (res2 matches Some(rec2) && rec2.t <= rec1.t),
{
    match res1 {
        Option::Some(rec1) => {
            let k1 = choose|k: int|
                0 <= k < objs1.len() && #[trigger] is_sphere_hit(objs1[k], r, t_min, t_max, res1);
            assert(objs1.contains(objs1[k1]));
            assert(objs2.contains(objs1[k1]));
            let k2 = choose|i: int| 0 <= i < objs2.len() && objs2[i] == objs1[k1];
            assert(sphere_hit_t(objs2[k2], r, t_min, t_max) == Option::Some(rec1.t as int));
            match res2 {
                Option::Some(rec2) => {
                    assert(rec2.t <= rec1.t);
                },
                Option::None => {
                    assert(sphere_hit_t(objs2[k2], r, t_min, t_max) is None);
                    assert(false);
                },
            }
        },
        Option::None => {},
    }
}

/// The scene aggregate.
pub struct World {
    pub objects: Vec<Sphere>,
}

/// Every member's material is well formed.
pub open spec fn world_wf(w: World) -> bool {
    forall|k: int| 0 <= k < w.objects@.len() ==> mat_wf(#[trigger] w.objects@[k].mat)
}

impl World {
    pub fn new() -> (w: World)
        ensures
            w.objects@.len() == 0,
    {
        World { objects: Vec::new() }
    }

    /// Scene setup: append one sphere.
    pub fn push(&mut self, s: Sphere)
        ensures
            final(self).objects@ == old(self).objects@.push(s),
    {
        self.objects.push(s);
    }
}

impl Hittable for World {
    /// Linear scan over the members, shrinking the search range to
    /// the nearest hit found so far.
    fn hit(&self, ray: Ray, t_min: i64, t_max: i64) -> (res: Option<HitRecord>)
        ensures
            is_nearest_hit(self.objects@, ray, t_min as int, t_max as int, res),
    {
        let mut hit_record: Option<HitRecord> = None;
        let mut closest: i64 = t_max;
        let mut idx: usize = 0;
        let n = self.objects.len();

        while idx < n
            invariant
                n == self.objects@.len(),
                0 <= idx <= n,
                match hit_record {
                    Option::None => closest == t_max,
                    Option::Some(rec) => closest == rec.t && t_min <= rec.t < t_max,
                },
                hit_record matches Some(rec) ==> exists|k: int|
                    0 <= k < idx && #[trigger] is_sphere_hit(
                        self.objects@[k],
                        ray,
                        t_min as int,
                        t_max as int,
                        hit_record,
                    ),
                forall|k: int|
                    0 <= k < idx ==> (#[trigger] sphere_hit_t(
                        self.objects@[k],
                        ray,
                        t_min as int,
                        t_max as int,
                    ) matches Some(t) ==> t >= closest),
            decreases n - idx,
        {
            let s = self.objects[idx];
            let found = s.hit(ray, t_min, closest);
            proof {
                lemma_hit_shrink(s, ray, t_min as int, t_max as int, closest as int);
            }
            match found {
                Some(rec) => {
                    proof {
                        assert(is_sphere_hit(
                            self.objects@[idx as int],
                            ray,
                            t_min as int,
                            t_max as int,
                            found,
                        ));
                        assert forall|k: int| 0 <= k < idx + 1 implies (#[trigger] sphere_hit_t(
                            self.objects@[k],
                            ray,
                            t_min as int,
                            t_max as int,
                        ) matches Some(t) ==> t >= rec.t) by {
                            if k < idx {
                                assert(sphere_hit_t(
                                    self.objects@[k],
                                    ray,
                                    t_min as int,
                                    t_max as int,
                                ) matches Some(t) ==> t >= closest);
                            }
                        }
                    }
                    closest = rec.t;
                    hit_record = Some(rec);
                },
                None => {},
            }
            idx = idx + 1;
        }
        proof {
            if hit_record is None {
                assert forall|k: int|
                    0 <= k < self.objects@.len() implies #[trigger] sphere_hit_t(
                    self.objects@[k],
                    ray,
                    t_min as int,
                    t_max as int,
                ) is None by {
                    match sphere_hit_t(self.objects@[k], ray, t_min as int, t_max as int) {
                        Option::Some(t) => {
                            assert(t < t_max && t >= closest);
                        },
                        Option::None => {},
                    }
                }
            }
        }
        hit_record
    }
}

} // verus!
