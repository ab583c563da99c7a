//! A ray: origin, direction, and the time within the exposure at
//! which it was cast.

use vstd::prelude::*;

verus! {

use crate::vec3::{Vector3, V3, v_add, v_scale, v3};

#[derive(Clone, Copy)]
pub struct Ray {
    pub origin: Vector3,
    pub direction: Vector3,
    pub time: i64,
}

/// The point a parametric distance `t` along the ray.
pub open spec fn ray_at(r: Ray, t: int) -> V3 {
    v_add(r.origin@, v_scale(t, r.direction@))
}

impl Ray {
    pub fn from(origin: Vector3, direction: Vector3, time: i64) -> (r: Self)
        ensures
            r.origin == origin,
            r.direction == direction,
            r.time == time,
    {
        Self { origin, direction, time }
    }

    pub fn at(self, t: i64) -> (r: Vector3)
        ensures
            r@ == ray_at(self, t as int),
    {
        self.origin.plus(self.direction.scale(t))
    }
}

} // verus!
