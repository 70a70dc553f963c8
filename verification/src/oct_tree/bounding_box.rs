use vstd::prelude::*;
use rand::Rng;
use crate::math::{Vec3i, COORD_LIMIT, dist_sq, dist_sq_spec, is_isqrt, isqrt_u64};

verus! {

/// An axis-aligned bounding box in 3-d space, stored as a center and
/// per-axis half extents.
#[derive(Debug, Clone, Copy, PartialEq, Eq, Structural)]
pub struct BoundingBox {
    pub center: Vec3i,
    pub half_extents: Vec3i,
}

/// The ranges under which box arithmetic is exact: nonnegative half
/// extents, and the whole box (with room for one subdivision step) inside
/// the supported cube.
pub open spec fn box_ok(bb: BoundingBox) -> bool {
    &&& 0 <= bb.half_extents.x && 0 <= bb.half_extents.y && 0 <= bb.half_extents.z
    &&& -COORD_LIMIT <= bb.center.x - 2 * bb.half_extents.x
    &&& bb.center.x + 2 * bb.half_extents.x <= COORD_LIMIT
    &&& -COORD_LIMIT <= bb.center.y - 2 * bb.half_extents.y
    &&& bb.center.y + 2 * bb.half_extents.y <= COORD_LIMIT
    &&& -COORD_LIMIT <= bb.center.z - 2 * bb.half_extents.z
    &&& bb.center.z + 2 * bb.half_extents.z <= COORD_LIMIT
}

/// Whether a point lies inside the box, boundary included.
pub open spec fn contains_point_spec(bb: BoundingBox, p: Vec3i) -> bool {
    &&& bb.center.x - bb.half_extents.x <= p.x <= bb.center.x + bb.half_extents.x
    &&& bb.center.y - bb.half_extents.y <= p.y <= bb.center.y + bb.half_extents.y
    &&& bb.center.z - bb.half_extents.z <= p.z <= bb.center.z + bb.half_extents.z
}

/// The overlap test the tree prunes with. It compares each box's center
/// against the other's half extents, field for field.
pub open spec fn intersects_spec(a: BoundingBox, b: BoundingBox) -> bool {
    &&& a.center.x <= b.half_extents.x && a.half_extents.x >= b.center.x
    &&& a.center.y <= b.half_extents.y && a.half_extents.y >= b.center.y
    &&& a.center.z <= b.half_extents.z && a.half_extents.z >= b.center.z
}

/// The point of the box closest to `p`: `p` clamped to the box.
pub open spec fn closest_point_spec(bb: BoundingBox, p: Vec3i) -> Vec3i {
    Vec3i {
        x: if p.x < bb.center.x - bb.half_extents.x {
            (bb.center.x - bb.half_extents.x) as i64
        } else if p.x > bb.center.x + bb.half_extents.x {
            (bb.center.x + bb.half_extents.x) as i64
        } else {
            p.x
        },
        y: if p.y < bb.center.y - bb.half_extents.y {
            (bb.center.y - bb.half_extents.y) as i64
        } else if p.y > bb.center.y + bb.half_extents.y {
            (bb.center.y + bb.half_extents.y) as i64
        } else {
            p.y
        },
        z: if p.z < bb.center.z - bb.half_extents.z {
            (bb.center.z - bb.half_extents.z) as i64
        } else if p.z > bb.center.z + bb.half_extents.z {
            (bb.center.z + bb.half_extents.z) as i64
        } else {
            p.z
        },
    }
}

/// Relies on rand's `Rng::gen_range`: the drawn value lies within the given
/// inclusive range (it panics only on an empty range, which the
/// precondition excludes).
#[verifier::external_body]
fn rand_in_range(lo: i64, hi: i64) -> (r: i64)
    requires
        lo <= hi,
    ensures
        lo <= r <= hi,
{
    rand::thread_rng().gen_range(lo..=hi)
}

impl BoundingBox {
    pub fn new(center: Vec3i, half_extents: Vec3i) -> (r: BoundingBox)
        ensures
            r == (BoundingBox { center, half_extents }),
    {
        BoundingBox { center, half_extents }
    }

    pub fn new_from_point_and_radius(point: Vec3i, radius: i64) -> (r: BoundingBox)
        ensures
            r.center == point,
            r.half_extents == (Vec3i { x: radius, y: radius, z: radius }),
    {
        BoundingBox { center: point, half_extents: Vec3i { x: radius, y: radius, z: radius } }
    }

    pub fn get_closest_point(&self, point: &Vec3i) -> (r: Vec3i)
        requires
            box_ok(*self),
        ensures
            r == closest_point_spec(*self, *point),
    {
        let min_x = self.center.x - self.half_extents.x;
        let max_x = self.center.x + self.half_extents.x;
        let min_y = self.center.y - self.half_extents.y;
        let max_y = self.center.y + self.half_extents.y;
        let min_z = self.center.z - self.half_extents.z;
        let max_z = self.center.z + self.half_extents.z;
        Vec3i {
            x: if point.x < min_x { min_x } else if point.x > max_x { max_x } else { point.x },
            y: if point.y < min_y { min_y } else if point.y > max_y { max_y } else { point.y },
            z: if point.z < min_z { min_z } else if point.z > max_z { max_z } else { point.z },
        }
    }

    /// The distance from the box to a point, rounded down; zero inside the
    /// box.
    pub fn distance_to_point(&self, point: Vec3i) -> (d: i64)
        requires
            box_ok(*self),
            point.in_bounds(),
        ensures
            is_isqrt(dist_sq_spec(closest_point_spec(*self, point), point), d as int),
    {
        let closest = self.get_closest_point(&point);
        let sq = dist_sq(closest, point);
        isqrt_u64(sq as u64) as i64
    }

    pub fn zero() -> (r: BoundingBox)
        ensures
            r.center == (Vec3i { x: 0, y: 0, z: 0 }),
            r.half_extents == (Vec3i { x: 0, y: 0, z: 0 }),
    {
        BoundingBox {
            center: Vec3i { x: 0, y: 0, z: 0 },
            half_extents: Vec3i { x: 0, y: 0, z: 0 },
        }
    }

    pub fn equals(&self, other: &BoundingBox) -> (r: bool)
        ensures
            r == (*self == *other),
    {
        self.center.x == other.center.x && self.center.y == other.center.y
            && self.center.z == other.center.z
            && self.half_extents.x == other.half_extents.x
            && self.half_extents.y == other.half_extents.y
            && self.half_extents.z == other.half_extents.z
    }

    /// The merged value: the componentwise smaller center and larger half
    /// extents of the two boxes.
    pub open spec fn merged_spec(a: BoundingBox, b: BoundingBox) -> BoundingBox {
        BoundingBox {
            center: Vec3i {
                x: if a.center.x < b.center.x { a.center.x } else { b.center.x },
                y: if a.center.y < b.center.y { a.center.y } else { b.center.y },
                z: if a.center.z < b.center.z { a.center.z } else { b.center.z },
            },
            half_extents: Vec3i {
                x: if a.half_extents.x > b.half_extents.x {
                    a.half_extents.x
                } else {
                    b.half_extents.x
                },
                y: if a.half_extents.y > b.half_extents.y {
                    a.half_extents.y
                } else {
                    b.half_extents.y
                },
                z: if a.half_extents.z > b.half_extents.z {
                    a.half_extents.z
                } else {
                    b.half_extents.z
                },
            },
        }
    }

    pub fn merge_with_aabb(&mut self, other: &BoundingBox)
        ensures
            *final(self) == BoundingBox::merged_spec(*old(self), *other),
    {
        self.center.x = if self.center.x < other.center.x {
            self.center.x
        } else {
            other.center.x
        };
        self.center.y = if self.center.y < other.center.y {
            self.center.y
        } else {
            other.center.y
        };
        self.center.z = if self.center.z < other.center.z {
            self.center.z
        } else {
            other.center.z
        };
        self.half_extents.x = if self.half_extents.x > other.half_extents.x {
            self.half_extents.x
        } else {
            other.half_extents.x
        };
        self.half_extents.y = if self.half_extents.y > other.half_extents.y {
            self.half_extents.y
        } else {
            other.half_extents.y
        };
        self.half_extents.z = if self.half_extents.z > other.half_extents.z {
            self.half_extents.z
        } else {
            other.half_extents.z
        };
    }

    pub fn merge_two_create_new(aabb_a: &BoundingBox, aabb_b: &BoundingBox) -> (r: BoundingBox)
        ensures
            r == BoundingBox::merged_spec(
                BoundingBox::merged_spec(
                    BoundingBox {
                        center: Vec3i { x: 0, y: 0, z: 0 },
                        half_extents: Vec3i { x: 0, y: 0, z: 0 },
                    },
                    *aabb_a,
                ),
                *aabb_b,
            ),
    {
        let mut aabb = BoundingBox::zero();
        aabb.merge_with_aabb(aabb_a);
        aabb.merge_with_aabb(aabb_b);
        aabb
    }

    pub fn merged(&self, other: &BoundingBox) -> (r: BoundingBox)
        ensures
            r == BoundingBox::merged_spec(
                BoundingBox::merged_spec(
                    BoundingBox {
                        center: Vec3i { x: 0, y: 0, z: 0 },
                        half_extents: Vec3i { x: 0, y: 0, z: 0 },
                    },
                    *self,
                ),
                *other,
            ),
    {
        let mut aabb = BoundingBox::zero();
        aabb.merge_with_aabb(self);
        aabb.merge_with_aabb(other);
        aabb
    }

    pub fn join_and_make_new(&self, other: &BoundingBox) -> (r: BoundingBox)
        ensures
            r == BoundingBox::merged_spec(
                BoundingBox::merged_spec(
                    BoundingBox {
                        center: Vec3i { x: 0, y: 0, z: 0 },
                        half_extents: Vec3i { x: 0, y: 0, z: 0 },
                    },
                    *self,
                ),
                *other,
            ),
    {
        let mut aabb = BoundingBox::zero();
        aabb.merge_with_aabb(self);
        aabb.merge_with_aabb(other);
        aabb
    }

    pub fn intersects(&self, other: &BoundingBox) -> (r: bool)
        ensures
            r == intersects_spec(*self, *other),
    {
        self.center.x <= other.half_extents.x && self.half_extents.x >= other.center.x
            && self.center.y <= other.half_extents.y && self.half_extents.y >= other.center.y
            && self.center.z <= other.half_extents.z && self.half_extents.z >= other.center.z
    }

    pub fn contains_point(&self, point: &Vec3i) -> (r: bool)
        requires
            box_ok(*self),
        ensures
            r == contains_point_spec(*self, *point),
    {
        let min_x = self.center.x - self.half_extents.x;
        let max_x = self.center.x + self.half_extents.x;
        let min_y = self.center.y - self.half_extents.y;
        let max_y = self.center.y + self.half_extents.y;
        let min_z = self.center.z - self.half_extents.z;
        let max_z = self.center.z + self.half_extents.z;
        point.x >= min_x && point.x <= max_x && point.y >= min_y && point.y <= max_y
            && point.z >= min_z && point.z <= max_z
    }

    /// A pseudo-random point inside the box, inclusive of its faces.
    pub fn get_random_point_within(&self) -> (r: Vec3i)
        requires
            box_ok(*self),
        ensures
            contains_point_spec(*self, r),
    {
        Vec3i {
            x: rand_in_range(
                self.center.x - self.half_extents.x,
                self.center.x + self.half_extents.x,
            ),
            y: rand_in_range(
                self.center.y - self.half_extents.y,
                self.center.y + self.half_extents.y,
            ),
            z: rand_in_range(
                self.center.z - self.half_extents.z,
                self.center.z + self.half_extents.z,
            ),
        }
    }

    pub fn max(&self) -> (r: Vec3i)
        requires
            box_ok(*self),
        ensures
            r.x == self.center.x + self.half_extents.x,
            r.y == self.center.y + self.half_extents.y,
            r.z == self.center.z + self.half_extents.z,
    {
        Vec3i {
            x: self.center.x + self.half_extents.x,
            y: self.center.y + self.half_extents.y,
            z: self.center.z + self.half_extents.z,
        }
    }

    pub fn min(&self) -> (r: Vec3i)
        requires
            box_ok(*self),
        ensures
            r.x == self.center.x - self.half_extents.x,
            r.y == self.center.y - self.half_extents.y,
            r.z == self.center.z - self.half_extents.z,
    {
        Vec3i {
            x: self.center.x - self.half_extents.x,
            y: self.center.y - self.half_extents.y,
            z: self.center.z - self.half_extents.z,
        }
    }

    pub fn center(&self) -> (r: Vec3i)
        ensures
            r == self.center,
    {
        self.center
    }

    pub fn set_x_min(&mut self, x: i64)
        requires
            -COORD_LIMIT <= x <= COORD_LIMIT,
            box_ok(*old(self)),
        ensures
            final(self).center.x == x + old(self).half_extents.x,
            final(self).center.y == old(self).center.y,
            final(self).center.z == old(self).center.z,
            final(self).half_extents == old(self).half_extents,
    {
        self.center.x = x + self.half_extents.x;
    }

    pub fn set_x_max(&mut self, x: i64)
        requires
            -COORD_LIMIT <= x <= COORD_LIMIT,
            box_ok(*old(self)),
        ensures
            final(self).center.x == x - old(self).half_extents.x,
            final(self).center.y == old(self).center.y,
            final(self).center.z == old(self).center.z,
            final(self).half_extents == old(self).half_extents,
    {
        self.center.x = x - self.half_extents.x;
    }

    pub fn set_y_min(&mut self, y: i64)
        requires
            -COORD_LIMIT <= y <= COORD_LIMIT,
            box_ok(*old(self)),
        ensures
            final(self).center.y == y + old(self).half_extents.y,
            final(self).center.x == old(self).center.x,
            final(self).center.z == old(self).center.z,
            final(self).half_extents == old(self).half_extents,
    {
        self.center.y = y + self.half_extents.y;
    }

    pub fn set_y_max(&mut self, y: i64)
        requires
            -COORD_LIMIT <= y <= COORD_LIMIT,
            box_ok(*old(self)),
        ensures
            final(self).center.y == y - old(self).half_extents.y,
            final(self).center.x == old(self).center.x,
            final(self).center.z == old(self).center.z,
            final(self).half_extents == old(self).half_extents,
    {
        self.center.y = y - self.half_extents.y;
    }

    pub fn set_z_min(&mut self, z: i64)
        requires
            -COORD_LIMIT <= z <= COORD_LIMIT,
            box_ok(*old(self)),
        ensures
            final(self).center.z == z + old(self).half_extents.z,
            final(self).center.x == old(self).center.x,
            final(self).center.y == old(self).center.y,
            final(self).half_extents == old(self).half_extents,
    {
        self.center.z = z + self.half_extents.z;
    }

    pub fn set_z_max(&mut self, z: i64)
        requires
            -COORD_LIMIT <= z <= COORD_LIMIT,
            box_ok(*old(self)),
        ensures
            final(self).center.z == z - old(self).half_extents.z,
            final(self).center.x == old(self).center.x,
            final(self).center.y == old(self).center.y,
            final(self).half_extents == old(self).half_extents,
    {
        self.center.z = z - self.half_extents.z;
    }
}

} // verus!
