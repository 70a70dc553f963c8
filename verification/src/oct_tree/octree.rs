use vstd::prelude::*;
use crate::math::Vec3i;
use super::bounding_box::{BoundingBox, box_ok, contains_point_spec};
use super::data_point::DataPoint;
use super::octree_node::{
    OctreeNode, wf_node, can_insert, count_node, has_node, has_id_node, has_kids,
    query_seq, radius_seq, contained_upto, within_upto, query_kids, radius_kids, grow_ok,
};
use crate::math::dist_sq_spec;

verus! {

/// A dynamic octree over integer positions: insertion, id-keyed movement,
/// box queries and radius queries.
#[derive(Debug)]
pub struct Octree {
    pub root: OctreeNode,
}

impl Octree {
    pub open spec fn wf(self) -> bool {
        wf_node(self.root)
    }

    pub open spec fn root_spec(self) -> OctreeNode {
        self.root
    }

    pub fn new(boundary: BoundingBox, capacity: usize) -> (t: Octree)
        requires
            1 <= capacity <= 100_000_000,
            box_ok(boundary),
        ensures
            t.wf(),
            t.root_spec().boundary == boundary,
            t.root_spec().capacity == capacity,
            count_node(t.root_spec()) == 0,
            forall|q: DataPoint| !has_node(t.root_spec(), q),
    {
        Octree { root: OctreeNode::new(boundary, capacity) }
    }

    /// Inserts a point; reports whether any node of the tree stored it.
    pub fn insert(&mut self, data_point: DataPoint) -> (r: bool)
        requires
            old(self).wf(),
        ensures
            final(self).wf(),
            final(self).root_spec().boundary == old(self).root_spec().boundary,
            r == can_insert(old(self).root_spec(), data_point),
            r ==> count_node(final(self).root_spec())
                == count_node(old(self).root_spec()) + 1,
            !r ==> count_node(final(self).root_spec())
                == count_node(old(self).root_spec()),
            r ==> has_node(final(self).root_spec(), data_point),
            forall|q: DataPoint| has_node(old(self).root_spec(), q)
                ==> has_node(final(self).root_spec(), q),
    {
        self.root.insert(data_point)
    }

    /// Appends every stored point inside the region to `results`.
    pub fn query(&self, region: &BoundingBox, results: &mut Vec<DataPoint>)
        requires
            self.wf(),
            box_ok(*region),
        ensures
            final(results)@ == old(results)@ + query_seq(self.root_spec(), *region),
    {
        self.root.query(region, results)
    }

    /// Moves the point with this id: removes it, regrows the tree when the
    /// new position falls outside the root box (and the removed point sits
    /// off-center, which the regrow geometry needs), and reinserts it at
    /// the new position. Reports whether the moved point was stored again;
    /// when the reinsertion finds no slot the point is dropped, and the
    /// regrow itself re-stores the removed point at its old position, as
    /// the source tree does. Either way, nothing new appears except under
    /// the moved id, and a collapse on the removal path may drop deeper
    /// points, as `merge` documents.
    pub fn update_position(&mut self, id: u32, new_position: Vec3i) -> (r: bool)
        requires
            old(self).wf(),
            new_position.in_bounds(),
            !contains_point_spec(old(self).root_spec().boundary, new_position)
                ==> grow_ok(old(self).root_spec().boundary),
        ensures
            final(self).wf(),
            !has_id_node(old(self).root_spec(), id) ==> !r && *final(self) == *old(self),
            r ==> has_node(final(self).root_spec(),
                DataPoint { id, position: new_position }),
            forall|q: DataPoint| has_node(final(self).root_spec(), q)
                ==> has_node(old(self).root_spec(), q) || q.id == id,
            contains_point_spec(old(self).root_spec().boundary, new_position) ==> {
                &&& r ==> count_node(final(self).root_spec())
                    <= count_node(old(self).root_spec())
                &&& !r && has_id_node(old(self).root_spec(), id)
                    ==> count_node(final(self).root_spec())
                        < count_node(old(self).root_spec())
            },
    {
        match self.root.remove_data_point(id) {
            Some(mut data_point) => {
                proof {
                    super::octree_node::lemma_has_in_bounds(
                        old(self).root_spec(), data_point);
                }
                if !self.root.boundary.contains_point(&new_position) {
                    let off_center = data_point.position.x != self.root.boundary.center.x
                        || data_point.position.y != self.root.boundary.center.y
                        || data_point.position.z != self.root.boundary.center.z;
                    if off_center {
                        self.root.grow(&data_point);
                    }
                }
                data_point.position = new_position;
                self.root.insert(data_point)
            },
            None => false,
        }
    }

    /// Appends every stored point within `radius` of the center to
    /// `results`.
    pub fn query_within_radius(
        &self, center: &Vec3i, radius: i64, results: &mut Vec<DataPoint>)
        requires
            self.wf(),
            center.in_bounds(),
            0 <= radius <= 3_000_000_000,
        ensures
            final(results)@ == old(results)@ + radius_seq(
                self.root_spec(), *center, radius * radius,
                BoundingBox {
                    center: *center,
                    half_extents: Vec3i { x: radius, y: radius, z: radius },
                },
            ),
    {
        let half_extents = Vec3i { x: radius, y: radius, z: radius };
        let region = BoundingBox { center: *center, half_extents };
        proof {
            assert(0 <= (radius as int) * (radius as int) <= 9_000_000_000_000_000_000)
                by (nonlinear_arith)
                requires 0 <= radius <= 3_000_000_000;
        }
        let squared_radius = radius * radius;
        self.root.query_within_radius(*center, squared_radius, &region, results);
    }

    pub fn get_root_boundary(&self) -> (b: BoundingBox)
        ensures
            b == self.root_spec().boundary,
    {
        self.root.boundary
    }

    pub fn get_root_center(&self) -> (c: Vec3i)
        ensures
            c == self.root_spec().boundary.center,
    {
        self.root.boundary.center
    }
}

/// Every point a box query reports lies inside the queried region and is
/// stored in the tree.
pub proof fn lemma_query_sound(n: OctreeNode, region: BoundingBox)
    requires
        wf_node(n),
    ensures
        forall|k: int| 0 <= k < query_seq(n, region).len() ==> contains_point_spec(
            region, (#[trigger] query_seq(n, region)[k]).position,
        ) && has_node(n, query_seq(n, region)[k]),
    decreases n, 9int,
{
    if intersects_holds(n, region) {
        lemma_contained_upto_sound(n.data_points@, region, n.data_points@.len() as int);
        if n.divided {
            proof_wf_kids(n);
            lemma_query_kids_sound(n.children@, region, 8);
            assert forall|k: int| 0 <= k < query_seq(n, region).len()
                implies contains_point_spec(
                    region, (#[trigger] query_seq(n, region)[k]).position)
                    && has_node(n, query_seq(n, region)[k]) by {
                let own = contained_upto(n.data_points@, region, n.data_points@.len() as int);
                if k < own.len() {
                    assert(query_seq(n, region)[k] == own[k]);
                } else {
                    let kk = query_kids(n.children@, region, 8);
                    let e = kk[k - own.len()];
                    assert(query_seq(n, region)[k] == e);
                    super::octree_node::lemma_has_kids_iff(n.children@, e, 0);
                    assert(has_kids(n.children@, e, 0));
                }
            }
        }
    }
}

/// Spells out the well-formedness of each present child slot.
proof fn proof_wf_kids(n: OctreeNode)
    requires
        wf_node(n),
    ensures
        forall|j: int| 0 <= j < n.children@.len() ==> ((#[trigger] n.children@[j])
            matches Some(c) ==> wf_node(c)),
{
    super::octree_node::lemma_wf_kids_iff(n.children@, n.capacity as int, 0);
}

pub open spec fn intersects_holds(n: OctreeNode, region: BoundingBox) -> bool {
    super::bounding_box::intersects_spec(n.boundary, region)
}

/// Every point a slot list reports for a box query lies in the region and
/// in some slot subtree.
proof fn lemma_query_kids_sound(s: Seq<Option<OctreeNode>>, region: BoundingBox, i: int)
    requires
        0 <= i <= s.len(),
        forall|j: int| 0 <= j < s.len() ==> ((#[trigger] s[j]) matches Some(c)
            ==> wf_node(c)),
    ensures
        forall|k: int| 0 <= k < query_kids(s, region, i).len() ==> contains_point_spec(
            region, (#[trigger] query_kids(s, region, i)[k]).position,
        ) && exists|j: int| 0 <= j < i && ((#[trigger] s[j]) matches Some(c)
            && has_node(c, query_kids(s, region, i)[k])),
    decreases s, i,
{
    if i > 0 {
        lemma_query_kids_sound(s, region, i - 1);
        let tail = match s[i - 1] {
            None => Seq::<DataPoint>::empty(),
            Some(c) => query_seq(c, region),
        };
        if s[i - 1] is Some {
            lemma_query_sound(s[i - 1]->0, region);
        }
        assert forall|k: int| 0 <= k < query_kids(s, region, i).len()
            implies contains_point_spec(
                region, (#[trigger] query_kids(s, region, i)[k]).position)
                && exists|j: int| 0 <= j < i && ((#[trigger] s[j]) matches Some(c)
                    && has_node(c, query_kids(s, region, i)[k])) by {
            let pre = query_kids(s, region, i - 1);
            if k < pre.len() {
                assert(query_kids(s, region, i)[k] == pre[k]);
            } else {
                assert(query_kids(s, region, i)[k] == tail[k - pre.len()]);
                assert(s[i - 1] matches Some(c)
                    && has_node(c, query_kids(s, region, i)[k]));
            }
        }
    }
}

/// Every point in the filtered prefix lies in the region and in the list.
proof fn lemma_contained_upto_sound(s: Seq<DataPoint>, region: BoundingBox, i: int)
    requires
        0 <= i <= s.len(),
    ensures
        forall|k: int| 0 <= k < contained_upto(s, region, i).len() ==> contains_point_spec(
            region, (#[trigger] contained_upto(s, region, i)[k]).position,
        ) && s.contains(contained_upto(s, region, i)[k]),
    decreases i,
{
    if i > 0 {
        lemma_contained_upto_sound(s, region, i - 1);
        assert forall|k: int| 0 <= k < contained_upto(s, region, i).len()
            implies contains_point_spec(
                region, (#[trigger] contained_upto(s, region, i)[k]).position)
                && s.contains(contained_upto(s, region, i)[k]) by {
            let pre = contained_upto(s, region, i - 1);
            if k < pre.len() {
                assert(contained_upto(s, region, i)[k] == pre[k]);
            } else {
                assert(contained_upto(s, region, i)[k] == s[i - 1]);
            }
        }
    }
}

/// Every point a radius query reports lies within the squared radius of
/// the center and is stored in the tree.
pub proof fn lemma_radius_sound(n: OctreeNode, center: Vec3i, rsq: int, region: BoundingBox)
    requires
        wf_node(n),
    ensures
        forall|k: int| 0 <= k < radius_seq(n, center, rsq, region).len() ==> dist_sq_spec(
            (#[trigger] radius_seq(n, center, rsq, region)[k]).position, center,
        ) <= rsq && has_node(n, radius_seq(n, center, rsq, region)[k]),
    decreases n, 9int,
{
    if intersects_holds(n, region) {
        lemma_within_upto_sound(n.data_points@, center, rsq, n.data_points@.len() as int);
        if n.divided {
            proof_wf_kids(n);
            lemma_radius_kids_sound(n.children@, center, rsq, region, 8);
            assert forall|k: int| 0 <= k < radius_seq(n, center, rsq, region).len()
                implies dist_sq_spec(
                    (#[trigger] radius_seq(n, center, rsq, region)[k]).position, center)
                    <= rsq && has_node(n, radius_seq(n, center, rsq, region)[k]) by {
                let own = within_upto(n.data_points@, center, rsq,
                    n.data_points@.len() as int);
                if k < own.len() {
                    assert(radius_seq(n, center, rsq, region)[k] == own[k]);
                } else {
                    let kk = radius_kids(n.children@, center, rsq, region, 8);
                    let e = kk[k - own.len()];
                    assert(radius_seq(n, center, rsq, region)[k] == e);
                    super::octree_node::lemma_has_kids_iff(n.children@, e, 0);
                    assert(has_kids(n.children@, e, 0));
                }
            }
        }
    }
}

proof fn lemma_radius_kids_sound(
    s: Seq<Option<OctreeNode>>, center: Vec3i, rsq: int, region: BoundingBox, i: int)
    requires
        0 <= i <= s.len(),
        forall|j: int| 0 <= j < s.len() ==> ((#[trigger] s[j]) matches Some(c)
            ==> wf_node(c)),
    ensures
        forall|k: int| 0 <= k < radius_kids(s, center, rsq, region, i).len()
            ==> dist_sq_spec(
                (#[trigger] radius_kids(s, center, rsq, region, i)[k]).position, center,
            ) <= rsq && exists|j: int| 0 <= j < i && ((#[trigger] s[j]) matches Some(c)
                && has_node(c, radius_kids(s, center, rsq, region, i)[k])),
    decreases s, i,
{
    if i > 0 {
        lemma_radius_kids_sound(s, center, rsq, region, i - 1);
        let tail = match s[i - 1] {
            None => Seq::<DataPoint>::empty(),
            Some(c) => radius_seq(c, center, rsq, region),
        };
        if s[i - 1] is Some {
            lemma_radius_sound(s[i - 1]->0, center, rsq, region);
        }
        assert forall|k: int| 0 <= k < radius_kids(s, center, rsq, region, i).len()
            implies dist_sq_spec(
                (#[trigger] radius_kids(s, center, rsq, region, i)[k]).position, center)
                <= rsq && exists|j: int| 0 <= j < i && ((#[trigger] s[j]) matches Some(c)
                    && has_node(c, radius_kids(s, center, rsq, region, i)[k])) by {
            let pre = radius_kids(s, center, rsq, region, i - 1);
            if k < pre.len() {
                assert(radius_kids(s, center, rsq, region, i)[k] == pre[k]);
            } else {
                assert(radius_kids(s, center, rsq, region, i)[k] == tail[k - pre.len()]);
                assert(s[i - 1] matches Some(c)
                    && has_node(c, radius_kids(s, center, rsq, region, i)[k]));
            }
        }
    }
}

proof fn lemma_within_upto_sound(s: Seq<DataPoint>, center: Vec3i, rsq: int, i: int)
    requires
        0 <= i <= s.len(),
    ensures
        forall|k: int| 0 <= k < within_upto(s, center, rsq, i).len() ==> dist_sq_spec(
            (#[trigger] within_upto(s, center, rsq, i)[k]).position, center,
        ) <= rsq && s.contains(within_upto(s, center, rsq, i)[k]),
    decreases i,
{
    if i > 0 {
        lemma_within_upto_sound(s, center, rsq, i - 1);
        assert forall|k: int| 0 <= k < within_upto(s, center, rsq, i).len()
            implies dist_sq_spec(
                (#[trigger] within_upto(s, center, rsq, i)[k]).position, center)
                <= rsq && s.contains(within_upto(s, center, rsq, i)[k]) by {
            let pre = within_upto(s, center, rsq, i - 1);
            if k < pre.len() {
                assert(within_upto(s, center, rsq, i)[k] == pre[k]);
            } else {
                assert(within_upto(s, center, rsq, i)[k] == s[i - 1]);
            }
        }
    }
}

} // verus!
