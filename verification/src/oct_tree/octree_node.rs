use vstd::prelude::*;
use crate::math::{Vec3i, COORD_LIMIT, dist_sq, dist_sq_spec, is_isqrt, isqrt_u64, sqrt_floor, tdiv};
use super::bounding_box::{BoundingBox, box_ok, contains_point_spec, intersects_spec};
use super::data_point::DataPoint;

verus! {

/// One node of the octree: a box, up to `capacity` points stored directly,
/// and, once subdivided, eight child slots (a slot may be empty after a
/// regrow).
#[derive(Debug)]
pub struct OctreeNode {
    pub boundary: BoundingBox,
    pub capacity: usize,
    pub data_points: Vec<DataPoint>,
    pub divided: bool,
    pub children: Vec<Option<OctreeNode>>,
}

/// The box of child slot `i`: the parent's center pushed out by the half
/// extents along each axis whose bit of `i` is set, at half the extent.
pub open spec fn child_box_spec(bb: BoundingBox, i: int) -> BoundingBox {
    BoundingBox {
        center: Vec3i {
            x: if i % 2 == 1 { (bb.center.x + bb.half_extents.x) as i64 } else { bb.center.x },
            y: if (i / 2) % 2 == 1 { (bb.center.y + bb.half_extents.y) as i64 } else { bb.center.y },
            z: if (i / 4) % 2 == 1 { (bb.center.z + bb.half_extents.z) as i64 } else { bb.center.z },
        },
        half_extents: Vec3i {
            x: (bb.half_extents.x / 2) as i64,
            y: (bb.half_extents.y / 2) as i64,
            z: (bb.half_extents.z / 2) as i64,
        },
    }
}

/// Some child slot's box would take the point.
pub open spec fn any_child_box_contains(bb: BoundingBox, p: Vec3i) -> bool {
    exists|i: int| 0 <= i < 8 && contains_point_spec(#[trigger] child_box_spec(bb, i), p)
}

pub open spec fn wf_node(n: OctreeNode) -> bool
    decreases n,
{
    &&& 1 <= n.capacity <= 100_000_000
    &&& n.data_points@.len() <= n.capacity
    &&& box_ok(n.boundary)
    &&& (n.divided <==> n.children@.len() == 8)
    &&& (!n.divided ==> n.children@.len() == 0)
    &&& forall|j: int| 0 <= j < n.data_points@.len()
        ==> (#[trigger] n.data_points@[j]).position.in_bounds()
    &&& wf_kids(n.children@, n.capacity as int, 0)
}

pub open spec fn wf_kids(s: Seq<Option<OctreeNode>>, cap: int, i: int) -> bool
    decreases s, s.len() - i,
{
    if i < 0 || i >= s.len() {
        true
    } else {
        &&& (s[i] matches Some(c) ==> wf_node(c) && c.capacity == cap)
        &&& wf_kids(s, cap, i + 1)
    }
}

/// Structural height, for termination measures.
pub open spec fn height_node(n: OctreeNode) -> nat
    decreases n,
{
    1 + height_kids(n.children@, 0)
}

pub open spec fn height_kids(s: Seq<Option<OctreeNode>>, i: int) -> nat
    decreases s, s.len() - i,
{
    if i < 0 || i >= s.len() {
        0
    } else {
        let h = match s[i] {
            None => 0,
            Some(c) => height_node(c),
        };
        let rest = height_kids(s, i + 1);
        if h > rest {
            h
        } else {
            rest
        }
    }
}

/// Number of points stored in the subtree.
pub open spec fn count_node(n: OctreeNode) -> nat
    decreases n,
{
    n.data_points@.len() + count_kids(n.children@, 0)
}

pub open spec fn count_kids(s: Seq<Option<OctreeNode>>, i: int) -> nat
    decreases s, s.len() - i,
{
    if i < 0 || i >= s.len() {
        0
    } else {
        (match s[i] {
            None => 0,
            Some(c) => count_node(c),
        }) + count_kids(s, i + 1)
    }
}

/// The point is stored somewhere in the subtree.
pub open spec fn has_node(n: OctreeNode, q: DataPoint) -> bool
    decreases n,
{
    n.data_points@.contains(q) || has_kids(n.children@, q, 0)
}

pub open spec fn has_kids(s: Seq<Option<OctreeNode>>, q: DataPoint, i: int) -> bool
    decreases s, s.len() - i,
{
    if i < 0 || i >= s.len() {
        false
    } else {
        (s[i] matches Some(c) && has_node(c, q)) || has_kids(s, q, i + 1)
    }
}

/// A point with this id is stored somewhere in the subtree.
pub open spec fn has_id_node(n: OctreeNode, id: u32) -> bool
    decreases n,
{
    (exists|j: int| 0 <= j < n.data_points@.len() && (#[trigger] n.data_points@[j]).id == id)
        || has_id_kids(n.children@, id, 0)
}

pub open spec fn has_id_kids(s: Seq<Option<OctreeNode>>, id: u32, i: int) -> bool
    decreases s, s.len() - i,
{
    if i < 0 || i >= s.len() {
        false
    } else {
        (s[i] matches Some(c) && has_id_node(c, id)) || has_id_kids(s, id, i + 1)
    }
}

/// Whether an insert of this point succeeds: the point must lie in the
/// node's box, and either the node has direct room, or some present child
/// takes it, or the node is a full leaf whose subdivision yields a child
/// box containing the point.
pub open spec fn can_insert(n: OctreeNode, dp: DataPoint) -> bool
    decreases n,
{
    contains_point_spec(n.boundary, dp.position) && {
        ||| n.data_points@.len() < n.capacity
        ||| (n.divided && can_kids(n.children@, dp, 0))
        ||| (!n.divided && any_child_box_contains(n.boundary, dp.position))
    }
}

pub open spec fn can_kids(s: Seq<Option<OctreeNode>>, dp: DataPoint, i: int) -> bool
    decreases s, s.len() - i,
{
    if i < 0 || i >= s.len() {
        false
    } else {
        (s[i] matches Some(c) && can_insert(c, dp)) || can_kids(s, dp, i + 1)
    }
}

/// The points of a prefix of a list that lie inside a region, in order.
pub open spec fn contained_upto(s: Seq<DataPoint>, region: BoundingBox, i: int)
    -> Seq<DataPoint>
    decreases i,
{
    if i <= 0 {
        Seq::empty()
    } else {
        contained_upto(s, region, i - 1) + if contains_point_spec(region, s[i - 1].position) {
            seq![s[i - 1]]
        } else {
            Seq::empty()
        }
    }
}

/// The points of a prefix of a list within the squared radius of a center,
/// in order.
pub open spec fn within_upto(s: Seq<DataPoint>, center: Vec3i, rsq: int, i: int)
    -> Seq<DataPoint>
    decreases i,
{
    if i <= 0 {
        Seq::empty()
    } else {
        within_upto(s, center, rsq, i - 1) + if dist_sq_spec(s[i - 1].position, center) <= rsq {
            seq![s[i - 1]]
        } else {
            Seq::empty()
        }
    }
}

/// Everything a box query reports from this subtree, in visit order: its
/// own matching points, then each present child's report; nothing when the
/// pruning test rejects the node's box.
pub open spec fn query_seq(n: OctreeNode, region: BoundingBox) -> Seq<DataPoint>
    decreases n, 8int,
{
    if !intersects_spec(n.boundary, region) {
        Seq::empty()
    } else {
        contained_upto(n.data_points@, region, n.data_points@.len() as int) + if n.divided {
            query_kids(n.children@, region, 8)
        } else {
            Seq::empty()
        }
    }
}

pub open spec fn query_kids(s: Seq<Option<OctreeNode>>, region: BoundingBox, i: int)
    -> Seq<DataPoint>
    decreases s, i,
{
    if i <= 0 || i > s.len() {
        Seq::empty()
    } else {
        query_kids(s, region, i - 1) + match s[i - 1] {
            None => Seq::empty(),
            Some(c) => query_seq(c, region),
        }
    }
}

/// Everything a radius query reports from this subtree, in visit order.
pub open spec fn radius_seq(n: OctreeNode, center: Vec3i, rsq: int, region: BoundingBox)
    -> Seq<DataPoint>
    decreases n, 8int,
{
    if !intersects_spec(n.boundary, region) {
        Seq::empty()
    } else {
        within_upto(n.data_points@, center, rsq, n.data_points@.len() as int) + if n.divided {
            radius_kids(n.children@, center, rsq, region, 8)
        } else {
            Seq::empty()
        }
    }
}

pub open spec fn radius_kids(
    s: Seq<Option<OctreeNode>>, center: Vec3i, rsq: int, region: BoundingBox, i: int)
    -> Seq<DataPoint>
    decreases s, i,
{
    if i <= 0 || i > s.len() {
        Seq::empty()
    } else {
        radius_kids(s, center, rsq, region, i - 1) + match s[i - 1] {
            None => Seq::empty(),
            Some(c) => radius_seq(c, center, rsq, region),
        }
    }
}

/// The direct points of a prefix of the child slots, in order; what a
/// collapse lifts into the parent.
pub open spec fn lifted_upto(s: Seq<Option<OctreeNode>>, i: int) -> Seq<DataPoint>
    decreases i,
{
    if i <= 0 {
        Seq::empty()
    } else {
        lifted_upto(s, i - 1) + match s[i - 1] {
            None => Seq::empty(),
            Some(c) => c.data_points@,
        }
    }
}

/// The number of points stored directly in the child slots (grandchildren
/// not counted) of a prefix.
pub open spec fn direct_kids_len(s: Seq<Option<OctreeNode>>, i: int) -> nat
    decreases i,
{
    if i <= 0 {
        0
    } else {
        direct_kids_len(s, i - 1) + match s[i - 1] {
            None => 0,
            Some(c) => c.data_points@.len(),
        }
    }
}


/// A parent is strictly taller than the subtree in any present child slot.
proof fn lemma_height_kids_ge(s: Seq<Option<OctreeNode>>, i: int, j: int)
    requires
        0 <= i <= j < s.len(),
    ensures
        s[j] matches Some(c) ==> height_node(c) <= height_kids(s, i),
    decreases s.len() - i,
{
    if i < j {
        lemma_height_kids_ge(s, i + 1, j);
    }
}

/// How the slot point-count responds to replacing one slot.
proof fn lemma_kids_update_count(s: Seq<Option<OctreeNode>>, j: int, x: Option<OctreeNode>, i: int)
    requires
        0 <= j < s.len(),
        0 <= i <= s.len(),
    ensures
        i <= j ==> count_kids(s.update(j, x), i) + (match s[j] {
            None => 0nat,
            Some(c) => count_node(c),
        }) == count_kids(s, i) + (match x {
            None => 0nat,
            Some(c) => count_node(c),
        }),
        i > j ==> count_kids(s.update(j, x), i) == count_kids(s, i),
    decreases s.len() - i,
{
    if i < s.len() {
        lemma_kids_update_count(s, j, x, i + 1);
    }
}

/// Membership survives replacing one slot with a slot that keeps its
/// points.
proof fn lemma_kids_update_has(s: Seq<Option<OctreeNode>>, j: int, x: Option<OctreeNode>, i: int)
    requires
        0 <= j < s.len(),
        0 <= i <= s.len(),
        s[j] matches Some(c0) ==> (x matches Some(c1)
            && forall|q2: DataPoint| has_node(c0, q2) ==> has_node(c1, q2)),
    ensures
        forall|q: DataPoint| has_kids(s, q, i) ==> has_kids(s.update(j, x), q, i),
    decreases s.len() - i,
{
    if i < s.len() {
        lemma_kids_update_has(s, j, x, i + 1);
        assert forall|q: DataPoint| has_kids(s, q, i)
            implies has_kids(s.update(j, x), q, i) by {
            if s[i] matches Some(c) && has_node(c, q) {
                if i == j {
                    assert(x matches Some(c1) && has_node(c1, q));
                    assert(s.update(j, x)[i] == x);
                } else {
                    assert(s.update(j, x)[i] == s[i]);
                }
            } else {
                assert(has_kids(s, q, i + 1));
            }
        }
    }
}

/// Membership after replacing one slot came from the old slots or the new
/// slot.
proof fn lemma_kids_update_has_rev(
    s: Seq<Option<OctreeNode>>, j: int, x: Option<OctreeNode>, i: int)
    requires
        0 <= j < s.len(),
        0 <= i <= s.len(),
    ensures
        forall|q: DataPoint| has_kids(s.update(j, x), q, i) ==> has_kids(s, q, i)
            || (x matches Some(c) && has_node(c, q)),
    decreases s.len() - i,
{
    if i < s.len() {
        lemma_kids_update_has_rev(s, j, x, i + 1);
        assert forall|q: DataPoint| has_kids(s.update(j, x), q, i)
            implies has_kids(s, q, i) || (x matches Some(c) && has_node(c, q)) by {
            let s2 = s.update(j, x);
            assert(s2.len() == s.len());
            assert(has_kids(s2, q, i) == ((s2[i] matches Some(c) && has_node(c, q))
                || has_kids(s2, q, i + 1)));
            if s2[i] matches Some(c) && has_node(c, q) {
                if i == j {
                    assert(s2[i] == x);
                    assert(x matches Some(c1) && has_node(c1, q));
                } else {
                    assert(s2[i] == s[i]);
                    assert(has_kids(s, q, i));
                }
            } else {
                assert(has_kids(s2, q, i + 1));
                assert(has_kids(s, q, i + 1) || (x matches Some(c) && has_node(c, q)));
                assert(has_kids(s, q, i + 1) ==> has_kids(s, q, i));
            }
        }
    }
}

/// A slot list where every present entry rejects the point cannot accept
/// it, and the other way round.
proof fn lemma_can_kids_iff(s: Seq<Option<OctreeNode>>, dp: DataPoint, i: int)
    requires
        0 <= i <= s.len(),
    ensures
        can_kids(s, dp, i) <==> exists|j: int| i <= j < s.len()
            && ((#[trigger] s[j]) matches Some(c) && can_insert(c, dp)),
    decreases s.len() - i,
{
    if i < s.len() {
        lemma_can_kids_iff(s, dp, i + 1);
    }
}

/// Membership in the slots is membership in some present slot.
pub proof fn lemma_has_kids_iff(s: Seq<Option<OctreeNode>>, q: DataPoint, i: int)
    requires
        0 <= i <= s.len(),
    ensures
        has_kids(s, q, i) <==> exists|j: int| i <= j < s.len()
            && ((#[trigger] s[j]) matches Some(c) && has_node(c, q)),
    decreases s.len() - i,
{
    if i < s.len() {
        lemma_has_kids_iff(s, q, i + 1);
    }
}

/// Well-formedness of the slots is well-formedness of each present slot.
pub proof fn lemma_wf_kids_iff(s: Seq<Option<OctreeNode>>, cap: int, i: int)
    requires
        0 <= i <= s.len(),
    ensures
        wf_kids(s, cap, i) <==> forall|j: int| i <= j < s.len()
            ==> (#[trigger] s[j] matches Some(c) ==> wf_node(c) && c.capacity == cap),
    decreases s.len() - i,
{
    if i < s.len() {
        lemma_wf_kids_iff(s, cap, i + 1);
    }
}

/// Hands out one child slot for in-place update.
fn slot_mut(s: &mut Vec<Option<OctreeNode>>, i: usize) -> (el: &mut Option<OctreeNode>)
    requires
        i < old(s).len(),
    ensures
        *el == old(s)@[i as int],
        final(s)@ == old(s)@.update(i as int, *final(el)),
{
    &mut s[i]
}

/// Reads one child slot.
fn slot_ref(s: &Vec<Option<OctreeNode>>, i: usize) -> (el: &Option<OctreeNode>)
    requires
        i < s.len(),
    ensures
        *el == s@[i as int],
{
    &s[i]
}

impl OctreeNode {
    pub fn new(boundary: BoundingBox, capacity: usize) -> (n: OctreeNode)
        requires
            1 <= capacity <= 100_000_000,
            box_ok(boundary),
        ensures
            n.boundary == boundary,
            n.capacity == capacity,
            n.data_points@.len() == 0,
            !n.divided,
            n.children@.len() == 0,
            wf_node(n),
            count_node(n) == 0,
            height_node(n) == 1,
            forall|q: DataPoint| !has_node(n, q),
    {
        OctreeNode {
            boundary,
            capacity,
            data_points: Vec::new(),
            divided: false,
            children: Vec::new(),
        }
    }

    /// Splits the box into its eight octant slots, all fresh and empty.
    #[verifier::loop_isolation(false)]
    pub fn subdivide(&mut self)
        requires
            wf_node(*old(self)),
            !old(self).divided,
        ensures
            wf_node(*final(self)),
            final(self).boundary == old(self).boundary,
            final(self).capacity == old(self).capacity,
            final(self).data_points@ == old(self).data_points@,
            final(self).divided,
            final(self).children@.len() == 8,
            forall|i: int| 0 <= i < 8 ==> {
                &&& #[trigger] final(self).children@[i] matches Some(c)
                &&& c.boundary == child_box_spec(old(self).boundary, i)
                &&& c.capacity == old(self).capacity
                &&& c.data_points@.len() == 0
                &&& !c.divided
            },
            count_node(*final(self)) == count_node(*old(self)),
            height_node(*final(self)) == 2,
            forall|q: DataPoint| has_node(*final(self), q) <==> has_node(*old(self), q),
    {
        let cx = self.boundary.center.x;
        let cy = self.boundary.center.y;
        let cz = self.boundary.center.z;
        let hx = self.boundary.half_extents.x;
        let hy = self.boundary.half_extents.y;
        let hz = self.boundary.half_extents.z;
        let half = Vec3i { x: hx / 2, y: hy / 2, z: hz / 2 };
        let mut kids: Vec<Option<OctreeNode>> = Vec::new();
        let mut i: usize = 0;
        while i < 8
            invariant
                i <= 8,
                kids@.len() == i,
                1 <= self.capacity <= 100_000_000,
                box_ok(self.boundary),
                cx == self.boundary.center.x,
                cy == self.boundary.center.y,
                cz == self.boundary.center.z,
                hx == self.boundary.half_extents.x,
                hy == self.boundary.half_extents.y,
                hz == self.boundary.half_extents.z,
                half == (Vec3i { x: (hx as int / 2) as i64, y: (hy as int / 2) as i64,
                    z: (hz as int / 2) as i64 }),
                forall|k: int| 0 <= k < i ==> {
                    &&& #[trigger] kids@[k] matches Some(c)
                    &&& c.boundary == child_box_spec(self.boundary, k)
                    &&& c.capacity == self.capacity
                    &&& c.data_points@.len() == 0
                    &&& !c.divided
                    &&& c.children@.len() == 0
                    &&& wf_node(c)
                },
            decreases 8 - i,
        {
            let bx = if i % 2 == 1 { hx } else { 0 };
            let by = if (i / 2) % 2 == 1 { hy } else { 0 };
            let bz = if (i / 4) % 2 == 1 { hz } else { 0 };
            let bb = BoundingBox {
                center: Vec3i { x: cx + bx, y: cy + by, z: cz + bz },
                half_extents: half,
            };
            proof {
                assert(bb == child_box_spec(self.boundary, i as int));
                assert(box_ok(bb));
            }
            kids.push(Some(OctreeNode::new(bb, self.capacity)));
            i = i + 1;
        }
        self.children = kids;
        self.divided = true;
        proof {
            lemma_wf_kids_iff(self.children@, self.capacity as int, 0);
            reveal_with_fuel(count_kids, 10);
            reveal_with_fuel(height_kids, 10);
            assert(count_kids(self.children@, 0) == 0);
            assert(height_kids(self.children@, 0) == 1);
            assert forall|q: DataPoint| !has_kids(self.children@, q, 0) by {
                lemma_has_kids_iff(self.children@, q, 0);
                if has_kids(self.children@, q, 0) {
                    let j = choose|j: int| 0 <= j < 8
                        && ((#[trigger] self.children@[j]) matches Some(c) && has_node(c, q));
                    let c = self.children@[j]->0;
                    assert(c.data_points@.len() == 0);
                    assert(!c.data_points@.contains(q));
                    assert(c.children@.len() == 0);
                    assert(!has_kids(c.children@, q, 0));
                    assert(false);
                }
            }
            assert(old(self).children@.len() == 0);
            assert forall|q: DataPoint| has_node(*self, q) <==> has_node(*old(self), q) by {
                assert(!has_kids(self.children@, q, 0));
                assert(!has_kids(old(self).children@, q, 0));
                assert(has_node(*self, q) == self.data_points@.contains(q));
                assert(has_node(*old(self), q) == old(self).data_points@.contains(q));
            }
        }
    }

    /// Inserts a point. The point lands in this node when there is room,
    /// else in the first child slot whose subtree takes it (subdividing a
    /// full leaf first); it is refused when it lies outside the box or no
    /// slot takes it.
    #[verifier::loop_isolation(false)]
    pub fn insert(&mut self, data_point: DataPoint) -> (r: bool)
        requires
            wf_node(*old(self)),
        ensures
            wf_node(*final(self)),
            final(self).boundary == old(self).boundary,
            final(self).capacity == old(self).capacity,
            r == can_insert(*old(self), data_point),
            r ==> count_node(*final(self)) == count_node(*old(self)) + 1,
            !r ==> count_node(*final(self)) == count_node(*old(self)),
            r ==> has_node(*final(self), data_point),
            forall|q: DataPoint| has_node(*old(self), q) ==> has_node(*final(self), q),
            forall|q: DataPoint| has_node(*final(self), q) ==> has_node(*old(self), q)
                || q == data_point,
            old(self).data_points@.len() < old(self).capacity && r
                ==> final(self).data_points@ == old(self).data_points@.push(data_point)
                    && final(self).children@ == old(self).children@
                    && final(self).divided == old(self).divided,
            !r && !contains_point_spec(old(self).boundary, data_point.position)
                ==> *final(self) == *old(self),
            !r ==> final(self).data_points@ == old(self).data_points@,
            r && old(self).data_points@.len() >= old(self).capacity
                && old(self).divided ==> {
                &&& final(self).data_points@ == old(self).data_points@
                &&& final(self).divided
                &&& exists|j: int| {
                    &&& 0 <= j < 8
                    &&& (#[trigger] old(self).children@[j]) matches Some(c)
                        && can_insert(c, data_point)
                    &&& forall|k: int| 0 <= k < j ==> (
                        (#[trigger] old(self).children@[k]) matches Some(c2)
                            ==> !can_insert(c2, data_point))
                    &&& forall|k: int| j < k < 8
                        ==> #[trigger] final(self).children@[k]
                            == old(self).children@[k]
                    &&& final(self).children@[j] matches Some(cf)
                        && has_node(cf, data_point)
                }
            },
            r && old(self).data_points@.len() >= old(self).capacity
                && !old(self).divided ==> {
                &&& final(self).data_points@ == old(self).data_points@
                &&& final(self).divided
                &&& exists|j: int| {
                    &&& 0 <= j < 8
                    &&& contains_point_spec(
                        #[trigger] child_box_spec(old(self).boundary, j),
                        data_point.position)
                    &&& forall|k: int| 0 <= k < j ==> !contains_point_spec(
                        #[trigger] child_box_spec(old(self).boundary, k),
                        data_point.position)
                    &&& final(self).children@[j] matches Some(cf)
                        && has_node(cf, data_point)
                    &&& forall|k: int| 0 <= k < 8 && k != j
                        ==> ((#[trigger] final(self).children@[k]) matches Some(ce)
                            && ce.boundary == child_box_spec(old(self).boundary, k)
                            && ce.data_points@.len() == 0 && !ce.divided)
                }
            },
        decreases height_node(*old(self)),
            (if old(self).data_points@.len() < old(self).capacity { 0int } else { 1int }),
    {
        if !self.boundary.contains_point(&data_point.position) {
            return false;
        }
        if self.data_points.len() < self.capacity {
            self.data_points.push(data_point);
            proof {
                assert(self.data_points@ == old(self).data_points@.push(data_point));
                assert(self.data_points@.contains(data_point)) by {
                    assert(self.data_points@[self.data_points@.len() - 1] == data_point);
                }
                assert(forall|q: DataPoint| old(self).data_points@.contains(q)
                    ==> self.data_points@.contains(q)) by {
                    assert(forall|j: int| 0 <= j < old(self).data_points@.len()
                        ==> self.data_points@[j] == old(self).data_points@[j]);
                }
                assert forall|q: DataPoint| self.data_points@.contains(q)
                    implies old(self).data_points@.contains(q) || q == data_point by {
                    let j = choose|j: int| 0 <= j < self.data_points@.len()
                        && self.data_points@[j] == q;
                    if j < old(self).data_points@.len() {
                        assert(old(self).data_points@[j] == q);
                    }
                }
            }
            return true;
        }
        let ghost t0 = *old(self);
        let mut fresh = false;
        if !self.divided {
            self.subdivide();
            fresh = true;
        }
        let ghost t1 = *self;
        let mut i: usize = 0;
        while i < 8
            invariant
                i <= 8,
                wf_node(*self),
                self.boundary == t1.boundary,
                self.capacity == t1.capacity,
                self.divided,
                self.children@.len() == 8,
                self.data_points@ == t1.data_points@,
                count_kids(self.children@, 0) == count_kids(t1.children@, 0),
                forall|j: int| i <= j < 8 ==> #[trigger] self.children@[j]
                    == t1.children@[j],
                forall|j: int| 0 <= j < i ==> (#[trigger] t1.children@[j] matches Some(c)
                    ==> !can_insert(c, data_point)),
                forall|q: DataPoint| has_kids(t1.children@, q, 0)
                    ==> has_kids(self.children@, q, 0),
                forall|q: DataPoint| has_kids(self.children@, q, 0)
                    ==> has_kids(t1.children@, q, 0) || q == data_point,
                fresh ==> forall|k: int| 0 <= k < i ==> #[trigger] self.children@[k]
                    == t1.children@[k],
            decreases 8 - i,
        {
            let ghost pre = self.children@;
            let mut ok = false;
            let ghost mut slot_post: Option<OctreeNode> = None;
            let slot = slot_mut(&mut self.children, i);
            match slot {
                Some(c) => {
                    proof {
                        lemma_wf_kids_iff(pre, t1.capacity as int, 0);
                        if !fresh {
                            lemma_height_kids_ge(t0.children@, 0, i as int);
                            assert(height_node(*c) < height_node(t0));
                        } else {
                            assert(*c == t1.children@[i as int]->0);
                            assert(c.children@.len() == 0);
                            assert(height_node(*c) == 1);
                            assert(height_node(t0) == 1);
                            assert(c.data_points@.len() < c.capacity);
                            assert(t0.data_points@.len() >= t0.capacity);
                        }
                    }
                    ok = c.insert(data_point);
                    proof {
                        slot_post = Some(*c);
                    }
                },
                None => {
                    proof {
                        slot_post = pre[i as int];
                    }
                },
            }
            proof {
                assert(self.children@ == pre.update(i as int, slot_post));
                lemma_kids_update_count(pre, i as int, slot_post, 0);
                lemma_kids_update_has(pre, i as int, slot_post, 0);
                lemma_kids_update_has_rev(pre, i as int, slot_post, 0);
                lemma_wf_kids_iff(pre, t1.capacity as int, 0);
                lemma_wf_kids_iff(self.children@, t1.capacity as int, 0);
                assert forall|q: DataPoint| has_kids(self.children@, q, 0)
                    implies has_kids(t1.children@, q, 0) || q == data_point by {
                    if !has_kids(pre, q, 0) && has_kids(self.children@, q, 0) {
                        let cf = slot_post->0;
                        assert(slot_post is Some && has_node(cf, q));
                        if pre[i as int] is Some {
                            let c0 = pre[i as int]->0;
                            assert(has_node(c0, q) || q == data_point);
                            if has_node(c0, q) {
                                lemma_has_kids_iff(pre, q, 0);
                            }
                        }
                    }
                }
            }
            if ok {
                proof {
                    assert(pre[i as int] matches Some(c0)
                        && can_insert(c0, data_point));
                    assert(pre[i as int] == t1.children@[i as int]);
                    lemma_can_kids_iff(t1.children@, data_point, 0);
                    assert(slot_post matches Some(cp) && has_node(cp, data_point));
                    lemma_has_kids_iff(self.children@, data_point, 0);
                    assert(self.children@[i as int] == slot_post);
                    assert(has_kids(self.children@, data_point, 0));
                    if fresh {
                        assert(t1.children@[i as int]->0.boundary
                            == child_box_spec(t0.boundary, i as int));
                        assert(contains_point_spec(
                            child_box_spec(t0.boundary, i as int), data_point.position));
                        assert(can_insert(t0, data_point));
                    } else {
                        assert(t1.children@ == t0.children@);
                        assert(can_insert(t0, data_point));
                    }
                    assert forall|q: DataPoint| has_node(t0, q)
                        implies has_node(*self, q) by {
                        if has_kids(t0.children@, q, 0) {
                            if fresh {
                                assert(t0.children@.len() == 0);
                                assert(false);
                            } else {
                                assert(has_kids(t1.children@, q, 0));
                            }
                        }
                    }
                    assert forall|q: DataPoint| has_node(*self, q)
                        implies has_node(t0, q) || q == data_point by {
                        if has_kids(self.children@, q, 0) && q != data_point {
                            assert(has_kids(t1.children@, q, 0));
                            if fresh {
                                assert(has_node(t1, q));
                                assert(has_node(t0, q));
                            }
                        }
                    }
                    if !fresh {
                        assert(t0.children@[i as int] matches Some(cw)
                            && can_insert(cw, data_point));
                        assert(forall|k: int| 0 <= k < i ==> (
                            (#[trigger] t0.children@[k]) matches Some(c2)
                                ==> !can_insert(c2, data_point)));
                        assert forall|k: int| i < k < 8
                            implies #[trigger] self.children@[k] == t0.children@[k] by {
                            assert(self.children@[k] == pre[k]);
                            assert(pre[k] == t1.children@[k]);
                        }
                        assert(self.children@[i as int] matches Some(cf2)
                            && has_node(cf2, data_point));
                    } else {
                        assert(contains_point_spec(
                            child_box_spec(t0.boundary, i as int), data_point.position));
                        assert forall|k: int| 0 <= k < i implies !contains_point_spec(
                            #[trigger] child_box_spec(t0.boundary, k),
                            data_point.position) by {
                            assert(t1.children@[k] matches Some(ck)
                                && ck.boundary == child_box_spec(t0.boundary, k)
                                && ck.data_points@.len() == 0 && ck.capacity >= 1);
                            if contains_point_spec(child_box_spec(t0.boundary, k),
                                data_point.position) {
                                assert(can_insert(t1.children@[k]->0, data_point));
                            }
                        }
                        assert forall|k: int| 0 <= k < 8 && k != i
                            implies (#[trigger] self.children@[k]) matches Some(ce)
                                && ce.boundary == child_box_spec(t0.boundary, k)
                                && ce.data_points@.len() == 0 && !ce.divided by {
                            assert(self.children@[k] == t1.children@[k]);
                        }
                    }
                }
                return true;
            }
            proof {
                if pre[i as int] is Some {
                    let c0 = pre[i as int]->0;
                    assert(!can_insert(c0, data_point));
                    assert(t1.children@[i as int] == pre[i as int]);
                    if fresh {
                        assert(c0.data_points@.len() < c0.capacity);
                        assert(!contains_point_spec(c0.boundary, data_point.position));
                        assert(slot_post == pre[i as int]);
                    }
                }
                if fresh {
                    assert(self.children@ =~= t1.children@);
                }
            }
            i = i + 1;
        }
        proof {
            lemma_can_kids_iff(t1.children@, data_point, 0);
            if !fresh {
                assert(t1.children@ == t0.children@);
                assert(!can_kids(t0.children@, data_point, 0));
                assert(!can_insert(t0, data_point));
            } else {
                assert forall|k: int| 0 <= k < 8 implies !contains_point_spec(
                    #[trigger] child_box_spec(t0.boundary, k), data_point.position) by {
                    assert(t1.children@[k] matches Some(c)
                        && c.boundary == child_box_spec(t0.boundary, k)
                        && c.data_points@.len() == 0 && c.capacity >= 1);
                    if contains_point_spec(child_box_spec(t0.boundary, k),
                        data_point.position) {
                        assert(can_insert(t1.children@[k]->0, data_point));
                    }
                }
                assert(!can_insert(t0, data_point));
            }
            assert forall|q: DataPoint| has_node(t0, q)
                implies has_node(*self, q) by {
                if has_kids(t0.children@, q, 0) {
                    if fresh {
                        assert(t0.children@.len() == 0);
                        assert(false);
                    } else {
                        assert(has_kids(t1.children@, q, 0));
                    }
                }
            }
            assert forall|q: DataPoint| has_node(*self, q)
                implies has_node(t0, q) || q == data_point by {
                if has_kids(self.children@, q, 0) && q != data_point {
                    assert(has_kids(t1.children@, q, 0));
                    if fresh {
                        assert(has_node(t1, q));
                        assert(has_node(t0, q));
                    }
                }
            }
        }
        false
    }
}


/// Every point stored in a well-formed tree lies in the supported cube.
pub proof fn lemma_has_in_bounds(n: OctreeNode, q: DataPoint)
    requires
        wf_node(n),
        has_node(n, q),
    ensures
        q.position.in_bounds(),
    decreases n,
{
    if n.data_points@.contains(q) {
        let j = choose|j: int| 0 <= j < n.data_points@.len() && n.data_points@[j] == q;
        assert(n.data_points@[j].position.in_bounds());
    } else {
        lemma_has_kids_iff(n.children@, q, 0);
        lemma_wf_kids_iff(n.children@, n.capacity as int, 0);
        let j = choose|j: int| 0 <= j < n.children@.len()
            && ((#[trigger] n.children@[j]) matches Some(c) && has_node(c, q));
        lemma_has_in_bounds(n.children@[j]->0, q);
    }
}

/// Removing one entry keeps a sequence's other members.
proof fn lemma_seq_remove_contains(s: Seq<DataPoint>, i: int)
    requires
        0 <= i < s.len(),
    ensures
        forall|q: DataPoint| s.remove(i).contains(q) ==> s.contains(q),
{
    assert forall|q: DataPoint| s.remove(i).contains(q) implies s.contains(q) by {
        let j = choose|j: int| 0 <= j < s.remove(i).len() && s.remove(i)[j] == q;
        if j < i {
            assert(s[j] == q);
        } else {
            assert(s[j + 1] == q);
        }
    }
}

/// Ids found in the slots come from some present slot, and the other way
/// round.
proof fn lemma_has_id_kids_iff(s: Seq<Option<OctreeNode>>, id: u32, i: int)
    requires
        0 <= i <= s.len(),
    ensures
        has_id_kids(s, id, i) <==> exists|j: int| i <= j < s.len()
            && ((#[trigger] s[j]) matches Some(c) && has_id_node(c, id)),
    decreases s.len() - i,
{
    if i < s.len() {
        lemma_has_id_kids_iff(s, id, i + 1);
    }
}

/// Points lifted out of the slots were stored directly in some present
/// slot.
proof fn lemma_lifted_contains(s: Seq<Option<OctreeNode>>, i: int)
    requires
        0 <= i <= s.len(),
    ensures
        forall|q: DataPoint| lifted_upto(s, i).contains(q) ==> exists|j: int| 0 <= j < i
            && ((#[trigger] s[j]) matches Some(c) && c.data_points@.contains(q)),
    decreases i,
{
    if i > 0 {
        lemma_lifted_contains(s, i - 1);
        assert forall|q: DataPoint| lifted_upto(s, i).contains(q)
            implies exists|j: int| 0 <= j < i
                && ((#[trigger] s[j]) matches Some(c) && c.data_points@.contains(q)) by {
            if lifted_upto(s, i - 1).contains(q) {
            } else {
                assert(s[i - 1] matches Some(c) && c.data_points@.contains(q)) by {
                    let tail = match s[i - 1] {
                        None => Seq::<DataPoint>::empty(),
                        Some(c) => c.data_points@,
                    };
                    let k = choose|k: int| 0 <= k < lifted_upto(s, i).len()
                        && lifted_upto(s, i)[k] == q;
                    assert(lifted_upto(s, i) == lifted_upto(s, i - 1) + tail);
                    assert(k >= lifted_upto(s, i - 1).len() || lifted_upto(s, i - 1)[k] == q);
                    assert(tail.contains(q) || lifted_upto(s, i - 1).contains(q));
                }
            }
        }
    }
}

/// Takes a child subtree out of its slot.
fn take_slot(slot: &mut Option<OctreeNode>) -> (taken: Option<OctreeNode>)
    ensures
        taken == *old(slot),
        *final(slot) is None,
{
    let mut tmp: Option<OctreeNode> = None;
    core::mem::swap(slot, &mut tmp);
    tmp
}

impl OctreeNode {
    /// Removes the first point found with this id, collapsing underfilled
    /// nodes on the way out (a collapse drops any deeper grandchild
    /// points, as `merge` documents).
    #[verifier::loop_isolation(false)]
    pub fn remove_data_point(&mut self, id: u32) -> (r: Option<DataPoint>)
        requires
            wf_node(*old(self)),
        ensures
            wf_node(*final(self)),
            final(self).boundary == old(self).boundary,
            final(self).capacity == old(self).capacity,
            r is None <==> !has_id_node(*old(self), id),
            r is None ==> *final(self) == *old(self),
            r matches Some(dp) ==> dp.id == id && has_node(*old(self), dp),
            r is Some ==> count_node(*final(self)) < count_node(*old(self)),
            forall|q: DataPoint| has_node(*final(self), q) ==> has_node(*old(self), q),
        decreases height_node(*old(self)),
    {
        let ghost t0 = *old(self);
        let mut idx: usize = 0;
        let n = self.data_points.len();
        while idx < n
            invariant
                idx <= n,
                n == self.data_points@.len(),
                *self == t0,
                forall|j: int| 0 <= j < idx ==> (#[trigger] self.data_points@[j]).id != id,
            decreases n - idx,
        {
            if self.data_points[idx].id == id {
                let removed = self.data_points.remove(idx);
                proof {
                    lemma_seq_remove_contains(t0.data_points@, idx as int);
                    assert(t0.data_points@.contains(removed)) by {
                        assert(t0.data_points@[idx as int] == removed);
                    }
                    assert forall|m: int| 0 <= m < self.data_points@.len()
                        implies (#[trigger] self.data_points@[m]).position.in_bounds() by {
                        if m < idx {
                            assert(self.data_points@[m] == t0.data_points@[m]);
                        } else {
                            assert(self.data_points@[m] == t0.data_points@[m + 1]);
                        }
                    }
                    assert(wf_node(*self));
                }
                let ghost t2 = *self;
                proof {
                    assert(count_node(t2) < count_node(t0));
                }
                self.merge();
                proof {
                    assert forall|q: DataPoint| has_node(*self, q)
                        implies has_node(t0, q) by {
                        assert(has_node(t2, q));
                        if t2.data_points@.contains(q) {
                            assert(t0.data_points@.contains(q));
                        }
                    }
                }
                return Some(removed);
            }
            idx = idx + 1;
        }
        if self.divided {
            let mut i: usize = 0;
            while i < 8
                invariant
                    i <= 8,
                    *self == t0,
                    forall|j: int| 0 <= j < i ==> (#[trigger] self.children@[j]
                        matches Some(c) ==> !has_id_node(c, id)),
                decreases 8 - i,
            {
                let mut hit = false;
                match slot_ref(&self.children, i) {
                    Some(c) => {
                        proof {
                            lemma_wf_kids_iff(t0.children@, t0.capacity as int, 0);
                            lemma_height_kids_ge(t0.children@, 0, i as int);
                        }
                        hit = c.contains_id(id);
                    },
                    None => {},
                }
                if hit {
                    let ghost pre = self.children@;
                    let mut found: Option<DataPoint> = None;
                    let ghost mut slot_post: Option<OctreeNode> = None;
                    let slot = slot_mut(&mut self.children, i);
                    match slot {
                        Some(c) => {
                            proof {
                                lemma_wf_kids_iff(pre, t0.capacity as int, 0);
                                lemma_height_kids_ge(t0.children@, 0, i as int);
                            }
                            found = c.remove_data_point(id);
                            proof {
                                slot_post = Some(*c);
                            }
                        },
                        None => {
                            proof {
                                assert(false);
                            }
                        },
                    }
                    proof {
                        assert(self.children@ == pre.update(i as int, slot_post));
                        assert(found matches Some(dp) && dp.id == id);
                        lemma_kids_update_has_rev(pre, i as int, slot_post, 0);
                        lemma_wf_kids_iff(pre, t0.capacity as int, 0);
                        lemma_wf_kids_iff(self.children@, t0.capacity as int, 0);
                        let dp = found->0;
                        assert(pre[i as int] matches Some(c0) && has_node(c0, dp));
                        lemma_has_kids_iff(pre, dp, 0);
                        assert(has_kids(t0.children@, dp, 0));
                        lemma_has_id_kids_iff(t0.children@, id, 0);
                        assert(has_id_node(t0, id));
                        let ghost t2 = *self;
                        assert forall|q: DataPoint| has_node(t2, q)
                            implies has_node(t0, q) by {
                            if has_kids(t2.children@, q, 0) {
                                assert(has_kids(pre, q, 0)
                                    || (slot_post matches Some(c) && has_node(c, q)));
                                if !has_kids(pre, q, 0) {
                                    let cf = slot_post->0;
                                    assert(has_node(cf, q));
                                    assert(pre[i as int] matches Some(c0)
                                        && has_node(c0, q));
                                    lemma_has_kids_iff(pre, q, 0);
                                }
                            }
                        }
                    }
                    let ghost t2 = *self;
                    proof {
                        lemma_kids_update_count(pre, i as int, slot_post, 0);
                        assert(count_node(t2) < count_node(t0));
                    }
                    self.merge();
                    proof {
                        assert forall|q: DataPoint| has_node(*self, q)
                            implies has_node(t0, q) by {
                            assert(has_node(t2, q));
                        }
                    }
                    return found;
                }
                i = i + 1;
            }
            proof {
                lemma_has_id_kids_iff(t0.children@, id, 0);
            }
        }
        proof {
            assert(!has_id_node(t0, id)) by {
                if exists|j: int| 0 <= j < t0.data_points@.len()
                    && (#[trigger] t0.data_points@[j]).id == id {
                    assert(false);
                }
                if !t0.divided {
                    assert(t0.children@.len() == 0);
                }
            }
        }
        None
    }

    /// Whether a point with this id is stored anywhere in the subtree.
    #[verifier::loop_isolation(false)]
    pub fn contains_id(&self, id: u32) -> (r: bool)
        requires
            wf_node(*self),
        ensures
            r == has_id_node(*self, id),
        decreases height_node(*self),
    {
        let mut idx: usize = 0;
        let n = self.data_points.len();
        while idx < n
            invariant
                idx <= n,
                n == self.data_points@.len(),
                forall|j: int| 0 <= j < idx ==> (#[trigger] self.data_points@[j]).id != id,
            decreases n - idx,
        {
            if self.data_points[idx].id == id {
                return true;
            }
            idx = idx + 1;
        }
        if self.divided {
            let mut i: usize = 0;
            while i < 8
                invariant
                    i <= 8,
                    forall|j: int| 0 <= j < i ==> (#[trigger] self.children@[j]
                        matches Some(c) ==> !has_id_node(c, id)),
                decreases 8 - i,
            {
                match slot_ref(&self.children, i) {
                    Some(c) => {
                        proof {
                            lemma_wf_kids_iff(self.children@, self.capacity as int, 0);
                            lemma_height_kids_ge(self.children@, 0, i as int);
                        }
                        if c.contains_id(id) {
                            proof {
                                lemma_has_id_kids_iff(self.children@, id, 0);
                            }
                            return true;
                        }
                    },
                    None => {},
                }
                i = i + 1;
            }
            proof {
                lemma_has_id_kids_iff(self.children@, id, 0);
            }
        }
        false
    }

    /// Collapses this node when its own points plus the points stored
    /// directly in its child slots fit within the capacity: those direct
    /// child points are lifted into this node and the slots are dropped.
    /// Deeper points under a still-divided child are dropped with them, so
    /// membership is only ever narrowed.
    #[verifier::loop_isolation(false)]
    pub fn merge(&mut self)
        requires
            wf_node(*old(self)),
        ensures
            wf_node(*final(self)),
            final(self).boundary == old(self).boundary,
            final(self).capacity == old(self).capacity,
            !old(self).divided ==> *final(self) == *old(self),
            old(self).divided && old(self).data_points@.len()
                + direct_kids_len(old(self).children@, 8) > old(self).capacity
                ==> *final(self) == *old(self),
            old(self).divided && old(self).data_points@.len()
                + direct_kids_len(old(self).children@, 8) <= old(self).capacity ==> {
                &&& !final(self).divided
                &&& final(self).data_points@ == old(self).data_points@
                    + lifted_upto(old(self).children@, 8)
            },
            count_node(*final(self)) <= count_node(*old(self)),
            forall|q: DataPoint| has_node(*final(self), q) ==> has_node(*old(self), q),
    {
        let ghost t0 = *old(self);
        if !self.divided {
            return;
        }
        let mut total: usize = self.data_points.len();
        let mut i: usize = 0;
        proof {
            lemma_wf_kids_iff(self.children@, self.capacity as int, 0);
        }
        while i < 8
            invariant
                i <= 8,
                *self == t0,
                self.divided,
                self.children@.len() == 8,
                total == t0.data_points@.len() + direct_kids_len(t0.children@, i as int),
                total <= 100_000_000 + 100_000_000 * i,
            decreases 8 - i,
        {
            let mut here: usize = 0;
            match slot_ref(&self.children, i) {
                Some(c) => {
                    here = c.data_points.len();
                    proof {
                        lemma_wf_kids_iff(self.children@, self.capacity as int, 0);
                        assert(self.children@[i as int] matches Some(cc)
                            && wf_node(cc) && cc.capacity == self.capacity);
                        assert(here <= self.capacity);
                    }
                },
                None => {},
            }
            total = total + here;
            i = i + 1;
        }
        if total > self.capacity {
            return;
        }
        let mut j: usize = 0;
        while j < 8
            invariant
                j <= 8,
                self.boundary == t0.boundary,
                self.capacity == t0.capacity,
                self.divided,
                self.children@.len() == 8,
                self.data_points@ == t0.data_points@ + lifted_upto(t0.children@, j as int),
                self.data_points@.len() <= t0.capacity,
                forall|k: int| j <= k < 8 ==> #[trigger] self.children@[k]
                    == t0.children@[k],
                forall|m: int| 0 <= m < self.data_points@.len()
                    ==> (#[trigger] self.data_points@[m]).position.in_bounds(),
            decreases 8 - j,
        {
            let ghost pre = self.children@;
            let slot = slot_mut(&mut self.children, j);
            let taken = take_slot(slot);
            proof {
                assert(pre[j as int] == t0.children@[j as int]);
                lemma_wf_kids_iff(t0.children@, t0.capacity as int, 0);
            }
            match taken {
                Some(mut c) => {
                    proof {
                        assert(t0.children@[j as int] matches Some(c0) && wf_node(c0));
                        lemma_lifted_len(t0.children@, j as int + 1);
                        lemma_lifted_len(t0.children@, j as int);
                        lemma_direct_len_mono(t0.children@, j as int + 1, 8);
                    }
                    self.data_points.append(&mut c.data_points);
                },
                None => {
                    proof {
                        lemma_lifted_len(t0.children@, j as int + 1);
                        lemma_lifted_len(t0.children@, j as int);
                        lemma_direct_len_mono(t0.children@, j as int + 1, 8);
                    }
                },
            }
            j = j + 1;
        }
        self.children = Vec::new();
        self.divided = false;
        proof {
            lemma_lifted_contains(t0.children@, 8);
            lemma_lifted_len(t0.children@, 8);
            lemma_direct_le_count(t0.children@, 8);
            assert(count_node(*self) <= count_node(t0));
            assert forall|q: DataPoint| has_node(*self, q) implies has_node(t0, q) by {
                assert(self.data_points@.contains(q));
                if t0.data_points@.contains(q) {
                } else {
                    let jj = choose|jj: int| 0 <= jj < lifted_upto(t0.children@, 8).len()
                        && lifted_upto(t0.children@, 8)[jj] == q;
                    assert(lifted_upto(t0.children@, 8).contains(q)) by {
                        let k = choose|k: int| 0 <= k < self.data_points@.len()
                            && self.data_points@[k] == q;
                        if k < t0.data_points@.len() {
                            assert(t0.data_points@[k] == q);
                            assert(false);
                        } else {
                            assert(lifted_upto(t0.children@, 8)[
                                k - t0.data_points@.len()] == q);
                        }
                    }
                    let jx = choose|jx: int| 0 <= jx < 8 && ((#[trigger] t0.children@[jx])
                        matches Some(c) && c.data_points@.contains(q));
                    lemma_has_kids_iff(t0.children@, q, 0);
                }
            }
        }
    }
}

/// Lifting reports exactly the direct point count.
proof fn lemma_lifted_len(s: Seq<Option<OctreeNode>>, i: int)
    requires
        0 <= i <= s.len(),
    ensures
        lifted_upto(s, i).len() == direct_kids_len(s, i),
    decreases i,
{
    if i > 0 {
        lemma_lifted_len(s, i - 1);
    }
}

/// The slots' direct points are at most their full subtree count.
proof fn lemma_direct_le_count(s: Seq<Option<OctreeNode>>, i: int)
    requires
        0 <= i <= s.len(),
    ensures
        direct_kids_len(s, i) + count_kids(s, i) <= count_kids(s, 0),
    decreases i,
{
    if i > 0 {
        lemma_direct_le_count(s, i - 1);
        lemma_count_kids_split(s, i - 1);
    }
}

/// Unrolls the slot count one step.
proof fn lemma_count_kids_split(s: Seq<Option<OctreeNode>>, i: int)
    requires
        0 <= i < s.len(),
    ensures
        count_kids(s, i) == (match s[i] {
            None => 0nat,
            Some(c) => count_node(c),
        }) + count_kids(s, i + 1),
{
}

/// The direct point count of the slots grows with the prefix length.
proof fn lemma_direct_len_mono(s: Seq<Option<OctreeNode>>, i: int, j: int)
    requires
        0 <= i <= j <= s.len(),
    ensures
        direct_kids_len(s, i) <= direct_kids_len(s, j),
    decreases j - i,
{
    if i < j {
        lemma_direct_len_mono(s, i, j - 1);
    }
}


impl OctreeNode {
    /// Appends every stored point inside the region to `results`, pruning
    /// subtrees whose boxes fail the overlap test.
    #[verifier::loop_isolation(false)]
    pub fn query(&self, region: &BoundingBox, results: &mut Vec<DataPoint>)
        requires
            wf_node(*self),
            box_ok(*region),
        ensures
            final(results)@ == old(results)@ + query_seq(*self, *region),
        decreases height_node(*self),
    {
        if !self.boundary.intersects(region) {
            proof {
                assert(final(results)@ =~= old(results)@ + query_seq(*self, *region));
            }
            return;
        }
        let n = self.data_points.len();
        let mut idx: usize = 0;
        while idx < n
            invariant
                idx <= n,
                results@ == old(results)@ + contained_upto(
                    self.data_points@, *region, idx as int),
            decreases n - idx,
        {
            let dp = self.data_points[idx];
            if region.contains_point(&dp.position) {
                results.push(dp);
            }
            proof {
                assert(results@ =~= old(results)@ + contained_upto(
                    self.data_points@, *region, idx as int + 1));
            }
            idx = idx + 1;
        }
        if self.divided {
            let mut i: usize = 0;
            while i < 8
                invariant
                    i <= 8,
                    results@ == old(results)@ + contained_upto(
                        self.data_points@, *region, n as int)
                        + query_kids(self.children@, *region, i as int),
                decreases 8 - i,
            {
                match slot_ref(&self.children, i) {
                    Some(c) => {
                        proof {
                            lemma_wf_kids_iff(self.children@, self.capacity as int, 0);
                            lemma_height_kids_ge(self.children@, 0, i as int);
                        }
                        c.query(region, results);
                        proof {
                            assert(results@ =~= old(results)@ + contained_upto(
                                self.data_points@, *region, n as int)
                                + query_kids(self.children@, *region, i as int + 1));
                        }
                    },
                    None => {
                        proof {
                            assert(results@ =~= old(results)@ + contained_upto(
                                self.data_points@, *region, n as int)
                                + query_kids(self.children@, *region, i as int + 1));
                        }
                    },
                }
                i = i + 1;
            }
            proof {
                assert(results@ =~= old(results)@ + query_seq(*self, *region));
            }
        } else {
            proof {
                assert(results@ =~= old(results)@ + query_seq(*self, *region));
            }
        }
    }

    /// Appends every stored point within the squared radius of the center
    /// to `results`, pruning with the region box around the ball.
    #[verifier::loop_isolation(false)]
    pub fn query_within_radius(
        &self, center: Vec3i, squared_radius: i64, region: &BoundingBox,
        results: &mut Vec<DataPoint>)
        requires
            wf_node(*self),
            center.in_bounds(),
        ensures
            final(results)@ == old(results)@ + radius_seq(
                *self, center, squared_radius as int, *region),
        decreases height_node(*self),
    {
        if !self.boundary.intersects(region) {
            proof {
                assert(final(results)@ =~= old(results)@ + radius_seq(
                    *self, center, squared_radius as int, *region));
            }
            return;
        }
        let n = self.data_points.len();
        let mut idx: usize = 0;
        while idx < n
            invariant
                idx <= n,
                results@ == old(results)@ + within_upto(
                    self.data_points@, center, squared_radius as int, idx as int),
            decreases n - idx,
        {
            let dp = self.data_points[idx];
            let sq = dist_sq(dp.position, center);
            if sq <= squared_radius {
                results.push(dp);
            }
            proof {
                assert(results@ =~= old(results)@ + within_upto(
                    self.data_points@, center, squared_radius as int, idx as int + 1));
            }
            idx = idx + 1;
        }
        if self.divided {
            let mut i: usize = 0;
            while i < 8
                invariant
                    i <= 8,
                    results@ == old(results)@ + within_upto(
                        self.data_points@, center, squared_radius as int, n as int)
                        + radius_kids(self.children@, center, squared_radius as int,
                            *region, i as int),
                decreases 8 - i,
            {
                match slot_ref(&self.children, i) {
                    Some(c) => {
                        proof {
                            lemma_wf_kids_iff(self.children@, self.capacity as int, 0);
                            lemma_height_kids_ge(self.children@, 0, i as int);
                        }
                        c.query_within_radius(center, squared_radius, region, results);
                        proof {
                            assert(results@ =~= old(results)@ + within_upto(
                                self.data_points@, center, squared_radius as int, n as int)
                                + radius_kids(self.children@, center, squared_radius as int,
                                    *region, i as int + 1));
                        }
                    },
                    None => {
                        proof {
                            assert(results@ =~= old(results)@ + within_upto(
                                self.data_points@, center, squared_radius as int, n as int)
                                + radius_kids(self.children@, center, squared_radius as int,
                                    *region, i as int + 1));
                        }
                    },
                }
                i = i + 1;
            }
            proof {
                assert(results@ =~= old(results)@ + radius_seq(
                    *self, center, squared_radius as int, *region));
            }
        } else {
            proof {
                assert(results@ =~= old(results)@ + radius_seq(
                    *self, center, squared_radius as int, *region));
            }
        }
    }

    fn get_child_index(&self, point: &Vec3i) -> (idx: usize)
        ensures
            idx == (if point.x >= self.boundary.center.x { 1int } else { 0int })
                + (if point.y >= self.boundary.center.y { 2int } else { 0int })
                + (if point.z >= self.boundary.center.z { 4int } else { 0int }),
            idx < 8,
    {
        let mut index: usize = 0;
        if point.x >= self.boundary.center.x {
            index = index + 1;
        }
        if point.y >= self.boundary.center.y {
            index = index + 2;
        }
        if point.z >= self.boundary.center.z {
            index = index + 4;
        }
        index
    }

    /// Doubles the box away from a point outside it and hangs the old
    /// subtree in the matching octant slot of the fresh root, which takes
    /// the point when the enlarged box contains it.
    #[verifier::loop_isolation(false)]
    pub fn grow(&mut self, data_point: &DataPoint)
        requires
            wf_node(*old(self)),
            data_point.position.in_bounds(),
            data_point.position != old(self).boundary.center,
            grow_ok(old(self).boundary),
        ensures
            wf_node(*final(self)),
            final(self).capacity == old(self).capacity,
            final(self).divided,
            final(self).boundary.half_extents.x == 2 * old(self).boundary.half_extents.x,
            final(self).boundary.half_extents.y == 2 * old(self).boundary.half_extents.y,
            final(self).boundary.half_extents.z == 2 * old(self).boundary.half_extents.z,
            final(self).boundary.center == grow_center_spec(
                old(self).boundary, data_point.position),
            forall|q: DataPoint| has_node(*old(self), q) ==> has_node(*final(self), q),
            forall|q: DataPoint| has_node(*final(self), q) ==> has_node(*old(self), q)
                || q == *data_point,
            contains_point_spec(final(self).boundary, data_point.position)
                ==> has_node(*final(self), *data_point),
    {
        let ghost t0 = *old(self);
        let c = self.boundary.center;
        let h = self.boundary.half_extents;
        let diff = data_point.position.sub(c);
        let sq = dist_sq(data_point.position, c);
        proof {
            lemma_nonzero_dist(data_point.position, c);
        }
        let len = isqrt_u64(sq as u64) as i64;
        proof {
            let sf = sqrt_floor(sq as int);
            assert(is_isqrt(sq as int, sf)) by {
                assert(is_isqrt(sq as int, len as int));
            }
            crate::math::lemma_isqrt_unique(sq as int, len as int, sf);
            assert(len as int == sqrt_floor(dist_sq_spec(data_point.position, c)));
            assert(1 <= len <= 0xffff_ffff) by (nonlinear_arith)
                requires
                    is_isqrt(sq as int, len as int),
                    1 <= sq <= 120_000_000_000_000_000;
            assert(diff.x * diff.x <= sq && diff.y * diff.y <= sq && diff.z * diff.z <= sq)
                by (nonlinear_arith)
                requires sq == dist_sq_spec(data_point.position, c)
                    && diff.x == data_point.position.x - c.x
                    && diff.y == data_point.position.y - c.y
                    && diff.z == data_point.position.z - c.z;
            lemma_offset_in_half(diff.x as int, h.x as int, len as int, sq as int);
            lemma_offset_in_half(diff.y as int, h.y as int, len as int, sq as int);
            lemma_offset_in_half(diff.z as int, h.z as int, len as int, sq as int);
        }
        let ox = diff.x * h.x / len;
        let oy = diff.y * h.y / len;
        let oz = diff.z * h.z / len;
        let new_bb = BoundingBox {
            center: Vec3i { x: c.x + ox, y: c.y + oy, z: c.z + oz },
            half_extents: Vec3i { x: 2 * h.x, y: 2 * h.y, z: 2 * h.z },
        };
        let mut new_root = OctreeNode::new(new_bb, self.capacity);
        let ghost fresh0 = new_root;
        let inserted = new_root.insert(*data_point);
        proof {
            assert(can_insert(fresh0, *data_point)
                == contains_point_spec(new_bb, data_point.position));
        }
        let idx = new_root.get_child_index(&c);
        let mut tmp = new_root;
        core::mem::swap(self, &mut tmp);
        let old_node = tmp;
        let ghost base = *self;
        let mut kids: Vec<Option<OctreeNode>> = Vec::new();
        let mut i: usize = 0;
        while i < idx
            invariant
                i <= idx,
                kids@.len() == i,
                forall|k: int| 0 <= k < i ==> #[trigger] kids@[k] is None,
            decreases idx - i,
        {
            kids.push(None);
            i = i + 1;
        }
        kids.push(Some(old_node));
        let mut j: usize = idx + 1;
        while j < 8
            invariant
                idx + 1 <= j <= 8,
                kids@.len() == j,
                forall|k: int| 0 <= k < j && k != idx ==> #[trigger] kids@[k] is None,
                kids@[idx as int] == Some(old_node),
            decreases 8 - j,
        {
            kids.push(None);
            j = j + 1;
        }
        self.children = kids;
        self.divided = true;
        proof {
            lemma_wf_kids_iff(self.children@, self.capacity as int, 0);
            lemma_has_kids_iff(self.children@, *data_point, 0);
            lemma_kids_only(self.children@, idx as int);
            assert forall|q: DataPoint| has_node(t0, q)
                implies has_node(*self, q) by {
                assert(has_node(old_node, q));
                lemma_has_kids_iff(self.children@, q, 0);
                assert(self.children@[idx as int] matches Some(cc) && has_node(cc, q));
            }
            assert forall|q: DataPoint| has_node(*self, q)
                implies has_node(t0, q) || q == *data_point by {
                if self.data_points@.contains(q) {
                    assert(has_node(base, q));
                } else {
                    lemma_has_kids_iff(self.children@, q, 0);
                    let j = choose|j: int| 0 <= j < self.children@.len()
                        && ((#[trigger] self.children@[j]) matches Some(cc)
                            && has_node(cc, q));
                    assert(j == idx);
                    assert(has_node(old_node, q));
                }
            }
            if contains_point_spec(self.boundary, data_point.position) {
                assert(inserted);
                assert(base.data_points@ == fresh0.data_points@.push(*data_point));
                assert(base.data_points@[0] == *data_point);
                assert(base.data_points@.contains(*data_point));
            }
        }
    }
}

/// A slot list that is empty except at one index aggregates only that
/// slot.
proof fn lemma_kids_only(s: Seq<Option<OctreeNode>>, idx: int)
    requires
        0 <= idx < s.len(),
        forall|k: int| 0 <= k < s.len() && k != idx ==> #[trigger] s[k] is None,
    ensures
        count_kids(s, 0) == (match s[idx] {
            None => 0nat,
            Some(c) => count_node(c),
        }),
    decreases s.len(),
{
    lemma_kids_only_from(s, idx, 0);
}

proof fn lemma_kids_only_from(s: Seq<Option<OctreeNode>>, idx: int, i: int)
    requires
        0 <= idx < s.len(),
        0 <= i <= s.len(),
        forall|k: int| 0 <= k < s.len() && k != idx ==> #[trigger] s[k] is None,
    ensures
        count_kids(s, i) == (if i <= idx {
            match s[idx] {
                None => 0nat,
                Some(c) => count_node(c),
            }
        } else {
            0nat
        }),
    decreases s.len() - i,
{
    if i < s.len() {
        lemma_kids_only_from(s, idx, i + 1);
    }
}

/// Distinct points are at least one step apart.
proof fn lemma_nonzero_dist(a: Vec3i, b: Vec3i)
    by (nonlinear_arith)
    requires
        a != b,
        a.in_bounds(),
        b.in_bounds(),
    ensures
        1 <= dist_sq_spec(a, b) <= 120_000_000_000_000_000,
{
}

/// An offset scaled by a component over the full distance stays within the
/// half extent.
proof fn lemma_offset_in_half(d: int, h: int, len: int, sq: int)
    requires
        is_isqrt(sq, len),
        1 <= len,
        d * d <= sq,
        0 <= h <= 50_000_000,
        -200_000_000 <= d <= 200_000_000,
    ensures
        -10_000_000_000_000_000 <= d * h <= 10_000_000_000_000_000,
        -h <= tdiv(d * h, len) <= h,
{
    assert(-len <= d <= len) by (nonlinear_arith)
        requires is_isqrt(sq, len) && d * d <= sq && 1 <= len;
    assert(-10_000_000_000_000_000 <= d * h <= 10_000_000_000_000_000
        && -(h * len) <= d * h <= h * len) by (nonlinear_arith)
        requires -len <= d <= len && 0 <= h <= 50_000_000 && -200_000_000 <= d <= 200_000_000;
    assert(-(h * len) <= d * h);
    assert(d * h <= h * len);
    assert((-h) * len == -(h * len)) by (nonlinear_arith);
    crate::terrain::lemma_tdiv_bound(d * h, len, h);
}

/// Where a regrow recenters the box: the old center pushed one half extent
/// per axis toward the point, the direction scaled by the rounded-down
/// distance.
pub open spec fn grow_center_spec(bb: BoundingBox, p: Vec3i) -> Vec3i {
    let len = sqrt_floor(dist_sq_spec(p, bb.center));
    Vec3i {
        x: (bb.center.x + tdiv((p.x - bb.center.x) * bb.half_extents.x, len)) as i64,
        y: (bb.center.y + tdiv((p.y - bb.center.y) * bb.half_extents.y, len)) as i64,
        z: (bb.center.z + tdiv((p.z - bb.center.z) * bb.half_extents.z, len)) as i64,
    }
}

/// Headroom under which a box can double outward and stay in range.
pub open spec fn grow_ok(bb: BoundingBox) -> bool {
    &&& 0 <= bb.half_extents.x <= 50_000_000
    &&& 0 <= bb.half_extents.y <= 50_000_000
    &&& 0 <= bb.half_extents.z <= 50_000_000
    &&& -COORD_LIMIT <= bb.center.x - 5 * bb.half_extents.x
    &&& bb.center.x + 5 * bb.half_extents.x <= COORD_LIMIT
    &&& -COORD_LIMIT <= bb.center.y - 5 * bb.half_extents.y
    &&& bb.center.y + 5 * bb.half_extents.y <= COORD_LIMIT
    &&& -COORD_LIMIT <= bb.center.z - 5 * bb.half_extents.z
    &&& bb.center.z + 5 * bb.half_extents.z <= COORD_LIMIT
}

} // verus!
