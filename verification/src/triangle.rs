use vstd::prelude::*;
use crate::math::{Vec3i, COORD_LIMIT, tdiv, dist_sq, dist_sq_spec, cross};
use crate::terrain::{BASE_SPLIT_LEVEL, TerrainSettings, mix64_spec, apply_height};

verus! {

/// Squared distance stood in for the nearest probe when none exists.
pub const NO_PROBE_DISTANCE_SQ: i64 = 444_443_555_556_000_000;

/// Largest squared distance between two in-bounds points.
pub const MAX_DIST_SQ: i64 = 120_000_000_000_000_000;

/// Geometry of one triangular patch: three height-adjusted corners, an
/// unnormalized surface normal, a cosmetic texture anchor, the centroid, and
/// the squared lengths of the longest and shortest edge.
#[derive(Clone, Copy, Debug, PartialEq, Eq, Structural)]
pub struct TriangleData {
    pub v0: Vec3i,
    pub v1: Vec3i,
    pub v2: Vec3i,
    /// `-((v2 - v1) x (v1 - v0))`, left unnormalized; renderers scale it.
    pub norm: Vec3i,
    /// Texture anchor in thousandths, pseudo-random per patch but a pure
    /// function of the corners.
    pub uv_u: i64,
    pub uv_v: i64,
    pub center: Vec3i,
    pub max_edge_sq: i64,
    pub min_edge_sq: i64,
}

/// The largest of three values, by the same comparison chain the length
/// variant uses.
pub open spec fn max3_spec(l1: int, l2: int, l3: int) -> int {
    if l1 > l2 {
        if l1 > l3 { l1 } else { l3 }
    } else if l2 > l3 { l2 } else { l3 }
}

pub open spec fn min3_spec(l1: int, l2: int, l3: int) -> int {
    if l1 < l2 {
        if l1 < l3 { l1 } else { l3 }
    } else if l2 < l3 { l2 } else { l3 }
}

fn max3(l1: i64, l2: i64, l3: i64) -> (r: i64)
    ensures
        r == max3_spec(l1 as int, l2 as int, l3 as int),
{
    if l1 > l2 {
        if l1 > l3 { l1 } else { l3 }
    } else if l2 > l3 { l2 } else { l3 }
}

fn min3(l1: i64, l2: i64, l3: i64) -> (r: i64)
    ensures
        r == min3_spec(l1 as int, l2 as int, l3 as int),
{
    if l1 < l2 {
        if l1 < l3 { l1 } else { l3 }
    } else if l2 < l3 { l2 } else { l3 }
}

/// The texture anchor derived from the corners: two lattice-style hashes
/// folded to thousandths.
#[verifier::opaque]
pub open spec fn uv_spec(a: Vec3i, b: Vec3i, c: Vec3i) -> (i64, i64) {
    let h = mix64_spec(
        mix64_spec(a.x as u64) ^ mix64_spec((b.y as u64) ^ 0x0123_4567_89AB_CDEF)
            ^ mix64_spec((c.z as u64) ^ 0x0FED_CBA9_8765_4321),
    );
    (((h % 1000) as i64), (((h >> 32) % 1000) as i64))
}

/// The corner of the triangle's normal: `-((c - b) x (b - a))`.
pub open spec fn norm_spec(a: Vec3i, b: Vec3i, c: Vec3i) -> Vec3i {
    let e1 = Vec3i { x: (c.x - b.x) as i64, y: (c.y - b.y) as i64, z: (c.z - b.z) as i64 };
    let e2 = Vec3i { x: (b.x - a.x) as i64, y: (b.y - a.y) as i64, z: (b.z - a.z) as i64 };
    Vec3i {
        x: (-(e1.y * e2.z - e1.z * e2.y)) as i64,
        y: (-(e1.z * e2.x - e1.x * e2.z)) as i64,
        z: (-(e1.x * e2.y - e1.y * e2.x)) as i64,
    }
}

/// Full description of the derived geometry of a patch over its corners.
#[verifier::opaque]
pub open spec fn make_data_spec(a: Vec3i, b: Vec3i, c: Vec3i) -> TriangleData {
    let l1 = dist_sq_spec(a, b);
    let l2 = dist_sq_spec(c, b);
    let l3 = dist_sq_spec(a, c);
    TriangleData {
        v0: a,
        v1: b,
        v2: c,
        norm: norm_spec(a, b, c),
        uv_u: uv_spec(a, b, c).0,
        uv_v: uv_spec(a, b, c).1,
        center: a.centroid_spec(b, c),
        max_edge_sq: max3_spec(l1, l2, l3) as i64,
        min_edge_sq: min3_spec(l1, l2, l3) as i64,
    }
}

impl TriangleData {
    /// The corners stay in the supported cube; the cached values are the
    /// ones the corners dictate.
    pub open spec fn bounded(self) -> bool {
        &&& self.v0.in_bounds()
        &&& self.v1.in_bounds()
        &&& self.v2.in_bounds()
        &&& self.center.in_bounds()
        &&& 0 <= self.min_edge_sq <= self.max_edge_sq <= MAX_DIST_SQ
    }

    /// Derives the cached geometry from three corners.
    pub fn new(a: Vec3i, b: Vec3i, c: Vec3i) -> (d: TriangleData)
        requires
            a.in_bounds(),
            b.in_bounds(),
            c.in_bounds(),
        ensures
            d == make_data_spec(a, b, c),
            d.v0 == a,
            d.v1 == b,
            d.v2 == c,
            d.center == a.centroid_spec(b, c),
            d.bounded(),
    {
        proof {
            reveal(uv_spec);
            reveal(make_data_spec);
        }
        let l1 = dist_sq(a, b);
        let l2 = dist_sq(c, b);
        let l3 = dist_sq(a, c);
        let e1 = c.sub(b);
        let e2 = b.sub(a);
        let cr = cross(e1, e2);
        let h = crate::terrain::mix64(
            crate::terrain::mix64(#[verifier::truncate] (a.x as u64))
                ^ crate::terrain::mix64((#[verifier::truncate] (b.y as u64)) ^ 0x0123_4567_89AB_CDEF)
                ^ crate::terrain::mix64((#[verifier::truncate] (c.z as u64)) ^ 0x0FED_CBA9_8765_4321),
        );
        TriangleData {
            v0: a,
            v1: b,
            v2: c,
            norm: Vec3i { x: -cr.x, y: -cr.y, z: -cr.z },
            uv_u: ((h % 1000) as i64),
            uv_v: (((h >> 32) % 1000) as i64),
            center: a.centroid(b, c),
            max_edge_sq: max3(l1, l2, l3),
            min_edge_sq: min3(l1, l2, l3),
        }
    }
}

/// One node of the terrain quadtree: a triangular patch that is either a
/// leaf or split into exactly four children.
#[derive(Debug)]
pub struct Triangle {
    /// Geometry of this patch itself.
    pub data: TriangleData,
    /// Flattened geometry of every leaf patch under this node (itself if a
    /// leaf); valid once the node has been through an update pass.
    pub all_data: Vec<TriangleData>,
    /// The three candidate skirt triangles, one per edge, built once at
    /// construction from each edge and its height-adjusted midpoint.
    pub skirt_data: (TriangleData, TriangleData, TriangleData),
    /// Flattened skirt geometry needed under this node to mask seams.
    pub all_skirt_data: Vec<TriangleData>,
    /// Depth from the tessellation root.
    pub level: u8,
    /// Index in the parent's list of children (1 through 4).
    pub id: u8,
    /// Four children when split, none when a leaf.
    pub children: Option<Box<TriangleChildren>>,
    /// Deepest level at which this subtree has a leaf.
    pub max_leaf_level: u8,
    /// Shallowest level at which this subtree has a leaf.
    pub min_leaf_level: u8,
    /// Chain of child indices from the root.
    pub coord: Vec<u8>,
    /// Whether an update pass has visited this node yet.
    pub was_updated: bool,
}

/// The four children of a split patch. Child 1 is the inner triangle of the
/// midpoints; children 2 through 4 sit at the corners.
#[derive(Debug)]
pub struct TriangleChildren {
    pub c1: Triangle,
    pub c2: Triangle,
    pub c3: Triangle,
    pub c4: Triangle,
}

pub open spec fn is_split_spec(t: Triangle) -> bool {
    t.children is Some
}

/// Structural height of the tree, for termination measures.
pub open spec fn height_of(t: Triangle) -> nat
    decreases t,
{
    match t.children {
        None => 1,
        Some(ch) => {
            let h1 = height_of(ch.c1);
            let h2 = height_of(ch.c2);
            let h3 = height_of(ch.c3);
            let h4 = height_of(ch.c4);
            1 + max3_spec(max3_spec(h1 as int, h2 as int, h3 as int), h4 as int, 0) as nat
        },
    }
}

/// Structural well-formedness: bounded geometry at every node, children one
/// level deeper than their parent.
pub open spec fn wf(t: Triangle) -> bool
    decreases t,
{
    &&& t.data.bounded()
    &&& t.skirt_data.0.bounded()
    &&& t.skirt_data.1.bounded()
    &&& t.skirt_data.2.bounded()
    &&& match t.children {
        None => true,
        Some(ch) => {
            &&& t.level < 255
            &&& ch.c1.level == t.level + 1
            &&& ch.c2.level == t.level + 1
            &&& ch.c3.level == t.level + 1
            &&& ch.c4.level == t.level + 1
            &&& wf(ch.c1)
            &&& wf(ch.c2)
            &&& wf(ch.c3)
            &&& wf(ch.c4)
        },
    }
}

/// Number of leaf patches in the subtree.
pub open spec fn leaf_count(t: Triangle) -> nat
    decreases t,
{
    match t.children {
        None => 1,
        Some(ch) => leaf_count(ch.c1) + leaf_count(ch.c2) + leaf_count(ch.c3) + leaf_count(
            ch.c4,
        ),
    }
}

/// Geometry of every leaf patch in the subtree, children in order.
pub open spec fn leaf_datas(t: Triangle) -> Seq<TriangleData>
    decreases t,
{
    match t.children {
        None => seq![t.data],
        Some(ch) => leaf_datas(ch.c1) + leaf_datas(ch.c2) + leaf_datas(ch.c3) + leaf_datas(
            ch.c4,
        ),
    }
}

/// Deepest leaf level in the subtree.
pub open spec fn max_leaf(t: Triangle) -> int
    decreases t,
{
    match t.children {
        None => t.level as int,
        Some(ch) => max3_spec(
            max3_spec(max_leaf(ch.c1), max_leaf(ch.c2), max_leaf(ch.c3)),
            max_leaf(ch.c4),
            0,
        ),
    }
}

/// Shallowest leaf level in the subtree.
pub open spec fn min_leaf(t: Triangle) -> int
    decreases t,
{
    match t.children {
        None => t.level as int,
        Some(ch) => min3_spec(
            min3_spec(min_leaf(ch.c1), min_leaf(ch.c2), min_leaf(ch.c3)),
            min_leaf(ch.c4),
            0xffff_ffff,
        ),
    }
}

/// The squared distance from `center` to the nearest entry of
/// `probes[i..]`, where an imagined probe at the no-probe sentinel distance
/// closes the chain; with no probes at all, the sentinel wins.
pub open spec fn min_probe_dist_sq(probes: Seq<Vec3i>, center: Vec3i, i: int) -> int
    decreases probes.len() - i,
{
    if i < 0 || i >= probes.len() {
        NO_PROBE_DISTANCE_SQ as int
    } else {
        let d = dist_sq_spec(probes[i], center);
        let rest = min_probe_dist_sq(probes, center, i + 1);
        if d < rest { d } else { rest }
    }
}

pub open spec fn probes_bounded(probes: Seq<Vec3i>) -> bool {
    forall|i: int| 0 <= i < probes.len() ==> (#[trigger] probes[i]).in_bounds()
}

/// The squared nearest-probe distance to this patch's centroid.
fn nearest_probe_dist_sq(probes: &Vec<Vec3i>, center: Vec3i) -> (d: i64)
    requires
        probes_bounded(probes@),
        center.in_bounds(),
    ensures
        d == min_probe_dist_sq(probes@, center, 0),
        0 <= d <= NO_PROBE_DISTANCE_SQ,
{
    let mut best: i64 = NO_PROBE_DISTANCE_SQ;
    let mut i: usize = probes.len();
    while i > 0
        invariant
            i <= probes.len(),
            probes_bounded(probes@),
            center.in_bounds(),
            best == min_probe_dist_sq(probes@, center, i as int),
            0 <= best <= NO_PROBE_DISTANCE_SQ,
        decreases i,
    {
        i = i - 1;
        let d = dist_sq(probes[i], center);
        if d < best {
            best = d;
        }
    }
    best
}

/// The split threshold numerator: `(1 - SPLIT_LAZY_COEF) * TESSELATION_VALUE`
/// in millionths.
pub open spec fn lo_num(s: TerrainSettings) -> int {
    (1000 - s.SPLIT_LAZY_COEF) * s.TESSELATION_VALUE
}

/// The merge threshold numerator: `(1 + SPLIT_LAZY_COEF) * TESSELATION_VALUE`
/// in millionths.
pub open spec fn hi_num(s: TerrainSettings) -> int {
    (1000 + s.SPLIT_LAZY_COEF) * s.TESSELATION_VALUE
}

/// Whether the angular-size metric of the patch (nearest-probe distance over
/// shortest edge length) is strictly below `num` millionths. Phrased over
/// squares, which is exact for the nonnegative quantities involved.
pub open spec fn metric_below(dsq: int, min_edge_sq: int, num: int) -> bool {
    dsq * 1_000_000_000_000 < num * num * min_edge_sq
}

/// Whether the angular-size metric is strictly above `num` millionths.
pub open spec fn metric_above(dsq: int, min_edge_sq: int, num: int) -> bool {
    dsq * 1_000_000_000_000 > num * num * min_edge_sq
}

/// The split decision: force-split below the floor levels; refuse over the
/// cap, under the edge-size floor, or at 2:1 edge degeneracy; otherwise
/// split when the patch looks larger than the lazy-banded threshold.
pub open spec fn should_split_spec(t: Triangle, probes: Seq<Vec3i>, s: TerrainSettings) -> bool {
    if t.level < s.MIN_SPLIT_LEVEL || t.level < BASE_SPLIT_LEVEL {
        true
    } else if t.level >= s.MAX_SPLIT_LEVEL
        || t.data.min_edge_sq < s.MIN_TRIANGLE_EDGE_SIZE * s.MIN_TRIANGLE_EDGE_SIZE
        || t.data.max_edge_sq > 4 * t.data.min_edge_sq {
        false
    } else {
        metric_below(
            min_probe_dist_sq(probes, t.data.center, 0),
            t.data.min_edge_sq as int,
            lo_num(s),
        )
    }
}

/// The merge decision: never at or below the floor levels; force over the
/// cap; otherwise merge when the patch looks smaller than the lazy-banded
/// threshold.
pub open spec fn should_merge_spec(t: Triangle, probes: Seq<Vec3i>, s: TerrainSettings) -> bool {
    if t.level <= s.MIN_SPLIT_LEVEL || t.level <= BASE_SPLIT_LEVEL {
        false
    } else if t.level > s.MAX_SPLIT_LEVEL {
        true
    } else {
        metric_above(
            min_probe_dist_sq(probes, t.data.center, 0),
            t.data.min_edge_sq as int,
            hi_num(s),
        )
    }
}

/// The split state a patch itself ends an update pass in: split first when
/// eligible, then merged back when the merge test fires.
pub open spec fn next_split_state(t: Triangle, probes: Seq<Vec3i>, s: TerrainSettings) -> bool {
    (is_split_spec(t) || should_split_spec(t, probes, s)) && !should_merge_spec(t, probes, s)
}

impl Triangle {
    pub open spec fn metric_in_band(self, probes: Seq<Vec3i>, s: TerrainSettings) -> bool {
        &&& !metric_below(
            min_probe_dist_sq(probes, self.data.center, 0),
            self.data.min_edge_sq as int,
            lo_num(s),
        )
        &&& !metric_above(
            min_probe_dist_sq(probes, self.data.center, 0),
            self.data.min_edge_sq as int,
            hi_num(s),
        )
    }

    pub fn is_split(&self) -> (r: bool)
        ensures
            r == is_split_spec(*self),
    {
        self.children.is_some()
    }

    /// Number of leaf triangles this patch currently aggregates.
    pub fn tri_count(&self) -> (n: usize)
        ensures
            n == self.all_data@.len(),
    {
        self.all_data.len()
    }

    pub fn coord(&self) -> (c: &Vec<u8>)
        ensures
            c@ == self.coord@,
    {
        &self.coord
    }

    fn should_split(&self, probes: &Vec<Vec3i>, s: &TerrainSettings) -> (r: bool)
        requires
            self.data.bounded(),
            probes_bounded(probes@),
            s.valid(),
        ensures
            r == should_split_spec(*self, probes@, *s),
    {
        if self.level < s.MIN_SPLIT_LEVEL || self.level < BASE_SPLIT_LEVEL {
            return true;
        }
        proof {
            crate::math::lemma_coord_square_bound(s.MIN_TRIANGLE_EDGE_SIZE as int);
        }
        let min_sz_sq = s.MIN_TRIANGLE_EDGE_SIZE * s.MIN_TRIANGLE_EDGE_SIZE;
        if self.level >= s.MAX_SPLIT_LEVEL || self.data.min_edge_sq < min_sz_sq
            || self.data.max_edge_sq > 4 * self.data.min_edge_sq {
            false
        } else {
            let d = nearest_probe_dist_sq(probes, self.data.center);
            proof {
                assert(0 <= (1000 - s.SPLIT_LAZY_COEF) * s.TESSELATION_VALUE <= 1_500_000_000)
                    by (nonlinear_arith)
                    requires 0 <= s.SPLIT_LAZY_COEF < 500 && 0 <= s.TESSELATION_VALUE <= 1_000_000;
            }
            let num = (1000 - s.SPLIT_LAZY_COEF) * s.TESSELATION_VALUE;
            proof {
                lemma_metric_cast(d as int, num as int, self.data.min_edge_sq as int);
            }
            let lhs: u128 = (d as u128) * 1_000_000_000_000;
            let rhs: u128 = (num as u128) * (num as u128) * (self.data.min_edge_sq as u128);
            lhs < rhs
        }
    }

    fn should_merge(&self, probes: &Vec<Vec3i>, s: &TerrainSettings) -> (r: bool)
        requires
            self.data.bounded(),
            probes_bounded(probes@),
            s.valid(),
        ensures
            r == should_merge_spec(*self, probes@, *s),
    {
        if self.level <= s.MIN_SPLIT_LEVEL || self.level <= BASE_SPLIT_LEVEL {
            return false;
        }
        if self.level > s.MAX_SPLIT_LEVEL {
            true
        } else {
            let d = nearest_probe_dist_sq(probes, self.data.center);
            proof {
                assert(0 <= (1000 + s.SPLIT_LAZY_COEF) * s.TESSELATION_VALUE <= 1_500_000_000)
                    by (nonlinear_arith)
                    requires 0 <= s.SPLIT_LAZY_COEF < 500 && 0 <= s.TESSELATION_VALUE <= 1_000_000;
            }
            let num = (1000 + s.SPLIT_LAZY_COEF) * s.TESSELATION_VALUE;
            proof {
                lemma_metric_cast(d as int, num as int, self.data.min_edge_sq as int);
            }
            let lhs: u128 = (d as u128) * 1_000_000_000_000;
            let rhs: u128 = (num as u128) * (num as u128) * (self.data.min_edge_sq as u128);
            lhs > rhs
        }
    }
}

/// The `u128` comparison the decision functions make agrees with the
/// mathematical one, and neither side overflows.
proof fn lemma_metric_cast(d: int, num: int, min_edge_sq: int)
    by (nonlinear_arith)
    requires
        0 <= d <= NO_PROBE_DISTANCE_SQ,
        0 <= num <= 1_500_000_000,
        0 <= min_edge_sq <= MAX_DIST_SQ,
    ensures
        d * 1_000_000_000_000 <= 0xffff_ffff_ffff_ffff_ffff_ffff_ffff_ffff,
        num * num * min_edge_sq <= 0xffff_ffff_ffff_ffff_ffff_ffff_ffff_ffff,
        0 <= d * 1_000_000_000_000,
        0 <= num * num <= 2_250_000_000_000_000_000,
        0 <= num * num * min_edge_sq,
{
}


/// The geometry a fresh patch derives from three plane corners.
pub open spec fn data_of_corners(p0: Vec3i, p1: Vec3i, p2: Vec3i) -> TriangleData {
    make_data_spec(
        crate::terrain::apply_height_spec(p0),
        crate::terrain::apply_height_spec(p1),
        crate::terrain::apply_height_spec(p2),
    )
}

/// Applying the height field twice is the same as applying it once: the
/// plane coordinates are untouched and the height depends on them alone.
pub proof fn lemma_apply_height_idempotent(v: Vec3i)
    ensures
        crate::terrain::apply_height_spec(crate::terrain::apply_height_spec(v))
            == crate::terrain::apply_height_spec(v),
{
}

/// The patch geometry is the one its own corners dictate: the corners
/// already carry their terrain height, and the cached values derive from
/// them.
pub open spec fn height_consistent(d: TriangleData) -> bool {
    &&& crate::terrain::apply_height_spec(d.v0) == d.v0
    &&& crate::terrain::apply_height_spec(d.v1) == d.v1
    &&& crate::terrain::apply_height_spec(d.v2) == d.v2
    &&& d == make_data_spec(d.v0, d.v1, d.v2)
}

/// The three candidate skirt triangles of a patch: one per edge, from the
/// edge's corners and its height-adjusted midpoint.
pub open spec fn skirts_of(d: TriangleData) -> (TriangleData, TriangleData, TriangleData) {
    (
        make_data_spec(
            d.v0,
            crate::terrain::apply_height_spec(d.v0.midpoint_spec(d.v1)),
            d.v1,
        ),
        make_data_spec(
            d.v1,
            crate::terrain::apply_height_spec(d.v1.midpoint_spec(d.v2)),
            d.v2,
        ),
        make_data_spec(
            d.v2,
            crate::terrain::apply_height_spec(d.v0.midpoint_spec(d.v2)),
            d.v0,
        ),
    )
}

/// Whether a candidate skirt triangle is kept: only when its height-adjusted
/// midpoint (the middle vertex) hangs strictly below the straight edge, so
/// the skirt fills a visible hole and never adds overlapping geometry.
pub open spec fn skirt_keep(d: TriangleData) -> bool {
    2 * d.v1.y < d.v0.y + d.v2.y
}

/// The kept skirt triangles of one patch, in edge order.
pub open spec fn low_skirts(t: Triangle) -> Seq<TriangleData> {
    (if skirt_keep(t.skirt_data.0) { seq![t.skirt_data.0] } else { Seq::empty() })
    + (if skirt_keep(t.skirt_data.1) { seq![t.skirt_data.1] } else { Seq::empty() })
    + (if skirt_keep(t.skirt_data.2) { seq![t.skirt_data.2] } else { Seq::empty() })
}

/// What one child adds to its parent's skirt aggregate. A leaf child emits
/// its kept skirts only when it faces a more subdivided neighbour: its level
/// is below the subtree's deepest leaf level, or equals the shallowest.
/// A split child passes its own aggregate through.
pub open spec fn skirt_contribution(c: Triangle, maxl: int, minl: int) -> Seq<TriangleData>
    decreases c, 1int,
{
    if c.children is None {
        if c.level < maxl || c.level == minl {
            low_skirts(c)
        } else {
            Seq::empty()
        }
    } else {
        skirt_seq(c)
    }
}

/// The skirt aggregate of a split patch: each child's contribution, judged
/// against this subtree's own leaf-level extremes.
pub open spec fn skirt_seq(t: Triangle) -> Seq<TriangleData>
    decreases t, 0int,
{
    match t.children {
        None => Seq::empty(),
        Some(ch) => skirt_contribution(ch.c1, max_leaf(t), min_leaf(t))
            + skirt_contribution(ch.c2, max_leaf(t), min_leaf(t))
            + skirt_contribution(ch.c3, max_leaf(t), min_leaf(t))
            + skirt_contribution(ch.c4, max_leaf(t), min_leaf(t)),
    }
}

/// The aggregation caches of this node describe its current subtree.
pub open spec fn aggregates_ok(t: Triangle) -> bool {
    &&& t.all_data@ == leaf_datas(t)
    &&& t.max_leaf_level == max_leaf(t)
    &&& t.min_leaf_level == min_leaf(t)
    &&& t.all_skirt_data@ == if t.children is Some { skirt_seq(t) } else { Seq::<TriangleData>::empty() }
}

/// Every visited node at or below the base level carries correct caches.
pub open spec fn synced(t: Triangle) -> bool
    decreases t,
{
    &&& (t.was_updated && t.level >= BASE_SPLIT_LEVEL ==> aggregates_ok(t))
    &&& match t.children {
        None => true,
        Some(ch) => synced(ch.c1) && synced(ch.c2) && synced(ch.c3) && synced(ch.c4),
    }
}

/// No node of the tree would change its split state if the pass ran again
/// with the same probes and settings.
pub open spec fn stable(t: Triangle, probes: Seq<Vec3i>, s: TerrainSettings) -> bool
    decreases t,
{
    &&& match t.children {
        None => !should_split_spec(t, probes, s),
        Some(ch) => {
            &&& !should_merge_spec(t, probes, s)
            &&& stable(ch.c1, probes, s)
            &&& stable(ch.c2, probes, s)
            &&& stable(ch.c3, probes, s)
            &&& stable(ch.c4, probes, s)
        },
    }
}

/// Every node of the tree has been through an update pass.
pub open spec fn all_was_updated(t: Triangle) -> bool
    decreases t,
{
    &&& t.was_updated
    &&& match t.children {
        None => true,
        Some(ch) => all_was_updated(ch.c1) && all_was_updated(ch.c2) && all_was_updated(ch.c3)
            && all_was_updated(ch.c4),
    }
}

/// The two trees have the same split structure and per-node geometry; only
/// caches and bookkeeping may differ.
pub open spec fn same_shape(a: Triangle, b: Triangle) -> bool
    decreases a,
{
    &&& is_split_spec(a) == is_split_spec(b)
    &&& a.data == b.data
    &&& a.level == b.level
    &&& a.skirt_data == b.skirt_data
    &&& match (a.children, b.children) {
        (Some(ca), Some(cb)) => same_shape(ca.c1, cb.c1) && same_shape(ca.c2, cb.c2)
            && same_shape(ca.c3, cb.c3) && same_shape(ca.c4, cb.c4),
        _ => true,
    }
}

/// Trees of the same shape agree on every aggregate the caches describe.
pub proof fn lemma_same_shape_aggregates(a: Triangle, b: Triangle)
    requires
        same_shape(a, b),
    ensures
        leaf_datas(a) == leaf_datas(b),
        max_leaf(a) == max_leaf(b),
        min_leaf(a) == min_leaf(b),
        a.children is Some ==> skirt_seq(a) == skirt_seq(b),
    decreases a, 0int,
{
    match (a.children, b.children) {
        (Some(ca), Some(cb)) => {
            lemma_same_shape_aggregates(ca.c1, cb.c1);
            lemma_same_shape_aggregates(ca.c2, cb.c2);
            lemma_same_shape_aggregates(ca.c3, cb.c3);
            lemma_same_shape_aggregates(ca.c4, cb.c4);
            assert(max_leaf(a) == max_leaf(b));
            assert(min_leaf(a) == min_leaf(b));
            lemma_same_shape_contribution(ca.c1, cb.c1, max_leaf(a), min_leaf(a));
            lemma_same_shape_contribution(ca.c2, cb.c2, max_leaf(a), min_leaf(a));
            lemma_same_shape_contribution(ca.c3, cb.c3, max_leaf(a), min_leaf(a));
            lemma_same_shape_contribution(ca.c4, cb.c4, max_leaf(a), min_leaf(a));
        },
        _ => {},
    }
}

/// Children of the same shape contribute the same skirts under the same
/// leaf-level extremes.
proof fn lemma_same_shape_contribution(a: Triangle, b: Triangle, maxl: int, minl: int)
    requires
        same_shape(a, b),
    ensures
        skirt_contribution(a, maxl, minl) == skirt_contribution(b, maxl, minl),
    decreases a, 1int,
{
    lemma_same_shape_aggregates(a, b);
    if a.children is None {
        assert(low_skirts(a) == low_skirts(b));
    }
}

/// A split node is strictly taller than each of its children.
pub proof fn lemma_height_child(t: Triangle)
    requires
        t.children is Some,
    ensures
        height_of(t.children->0.c1) < height_of(t),
        height_of(t.children->0.c2) < height_of(t),
        height_of(t.children->0.c3) < height_of(t),
        height_of(t.children->0.c4) < height_of(t),
{
}

/// The split and merge decisions read only a node's level and geometry.
pub proof fn lemma_decisions_depend_on(
    t1: Triangle, t2: Triangle, probes: Seq<Vec3i>, s: TerrainSettings)
    requires
        t1.level == t2.level,
        t1.data == t2.data,
    ensures
        should_split_spec(t1, probes, s) == should_split_spec(t2, probes, s),
        should_merge_spec(t1, probes, s) == should_merge_spec(t2, probes, s),
{
}

/// Under valid settings the split band sits at or below the merge band, so
/// one pass never splits a patch it would at once merge, or the reverse.
pub proof fn lemma_bands_ordered(dsq: int, min_edge_sq: int, s: TerrainSettings)
    by (nonlinear_arith)
    requires
        s.valid(),
        0 <= dsq,
        0 <= min_edge_sq,
    ensures
        metric_below(dsq, min_edge_sq, lo_num(s)) ==> !metric_above(dsq, min_edge_sq, hi_num(s)),
        metric_above(dsq, min_edge_sq, hi_num(s)) ==> !metric_below(dsq, min_edge_sq, lo_num(s)),
{
}

/// A patch that one pass leaves split is not a patch the next pass would
/// merge, and one left a leaf is not one the next pass would split
/// (its own level and geometry unchanged).
proof fn lemma_post_decision_stable(t: Triangle, probes: Seq<Vec3i>, s: TerrainSettings)
    requires
        s.valid(),
        t.data.bounded(),
        probes_bounded(probes),
    ensures
        should_split_spec(t, probes, s) ==> !should_merge_spec(t, probes, s),
        should_merge_spec(t, probes, s) ==> !should_split_spec(t, probes, s),
{
    let dsq = min_probe_dist_sq(probes, t.data.center, 0);
    lemma_min_probe_nonneg(probes, t.data.center, 0);
    lemma_bands_ordered(dsq, t.data.min_edge_sq as int, s);
}

/// The nearest-probe squared distance is within the sentinel bound.
pub proof fn lemma_min_probe_nonneg(probes: Seq<Vec3i>, center: Vec3i, i: int)
    requires
        probes_bounded(probes),
        center.in_bounds(),
    ensures
        0 <= min_probe_dist_sq(probes, center, i) <= NO_PROBE_DISTANCE_SQ,
    decreases probes.len() - i,
{
    if 0 <= i < probes.len() {
        lemma_min_probe_nonneg(probes, center, i + 1);
        crate::math::lemma_coord_square_bound((probes[i].x - center.x) as int);
        crate::math::lemma_coord_square_bound((probes[i].y - center.y) as int);
        crate::math::lemma_coord_square_bound((probes[i].z - center.z) as int);
    }
}

impl Triangle {
    /// Builds a fresh leaf patch over three plane corners: heights applied,
    /// derived geometry cached, the three candidate skirts built from each
    /// edge and its height-adjusted midpoint.
    pub fn new(p0: Vec3i, p1: Vec3i, p2: Vec3i, level: u8, id: u8, parent_coord: &Vec<u8>) -> (t: Triangle)
        requires
            p0.in_bounds(),
            p1.in_bounds(),
            p2.in_bounds(),
        ensures
            t.data == data_of_corners(p0, p1, p2),
            t.data.v0 == crate::terrain::apply_height_spec(p0),
            t.data.v1 == crate::terrain::apply_height_spec(p1),
            t.data.v2 == crate::terrain::apply_height_spec(p2),
            height_consistent(t.data),
            t.skirt_data == skirts_of(t.data),
            t.level == level,
            t.id == id,
            t.children is None,
            t.max_leaf_level == level,
            t.min_leaf_level == level,
            t.coord@ == parent_coord@.push(id),
            t.all_data@ == seq![t.data],
            t.all_skirt_data@ == Seq::<TriangleData>::empty(),
            t.was_updated == false,
            wf(t),
            synced(t),
            height_of(t) == 1,
    {
        let a = apply_height(&p0);
        let b = apply_height(&p1);
        let c = apply_height(&p2);
        proof {
            lemma_apply_height_idempotent(p0);
            lemma_apply_height_idempotent(p1);
            lemma_apply_height_idempotent(p2);
        }
        let data = TriangleData::new(a, b, c);

        let mut coord = clone_coord(parent_coord);
        coord.push(id);

        let m01 = a.midpoint(b);
        let m12 = b.midpoint(c);
        let m02 = a.midpoint(c);
        let s0 = TriangleData::new(a, apply_height(&m01), b);
        let s1 = TriangleData::new(b, apply_height(&m12), c);
        let s2 = TriangleData::new(c, apply_height(&m02), a);

        let mut all_data: Vec<TriangleData> = Vec::new();
        all_data.push(data);
        proof {
            assert(all_data@ =~= seq![data]);
        }

        Triangle {
            data,
            all_data,
            skirt_data: (s0, s1, s2),
            all_skirt_data: Vec::new(),
            level,
            id,
            children: None,
            max_leaf_level: level,
            min_leaf_level: level,
            coord,
            was_updated: false,
        }
    }

    /// Subdivides a leaf into four children: the inner midpoint triangle and
    /// the three corner triangles.
    #[verifier::rlimit(60)]
    fn split(&mut self)
        requires
            wf(*old(self)),
            !is_split_spec(*old(self)),
            old(self).level < 255,
        ensures
            wf(*final(self)),
            is_split_spec(*final(self)),
            final(self).data == old(self).data,
            final(self).level == old(self).level,
            final(self).id == old(self).id,
            final(self).coord@ == old(self).coord@,
            final(self).skirt_data == old(self).skirt_data,
            final(self).all_data@ == old(self).all_data@,
            final(self).all_skirt_data@ == old(self).all_skirt_data@,
            final(self).was_updated == old(self).was_updated,
            final(self).min_leaf_level == old(self).min_leaf_level,
            final(self).max_leaf_level == old(self).level + 1,
            ({
                let ch = final(self).children->0;
                &&& !is_split_spec(ch.c1) && !is_split_spec(ch.c2) && !is_split_spec(ch.c3)
                    && !is_split_spec(ch.c4)
                &&& !ch.c1.was_updated && !ch.c2.was_updated && !ch.c3.was_updated
                    && !ch.c4.was_updated
                &&& synced(ch.c1) && synced(ch.c2) && synced(ch.c3) && synced(ch.c4)
                &&& height_of(ch.c1) == 1 && height_of(ch.c2) == 1 && height_of(ch.c3) == 1
                    && height_of(ch.c4) == 1
            }),
            ({
                let d = old(self).data;
                let m01 = d.v0.midpoint_spec(d.v1);
                let m12 = d.v1.midpoint_spec(d.v2);
                let m02 = d.v0.midpoint_spec(d.v2);
                let ch = final(self).children->0;
                &&& ch.c1.id == 1 && ch.c2.id == 2 && ch.c3.id == 3 && ch.c4.id == 4
                &&& ch.c1.data == data_of_corners(m01, m12, m02)
                &&& ch.c2.data == data_of_corners(d.v0, m01, m02)
                &&& ch.c3.data == data_of_corners(m01, d.v1, m12)
                &&& ch.c4.data == data_of_corners(m02, m12, d.v2)
                &&& ch.c1.skirt_data == skirts_of(ch.c1.data)
                &&& ch.c2.skirt_data == skirts_of(ch.c2.data)
                &&& ch.c3.skirt_data == skirts_of(ch.c3.data)
                &&& ch.c4.skirt_data == skirts_of(ch.c4.data)
                &&& height_consistent(ch.c1.data) && height_consistent(ch.c2.data)
                &&& height_consistent(ch.c3.data) && height_consistent(ch.c4.data)
                &&& ch.c1.data.v0 == crate::terrain::apply_height_spec(m01)
                &&& ch.c1.data.v1 == crate::terrain::apply_height_spec(m12)
                &&& ch.c1.data.v2 == crate::terrain::apply_height_spec(m02)
                &&& ch.c2.data.v0 == crate::terrain::apply_height_spec(d.v0)
                &&& ch.c2.data.v1 == crate::terrain::apply_height_spec(m01)
                &&& ch.c2.data.v2 == crate::terrain::apply_height_spec(m02)
                &&& ch.c3.data.v0 == crate::terrain::apply_height_spec(m01)
                &&& ch.c3.data.v1 == crate::terrain::apply_height_spec(d.v1)
                &&& ch.c3.data.v2 == crate::terrain::apply_height_spec(m12)
                &&& ch.c4.data.v0 == crate::terrain::apply_height_spec(m02)
                &&& ch.c4.data.v1 == crate::terrain::apply_height_spec(m12)
                &&& ch.c4.data.v2 == crate::terrain::apply_height_spec(d.v2)
            }),
            height_of(*final(self)) == 2,
    {
        let a = self.data.v0;
        let b = self.data.v1;
        let c = self.data.v2;
        let m01 = a.midpoint(b);
        let m12 = b.midpoint(c);
        let m02 = a.midpoint(c);
        let lvl = self.level + 1;
        let c1 = Triangle::new(m01, m12, m02, lvl, 1, &self.coord);
        let c2 = Triangle::new(a, m01, m02, lvl, 2, &self.coord);
        let c3 = Triangle::new(m01, b, m12, lvl, 3, &self.coord);
        let c4 = Triangle::new(m02, m12, c, lvl, 4, &self.coord);
        self.children = Some(Box::new(TriangleChildren { c1, c2, c3, c4 }));
        self.max_leaf_level = lvl;
    }

    /// Collapses a split patch back into a leaf.
    fn merge(&mut self)
        requires
            wf(*old(self)),
            is_split_spec(*old(self)),
        ensures
            wf(*final(self)),
            !is_split_spec(*final(self)),
            final(self).data == old(self).data,
            final(self).level == old(self).level,
            final(self).id == old(self).id,
            final(self).coord@ == old(self).coord@,
            final(self).skirt_data == old(self).skirt_data,
            final(self).all_data@ == old(self).all_data@,
            final(self).all_skirt_data@ == old(self).all_skirt_data@,
            final(self).was_updated == old(self).was_updated,
            final(self).min_leaf_level == old(self).min_leaf_level,
            final(self).max_leaf_level == old(self).level,
            height_of(*final(self)) == 1,
    {
        self.children = None;
        self.max_leaf_level = self.level;
    }
}

/// Clones a coordinate path.
fn clone_coord(v: &Vec<u8>) -> (r: Vec<u8>)
    ensures
        r@ == v@,
{
    let mut r: Vec<u8> = Vec::new();
    let mut i: usize = 0;
    while i < v.len()
        invariant
            i <= v.len(),
            r@ == v@.take(i as int),
        decreases v.len() - i,
    {
        r.push(v[i]);
        i = i + 1;
    }
    proof {
        assert(r@ =~= v@);
    }
    r
}



/// Appends one child's leaf geometry and skirt contribution to the
/// aggregates being rebuilt, judging leaf skirts against the subtree's
/// leaf-level extremes.
fn pull_child(
    ad: &mut Vec<TriangleData>,
    asd: &mut Vec<TriangleData>,
    c: &Triangle,
    maxl: u8,
    minl: u8,
)
    requires
        wf(*c),
        c.all_data@ == leaf_datas(*c),
        is_split_spec(*c) ==> c.all_skirt_data@ == skirt_seq(*c),
    ensures
        final(ad)@ == old(ad)@ + leaf_datas(*c),
        final(asd)@ == old(asd)@ + skirt_contribution(*c, maxl as int, minl as int),
{
    let mut i: usize = 0;
    while i < c.all_data.len()
        invariant
            i <= c.all_data.len(),
            ad@ == old(ad)@ + c.all_data@.take(i as int),
        decreases c.all_data.len() - i,
    {
        let d = c.all_data[i];
        ad.push(d);
        proof {
            assert(old(ad)@ + c.all_data@.take(i as int) + seq![c.all_data@[i as int]]
                =~= old(ad)@ + c.all_data@.take(i as int + 1));
        }
        i = i + 1;
    }
    proof {
        assert(c.all_data@.take(c.all_data@.len() as int) =~= c.all_data@);
    }
    if !c.is_split() {
        if c.level < maxl || c.level == minl {
            let ghost asd0 = asd@;
            let s0 = c.skirt_data.0;
            let s1 = c.skirt_data.1;
            let s2 = c.skirt_data.2;
            if 2 * s0.v1.y < s0.v0.y + s0.v2.y {
                asd.push(s0);
            }
            if 2 * s1.v1.y < s1.v0.y + s1.v2.y {
                asd.push(s1);
            }
            if 2 * s2.v1.y < s2.v0.y + s2.v2.y {
                asd.push(s2);
            }
            proof {
                assert(asd@ =~= asd0 + low_skirts(*c));
            }
        }
    } else {
        let mut j: usize = 0;
        while j < c.all_skirt_data.len()
            invariant
                j <= c.all_skirt_data.len(),
                asd@ == old(asd)@ + leaf_datas(*c).map_values(|x: TriangleData| x).take(0)
                    + c.all_skirt_data@.take(j as int),
            decreases c.all_skirt_data.len() - j,
        {
            let d = c.all_skirt_data[j];
            asd.push(d);
            proof {
                assert(old(asd)@ + leaf_datas(*c).map_values(|x: TriangleData| x).take(0)
                    + c.all_skirt_data@.take(j as int) + seq![c.all_skirt_data@[j as int]]
                    =~= old(asd)@ + leaf_datas(*c).map_values(|x: TriangleData| x).take(0)
                        + c.all_skirt_data@.take(j as int + 1));
            }
            j = j + 1;
        }
        proof {
            assert(asd@ =~= old(asd)@ + c.all_skirt_data@);
        }
    }
}

impl Triangle {
    /// Recomputes this node's aggregation caches from its (already updated)
    /// children, or from itself when it is a leaf. The tree structure is
    /// untouched.
    #[verifier::rlimit(100)]
    fn rebuild(&mut self)
        requires
            wf(*old(self)),
            match old(self).children {
                None => true,
                Some(ch) => {
                    &&& ch.c1.all_data@ == leaf_datas(ch.c1)
                    &&& ch.c2.all_data@ == leaf_datas(ch.c2)
                    &&& ch.c3.all_data@ == leaf_datas(ch.c3)
                    &&& ch.c4.all_data@ == leaf_datas(ch.c4)
                    &&& ch.c1.max_leaf_level == max_leaf(ch.c1)
                    &&& ch.c2.max_leaf_level == max_leaf(ch.c2)
                    &&& ch.c3.max_leaf_level == max_leaf(ch.c3)
                    &&& ch.c4.max_leaf_level == max_leaf(ch.c4)
                    &&& ch.c1.min_leaf_level == min_leaf(ch.c1)
                    &&& ch.c2.min_leaf_level == min_leaf(ch.c2)
                    &&& ch.c3.min_leaf_level == min_leaf(ch.c3)
                    &&& ch.c4.min_leaf_level == min_leaf(ch.c4)
                    &&& (is_split_spec(ch.c1) ==> ch.c1.all_skirt_data@ == skirt_seq(ch.c1))
                    &&& (is_split_spec(ch.c2) ==> ch.c2.all_skirt_data@ == skirt_seq(ch.c2))
                    &&& (is_split_spec(ch.c3) ==> ch.c3.all_skirt_data@ == skirt_seq(ch.c3))
                    &&& (is_split_spec(ch.c4) ==> ch.c4.all_skirt_data@ == skirt_seq(ch.c4))
                },
            },
        ensures
            aggregates_ok(*final(self)),
            final(self).data == old(self).data,
            final(self).level == old(self).level,
            final(self).id == old(self).id,
            final(self).coord@ == old(self).coord@,
            final(self).skirt_data == old(self).skirt_data,
            final(self).children == old(self).children,
            final(self).was_updated == old(self).was_updated,
            wf(*final(self)),
    {
        self.all_data = Vec::new();
        self.all_skirt_data = Vec::new();
        let is_split = self.children.is_some();
        if is_split {
            let ghost t0 = *self;
            match &self.children {
                Some(ch) => {
                    let m12 = if ch.c1.max_leaf_level > ch.c2.max_leaf_level {
                        ch.c1.max_leaf_level
                    } else {
                        ch.c2.max_leaf_level
                    };
                    let m34 = if ch.c3.max_leaf_level > ch.c4.max_leaf_level {
                        ch.c3.max_leaf_level
                    } else {
                        ch.c4.max_leaf_level
                    };
                    let maxl = if m12 > m34 { m12 } else { m34 };
                    let n12 = if ch.c1.min_leaf_level < ch.c2.min_leaf_level {
                        ch.c1.min_leaf_level
                    } else {
                        ch.c2.min_leaf_level
                    };
                    let n34 = if ch.c3.min_leaf_level < ch.c4.min_leaf_level {
                        ch.c3.min_leaf_level
                    } else {
                        ch.c4.min_leaf_level
                    };
                    let minl = if n12 < n34 { n12 } else { n34 };
                    self.max_leaf_level = maxl;
                    self.min_leaf_level = minl;
                    pull_child(&mut self.all_data, &mut self.all_skirt_data, &ch.c1, maxl, minl);
                    pull_child(&mut self.all_data, &mut self.all_skirt_data, &ch.c2, maxl, minl);
                    pull_child(&mut self.all_data, &mut self.all_skirt_data, &ch.c3, maxl, minl);
                    pull_child(&mut self.all_data, &mut self.all_skirt_data, &ch.c4, maxl, minl);
                    proof {
                        assert(self.all_data@ =~= leaf_datas(*self));
                        assert(self.all_skirt_data@ =~= skirt_seq(*self));
                    }
                },
                None => {},
            }
        } else {
            self.all_data.push(self.data);
            self.max_leaf_level = self.level;
            self.min_leaf_level = self.level;
            proof {
                assert(self.all_data@ =~= leaf_datas(*self));
            }
        }
    }

    /// One split/merge pass over this subtree: decide this node, recurse
    /// into the children, then rebuild the aggregation caches of every node
    /// that changed or had never been visited.
    #[verifier::rlimit(100)]
    #[verifier::spinoff_prover]
    fn do_update_split(&mut self, probes: &Vec<Vec3i>, s: &TerrainSettings) -> (dirty: bool)
        requires
            wf(*old(self)),
            synced(*old(self)),
            probes_bounded(probes@),
            s.valid(),
        ensures
            wf(*final(self)),
            synced(*final(self)),
            all_was_updated(*final(self)),
            stable(*final(self), probes@, *s),
            final(self).data == old(self).data,
            final(self).level == old(self).level,
            final(self).id == old(self).id,
            final(self).coord@ == old(self).coord@,
            final(self).skirt_data == old(self).skirt_data,
            is_split_spec(*final(self)) == next_split_state(*old(self), probes@, *s),
            stable(*old(self), probes@, *s) && all_was_updated(*old(self))
                ==> !dirty && *final(self) == *old(self),
            !dirty ==> same_shape(*old(self), *final(self)),
            dirty ==> !same_shape(*old(self), *final(self)),
            final(self).was_updated,
        decreases height_of(*old(self)), 256 - old(self).level,
    {
        let ghost t0 = *self;
        let mut dirty = false;
        let mut own_changed = false;
        if !self.is_split() && self.should_split(probes, s) {
            proof {
                assert(self.level < 255);
            }
            self.split();
            dirty = true;
            own_changed = true;
        }
        if self.is_split() && self.should_merge(probes, s) {
            proof {
                lemma_decisions_depend_on(t0, *self, probes@, *s);
            }
            self.merge();
            dirty = true;
            own_changed = true;
        }
        proof {
            lemma_decisions_depend_on(t0, *self, probes@, *s);
            lemma_post_decision_stable(t0, probes@, *s);
            if own_changed {
                assert(is_split_spec(*self) != is_split_spec(t0));
            } else {
                assert(*self == t0);
            }
        }
        let ghost t1 = *self;
        let mut d1 = false;
        let mut d2 = false;
        let mut d3 = false;
        let mut d4 = false;
        if self.is_split() {
            match &mut self.children {
                Some(ch) => {
                    proof {
                        if t0.children is Some {
                            lemma_height_child(t0);
                        }
                    }
                    d1 = ch.c1.do_update_split(probes, s);
                    d2 = ch.c2.do_update_split(probes, s);
                    d3 = ch.c3.do_update_split(probes, s);
                    d4 = ch.c4.do_update_split(probes, s);
                    dirty = d1 || d2 || d3 || d4 || dirty;
                },
                None => {},
            }
        }
        if (!self.was_updated || dirty) && self.level >= BASE_SPLIT_LEVEL {
            self.rebuild();
        } else {
            proof {
                if self.was_updated && self.level >= BASE_SPLIT_LEVEL {
                    assert(aggregates_ok(t0));
                    if self.children is Some {
                        let ch0 = t0.children->0;
                        let ch = self.children->0;
                        lemma_same_shape_aggregates(ch0.c1, ch.c1);
                        lemma_same_shape_aggregates(ch0.c2, ch.c2);
                        lemma_same_shape_aggregates(ch0.c3, ch.c3);
                        lemma_same_shape_aggregates(ch0.c4, ch.c4);
                        lemma_same_shape_contribution(ch0.c1, ch.c1, max_leaf(t0), min_leaf(t0));
                        lemma_same_shape_contribution(ch0.c2, ch.c2, max_leaf(t0), min_leaf(t0));
                        lemma_same_shape_contribution(ch0.c3, ch.c3, max_leaf(t0), min_leaf(t0));
                        lemma_same_shape_contribution(ch0.c4, ch.c4, max_leaf(t0), min_leaf(t0));
                    }
                    assert(aggregates_ok(*self));
                }
            }
        }
        self.was_updated = true;
        proof {
            if stable(t0, probes@, *s) && all_was_updated(t0) {
                assert(*self =~= t0);
            }
            if dirty {
                if own_changed {
                    assert(is_split_spec(*self) != is_split_spec(t0));
                    assert(!same_shape(t0, *self));
                } else {
                    assert(t1 == t0);
                    let ch0 = t0.children->0;
                    let ch = self.children->0;
                    if d1 {
                        assert(!same_shape(ch0.c1, ch.c1));
                    } else if d2 {
                        assert(!same_shape(ch0.c2, ch.c2));
                    } else if d3 {
                        assert(!same_shape(ch0.c3, ch.c3));
                    } else {
                        assert(d4);
                        assert(!same_shape(ch0.c4, ch.c4));
                    }
                    assert(!same_shape(t0, *self));
                }
            }
        }
        dirty
    }

    /// Runs one split/merge pass for the given probe positions and reports
    /// whether the subtree changed, so the caller knows to regenerate
    /// meshes and colliders: the result is true exactly when some patch of
    /// the subtree split or merged during the pass. A repeated call with
    /// the same probes and settings changes nothing and reports no work.
    pub fn update_split(&mut self, probes: &Vec<Vec3i>, s: &TerrainSettings) -> (dirty: bool)
        requires
            wf(*old(self)),
            synced(*old(self)),
            probes_bounded(probes@),
            s.valid(),
        ensures
            wf(*final(self)),
            synced(*final(self)),
            all_was_updated(*final(self)),
            stable(*final(self), probes@, *s),
            final(self).data == old(self).data,
            final(self).level == old(self).level,
            final(self).coord@ == old(self).coord@,
            is_split_spec(*final(self)) == next_split_state(*old(self), probes@, *s),
            stable(*old(self), probes@, *s) && all_was_updated(*old(self))
                ==> !dirty && *final(self) == *old(self),
            !dirty ==> same_shape(*old(self), *final(self)),
            dirty ==> !same_shape(*old(self), *final(self)),
            old(self).level >= BASE_SPLIT_LEVEL ==> aggregates_ok(*final(self)),
    {
        let dirty = self.do_update_split(probes, s);
        dirty
    }
}



/// Triangle-list buffers for one base patch: three unwelded vertices per
/// triangle with matching normals, texture anchors and running indices,
/// plus the index triplets a triangle-mesh collider consumes.
pub struct MeshBuffers {
    pub positions: Vec<Vec3i>,
    pub normals: Vec<Vec3i>,
    pub uvs: Vec<(i64, i64)>,
    pub indices: Vec<u32>,
    pub index_triplets: Vec<(u32, u32, u32)>,
}

/// The buffers list exactly the given triangles, in order, three vertices
/// each, with indices counting up from zero.
pub open spec fn buffers_match(m: MeshBuffers, tris: Seq<TriangleData>) -> bool {
    &&& m.positions@.len() == 3 * tris.len()
    &&& m.normals@.len() == 3 * tris.len()
    &&& m.uvs@.len() == 3 * tris.len()
    &&& m.indices@.len() == 3 * tris.len()
    &&& m.index_triplets@.len() == tris.len()
    &&& forall|i: int| 0 <= i < tris.len() ==> {
        let d = #[trigger] tris[i];
        &&& m.positions@[3 * i] == d.v0
        &&& m.positions@[3 * i + 1] == d.v1
        &&& m.positions@[3 * i + 2] == d.v2
        &&& m.normals@[3 * i] == d.norm
        &&& m.normals@[3 * i + 1] == d.norm
        &&& m.normals@[3 * i + 2] == d.norm
        &&& m.uvs@[3 * i] == (d.uv_u, d.uv_v)
        &&& m.uvs@[3 * i + 1] == (d.uv_u, d.uv_v)
        &&& m.uvs@[3 * i + 2] == (d.uv_u, d.uv_v)
        &&& m.indices@[3 * i] == 3 * i
        &&& m.indices@[3 * i + 1] == 3 * i + 1
        &&& m.indices@[3 * i + 2] == 3 * i + 2
        &&& m.index_triplets@[i] == ((3 * i) as u32, (3 * i + 1) as u32, (3 * i + 2) as u32)
    }
}

impl Triangle {
    /// Flattens the aggregated leaf and skirt geometry of a base patch into
    /// fresh triangle-list buffers. This is the one producer of mesh and
    /// collider input: callers regenerate and swap, never edit in place.
    /// The settings are threaded through for parity with the update pass;
    /// the flattening itself does not consult them.
    pub fn generate_mesh(&self, _settings: &TerrainSettings) -> (m: MeshBuffers)
        requires
            self.level == BASE_SPLIT_LEVEL,
            self.all_data@.len() + self.all_skirt_data@.len() <= 100_000_000,
        ensures
            buffers_match(m, self.all_data@ + self.all_skirt_data@),
    {
        let ghost tris = self.all_data@ + self.all_skirt_data@;
        let mut m = MeshBuffers {
            positions: Vec::new(),
            normals: Vec::new(),
            uvs: Vec::new(),
            indices: Vec::new(),
            index_triplets: Vec::new(),
        };
        let n1 = self.all_data.len();
        let n2 = self.all_skirt_data.len();
        let mut i: usize = 0;
        while i < n1 + n2
            invariant
                n1 == self.all_data@.len(),
                n2 == self.all_skirt_data@.len(),
                n1 + n2 <= 100_000_000,
                i <= n1 + n2,
                tris == self.all_data@ + self.all_skirt_data@,
                m.positions@.len() == 3 * i,
                m.normals@.len() == 3 * i,
                m.uvs@.len() == 3 * i,
                m.indices@.len() == 3 * i,
                m.index_triplets@.len() == i,
                forall|k: int| 0 <= k < i ==> {
                    let d = #[trigger] tris[k];
                    &&& m.positions@[3 * k] == d.v0
                    &&& m.positions@[3 * k + 1] == d.v1
                    &&& m.positions@[3 * k + 2] == d.v2
                    &&& m.normals@[3 * k] == d.norm
                    &&& m.normals@[3 * k + 1] == d.norm
                    &&& m.normals@[3 * k + 2] == d.norm
                    &&& m.uvs@[3 * k] == (d.uv_u, d.uv_v)
                    &&& m.uvs@[3 * k + 1] == (d.uv_u, d.uv_v)
                    &&& m.uvs@[3 * k + 2] == (d.uv_u, d.uv_v)
                    &&& m.indices@[3 * k] == 3 * k
                    &&& m.indices@[3 * k + 1] == 3 * k + 1
                    &&& m.indices@[3 * k + 2] == 3 * k + 2
                    &&& m.index_triplets@[k] == ((3 * k) as u32, (3 * k + 1) as u32, (3 * k + 2) as u32)
                },
            decreases n1 + n2 - i,
        {
            let d = if i < n1 {
                self.all_data[i]
            } else {
                self.all_skirt_data[i - n1]
            };
            proof {
                assert(d == tris[i as int]);
            }
            let base: u32 = (3 * i) as u32;
            m.positions.push(d.v0);
            m.positions.push(d.v1);
            m.positions.push(d.v2);
            m.normals.push(d.norm);
            m.normals.push(d.norm);
            m.normals.push(d.norm);
            m.uvs.push((d.uv_u, d.uv_v));
            m.uvs.push((d.uv_u, d.uv_v));
            m.uvs.push((d.uv_u, d.uv_v));
            m.indices.push(base);
            m.indices.push(base + 1);
            m.indices.push(base + 2);
            m.index_triplets.push((base, base + 1, base + 2));
            i = i + 1;
        }
        m
    }

    /// An exact copy of a leaf patch.
    fn clone_leaf(&self) -> (r: Triangle)
        requires
            !is_split_spec(*self),
        ensures
            r.data == self.data,
            r.all_data@ == self.all_data@,
            r.skirt_data == self.skirt_data,
            r.all_skirt_data@ == self.all_skirt_data@,
            r.level == self.level,
            r.id == self.id,
            r.children is None,
            r.max_leaf_level == self.max_leaf_level,
            r.min_leaf_level == self.min_leaf_level,
            r.coord@ == self.coord@,
            r.was_updated == self.was_updated,
            wf(*self) ==> wf(r),
            synced(*self) ==> synced(r),
    {
        Triangle {
            data: self.data,
            all_data: copy_datas(&self.all_data),
            skirt_data: self.skirt_data,
            all_skirt_data: copy_datas(&self.all_skirt_data),
            level: self.level,
            id: self.id,
            children: None,
            max_leaf_level: self.max_leaf_level,
            min_leaf_level: self.min_leaf_level,
            coord: clone_coord(&self.coord),
            was_updated: self.was_updated,
        }
    }

    /// A fresh patch with the first two corners swapped, flipping the
    /// winding.
    pub fn reverse_points(&self) -> (r: Triangle)
        requires
            wf(*self),
        ensures
            r.data == data_of_corners(self.data.v1, self.data.v0, self.data.v2),
            height_consistent(r.data),
            r.level == self.level,
            r.id == self.id,
            r.coord@ == seq![self.id],
            r.children is None,
            r.was_updated == false,
            wf(r),
            synced(r),
    {
        let empty: Vec<u8> = Vec::new();
        Triangle::new(self.data.v1, self.data.v0, self.data.v2, self.level, self.id, &empty)
    }

    /// Force-splits this patch down to the base level and hands back a copy
    /// of every base-level patch, the real render and physics entities.
    pub fn base_tris(&mut self) -> (v: Vec<Triangle>)
        requires
            wf(*old(self)),
            !is_split_spec(*old(self)),
            !old(self).was_updated,
            height_consistent(old(self).data),
            old(self).level <= BASE_SPLIT_LEVEL,
        ensures
            v@.len() == pow4((BASE_SPLIT_LEVEL - old(self).level) as nat),
            forall|i: int| 0 <= i < v@.len() ==> {
                &&& wf(#[trigger] v@[i])
                &&& v@[i].level == BASE_SPLIT_LEVEL
                &&& v@[i].children is None
                &&& synced(v@[i])
                &&& v@[i].was_updated == false
                &&& height_consistent(v@[i].data)
            },
            v@.map_values(|t: Triangle| t.data) == base_datas(
                old(self).data.v0,
                old(self).data.v1,
                old(self).data.v2,
                (BASE_SPLIT_LEVEL - old(self).level) as nat,
            ),
            old(self).level == BASE_SPLIT_LEVEL ==> {
                &&& *final(self) == *old(self)
                &&& v@.len() == 1
                &&& v@[0].data == old(self).data
                &&& v@[0].skirt_data == old(self).skirt_data
                &&& v@[0].all_data@ == old(self).all_data@
                &&& v@[0].all_skirt_data@ == old(self).all_skirt_data@
                &&& v@[0].id == old(self).id
                &&& v@[0].coord@ == old(self).coord@
                &&& v@[0].max_leaf_level == old(self).max_leaf_level
                &&& v@[0].min_leaf_level == old(self).min_leaf_level
                &&& v@[0].was_updated == old(self).was_updated
            },
            wf(*final(self)),
            final(self).level == old(self).level,
        decreases BASE_SPLIT_LEVEL - old(self).level,
    {
        let ghost lv = (BASE_SPLIT_LEVEL - self.level) as nat;
        if self.level == BASE_SPLIT_LEVEL {
            let t = self.clone_leaf();
            let mut v: Vec<Triangle> = Vec::new();
            v.push(t);
            proof {
                assert(v@.map_values(|t2: Triangle| t2.data)
                    =~= seq![old(self).data]);
                assert(base_datas(old(self).data.v0, old(self).data.v1,
                    old(self).data.v2, 0)
                    == seq![old(self).data]);
            }
            return v;
        }
        self.split();
        let ghost d = old(self).data;
        let ghost m01 = d.v0.midpoint_spec(d.v1);
        let ghost m12 = d.v1.midpoint_spec(d.v2);
        let ghost m02 = d.v0.midpoint_spec(d.v2);
        let mut v: Vec<Triangle> = Vec::new();
        match &mut self.children {
            Some(ch) => {
                let mut v1 = ch.c1.base_tris();
                let mut v2 = ch.c2.base_tris();
                let mut v3 = ch.c3.base_tris();
                let mut v4 = ch.c4.base_tris();
                proof {
                    lemma_base_datas_heights(m01, m12, m02, (lv - 1) as nat);
                    lemma_base_datas_heights(d.v0, m01, m02, (lv - 1) as nat);
                    lemma_base_datas_heights(m01, d.v1, m12, (lv - 1) as nat);
                    lemma_base_datas_heights(m02, m12, d.v2, (lv - 1) as nat);
                    assert(v1@.map_values(|t2: Triangle| t2.data)
                        == base_datas(m01, m12, m02, (lv - 1) as nat));
                    assert(v2@.map_values(|t2: Triangle| t2.data)
                        == base_datas(d.v0, m01, m02, (lv - 1) as nat));
                    assert(v3@.map_values(|t2: Triangle| t2.data)
                        == base_datas(m01, d.v1, m12, (lv - 1) as nat));
                    assert(v4@.map_values(|t2: Triangle| t2.data)
                        == base_datas(m02, m12, d.v2, (lv - 1) as nat));
                }
                v.append(&mut v1);
                v.append(&mut v2);
                v.append(&mut v3);
                v.append(&mut v4);
            },
            None => {},
        }
        proof {
            assert(pow4((BASE_SPLIT_LEVEL - old(self).level) as nat)
                == 4 * pow4((BASE_SPLIT_LEVEL - old(self).level - 1) as nat));
            assert(base_datas(d.v0, d.v1, d.v2, lv)
                == base_datas(m01, m12, m02, (lv - 1) as nat)
                    + base_datas(d.v0, m01, m02, (lv - 1) as nat)
                    + base_datas(m01, d.v1, m12, (lv - 1) as nat)
                    + base_datas(m02, m12, d.v2, (lv - 1) as nat));
            assert(v@.map_values(|t2: Triangle| t2.data)
                =~= base_datas(d.v0, d.v1, d.v2, lv));
        }
        v
    }
}

/// The geometry of the base patches tiling a triangle after `lv` rounds of
/// midpoint subdivision, in child order (inner triangle first, then the
/// three corner triangles), each patch height-adjusted.
pub open spec fn base_datas(a: Vec3i, b: Vec3i, c: Vec3i, lv: nat) -> Seq<TriangleData>
    decreases lv,
{
    let aa = crate::terrain::apply_height_spec(a);
    let bb = crate::terrain::apply_height_spec(b);
    let cc = crate::terrain::apply_height_spec(c);
    if lv == 0 {
        seq![make_data_spec(aa, bb, cc)]
    } else {
        let m01 = aa.midpoint_spec(bb);
        let m12 = bb.midpoint_spec(cc);
        let m02 = aa.midpoint_spec(cc);
        base_datas(m01, m12, m02, (lv - 1) as nat)
            + base_datas(aa, m01, m02, (lv - 1) as nat)
            + base_datas(m01, bb, m12, (lv - 1) as nat)
            + base_datas(m02, m12, cc, (lv - 1) as nat)
    }
}

/// The tiling does not care whether its corners already carry heights:
/// they are height-adjusted on entry either way.
pub proof fn lemma_base_datas_heights(a: Vec3i, b: Vec3i, c: Vec3i, lv: nat)
    ensures
        base_datas(
            crate::terrain::apply_height_spec(a),
            crate::terrain::apply_height_spec(b),
            crate::terrain::apply_height_spec(c),
            lv,
        ) == base_datas(a, b, c, lv),
{
    lemma_apply_height_idempotent(a);
    lemma_apply_height_idempotent(b);
    lemma_apply_height_idempotent(c);
}

/// Powers of four, counting the base patches under a root.
pub open spec fn pow4(n: nat) -> nat
    decreases n,
{
    if n == 0 {
        1
    } else {
        4 * pow4((n - 1) as nat)
    }
}

/// Copies a vector of patch geometry.
fn copy_datas(v: &Vec<TriangleData>) -> (r: Vec<TriangleData>)
    ensures
        r@ == v@,
{
    let mut r: Vec<TriangleData> = Vec::new();
    let mut i: usize = 0;
    while i < v.len()
        invariant
            i <= v.len(),
            r@ == v@.take(i as int),
        decreases v.len() - i,
    {
        r.push(v[i]);
        i = i + 1;
    }
    proof {
        assert(r@ =~= v@);
    }
    r
}

impl Default for Triangle {
    /// A small standalone test patch, as a leaf at the tree root.
    fn default() -> (t: Triangle)
        ensures
            t.level == 0,
            t.children is None,
            wf(t),
            synced(t),
    {
        let empty: Vec<u8> = Vec::new();
        Triangle::new(
            Vec3i { x: 1000, y: 0, z: 0 },
            Vec3i { x: 0, y: -500, z: 0 },
            Vec3i { x: 0, y: 0, z: 1000 },
            0,
            0,
            &empty,
        )
    }
}

/// Hysteresis of the split/merge pass: while a patch's angular-size metric
/// stays strictly inside the lazy band, a pass neither splits nor merges
/// it, so probe jitter around the threshold cannot make it oscillate. The
/// level bounds are the one caveat: below the forced-split floors or above
/// the depth cap the pass splits or merges regardless of any probe, by the
/// depth invariants, so the band can only ever speak for levels between
/// them.
pub proof fn lemma_split_merge_hysteresis(
    t: Triangle, probes: Seq<Vec3i>, s: TerrainSettings)
    requires
        s.valid(),
        t.data.bounded(),
        probes_bounded(probes),
        t.metric_in_band(probes, s),
        s.MIN_SPLIT_LEVEL <= t.level <= s.MAX_SPLIT_LEVEL,
        BASE_SPLIT_LEVEL <= t.level,
    ensures
        !should_split_spec(t, probes, s),
        !should_merge_spec(t, probes, s),
        next_split_state(t, probes, s) == is_split_spec(t),
{
}

/// Every leaf of the subtree sits at or above the given level floor.
pub open spec fn leaf_levels_at_least(t: Triangle, floor: int) -> bool
    decreases t,
{
    match t.children {
        None => t.level >= floor,
        Some(ch) => leaf_levels_at_least(ch.c1, floor) && leaf_levels_at_least(ch.c2, floor)
            && leaf_levels_at_least(ch.c3, floor) && leaf_levels_at_least(ch.c4, floor),
    }
}

/// Every parent-child level step in the subtree is exactly one.
pub open spec fn levels_consistent(t: Triangle) -> bool
    decreases t,
{
    match t.children {
        None => true,
        Some(ch) => {
            &&& ch.c1.level == t.level + 1 && ch.c2.level == t.level + 1
            &&& ch.c3.level == t.level + 1 && ch.c4.level == t.level + 1
            &&& levels_consistent(ch.c1) && levels_consistent(ch.c2)
            &&& levels_consistent(ch.c3) && levels_consistent(ch.c4)
        },
    }
}

/// Depth invariants of a tree a pass has settled: each child is exactly one
/// level deeper than its parent, and no leaf sits below the base split
/// level or the forced minimum split level.
pub proof fn lemma_depth_invariants(t: Triangle, probes: Seq<Vec3i>, s: TerrainSettings)
    requires
        wf(t),
        stable(t, probes, s),
    ensures
        levels_consistent(t),
        leaf_levels_at_least(t, BASE_SPLIT_LEVEL as int),
        leaf_levels_at_least(t, s.MIN_SPLIT_LEVEL as int),
    decreases t,
{
    match t.children {
        Some(ch) => {
            lemma_depth_invariants(ch.c1, probes, s);
            lemma_depth_invariants(ch.c2, probes, s);
            lemma_depth_invariants(ch.c3, probes, s);
            lemma_depth_invariants(ch.c4, probes, s);
        },
        None => {},
    }
}

/// A subtree's flattened leaf geometry lists one entry per leaf.
pub proof fn lemma_leaf_datas_count(t: Triangle)
    ensures
        leaf_datas(t).len() == leaf_count(t),
    decreases t,
{
    match t.children {
        Some(ch) => {
            lemma_leaf_datas_count(ch.c1);
            lemma_leaf_datas_count(ch.c2);
            lemma_leaf_datas_count(ch.c3);
            lemma_leaf_datas_count(ch.c4);
        },
        None => {},
    }
}

/// Conservation of the triangle count: a patch whose caches are in sync
/// reports exactly the number of leaf patches of its subtree, so the counts
/// of the base-patch roots sum to the number of leaves of the whole forest.
pub proof fn lemma_tri_count_conservation(t: Triangle)
    requires
        aggregates_ok(t),
    ensures
        t.all_data@.len() == leaf_count(t),
{
    lemma_leaf_datas_count(t);
}


} // verus!
