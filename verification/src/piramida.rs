use vstd::prelude::*;
use crate::math::Vec3i;
use crate::terrain::BASE_SPLIT_LEVEL;
use crate::triangle::{
    Triangle, TriangleData, base_datas, data_of_corners, height_consistent, is_split_spec,
    lemma_apply_height_idempotent, pow4, synced, wf,
};

verus! {

/// The planet's root geometry: its top-level triangular faces, each the
/// root of a terrain quadtree. The flat variant carries one equilateral
/// face spanning the planet radius.
#[derive(Debug)]
pub struct Piramida {
    pub children: Vec<Triangle>,
}

impl Piramida {
    /// The single-face flat planet: an equilateral triangle of the planet's
    /// radius, wound for an upward-facing surface.
    pub fn new() -> (p: Piramida)
        ensures
            p.children@.len() == 1,
            wf(p.children@[0]),
            synced(p.children@[0]),
            !is_split_spec(p.children@[0]),
            !p.children@[0].was_updated,
            height_consistent(p.children@[0].data),
            p.children@[0].level == 0,
            p.children@[0].data == data_of_corners(
                Vec3i { x: -50_000_000i64, y: 0i64, z: -28_867_513i64 },
                Vec3i { x: 0i64, y: 0i64, z: 57_735_027i64 },
                Vec3i { x: 50_000_000i64, y: 0i64, z: -28_867_513i64 },
            ),
    {
        let v1 = Vec3i { x: 0, y: 0, z: 57_735_027 };
        let v2 = Vec3i { x: -50_000_000, y: 0, z: -28_867_513 };
        let v3 = Vec3i { x: 50_000_000, y: 0, z: -28_867_513 };
        let empty: Vec<u8> = Vec::new();
        let t = Triangle::new(v1, v2, v3, 0, 1, &empty);
        let rev = t.reverse_points();
        proof {
            lemma_apply_height_idempotent(v1);
            lemma_apply_height_idempotent(v2);
            lemma_apply_height_idempotent(v3);
            assert(rev.data == data_of_corners(v2, v1, v3));
        }
        let mut children: Vec<Triangle> = Vec::new();
        children.push(rev);
        Piramida { children }
    }

    fn face_mut(vec: &mut Vec<Triangle>, i: usize) -> (element: &mut Triangle)
        requires
            i < old(vec).len(),
        ensures
            *element == old(vec)@[i as int],
            final(vec)@ == old(vec)@.update(i as int, *final(element)),
    {
        &mut vec[i]
    }

    /// Force-splits every face down to the base level and collects the
    /// base patches of the whole planet: face by face, the exact
    /// height-adjusted midpoint tiling of that face's corners.
    pub fn base_tris(&mut self) -> (v: Vec<Triangle>)
        requires
            forall|i: int| 0 <= i < old(self).children@.len() ==> {
                &&& wf(#[trigger] old(self).children@[i])
                &&& !is_split_spec(old(self).children@[i])
                &&& !old(self).children@[i].was_updated
                &&& height_consistent(old(self).children@[i].data)
                &&& old(self).children@[i].level <= BASE_SPLIT_LEVEL
            },
        ensures
            forall|j: int| 0 <= j < v@.len() ==> {
                &&& wf(#[trigger] v@[j])
                &&& v@[j].level == BASE_SPLIT_LEVEL
                &&& v@[j].children is None
                &&& synced(v@[j])
                &&& !v@[j].was_updated
            },
            v@.map_values(|t: Triangle| t.data) == faces_base_datas(
                old(self).children@, old(self).children@.len() as int),
            old(self).children@.len() == 1 ==> v@.len() == pow4(
                (BASE_SPLIT_LEVEL - old(self).children@[0].level) as nat,
            ),
            old(self).children@.len() == 1 ==> v@.map_values(|t: Triangle| t.data)
                == base_datas(
                    old(self).children@[0].data.v0,
                    old(self).children@[0].data.v1,
                    old(self).children@[0].data.v2,
                    (BASE_SPLIT_LEVEL - old(self).children@[0].level) as nat,
                ),
    {
        let mut v: Vec<Triangle> = Vec::new();
        let n = self.children.len();
        let mut i: usize = 0;
        while i < n
            invariant
                i <= n,
                n == self.children@.len(),
                forall|k: int| i <= k < n ==> {
                    &&& wf(#[trigger] self.children@[k])
                    &&& !is_split_spec(self.children@[k])
                    &&& !self.children@[k].was_updated
                    &&& height_consistent(self.children@[k].data)
                    &&& self.children@[k].level <= BASE_SPLIT_LEVEL
                },
                forall|j: int| 0 <= j < v@.len() ==> {
                    &&& wf(#[trigger] v@[j])
                    &&& v@[j].level == BASE_SPLIT_LEVEL
                    &&& v@[j].children is None
                    &&& synced(v@[j])
                    &&& !v@[j].was_updated
                },
                n == 1 && i == 1 ==> v@.len() == pow4(
                    (BASE_SPLIT_LEVEL - old(self).children@[0].level) as nat,
                ),
                n == 1 && i == 0 ==> v@.len() == 0,
                old(self).children@.len() == n,
                v@.map_values(|t: Triangle| t.data) == faces_base_datas(
                    old(self).children@, i as int),
                forall|k: int| i <= k < n ==> #[trigger] self.children@[k]
                    == old(self).children@[k],
            decreases n - i,
        {
            let ghost v0 = v@;
            let face = Piramida::face_mut(&mut self.children, i);
            let mut bt = face.base_tris();
            proof {
                assert(bt@.map_values(|t: Triangle| t.data) == base_datas(
                    old(self).children@[i as int].data.v0,
                    old(self).children@[i as int].data.v1,
                    old(self).children@[i as int].data.v2,
                    (BASE_SPLIT_LEVEL - old(self).children@[i as int].level) as nat,
                ));
            }
            let ghost btg = bt@;
            v.append(&mut bt);
            proof {
                assert(v@.map_values(|t: Triangle| t.data)
                    =~= v0.map_values(|t: Triangle| t.data)
                        + btg.map_values(|t: Triangle| t.data));
                assert(v@.map_values(|t: Triangle| t.data) == faces_base_datas(
                    old(self).children@, i as int + 1));
            }
            i = i + 1;
        }
        proof {
            if old(self).children@.len() == 1 {
                assert(faces_base_datas(old(self).children@, 1)
                    =~= base_datas(
                        old(self).children@[0].data.v0,
                        old(self).children@[0].data.v1,
                        old(self).children@[0].data.v2,
                        (BASE_SPLIT_LEVEL - old(self).children@[0].level) as nat,
                    ));
            }
        }
        v
    }
}

/// The base-patch geometry of a prefix of the faces, concatenated in face
/// order: each face contributes its own height-adjusted midpoint tiling
/// down to the base split level.
pub open spec fn faces_base_datas(faces: Seq<Triangle>, i: int) -> Seq<TriangleData>
    decreases i,
{
    if i <= 0 {
        Seq::empty()
    } else {
        faces_base_datas(faces, i - 1) + base_datas(
            faces[i - 1].data.v0,
            faces[i - 1].data.v1,
            faces[i - 1].data.v2,
            (BASE_SPLIT_LEVEL - faces[i - 1].level) as nat,
        )
    }
}

} // verus!
