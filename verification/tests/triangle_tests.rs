use tank_terrain::math::Vec3i;
use tank_terrain::piramida::Piramida;
use tank_terrain::terrain::{TerrainSettings, BASE_SPLIT_LEVEL};
use tank_terrain::triangle::Triangle;

// One world unit is 1000 fixed-point steps.
const U: i64 = 1000;

fn base_patch() -> Triangle {
    // A roomy base-level patch: edges of roughly 2000 units, far above the
    // minimum edge size, below the 2:1 degeneracy bound.
    Triangle::new(
        Vec3i { x: 0, y: 0, z: 0 },
        Vec3i { x: 2000 * U, y: 0, z: 0 },
        Vec3i { x: 1000 * U, y: 0, z: 1700 * U },
        BASE_SPLIT_LEVEL,
        1,
        &Vec::new(),
    )
}

fn count_leaves(t: &Triangle) -> usize {
    match &t.children {
        None => 1,
        Some(ch) => {
            count_leaves(&ch.c1) + count_leaves(&ch.c2) + count_leaves(&ch.c3)
                + count_leaves(&ch.c4)
        },
    }
}

fn max_leaf_level(t: &Triangle) -> u8 {
    match &t.children {
        None => t.level,
        Some(ch) => {
            let mut m = max_leaf_level(&ch.c1);
            for v in [max_leaf_level(&ch.c2), max_leaf_level(&ch.c3), max_leaf_level(&ch.c4)] {
                if v > m {
                    m = v;
                }
            }
            m
        },
    }
}

fn min_leaf_level(t: &Triangle) -> u8 {
    match &t.children {
        None => t.level,
        Some(ch) => {
            let mut m = min_leaf_level(&ch.c1);
            for v in [min_leaf_level(&ch.c2), min_leaf_level(&ch.c3), min_leaf_level(&ch.c4)] {
                if v < m {
                    m = v;
                }
            }
            m
        },
    }
}

fn levels_step_by_one(t: &Triangle) -> bool {
    match &t.children {
        None => true,
        Some(ch) => {
            [&ch.c1, &ch.c2, &ch.c3, &ch.c4].into_iter().all(|c| {
                c.level == t.level + 1 && levels_step_by_one(c)
            })
        },
    }
}

#[test]
fn probe_at_centroid_splits_and_stays_split() {
    let mut tri = base_patch();
    let settings = TerrainSettings::default();
    let probes = vec![tri.data.center];

    let first = tri.update_split(&probes, &settings);
    assert!(first);
    assert!(tri.is_split());

    // An immediate second pass with the same probe must not merge back,
    // and reports no work at all.
    let second = tri.update_split(&probes, &settings);
    assert!(!second);
    assert!(tri.is_split());
}

#[test]
fn repeated_update_is_identity() {
    let mut tri = base_patch();
    let settings = TerrainSettings::default();
    let probes = vec![Vec3i { x: 500 * U, y: 0, z: 400 * U }];

    tri.update_split(&probes, &settings);
    let leaves = count_leaves(&tri);
    let tris = tri.tri_count();

    let changed = tri.update_split(&probes, &settings);
    assert!(!changed);
    assert_eq!(count_leaves(&tri), leaves);
    assert_eq!(tri.tri_count(), tris);
}

#[test]
fn tri_count_equals_leaf_count() {
    let mut tri = base_patch();
    let settings = TerrainSettings::default();

    let probes = vec![tri.data.center];
    tri.update_split(&probes, &settings);
    assert_eq!(tri.tri_count(), count_leaves(&tri));

    // Move the probe far away; some patches merge back, and the count
    // still matches the leaves.
    let far = vec![Vec3i { x: 90_000 * U, y: 0, z: 90_000 * U }];
    tri.update_split(&far, &settings);
    assert_eq!(tri.tri_count(), count_leaves(&tri));
}

#[test]
fn depth_invariants_hold_after_update() {
    let mut tri = base_patch();
    let settings = TerrainSettings::default();
    let probes = vec![tri.data.center];
    tri.update_split(&probes, &settings);

    assert!(levels_step_by_one(&tri));
    // Force-split floor: no leaf above the configured minimum level.
    assert!(min_leaf_level(&tri) >= settings.MIN_SPLIT_LEVEL);
    assert!(min_leaf_level(&tri) >= BASE_SPLIT_LEVEL);
    assert_eq!(tri.max_leaf_level, max_leaf_level(&tri));
    assert_eq!(tri.min_leaf_level, min_leaf_level(&tri));
}

#[test]
fn hysteresis_band_prevents_oscillation() {
    // A patch past the force-split floor whose metric sits inside the lazy
    // band: probe jitter within the band changes nothing.
    let mut tri = Triangle::new(
        Vec3i { x: 0, y: 0, z: 0 },
        Vec3i { x: 2000 * U, y: 0, z: 0 },
        Vec3i { x: 1000 * U, y: 0, z: 1700 * U },
        7,
        1,
        &Vec::new(),
    );
    let settings = TerrainSettings::default();

    // min edge is close to 1700 units; the band spans metric 1.44 to 2.16,
    // so distances of roughly 2500 to 3600 units sit inside it.
    let d1 = Vec3i { x: tri.data.center.x + 3000 * U, y: tri.data.center.y, z: tri.data.center.z };
    let d2 = Vec3i { x: tri.data.center.x + 3100 * U, y: tri.data.center.y, z: tri.data.center.z };

    assert!(!tri.is_split());
    tri.update_split(&vec![d1], &settings);
    assert!(!tri.is_split());
    tri.update_split(&vec![d2], &settings);
    assert!(!tri.is_split());
    tri.update_split(&vec![d1], &settings);
    assert!(!tri.is_split());
}

#[test]
fn no_probes_tend_toward_merging() {
    let mut tri = base_patch();
    let settings = TerrainSettings::default();
    let probes = vec![tri.data.center];
    tri.update_split(&probes, &settings);
    let dense = count_leaves(&tri);

    let none: Vec<Vec3i> = Vec::new();
    tri.update_split(&none, &settings);
    let sparse = count_leaves(&tri);
    assert!(sparse <= dense);
    // Only the force-split floor remains: nodes at the minimum split level
    // never merge, so the shallowest possible leaves sit one level below it.
    assert_eq!(max_leaf_level(&tri), settings.MIN_SPLIT_LEVEL + 1);
}

#[test]
fn mesh_buffers_flatten_all_triangles() {
    let mut tri = base_patch();
    let settings = TerrainSettings::default();
    let probes = vec![tri.data.center];
    tri.update_split(&probes, &settings);

    let m = tri.generate_mesh(&settings);
    let n = tri.all_data.len() + tri.all_skirt_data.len();
    assert_eq!(m.positions.len(), 3 * n);
    assert_eq!(m.normals.len(), 3 * n);
    assert_eq!(m.uvs.len(), 3 * n);
    assert_eq!(m.indices.len(), 3 * n);
    assert_eq!(m.index_triplets.len(), n);
    for (k, idx) in m.indices.iter().enumerate() {
        assert_eq!(*idx as usize, k);
    }
    assert_eq!(m.positions[0], tri.all_data[0].v0);
    assert_eq!(m.positions[1], tri.all_data[0].v1);
    assert_eq!(m.positions[2], tri.all_data[0].v2);
}

#[test]
fn skirts_only_hang_downward() {
    let mut tri = base_patch();
    let settings = TerrainSettings::default();
    let probes = vec![tri.data.center];
    tri.update_split(&probes, &settings);
    for s in &tri.all_skirt_data {
        // Kept skirts have their height-adjusted midpoint strictly below
        // the straight edge.
        assert!(2 * s.v1.y < s.v0.y + s.v2.y);
    }
}

#[test]
fn planet_root_yields_base_patches() {
    let mut planet = Piramida::new();
    let tris = planet.base_tris();
    assert_eq!(tris.len(), 256);
    for t in &tris {
        assert_eq!(t.level, BASE_SPLIT_LEVEL);
        assert!(t.children.is_none());
    }
}

#[test]
fn reverse_points_swaps_winding() {
    let tri = Triangle::default();
    let rev = tri.reverse_points();
    assert_eq!(rev.data.v0.x, tri.data.v1.x);
    assert_eq!(rev.data.v1.x, tri.data.v0.x);
    assert_eq!(rev.data.v2.x, tri.data.v2.x);
    assert_eq!(rev.level, tri.level);
}
