use tank_terrain::math::Vec3i;
use tank_terrain::terrain::{
    apply_height, height, TerrainSettings, BASE_SPLIT_LEVEL, HEIGHT_LIMIT,
};
use tank_terrain::utils::{cap_2pi, PI_URAD, TWO_PI_URAD};

#[test]
fn height_is_deterministic() {
    let p = Vec3i { x: 1_234_567, y: 0, z: -7_654_321 };
    let h1 = height(&p);
    let h2 = height(&p);
    assert_eq!(h1, h2);
    let q = Vec3i { x: 1_234_567, y: 999, z: -7_654_321 };
    // The vertical coordinate plays no role in the sampled height.
    assert_eq!(height(&q), h1);
    assert!(h1.abs() <= HEIGHT_LIMIT);
}

#[test]
fn height_varies_over_terrain() {
    let a = height(&Vec3i { x: 0, y: 0, z: 0 });
    let mut saw_difference = false;
    let mut x: i64 = 0;
    while x < 10_000_000 {
        if height(&Vec3i { x, y: 0, z: 0 }) != a {
            saw_difference = true;
            break;
        }
        x += 333_333;
    }
    assert!(saw_difference);
}

#[test]
fn apply_height_keeps_plane_position() {
    let p = Vec3i { x: -5_000_000, y: 42, z: 9_000_000 };
    let r = apply_height(&p);
    assert_eq!(r.x, p.x);
    assert_eq!(r.z, p.z);
    assert_eq!(r.y, height(&p));
}

#[test]
fn default_settings_match_tuning() {
    let s = TerrainSettings::default();
    assert_eq!(s.MAX_SPLIT_LEVEL, 20);
    assert_eq!(s.MIN_SPLIT_LEVEL, BASE_SPLIT_LEVEL + 2);
    assert_eq!(s.TESSELATION_VALUE, 1800);
    assert_eq!(s.SPLIT_LAZY_COEF, 200);
    assert_eq!(s.MIN_TRIANGLE_EDGE_SIZE, 9100);
}

#[test]
fn cap_2pi_wraps_into_half_turn() {
    assert_eq!(cap_2pi(0), 0);
    assert_eq!(cap_2pi(PI_URAD), PI_URAD);
    assert_eq!(cap_2pi(TWO_PI_URAD), 0);
    assert_eq!(cap_2pi(-TWO_PI_URAD), 0);
    let wrapped = cap_2pi(PI_URAD + 1);
    assert_eq!(wrapped, PI_URAD + 1 - TWO_PI_URAD);
    for x in [-10 * TWO_PI_URAD - 123, -PI_URAD, 55, 3 * TWO_PI_URAD + 777] {
        let r = cap_2pi(x);
        assert!(-PI_URAD <= r && r <= PI_URAD);
        assert_eq!((x - r) % TWO_PI_URAD, 0);
    }
}
