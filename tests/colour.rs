use inky_display::{cube_root, fifth_root, rgb_to_xyz, xyz_to_cielab, ColourSpace};

fn close_milli(res: [u32; 3], exp: [f64; 3]) -> bool {
    (0..3).all(|i| ((res[i] as f64) / 1000.0 - exp[i]).abs() < 0.1)
}

fn close_micro(res: [i64; 3], exp: [f64; 3]) -> bool {
    (0..3).all(|i| ((res[i] as f64) / 1_000_000.0 - exp[i]).abs() < 0.1)
}

#[test]
fn rgb_to_xyz_1() {
    let res = rgb_to_xyz([0, 0, 0]);
    assert!(close_milli(res, [0.0, 0.0, 0.0]), "{res:?}");
}

#[test]
fn rgb_to_xyz_2() {
    let res = rgb_to_xyz([255, 255, 255]);
    assert!(close_milli(res, [95.047, 100.000, 108.883]), "{res:?}");
}

#[test]
fn rgb_to_xyz_3() {
    let res = rgb_to_xyz([12, 143, 208]);
    assert!(close_milli(res, [21.355, 24.274, 63.222]), "{res:?}");
}

#[test]
fn xyz_to_cielab_1() {
    let res = xyz_to_cielab([0, 0, 0]);
    assert!(close_micro(res, [0.0, 0.0, 0.0]), "{res:?}");
}

#[test]
fn xyz_to_cielab_2() {
    let res = xyz_to_cielab([95047, 100000, 108883]);
    assert!(close_micro(res, [100.0, 0.0, 0.0]), "{res:?}");
}

#[test]
fn xyz_to_cielab_3() {
    let res = xyz_to_cielab([21355, 24274, 63222]);
    assert!(close_micro(res, [56.361, -7.939, -42.092]), "{res:?}");
}

#[test]
fn exact_fixed_point_values() {
    assert_eq!(rgb_to_xyz([255, 255, 255]), [95050, 100000, 108900]);
    assert_eq!(xyz_to_cielab([95047, 100000, 108883]), [100000000, -3500, 800]);
}

#[test]
fn rgb_distance_black_white() {
    assert_eq!(ColourSpace::RGB.distance_sq([0, 0, 0], [255, 255, 255]), 195075);
}

#[test]
fn rgb_distance_is_symmetric_sum_of_squares() {
    assert_eq!(ColourSpace::RGB.distance_sq([10, 20, 30], [13, 16, 30]), 25);
    assert_eq!(ColourSpace::RGB.distance_sq([13, 16, 30], [10, 20, 30]), 25);
}

#[test]
fn cielab_distance_black_white_is_lightness_squared() {
    let d = ColourSpace::CIELAB.distance_sq([0, 0, 0], [255, 255, 255]);
    // L* runs from 0 to 100, so about (100 * 10^6)^2.
    let l = (d as f64).sqrt() / 1_000_000.0;
    assert!((l - 100.0).abs() < 0.1, "{l}");
}

#[test]
fn distance_to_self_is_zero() {
    for c in [[0, 0, 0], [12, 143, 208], [255, 255, 255], [1, 2, 3]] {
        assert_eq!(ColourSpace::RGB.distance_sq(c, c), 0);
        assert_eq!(ColourSpace::CIELAB.distance_sq(c, c), 0);
    }
}

#[test]
fn integer_roots() {
    assert_eq!(cube_root(0), 0);
    assert_eq!(cube_root(26), 2);
    assert_eq!(cube_root(27), 3);
    assert_eq!(cube_root(1_000_000_000_000_000_000), 1_000_000);
    assert_eq!(fifth_root(31), 1);
    assert_eq!(fifth_root(32), 2);
    assert_eq!(fifth_root(1 << 90), 1 << 18);
}
