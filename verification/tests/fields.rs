use net_location::fields::{
    decode_lat, decode_lon, horizontal_velocity, signed_field, valid_coord, DEGREE,
};
use net_location::HorizontalVelocity;

#[test]
fn signed_field_reads_twos_complement() {
    assert_eq!(signed_field(0, 1), 0);
    assert_eq!(signed_field(1, 1), -1);
    assert_eq!(signed_field(0x7F_FFFF, 24), 8_388_607);
    assert_eq!(signed_field(0x80_0000, 24), -8_388_608);
    assert_eq!(signed_field(0x1FF_FFFF, 25), -1);
    assert_eq!(signed_field(0x8000_0000, 32), -2_147_483_648);
}

#[test]
fn signed_field_does_not_mask_higher_bits() {
    assert_eq!(signed_field(0x103, 4), 0x103);
    assert_eq!(signed_field(0x108, 4), 0x108 - 16);
}

#[test]
fn signed_values_round_trip() {
    for value in -32i64..32 {
        assert_eq!(signed_field(value.rem_euclid(64) as u32, 6), value);
    }
}

#[test]
fn angles_are_exact_fixed_point_degrees() {
    assert_eq!(decode_lat(0x40_0000), 45 * DEGREE);
    assert_eq!(decode_lat(0xFF_FFFF), -180);
    assert_eq!(decode_lon(0x80_0000), 90 * DEGREE);
    assert_eq!(decode_lon(0x100_0000), -180 * DEGREE);
}

#[test]
fn nearest_field_is_within_half_a_step() {
    for target in -100_000i64..100_000 {
        let raw = (target + 90).div_euclid(180).rem_euclid(1 << 24) as u32;
        assert!((decode_lat(raw) - target).abs() <= 90);
    }
}

#[test]
fn valid_coord_bounds_are_closed() {
    assert!(valid_coord(90 * DEGREE, 180 * DEGREE));
    assert!(valid_coord(-90 * DEGREE, -180 * DEGREE));
    assert!(!valid_coord(90 * DEGREE + 1, 0));
    assert!(!valid_coord(-90 * DEGREE - 1, 0));
    assert!(!valid_coord(0, 180 * DEGREE + 1));
    assert!(!valid_coord(0, -180 * DEGREE - 1));
}

#[test]
fn velocity_changes_coding_at_29() {
    assert_eq!(horizontal_velocity(28), HorizontalVelocity::Linear { kmh: 28 });
    assert_eq!(horizontal_velocity(29), HorizontalVelocity::Geometric { exponent: 16 });
    assert_eq!(
        horizontal_velocity(0x8000_000D),
        HorizontalVelocity::Geometric { exponent: i32::MIN }
    );
}

#[test]
fn velocities_increase() {
    let kmh = |raw: u32| match horizontal_velocity(raw) {
        HorizontalVelocity::Linear { kmh } => kmh as f32,
        HorizontalVelocity::Geometric { exponent } => 16.0 * 1.038_f32.powi(exponent),
    };
    for raw in 0..127 {
        assert!(kmh(raw) < kmh(raw + 1));
    }
}
