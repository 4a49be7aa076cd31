use net_location::fields::DEGREE;
use net_location::position::LIP_PROTOCOL_ID;
use net_location::{
    decode_tetra_lip_position, HorizontalVelocity, SdsUserData, TetraLipPosition,
};

fn push_bits(out: &mut Vec<u8>, value: u32, count: usize) {
    for bit in (0..count).rev() {
        out.push(((value >> bit) & 1) as u8);
    }
}

fn pack(bits: &[u8]) -> Vec<u8> {
    let mut bytes = vec![0u8; bits.len().div_ceil(8)];
    for (i, bit) in bits.iter().copied().enumerate() {
        if bit != 0 {
            bytes[i / 8] |= 1 << (7 - (i % 8));
        }
    }
    bytes
}

fn angular_raw(value: f64, bits: u32) -> u32 {
    let scaled = (value * ((1u64 << 24) as f64) / 180.0).round() as i64;
    let modulus = 1i64 << bits;
    scaled.rem_euclid(modulus) as u32
}

fn degrees(angle: i64) -> f64 {
    angle as f64 / DEGREE as f64
}

fn kmh(speed: HorizontalVelocity) -> f32 {
    match speed {
        HorizontalVelocity::Linear { kmh } => kmh as f32,
        HorizontalVelocity::Geometric { exponent } => 16.0 * 1.038_f32.powi(exponent),
    }
}

fn message(payload: &[u8]) -> SdsUserData {
    let mut bytes = vec![LIP_PROTOCOL_ID];
    bytes.extend(pack(payload));
    SdsUserData::Type4((8 + payload.len()) as u16, bytes)
}

/// A Short Location Report; `other` is written into every field that is not decoded.
fn short_report(lon: u32, lat: u32, speed: u32, other: u32) -> Vec<u8> {
    let mut payload = Vec::new();
    push_bits(&mut payload, 0, 2);
    push_bits(&mut payload, other, 2);
    push_bits(&mut payload, lon, 25);
    push_bits(&mut payload, lat, 24);
    push_bits(&mut payload, other, 3);
    push_bits(&mut payload, speed, 7);
    push_bits(&mut payload, other, 4);
    push_bits(&mut payload, other, 1);
    payload
}

/// A Long Location Report up to its latitude.
fn long_report(extension: u32, time_type: u32, time_bits: usize, shape: u32) -> Vec<u8> {
    let mut payload = Vec::new();
    push_bits(&mut payload, 1, 2);
    push_bits(&mut payload, extension, 4);
    push_bits(&mut payload, time_type, 2);
    push_bits(&mut payload, 0x2A_AAAA, time_bits);
    push_bits(&mut payload, shape, 4);
    push_bits(&mut payload, 0x1FF_FFFE, 25);
    push_bits(&mut payload, 3, 24);
    payload
}

#[test]
fn decodes_short_location_report() {
    let mut payload = Vec::new();
    push_bits(&mut payload, 0, 2); // short PDU
    push_bits(&mut payload, 0, 2); // time elapsed
    push_bits(&mut payload, angular_raw(18.6466, 25), 25);
    push_bits(&mut payload, angular_raw(54.3520, 24), 24);
    push_bits(&mut payload, 0, 3); // position error
    push_bits(&mut payload, 12, 7); // speed
    push_bits(&mut payload, 0, 4); // direction
    push_bits(&mut payload, 0, 1); // additional-data type

    let mut bytes = vec![LIP_PROTOCOL_ID];
    bytes.extend(pack(&payload));
    let sds = SdsUserData::Type4((8 + payload.len()) as u16, bytes);
    let p = decode_tetra_lip_position(&sds).expect("position");

    assert!((degrees(p.lat) - 54.3520).abs() < 0.0001);
    assert!((degrees(p.lon) - 18.6466).abs() < 0.0001);
    assert_eq!(p.speed_kmh.map(kmh), Some(12.0));
    assert!(p.short_report);
}

#[test]
fn decodes_southern_and_western_coordinates() {
    let mut payload = Vec::new();
    push_bits(&mut payload, 0, 2);
    push_bits(&mut payload, 0, 2);
    push_bits(&mut payload, angular_raw(-58.3816, 25), 25);
    push_bits(&mut payload, angular_raw(-34.6037, 24), 24);
    push_bits(&mut payload, 0, 3);
    push_bits(&mut payload, 0, 7);
    push_bits(&mut payload, 0, 4);
    push_bits(&mut payload, 0, 1);

    let mut bytes = vec![LIP_PROTOCOL_ID];
    bytes.extend(pack(&payload));
    let sds = SdsUserData::Type4((8 + payload.len()) as u16, bytes);
    let p = decode_tetra_lip_position(&sds).expect("position");

    assert!((degrees(p.lat) + 34.6037).abs() < 0.0001);
    assert!((degrees(p.lon) + 58.3816).abs() < 0.0001);
}

#[test]
fn rejects_non_lip_sds() {
    let sds = SdsUserData::Type4(16, vec![0x82, 0x00]);
    assert!(decode_tetra_lip_position(&sds).is_none());
}

#[test]
fn rejects_other_user_data_types() {
    assert!(decode_tetra_lip_position(&SdsUserData::Type1(0x0A00)).is_none());
    assert!(decode_tetra_lip_position(&SdsUserData::Type2(0x0A00_0000)).is_none());
    assert!(decode_tetra_lip_position(&SdsUserData::Type3(0x0A00_0000_0000_0000)).is_none());
}

#[test]
fn rejects_messages_without_a_pdu() {
    assert!(decode_tetra_lip_position(&SdsUserData::Type4(0, vec![])).is_none());
    assert!(decode_tetra_lip_position(&SdsUserData::Type4(76, vec![])).is_none());
    assert!(decode_tetra_lip_position(&SdsUserData::Type4(76, vec![LIP_PROTOCOL_ID])).is_none());
    assert!(decode_tetra_lip_position(&SdsUserData::Type4(9, vec![LIP_PROTOCOL_ID, 0])).is_none());
}

#[test]
fn short_report_keeps_exact_fields() {
    let expected = TetraLipPosition {
        lat: -180,
        lon: 5 * 180,
        speed_kmh: Some(HorizontalVelocity::Geometric { exponent: 16 }),
        short_report: true,
    };
    for other in [0, 15] {
        let payload = short_report(5, 0xFF_FFFF, 29, other);
        assert_eq!(decode_tetra_lip_position(&message(&payload)), Some(expected));
    }
}

#[test]
fn field_extremes_lie_on_the_globe() {
    let south_west = short_report(0x100_0000, 0x80_0000, 127, 0);
    assert_eq!(
        decode_tetra_lip_position(&message(&south_west)),
        Some(TetraLipPosition {
            lat: -90 * DEGREE,
            lon: -180 * DEGREE,
            speed_kmh: Some(HorizontalVelocity::Geometric { exponent: 114 }),
            short_report: true,
        })
    );
    let north_east = short_report(0xFF_FFFF, 0x7F_FFFF, 0, 0);
    assert_eq!(
        decode_tetra_lip_position(&message(&north_east)),
        Some(TetraLipPosition {
            lat: 90 * DEGREE - 180,
            lon: 180 * DEGREE - 180,
            speed_kmh: Some(HorizontalVelocity::Linear { kmh: 0 }),
            short_report: true,
        })
    );
}

#[test]
fn decodes_long_reports_of_each_time_type_and_shape() {
    let expected =
        TetraLipPosition { lat: 540, lon: -360, speed_kmh: None, short_report: false };
    for (time_type, time_bits) in [(0, 0), (1, 2), (2, 22)] {
        for shape in 0..16 {
            let decoded =
                decode_tetra_lip_position(&message(&long_report(3, time_type, time_bits, shape)));
            if matches!(shape, 1 | 2 | 3 | 4 | 5 | 6 | 7 | 9 | 10) {
                assert_eq!(decoded, Some(expected));
            } else {
                assert_eq!(decoded, None);
            }
        }
    }
}

#[test]
fn rejects_reserved_time_type() {
    for time_bits in [0, 2, 22] {
        assert_eq!(decode_tetra_lip_position(&message(&long_report(3, 3, time_bits, 1))), None);
    }
}

#[test]
fn rejects_other_pdus() {
    for extension in 0..16 {
        let decoded = decode_tetra_lip_position(&message(&long_report(extension, 0, 0, 1)));
        assert_eq!(decoded.is_some(), extension == 3);
    }
    for pdu_type in [2, 3] {
        let mut payload = Vec::new();
        push_bits(&mut payload, pdu_type, 2);
        payload.extend(vec![0; 80]);
        assert_eq!(decode_tetra_lip_position(&message(&payload)), None);
    }
}

#[test]
fn rejects_every_truncation() {
    let short = short_report(1, 2, 3, 0);
    for len in 0..short.len() {
        assert_eq!(decode_tetra_lip_position(&message(&short[..len])), None);
    }
    for (time_type, time_bits) in [(0, 0), (1, 2), (2, 22)] {
        let long = long_report(3, time_type, time_bits, 2);
        for len in 0..long.len() {
            assert_eq!(decode_tetra_lip_position(&message(&long[..len])), None);
        }
    }
}

#[test]
fn trailing_bits_and_bytes_do_not_matter() {
    let payload = short_report(1, 2, 3, 0);
    let plain = decode_tetra_lip_position(&message(&payload));
    assert!(plain.is_some());
    let mut longer = payload.clone();
    longer.extend([1, 0, 1, 1, 0, 1, 1, 1, 1]);
    assert_eq!(decode_tetra_lip_position(&message(&longer)), plain);
    let mut bytes = vec![LIP_PROTOCOL_ID];
    bytes.extend(pack(&payload));
    bytes.extend([0xFF, 0xFF]);
    assert_eq!(decode_tetra_lip_position(&SdsUserData::Type4(76, bytes)), plain);
}

#[test]
fn missing_bytes_shorten_the_message() {
    let mut bytes = vec![LIP_PROTOCOL_ID];
    bytes.extend(pack(&short_report(1, 2, 3, 0)));
    assert_eq!(bytes.len(), 10);
    assert!(decode_tetra_lip_position(&SdsUserData::Type4(2000, bytes.clone())).is_some());
    bytes.pop();
    assert!(decode_tetra_lip_position(&SdsUserData::Type4(2000, bytes)).is_none());
}
