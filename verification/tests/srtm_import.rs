use atldp::hgt::{decode_hgt, HgtError, SRTM1_SIZE, SRTM3_SIZE};

/// Bilinear interpolation of four neighbouring cells, the formula the DEM query uses.
fn bilinear_lerp(v00: f32, v01: f32, v10: f32, v11: f32, tr: f32, tc: f32) -> f32 {
    (v00 * (1.0 - tc) + v01 * tc) * (1.0 - tr) + (v10 * (1.0 - tc) + v11 * tc) * tr
}

/// A synthetic 1201×1201 HGT tile where `elevation = row + col` (i16 big-endian).
fn synthetic_hgt_1201() -> Vec<u8> {
    let n = 1201_usize;
    let mut bytes = Vec::with_capacity(n * n * 2);
    for row in 0..n {
        for col in 0..n {
            let val = (row + col) as i16;
            bytes.extend_from_slice(&val.to_be_bytes());
        }
    }
    bytes
}

#[test]
fn bilinear_arithmetic() {
    let v = bilinear_lerp(0.0, 10.0, 20.0, 30.0, 0.5, 0.5);
    assert!((v - 15.0).abs() < 1e-4, "bilinear mid={v}");
    let v2 = bilinear_lerp(0.0, 10.0, 20.0, 30.0, 0.0, 0.0);
    assert!((v2 - 0.0).abs() < 1e-4, "bilinear 00={v2}");
}

#[test]
fn parse_synthetic_1201_tile() {
    let tile = decode_hgt(&synthetic_hgt_1201()).expect("decode");
    assert_eq!(tile.size, SRTM3_SIZE);
    assert_eq!(tile.samples.len(), 1201 * 1201);
    assert_eq!(tile.samples[0], Some(0));
    assert_eq!(tile.samples[1200], Some(1200));
    assert_eq!(tile.samples[1200 * 1201], Some(1200));
    assert_eq!(tile.samples[1201 * 1201 - 1], Some(2400));
}

#[test]
fn wrong_size_returns_error() {
    let bad = vec![0u8; 100];
    assert!(matches!(decode_hgt(&bad), Err(HgtError::UnexpectedSize(100))));
    assert!(matches!(decode_hgt(&[]), Err(HgtError::UnexpectedSize(0))));
    let almost = vec![0u8; 1201 * 1201 * 2 - 2];
    assert!(decode_hgt(&almost).is_err());
}

/// A void sample decodes to `None`, which the DEM stores as NaN.
#[test]
fn void_cells_become_nan() {
    let n = 1201_usize;
    let mut bytes = vec![0u8; n * n * 2];
    let void = (-32768_i16).to_be_bytes();
    bytes[0] = void[0];
    bytes[1] = void[1];
    // A negative, non-void sample decodes to its signed value.
    let low = (-32767_i16).to_be_bytes();
    bytes[2] = low[0];
    bytes[3] = low[1];
    let minus_one = (-1_i16).to_be_bytes();
    bytes[4] = minus_one[0];
    bytes[5] = minus_one[1];
    let tile = decode_hgt(&bytes).expect("decode");
    assert_eq!(tile.samples[0], None);
    assert_eq!(tile.samples[1], Some(-32767));
    assert_eq!(tile.samples[2], Some(-1));
    assert_eq!(tile.samples[3], Some(0));
}

#[test]
fn decode_srtm1_size() {
    let bytes = vec![0x01u8; 3601 * 3601 * 2];
    let tile = decode_hgt(&bytes).expect("decode");
    assert_eq!(tile.size, SRTM1_SIZE);
    assert_eq!(tile.samples.len(), 3601 * 3601);
    assert!(tile.samples.iter().all(|s| *s == Some(0x0101)));
}
