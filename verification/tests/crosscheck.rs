use geohash_fast::codec::{decode, encode};

fn units(degrees: f64) -> i64 {
    (degrees * 4294967296.0).floor() as i64
}

fn degrees(units: i64) -> f64 {
    units as f64 / 4294967296.0
}

fn sample(count: usize) -> Vec<(f64, f64)> {
    let mut state: u64 = 0x9E3779B97F4A7C15;
    let mut out = Vec::with_capacity(count);
    for _ in 0..count {
        state = state.wrapping_mul(6364136223846793005).wrapping_add(1442695040888963407);
        let lon = ((state >> 11) as f64 / (1u64 << 53) as f64) * 360.0 - 180.0;
        state = state.wrapping_mul(6364136223846793005).wrapping_add(1442695040888963407);
        let lat = ((state >> 11) as f64 / (1u64 << 53) as f64) * 180.0 - 90.0;
        out.push((lon, lat));
    }
    out
}

#[test]
fn encode_agrees_with_the_geohash_crate() {
    for (lon, lat) in sample(500) {
        for len in [1usize, 5, 9, 12] {
            let theirs = geohash::encode(geohash::Coord { x: lon, y: lat }, len).unwrap();
            let ours = encode(units(lon), units(lat), len).unwrap();
            assert_eq!(ours, theirs);
        }
    }
}

#[test]
fn decode_agrees_with_the_geohash_crate() {
    for (lon, lat) in sample(500) {
        for len in [1usize, 4, 8, 12] {
            let text = encode(units(lon), units(lat), len).unwrap();
            let (centre, lon_error, lat_error) = geohash::decode(&text).unwrap();
            let ours = decode(&text).unwrap();
            assert_eq!(degrees(ours.center.x), centre.x);
            assert_eq!(degrees(ours.center.y), centre.y);
            assert_eq!(degrees(ours.lon_error), lon_error);
            assert_eq!(degrees(ours.lat_error), lat_error);
        }
    }
}

#[test]
fn both_refuse_the_same_texts() {
    for text in ["!!!", "ezs4a", "0000000000000", "ezs4i"] {
        assert!(geohash::decode(text).is_err());
        assert!(decode(text).is_err());
    }
}

#[test]
fn both_refuse_the_same_lengths_and_points() {
    assert!(geohash::encode(geohash::Coord { x: 0.0, y: 0.0 }, 0).is_err());
    assert!(encode(0, 0, 0).is_err());
    assert!(geohash::encode(geohash::Coord { x: 0.0, y: 0.0 }, 13).is_err());
    assert!(encode(0, 0, 13).is_err());
    assert!(geohash::encode(geohash::Coord { x: 200.0, y: 0.0 }, 5).is_err());
    assert!(encode(units(200.0), 0, 5).is_err());
}
