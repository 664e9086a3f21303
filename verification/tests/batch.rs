use geohash_fast::batch::{
    collect_results, decode_center, decode_many, decode_many_in, encode_many, encode_many_in,
    find_failure,
};
use geohash_fast::codec::{decode, encode, Coordinate};
use geohash_fast::error::{BatchError, GeohashError};

use geohash_fast::grid::{LAT_SPAN, LON_MAX, LON_MIN, LON_SPAN, LAT_MIN};
use geohash_fast::pool::{create_pool, pool_for, resolve_thread_count};

fn whole(error: GeohashError) -> BatchError {
    BatchError { error, position: None }
}

fn element(position: usize, error: GeohashError) -> BatchError {
    BatchError { error, position: Some(position) }
}

fn units(degrees: f64) -> i64 {
    (degrees * 4294967296.0).floor() as i64
}

fn points(count: usize, seed: u64) -> (Vec<i64>, Vec<i64>) {
    let mut state = seed;
    let mut lons = Vec::with_capacity(count);
    let mut lats = Vec::with_capacity(count);
    for _ in 0..count {
        state = state.wrapping_mul(6364136223846793005).wrapping_add(1442695040888963407);
        lons.push(LON_MIN + ((state >> 11) % (LON_SPAN + 1)) as i64);
        state = state.wrapping_mul(6364136223846793005).wrapping_add(1442695040888963407);
        lats.push(LAT_MIN + ((state >> 11) % (LAT_SPAN + 1)) as i64);
    }
    (lons, lats)
}

#[test]
fn thread_count_as_given() {
    assert_eq!(resolve_thread_count(Some(3), 8), Ok(3));
    assert_eq!(resolve_thread_count(Some(1), 0), Ok(1));
}

#[test]
fn thread_count_defaults_to_physical_cores() {
    assert_eq!(resolve_thread_count(None, 8), Ok(8));
    assert_eq!(resolve_thread_count(None, 1), Ok(1));
}

#[test]
fn no_pool_for_a_machine_without_cores() {
    assert_eq!(resolve_thread_count(None, 0), Err(GeohashError::ThreadPoolCreationFailed));
}

#[test]
fn create_pool_refuses_zero_threads() {
    assert!(matches!(create_pool(0), Err(GeohashError::InvalidThreadCount)));
}

#[test]
fn thread_count_zero_is_refused() {
    assert_eq!(resolve_thread_count(Some(0), 8), Err(GeohashError::InvalidThreadCount));
    assert!(matches!(pool_for(Some(0)), Err(GeohashError::InvalidThreadCount)));
}

#[test]
fn pool_has_the_threads_asked_for() {
    let pool = create_pool(3).unwrap();
    assert_eq!(pool.current_num_threads(), 3);
    let pool = pool_for(Some(2)).unwrap();
    assert_eq!(pool.current_num_threads(), 2);
    assert!(pool_for(None).is_ok());
}

#[test]
fn find_failure_reports_the_first() {
    let results: Vec<Result<u8, GeohashError>> =
        vec![Ok(1), Err(GeohashError::EmptyInput), Ok(3), Err(GeohashError::InvalidLength)];
    assert_eq!(find_failure(&results), Some(element(1, GeohashError::EmptyInput)));
    let results: Vec<Result<u8, GeohashError>> = vec![Ok(1), Ok(2)];
    assert_eq!(find_failure(&results), None);
}

#[test]
fn collect_results_keeps_the_order() {
    let results: Vec<Result<u8, GeohashError>> = vec![Ok(1), Ok(2), Ok(3), Ok(4)];
    assert_eq!(collect_results(results), Ok(vec![1, 2, 3, 4]));
    let results: Vec<Result<u8, GeohashError>> = Vec::new();
    assert_eq!(collect_results(results), Ok(Vec::new()));
}

#[test]
fn collect_results_fails_with_the_first_failure() {
    let results: Vec<Result<u8, GeohashError>> = vec![
        Ok(1),
        Err(GeohashError::InvalidGeohashCharacter),
        Ok(3),
        Err(GeohashError::EmptyInput),
    ];
    assert_eq!(collect_results(results), Err(element(1, GeohashError::InvalidGeohashCharacter)));
}

#[test]
fn decode_center_keeps_the_centre() {
    assert_eq!(decode_center("s"), Ok(Coordinate { x: units(22.5), y: units(22.5) }));
    assert_eq!(decode_center("9q60y").unwrap(), decode("9q60y").unwrap().center);
    assert_eq!(decode_center(""), Err(GeohashError::EmptyInput));
    assert_eq!(decode_center("a"), Err(GeohashError::InvalidGeohashCharacter));
}

#[test]
fn encode_many_of_known_points() {
    let lons = vec![units(-120.6623), 0, units(-5.6)];
    let lats = vec![units(35.3003), 0, units(42.6)];
    assert_eq!(
        encode_many(&lons, &lats, 5, Some(2)),
        Ok(vec!["9q60y".to_string(), "s0000".to_string(), "ezs42".to_string()])
    );
}

#[test]
fn encode_many_matches_encode_at_every_position() {
    let (lons, lats) = points(2000, 7);
    let many = encode_many(&lons, &lats, 7, Some(4)).unwrap();
    assert_eq!(many.len(), lons.len());
    for i in 0..lons.len() {
        assert_eq!(Ok(many[i].clone()), encode(lons[i], lats[i], 7));
    }
}

#[test]
fn encode_many_with_default_thread_count() {
    let (lons, lats) = points(100, 11);
    let many = encode_many(&lons, &lats, 6, None).unwrap();
    for i in 0..lons.len() {
        assert_eq!(Ok(many[i].clone()), encode(lons[i], lats[i], 6));
    }
}

#[test]
fn encode_many_is_the_same_for_every_thread_count() {
    let (lons, lats) = points(5000, 42);
    let one = encode_many(&lons, &lats, 9, Some(1)).unwrap();
    let two = encode_many(&lons, &lats, 9, Some(2)).unwrap();
    let eight = encode_many(&lons, &lats, 9, Some(8)).unwrap();
    assert_eq!(one, two);
    assert_eq!(one, eight);
}

#[test]
fn encode_many_of_a_million_points() {
    let (lons, lats) = points(1_000_000, 2024);
    let four = encode_many(&lons, &lats, 9, Some(4)).unwrap();
    let one = encode_many(&lons, &lats, 9, Some(1)).unwrap();
    assert_eq!(four.len(), 1_000_000);
    assert_eq!(four, one);
}

#[test]
fn encode_many_of_nothing() {
    assert_eq!(encode_many(&Vec::new(), &Vec::new(), 5, Some(2)), Ok(Vec::new()));
}

#[test]
fn encode_many_refuses_different_lengths() {
    assert_eq!(
        encode_many(&vec![units(1.0), units(2.0)], &vec![units(1.0)], 5, None),
        Err(whole(GeohashError::LengthMismatch))
    );
    let pool = create_pool(1).unwrap();
    assert_eq!(
        encode_many_in(&pool, &vec![units(1.0)], &vec![units(1.0), units(2.0)], 5),
        Err(whole(GeohashError::LengthMismatch))
    );
}

#[test]
fn length_mismatch_is_reported_before_thread_count() {
    assert_eq!(encode_many(&vec![0, 0], &vec![0], 5, Some(0)), Err(whole(GeohashError::LengthMismatch)));
}

#[test]
fn encode_many_refuses_zero_threads() {
    assert_eq!(
        encode_many(&vec![0], &vec![0], 5, Some(0)),
        Err(whole(GeohashError::InvalidThreadCount))
    );
}

#[test]
fn encode_many_fails_as_a_whole() {
    let lons = vec![0, LON_MAX + 1, 0];
    let lats = vec![0, 0, 0];
    assert_eq!(
        encode_many(&lons, &lats, 5, Some(2)),
        Err(element(1, GeohashError::InvalidCoordinate))
    );
    assert_eq!(
        encode_many(&vec![0, 0], &vec![0, 0], 0, Some(2)),
        Err(element(0, GeohashError::InvalidLength))
    );
    assert_eq!(
        encode_many(&vec![0, 0], &vec![0, 0], 13, Some(2)),
        Err(element(0, GeohashError::InvalidLength))
    );
    assert_eq!(
        encode_many(&vec![0, 0, 0, LON_MIN - 1], &vec![0, 0, 0, 0], 5, Some(3)),
        Err(element(3, GeohashError::InvalidCoordinate))
    );
}

#[test]
fn encode_many_in_a_shared_pool() {
    let pool = create_pool(3).unwrap();
    let (lons, lats) = points(500, 5);
    let first = encode_many_in(&pool, &lons, &lats, 8).unwrap();
    let second = encode_many_in(&pool, &lons, &lats, 8).unwrap();
    assert_eq!(first, second);
    for i in 0..lons.len() {
        assert_eq!(Ok(first[i].clone()), encode(lons[i], lats[i], 8));
    }
}

#[test]
fn decode_many_of_known_geohashes() {
    let texts = vec!["s".to_string(), "9q60y".to_string()];
    assert_eq!(
        decode_many(&texts, Some(2)),
        Ok(vec![
            Coordinate { x: units(22.5), y: units(22.5) },
            Coordinate { x: units(-120.65185546875), y: units(35.31005859375) },
        ])
    );
}

#[test]
fn decode_many_matches_decode_at_every_position() {
    let (lons, lats) = points(2000, 99);
    let texts = encode_many(&lons, &lats, 10, Some(3)).unwrap();
    let many = decode_many(&texts, Some(3)).unwrap();
    assert_eq!(many.len(), texts.len());
    for i in 0..texts.len() {
        assert_eq!(many[i], decode(&texts[i]).unwrap().center);
    }
}

#[test]
fn decode_many_is_the_same_for_every_thread_count() {
    let (lons, lats) = points(3000, 1);
    let texts = encode_many(&lons, &lats, 12, Some(2)).unwrap();
    let one = decode_many(&texts, Some(1)).unwrap();
    assert_eq!(decode_many(&texts, Some(2)).unwrap(), one);
    assert_eq!(decode_many(&texts, Some(8)).unwrap(), one);
    assert_eq!(decode_many(&texts, None).unwrap(), one);
}

#[test]
fn decode_many_fails_with_the_first_failure() {
    let texts =
        vec!["s".to_string(), "s!".to_string(), "".to_string(), "0000000000000".to_string()];
    assert_eq!(decode_many(&texts, Some(4)), Err(element(1, GeohashError::InvalidGeohashCharacter)));
    let texts = vec!["s".to_string(), "".to_string(), "s!".to_string()];
    assert_eq!(decode_many(&texts, Some(4)), Err(element(1, GeohashError::EmptyInput)));
    let pool = create_pool(2).unwrap();
    let texts = vec!["0000000000000".to_string(), "".to_string()];
    assert_eq!(decode_many_in(&pool, &texts), Err(element(0, GeohashError::InvalidLength)));
}

#[test]
fn decode_many_refuses_zero_threads() {
    assert_eq!(
        decode_many(&vec!["s".to_string()], Some(0)),
        Err(whole(GeohashError::InvalidThreadCount))
    );
}

#[test]
fn decode_many_of_nothing() {
    assert_eq!(decode_many(&Vec::new(), Some(1)), Ok(Vec::new()));
}

#[test]
fn batch_round_trip_stays_within_the_margins() {
    let (lons, lats) = points(1000, 314);
    let texts = encode_many(&lons, &lats, 6, Some(2)).unwrap();
    let centres = decode_many(&texts, Some(2)).unwrap();
    let margins = decode(&texts[0]).unwrap();
    for i in 0..lons.len() {
        assert!((lons[i] - centres[i].x).abs() <= margins.lon_error);
        assert!((lats[i] - centres[i].y).abs() <= margins.lat_error);
    }
    assert!(lons.iter().all(|x| (LON_MIN..=LON_MAX).contains(x)));
}
