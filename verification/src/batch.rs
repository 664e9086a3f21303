//! Conversion of whole sequences on a pool of workers, results in input order.

use vstd::prelude::*;
use rayon::iter::{IndexedParallelIterator, IntoParallelRefIterator, ParallelIterator};
use crate::codec::{decode, decode_spec, encode, encode_spec, text_result_is, Coordinate};
use crate::error::{BatchError, GeohashError};
use crate::pool::pool_for;

verus! {

/// What decoding gives when only the centre is kept.
pub open spec fn center_spec(text: Seq<char>) -> Result<Coordinate, GeohashError> {
    match decode_spec(text) {
        Ok(d) => Ok(d.center),
        Err(e) => Err(e),
    }
}

/// Decodes a geohash and keeps the centre of its cell.
pub fn decode_center(geohash: &str) -> (r: Result<Coordinate, GeohashError>)
    ensures
        r == center_spec(geohash@),
{
    match decode(geohash) {
        Ok(d) => Ok(d.center),
        Err(e) => Err(e),
    }
}

/// Whether the element at position `i` failed with `e` and every earlier
/// element succeeded.
pub open spec fn first_failure<T>(
    results: Seq<Result<T, GeohashError>>,
    i: int,
    e: GeohashError,
) -> bool {
    &&& 0 <= i < results.len()
    &&& results[i] == Err::<T, GeohashError>(e)
    &&& forall|j: int| 0 <= j < i ==> (#[trigger] results[j]) is Ok
}

/// Whether `r` gathers `results`: all the values in order where every element
/// succeeded, else the position and the failure of the first element that
/// failed.
pub open spec fn gathers<T>(
    results: Seq<Result<T, GeohashError>>,
    r: Result<Vec<T>, BatchError>,
) -> bool {
    match r {
        Ok(v) => v@.len() == results.len() && forall|i: int|
            0 <= i < results.len() ==> #[trigger] results[i] == Ok::<T, GeohashError>(v@[i]),
        Err(b) => b.position is Some && first_failure(results, b.position->0 as int, b.error),
    }
}

/// The position and the failure of the first element that failed, if any did.
pub fn find_failure<T>(results: &Vec<Result<T, GeohashError>>) -> (r: Option<BatchError>)
    ensures
        match r {
            Some(b) => b.position is Some && first_failure(
                results@,
                b.position->0 as int,
                b.error,
            ),
            None => forall|i: int| 0 <= i < results@.len() ==> (#[trigger] results@[i]) is Ok,
        },
{
    let mut i: usize = 0;
    while i < results.len()
        invariant
            i <= results@.len(),
            forall|j: int| 0 <= j < i ==> (#[trigger] results@[j]) is Ok,
        decreases results@.len() - i,
    {
        match &results[i] {
            Err(e) => {
                return Some(BatchError { error: *e, position: Some(i) });
            },
            Ok(_) => {},
        }
        i += 1;
    }
    None
}

/// Gathers the results of a batch: every value in input order, or the position
/// and the failure of the first element that failed. No part of a failed batch
/// is handed out.
pub fn collect_results<T>(results: Vec<Result<T, GeohashError>>) -> (r: Result<Vec<T>, BatchError>)
    ensures
        gathers(results@, r),
{
    match find_failure(&results) {
        Some(b) => Err(b),
        None => {
            let ghost all = results@;
            let mut rest = results;
            let mut reversed: Vec<T> = Vec::new();
            while rest.len() > 0
                invariant
                    rest@.len() + reversed@.len() == all.len(),
                    forall|i: int| 0 <= i < all.len() ==> (#[trigger] all[i]) is Ok,
                    forall|i: int| 0 <= i < rest@.len() ==> rest@[i] == all[i],
                    forall|i: int|
                        0 <= i < reversed@.len() ==> all[all.len() - 1 - i] == Ok::<T, GeohashError>(
                            #[trigger] reversed@[i],
                        ),
                decreases rest@.len(),
            {
                let at: usize = rest.len() - 1;
                match rest.pop() {
                    Some(Ok(value)) => {
                        reversed.push(value);
                    },
                    Some(Err(e)) => {
                        assert(all[at as int] is Ok);
                        return Err(BatchError { error: e, position: Some(at) });
                    },
                    None => {},
                }
            }
            let mut out: Vec<T> = Vec::new();
            while reversed.len() > 0
                invariant
                    reversed@.len() + out@.len() == all.len(),
                    forall|i: int|
                        0 <= i < reversed@.len() ==> all[all.len() - 1 - i] == Ok::<T, GeohashError>(
                            #[trigger] reversed@[i],
                        ),
                    forall|i: int|
                        0 <= i < out@.len() ==> all[i] == Ok::<T, GeohashError>(#[trigger] out@[i]),
                decreases reversed@.len(),
            {
                match reversed.pop() {
                    Some(value) => {
                        out.push(value);
                    },
                    None => {},
                }
            }
            Ok(out)
        },
    }
}

/// Runs `encode` on every pair of `lons` and `lats` inside the pool, through
/// rayon's `ThreadPool::install` and, on the two sequences' parallel
/// iterators, `zip_eq`, `map` and `collect_into_vec`. `zip_eq` pairs the
/// items by position and panics on unequal lengths, which are ruled out here;
/// `collect_into_vec` writes item `i` of an indexed iterator to place `i` of
/// the vector, whatever worker finishes first. The claim is that element `i`
/// of the output is what `encode` returns on pair `i`.
#[verifier::external_body]
fn encode_each(pool: &rayon::ThreadPool, lons: &Vec<i64>, lats: &Vec<i64>, len: usize) -> (out: Vec<
    Result<String, GeohashError>,
>)
    requires
        lons@.len() == lats@.len(),
    ensures
        out@.len() == lons@.len(),
        forall|i: int|
            0 <= i < out@.len() ==> text_result_is(
                #[trigger] out@[i],
                encode_spec(lons@[i] as int, lats@[i] as int, len as nat),
            ),
{
    let mut out = Vec::new();
    pool.install(
        || {
            lons.par_iter().zip_eq(lats.par_iter()).map(|(x, y)| encode(*x, *y, len)).collect_into_vec(
                &mut out,
            )
        },
    );
    out
}

/// Runs `decode_center` on every geohash inside the pool, through rayon's
/// `ThreadPool::install` and, on the sequence's parallel iterator, `map` and
/// `collect_into_vec`, which writes item `i` to place `i` of the vector. The
/// claim is that element `i` of the output is what `decode_center` returns on
/// geohash `i`.
#[verifier::external_body]
fn decode_each(pool: &rayon::ThreadPool, geohashes: &Vec<String>) -> (out: Vec<
    Result<Coordinate, GeohashError>,
>)
    ensures
        out@.len() == geohashes@.len(),
        forall|i: int| 0 <= i < out@.len() ==> #[trigger] out@[i] == center_spec(geohashes@[i]@),
{
    let mut out = Vec::new();
    pool.install(
        || { geohashes.par_iter().map(|g| decode_center(g.as_str())).collect_into_vec(&mut out) },
    );
    out
}

/// What `encode` gives on pair `i` of a batch.
pub open spec fn encode_at(lons: Seq<i64>, lats: Seq<i64>, len: nat, i: int) -> Result<
    Seq<char>,
    GeohashError,
> {
    encode_spec(lons[i] as int, lats[i] as int, len)
}

/// What a batch encoding owes once its pool stands: `LengthMismatch` where
/// the sequences differ in length; else the geohash of every pair, in input
/// order; else the position and the failure of the first pair that `encode`
/// refuses.
pub open spec fn encoded_batch(
    lons: Seq<i64>,
    lats: Seq<i64>,
    len: nat,
    r: Result<Vec<String>, BatchError>,
) -> bool {
    if lons.len() != lats.len() {
        r == Err::<Vec<String>, BatchError>(BatchError::whole(GeohashError::LengthMismatch))
    } else {
        match r {
            Ok(v) => v@.len() == lons.len() && forall|i: int|
                0 <= i < lons.len() ==> #[trigger] encode_at(lons, lats, len, i) == Ok::<
                    Seq<char>,
                    GeohashError,
                >(v@[i]@),
            Err(b) => {
                &&& b.position is Some
                &&& b.position->0 < lons.len()
                &&& encode_at(lons, lats, len, b.position->0 as int) == Err::<
                    Seq<char>,
                    GeohashError,
                >(b.error)
                &&& forall|j: int|
                    0 <= j < b.position->0 ==> (#[trigger] encode_at(lons, lats, len, j)) is Ok
            },
        }
    }
}

/// What a batch decoding owes once its pool stands: the centre of every
/// geohash's cell, in input order; else the position and the failure of the
/// first geohash that `decode` refuses.
pub open spec fn decoded_batch(geohashes: Seq<String>, r: Result<Vec<Coordinate>, BatchError>) -> bool {
    match r {
        Ok(v) => v@.len() == geohashes.len() && forall|i: int|
            0 <= i < geohashes.len() ==> center_spec((#[trigger] geohashes[i])@) == Ok::<
                Coordinate,
                GeohashError,
            >(v@[i]),
        Err(b) => {
            &&& b.position is Some
            &&& b.position->0 < geohashes.len()
            &&& center_spec(geohashes[b.position->0 as int]@) == Err::<Coordinate, GeohashError>(
                b.error,
            )
            &&& forall|j: int|
                0 <= j < b.position->0 ==> center_spec((#[trigger] geohashes[j])@) is Ok
        },
    }
}

/// Encodes every pair of `lons` and `lats` on the workers of `pool`.
///
/// The lengths are compared before any work is handed out. The output has one
/// geohash per pair, at the pair's position; if any pair is refused, the whole
/// call fails with the failure of the first such pair and its position.
pub fn encode_many_in(pool: &rayon::ThreadPool, lons: &Vec<i64>, lats: &Vec<i64>, len: usize) -> (r:
    Result<Vec<String>, BatchError>)
    ensures
        encoded_batch(lons@, lats@, len as nat, r),
{
    if lons.len() != lats.len() {
        return Err(BatchError { error: GeohashError::LengthMismatch, position: None });
    }
    let results = encode_each(pool, lons, lats, len);
    let r = collect_results(results);
    proof {
        match &r {
            Ok(v) => {
                assert forall|i: int| 0 <= i < lons@.len() implies #[trigger] encode_at(
                    lons@,
                    lats@,
                    len as nat,
                    i,
                ) == Ok::<Seq<char>, GeohashError>(v@[i]@) by {
                    assert(results@[i] == Ok::<String, GeohashError>(v@[i]));
                }
            },
            Err(b) => {
                let i = b.position->0 as int;
                assert(first_failure(results@, i, b.error));
                assert forall|j: int| 0 <= j < i implies (#[trigger] encode_at(
                    lons@,
                    lats@,
                    len as nat,
                    j,
                )) is Ok by {
                    assert(results@[j] is Ok);
                }
            },
        }
    }
    r
}

/// Decodes every geohash on the workers of `pool` and keeps the centres.
///
/// The output has one point per geohash, at the geohash's position; if any
/// geohash is refused, the whole call fails with the failure of the first such
/// geohash and its position.
pub fn decode_many_in(pool: &rayon::ThreadPool, geohashes: &Vec<String>) -> (r: Result<
    Vec<Coordinate>,
    BatchError,
>)
    ensures
        decoded_batch(geohashes@, r),
{
    let results = decode_each(pool, geohashes);
    let r = collect_results(results);
    proof {
        match &r {
            Ok(v) => {
                assert forall|i: int| 0 <= i < geohashes@.len() implies center_spec(
                    (#[trigger] geohashes@[i])@,
                ) == Ok::<Coordinate, GeohashError>(v@[i]) by {
                    assert(results@[i] == Ok::<Coordinate, GeohashError>(v@[i]));
                }
            },
            Err(b) => {
                let i = b.position->0 as int;
                assert(first_failure(results@, i, b.error));
                assert forall|j: int| 0 <= j < i implies center_spec(
                    (#[trigger] geohashes@[j])@,
                ) is Ok by {
                    assert(results@[j] is Ok);
                }
            },
        }
    }
    r
}

/// Encodes every pair of `lons` and `lats` on a pool of its own, sized by
/// `thread_count` or, without one, by the number of physical cores.
///
/// Sequences of different lengths are refused first, then an explicit count of
/// zero. After that the call fails with `ThreadPoolCreationFailed` where the
/// pool cannot be built, and else returns what `encode_many_in` returns, which
/// does not depend on the number of workers.
pub fn encode_many(lons: &Vec<i64>, lats: &Vec<i64>, len: usize, thread_count: Option<usize>) -> (r:
    Result<Vec<String>, BatchError>)
    ensures
        lons@.len() != lats@.len() ==> r == Err::<Vec<String>, BatchError>(
            BatchError::whole(GeohashError::LengthMismatch),
        ),
        lons@.len() == lats@.len() && thread_count == Some(0usize) ==> r == Err::<
            Vec<String>,
            BatchError,
        >(BatchError::whole(GeohashError::InvalidThreadCount)),
        lons@.len() == lats@.len() && thread_count != Some(0usize) ==> (r == Err::<
            Vec<String>,
            BatchError,
        >(BatchError::whole(GeohashError::ThreadPoolCreationFailed)) || encoded_batch(
            lons@,
            lats@,
            len as nat,
            r,
        )),
{
    if lons.len() != lats.len() {
        return Err(BatchError { error: GeohashError::LengthMismatch, position: None });
    }
    match pool_for(thread_count) {
        Err(e) => Err(BatchError { error: e, position: None }),
        Ok(pool) => encode_many_in(&pool, lons, lats, len),
    }
}

/// Decodes every geohash on a pool of its own, sized by `thread_count` or,
/// without one, by the number of physical cores.
///
/// An explicit count of zero is refused. After that the call fails with
/// `ThreadPoolCreationFailed` where the pool cannot be built, and else returns
/// what `decode_many_in` returns, which does not depend on the number of
/// workers.
pub fn decode_many(geohashes: &Vec<String>, thread_count: Option<usize>) -> (r: Result<
    Vec<Coordinate>,
    BatchError,
>)
    ensures
        thread_count == Some(0usize) ==> r == Err::<Vec<Coordinate>, BatchError>(
            BatchError::whole(GeohashError::InvalidThreadCount),
        ),
        thread_count != Some(0usize) ==> (r == Err::<Vec<Coordinate>, BatchError>(
            BatchError::whole(GeohashError::ThreadPoolCreationFailed),
        ) || decoded_batch(geohashes@, r)),
{
    match pool_for(thread_count) {
        Err(e) => Err(BatchError { error: e, position: None }),
        Ok(pool) => decode_many_in(&pool, geohashes),
    }
}

} // verus!
