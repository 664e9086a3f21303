//! The worker pool of a batch and the rule that sizes it.

use vstd::prelude::*;
use crate::error::GeohashError;

verus! {

/// rayon's pool of worker threads; nothing of its inside is known here.
#[verifier::external_type_specification]
#[verifier::external_body]
pub struct ExThreadPool(rayon::ThreadPool);

/// rayon's reason for not building a pool; nothing of its inside is known here.
#[verifier::external_type_specification]
#[verifier::external_body]
pub struct ExThreadPoolBuildError(rayon::ThreadPoolBuildError);

/// Builds a pool of `num_threads` workers with `rayon::ThreadPoolBuilder`
/// (`new`, `num_threads`, `build`). Zero, which rayon reads as leave to choose
/// the number itself, is kept out. Whether the pool can be built depends on
/// the machine, so nothing is claimed of the result.
#[verifier::external_body]
fn build_pool(num_threads: usize) -> (r: Result<rayon::ThreadPool, rayon::ThreadPoolBuildError>)
    requires
        num_threads != 0,
{
    rayon::ThreadPoolBuilder::new().num_threads(num_threads).build()
}

/// Builds a pool of `num_threads` workers. A count of zero is refused with
/// `InvalidThreadCount` and no pool is built; a pool that rayon cannot build
/// is reported as `ThreadPoolCreationFailed`.
pub fn create_pool(num_threads: usize) -> (r: Result<rayon::ThreadPool, GeohashError>)
    ensures
        num_threads == 0 ==> r == Err::<rayon::ThreadPool, GeohashError>(
            GeohashError::InvalidThreadCount,
        ),
        num_threads != 0 ==> (r is Ok || r == Err::<rayon::ThreadPool, GeohashError>(
            GeohashError::ThreadPoolCreationFailed,
        )),
{
    if num_threads == 0 {
        return Err(GeohashError::InvalidThreadCount);
    }
    match build_pool(num_threads) {
        Ok(pool) => Ok(pool),
        Err(_) => Err(GeohashError::ThreadPoolCreationFailed),
    }
}

/// The number of physical cores, as `num_cpus::get_physical` reports it. It
/// depends on the machine, so nothing is claimed of it.
#[verifier::external_body]
fn physical_cores() -> (n: usize) {
    num_cpus::get_physical()
}

/// The number of workers for a batch: an explicit count as given, unless it is
/// zero, which is refused; without one, the number of physical cores, unless
/// the machine reports none, with which no pool can be made.
pub open spec fn thread_count_spec(explicit: Option<usize>, physical: usize) -> Result<
    usize,
    GeohashError,
> {
    match explicit {
        Some(n) => if n == 0 {
            Err(GeohashError::InvalidThreadCount)
        } else {
            Ok(n)
        },
        None => if physical == 0 {
            Err(GeohashError::ThreadPoolCreationFailed)
        } else {
            Ok(physical)
        },
    }
}

/// Picks the number of workers from the caller's wish and the machine's count
/// of physical cores. The number picked is never zero.
pub fn resolve_thread_count(explicit: Option<usize>, physical: usize) -> (r: Result<
    usize,
    GeohashError,
>)
    ensures
        r == thread_count_spec(explicit, physical),
        r matches Ok(n) ==> n != 0,
{
    match explicit {
        Some(n) => {
            if n == 0 {
                Err(GeohashError::InvalidThreadCount)
            } else {
                Ok(n)
            }
        },
        None => {
            if physical == 0 {
                Err(GeohashError::ThreadPoolCreationFailed)
            } else {
                Ok(physical)
            }
        },
    }
}

/// Sizes and builds the pool of one batch call. An explicit count of zero is
/// refused before anything is built; a pool that cannot be built is reported
/// as `ThreadPoolCreationFailed`.
pub fn pool_for(thread_count: Option<usize>) -> (r: Result<rayon::ThreadPool, GeohashError>)
    ensures
        thread_count == Some(0usize) ==> r == Err::<rayon::ThreadPool, GeohashError>(
            GeohashError::InvalidThreadCount,
        ),
        thread_count != Some(0usize) ==> (r is Ok || r == Err::<rayon::ThreadPool, GeohashError>(
            GeohashError::ThreadPoolCreationFailed,
        )),
{
    let physical: usize = match thread_count {
        Some(_) => 0,
        None => physical_cores(),
    };
    match resolve_thread_count(thread_count, physical) {
        Err(e) => Err(e),
        Ok(n) => create_pool(n),
    }
}

} // verus!
