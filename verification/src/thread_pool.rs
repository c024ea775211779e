//! Worker pools for the server: the shared contract, and the pool that
//! delegates to rayon's work-stealing threads. The naive one-thread-per-job
//! pool and the shared-queue pool spawn OS threads directly and live with
//! the I/O shell.

use vstd::prelude::*;
use crate::KvsError;

verus! {

/// The contract every worker pool offers: build one with a fixed thread
/// count, then hand it one-shot jobs to run.
pub trait WorkerPool: Sized {
    fn new(threads: u32) -> (r: Result<Self, KvsError>);

    fn spawn<F: FnOnce() + Send + 'static>(&self, job: F);
}

#[verifier::external_type_specification]
#[verifier::external_body]
pub struct ExRayonThreadPool(rayon::ThreadPool);

#[verifier::external_type_specification]
#[verifier::external_body]
pub struct ExRayonThreadPoolBuildError(rayon::ThreadPoolBuildError);

/// Relies on rayon::ThreadPoolBuilder::new, num_threads and build: they
/// start a pool with the given fixed thread count. The builder type cannot
/// cross this boundary: its default spawn-handler parameter is not public.
#[verifier::external_body]
fn rayon_build_pool(threads: usize) -> (r: Result<
    rayon::ThreadPool,
    rayon::ThreadPoolBuildError,
>) {
    rayon::ThreadPoolBuilder::new().num_threads(threads).build()
}

/// Relies on rayon::ThreadPool::install: it runs the job inside the pool,
/// returning when the job has. A panic in the job propagates out of this
/// call into the caller: this pool does not isolate panics.
#[verifier::external_body]
fn rayon_install<F: FnOnce() + Send>(pool: &rayon::ThreadPool, job: F) {
    pool.install(job)
}

/// Relies on rayon::ThreadPoolBuildError's Display implementation for the
/// error text.
#[verifier::external_body]
fn rayon_build_error_string(e: &rayon::ThreadPoolBuildError) -> (r: String) {
    e.to_string()
}

/// The pool that delegates its jobs to a rayon work-stealing pool with a
/// fixed thread count.
pub struct RayonThreadPool {
    pool: rayon::ThreadPool,
}

impl WorkerPool for RayonThreadPool {
    fn new(threads: u32) -> (r: Result<Self, KvsError>)
        ensures
            r is Err ==> r->Err_0 is ThreadPoolBuildError,
    {
        match rayon_build_pool(threads as usize) {
            Ok(pool) => Ok(RayonThreadPool { pool }),
            Err(e) => Err(KvsError::ThreadPoolBuildError(rayon_build_error_string(&e))),
        }
    }

    fn spawn<F: FnOnce() + Send + 'static>(&self, job: F) {
        rayon_install(&self.pool, job)
    }
}

} // verus!
