//! The host's parallelism, for the pipeline's default concurrency.
use vstd::prelude::*;

verus! {

/// Relies on num_cpus::get: the number of available logical CPUs, which
/// is documented to always be at least one. What it returns depends on
/// the machine, so nothing more is promised.
#[verifier::external_body]
pub fn host_cpu_count() -> (r: usize)
    ensures
        r >= 1,
{
    num_cpus::get()
}

} // verus!
