//! Thread-cache selection: requests are spread over a fixed array of bin
//! sets, picked by mixing the caller's thread identifier and reducing it
//! modulo the array length. Two threads may share a bucket; the bins'
//! locking makes that safe, so nothing here depends on which bucket comes
//! out.

use vstd::prelude::*;

verus! {

use vstd::arithmetic::div_mod::{lemma_mod_division_less_than_divisor, lemma_mod_multiples_basic};

/// Cap on the CPU count used for sizing, so the bucket count cannot
/// overflow a machine word.
pub const MAX_CPUS_FOR_SIZING: usize = 0x10000;

/// The 64-bit finalizer mix: three rounds of xor-shift by 33 and
/// multiplication by a fixed odd constant. It spreads consecutive thread
/// identifiers over the whole word.
pub open spec fn spec_hash(x: u64) -> u64 {
    let a = x ^ (x >> 33);
    let b = a.wrapping_mul(0xff51afd7ed558ccd);
    let c = b ^ (b >> 33);
    let d = c.wrapping_mul(0xc4ceb9fe1a85ec53);
    d ^ (d >> 33)
}

/// Mixes a thread identifier into an evenly spread machine word.
pub fn hash_usize(input: usize) -> (r: usize)
    ensures
        r == spec_hash(input as u64) as usize,
{
    let mut output: u64 = input as u64;
    output = output ^ (output >> 33);
    output = output.wrapping_mul(0xff51afd7ed558ccd);
    output = output ^ (output >> 33);
    output = output.wrapping_mul(0xc4ceb9fe1a85ec53);
    output = output ^ (output >> 33);
    #[verifier::truncate] (output as usize)
}

/// The bucket serving a thread identifier, among `num_bins` buckets.
pub fn bucket_index(id: usize, num_bins: usize) -> (r: usize)
    requires
        num_bins >= 1,
    ensures
        r == (spec_hash(id as u64) as usize) % num_bins,
        r < num_bins,
{
    proof {
        lemma_mod_division_less_than_divisor(
            spec_hash(id as u64) as usize as int,
            num_bins as int,
        );
    }
    hash_usize(id) % num_bins
}

/// How many bucket entries a machine with `cpus` CPUs gets: four per CPU,
/// at least four, and capped so the count stays a machine word.
pub open spec fn spec_buckets_for(cpus: usize) -> int {
    if cpus == 0 {
        4
    } else if cpus > MAX_CPUS_FOR_SIZING {
        4 * MAX_CPUS_FOR_SIZING
    } else {
        4 * cpus
    }
}

/// Sizes the bucket array for a reported CPU count.
pub fn buckets_for(cpus: usize) -> (r: usize)
    ensures
        r == spec_buckets_for(cpus),
        4 <= r,
        r % 4 == 0,
{
    let capped = if cpus == 0 {
        1
    } else if cpus > MAX_CPUS_FOR_SIZING {
        MAX_CPUS_FOR_SIZING
    } else {
        cpus
    };
    proof {
        lemma_mod_multiples_basic(capped as int, 4);
    }
    4 * capped
}

/// Relies on num_cpus::get: the number of logical CPUs available to this
/// process, which is always at least 1.
#[verifier::external_body]
fn cpu_count() -> (r: usize)
    ensures
        1 <= r,
{
    num_cpus::get()
}

/// The number of bucket entries for this machine: four per CPU.
pub fn num_thread_buckets() -> (r: usize)
    ensures
        4 <= r,
        r % 4 == 0,
{
    let cpus = cpu_count();
    buckets_for(cpus)
}

} // verus!
