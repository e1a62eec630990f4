//! Trusted bindings to randomness, the clock, and platform queries.
//!
//! Nothing is assumed of these results beyond their shape: they depend on
//! chance, the time, or the machine, so every verified caller must hold
//! for every outcome.

use vstd::prelude::*;
use rand::Rng;

verus! {

/// Relies on `rand::Rng::gen` for a 16-byte array; nothing is assumed of
/// the values.
#[verifier::external_body]
pub(crate) fn random_bytes_16() -> (r: Vec<u8>)
    ensures
        r@.len() == 16,
{
    let bytes: [u8; 16] = rand::thread_rng().gen();
    bytes.to_vec()
}

/// Relies on `rand::distributions::Alphanumeric`: each sample is an ASCII
/// letter or digit, so thirty samples form a thirty-character string.
#[verifier::external_body]
pub(crate) fn random_alphanumeric_30() -> (r: String)
    ensures
        r@.len() == 30,
{
    rand::thread_rng().sample_iter(&rand::distributions::Alphanumeric).take(30).map(
        char::from,
    ).collect()
}

/// Relies on `rand::Rng::gen_range`: the sample lies below the bound.
#[verifier::external_body]
pub(crate) fn random_below(bound: u64) -> (r: u64)
    requires
        bound > 0,
    ensures
        r < bound,
{
    rand::thread_rng().gen_range(0..bound)
}

/// Relies on `std::time::SystemTime::now`: seconds since the Unix epoch,
/// or zero on a clock that reads earlier than the epoch.
#[verifier::external_body]
pub(crate) fn now_secs() -> (r: u64) {
    match std::time::SystemTime::now().duration_since(std::time::UNIX_EPOCH) {
        Ok(d) => d.as_secs(),
        Err(_) => 0,
    }
}

/// Relies on `sys_info::os_type`: the running kernel's name, which depends
/// on the machine.
#[verifier::external_body]
pub(crate) fn os_type_name() -> (r: Option<String>) {
    match sys_info::os_type() {
        Ok(name) => Some(name),
        Err(_) => None,
    }
}

} // verus!
