//! The continuous audit: a randomized challenge-response check that
//! stored data is still present and readable within a time bound.
//!
//! The verified core computes the challenge, the byte window to read,
//! and the pass/fail verdict; the surrounding program picks the node,
//! reads the window from disk, and runs the periodic loop.

use vstd::prelude::*;
use crate::bytes::append_bytes;
use crate::bytes::copy_range;
use crate::crypto::sha256;
use crate::crypto::sha256_of;
use crate::platform::random_bytes_16;
use crate::platform::random_below;

verus! {

/// How long a node has to answer a challenge, in seconds.
pub const CHALLENGE_TIMEOUT_SECS: u64 = 30;

/// How many bytes of the audited file a challenge covers.
pub const CHALLENGE_WINDOW_BYTES: u64 = 100;

/// A lowercase letter for each seed byte.
pub open spec fn challenge_chars(seed: Seq<u8>) -> Seq<u8> {
    seed.map_values(|b: u8| ((b % 26) + 97) as u8)
}

/// A ten-letter lowercase challenge word, as bytes, from the random
/// source.
pub fn generate_random_challenge() -> (r: Vec<u8>)
    ensures
        r@.len() == 10,
        forall|i: int| 0 <= i < r@.len() ==> 97 <= #[trigger] r@[i] <= 122,
{
    let seed = random_bytes_16();
    let mut out: Vec<u8> = Vec::new();
    let mut i: usize = 0;
    while i < 10
        invariant
            i <= 10,
            seed@.len() == 16,
            out@.len() == i,
            forall|j: int| 0 <= j < out@.len() ==> 97 <= #[trigger] out@[j] <= 122,
        decreases 10 - i,
    {
        out.push((seed[i] % 26) + 97);
        i = i + 1;
    }
    out
}

/// The byte window a challenge reads: as much of the requested width as
/// the file allows, at an offset drawn from the random source and
/// clamped so the window fits within the file.
pub fn challenge_window(file_size: u64, window: u64) -> (r: (u64, u64))
    ensures
        r.1 == if window <= file_size {
            window
        } else {
            file_size
        },
        r.0 + r.1 <= file_size,
{
    let len = if window <= file_size {
        window
    } else {
        file_size
    };
    if file_size > len {
        let start = random_below(file_size - len);
        (start, len)
    } else {
        (0, len)
    }
}

/// The challenge response: a keyed digest over the byte window followed
/// by the challenge word.
pub fn generate_hash(file_part: &Vec<u8>, challenge: &Vec<u8>) -> (r: Vec<u8>)
    ensures
        r@ == sha256_of(file_part@ + challenge@),
        r@.len() == 32,
{
    let mut buf = copy_range(file_part, 0, file_part.len());
    append_bytes(&mut buf, challenge);
    proof {
        assert(buf@ =~= file_part@ + challenge@);
    }
    sha256(buf.as_slice())
}

/// A challenge passes exactly when the response was produced within the
/// timeout.
pub fn audit_verdict(elapsed_secs: u64, timeout_secs: u64) -> (r: bool)
    ensures
        r <==> elapsed_secs <= timeout_secs,
{
    elapsed_secs <= timeout_secs
}

/// One audit evaluation: the response hash over the read window and the
/// challenge word, and whether it came within the timeout. The verdict
/// affects no other component's state.
pub fn proof_of_spacetime(
    window: &Vec<u8>,
    challenge: &Vec<u8>,
    elapsed_secs: u64,
    timeout_secs: u64,
) -> (r: (Vec<u8>, bool))
    ensures
        r.0@ == sha256_of(window@ + challenge@),
        r.1 <==> elapsed_secs <= timeout_secs,
{
    let hash = generate_hash(window, challenge);
    let passed = audit_verdict(elapsed_secs, timeout_secs);
    (hash, passed)
}

} // verus!
