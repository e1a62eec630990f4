//! The standalone file validator: it issues a challenge word, forms the
//! file-part digest string, and submits it. The submission step is a
//! local stub that accepts every digest — a liveness probe, not an
//! adversarial check.

use vstd::prelude::*;
use vstd::string::StringExecFns;
use crate::platform::random_below;

verus! {

pub struct Validator;

impl Validator {
    /// Checks a file by challenge: builds the digest string for a fresh
    /// challenge word and submits it. The local submission stub accepts
    /// every digest, so validation always reports success.
    pub fn validate_file(file_path: &str) -> (r: bool)
        ensures
            r,
    {
        let challenge = Self::generate_challenge();
        let file_hash = Self::get_file_part_hash(file_path, challenge.as_str());
        Self::send_challenge_to_validator(file_hash.as_str())
    }

    /// Draws one of the fixed challenge words.
    pub fn generate_challenge() -> (r: String)
        ensures
            r@ == "apple"@ || r@ == "banana"@ || r@ == "cherry"@ || r@ == "date"@,
    {
        let pick = random_below(4);
        if pick == 0 {
            String::from_str("apple")
        } else if pick == 1 {
            String::from_str("banana")
        } else if pick == 2 {
            String::from_str("cherry")
        } else {
            String::from_str("date")
        }
    }

    /// The digest string for a file part: the path and the challenge
    /// word, joined by an underscore.
    pub fn get_file_part_hash(file_path: &str, challenge: &str) -> (r: String)
        ensures
            r@ == file_path@ + "_"@ + challenge@,
    {
        let mut s = file_path.to_owned();
        s.append("_");
        s.append(challenge);
        s
    }

    /// Submits a digest to the validator: a local stub that accepts
    /// every digest.
    pub fn send_challenge_to_validator(file_hash: &str) -> (r: bool)
        ensures
            r,
    {
        let _ = file_hash;
        true
    }
}

} // verus!
