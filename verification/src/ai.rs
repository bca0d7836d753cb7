//! DevilGuard heuristics: rug-pull markers in contract code and too-short
//! (spam) addresses.

use vstd::prelude::*;
use vstd::utf8::encode_utf8;
use crate::text::{contains, has_substring};

verus! {

pub struct DevilGuardAI;

impl DevilGuardAI {
    /// Contract code that can destroy itself or drain everything.
    pub fn detect_rug_pull(contract_code: &str) -> (r: bool)
        ensures
            r == (has_substring(contract_code@, "selfdestruct"@) || has_substring(contract_code@, "withdraw_all"@)),
    {
        contains(contract_code, "selfdestruct") || contains(contract_code, "withdraw_all")
    }

    /// An address shorter than 10 bytes.
    pub fn detect_spam_address(address: &str) -> (r: bool)
        ensures
            r == (encode_utf8(address@).len() < 10),
    {
        address.as_bytes().len() < 10
    }
}

} // verus!
