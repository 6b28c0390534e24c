//! Block headers in decoded form.
//!
//! Decoding a header and hashing it is the work of the Ethash primitives,
//! which this crate does not contain. The caller decodes and hands the result
//! over in the types of this module; the rules are then stated, and proved,
//! for whatever was handed over.

use vstd::prelude::*;

verus! {

/// What the rules read of a decoded block header.
#[derive(Clone, Copy, Debug)]
pub struct Header {
    /// Hash of the block before this one.
    pub parent_hash: [u8; 32],
    /// Height of the block.
    pub number: u64,
    /// Difficulty of the block, a 256-bit number in four limbs, least
    /// significant limb first.
    pub difficulty: [u64; 4],
    /// Hash of this header.
    pub hash: [u8; 32],
}

/// The number that four 64-bit limbs spell, least significant limb first.
pub open spec fn limbs_value(limbs: Seq<u64>) -> nat
    recommends
        limbs.len() == 4,
{
    (limbs[0] as nat) + 0x1_0000_0000_0000_0000 * (limbs[1] as nat)
        + 0x1_0000_0000_0000_0000_0000_0000_0000_0000 * (limbs[2] as nat)
        + 0x1_0000_0000_0000_0000_0000_0000_0000_0000_0000_0000_0000_0000 * (limbs[3] as nat)
}

impl Header {
    /// The difficulty as a number.
    pub open spec fn difficulty_value(&self) -> nat {
        limbs_value(self.difficulty@)
    }

    /// The difficulty, if it fits in 64 bits. Totals of difficulty are kept
    /// in 64 bits, so a header whose own difficulty does not fit can never be
    /// added to one.
    pub fn difficulty_u64(&self) -> (small: Option<u64>)
        ensures
            small is Some <==> self.difficulty_value() <= u64::MAX,
            small matches Some(d) ==> d == self.difficulty_value(),
    {
        if self.difficulty[1] == 0 && self.difficulty[2] == 0 && self.difficulty[3] == 0 {
            Some(self.difficulty[0])
        } else {
            None
        }
    }
}

/// The headers of the input cell in decoded form, as far as the rules may need
/// them: the tip of the main chain, and the uncles.
///
/// An entry is `None` where the header could not be decoded. The rules look
/// at an entry only when they reach the header it belongs to, so a header
/// that cannot be decoded does no harm while nothing depends on it.
#[derive(Debug)]
pub struct DecodedHeaders {
    /// The header of the last entry of the main chain.
    pub main_tail: Option<Header>,
    /// The header of each uncle, in the order of the uncle pool.
    pub uncles: Vec<Option<Header>>,
}

impl DecodedHeaders {
    /// The decoded header of uncle `i`; `None` also where the table has no
    /// entry for it.
    pub open spec fn uncle(&self, i: int) -> Option<Header> {
        if 0 <= i < self.uncles@.len() {
            self.uncles@[i]
        } else {
            None
        }
    }

    /// The decoded header of uncle `i`.
    pub fn get_uncle(&self, i: usize) -> (found: Option<Header>)
        ensures
            found == self.uncle(i as int),
    {
        if i < self.uncles.len() {
            self.uncles[i]
        } else {
            None
        }
    }
}

} // verus!
