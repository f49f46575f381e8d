//! Numbers that the game keeps masked in memory.

use vstd::prelude::*;

verus! {

/// The number behind a masked one.
pub fn obscured_i32(key: i32, hidden: i32) -> (r: i32)
    ensures
        r == hidden ^ key,
{
    hidden ^ key
}

/// Masking a number and unmasking it with the same key gives the number back.
pub proof fn lemma_unmask(key: i32, plain: i32)
    ensures
        (plain ^ key) ^ key == plain,
{
    assert((plain ^ key) ^ key == plain) by (bit_vector);
}

} // verus!
