//! Telling binary files from text files by the start of their content.

use vstd::prelude::*;

verus! {

/// Number of leading bytes of a file that are looked at.
pub const SNIFF_LEN: usize = 1024;

/// Whether the first `SNIFF_LEN` bytes of `bytes` hold a zero byte.
pub open spec fn has_early_zero(bytes: Seq<u8>) -> bool {
    exists|i: int| 0 <= i < bytes.len() && i < SNIFF_LEN && #[trigger] bytes[i] == 0
}

/// Whether a file that starts with `head` is binary: whether one of its
/// first `SNIFF_LEN` bytes is zero.
pub fn is_binary(head: &[u8]) -> (binary: bool)
    ensures
        binary == has_early_zero(head@),
{
    let mut i: usize = 0;
    while i < head.len() && i < SNIFF_LEN
        invariant
            i <= head.len(),
            i <= SNIFF_LEN,
            forall|k: int| 0 <= k < i ==> #[trigger] head@[k] != 0,
        decreases head.len() - i,
    {
        if head[i] == 0 {
            return true;
        }
        i += 1;
    }
    false
}

} // verus!
