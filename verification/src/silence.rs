//! Silence classification.
//!
//! In 32-bit linear PCM the all-zero bit pattern is the only encoding of
//! "no signal", so a byte-wise test for zero is exact for that format.

use vstd::prelude::*;

verus! {

/// Every byte of `bytes` is zero.
pub open spec fn all_zero(bytes: Seq<u8>) -> bool {
    forall|i: int| 0 <= i < bytes.len() ==> bytes[i] == 0u8
}

/// Tells whether `bin` carries no signal: `true` exactly when every byte is
/// zero. The scan stops at the first byte that is not.
pub fn is_silence(bin: &[u8]) -> (silent: bool)
    ensures
        silent <==> all_zero(bin@),
{
    let mut i: usize = 0;
    while i < bin.len()
        invariant
            i <= bin@.len(),
            forall|j: int| 0 <= j < i ==> bin@[j] == 0u8,
        decreases bin@.len() - i,
    {
        if bin[i] != 0 {
            return false;
        }
        i += 1;
    }
    true
}

/// A sequence with a byte that is not zero is never silent.
pub proof fn lemma_nonzero_byte_breaks_silence(bytes: Seq<u8>, at: int)
    requires
        0 <= at < bytes.len(),
        bytes[at] != 0u8,
    ensures
        !all_zero(bytes),
{
}

} // verus!
