//! Words as the bytes that a graphics device reads.

use vstd::prelude::*;

verus! {

use crate::bytes::le4;

/// The four bytes of a word, highest first.
pub open spec fn be4(x: u32) -> Seq<u8> {
    seq![
        (x / 16777216) as u8,
        (x / 65536 % 256) as u8,
        (x / 256 % 256) as u8,
        (x % 256) as u8,
    ]
}

/// `b` are the bytes of the words one after the other, each in the machine's order.
pub open spec fn packed(w: Seq<u32>, b: Seq<u8>) -> bool {
    &&& b.len() == 4 * w.len()
    &&& (forall|i: int|
        #![trigger w[i]]
        0 <= i < w.len() ==> b.subrange(4 * i, 4 * i + 4) == le4(w[i])) || (forall|i: int|
        #![trigger w[i]]
        0 <= i < w.len() ==> b.subrange(4 * i, 4 * i + 4) == be4(w[i]))
}

/// `bytemuck::cast_slice` from words to bytes, copied. It reads the same memory as
/// bytes: four for each word, in the machine's own order, which is the same for all
/// words. From words to bytes it cannot fail: bytes need no alignment and their
/// number always comes out even.
#[verifier::external_body]
pub(crate) fn bytes_of_words(w: &[u32]) -> (b: Vec<u8>)
    ensures
        packed(w@, b@),
{
    bytemuck::cast_slice::<u32, u8>(w).to_vec()
}

} // verus!
