use vstd::bytes::spec_u32_to_le_bytes;
use vstd::prelude::*;

verus! {

/// The four bytes of `x`, least significant first (`little`) or most
/// significant first.
pub open spec fn word_bytes(x: u32, little: bool) -> Seq<u8> {
    if little {
        spec_u32_to_le_bytes(x)
    } else {
        spec_u32_to_le_bytes(x).reverse()
    }
}

/// The bytes of `words`, one word after another, each in the given order.
pub open spec fn u32s_bytes(words: Seq<u32>, little: bool) -> Seq<u8> {
    Seq::new(4 * words.len(), |i: int| word_bytes(words[i / 4], little)[i % 4])
}

/// `bytes` are the bytes of `words` in the machine's order: every word little
/// endian, or every word big endian.
pub open spec fn holds_u32s(bytes: Seq<u8>, words: Seq<u32>) -> bool {
    bytes == u32s_bytes(words, true) || bytes == u32s_bytes(words, false)
}

/// `bytemuck::cast_slice` from `u32` words to bytes, copied into a vector:
/// each word's four bytes in turn, in the machine's byte order, which is the
/// same for every word.
#[verifier::external_body]
pub(crate) fn u32_bytes(words: &[u32]) -> (r: Vec<u8>)
    ensures
        r@.len() == 4 * words@.len(),
        holds_u32s(r@, words@),
{
    bytemuck::cast_slice::<u32, u8>(words).to_vec()
}

} // verus!
