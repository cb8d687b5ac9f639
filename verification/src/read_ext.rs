use vstd::prelude::*;

verus! {

/// The value of the little-endian 32-bit unsigned integer stored at byte
/// offset `off` of `b`.
pub open spec fn le32_at(b: Seq<u8>, off: int) -> int {
    b[off] + b[off + 1] * 0x100 + b[off + 2] * 0x1_0000 + b[off + 3] * 0x100_0000
}

/// A little-endian 32-bit value is never negative, wherever it is read
/// from: every byte is non-negative and every place value positive.
pub proof fn lemma_le32_at_nonneg(b: Seq<u8>, off: int)
    ensures
        le32_at(b, off) >= 0,
{
}

/// Reads the little-endian `u32` stored at byte offset `off` of `data`.
pub fn read_u32_at(data: &[u8], off: usize) -> (r: u32)
    requires
        off + 4 <= data@.len(),
    ensures
        r == le32_at(data@, off as int),
{
    let b0 = data[off] as u32;
    let b1 = data[off + 1] as u32;
    let b2 = data[off + 2] as u32;
    let b3 = data[off + 3] as u32;
    b0 + b1 * 0x100 + b2 * 0x1_0000 + b3 * 0x100_0000
}

/// Relies on `str::from_utf8` followed by `str::to_owned`: succeeds exactly
/// on valid UTF-8 input and returns its decoding as an owned string.
#[verifier::external_body]
pub(crate) fn utf8_to_string(b: &[u8]) -> (r: Option<String>)
    ensures
        r is Some <==> vstd::utf8::valid_utf8(b@),
        r is Some ==> r.unwrap()@ == vstd::utf8::decode_utf8(b@),
{
    match core::str::from_utf8(b) {
        Ok(s) => Some(s.to_owned()),
        Err(_) => None,
    }
}

} // verus!
