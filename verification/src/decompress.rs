use vstd::prelude::*;

use crate::error::PxoError;
use crate::read_ext::{le32_at, read_u32_at, utf8_to_string};

verus! {

/// The four magic bytes every container starts with: the ASCII tag "GCPF".
pub open spec fn magic_bytes() -> Seq<u8> {
    seq![0x47u8, 0x43u8, 0x50u8, 0x46u8]
}

/// The only compression mode the decoder accepts.
pub open spec fn supported_mode() -> int {
    2
}

/// What `zstd` decompresses one compressed block to: `Some` of the
/// decompressed bytes when the block is well-formed, `None` otherwise.
pub uninterp spec fn zstd_decode(b: Seq<u8>) -> Option<Seq<u8>>;

/// Relies on `zstd::decode_all`: decompresses a whole zstd stream of
/// frames, a pure function of the input bytes, failing on malformed
/// input.
#[verifier::external_body]
fn decode_block(b: &[u8]) -> (r: Result<Vec<u8>, PxoError>)
    ensures
        r.is_ok() <==> zstd_decode(b@) is Some,
        r.is_ok() ==> r.unwrap()@ == zstd_decode(b@).unwrap(),
{
    match zstd::decode_all(b) {
        Ok(v) => Ok(v),
        Err(_) => Err(PxoError::ReadFile),
    }
}

/// The uncompressed bytes each block holds, except possibly the last.
pub open spec fn spec_block_size(b: Seq<u8>) -> int {
    le32_at(b, 8)
}

/// The total number of uncompressed payload bytes the header declares.
pub open spec fn spec_total_size(b: Seq<u8>) -> int {
    le32_at(b, 12)
}

/// How many blocks the container holds. The trailing `+ 1` covers a final
/// partial block and is part of the wire format: it yields one extra block
/// even when `total_size` is an exact multiple of `block_size`.
pub open spec fn spec_block_count(b: Seq<u8>) -> int {
    spec_total_size(b) / spec_block_size(b) + 1
}

/// The compressed length the block table declares for block `i`.
pub open spec fn spec_comp_len(b: Seq<u8>, i: int) -> int {
    le32_at(b, 16 + 4 * i)
}

/// The byte offset at which block `i`'s compressed bytes start: the block
/// table ends at `16 + 4 * block_count`, and blocks lie back-to-back after
/// it.
pub open spec fn spec_block_start(b: Seq<u8>, i: int) -> int
    decreases i,
{
    if i <= 0 {
        16 + 4 * spec_block_count(b)
    } else {
        spec_block_start(b, i - 1) + spec_comp_len(b, i - 1)
    }
}

/// The compressed bytes of block `i`.
pub open spec fn spec_block_bytes(b: Seq<u8>, i: int) -> Seq<u8> {
    b.subrange(spec_block_start(b, i), spec_block_start(b, i) + spec_comp_len(b, i))
}

/// The fixed-size header is present and valid: magic tag, supported
/// compression mode, and a non-zero block size.
pub open spec fn header_ok(b: Seq<u8>) -> bool {
    &&& b.len() >= 16
    &&& b.subrange(0, 4) == magic_bytes()
    &&& le32_at(b, 4) == supported_mode()
    &&& spec_block_size(b) != 0
}

/// The header is valid and the input is long enough to hold the whole block
/// table and every compressed block it declares.
pub open spec fn blocks_present(b: Seq<u8>) -> bool {
    &&& header_ok(b)
    &&& spec_block_start(b, spec_block_count(b)) <= b.len()
}

/// Every declared block decompresses.
pub open spec fn blocks_decode(b: Seq<u8>) -> bool {
    forall|i: int|
        0 <= i < spec_block_count(b) ==> (#[trigger] zstd_decode(spec_block_bytes(b, i))) is Some
}

/// The whole container decodes: header, block table, block data and
/// per-block decompression all succeed.
pub open spec fn decompress_ok(b: Seq<u8>) -> bool {
    blocks_present(b) && blocks_decode(b)
}

/// The concatenation of the decompressed bytes of the first `i` blocks.
pub open spec fn spec_payload_upto(b: Seq<u8>, i: int) -> Seq<u8>
    decreases i,
{
    if i <= 0 {
        Seq::empty()
    } else {
        spec_payload_upto(b, i - 1) + zstd_decode(spec_block_bytes(b, i - 1)).unwrap()
    }
}

/// The full decompressed payload: all blocks' decompressed bytes, in order.
pub open spec fn spec_payload(b: Seq<u8>) -> Seq<u8> {
    spec_payload_upto(b, spec_block_count(b))
}

/// The sum of the decompressed lengths of the first `i` blocks.
pub open spec fn spec_decoded_len_sum(b: Seq<u8>, i: int) -> int
    decreases i,
{
    if i <= 0 {
        0
    } else {
        spec_decoded_len_sum(b, i - 1) + zstd_decode(spec_block_bytes(b, i - 1)).unwrap().len()
    }
}

/// The payload of a valid container is exactly as long as the sum of its
/// blocks' decompressed lengths, and the block count follows the header
/// formula `total_size / block_size + 1`.
pub proof fn lemma_payload_length(b: Seq<u8>)
    requires
        decompress_ok(b),
    ensures
        spec_payload(b).len() == spec_decoded_len_sum(b, spec_block_count(b)),
        spec_block_count(b) == spec_total_size(b) / spec_block_size(b) + 1,
{
    lemma_payload_upto_length(b, spec_block_count(b));
}

proof fn lemma_payload_upto_length(b: Seq<u8>, i: int)
    requires
        blocks_decode(b),
        i <= spec_block_count(b),
    ensures
        spec_payload_upto(b, i).len() == spec_decoded_len_sum(b, i),
    decreases i,
{
    if i > 0 {
        lemma_payload_upto_length(b, i - 1);
    }
}

/// Block start offsets never decrease: each block lies at or after every
/// earlier one.
proof fn lemma_block_start_mono(b: Seq<u8>, i: int, j: int)
    requires
        0 <= i <= j,
    ensures
        spec_block_start(b, i) <= spec_block_start(b, j),
    decreases j - i,
{
    if i < j {
        lemma_block_start_mono(b, i, j - 1);
        crate::read_ext::lemma_le32_at_nonneg(b, 16 + 4 * (j - 1));
    }
}

/// Decodes a whole container: checks the magic tag, compression mode and
/// block size, reads the block table, then decompresses every block and
/// concatenates the results in order.
///
/// Succeeds exactly on inputs whose header, block table and blocks are all
/// valid, and then returns the payload `spec_payload` describes. Each way
/// the input can be malformed maps to the specific error stated below.
pub fn decompress(data: &[u8]) -> (r: Result<Vec<u8>, PxoError>)
    ensures
        r.is_ok() <==> decompress_ok(data@),
        r.is_ok() ==> r.unwrap()@ == spec_payload(data@),
        data@.len() < 4 ==> r matches Err(PxoError::ReadFile),
        data@.len() >= 4 && data@.subrange(0, 4) != magic_bytes() && !vstd::utf8::valid_utf8(
            data@.subrange(0, 4),
        ) ==> r matches Err(PxoError::ReadUtf8),
        data@.len() >= 4 && data@.subrange(0, 4) != magic_bytes() && vstd::utf8::valid_utf8(
            data@.subrange(0, 4),
        ) ==> (r matches Err(PxoError::UnexpectedMagic(expected, actual)) && expected@ == "GCPF"@
            && actual@ == vstd::utf8::decode_utf8(data@.subrange(0, 4))),
        data@.subrange(0, 4) == magic_bytes() && data@.len() < 8 ==> r matches Err(
            PxoError::ReadFile,
        ),
        data@.len() >= 8 && data@.subrange(0, 4) == magic_bytes() && le32_at(data@, 4)
            != supported_mode() ==> (r matches Err(PxoError::UnexpectedCompressionMode(m)) && m
            == le32_at(data@, 4)),
        data@.len() >= 8 && data@.subrange(0, 4) == magic_bytes() && le32_at(data@, 4)
            == supported_mode() && data@.len() < 12 ==> r matches Err(PxoError::ReadFile),
        data@.len() >= 12 && data@.subrange(0, 4) == magic_bytes() && le32_at(data@, 4)
            == supported_mode() && spec_block_size(data@) == 0 ==> r matches Err(
            PxoError::ZeroBlockSize,
        ),
        header_ok(data@) && !decompress_ok(data@) ==> r matches Err(PxoError::ReadFile),
{
    if data.len() < 4 {
        return Err(PxoError::ReadFile);
    }
    if !(data[0] == 0x47 && data[1] == 0x43 && data[2] == 0x50 && data[3] == 0x46) {
        proof {
            assert(data@.subrange(0, 4) != magic_bytes()) by {
                if data@.subrange(0, 4) == magic_bytes() {
                    assert(data@.subrange(0, 4)[0] == 0x47u8);
                    assert(data@.subrange(0, 4)[1] == 0x43u8);
                    assert(data@.subrange(0, 4)[2] == 0x50u8);
                    assert(data@.subrange(0, 4)[3] == 0x46u8);
                }
            }
        }
        let actual = match utf8_to_string(&data[0..4]) {
            Some(s) => s,
            None => {
                return Err(PxoError::ReadUtf8);
            },
        };
        return Err(PxoError::UnexpectedMagic("GCPF".to_owned(), actual));
    }
    proof {
        assert(data@.subrange(0, 4) =~= magic_bytes());
    }
    if data.len() < 8 {
        return Err(PxoError::ReadFile);
    }
    let mode = read_u32_at(data, 4);
    if mode != 2 {
        return Err(PxoError::UnexpectedCompressionMode(mode));
    }
    if data.len() < 12 {
        return Err(PxoError::ReadFile);
    }
    let block_size = read_u32_at(data, 8);
    if block_size == 0 {
        return Err(PxoError::ZeroBlockSize);
    }
    if data.len() < 16 {
        return Err(PxoError::ReadFile);
    }
    let total_size = read_u32_at(data, 12);

    let bc64: u64 = (total_size / block_size) as u64 + 1;
    assert(bc64 == spec_block_count(data@));

    // The whole block table must be present.
    let table_end_64: u64 = 16u64 + 4u64 * bc64;
    assert(table_end_64 == spec_block_start(data@, 0));
    if table_end_64 > data.len() as u64 {
        proof {
            lemma_block_start_mono(data@, 0, spec_block_count(data@));
        }
        return Err(PxoError::ReadFile);
    }
    let block_count: usize = bc64 as usize;
    let data_len: usize = data.len();

    let mut sizes: Vec<u32> = Vec::new();
    let mut i: usize = 0;
    while i < block_count
        invariant
            i <= block_count,
            block_count == spec_block_count(data@),
            16 + 4 * block_count <= data@.len(),
            data@.len() == data_len,
            sizes@.len() == i,
            forall|k: int| 0 <= k < i ==> sizes@[k] == spec_comp_len(data@, k),
        decreases block_count - i,
    {
        let sz = read_u32_at(data, 16 + 4 * i);
        sizes.push(sz);
        i = i + 1;
    }

    let mut out: Vec<u8> = Vec::new();
    let mut offset: usize = 16 + 4 * block_count;
    let mut b: usize = 0;
    while b < block_count
        invariant
            b <= block_count,
            block_count == spec_block_count(data@),
            header_ok(data@),
            sizes@.len() == block_count,
            forall|k: int| 0 <= k < block_count ==> sizes@[k] == spec_comp_len(data@, k),
            offset == spec_block_start(data@, b as int),
            offset <= data@.len(),
            forall|k: int| 0 <= k < b ==> (#[trigger] zstd_decode(spec_block_bytes(data@, k))) is Some,
            out@ == spec_payload_upto(data@, b as int),
        decreases block_count - b,
    {
        let cl = sizes[b] as usize;
        if data.len() - offset < cl {
            proof {
                assert(spec_block_start(data@, b + 1) == offset + cl);
                lemma_block_start_mono(data@, b as int + 1, spec_block_count(data@));
            }
            return Err(PxoError::ReadFile);
        }
        let block = &data[offset..offset + cl];
        assert(block@ == spec_block_bytes(data@, b as int));
        let mut decoded = match decode_block(block) {
            Ok(v) => v,
            Err(e) => {
                return Err(PxoError::ReadFile);
            },
        };
        out.append(&mut decoded);
        offset = offset + cl;
        b = b + 1;
    }
    Ok(out)
}

} // verus!
