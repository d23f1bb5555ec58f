//! The framing of a safetensors file: eight little-endian bytes giving the length of the
//! JSON header, the header, then the tensor data. The safetensors crate adds the end of the
//! tensor data that the header declares to the header's length without an overflow check;
//! this module decides, before a file is handed to the crate, whether that addition would
//! overflow.

use vstd::prelude::*;

verus! {

/// The longest header the safetensors crate reads; it refuses a file declaring a longer one
/// before parsing anything.
pub const MAX_HEADER_LEN: u64 = 100_000_000;

/// The header length a safetensors file declares in its first eight bytes (little-endian).
pub open spec fn declared_header_len(bytes: Seq<u8>) -> nat {
    bytes[0] as nat + 0x100 * bytes[1] as nat + 0x1_0000 * bytes[2] as nat + 0x100_0000
        * bytes[3] as nat + 0x1_0000_0000 * bytes[4] as nat + 0x100_0000_0000 * bytes[5] as nat
        + 0x1_0000_0000_0000 * bytes[6] as nat + 0x100_0000_0000_0000 * bytes[7] as nat
}

/// Where the tensor data declared by the JSON header `header` ends, as the safetensors crate
/// reads the header: the end offset of the last tensor when the header parses to the crate's
/// metadata and passes its validation, `None` otherwise.
pub uninterp spec fn metadata_data_end(header: Seq<u8>) -> Option<usize>;

/// Parses `header` with `serde_json::from_slice` into `safetensors::tensor::Metadata`, whose
/// `Deserialize` impl reads the header's map of tensors, sorts them by data offsets and
/// validates them (`Metadata::new`), and gives the parsed metadata's `data_len()`, the end
/// offset of the last tensor. The contract names that result and says nothing more of it.
#[verifier::external_body]
fn parse_data_end(header: &[u8]) -> (r: Option<usize>)
    ensures
        r == metadata_data_end(header@),
{
    match serde_json::from_slice::<safetensors::tensor::Metadata>(header) {
        Ok(metadata) => Some(metadata.data_len()),
        Err(_) => None,
    }
}

/// Whether the safetensors crate, reading the file `bytes`, reaches the addition of the data
/// end to the header length and overflows there: the file declares a header length the crate
/// accepts, the header fits in the file and parses to valid metadata, and the data end plus
/// the eight length bytes and the header length exceeds `usize::MAX`.
pub open spec fn data_end_overflows(bytes: Seq<u8>) -> bool {
    &&& bytes.len() >= 8
    &&& declared_header_len(bytes) <= MAX_HEADER_LEN
    &&& 8 + declared_header_len(bytes) <= bytes.len()
    &&& match metadata_data_end(bytes.subrange(8, 8 + declared_header_len(bytes) as int)) {
        Some(end) => end + 8 + declared_header_len(bytes) > usize::MAX,
        None => false,
    }
}

/// Whether reading the safetensors file `bytes` overflows where the crate adds the declared
/// data end to the header length.
pub fn header_overflows(bytes: &[u8]) -> (r: bool)
    ensures
        r == data_end_overflows(bytes@),
{
    let len = bytes.len();
    if len < 8 {
        return false;
    }
    let declared: u64 = bytes[0] as u64 + bytes[1] as u64 * 0x100 + bytes[2] as u64 * 0x1_0000
        + bytes[3] as u64 * 0x100_0000 + bytes[4] as u64 * 0x1_0000_0000 + bytes[5] as u64
        * 0x100_0000_0000 + bytes[6] as u64 * 0x1_0000_0000_0000 + bytes[7] as u64
        * 0x100_0000_0000_0000;
    assert(declared == declared_header_len(bytes@));
    if declared > MAX_HEADER_LEN {
        return false;
    }
    let n = declared as usize;
    if n > len - 8 {
        return false;
    }
    let header = vstd::slice::slice_subrange(bytes, 8, 8 + n);
    match parse_data_end(header) {
        None => false,
        Some(end) => end.checked_add(8 + n).is_none(),
    }
}

} // verus!
