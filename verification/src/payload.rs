//! The capture payload of the desktop client: a packet's samples as 32-bit
//! floats, in base64.

use crate::format::{encoding_of, SampleEncoding};
use crate::framer::{le_bytes, samples_to_le_bytes};
use crate::normalize::{is_normalized, normalize_bytes, RawChunk};
use base64::Engine;
use vstd::prelude::*;

verus! {

/// What the standard base64 alphabet with padding gives for a byte sequence.
pub uninterp spec fn base64_standard(bytes: Seq<u8>) -> Seq<char>;

/// Whether the encoded length of `len` bytes fits the machine: four
/// characters for every three bytes begun.
pub open spec fn encodable(len: int) -> bool {
    (len / 3 + 1) * 4 <= usize::MAX
}

/// Calls `Engine::encode` on `base64::engine::general_purpose::STANDARD`. The
/// text depends on the bytes alone and the contract names it. The call
/// panics when the encoded length overflows, which the precondition leaves
/// out.
#[verifier::external_body]
pub(crate) fn encode_standard(bytes: &[u8]) -> (text: String)
    requires
        encodable(bytes@.len() as int),
    ensures
        text@ == base64_standard(bytes@),
{
    base64::engine::general_purpose::STANDARD.encode(bytes)
}

/// Whether `bytes` are what goes out for a packet: float packets, and those
/// of a depth that is not known, go out as they are; integer packets go out
/// as the little-endian bytes of their normalized samples.
pub open spec fn is_payload(data: Seq<u8>, encoding: SampleEncoding, bytes: Seq<u8>) -> bool {
    match encoding {
        SampleEncoding::Float32 | SampleEncoding::Unsupported => bytes == data,
        SampleEncoding::Pcm16 | SampleEncoding::Pcm24 => exists|samples: Seq<u32>| #[trigger]
            is_normalized(data, encoding, samples) && bytes == le_bytes(samples),
    }
}

/// The bytes that go out for a packet.
pub fn payload_bytes(chunk: &RawChunk) -> (bytes: Vec<u8>)
    ensures
        is_payload(chunk.data@, encoding_of(chunk.format), bytes@),
{
    let encoding = chunk.format.encoding();
    match encoding {
        SampleEncoding::Float32 | SampleEncoding::Unsupported => {
            let mut bytes: Vec<u8> = Vec::new();
            let mut i: usize = 0;
            while i < chunk.data.len()
                invariant
                    i <= chunk.data@.len(),
                    bytes@ == chunk.data@.subrange(0, i as int),
                decreases chunk.data@.len() - i,
            {
                bytes.push(chunk.data[i]);
                i += 1;
                assert(bytes@ =~= chunk.data@.subrange(0, i as int));
            }
            assert(chunk.data@.subrange(0, i as int) =~= chunk.data@);
            bytes
        },
        SampleEncoding::Pcm16 | SampleEncoding::Pcm24 => {
            let samples = normalize_bytes(chunk.data.as_slice(), encoding);
            samples_to_le_bytes(samples.as_slice())
        },
    }
}

/// Whether the bytes can be encoded on this machine.
pub fn can_encode(bytes: &[u8]) -> (fits: bool)
    ensures
        fits == encodable(bytes@.len() as int),
{
    bytes.len() / 3 < usize::MAX / 4
}

/// The payload of a packet: its bytes in base64, or `None` where the text
/// would be too long for the machine.
pub fn capture_payload(chunk: &RawChunk) -> (text: Option<String>)
    ensures
        match text {
            Some(t) => exists|bytes: Seq<u8>| #[trigger]
                is_payload(chunk.data@, encoding_of(chunk.format), bytes) && encodable(
                    bytes.len() as int,
                ) && t@ == base64_standard(bytes),
            None => exists|bytes: Seq<u8>| #[trigger]
                is_payload(chunk.data@, encoding_of(chunk.format), bytes) && !encodable(
                    bytes.len() as int,
                ),
        },
{
    let bytes = payload_bytes(chunk);
    if can_encode(bytes.as_slice()) {
        Some(encode_standard(bytes.as_slice()))
    } else {
        None
    }
}

} // verus!
