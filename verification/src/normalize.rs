//! The format normalizer: packet bytes to 32-bit float samples.

use crate::format::{encoding_of, CaptureFormat, SampleEncoding};
use crate::sample::{
    encodes_ratio, le_word, lemma_encoding_is_unique, pcm16_code, pcm16_from_le, pcm24_code,
    pcm24_from_le, scale_pcm, word_from_le, SILENCE,
};
use vstd::prelude::*;

verus! {

/// A chunk of captured audio in normalized samples.
#[derive(Debug)]
pub struct AudioChunk {
    /// Interleaved samples, each the bit pattern of a 32-bit float.
    pub samples: Vec<u32>,
    /// Sample rate in Hz.
    pub sample_rate: u32,
    /// Number of interleaved channels.
    pub channels: u32,
}

/// A packet as the capture client hands it over.
#[derive(Debug)]
pub struct RawChunk {
    /// The packet's bytes.
    pub data: Vec<u8>,
    /// Frames in the packet, as reported with it.
    pub frames: u32,
    /// The format the session runs under.
    pub format: CaptureFormat,
}

/// How many samples `len` bytes hold under an encoding; a trailing partial
/// sample is not counted.
pub open spec fn sample_count(len: int, encoding: SampleEncoding) -> int {
    match encoding {
        SampleEncoding::Float32 | SampleEncoding::Unsupported => len / 4,
        SampleEncoding::Pcm16 => len / 2,
        SampleEncoding::Pcm24 => len / 3,
    }
}

/// Whether `sample` is what the bytes at position `i` decode to.
pub open spec fn decodes_to(data: Seq<u8>, encoding: SampleEncoding, i: int, sample: u32) -> bool {
    match encoding {
        SampleEncoding::Float32 | SampleEncoding::Unsupported => sample == le_word(
            data[4 * i],
            data[4 * i + 1],
            data[4 * i + 2],
            data[4 * i + 3],
        ),
        SampleEncoding::Pcm16 => encodes_ratio(
            sample,
            pcm16_code(data[2 * i], data[2 * i + 1]),
            15,
        ),
        SampleEncoding::Pcm24 => encodes_ratio(
            sample,
            pcm24_code(data[3 * i], data[3 * i + 1], data[3 * i + 2]),
            23,
        ),
    }
}

/// Whether `samples` is the normalized form of `data` under `encoding`.
pub open spec fn is_normalized(data: Seq<u8>, encoding: SampleEncoding, samples: Seq<u32>) -> bool {
    &&& samples.len() == sample_count(data.len() as int, encoding)
    &&& forall|i: int| 0 <= i < samples.len() ==> decodes_to(data, encoding, i, #[trigger] samples[i])
}

/// The bytes of a packet have one normalized form under an encoding.
pub proof fn lemma_normalization_is_unique(
    data: Seq<u8>,
    encoding: SampleEncoding,
    a: Seq<u32>,
    b: Seq<u32>,
)
    requires
        is_normalized(data, encoding, a),
        is_normalized(data, encoding, b),
    ensures
        a == b,
{
    assert forall|i: int| 0 <= i < a.len() implies a[i] == b[i] by {
        assert(decodes_to(data, encoding, i, a[i]));
        assert(decodes_to(data, encoding, i, b[i]));
        match encoding {
            SampleEncoding::Pcm16 => {
                lemma_encoding_is_unique(a[i], b[i], pcm16_code(data[2 * i], data[2 * i + 1]), 15);
            },
            SampleEncoding::Pcm24 => {
                lemma_encoding_is_unique(
                    a[i],
                    b[i],
                    pcm24_code(data[3 * i], data[3 * i + 1], data[3 * i + 2]),
                    23,
                );
            },
            _ => {},
        }
    }
    assert(a =~= b);
}

/// How many samples a packet of `len` bytes holds under an encoding.
pub fn samples_in(len: usize, encoding: SampleEncoding) -> (count: usize)
    ensures
        count == sample_count(len as int, encoding),
{
    match encoding {
        SampleEncoding::Float32 | SampleEncoding::Unsupported => len / 4,
        SampleEncoding::Pcm16 => len / 2,
        SampleEncoding::Pcm24 => len / 3,
    }
}

/// Decodes the sample at position `i`; a position behind the last sample
/// reads as silence.
pub fn decode_sample(data: &[u8], encoding: SampleEncoding, i: usize) -> (sample: u32)
    ensures
        i < sample_count(data@.len() as int, encoding) ==> decodes_to(
            data@,
            encoding,
            i as int,
            sample,
        ),
        i >= sample_count(data@.len() as int, encoding) ==> sample == SILENCE,
{
    if i >= samples_in(data.len(), encoding) {
        return SILENCE;
    }
    match encoding {
        SampleEncoding::Float32 | SampleEncoding::Unsupported => word_from_le(
            data[4 * i],
            data[4 * i + 1],
            data[4 * i + 2],
            data[4 * i + 3],
        ),
        SampleEncoding::Pcm16 => scale_pcm(pcm16_from_le(data[2 * i], data[2 * i + 1]), 15),
        SampleEncoding::Pcm24 => scale_pcm(
            pcm24_from_le(data[3 * i], data[3 * i + 1], data[3 * i + 2]),
            23,
        ),
    }
}

/// Normalizes packet bytes under an encoding.
pub fn normalize_bytes(data: &[u8], encoding: SampleEncoding) -> (samples: Vec<u32>)
    ensures
        is_normalized(data@, encoding, samples@),
{
    let count = samples_in(data.len(), encoding);
    let mut samples: Vec<u32> = Vec::with_capacity(count);
    let mut i: usize = 0;
    while i < count
        invariant
            count == sample_count(data@.len() as int, encoding),
            i <= count,
            samples@.len() == i,
            forall|k: int| 0 <= k < i ==> decodes_to(data@, encoding, k, #[trigger] samples@[k]),
        decreases count - i,
    {
        let sample = decode_sample(data, encoding, i);
        samples.push(sample);
        i += 1;
    }
    samples
}

/// Normalizes one captured packet into a chunk of float samples. The rate and
/// channel count pass through unchanged.
pub fn normalize(chunk: &RawChunk) -> (out: AudioChunk)
    ensures
        is_normalized(chunk.data@, encoding_of(chunk.format), out.samples@),
        out.sample_rate == chunk.format.sample_rate,
        out.channels == chunk.format.channels,
{
    AudioChunk {
        samples: normalize_bytes(chunk.data.as_slice(), chunk.format.encoding()),
        sample_rate: chunk.format.sample_rate,
        channels: chunk.format.channels,
    }
}

} // verus!
