//! Capture formats: what the operating system reports, and what the pipeline
//! captures with.

use vstd::prelude::*;

verus! {

/// Format tag of IEEE float PCM.
pub const WAVE_FORMAT_IEEE_FLOAT: u16 = 3;

/// Format tag that defers to the sub-format identifier.
pub const WAVE_FORMAT_EXTENSIBLE: u16 = 0xFFFE;

/// Sample rate of the canonical format, in Hz.
pub const TARGET_RATE: u32 = 48000;

/// Channel count of the canonical format.
pub const TARGET_CHANNELS: u32 = 2;

/// The mix format as the audio client reports it.
#[derive(Clone, Copy, Debug, PartialEq, Eq)]
pub struct MixFormat {
    pub format_tag: u16,
    pub channels: u16,
    pub samples_per_sec: u32,
    pub bits_per_sample: u16,
    pub block_align: u16,
    /// First 32 bits of the sub-format identifier; read only under
    /// `WAVE_FORMAT_EXTENSIBLE`.
    pub sub_format: u32,
}

/// The format a capture session runs under, fixed once the session starts.
#[derive(Clone, Copy, Debug, PartialEq, Eq)]
pub struct CaptureFormat {
    pub sample_rate: u32,
    pub channels: u32,
    pub is_float: bool,
    pub bits_per_sample: u16,
    /// Bytes per frame: one sample for every channel.
    pub block_align: u32,
}

/// Where a session's format came from.
#[derive(Clone, Copy, Debug, PartialEq, Eq)]
pub enum FormatSource {
    /// The audio client reported its mix format.
    Native,
    /// The query failed and the assumed format stands in.
    Fallback,
}

/// How the bytes of a packet are turned into samples.
#[derive(Clone, Copy, Debug, PartialEq, Eq)]
pub enum SampleEncoding {
    /// Native 32-bit float: each four bytes are one sample as they are.
    Float32,
    /// Signed 16-bit integers, scaled by 1/32768.
    Pcm16,
    /// Signed 24-bit integers, scaled by 1/8388608.
    Pcm24,
    /// A depth the pipeline does not know: the bytes are read as 32-bit floats,
    /// which keeps the stream alive but may distort it.
    Unsupported,
}

/// Whether a mix format carries IEEE float samples.
pub open spec fn mix_is_float(mix: MixFormat) -> bool {
    mix.format_tag == WAVE_FORMAT_IEEE_FLOAT || (mix.format_tag == WAVE_FORMAT_EXTENSIBLE
        && mix.sub_format == 3)
}

/// The capture format that a reported mix format gives.
pub open spec fn native_format(mix: MixFormat) -> CaptureFormat {
    CaptureFormat {
        sample_rate: mix.samples_per_sec,
        channels: mix.channels as u32,
        is_float: mix_is_float(mix),
        bits_per_sample: mix.bits_per_sample,
        block_align: mix.block_align as u32,
    }
}

/// The format assumed when the query fails: 48 kHz, stereo, 32-bit float.
pub open spec fn fallback_format() -> CaptureFormat {
    CaptureFormat {
        sample_rate: 48000,
        channels: 2,
        is_float: true,
        bits_per_sample: 32,
        block_align: 8,
    }
}

/// The encoding that a capture format selects.
pub open spec fn encoding_of(format: CaptureFormat) -> SampleEncoding {
    if format.is_float {
        SampleEncoding::Float32
    } else if format.bits_per_sample == 16 {
        SampleEncoding::Pcm16
    } else if format.bits_per_sample == 24 {
        SampleEncoding::Pcm24
    } else {
        SampleEncoding::Unsupported
    }
}

impl MixFormat {
    /// Whether the samples are IEEE floats: by the tag itself, or under the
    /// extensible tag by the sub-format.
    pub fn is_float(&self) -> (float: bool)
        ensures
            float == mix_is_float(*self),
    {
        if self.format_tag == WAVE_FORMAT_IEEE_FLOAT {
            true
        } else if self.format_tag == WAVE_FORMAT_EXTENSIBLE {
            self.sub_format == 3
        } else {
            false
        }
    }
}

impl CaptureFormat {
    /// The assumed format for a session whose mix format could not be read.
    pub fn fallback() -> (format: CaptureFormat)
        ensures
            format == fallback_format(),
    {
        let channels: u32 = 2;
        let bits: u16 = 32;
        CaptureFormat {
            sample_rate: 48000,
            channels,
            is_float: true,
            bits_per_sample: bits,
            block_align: channels * (bits as u32) / 8,
        }
    }

    /// Whether this is the canonical 48 kHz stereo layout.
    pub fn is_canonical(&self) -> (canonical: bool)
        ensures
            canonical == (self.sample_rate == TARGET_RATE && self.channels == TARGET_CHANNELS),
    {
        self.sample_rate == TARGET_RATE && self.channels == TARGET_CHANNELS
    }

    /// The encoding this format selects.
    pub fn encoding(&self) -> (encoding: SampleEncoding)
        ensures
            encoding == encoding_of(*self),
    {
        if self.is_float {
            SampleEncoding::Float32
        } else if self.bits_per_sample == 16 {
            SampleEncoding::Pcm16
        } else if self.bits_per_sample == 24 {
            SampleEncoding::Pcm24
        } else {
            SampleEncoding::Unsupported
        }
    }
}

impl SampleEncoding {
    /// Whether this is the lossy fallback for an unknown depth.
    pub fn is_fallback(&self) -> (fallback: bool)
        ensures
            fallback == (*self == SampleEncoding::Unsupported),
    {
        match self {
            SampleEncoding::Unsupported => true,
            _ => false,
        }
    }
}

/// Settles the session's format: the reported mix format where there is one,
/// else the assumed format.
pub fn negotiate_format(mix: Option<MixFormat>) -> (negotiated: (CaptureFormat, FormatSource))
    ensures
        mix is Some ==> negotiated == (native_format(mix->Some_0), FormatSource::Native),
        mix is None ==> negotiated == (fallback_format(), FormatSource::Fallback),
{
    match mix {
        Some(m) => (
            CaptureFormat {
                sample_rate: m.samples_per_sec,
                channels: m.channels as u32,
                is_float: m.is_float(),
                bits_per_sample: m.bits_per_sample,
                block_align: m.block_align as u32,
            },
            FormatSource::Native,
        ),
        None => (CaptureFormat::fallback(), FormatSource::Fallback),
    }
}

} // verus!
