//! The framer: a rolling buffer of canonical samples, cut into fixed frames.

use crate::format::{TARGET_CHANNELS, TARGET_RATE};
use crate::format::SampleEncoding;
use crate::normalize::{decodes_to, is_normalized, AudioChunk};
use crate::resample::{convert_chunk, resampled};
use crate::sample::{word_le_bytes, word_to_le};
use vstd::arithmetic::div_mod::lemma_fundamental_div_mod_converse;
use vstd::prelude::*;

verus! {

/// Duration of one frame in milliseconds.
pub const FRAME_DURATION_MS: u32 = 20;

/// Samples of one channel in a frame: 48 000 Hz for 20 ms.
pub const SAMPLES_PER_CHANNEL: u32 = 960;

/// Interleaved samples in a frame: 960 for each of the two channels.
pub const FRAME_SAMPLES: usize = 1920;

/// Bytes of a frame on the wire: four for each sample.
pub const FRAME_BYTES: usize = 7680;

/// One 20 ms frame of canonical audio: 1920 interleaved samples, left first.
#[derive(Clone, Debug)]
pub struct AudioFrame {
    /// The samples, each the bit pattern of a 32-bit float.
    pub data: Vec<u32>,
}

impl View for AudioFrame {
    type V = Seq<u32>;

    open spec fn view(&self) -> Seq<u32> {
        self.data@
    }
}

/// The frame length follows from the canonical format.
pub proof fn lemma_frame_constants()
    ensures
        SAMPLES_PER_CHANNEL == TARGET_RATE * FRAME_DURATION_MS / 1000,
        FRAME_SAMPLES == SAMPLES_PER_CHANNEL * TARGET_CHANNELS,
        FRAME_BYTES == 4 * FRAME_SAMPLES,
{
}

/// Frame `j` of a sample stream.
pub open spec fn frame_at(stream: Seq<u32>, j: int) -> Seq<u32> {
    stream.subrange(j * FRAME_SAMPLES as int, (j + 1) * FRAME_SAMPLES as int)
}

/// How many whole frames a stream holds.
pub open spec fn whole_frames(stream: Seq<u32>) -> int {
    stream.len() as int / FRAME_SAMPLES as int
}

/// What is left of a stream once its whole frames are taken.
pub open spec fn leftover(stream: Seq<u32>) -> Seq<u32> {
    stream.subrange(whole_frames(stream) * FRAME_SAMPLES as int, stream.len() as int)
}

/// Whether `frames` are the whole frames of `stream`, in order.
pub open spec fn frames_of(stream: Seq<u32>, frames: Seq<AudioFrame>) -> bool {
    &&& frames.len() == whole_frames(stream)
    &&& forall|j: int| 0 <= j < frames.len() ==> (#[trigger] frames[j])@ == frame_at(stream, j)
}

/// The whole frames of a stream, in order.
pub open spec fn framed(stream: Seq<u32>) -> Seq<Seq<u32>> {
    Seq::new(whole_frames(stream) as nat, |j: int| frame_at(stream, j))
}

/// The samples of a list of frames.
pub open spec fn frame_views(frames: Seq<AudioFrame>) -> Seq<Seq<u32>> {
    frames.map_values(|frame: AudioFrame| frame@)
}

/// Frames that are the whole frames of a stream are its framing.
pub proof fn lemma_frames_of_is_framed(stream: Seq<u32>, frames: Seq<AudioFrame>)
    requires
        frames_of(stream, frames),
    ensures
        frame_views(frames) == framed(stream),
{
    assert(frame_views(frames) =~= framed(stream));
}

/// Framing a stream piece by piece gives the same frames as framing it at
/// once: the frames of the first piece, then the frames of what was left
/// over followed by the second piece, and the same leftover in the end.
pub proof fn lemma_framing_is_incremental(first: Seq<u32>, second: Seq<u32>)
    ensures
        framed(first + second) == framed(first) + framed(leftover(first) + second),
        leftover(first + second) == leftover(leftover(first) + second),
{
    let size = FRAME_SAMPLES as int;
    let whole = first + second;
    let rest = leftover(first) + second;
    let q = whole_frames(first);
    let r = first.len() as int - q * size;
    assert(first.len() == q * size + r && 0 <= r < size);
    assert(leftover(first).len() == r);
    assert(whole.len() == q * size + rest.len());
    lemma_fundamental_div_mod_converse(
        whole.len() as int,
        size,
        q + rest.len() as int / size,
        rest.len() as int % size,
    );
    assert(whole_frames(whole) == q + whole_frames(rest));
    assert forall|k: int| 0 <= k < rest.len() implies rest[k] == whole[q * size + k] by {
        if k < r {
            assert(rest[k] == first[q * size + k]);
        }
    }
    let joined = framed(first) + framed(rest);
    assert(joined.len() == framed(whole).len());
    assert forall|j: int| 0 <= j < joined.len() implies joined[j] == framed(whole)[j] by {
        if j < q {
            assert((j + 1) * size <= q * size) by (nonlinear_arith)
                requires
                    j + 1 <= q,
                    size > 0,
            ;
            assert(frame_at(first, j) =~= frame_at(whole, j));
        } else {
            let i = j - q;
            assert((i + 1) * size <= whole_frames(rest) * size) by (nonlinear_arith)
                requires
                    i + 1 <= whole_frames(rest),
                    size > 0,
            ;
            assert(j * size == q * size + i * size) by (nonlinear_arith)
                requires
                    j == q + i,
            ;
            assert(frame_at(rest, i) =~= frame_at(whole, j));
        }
    }
    assert(joined =~= framed(whole));
    assert((q + whole_frames(rest)) * size == q * size + whole_frames(rest) * size)
        by (nonlinear_arith);
    assert(leftover(whole) =~= leftover(rest));
}

/// The bytes of a sample sequence: each sample as four little-endian bytes.
pub open spec fn le_bytes(samples: Seq<u32>) -> Seq<u8> {
    Seq::new(4 * samples.len(), |k: int| word_le_bytes(samples[k / 4])[k % 4])
}

/// Feeding exactly one frame's worth of samples to an empty framer yields
/// exactly that frame and leaves nothing pending.
pub proof fn lemma_exact_frame_leaves_nothing(samples: Seq<u32>)
    requires
        samples.len() == FRAME_SAMPLES,
    ensures
        whole_frames(Seq::<u32>::empty() + samples) == 1,
        frame_at(Seq::<u32>::empty() + samples, 0) == samples,
        leftover(Seq::<u32>::empty() + samples) == Seq::<u32>::empty(),
{
    let stream = Seq::<u32>::empty() + samples;
    assert(stream =~= samples);
    assert(frame_at(stream, 0) =~= samples);
    assert(leftover(stream) =~= Seq::<u32>::empty());
}

/// Framing loses and reorders nothing: every sample of the stream sits at its
/// place in a whole frame or in what is left over, and what is left over is
/// shorter than a frame.
pub proof fn lemma_framing_keeps_stream(stream: Seq<u32>, k: int)
    requires
        0 <= k < stream.len(),
    ensures
        leftover(stream).len() == stream.len() % (FRAME_SAMPLES as nat),
        leftover(stream).len() < FRAME_SAMPLES,
        k < whole_frames(stream) * FRAME_SAMPLES ==> k / (FRAME_SAMPLES as int) < whole_frames(
            stream,
        ) && frame_at(stream, k / (FRAME_SAMPLES as int))[k % (FRAME_SAMPLES as int)] == stream[k],
        k >= whole_frames(stream) * FRAME_SAMPLES ==> leftover(stream)[k - whole_frames(stream)
            * FRAME_SAMPLES] == stream[k],
{
}

/// A frame of 1920 samples is 7680 bytes on the wire.
pub proof fn lemma_frame_bytes(samples: Seq<u32>)
    requires
        samples.len() == FRAME_SAMPLES,
    ensures
        le_bytes(samples).len() == FRAME_BYTES,
{
}

/// Reading the wire bytes back as native 32-bit floats gives the samples
/// again.
pub proof fn lemma_wire_round_trip(samples: Seq<u32>)
    ensures
        is_normalized(le_bytes(samples), SampleEncoding::Float32, samples),
{
    let bytes = le_bytes(samples);
    assert forall|i: int| 0 <= i < samples.len() implies decodes_to(
        bytes,
        SampleEncoding::Float32,
        i,
        #[trigger] samples[i],
    ) by {
        let w = samples[i];
        assert((4 * i) / 4 == i && (4 * i + 1) / 4 == i && (4 * i + 2) / 4 == i && (4 * i + 3) / 4
            == i);
        assert(bytes[4 * i] == word_le_bytes(w)[0]);
        assert(bytes[4 * i + 1] == word_le_bytes(w)[1]);
        assert(bytes[4 * i + 2] == word_le_bytes(w)[2]);
        assert(bytes[4 * i + 3] == word_le_bytes(w)[3]);
    }
}

/// Accumulates canonical samples and hands them out in whole frames.
pub struct Framer {
    accum: Vec<u32>,
}

impl Framer {
    /// The samples waiting for their frame to fill.
    pub closed spec fn pending(&self) -> Seq<u32> {
        self.accum@
    }

    /// A framer with nothing pending.
    pub fn new() -> (framer: Framer)
        ensures
            framer.pending() == Seq::<u32>::empty(),
    {
        Framer { accum: Vec::new() }
    }

    /// Number of samples pending.
    pub fn pending_len(&self) -> (len: usize)
        ensures
            len == self.pending().len(),
    {
        self.accum.len()
    }

    /// Appends samples to the pending ones.
    pub fn push(&mut self, samples: &[u32])
        ensures
            final(self).pending() == old(self).pending() + samples@,
    {
        let ghost before = self.accum@;
        let mut i: usize = 0;
        while i < samples.len()
            invariant
                i <= samples@.len(),
                self.accum@ == before + samples@.subrange(0, i as int),
            decreases samples@.len() - i,
        {
            self.accum.push(samples[i]);
            i += 1;
            assert(self.accum@ =~= before + samples@.subrange(0, i as int));
        }
        assert(samples@.subrange(0, i as int) =~= samples@);
    }

    /// Takes the oldest frame, if a whole one is pending.
    pub fn pop_frame(&mut self) -> (frame: Option<AudioFrame>)
        ensures
            whole_frames(old(self).pending()) > 0 ==> frame is Some && frame->Some_0@ == frame_at(
                old(self).pending(),
                0,
            ) && final(self).pending() == old(self).pending().subrange(
                FRAME_SAMPLES as int,
                old(self).pending().len() as int,
            ),
            whole_frames(old(self).pending()) == 0 ==> frame is None && final(self).pending()
                == old(self).pending(),
    {
        if self.accum.len() >= FRAME_SAMPLES {
            let mut head = self.accum.split_off(FRAME_SAMPLES);
            core::mem::swap(&mut head, &mut self.accum);
            Some(AudioFrame { data: head })
        } else {
            None
        }
    }

    /// Takes every whole frame that is pending, oldest first.
    pub fn drain_frames(&mut self) -> (frames: Vec<AudioFrame>)
        ensures
            frames_of(old(self).pending(), frames@),
            final(self).pending() == leftover(old(self).pending()),
    {
        let ghost stream = self.accum@;
        let mut frames: Vec<AudioFrame> = Vec::new();
        loop
            invariant
                frames@.len() <= whole_frames(stream),
                forall|j: int| 0 <= j < frames@.len() ==> (#[trigger] frames@[j])@ == frame_at(stream, j),
                self.accum@ == stream.subrange(
                    frames@.len() * FRAME_SAMPLES as int,
                    stream.len() as int,
                ),
            ensures
                frames_of(stream, frames@),
                self.accum@ == leftover(stream),
            decreases self.accum@.len(),
        {
            let ghost before = self.accum@;
            let ghost done = frames@.len() as int;
            match self.pop_frame() {
                Some(frame) => {
                    assert(frame@ =~= frame_at(stream, done));
                    assert(self.accum@ =~= stream.subrange(
                        (done + 1) * FRAME_SAMPLES as int,
                        stream.len() as int,
                    ));
                    frames.push(frame);
                },
                None => {
                    break ;
                },
            }
        }
        frames
    }

    /// Appends samples and takes every whole frame that results.
    pub fn feed(&mut self, samples: &[u32]) -> (frames: Vec<AudioFrame>)
        ensures
            frames_of(old(self).pending() + samples@, frames@),
            final(self).pending() == leftover(old(self).pending() + samples@),
    {
        self.push(samples);
        self.drain_frames()
    }

    /// Converts a chunk to the canonical format, appends it and takes every
    /// whole frame that results.
    pub fn feed_chunk(&mut self, chunk: &AudioChunk) -> (frames: Vec<AudioFrame>)
        ensures
            frames_of(old(self).pending() + canonical(*chunk), frames@),
            final(self).pending() == leftover(old(self).pending() + canonical(*chunk)),
    {
        let converted = to_canonical(chunk);
        self.feed(converted.as_slice())
    }
}

/// A chunk's samples in the canonical format.
pub open spec fn canonical(chunk: AudioChunk) -> Seq<u32> {
    resampled(chunk.samples@, chunk.sample_rate, chunk.channels, TARGET_RATE, TARGET_CHANNELS)
}

/// Converts a chunk to 48 kHz stereo.
pub fn to_canonical(chunk: &AudioChunk) -> (out: Vec<u32>)
    ensures
        out@ == canonical(*chunk),
{
    let keep_left = |l: u32, r: u32| -> (m: u32) { l };
    convert_chunk(chunk, TARGET_RATE, TARGET_CHANNELS, keep_left)
}

impl AudioFrame {
    /// The frame as it goes on the wire: every sample as four little-endian
    /// bytes.
    pub fn to_le_bytes(&self) -> (bytes: Vec<u8>)
        ensures
            bytes@ == le_bytes(self@),
    {
        samples_to_le_bytes(self.data.as_slice())
    }
}

/// Serializes samples as little-endian bytes, four for each.
pub fn samples_to_le_bytes(samples: &[u32]) -> (bytes: Vec<u8>)
    ensures
        bytes@ == le_bytes(samples@),
{
    let mut bytes: Vec<u8> = Vec::new();
    let mut i: usize = 0;
    while i < samples.len()
        invariant
            i <= samples@.len(),
            bytes@.len() == 4 * i,
            forall|k: int| 0 <= k < bytes@.len() ==> #[trigger] bytes@[k] == word_le_bytes(samples@[k / 4])[k % 4],
        decreases samples@.len() - i,
    {
        let word = word_to_le(samples[i]);
        bytes.push(word[0]);
        bytes.push(word[1]);
        bytes.push(word[2]);
        bytes.push(word[3]);
        i += 1;
    }
    assert(bytes@ =~= le_bytes(samples@));
    bytes
}

} // verus!
