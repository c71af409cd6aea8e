//! Nearest-neighbour resampling and channel mixing.
//!
//! Output frame `i` takes its samples from source frame `i * src_rate /
//! target_rate`, clamped to the last source frame. Channels pass through when
//! the counts agree, a single channel is duplicated into stereo, stereo is
//! mixed down to one channel, and any other mismatch fills the missing
//! channels with silence.

use crate::format::encoding_of;
use crate::normalize::{is_normalized, normalize, sample_count, AudioChunk, RawChunk};
use crate::sample::SILENCE;
use vstd::arithmetic::div_mod::{
    lemma_basic_div, lemma_div_nonincreasing, lemma_fundamental_div_mod,
    lemma_fundamental_div_mod_converse, lemma_mod_bound, lemma_multiply_divide_lt,
};
use vstd::prelude::*;

verus! {

/// A rate or channel count of zero counts as one where it divides.
pub open spec fn at_least_one(x: u32) -> int {
    if x == 0 {
        1
    } else {
        x as int
    }
}

/// Whole frames among `len` interleaved samples.
pub open spec fn frame_count(len: int, channels: u32) -> int {
    len / at_least_one(channels)
}

/// Output frames for `frames` source frames: `frames * target_rate /
/// src_rate`, rounded up.
pub open spec fn resampled_frames(frames: int, src_rate: u32, target_rate: u32) -> int {
    (frames * target_rate + at_least_one(src_rate) - 1) / at_least_one(src_rate)
}

/// Output samples for `len` source samples, frame by frame.
pub open spec fn routed_len(
    len: int,
    src_rate: u32,
    src_channels: u32,
    target_rate: u32,
    target_channels: u32,
) -> int {
    resampled_frames(frame_count(len, src_channels), src_rate, target_rate) * target_channels
}

/// The source frame that output frame `i` reads.
pub open spec fn source_frame(i: int, frames: int, src_rate: u32, target_rate: u32) -> int {
    let nearest = i * src_rate / (target_rate as int);
    if nearest > frames - 1 {
        frames - 1
    } else {
        nearest
    }
}

/// Stereo to mono is the one conversion that combines two samples into one.
pub open spec fn is_downmix(src_channels: u32, target_channels: u32) -> bool {
    src_channels == 2 && target_channels == 1
}

/// The sample of channel `ch` in output frame `i`, for every conversion but
/// the downmix.
pub open spec fn routed_sample(
    samples: Seq<u32>,
    src_rate: u32,
    src_channels: u32,
    target_rate: u32,
    target_channels: u32,
    i: int,
    ch: int,
) -> u32 {
    let f = source_frame(i, frame_count(samples.len() as int, src_channels), src_rate, target_rate);
    if src_channels == target_channels {
        samples[f * src_channels + ch]
    } else if src_channels == 1 && target_channels == 2 {
        samples[f]
    } else if ch < src_channels {
        samples[f * src_channels + ch]
    } else {
        SILENCE
    }
}

/// The samples routed frame by frame, for every conversion but the downmix.
pub open spec fn routed(
    samples: Seq<u32>,
    src_rate: u32,
    src_channels: u32,
    target_rate: u32,
    target_channels: u32,
) -> Seq<u32> {
    Seq::new(
        routed_len(samples.len() as int, src_rate, src_channels, target_rate, target_channels) as nat,
        |k: int|
            routed_sample(
                samples,
                src_rate,
                src_channels,
                target_rate,
                target_channels,
                k / (target_channels as int),
                k % (target_channels as int),
            ),
    )
}

/// Whether a chunk passes through as it is: it is in the target format
/// already, and its rate or its channel count is zero, so that it has no
/// frames to route.
pub open spec fn passes_through(
    src_rate: u32,
    src_channels: u32,
    target_rate: u32,
    target_channels: u32,
) -> bool {
    src_rate == target_rate && src_channels == target_channels && (src_rate == 0 || src_channels
        == 0)
}

/// Output samples for `len` source samples.
pub open spec fn resampled_len(
    len: int,
    src_rate: u32,
    src_channels: u32,
    target_rate: u32,
    target_channels: u32,
) -> int {
    if passes_through(src_rate, src_channels, target_rate, target_channels) {
        len
    } else {
        routed_len(len, src_rate, src_channels, target_rate, target_channels)
    }
}

/// The converted samples, for every conversion but the downmix.
pub open spec fn resampled(
    samples: Seq<u32>,
    src_rate: u32,
    src_channels: u32,
    target_rate: u32,
    target_channels: u32,
) -> Seq<u32> {
    if passes_through(src_rate, src_channels, target_rate, target_channels) {
        samples
    } else {
        routed(samples, src_rate, src_channels, target_rate, target_channels)
    }
}

/// The left and right samples that the downmix combines into output frame `i`.
pub open spec fn downmix_pair(samples: Seq<u32>, src_rate: u32, target_rate: u32, i: int) -> (
    u32,
    u32,
) {
    let f = source_frame(i, frame_count(samples.len() as int, 2), src_rate, target_rate);
    (samples[2 * f], samples[2 * f + 1])
}

/// Every output frame reads a source frame that exists.
pub proof fn lemma_source_frame_in_range(i: int, frames: int, src_rate: u32, target_rate: u32)
    requires
        0 <= i < resampled_frames(frames, src_rate, target_rate),
        0 <= frames,
    ensures
        0 <= source_frame(i, frames, src_rate, target_rate) < frames,
        target_rate > 0,
{
    let s = at_least_one(src_rate);
    if frames == 0 || target_rate == 0 {
        assert(frames * target_rate == 0) by (nonlinear_arith)
            requires
                frames == 0 || target_rate == 0,
        ;
        lemma_basic_div(s - 1, s);
    }
    let nearest = i * src_rate / (target_rate as int);
    assert(0 <= i * src_rate) by (nonlinear_arith)
        requires
            0 <= i,
            0 <= src_rate,
    ;
    lemma_fundamental_div_mod(i * src_rate, target_rate as int);
    lemma_mod_bound(i * src_rate, target_rate as int);
    assert(0 <= nearest) by (nonlinear_arith)
        requires
            0 <= i * src_rate,
            i * src_rate == target_rate * nearest + (i * src_rate) % (target_rate as int),
            (i * src_rate) % (target_rate as int) < target_rate,
            target_rate > 0,
    ;
}

/// A channel of a source frame lies within the samples.
pub proof fn lemma_sample_index_in_range(len: int, channels: u32, f: int, ch: int)
    requires
        0 <= len,
        channels >= 1,
        0 <= f < frame_count(len, channels),
        0 <= ch < channels,
    ensures
        0 <= f * channels + ch < len,
{
    lemma_fundamental_div_mod(len, channels as int);
    lemma_mod_bound(len, channels as int);
    let q = len / (channels as int);
    assert(0 <= f * channels + ch < len) by (nonlinear_arith)
        requires
            0 <= f < q,
            0 <= ch < channels,
            len == channels * q + len % (channels as int),
            0 <= len % (channels as int),
    ;
}

/// Sample `k` of the output is channel `k % channels` of frame `k / channels`.
pub proof fn lemma_frame_channel_of_index(i: int, ch: int, channels: u32)
    requires
        0 <= ch < channels,
    ensures
        (i * channels + ch) / (channels as int) == i,
        (i * channels + ch) % (channels as int) == ch,
{
    lemma_fundamental_div_mod_converse(i * channels + ch, channels as int, i, ch);
}

/// The output frame count is the quotient `frames * target_rate / src_rate`
/// rounded up: the least count whose span at the source rate covers the
/// input.
pub proof fn lemma_resampled_frames_is_ceiling(frames: int, src_rate: u32, target_rate: u32)
    requires
        0 <= frames,
        src_rate > 0,
    ensures
        (resampled_frames(frames, src_rate, target_rate) - 1) * src_rate < frames * target_rate,
        frames * target_rate <= resampled_frames(frames, src_rate, target_rate) * src_rate,
{
    let x = frames * target_rate + src_rate - 1;
    let n = resampled_frames(frames, src_rate, target_rate);
    lemma_fundamental_div_mod(x, src_rate as int);
    lemma_mod_bound(x, src_rate as int);
    assert((n - 1) * src_rate < frames * target_rate && frames * target_rate <= n * src_rate)
        by (nonlinear_arith)
        requires
            x == src_rate * n + x % (src_rate as int),
            0 <= x % (src_rate as int) < src_rate,
            x == frames * target_rate + src_rate - 1,
    ;
}

/// The clamp never has to bite: the nearest source frame of every output
/// frame lies within the source, because the output stops where the source
/// does.
pub proof fn lemma_nearest_frame_exists(i: int, frames: int, src_rate: u32, target_rate: u32)
    requires
        0 <= i < resampled_frames(frames, src_rate, target_rate),
        0 <= frames,
        src_rate > 0,
    ensures
        target_rate > 0,
        i * src_rate / (target_rate as int) < frames,
        source_frame(i, frames, src_rate, target_rate) == i * src_rate / (target_rate as int),
{
    lemma_source_frame_in_range(i, frames, src_rate, target_rate);
    lemma_resampled_frames_is_ceiling(frames, src_rate, target_rate);
    let n = resampled_frames(frames, src_rate, target_rate);
    assert(i * src_rate < target_rate * frames) by (nonlinear_arith)
        requires
            0 <= i <= n - 1,
            src_rate > 0,
            (n - 1) * src_rate < frames * target_rate,
    ;
    lemma_multiply_divide_lt(i * src_rate, target_rate as int, frames);
}

/// At equal rates every source frame gives one output frame.
pub proof fn lemma_equal_rates_keep_frames(frames: int, rate: u32)
    requires
        0 <= frames,
        rate > 0,
    ensures
        resampled_frames(frames, rate, rate) == frames,
        forall|i: int| 0 <= i < frames ==> #[trigger] source_frame(i, frames, rate, rate) == i,
{
    lemma_fundamental_div_mod_converse(frames * rate + rate - 1, rate as int, frames, rate - 1);
    assert forall|i: int| 0 <= i < frames implies #[trigger] source_frame(i, frames, rate, rate)
        == i by {
        lemma_fundamental_div_mod_converse(i * rate, rate as int, i, 0);
    }
}

/// Mono to stereo duplicates: the two samples of every output frame are the
/// same source sample.
pub proof fn lemma_mono_to_stereo_duplicates(
    samples: Seq<u32>,
    src_rate: u32,
    target_rate: u32,
    i: int,
)
    requires
        0 <= i < resampled_frames(samples.len() as int, src_rate, target_rate),
    ensures
        2 * i + 1 < resampled(samples, src_rate, 1, target_rate, 2).len(),
        resampled(samples, src_rate, 1, target_rate, 2)[2 * i] == resampled(
            samples,
            src_rate,
            1,
            target_rate,
            2,
        )[2 * i + 1],
        resampled(samples, src_rate, 1, target_rate, 2)[2 * i] == samples[source_frame(
            i,
            samples.len() as int,
            src_rate,
            target_rate,
        )],
{
    let len = samples.len() as int;
    let out = resampled(samples, src_rate, 1, target_rate, 2);
    assert(frame_count(len, 1) == len);
    assert(out.len() == 2 * resampled_frames(len, src_rate, target_rate));
    assert((2 * i) / 2 == i && (2 * i) % 2 == 0);
    assert((2 * i + 1) / 2 == i && (2 * i + 1) % 2 == 1);
    let f = source_frame(i, len, src_rate, target_rate);
    assert(out[2 * i] == routed_sample(samples, src_rate, 1, target_rate, 2, i, 0));
    assert(out[2 * i + 1] == routed_sample(samples, src_rate, 1, target_rate, 2, i, 1));
}

/// Stereo to mono at equal rates mixes the left and right sample of the frame
/// at the same position.
pub proof fn lemma_downmix_pairs_own_frame(samples: Seq<u32>, rate: u32, i: int)
    requires
        rate > 0,
        0 <= i < samples.len() / 2,
    ensures
        i < resampled_len(samples.len() as int, rate, 2, rate, 1),
        downmix_pair(samples, rate, rate, i) == (samples[2 * i], samples[2 * i + 1]),
{
    lemma_equal_rates_keep_frames(samples.len() as int / 2, rate);
}

/// A chunk of whole frames that is already in the target format comes out
/// unchanged.
pub proof fn lemma_same_format_is_identity(samples: Seq<u32>, rate: u32, channels: u32)
    requires
        rate > 0,
        channels > 0,
        samples.len() % (channels as nat) == 0,
    ensures
        resampled(samples, rate, channels, rate, channels) == samples,
{
    let len = samples.len() as int;
    let frames = len / (channels as int);
    lemma_equal_rates_keep_frames(frames, rate);
    lemma_fundamental_div_mod(len, channels as int);
    assert(frames * channels == len) by (nonlinear_arith)
        requires
            len == channels * frames + 0,
    ;
    let out = resampled(samples, rate, channels, rate, channels);
    assert(out.len() == len);
    assert forall|k: int| 0 <= k < len implies out[k] == samples[k] by {
        let i = k / (channels as int);
        let ch = k % (channels as int);
        lemma_fundamental_div_mod(k, channels as int);
        lemma_mod_bound(k, channels as int);
        assert(0 <= i < frames) by (nonlinear_arith)
            requires
                k == channels * i + ch,
                0 <= ch < channels,
                0 <= k < len,
                frames * channels == len,
        ;
        assert(i * channels + ch == k) by (nonlinear_arith)
            requires
                k == channels * i + ch,
        ;
    }
    assert(out =~= samples);
}

/// Routes the samples frame by frame to another rate and channel count.
fn route_samples<F: Fn(u32, u32) -> u32>(
    samples: &[u32],
    src_rate: u32,
    src_channels: u32,
    target_rate: u32,
    target_channels: u32,
    mix: F,
) -> (out: Vec<u32>)
    requires
        forall|l: u32, r: u32| call_requires(mix, (l, r)),
    ensures
        out@.len() == routed_len(
            samples@.len() as int,
            src_rate,
            src_channels,
            target_rate,
            target_channels,
        ),
        !is_downmix(src_channels, target_channels) ==> out@ == routed(
            samples@,
            src_rate,
            src_channels,
            target_rate,
            target_channels,
        ),
        is_downmix(src_channels, target_channels) ==> forall|i: int|
            0 <= i < out@.len() ==> call_ensures(
                mix,
                downmix_pair(samples@, src_rate, target_rate, i),
                #[trigger] out@[i],
            ),
{
    let len = samples.len();
    let src_step: usize = if src_channels == 0 {
        1
    } else {
        src_channels as usize
    };
    let frames = len / src_step;
    let divisor: u128 = if src_rate == 0 {
        1
    } else {
        src_rate as u128
    };
    assert(frames as u128 * target_rate as u128 <= 0xFFFF_FFFF_FFFF_FFFF * 0xFFFF_FFFF)
        by (nonlinear_arith)
        requires
            frames <= 0xFFFF_FFFF_FFFF_FFFF,
            target_rate <= 0xFFFF_FFFF,
    ;
    let count: u128 = (frames as u128 * target_rate as u128 + divisor - 1) / divisor;
    proof {
        lemma_div_nonincreasing(frames * target_rate + divisor - 1, divisor as int);
    }
    let mut out: Vec<u32> = Vec::new();
    if frames == 0 || target_rate == 0 || target_channels == 0 {
        proof {
            if frames == 0 || target_rate == 0 {
                assert(frames * target_rate == 0) by (nonlinear_arith)
                    requires
                        frames == 0 || target_rate == 0,
                ;
                lemma_basic_div(divisor - 1, divisor as int);
            }
            assert(count * target_channels == 0) by (nonlinear_arith)
                requires
                    count == 0 || target_channels == 0,
            ;
            assert(out@ =~= routed(
                samples@,
                src_rate,
                src_channels,
                target_rate,
                target_channels,
            ));
        }
        return out;
    }
    let ghost wanted = routed(samples@, src_rate, src_channels, target_rate, target_channels);
    let mut i: u128 = 0;
    while i < count
        invariant
            len == samples@.len(),
            frames == frame_count(len as int, src_channels),
            frames > 0,
            src_step == at_least_one(src_channels),
            target_rate > 0,
            target_channels > 0,
            count == resampled_frames(frames as int, src_rate, target_rate),
            count <= 0xFFFF_FFFF_FFFF_FFFF_FFFF_FFFF,
            i <= count,
            out@.len() == i * target_channels,
            forall|l: u32, r: u32| call_requires(mix, (l, r)),
            wanted == routed(samples@, src_rate, src_channels, target_rate, target_channels),
            !is_downmix(src_channels, target_channels) ==> forall|k: int|
                0 <= k < out@.len() ==> #[trigger] out@[k] == wanted[k],
            is_downmix(src_channels, target_channels) ==> forall|k: int|
                0 <= k < out@.len() ==> call_ensures(
                    mix,
                    downmix_pair(samples@, src_rate, target_rate, k),
                    #[trigger] out@[k],
                ),
        decreases count - i,
    {
        assert(i * src_rate <= 0xFFFF_FFFF_FFFF_FFFF_FFFF_FFFF * 0xFFFF_FFFF) by (nonlinear_arith)
            requires
                i < count,
                count <= 0xFFFF_FFFF_FFFF_FFFF_FFFF_FFFF,
                src_rate <= 0xFFFF_FFFF,
        ;
        let nearest: u128 = i * (src_rate as u128) / (target_rate as u128);
        let f: usize = if nearest > (frames - 1) as u128 {
            frames - 1
        } else {
            nearest as usize
        };
        proof {
            lemma_source_frame_in_range(i as int, frames as int, src_rate, target_rate);
            assert(f == source_frame(i as int, frames as int, src_rate, target_rate));
            assert((i + 1) * target_channels == i * target_channels + target_channels)
                by (nonlinear_arith);
            assert(i * target_channels + target_channels <= count * target_channels)
                by (nonlinear_arith)
                requires
                    i < count,
                    target_channels > 0,
            ;
        }
        if src_channels == 2 && target_channels == 1 {
            proof {
                lemma_sample_index_in_range(len as int, 2, f as int, 0);
                lemma_sample_index_in_range(len as int, 2, f as int, 1);
            }
            let mixed = mix(samples[2 * f], samples[2 * f + 1]);
            out.push(mixed);
        } else {
            let mut ch: u32 = 0;
            while ch < target_channels
                invariant
                    len == samples@.len(),
                    frames == frame_count(len as int, src_channels),
                    src_step == at_least_one(src_channels),
                    f == source_frame(i as int, frames as int, src_rate, target_rate),
                    0 <= f < frames,
                    !is_downmix(src_channels, target_channels),
                    target_channels > 0,
                    i < count,
                    count == resampled_frames(frames as int, src_rate, target_rate),
                    ch <= target_channels,
                    out@.len() == i * target_channels + ch,
                    i * target_channels + target_channels <= count * target_channels,
                    wanted == routed(
                        samples@,
                        src_rate,
                        src_channels,
                        target_rate,
                        target_channels,
                    ),
                    forall|k: int| 0 <= k < out@.len() ==> #[trigger] out@[k] == wanted[k],
                decreases target_channels - ch,
            {
                proof {
                    lemma_frame_channel_of_index(i as int, ch as int, target_channels);
                    if ch < src_channels {
                        lemma_sample_index_in_range(len as int, src_channels, f as int, ch as int);
                    }
                    if src_channels == 1 {
                        lemma_sample_index_in_range(len as int, 1, f as int, 0);
                    }
                }
                let value = if src_channels == target_channels {
                    samples[f * src_step + ch as usize]
                } else if src_channels == 1 && target_channels == 2 {
                    samples[f]
                } else if ch < src_channels {
                    samples[f * src_step + ch as usize]
                } else {
                    SILENCE
                };
                assert(value == wanted[i * target_channels + ch]);
                out.push(value);
                ch += 1;
            }
        }
        i += 1;
    }
    assert(!is_downmix(src_channels, target_channels) ==> out@ =~= wanted);
    out
}

/// For a source with a rate and a channel count above zero, the output
/// holds the frame count `frames * target_rate / src_rate`, rounded up, times
/// the target's channel count.
pub proof fn lemma_resampled_len(
    len: int,
    src_rate: u32,
    src_channels: u32,
    target_rate: u32,
    target_channels: u32,
)
    requires
        src_rate > 0,
        src_channels > 0,
    ensures
        resampled_len(len, src_rate, src_channels, target_rate, target_channels)
            == resampled_frames(len / (src_channels as int), src_rate, target_rate)
            * target_channels,
{
}

/// A chunk in the target format comes out unchanged where its rate or its
/// channel count is zero.
pub proof fn lemma_degenerate_format_is_identity(samples: Seq<u32>, rate: u32, channels: u32)
    requires
        rate == 0 || channels == 0,
    ensures
        resampled(samples, rate, channels, rate, channels) == samples,
        !is_downmix(channels, channels),
{
}

/// Converts interleaved samples to another rate and channel count. `mix`
/// combines the left and right sample of a stereo frame when the target is
/// mono; no other conversion calls it.
pub fn convert_samples<F: Fn(u32, u32) -> u32>(
    samples: &[u32],
    src_rate: u32,
    src_channels: u32,
    target_rate: u32,
    target_channels: u32,
    mix: F,
) -> (out: Vec<u32>)
    requires
        forall|l: u32, r: u32| call_requires(mix, (l, r)),
    ensures
        out@.len() == resampled_len(
            samples@.len() as int,
            src_rate,
            src_channels,
            target_rate,
            target_channels,
        ),
        !is_downmix(src_channels, target_channels) ==> out@ == resampled(
            samples@,
            src_rate,
            src_channels,
            target_rate,
            target_channels,
        ),
        is_downmix(src_channels, target_channels) ==> forall|i: int|
            0 <= i < out@.len() ==> call_ensures(
                mix,
                downmix_pair(samples@, src_rate, target_rate, i),
                #[trigger] out@[i],
            ),
{
    if src_rate == target_rate && src_channels == target_channels && (src_rate == 0
        || src_channels == 0) {
        let mut out: Vec<u32> = Vec::with_capacity(samples.len());
        let mut i: usize = 0;
        while i < samples.len()
            invariant
                i <= samples@.len(),
                out@ == samples@.subrange(0, i as int),
            decreases samples@.len() - i,
        {
            out.push(samples[i]);
            i += 1;
            assert(out@ =~= samples@.subrange(0, i as int));
        }
        assert(samples@.subrange(0, i as int) =~= samples@);
        out
    } else {
        route_samples(samples, src_rate, src_channels, target_rate, target_channels, mix)
    }
}

/// Converts a chunk to another rate and channel count.
pub fn convert_chunk<F: Fn(u32, u32) -> u32>(
    chunk: &AudioChunk,
    target_rate: u32,
    target_channels: u32,
    mix: F,
) -> (out: Vec<u32>)
    requires
        forall|l: u32, r: u32| call_requires(mix, (l, r)),
    ensures
        out@.len() == resampled_len(
            chunk.samples@.len() as int,
            chunk.sample_rate,
            chunk.channels,
            target_rate,
            target_channels,
        ),
        !is_downmix(chunk.channels, target_channels) ==> out@ == resampled(
            chunk.samples@,
            chunk.sample_rate,
            chunk.channels,
            target_rate,
            target_channels,
        ),
        is_downmix(chunk.channels, target_channels) ==> forall|i: int|
            0 <= i < out@.len() ==> call_ensures(
                mix,
                downmix_pair(chunk.samples@, chunk.sample_rate, target_rate, i),
                #[trigger] out@[i],
            ),
{
    convert_samples(
        chunk.samples.as_slice(),
        chunk.sample_rate,
        chunk.channels,
        target_rate,
        target_channels,
        mix,
    )
}

/// Whether `out` is what `samples` convert to: the routed samples for every
/// conversion but the downmix, and for the downmix what `mix` gives for the
/// left and right sample of each frame.
pub open spec fn is_converted<F: Fn(u32, u32) -> u32>(
    samples: Seq<u32>,
    src_rate: u32,
    src_channels: u32,
    target_rate: u32,
    target_channels: u32,
    mix: F,
    out: Seq<u32>,
) -> bool {
    &&& out.len() == resampled_len(
        samples.len() as int,
        src_rate,
        src_channels,
        target_rate,
        target_channels,
    )
    &&& !is_downmix(src_channels, target_channels) ==> out == resampled(
        samples,
        src_rate,
        src_channels,
        target_rate,
        target_channels,
    )
    &&& is_downmix(src_channels, target_channels) ==> forall|i: int|
        0 <= i < out.len() ==> call_ensures(
            mix,
            downmix_pair(samples, src_rate, target_rate, i),
            #[trigger] out[i],
        )
}

/// Normalizes a captured packet and converts it to the target rate and
/// channel count in one go.
pub fn normalize_and_resample<F: Fn(u32, u32) -> u32>(
    chunk: &RawChunk,
    target_rate: u32,
    target_channels: u32,
    mix: F,
) -> (out: Vec<u32>)
    requires
        forall|l: u32, r: u32| call_requires(mix, (l, r)),
    ensures
        out@.len() == resampled_len(
            sample_count(chunk.data@.len() as int, encoding_of(chunk.format)),
            chunk.format.sample_rate,
            chunk.format.channels,
            target_rate,
            target_channels,
        ),
        exists|samples: Seq<u32>| #[trigger]
            is_normalized(chunk.data@, encoding_of(chunk.format), samples) && is_converted(
                samples,
                chunk.format.sample_rate,
                chunk.format.channels,
                target_rate,
                target_channels,
                mix,
                out@,
            ),
{
    let normalized = normalize(chunk);
    convert_chunk(&normalized, target_rate, target_channels, mix)
}

} // verus!
