use jam_audio::format::{TARGET_CHANNELS, TARGET_RATE};
use jam_audio::framer::{
    samples_to_le_bytes, AudioFrame, Framer, FRAME_BYTES, FRAME_DURATION_MS, FRAME_SAMPLES,
    SAMPLES_PER_CHANNEL,
};
use jam_audio::normalize::{normalize_bytes, AudioChunk};
use jam_audio::format::SampleEncoding;

#[test]
fn frame_constants_follow_the_canonical_format() {
    assert_eq!(SAMPLES_PER_CHANNEL, TARGET_RATE * FRAME_DURATION_MS / 1000);
    assert_eq!(FRAME_SAMPLES, (SAMPLES_PER_CHANNEL * TARGET_CHANNELS) as usize);
    assert_eq!(FRAME_SAMPLES, 1920);
    assert_eq!(FRAME_BYTES, 7680);
}

#[test]
fn exactly_one_frame_of_samples_gives_one_frame_and_leaves_nothing() {
    let samples: Vec<u32> = (0..FRAME_SAMPLES as u32).collect();
    let mut framer = Framer::new();
    let frames = framer.feed(&samples);
    assert_eq!(frames.len(), 1);
    assert_eq!(frames[0].data, samples);
    assert_eq!(framer.pending_len(), 0);
}

#[test]
fn short_input_accumulates_until_a_frame_is_full() {
    let mut framer = Framer::new();
    let first: Vec<u32> = (0..1000).collect();
    let second: Vec<u32> = (1000..2500).collect();
    assert_eq!(framer.feed(&first).len(), 0);
    assert_eq!(framer.pending_len(), 1000);
    let frames = framer.feed(&second);
    assert_eq!(frames.len(), 1);
    assert_eq!(frames[0].data, (0..1920).collect::<Vec<u32>>());
    assert_eq!(framer.pending_len(), 580);
    let third: Vec<u32> = (2500..3840).collect();
    let frames = framer.feed(&third);
    assert_eq!(frames.len(), 1);
    assert_eq!(frames[0].data, (1920..3840).collect::<Vec<u32>>());
    assert_eq!(framer.pending_len(), 0);
}

#[test]
fn a_long_input_gives_several_frames_in_order() {
    let samples: Vec<u32> = (0..(FRAME_SAMPLES as u32 * 3 + 5)).collect();
    let mut framer = Framer::new();
    let frames = framer.feed(&samples);
    assert_eq!(frames.len(), 3);
    for (j, frame) in frames.iter().enumerate() {
        assert_eq!(frame.data.len(), FRAME_SAMPLES);
        assert_eq!(frame.data[0], (j * FRAME_SAMPLES) as u32);
        assert_eq!(frame.data[FRAME_SAMPLES - 1], ((j + 1) * FRAME_SAMPLES - 1) as u32);
    }
    assert_eq!(framer.pending_len(), 5);
}

#[test]
fn pop_frame_takes_the_oldest_frame_only() {
    let mut framer = Framer::new();
    assert!(framer.pop_frame().is_none());
    let samples: Vec<u32> = (0..(FRAME_SAMPLES as u32 * 2)).collect();
    framer.push(&samples);
    assert_eq!(framer.pending_len(), FRAME_SAMPLES * 2);
    let frame = framer.pop_frame().unwrap();
    assert_eq!(frame.data[0], 0);
    assert_eq!(framer.pending_len(), FRAME_SAMPLES);
    let frame = framer.pop_frame().unwrap();
    assert_eq!(frame.data[0], FRAME_SAMPLES as u32);
    assert!(framer.pop_frame().is_none());
    assert_eq!(framer.drain_frames().len(), 0);
}

#[test]
fn chunks_are_converted_before_they_are_framed() {
    let mut framer = Framer::new();
    let mono: Vec<u32> = (0..960).collect();
    let chunk = AudioChunk { samples: mono, sample_rate: 48000, channels: 1 };
    let frames = framer.feed_chunk(&chunk);
    assert_eq!(frames.len(), 1);
    for i in 0..960 {
        assert_eq!(frames[0].data[2 * i], i as u32);
        assert_eq!(frames[0].data[2 * i + 1], i as u32);
    }
    assert_eq!(framer.pending_len(), 0);
    let half_rate = AudioChunk { samples: vec![9; 960], sample_rate: 24000, channels: 2 };
    let frames = framer.feed_chunk(&half_rate);
    assert_eq!(frames.len(), 1);
    assert_eq!(frames[0].data, vec![9; 1920]);
}

#[test]
fn a_frame_is_7680_little_endian_bytes_on_the_wire() {
    let data: Vec<u32> = (0..FRAME_SAMPLES).map(|i| (i as f32 / 1000.0).to_bits()).collect();
    let frame = AudioFrame { data: data.clone() };
    let bytes = frame.to_le_bytes();
    assert_eq!(bytes.len(), FRAME_BYTES);
    let expected: Vec<u8> =
        data.iter().flat_map(|b| f32::from_bits(*b).to_le_bytes()).collect();
    assert_eq!(bytes, expected);
}

#[test]
fn wire_bytes_read_back_as_the_samples() {
    let samples = vec![0x3f80_0000u32, 0xbf00_0000, 0, 0x1234_5678];
    let bytes = samples_to_le_bytes(&samples);
    assert_eq!(
        bytes,
        vec![0, 0, 0x80, 0x3f, 0, 0, 0, 0xbf, 0, 0, 0, 0, 0x78, 0x56, 0x34, 0x12]
    );
    assert_eq!(normalize_bytes(&bytes, SampleEncoding::Float32), samples);
    assert_eq!(samples_to_le_bytes(&[]), Vec::<u8>::new());
}
