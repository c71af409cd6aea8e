use jam_audio::format::{
    negotiate_format, CaptureFormat, FormatSource, MixFormat, SampleEncoding,
    WAVE_FORMAT_EXTENSIBLE, WAVE_FORMAT_IEEE_FLOAT,
};
use jam_audio::normalize::{decode_sample, normalize, normalize_bytes, samples_in, RawChunk};
use jam_audio::sample::{
    pcm16_from_le, pcm24_from_le, scale_pcm, word_from_le, word_to_le, SILENCE,
};

fn float_format(rate: u32, channels: u32) -> CaptureFormat {
    CaptureFormat {
        sample_rate: rate,
        channels,
        is_float: true,
        bits_per_sample: 32,
        block_align: channels * 4,
    }
}

#[test]
fn silence_is_positive_zero() {
    assert_eq!(SILENCE, 0.0f32.to_bits());
}

#[test]
fn pcm16_scaling_matches_division_by_32768_for_every_code() {
    for code in i16::MIN..=i16::MAX {
        let expected = (code as f32 / 32768.0).to_bits();
        assert_eq!(scale_pcm(code as i32, 15), expected, "code {}", code);
    }
}

#[test]
fn pcm16_scaling_exact_values() {
    assert_eq!(f32::from_bits(scale_pcm(16384, 15)), 0.5);
    assert_eq!(f32::from_bits(scale_pcm(-32768, 15)), -1.0);
    assert_eq!(f32::from_bits(scale_pcm(32767, 15)), 32767.0 / 32768.0);
    assert_eq!(scale_pcm(1, 15), 0x3800_0000);
    assert_eq!(scale_pcm(0, 15), 0);
}

#[test]
fn pcm24_scaling_matches_division_by_8388608() {
    let mut code: i32 = -8_388_608;
    while code < 8_388_608 {
        let expected = (code as f32 / 8_388_608.0).to_bits();
        assert_eq!(scale_pcm(code, 23), expected, "code {}", code);
        code += 37;
    }
    assert_eq!(f32::from_bits(scale_pcm(-8_388_608, 23)), -1.0);
    assert_eq!(f32::from_bits(scale_pcm(4_194_304, 23)), 0.5);
    assert_eq!(f32::from_bits(scale_pcm(8_388_607, 23)), 8_388_607.0 / 8_388_608.0);
}

#[test]
fn pcm24_scaling_matches_around_every_power_of_two() {
    for shift in 0..24 {
        let power: i32 = 1 << shift;
        for delta in -64i32..=64 {
            for code in [power + delta, -(power + delta)] {
                if -8_388_608 <= code && code < 8_388_608 {
                    let expected = (code as f32 / 8_388_608.0).to_bits();
                    assert_eq!(scale_pcm(code, 23), expected, "code {}", code);
                }
            }
        }
    }
}

#[test]
fn pcm16_bytes_are_little_endian_and_signed() {
    assert_eq!(pcm16_from_le(0x00, 0x40), 16384);
    assert_eq!(pcm16_from_le(0x00, 0x80), -32768);
    assert_eq!(pcm16_from_le(0xff, 0xff), -1);
    assert_eq!(pcm16_from_le(0xff, 0x7f), 32767);
    for code in i16::MIN..=i16::MAX {
        let bytes = code.to_le_bytes();
        assert_eq!(pcm16_from_le(bytes[0], bytes[1]), code as i32);
    }
}

#[test]
fn pcm24_bytes_are_sign_extended() {
    assert_eq!(pcm24_from_le(0x00, 0x00, 0x40), 4_194_304);
    assert_eq!(pcm24_from_le(0x00, 0x00, 0x80), -8_388_608);
    assert_eq!(pcm24_from_le(0xff, 0xff, 0xff), -1);
    assert_eq!(pcm24_from_le(0xff, 0xff, 0x7f), 8_388_607);
    assert_eq!(pcm24_from_le(0x01, 0x02, 0x03), 0x030201);
}

#[test]
fn words_round_trip_through_little_endian_bytes() {
    assert_eq!(word_from_le(0x78, 0x56, 0x34, 0x12), 0x1234_5678);
    assert_eq!(word_to_le(0x1234_5678), [0x78, 0x56, 0x34, 0x12]);
    for word in [0u32, 1, 0x3f80_0000, 0xbf80_0000, 0x7fc0_0000, u32::MAX] {
        let b = word_to_le(word);
        assert_eq!(b, word.to_le_bytes());
        assert_eq!(word_from_le(b[0], b[1], b[2], b[3]), word);
    }
}

#[test]
fn float32_packets_are_reinterpreted() {
    let values = [0.25f32, -1.0, 0.0, 1.0e-20, f32::MAX];
    let data: Vec<u8> = values.iter().flat_map(|v| v.to_le_bytes()).collect();
    let samples = normalize_bytes(&data, SampleEncoding::Float32);
    let expected: Vec<u32> = values.iter().map(|v| v.to_bits()).collect();
    assert_eq!(samples, expected);
}

#[test]
fn trailing_partial_sample_is_not_decoded() {
    let data = [0u8, 0, 128, 63, 1, 2, 3];
    assert_eq!(normalize_bytes(&data, SampleEncoding::Float32), vec![1.0f32.to_bits()]);
    assert_eq!(normalize_bytes(&data, SampleEncoding::Pcm16).len(), 3);
    assert_eq!(normalize_bytes(&data, SampleEncoding::Pcm24).len(), 2);
    assert_eq!(normalize_bytes(&[], SampleEncoding::Pcm24).len(), 0);
}

#[test]
fn pcm16_packets_are_scaled() {
    let data = [0x00u8, 0x40, 0x00, 0x80, 0x00, 0x00, 0x00, 0xc0];
    let samples = normalize_bytes(&data, SampleEncoding::Pcm16);
    let floats: Vec<f32> = samples.iter().map(|b| f32::from_bits(*b)).collect();
    assert_eq!(floats, vec![0.5, -1.0, 0.0, -0.5]);
}

#[test]
fn pcm24_packets_are_scaled() {
    let data = [0x00u8, 0x00, 0x40, 0x00, 0x00, 0x80, 0x00, 0x00, 0x20];
    let samples = normalize_bytes(&data, SampleEncoding::Pcm24);
    let floats: Vec<f32> = samples.iter().map(|b| f32::from_bits(*b)).collect();
    assert_eq!(floats, vec![0.5, -1.0, 0.25]);
}

#[test]
fn unknown_depth_falls_back_to_float32() {
    let format = CaptureFormat {
        sample_rate: 44100,
        channels: 2,
        is_float: false,
        bits_per_sample: 8,
        block_align: 2,
    };
    assert_eq!(format.encoding(), SampleEncoding::Unsupported);
    assert!(format.encoding().is_fallback());
    let data = 0.75f32.to_le_bytes().to_vec();
    let chunk = normalize(&RawChunk { data, frames: 2, format });
    assert_eq!(chunk.samples, vec![0.75f32.to_bits()]);
    assert_eq!(chunk.sample_rate, 44100);
    assert_eq!(chunk.channels, 2);
}

#[test]
fn encoding_follows_float_flag_then_depth() {
    let mut format = float_format(48000, 2);
    assert_eq!(format.encoding(), SampleEncoding::Float32);
    assert!(!format.encoding().is_fallback());
    format.bits_per_sample = 16;
    assert_eq!(format.encoding(), SampleEncoding::Float32);
    format.is_float = false;
    assert_eq!(format.encoding(), SampleEncoding::Pcm16);
    format.bits_per_sample = 24;
    assert_eq!(format.encoding(), SampleEncoding::Pcm24);
    format.bits_per_sample = 32;
    assert_eq!(format.encoding(), SampleEncoding::Unsupported);
}

#[test]
fn decode_sample_reads_the_position_asked_for() {
    let data = [1u8, 0, 2, 0, 3, 0, 4, 0];
    assert_eq!(decode_sample(&data, SampleEncoding::Pcm16, 2), scale_pcm(3, 15));
    assert_eq!(decode_sample(&data, SampleEncoding::Float32, 1), 0x0004_0003);
    assert_eq!(decode_sample(&data, SampleEncoding::Pcm24, 1), scale_pcm(0x000300, 23));
    assert_eq!(decode_sample(&data, SampleEncoding::Pcm24, 2), SILENCE);
    assert_eq!(decode_sample(&data, SampleEncoding::Pcm16, 4), SILENCE);
    assert_eq!(decode_sample(&data, SampleEncoding::Unsupported, 2), SILENCE);
    assert_eq!(samples_in(8, SampleEncoding::Pcm24), 2);
    assert_eq!(samples_in(8, SampleEncoding::Pcm16), 4);
    assert_eq!(samples_in(8, SampleEncoding::Float32), 2);
}

#[test]
fn failed_negotiation_uses_the_fallback_format() {
    let (format, source) = negotiate_format(None);
    assert_eq!(source, FormatSource::Fallback);
    assert_eq!(format, CaptureFormat::fallback());
    assert_eq!(format.sample_rate, 48000);
    assert_eq!(format.channels, 2);
    assert_eq!(format.bits_per_sample, 32);
    assert_eq!(format.block_align, 8);
    assert!(format.is_float);
    assert!(format.is_canonical());
}

#[test]
fn native_format_is_taken_as_reported() {
    let mix = MixFormat {
        format_tag: 1,
        channels: 1,
        samples_per_sec: 44100,
        bits_per_sample: 16,
        block_align: 2,
        sub_format: 1,
    };
    let (format, source) = negotiate_format(Some(mix));
    assert_eq!(source, FormatSource::Native);
    assert_eq!(
        format,
        CaptureFormat {
            sample_rate: 44100,
            channels: 1,
            is_float: false,
            bits_per_sample: 16,
            block_align: 2
        }
    );
    assert!(!format.is_canonical());
}

#[test]
fn float_is_told_by_tag_or_sub_format() {
    let mut mix = MixFormat {
        format_tag: WAVE_FORMAT_IEEE_FLOAT,
        channels: 2,
        samples_per_sec: 48000,
        bits_per_sample: 32,
        block_align: 8,
        sub_format: 0,
    };
    assert!(mix.is_float());
    mix.format_tag = WAVE_FORMAT_EXTENSIBLE;
    assert!(!mix.is_float());
    mix.sub_format = 3;
    assert!(mix.is_float());
    mix.sub_format = 1;
    assert!(!mix.is_float());
    mix.format_tag = 1;
    mix.sub_format = 3;
    assert!(!mix.is_float());
    assert!(negotiate_format(Some(mix)).0.encoding() == SampleEncoding::Unsupported);
}
