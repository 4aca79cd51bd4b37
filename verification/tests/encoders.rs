use rustwav::adpcm::{ms, yamaha, AdpcmEncoder, AdpcmError};
use rustwav::audiocore::{SampleFormat, Spec};
use rustwav::encoders::{stereos_to_interleaved_samples, AdpcmEncoderWrap, OpusBitrate, OpusEncoderOptions, OpusEncoderSampleDuration, MAX_BUFFER_USAGE, pack_naked_vorbis_header};

fn spec(channels: u16) -> Spec {
    Spec { channels, channel_mask: 0, sample_rate: 44100, bits_per_sample: 4, sample_format: SampleFormat::Int }
}

fn samples() -> Vec<i16> {
    vec![0, 100, 200, 300, -500, 1000, 32767, -32768, 5, 7]
}

#[test]
fn encoder_wrap_refuses_three_channels() {
    let r = AdpcmEncoderWrap::<yamaha::Encoder>::new(&spec(3));
    assert!(matches!(r, Err(AdpcmError::WrongChannels(3))));
}

#[test]
fn encoder_wrap_holds_bytes_until_the_end() {
    let mut w = AdpcmEncoderWrap::<yamaha::Encoder>::new(&spec(1)).unwrap();
    assert_eq!(w.get_channels(), 1);
    assert_eq!(w.get_max_channels(), 2);
    assert_eq!(w.begin_encoding(), Ok(()));
    assert_eq!(w.write_interleaved_samples(&samples()), Ok(None));
    assert_eq!(w.finish(), Ok(vec![32, 35, 127, 247, 129]));
    assert_eq!(w.finish(), Ok(vec![]));
}

#[test]
fn encoder_wrap_hands_out_bytes_at_the_buffer_limit() {
    let input: Vec<i16> = (0..2 * MAX_BUFFER_USAGE as i32).map(|i| ((i * 53) % 3000 - 1500) as i16).collect();
    let mut direct = yamaha::Encoder::new(1).unwrap();
    let mut expected = Vec::new();
    direct.encode(&input, &mut expected).unwrap();
    assert_eq!(expected.len(), MAX_BUFFER_USAGE);
    let mut w = AdpcmEncoderWrap::<yamaha::Encoder>::new(&spec(1)).unwrap();
    assert_eq!(w.write_interleaved_samples(&input[..100]), Ok(None));
    assert_eq!(w.write_interleaved_samples(&input[100..]), Ok(Some(expected)));
    assert_eq!(w.finish(), Ok(vec![]));
}

#[test]
fn encoder_wrap_takes_stereo_frames_only_in_stereo() {
    let frames = vec![(0, 100), (200, 300), (-500, 1000), (32767, -32768), (5, 7)];
    let mut mono = AdpcmEncoderWrap::<yamaha::Encoder>::new(&spec(1)).unwrap();
    assert_eq!(mono.write_stereos(&frames), Err(AdpcmError::WrongChannels(1)));
    let mut stereo = AdpcmEncoderWrap::<yamaha::Encoder>::new(&spec(2)).unwrap();
    assert_eq!(stereo.write_stereos(&frames), Ok(None));
    assert_eq!(stereo.finish(), Ok(vec![48, 85, 127, 247, 10]));
}

#[test]
fn stereo_frames_interleave_left_first() {
    assert_eq!(stereos_to_interleaved_samples(&[(1, 2), (3, 4)]), vec![1, 2, 3, 4]);
    assert_eq!(stereos_to_interleaved_samples(&[]), Vec::<i16>::new());
}

#[test]
fn encoder_wrap_bitrate_and_fmt_chunk() {
    let mut w = AdpcmEncoderWrap::<ms::Encoder>::new(&spec(2)).unwrap();
    assert_eq!(w.get_bitrate(), 44100 * 2 * 4);
    let mut f = w.new_fmt_chunk().unwrap();
    assert_eq!(f.format_tag, 2);
    assert_eq!(f.channels, 2);
    assert_eq!(f.block_align, 2048);
    assert_eq!(f.bits_per_sample, 4);
    f.byte_rate = 0;
    assert_eq!(w.update_fmt_chunk(&mut f), Ok(()));
    assert_eq!(f.byte_rate, 44100 * 2 * 4 / 8);
    f.extension = None;
    assert_eq!(w.update_fmt_chunk(&mut f), Err(AdpcmError::MissingExtensionData));
}

#[test]
fn opus_sample_rate_rounds_up_to_an_allowed_one() {
    let o = OpusEncoderOptions::new();
    assert_eq!(o.get_allowed_sample_rates(), [8000, 12000, 16000, 24000, 48000]);
    assert_eq!(o.get_rounded_up_sample_rate(0), 8000);
    assert_eq!(o.get_rounded_up_sample_rate(8000), 8000);
    assert_eq!(o.get_rounded_up_sample_rate(8001), 12000);
    assert_eq!(o.get_rounded_up_sample_rate(22050), 24000);
    assert_eq!(o.get_rounded_up_sample_rate(44100), 48000);
    assert_eq!(o.get_rounded_up_sample_rate(96000), 48000);
    assert_eq!(OpusEncoderSampleDuration::MilliSec60.get_num_samples(2, 48000), 5760);
    assert_eq!(OpusEncoderSampleDuration::MilliSec2_5.get_num_samples(1, 8000), 20);
    assert_eq!(OpusEncoderOptions::default(), o);
    assert_eq!(o.bitrate, OpusBitrate::Max);
}

#[test]
fn naked_vorbis_header_packs_sizes_then_headers() {
    let r = pack_naked_vorbis_header(&[1, 2, 3], &[4], &[5, 6]);
    assert_eq!(r, vec![2, 3, 1, 1, 2, 3, 4, 5, 6]);
    let long = vec![9u8; 300];
    let r2 = pack_naked_vorbis_header(&long, &[], &[]);
    assert_eq!(r2[1], 44);
    assert_eq!(r2[2], 0);
    assert_eq!(r2.len(), 303);
}
