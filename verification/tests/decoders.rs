use rustwav::adpcm::{ms, yamaha, AdpcmDecoder, AdpcmEncoder, AdpcmError};
use rustwav::decoders::{convert_channels, mean, AdpcmDecoderWrap, SeekFrom};
use rustwav::wavcore::FmtChunk;

fn yamaha_fmt(channels: u16) -> FmtChunk {
    FmtChunk {
        format_tag: 0x20,
        channels,
        sample_rate: 44100,
        byte_rate: 44100,
        block_align: 1024,
        bits_per_sample: 4,
        extension: None,
    }
}

const MONO_BYTES: [u8; 5] = [32, 35, 127, 247, 129];
const MONO_SAMPLES: [i16; 10] = [15, 94, 205, 284, 46, 616, 1982, -1295, 277, -193];
const STEREO_BYTES: [u8; 5] = [48, 85, 127, 247, 10];
const STEREO_SAMPLES: [i16; 10] = [15, 111, 189, 285, -189, 663, 718, -244, -7, -99];

fn yamaha_wrap(channels: u16, bytes: &[u8], total_samples: u64) -> AdpcmDecoderWrap<yamaha::Decoder> {
    AdpcmDecoderWrap::<yamaha::Decoder>::new(bytes.to_vec(), 44, &yamaha_fmt(channels), total_samples).unwrap()
}

#[test]
fn wrap_decodes_mono_samples_in_order_then_ends() {
    let mut w = yamaha_wrap(1, &MONO_BYTES, 0);
    for (i, s) in MONO_SAMPLES.iter().enumerate() {
        assert_eq!(w.get_cur_frame_index(), i as u64);
        assert_eq!(w.decode_mono(), Ok(Some(*s)));
    }
    assert_eq!(w.decode_mono(), Ok(None));
    assert_eq!(w.get_cur_frame_index(), 10);
    assert_eq!(w.decode_mono(), Ok(None));
}

#[test]
fn wrap_gives_mono_samples_twice_as_stereo_frames() {
    let mut w = yamaha_wrap(1, &MONO_BYTES, 0);
    assert_eq!(w.decode_stereo(), Ok(Some((15, 15))));
    assert_eq!(w.decode_frame(), Ok(Some(vec![94])));
    assert_eq!(w.decode_stereo(), Ok(Some((205, 205))));
}

#[test]
fn wrap_decodes_stereo_frames_in_order_then_ends() {
    let mut w = yamaha_wrap(2, &STEREO_BYTES, 0);
    assert_eq!(w.get_channels(), 2);
    for k in 0..5 {
        assert_eq!(w.decode_stereo(), Ok(Some((STEREO_SAMPLES[2 * k], STEREO_SAMPLES[2 * k + 1]))));
        assert_eq!(w.get_cur_frame_index(), k as u64 + 1);
    }
    assert_eq!(w.decode_stereo(), Ok(None));
    assert_eq!(w.decode_frame(), Ok(None));
}

#[test]
fn wrap_mixes_stereo_frames_into_their_mean() {
    let mut w = yamaha_wrap(2, &STEREO_BYTES, 0);
    assert_eq!(w.decode_mono(), Ok(Some(63)));
    assert_eq!(w.decode_frame(), Ok(Some(vec![189, 285])));
    assert_eq!(w.decode_mono(), Ok(Some(237)));
    assert_eq!(w.decode_mono(), Ok(Some(237)));
    assert_eq!(w.decode_mono(), Ok(Some(-53)));
    assert_eq!(w.decode_mono(), Ok(None));
}

#[test]
fn mean_rounds_toward_zero() {
    assert_eq!(mean(1, 2), 1);
    assert_eq!(mean(-1, -2), -1);
    assert_eq!(mean(32767, 32767), 32767);
    assert_eq!(mean(-32768, -32768), -32768);
    assert_eq!(mean(-7, -99), -53);
}

#[test]
fn wrap_seeks_to_a_frame_from_the_start() {
    let mut w = yamaha_wrap(1, &MONO_BYTES, 10);
    assert_eq!(w.decode_mono(), Ok(Some(15)));
    w.seek(SeekFrom::Start(3));
    assert_eq!(w.get_cur_frame_index(), 3);
    assert_eq!(w.decode_mono(), Ok(Some(284)));
    assert_eq!(w.decode_mono(), Ok(Some(46)));
}

#[test]
fn wrap_seeks_from_the_current_frame_and_from_the_end() {
    let mut w = yamaha_wrap(1, &MONO_BYTES, 10);
    w.seek(SeekFrom::Start(5));
    w.seek(SeekFrom::Current(-2));
    assert_eq!(w.get_cur_frame_index(), 3);
    assert_eq!(w.decode_mono(), Ok(Some(284)));
    w.seek(SeekFrom::End(-1));
    assert_eq!(w.get_cur_frame_index(), 9);
    assert_eq!(w.decode_mono(), Ok(Some(-193)));
    assert_eq!(w.decode_mono(), Ok(None));
}

#[test]
fn wrap_seek_past_the_last_frame_ends_the_data() {
    let mut w = yamaha_wrap(1, &MONO_BYTES, 10);
    w.seek(SeekFrom::Start(100));
    assert_eq!(w.get_cur_frame_index(), 100);
    assert_eq!(w.decode_mono(), Ok(None));
    assert_eq!(w.decode_frame(), Ok(None));
}

#[test]
fn wrap_refuses_three_channels() {
    let r = AdpcmDecoderWrap::<yamaha::Decoder>::new(MONO_BYTES.to_vec(), 0, &yamaha_fmt(3), 0);
    assert!(matches!(r, Err(AdpcmError::WrongChannels(3))));
}

#[test]
fn wrap_passes_on_the_decoder_error() {
    let mut enc = ms::Encoder::new(1).unwrap();
    let fmt = enc.new_fmt_chunk(1, 8000, 4).unwrap();
    let mut w = AdpcmDecoderWrap::<ms::Decoder>::new(vec![7, 16, 0, 0, 0, 0, 0], 0, &fmt, 0).unwrap();
    assert_eq!(w.decode_mono(), Err(AdpcmError::PredictorOutOfRange(7)));
}

#[test]
fn wrap_decodes_a_whole_ms_block_as_the_decoder_does() {
    let samples: Vec<i16> = (0..300).map(|i| ((i * 97) % 2000 - 1000) as i16).collect();
    let mut enc = ms::Encoder::new(1).unwrap();
    let fmt = enc.new_fmt_chunk(1, 8000, 4).unwrap();
    let mut bytes = Vec::new();
    enc.encode(&samples, &mut bytes).unwrap();
    enc.flush(&mut bytes).unwrap();
    assert_eq!(bytes.len(), 1024);
    let mut dec = ms::Decoder::new(fmt).unwrap();
    let mut expected = Vec::new();
    dec.decode(&bytes, &mut expected).unwrap();
    assert_eq!(expected.len(), 2 + 2 * (1024 - 7));
    let mut w = AdpcmDecoderWrap::<ms::Decoder>::new(bytes, 0, &fmt, 0).unwrap();
    let mut got = Vec::new();
    while let Some(s) = w.decode_mono().unwrap() {
        got.push(s);
    }
    assert_eq!(got, expected);
    assert_eq!(w.get_cur_frame_index(), 2036);
    w.seek(SeekFrom::Start(2000));
    assert_eq!(w.decode_mono(), Ok(Some(expected[2000])));
}

#[test]
fn convert_channels_spreads_mixes_or_keeps() {
    assert_eq!(convert_channels(&[1, 2], 1, 2), vec![1, 1, 2, 2]);
    assert_eq!(convert_channels(&[7], 1, 3), vec![7, 7, 7]);
    assert_eq!(convert_channels(&[1, 2, -3, -4, 5], 2, 1), vec![1, -3, 5]);
    assert_eq!(convert_channels(&[32767, 32767, 32767, -32768, -32768, -32768], 3, 1), vec![32767, -32768]);
    assert_eq!(convert_channels(&[1, 2, 3, 4], 2, 2), vec![1, 2, 3, 4]);
    assert_eq!(convert_channels(&[1, 2, 3], 2, 6), vec![1, 2, 3]);
    assert_eq!(convert_channels(&[1, 2, 3], 0, 1), Vec::<i16>::new());
    assert_eq!(convert_channels(&[1, 2, 3], 1, 0), Vec::<i16>::new());
}
