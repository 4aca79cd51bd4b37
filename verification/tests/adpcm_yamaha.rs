use rustwav::adpcm::yamaha::{Decoder, DecoderMono, DecoderStereo, Encoder, EncoderMono, EncoderStereo};
use rustwav::adpcm::{AdpcmDecoder, AdpcmEncoder, AdpcmError};
use rustwav::wavcore::FmtChunk;

fn samples() -> Vec<i16> {
    vec![0, 100, 200, 300, -500, 1000, 32767, -32768, 5, 7]
}

fn fmt(channels: u16) -> FmtChunk {
    FmtChunk {
        format_tag: 0x20,
        channels,
        sample_rate: 44100,
        byte_rate: 44100,
        block_align: 1024,
        bits_per_sample: 4,
        extension: None,
    }
}

#[test]
fn yamaha_mono_encodes_known_bytes() {
    let mut enc = EncoderMono::new();
    let mut out = Vec::new();
    enc.encode(&samples(), &mut out);
    assert_eq!(out, vec![32, 35, 127, 247, 129]);
}

#[test]
fn yamaha_mono_decodes_known_samples() {
    let mut dec = DecoderMono::new();
    let mut out = Vec::new();
    assert_eq!(dec.decode(&[32, 35, 127, 247, 129], &mut out), Ok(()));
    assert_eq!(out, vec![15, 94, 205, 284, 46, 616, 1982, -1295, 277, -193]);
}

#[test]
fn yamaha_mono_decoder_gives_back_encoder_reconstruction() {
    let mut enc = Encoder::new(1).unwrap();
    let mut dec = Decoder::new(fmt(1)).unwrap();
    let mut out = Vec::new();
    let r = rustwav::adpcm::test(&mut enc, &mut dec, &samples(), &mut out);
    assert_eq!(r, Ok(()));
    assert_eq!(out, vec![15, 94, 205, 284, 46, 616, 1982, -1295, 277, -193]);
}

#[test]
fn yamaha_stereo_decoder_gives_back_encoder_reconstruction() {
    let mut enc = EncoderStereo::new();
    let mut bytes = Vec::new();
    enc.encode(&samples(), &mut bytes);
    assert_eq!(bytes, vec![48, 85, 127, 247, 10]);
    let mut dec = DecoderStereo::new();
    let mut out = Vec::new();
    assert_eq!(dec.decode(&bytes, &mut out), Ok(()));
    assert_eq!(out, vec![15, 111, 189, 285, -189, 663, 718, -244, -7, -99]);
}

#[test]
fn yamaha_flush_pads_the_last_sample_with_zero() {
    let mut enc = Encoder::new(1).unwrap();
    let mut out = Vec::new();
    enc.encode(&[0, 100, 200], &mut out).unwrap();
    assert_eq!(out, vec![32]);
    enc.flush(&mut out).unwrap();
    assert_eq!(out.len(), 2);
    let mut again = Vec::new();
    enc.flush(&mut again).unwrap();
    assert!(again.is_empty());
}

#[test]
fn yamaha_encode_sample_packs_low_nibble_first() {
    let mut enc = EncoderMono::new();
    let byte = enc.encode_sample(&[0, 100]);
    assert_eq!(byte, 32);
    let mut dec = DecoderMono::new();
    assert_eq!(dec.decode_sample(byte), [15, 94]);
}

#[test]
fn yamaha_rejects_three_channels() {
    assert!(matches!(Encoder::new(3), Err(AdpcmError::WrongChannels(3))));
    assert!(matches!(Decoder::new(fmt(3)), Err(AdpcmError::WrongChannels(3))));
}

#[test]
fn yamaha_fmt_chunk_fields() {
    let mut enc = Encoder::new(2).unwrap();
    let f = enc.new_fmt_chunk(2, 44100, 16).unwrap();
    assert_eq!(f.format_tag, 0x20);
    assert_eq!(f.channels, 2);
    assert_eq!(f.sample_rate, 44100);
    assert_eq!(f.byte_rate, 44100);
    assert_eq!(f.block_align, 1024);
    assert_eq!(f.bits_per_sample, 4);
    assert!(f.extension.is_none());
}

#[test]
fn yamaha_block_size_and_frames() {
    let mono = Decoder::new(fmt(1)).unwrap();
    let stereo = Decoder::new(fmt(2)).unwrap();
    assert_eq!(mono.get_block_size(), 1024);
    assert_eq!(mono.frames_per_block(), 2048);
    assert_eq!(stereo.frames_per_block(), 1024);
    assert_eq!(stereo.get_channels(), 2);
}

#[test]
fn yamaha_reset_states_restarts_decoding() {
    let mut dec = Decoder::new(fmt(1)).unwrap();
    let mut first = Vec::new();
    dec.decode(&[32, 35], &mut first).unwrap();
    dec.reset_states();
    let mut second = Vec::new();
    dec.decode(&[32, 35], &mut second).unwrap();
    assert_eq!(first, second);
}

#[test]
fn yamaha_mono_decode_sample_from_new() {
    let mut d = DecoderMono::new();
    assert_eq!(d.decode_sample(0x83), [111, 96]);
}

#[test]
fn yamaha_stereo_decode_sample_by_channel() {
    let mut d = DecoderStereo::new();
    assert_eq!(d.decode_sample(0x33), [111, 111]);
    let mut d2 = DecoderStereo::new();
    assert_eq!(d2.decode_sample(0x13), [111, 47]);
}

#[test]
fn yamaha_encode_sample_then_decode_sample() {
    let mut e = EncoderMono::new();
    let byte = e.encode_sample(&[100, 50]);
    assert_eq!(byte, 0x93);
    let mut d = DecoderMono::new();
    assert_eq!(d.decode_sample(byte), [111, 64]);
    let mut es = EncoderStereo::new();
    let byte = es.encode_sample(&[100, 50]);
    assert_eq!(byte, 0x13);
    let mut ds = DecoderStereo::new();
    assert_eq!(ds.decode_sample(byte), [111, 47]);
}

#[test]
fn yamaha_mono_encoder_in_chunks_as_in_one_call() {
    let input: Vec<i16> = vec![100, 50, -300, 7, 2000, -2000, 5];
    let mut one = EncoderMono::new();
    let mut out_one = Vec::new();
    one.encode(&input, &mut out_one);
    let mut two = EncoderMono::new();
    let mut out_two = Vec::new();
    two.encode(&input[..3], &mut out_two);
    two.encode(&input[3..], &mut out_two);
    assert_eq!(out_one, out_two);
    one.flush(&mut out_one);
    two.flush(&mut out_two);
    assert_eq!(out_one, out_two);
}

#[test]
fn yamaha_decoder_refuses_a_predictor_overflow() {
    let bytes = vec![0x77u8; 40000];
    let mut dec = DecoderMono::new();
    let mut out = Vec::new();
    assert_eq!(dec.decode(&bytes, &mut out), Err(AdpcmError::PredictorOverflow));
    assert!(out.len() % 2 == 0);
    assert!(out.len() < 80000);
    let mut st = DecoderStereo::new();
    let mut out2 = Vec::new();
    assert_eq!(st.decode(&vec![0x77u8; 70000], &mut out2), Err(AdpcmError::PredictorOverflow));
    let mut d = Decoder::new(fmt(1)).unwrap();
    let mut out3 = Vec::new();
    assert_eq!(d.decode(&bytes, &mut out3), Err(AdpcmError::PredictorOverflow));
    assert_eq!(out3, out);
}
