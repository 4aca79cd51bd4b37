use rustwav::adpcm::ima::{Decoder, DecoderCore, Encoder, EncoderCore, StereoDecoder, StereoEncoder};
use rustwav::adpcm::{AdpcmDecoder, AdpcmEncoder, AdpcmError};
use rustwav::wavcore::{ExtensionData, FmtChunk};

fn mono_samples() -> Vec<i16> {
    vec![0, 100, 200, 300, -500, 1000, 32767, -32768, 5, 7, 8, 9, 10, 11, 12, 13]
}

fn stereo_samples() -> Vec<i16> {
    (0..32).map(|i: i32| ((i * 37) % 2000 - 1000) as i16).collect()
}

fn fmt(channels: u16) -> FmtChunk {
    let mut enc = Encoder::new(channels).unwrap();
    enc.new_fmt_chunk(channels, 8000, 4).unwrap()
}

#[test]
fn ima_encode_sample_first_nibble() {
    let mut core = EncoderCore::new();
    assert_eq!(core.encode_sample(100), 7);
}

#[test]
fn ima_mono_encodes_header_then_bytes() {
    let mut enc = EncoderCore::new();
    let mut out = Vec::new();
    assert_eq!(enc.encode(&mono_samples(), &mut out), Ok(()));
    assert_eq!(out, vec![0, 0, 0, 0, 112, 119, 127, 247, 129, 128, 128, 128]);
}

#[test]
fn ima_mono_decodes_what_it_encoded() {
    let mut enc = Encoder::new(1).unwrap();
    let mut bytes = Vec::new();
    enc.encode(&mono_samples(), &mut bytes).unwrap();
    let mut dec = Decoder::new(fmt(1)).unwrap();
    let mut out = Vec::new();
    dec.decode(&bytes, &mut out).unwrap();
    assert_eq!(out, vec![0, 0, 13, 43, 106, -30, 264, 895, -462, 120, -56, 104, -41, 91, -29, 80, -19]);
}

#[test]
fn ima_stereo_encodes_runs_of_four_bytes() {
    let mut enc = StereoEncoder::new();
    let mut out = Vec::new();
    assert_eq!(enc.encode(&stereo_samples(), &mut out), Ok(()));
    assert_eq!(out, vec![0, 0, 0, 0, 0, 0, 0, 0, 255, 255, 159, 1, 255, 255, 143, 16, 17, 17, 33, 33, 1, 17, 18, 18]);
}

#[test]
fn ima_stereo_decodes_interleaved_samples() {
    let bytes = vec![0, 0, 0, 0, 0, 0, 0, 0, 255, 255, 159, 1, 255, 255, 143, 16, 17, 17, 33, 33, 1, 17, 18, 18];
    let mut dec = StereoDecoder::new(fmt(2));
    let mut out = Vec::new();
    dec.decode(&bytes, &mut out).unwrap();
    assert_eq!(
        out,
        vec![
            0, 0, -13, -13, -43, -43, -106, -106, -242, -242, -536, -536, -662, -578, -547, -540, -513, -436, -419,
            -342, -333, -314, -255, -236, -184, -165, -120, -57, -22, 1, 31, 90, 112, 138,
        ]
    );
}

#[test]
fn ima_decoder_refuses_nonzero_reserved_byte() {
    let mut dec = DecoderCore::new(fmt(1));
    let mut out = Vec::new();
    assert_eq!(dec.decode(&[0, 0, 0, 9], &mut out), Err(AdpcmError::ReservedByteNotZero(9)));
    assert!(out.is_empty());
}

#[test]
fn ima_decoder_flush_completes_the_block() {
    let mut dec = DecoderCore::new(fmt(1));
    let mut out = Vec::new();
    dec.decode(&[0, 0, 0, 0, 0x11], &mut out).unwrap();
    assert!(!dec.on_new_block());
    dec.flush(&mut out).unwrap();
    assert!(dec.on_new_block());
    assert_eq!(out.len(), 1 + (512 - 4) * 2);
}

#[test]
fn ima_fmt_chunk_fields() {
    let f = fmt(2);
    assert_eq!(f.format_tag, 0x11);
    assert_eq!(f.channels, 2);
    assert_eq!(f.block_align, 1024);
    assert_eq!(f.byte_rate, 8000);
    match f.extension.unwrap().data {
        ExtensionData::AdpcmIma(d) => assert_eq!(d.samples_per_block, 2032),
        _ => panic!("wrong extension"),
    }
}

#[test]
fn ima_rejects_three_channels() {
    assert!(matches!(Encoder::new(3), Err(AdpcmError::WrongChannels(3))));
}

#[test]
fn ima_block_size_and_frames() {
    let dec = Decoder::new(fmt(2)).unwrap();
    assert_eq!(dec.get_block_size(), 512);
    assert_eq!(dec.frames_per_block(), 1016);
}

#[test]
fn ima_mono_flush_pads_the_block_bytes() {
    let mut enc = EncoderCore::new();
    let mut out = Vec::new();
    assert_eq!(enc.encode(&[1, 2, 3], &mut out), Ok(()));
    assert_eq!(out.len(), 5);
    assert_eq!(enc.flush(&mut out), Ok(()));
    assert_eq!(out.len(), 512);
    assert_eq!(enc.flush(&mut out), Ok(()));
    assert_eq!(out.len(), 512);
}

#[test]
fn ima_mono_flush_completes_the_pending_half_byte_and_the_block() {
    let mut enc = EncoderCore::new();
    let mut out = Vec::new();
    assert_eq!(enc.flush(&mut out), Ok(()));
    assert!(out.is_empty());
    assert_eq!(enc.encode(&[100], &mut out), Ok(()));
    assert_eq!(out, vec![0, 0, 0, 0]);
    assert_eq!(enc.flush(&mut out), Ok(()));
    assert_eq!(out.len(), 512);
    assert_eq!(out[4] & 0x0F, 7);
}

#[test]
fn ima_modify_fmt_chunk_needs_ima_extension() {
    let enc = Encoder::new(1).unwrap();
    let mut f = FmtChunk {
        format_tag: 0x11,
        channels: 1,
        sample_rate: 8000,
        byte_rate: 0,
        block_align: 0,
        bits_per_sample: 0,
        extension: None,
    };
    assert_eq!(enc.modify_fmt_chunk(&mut f), Err(AdpcmError::MissingExtensionData));
    assert_eq!(f.block_align, 512);
    assert_eq!(f.bits_per_sample, 4);
    assert_eq!(f.byte_rate, 16000);
}

#[test]
fn ima_stereo_incomplete_run_waits_in_the_encoder() {
    let mut samples = stereo_samples();
    samples.extend_from_slice(&[500, -500, 600, -600, 700]);
    let mut enc = Encoder::new(2).unwrap();
    let mut bytes = Vec::new();
    enc.encode(&samples, &mut bytes).unwrap();
    assert_eq!(bytes, vec![0, 0, 0, 0, 0, 0, 0, 0, 255, 255, 159, 1, 255, 255, 143, 16, 17, 17, 33, 33, 1, 17, 18, 18]);
    let mut dec = Decoder::new(fmt(2)).unwrap();
    let mut out = Vec::new();
    dec.decode(&bytes, &mut out).unwrap();
    assert_eq!(out.len(), 2 * (1 + 16));
    assert_eq!(&out[0..4], &[0, 0, -13, -13]);
}

#[test]
fn ima_decoder_refuses_step_index_out_of_table() {
    let mut dec = DecoderCore::new(fmt(1));
    let mut out = Vec::new();
    assert_eq!(dec.decode(&[0, 0, 89, 0], &mut out), Err(AdpcmError::StepIndexOutOfRange(89)));
    assert!(out.is_empty());
    let mut dec2 = DecoderCore::new(fmt(1));
    assert_eq!(dec2.decode(&[0, 0, 0xFF, 0], &mut out), Err(AdpcmError::StepIndexOutOfRange(0xFF)));
    let mut stereo = Decoder::new(fmt(2)).unwrap();
    assert_eq!(
        stereo.decode(&[0, 0, 88, 0, 0, 0, 90, 0], &mut out),
        Err(AdpcmError::StepIndexOutOfRange(90))
    );
    assert!(out.is_empty());
}

#[test]
fn ima_decoder_flush_ends_on_a_block_boundary() {
    let mut dec = DecoderCore::new(fmt(1));
    let mut out = Vec::new();
    assert_eq!(dec.decode(&[0, 0], &mut out), Ok(()));
    assert_eq!(dec.flush(&mut out), Ok(()));
    assert!(dec.on_new_block());
    let mut bad = DecoderCore::new(fmt(1));
    assert_eq!(bad.decode(&[0, 0, 200], &mut out), Ok(()));
    assert_eq!(bad.flush(&mut out), Err(AdpcmError::StepIndexOutOfRange(200)));
}
