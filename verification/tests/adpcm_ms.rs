use rustwav::adpcm::ms::{AdpcmCoeffSet, Decoder, DecoderBreakfast, DecoderCore, Encoder, EncoderCore, StereoEncoder};
use rustwav::adpcm::{AdpcmDecoder, AdpcmEncoder, AdpcmError};
use rustwav::wavcore::{ExtensionData, FmtChunk};

fn samples() -> Vec<i16> {
    vec![0, 100, 200, 300, -500, 1000, 32767, -32768, 5, 7, 8, 9]
}

#[test]
fn ms_mono_encodes_header_then_nibbles() {
    let mut enc = Encoder::new(1).unwrap();
    let mut out = Vec::new();
    enc.encode(&samples(), &mut out).unwrap();
    assert_eq!(out, vec![0, 16, 0, 100, 0, 0, 0, 99, 135, 120, 16, 0]);
}

#[test]
fn ms_mono_decoder_gives_back_encoder_reconstruction() {
    let mut enc = Encoder::new(1).unwrap();
    let fmt = enc.new_fmt_chunk(1, 8000, 4).unwrap();
    let mut bytes = Vec::new();
    enc.encode(&samples(), &mut bytes).unwrap();
    let mut dec = Decoder::new(fmt).unwrap();
    let mut out = Vec::new();
    dec.decode(&bytes, &mut out).unwrap();
    assert_eq!(out, vec![0, 100, 196, 292, 68, 656, 2063, -1793, -347, -347, -347, -347]);
}

#[test]
fn ms_stereo_decoder_gives_back_encoder_reconstruction() {
    let mut enc = Encoder::new(2).unwrap();
    let fmt = enc.new_fmt_chunk(2, 8000, 4).unwrap();
    let mut bytes = Vec::new();
    enc.encode(&samples(), &mut bytes).unwrap();
    assert_eq!(bytes, vec![0, 0, 16, 0, 16, 0, 200, 0, 44, 1, 0, 0, 100, 0, 135, 120, 207, 0]);
    let mut dec = Decoder::new(fmt).unwrap();
    let mut out = Vec::new();
    dec.decode(&bytes, &mut out).unwrap();
    assert_eq!(out, vec![0, 100, 200, 300, 72, 412, 408, 108, -52, -6, -52, -6]);
}

#[test]
fn ms_flush_completes_the_block() {
    let mut enc = Encoder::new(1).unwrap();
    let mut out = Vec::new();
    enc.encode(&samples(), &mut out).unwrap();
    enc.flush(&mut out).unwrap();
    assert_eq!(out.len(), 1024);
}

#[test]
fn ms_decoder_refuses_predictor_above_six() {
    let mut enc = Encoder::new(1).unwrap();
    let fmt = enc.new_fmt_chunk(1, 8000, 4).unwrap();
    let mut dec = Decoder::new(fmt).unwrap();
    let mut out = Vec::new();
    let r = dec.decode(&[7, 16, 0, 0, 0, 0, 0], &mut out);
    assert_eq!(r, Err(AdpcmError::PredictorOutOfRange(7)));
    assert!(out.is_empty());
}

#[test]
fn ms_rejects_three_channels() {
    assert!(matches!(Encoder::new(3), Err(AdpcmError::WrongChannels(3))));
    let mut enc = Encoder::new(1).unwrap();
    let mut fmt = enc.new_fmt_chunk(1, 8000, 4).unwrap();
    fmt.channels = 3;
    assert!(matches!(Decoder::new(fmt), Err(AdpcmError::WrongChannels(3))));
}

#[test]
fn ms_fmt_chunk_holds_the_coefficients() {
    let mut enc = Encoder::new(2).unwrap();
    let f = enc.new_fmt_chunk(2, 22050, 16).unwrap();
    assert_eq!(f.format_tag, 2);
    assert_eq!(f.block_align, 2048);
    assert_eq!(f.bits_per_sample, 4);
    assert_eq!(f.byte_rate, 22050);
    let ext = f.extension.unwrap();
    assert_eq!(ext.ext_len, 32);
    match ext.data {
        ExtensionData::AdpcmMs(d) => {
            assert_eq!(d.samples_per_block, 4068);
            assert_eq!(d.num_coeff, 7);
            assert_eq!(d.coeffs[1], AdpcmCoeffSet { coeff1: 512, coeff2: -256 });
        },
        _ => panic!("wrong extension"),
    }
}

#[test]
fn ms_modify_fmt_chunk_needs_the_extension() {
    let enc = Encoder::new(1).unwrap();
    let mut fmt = FmtChunk {
        format_tag: 2,
        channels: 1,
        sample_rate: 8000,
        byte_rate: 0,
        block_align: 0,
        bits_per_sample: 0,
        extension: None,
    };
    assert_eq!(enc.modify_fmt_chunk(&mut fmt), Err(AdpcmError::MissingExtensionData));
    assert_eq!(fmt.block_align, 1024);
    assert_eq!(fmt.byte_rate, 4000);
    let mut enc2 = Encoder::new(1).unwrap();
    let mut good = enc2.new_fmt_chunk(1, 8000, 4).unwrap();
    assert_eq!(enc.modify_fmt_chunk(&mut good), Ok(()));
}

#[test]
fn ms_block_size_and_frames() {
    let mut enc = Encoder::new(2).unwrap();
    let fmt = enc.new_fmt_chunk(2, 8000, 4).unwrap();
    let dec = Decoder::new(fmt).unwrap();
    assert_eq!(dec.get_block_size(), 1024);
    assert_eq!(dec.frames_per_block(), 2034);
    assert_eq!(dec.get_channels(), 2);
    assert_eq!(dec.get_max_bytes_can_eat(), 2048);
}

#[test]
fn ms_coeff_set_get() {
    let c = AdpcmCoeffSet { coeff1: 460, coeff2: -208 };
    assert_eq!(c.get(1), 460);
    assert_eq!(c.get(2), -208);
    assert_eq!(AdpcmCoeffSet::new(), AdpcmCoeffSet { coeff1: 0, coeff2: 0 });
}

#[test]
fn ms_decoder_flush_completes_the_block() {
    let mut enc = Encoder::new(1).unwrap();
    let fmt = enc.new_fmt_chunk(1, 8000, 4).unwrap();
    let mut bytes = Vec::new();
    enc.encode(&samples(), &mut bytes).unwrap();
    let mut dec = Decoder::new(fmt).unwrap();
    let mut out = Vec::new();
    dec.decode(&bytes, &mut out).unwrap();
    assert_eq!(dec.get_bytes_eaten(), 12);
    dec.flush(&mut out).unwrap();
    assert_eq!(out.len(), 2 + 2 * (1024 - 7));
    assert_eq!(dec.get_bytes_eaten(), 0);
    assert!(!dec.is_ready());
}

fn mono_fmt() -> FmtChunk {
    let mut enc = Encoder::new(1).unwrap();
    enc.new_fmt_chunk(1, 8000, 4).unwrap()
}

#[test]
fn ms_encoder_core_takes_any_coefficient_table() {
    let mut table = [AdpcmCoeffSet { coeff1: 256, coeff2: 0 }; 7];
    table[0] = AdpcmCoeffSet { coeff1: -32768, coeff2: -32768 };
    let mut core = EncoderCore::new();
    assert!(!core.is_ready());
    assert_eq!(core.get_ready(&[5, -6], &table), (0, 16, -6, 5));
    assert!(core.is_ready());
}

#[test]
fn ms_stereo_encoder_get_ready_gives_both_headers() {
    let mut table = [AdpcmCoeffSet { coeff1: 0, coeff2: 0 }; 7];
    table[0] = AdpcmCoeffSet { coeff1: -32768, coeff2: -32768 };
    let mut enc = StereoEncoder::new();
    assert!(!enc.is_ready());
    assert_eq!(enc.get_ready(&[1, 2, 3, 4], &table), (0, 0, 16, 16, 3, 4, 1, 2));
    assert!(enc.is_ready());
}

#[test]
fn ms_decoder_core_takes_a_header_in_any_state() {
    let mut core = DecoderCore::new(mono_fmt());
    let header = DecoderBreakfast::from_bytes_mono(&[0, 16, 0, 100, 0, 50, 0]);
    let mut out = Vec::new();
    assert_eq!(core.get_ready(&header, &mut out), Ok(()));
    assert!(core.is_ready());
    assert_eq!(core.get_bytes_eaten(), 7);
    assert_eq!(core.get_ready(&header, &mut out), Ok(()));
    assert!(core.is_ready());
    assert_eq!(core.get_bytes_eaten(), 14);
    assert_eq!(out, vec![50, 100, 50, 100]);
    let bad = DecoderBreakfast::from_bytes_mono(&[9, 16, 0, 100, 0, 50, 0]);
    assert_eq!(core.get_ready(&bad, &mut out), Err(AdpcmError::PredictorOutOfRange(9)));
    assert_eq!(core.get_bytes_eaten(), 14);
    assert_eq!(out.len(), 4);
}

#[test]
fn ms_decoder_bytes_eaten_stay_below_the_block_size() {
    let fmt = mono_fmt();
    let mut dec = Decoder::new(fmt).unwrap();
    let mut out = Vec::new();
    let mut block = vec![0u8, 16, 0, 0, 0, 0, 0];
    block.resize(1024, 0x11);
    for _ in 0..3 {
        for chunk in block.chunks(100) {
            dec.decode(chunk, &mut out).unwrap();
            assert!(dec.get_bytes_eaten() < dec.get_max_bytes_can_eat());
        }
    }
    assert_eq!(dec.get_bytes_eaten(), 0);
    assert_eq!(out.len(), 3 * 2036);
}

#[test]
fn ms_decoder_refuses_a_predictor_overflow() {
    let mut fmt = mono_fmt();
    if let Some(ext) = fmt.extension.as_mut() {
        if let ExtensionData::AdpcmMs(d) = &mut ext.data {
            d.coeffs[0] = AdpcmCoeffSet { coeff1: -32768, coeff2: -32768 };
        }
    }
    let mut dec = Decoder::new(fmt).unwrap();
    let mut out = Vec::new();
    assert_eq!(dec.decode(&[0, 16, 0, 0x00, 0x80, 0x00, 0x80], &mut out), Ok(()));
    assert_eq!(out, vec![-32768, -32768]);
    assert_eq!(dec.decode(&[0x00], &mut out), Err(AdpcmError::PredictorOverflow));
    assert_eq!(out.len(), 2);
    assert_eq!(dec.get_bytes_eaten(), 7);
}
