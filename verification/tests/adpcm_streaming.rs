use rustwav::adpcm::{ima, ms, yamaha, AdpcmDecoder, AdpcmEncoder};

fn input() -> Vec<i16> {
    (0..600).map(|i: i32| ((i * 71) % 4000 - 2000) as i16).collect()
}

fn encode_in_two<E: AdpcmEncoder>(mut whole: E, mut parts: E, split: usize) {
    let x = input();
    let mut a = Vec::new();
    whole.encode(&x, &mut a).unwrap();
    let mut b = Vec::new();
    parts.encode(&x[..split], &mut b).unwrap();
    parts.encode(&x[split..], &mut b).unwrap();
    assert_eq!(a, b);
    assert!(!a.is_empty());
}

fn decode_in_two<D: AdpcmDecoder>(mut whole: D, mut parts: D, bytes: &[u8], split: usize) {
    let mut a = Vec::new();
    whole.decode(bytes, &mut a).unwrap();
    let mut b = Vec::new();
    parts.decode(&bytes[..split], &mut b).unwrap();
    parts.decode(&bytes[split..], &mut b).unwrap();
    assert_eq!(a, b);
    assert!(!a.is_empty());
}

#[test]
fn ima_encodes_and_decodes_the_same_in_two_calls() {
    encode_in_two(ima::Encoder::new(2).unwrap(), ima::Encoder::new(2).unwrap(), 37);
    let mut enc = ima::Encoder::new(2).unwrap();
    let fmt = enc.new_fmt_chunk(2, 8000, 4).unwrap();
    let mut bytes = Vec::new();
    enc.encode(&input(), &mut bytes).unwrap();
    decode_in_two(ima::Decoder::new(fmt).unwrap(), ima::Decoder::new(fmt).unwrap(), &bytes, 13);
}

#[test]
fn ms_encodes_and_decodes_the_same_in_two_calls() {
    encode_in_two(ms::Encoder::new(1).unwrap(), ms::Encoder::new(1).unwrap(), 101);
    let mut enc = ms::Encoder::new(1).unwrap();
    let fmt = enc.new_fmt_chunk(1, 8000, 4).unwrap();
    let mut bytes = Vec::new();
    enc.encode(&input(), &mut bytes).unwrap();
    decode_in_two(ms::Decoder::new(fmt).unwrap(), ms::Decoder::new(fmt).unwrap(), &bytes, 5);
}

#[test]
fn yamaha_encodes_and_decodes_the_same_in_two_calls() {
    encode_in_two(yamaha::Encoder::new(2).unwrap(), yamaha::Encoder::new(2).unwrap(), 3);
    let mut enc = yamaha::Encoder::new(2).unwrap();
    let fmt = enc.new_fmt_chunk(2, 8000, 4).unwrap();
    let mut bytes = Vec::new();
    enc.encode(&input(), &mut bytes).unwrap();
    decode_in_two(yamaha::Decoder::new(fmt).unwrap(), yamaha::Decoder::new(fmt).unwrap(), &bytes, 77);
}
