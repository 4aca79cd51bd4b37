use rustwav::audiocore::{SampleFormat, Spec};
use rustwav::decoders::{extensible_decoding_spec, ExtensibleError};
use rustwav::wavcore::{ExtensibleData, ExtensionData, FmtChunk, FmtExtension, Guid};

fn spec() -> Spec {
    Spec { channels: 2, channel_mask: 3, sample_rate: 44100, bits_per_sample: 16, sample_format: SampleFormat::Int }
}

fn guid(data1: u32) -> Guid {
    Guid { data1, data2: 0, data3: 0x10, data4: [0x80, 0x00, 0x00, 0xAA, 0x00, 0x38, 0x9B, 0x71] }
}

fn fmt(format_tag: u16, extension: Option<FmtExtension>) -> FmtChunk {
    FmtChunk {
        format_tag,
        channels: 2,
        sample_rate: 44100,
        byte_rate: 176400,
        block_align: 4,
        bits_per_sample: 16,
        extension,
    }
}

fn extensible(ext_len: u16, sub_format: Guid) -> Option<FmtExtension> {
    Some(FmtExtension {
        ext_len,
        data: ExtensionData::Extensible(ExtensibleData { valid_bits_per_sample: 16, channel_mask: 0x33, sub_format }),
    })
}

#[test]
fn extensible_pcm_takes_the_channel_mask() {
    let r = extensible_decoding_spec(spec(), &fmt(0xFFFE, extensible(22, guid(1)))).unwrap();
    assert_eq!(r.channel_mask, 0x33);
    assert_eq!(r.channels, 2);
    assert_eq!(r.sample_rate, 44100);
    let f = extensible_decoding_spec(spec(), &fmt(0xFFFE, extensible(22, guid(3)))).unwrap();
    assert_eq!(f.channel_mask, 0x33);
}

#[test]
fn extensible_without_complete_extension_is_pcm_as_the_spec_says() {
    let r = extensible_decoding_spec(spec(), &fmt(0xFFFE, None)).unwrap();
    assert_eq!(r.channel_mask, 3);
    let short = extensible_decoding_spec(spec(), &fmt(0xFFFE, extensible(10, guid(9)))).unwrap();
    assert_eq!(short.channel_mask, 3);
}

#[test]
fn extensible_refusals() {
    assert!(matches!(extensible_decoding_spec(spec(), &fmt(1, None)), Err(ExtensibleError::NotExtensible)));
    let ms = Some(FmtExtension { ext_len: 32, data: ExtensionData::Nodata });
    assert!(matches!(extensible_decoding_spec(spec(), &fmt(0xFFFE, ms)), Err(ExtensibleError::WrongExtensionData)));
    match extensible_decoding_spec(spec(), &fmt(0xFFFE, extensible(22, guid(2)))) {
        Err(ExtensibleError::UnknownSubFormat(g)) => assert_eq!(g.data1, 2),
        _ => panic!("a GUID of another format must be refused"),
    }
}
