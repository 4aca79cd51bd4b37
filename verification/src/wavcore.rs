use vstd::prelude::*;
use crate::adpcm::ms::AdpcmCoeffSet;

verus! {

/// The WAVE `fmt ` chunk: how the samples in the `data` chunk are stored.
#[derive(Clone, Copy, Debug)]
pub struct FmtChunk {
    /// The format tag: 1 for PCM, 2 for ADPCM-MS, 0x11 for ADPCM-IMA, 0x20 for ADPCM-YAMAHA.
    pub format_tag: u16,
    pub channels: u16,
    pub sample_rate: u32,
    pub byte_rate: u32,
    /// The bytes of one block (for ADPCM), or of one audio frame (for PCM).
    pub block_align: u16,
    pub bits_per_sample: u16,
    pub extension: Option<FmtExtension>,
}

/// The extension data that follows the basic fields of the `fmt ` chunk.
#[derive(Clone, Copy, Debug)]
pub struct FmtExtension {
    /// The size of the extension data in bytes, as stored in the chunk.
    pub ext_len: u16,
    pub data: ExtensionData,
}

/// The kinds of `fmt ` extension data.
#[derive(Clone, Copy, Debug)]
pub enum ExtensionData {
    Nodata,
    AdpcmMs(AdpcmMsData),
    AdpcmIma(AdpcmImaData),
    Extensible(ExtensibleData),
    /// Extension data of a format this library does not read.
    Other,
}

/// The ADPCM-MS extension: samples per block and the predictor coefficient table.
#[derive(Clone, Copy, Debug)]
pub struct AdpcmMsData {
    pub samples_per_block: u16,
    pub num_coeff: u16,
    pub coeffs: [AdpcmCoeffSet; 7],
}

/// The ADPCM-IMA extension: samples per block.
#[derive(Clone, Copy, Debug)]
pub struct AdpcmImaData {
    pub samples_per_block: u16,
}

/// A GUID as a `fmt ` chunk stores it.
#[derive(Clone, Copy, Debug)]
pub struct Guid {
    pub data1: u32,
    pub data2: u16,
    pub data3: u16,
    pub data4: [u8; 8],
}

/// The extensible extension: the valid bits of a sample, the speaker of each channel and the
/// format of the samples.
#[derive(Clone, Copy, Debug)]
pub struct ExtensibleData {
    pub valid_bits_per_sample: u16,
    pub channel_mask: u32,
    pub sub_format: Guid,
}

/// The format tag of the extensible format.
pub const FORMAT_TAG_EXTENSIBLE: u16 = 0xFFFE;

/// The size of the extensible extension data in bytes.
pub const EXTENSIBLE_DATA_SIZE: u16 = 22;

/// The last eight bytes shared by the sub-format GUIDs of PCM and of IEEE floats.
pub open spec fn is_wave_guid_tail(d: [u8; 8]) -> bool {
    d@ == seq![0x80u8, 0x00u8, 0x00u8, 0xAAu8, 0x00u8, 0x38u8, 0x9Bu8, 0x71u8]
}

/// The sub-format GUID of integer PCM samples, `00000001-0000-0010-8000-00AA00389B71`.
pub open spec fn is_pcm_guid(g: Guid) -> bool {
    g.data1 == 1 && g.data2 == 0 && g.data3 == 0x10 && is_wave_guid_tail(g.data4)
}

/// The sub-format GUID of IEEE float samples, `00000003-0000-0010-8000-00AA00389B71`.
pub open spec fn is_ieee_float_guid(g: Guid) -> bool {
    g.data1 == 3 && g.data2 == 0 && g.data3 == 0x10 && is_wave_guid_tail(g.data4)
}

impl Guid {
    /// * Whether this is the sub-format GUID of integer PCM or of IEEE float samples.
    pub fn is_pcm_or_float(&self) -> (r: bool)
        ensures
            r == (is_pcm_guid(*self) || is_ieee_float_guid(*self)),
    {
        let d = self.data4;
        let tail = d[0] == 0x80 && d[1] == 0 && d[2] == 0 && d[3] == 0xAA && d[4] == 0 && d[5] == 0x38 && d[6] == 0x9B
            && d[7] == 0x71;
        assert(tail == is_wave_guid_tail(d)) by {
            if tail {
                assert(d@ =~= seq![0x80u8, 0x00u8, 0x00u8, 0xAAu8, 0x00u8, 0x38u8, 0x9Bu8, 0x71u8]);
            }
            if is_wave_guid_tail(d) {
                assert(d@[0] == 0x80u8 && d@[3] == 0xAAu8 && d@[7] == 0x71u8);
            }
        }
        (self.data1 == 1 || self.data1 == 3) && self.data2 == 0 && self.data3 == 0x10 && tail
    }
}

impl FmtExtension {
    /// The extension for ADPCM-IMA, two bytes long.
    pub fn new_adpcm_ima(data: AdpcmImaData) -> (r: Self)
        ensures
            r.ext_len == 2,
            r.data == ExtensionData::AdpcmIma(data),
    {
        Self { ext_len: 2, data: ExtensionData::AdpcmIma(data) }
    }

    /// The extension for ADPCM-MS: two counts and seven coefficient pairs, 32 bytes long.
    pub fn new_adpcm_ms(data: AdpcmMsData) -> (r: Self)
        ensures
            r.ext_len == 32,
            r.data == ExtensionData::AdpcmMs(data),
    {
        Self { ext_len: 32, data: ExtensionData::AdpcmMs(data) }
    }
}

} // verus!
