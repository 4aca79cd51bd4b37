use vstd::prelude::*;
use crate::adpcm::{AdpcmEncoder, AdpcmError};
use crate::audiocore::Spec;
use crate::wavcore::FmtChunk;

verus! {

/// How many encoded bytes the ADPCM encoder wrapper holds before it hands them out to be written.
pub const MAX_BUFFER_USAGE: usize = 1024;

/// Stereo frames as interleaved samples, left first.
pub open spec fn stereos_flat(stereos: Seq<(i16, i16)>) -> Seq<i16> {
    Seq::new(2 * stereos.len(), |i: int| if i % 2 == 0 { stereos[i / 2].0 } else { stereos[i / 2].1 })
}

/// * Turns stereo frames into interleaved samples, left first.
pub fn stereos_to_interleaved_samples(stereos: &[(i16, i16)]) -> (r: Vec<i16>)
    requires
        stereos@.len() * 2 <= usize::MAX,
    ensures
        r@ == stereos_flat(stereos@),
{
    let mut r: Vec<i16> = Vec::new();
    let mut i: usize = 0;
    while i < stereos.len()
        invariant
            i <= stereos@.len(),
            stereos@.len() * 2 <= usize::MAX,
            r@ == stereos_flat(stereos@.take(i as int)),
        decreases stereos@.len() - i,
    {
        let (l, rr) = stereos[i];
        r.push(l);
        r.push(rr);
        i = i + 1;
        assert(r@ =~= stereos_flat(stereos@.take(i as int)));
    }
    assert(stereos@.take(i as int) =~= stereos@);
    r
}

/// The state of an `AdpcmEncoderWrap`: the channels and sample rate it encodes, the encoder, and
/// the encoded bytes it holds.
pub struct EncoderWrapView<V> {
    pub channels: u16,
    pub sample_rate: u32,
    pub encoder: V,
    pub nibbles: Seq<u8>,
}

/// ## The `AdpcmEncoderWrap` to encode samples into ADPCM bytes
/// * The encoded bytes are held until there are `MAX_BUFFER_USAGE` of them; then they are all
///   handed out to be written.
pub struct AdpcmEncoderWrap<E: AdpcmEncoder> {
    channels: u16,
    sample_rate: u32,
    encoder: E,
    nibbles: Vec<u8>,
}

impl<E: AdpcmEncoder> View for AdpcmEncoderWrap<E> {
    type V = EncoderWrapView<E::V>;

    closed spec fn view(&self) -> EncoderWrapView<E::V> {
        EncoderWrapView {
            channels: self.channels,
            sample_rate: self.sample_rate,
            encoder: self.encoder@,
            nibbles: self.nibbles@,
        }
    }
}

impl<E: AdpcmEncoder> AdpcmEncoderWrap<E> {
    /// The invariant: a well-formed encoder.
    pub open spec fn wf(s: EncoderWrapView<E::V>) -> bool {
        E::encoder_wf(s.encoder)
    }

    /// Encoding `input`: the bytes are held, and once `MAX_BUFFER_USAGE` or more are held, all of
    /// them are handed out.
    pub open spec fn write_spec(s: EncoderWrapView<E::V>, input: Seq<i16>) -> (EncoderWrapView<E::V>, Option<Seq<u8>>) {
        let (e2, out) = E::encode_spec(s.encoder, input);
        let held = s.nibbles + out;
        if held.len() >= MAX_BUFFER_USAGE {
            (EncoderWrapView { encoder: e2, nibbles: Seq::empty(), ..s }, Some(held))
        } else {
            (EncoderWrapView { encoder: e2, nibbles: held, ..s }, None)
        }
    }

    /// * Creates the wrapper for the channels and sample rate of `spec`; only mono and stereo.
    pub fn new(spec: &Spec) -> (r: Result<Self, AdpcmError>)
        ensures
            (spec.channels == 1 || spec.channels == 2) <==> r is Ok,
            r matches Err(e) ==> e == AdpcmError::WrongChannels(spec.channels),
            r matches Ok(w) ==> Self::wf(w@) && w@ == (EncoderWrapView {
                channels: spec.channels,
                sample_rate: spec.sample_rate,
                encoder: E::new_spec(spec.channels)->Ok_0,
                nibbles: Seq::empty(),
            }),
    {
        let encoder = match E::new(spec.channels) {
            Ok(e) => e,
            Err(e) => { return Err(e); },
        };
        let w = Self { channels: spec.channels, sample_rate: spec.sample_rate, encoder, nibbles: Vec::new() };
        assert(w@.nibbles == Seq::<u8>::empty());
        Ok(w)
    }

    /// Hands out the bytes held.
    fn flush_buffers(&mut self) -> (r: Vec<u8>)
        ensures
            r@ == old(self)@.nibbles,
            final(self)@ == (EncoderWrapView { nibbles: Seq::empty(), ..old(self)@ }),
    {
        let mut out: Vec<u8> = Vec::new();
        std::mem::swap(&mut out, &mut self.nibbles);
        assert(self@.nibbles =~= Seq::<u8>::empty());
        out
    }

    /// Encodes the samples, which hold the channels in turn; gives the bytes to write once
    /// `MAX_BUFFER_USAGE` or more are held.
    pub fn write_interleaved_samples(&mut self, samples: &[i16]) -> (r: Result<Option<Vec<u8>>, AdpcmError>)
        requires
            Self::wf(old(self)@),
        ensures
            Self::wf(final(self)@),
            final(self)@ == Self::write_spec(old(self)@, samples@).0,
            r matches Ok(o) && match o {
                Some(v) => Self::write_spec(old(self)@, samples@).1 == Some(v@),
                None => Self::write_spec(old(self)@, samples@).1 is None,
            },
    {
        let _ = self.encoder.encode(samples, &mut self.nibbles);
        if self.nibbles.len() >= MAX_BUFFER_USAGE {
            let v = self.flush_buffers();
            Ok(Some(v))
        } else {
            Ok(None)
        }
    }

    /// Encodes stereo frames; only a stereo encoder takes them.
    pub fn write_stereos(&mut self, stereos: &[(i16, i16)]) -> (r: Result<Option<Vec<u8>>, AdpcmError>)
        requires
            Self::wf(old(self)@),
            stereos@.len() * 2 <= usize::MAX,
        ensures
            Self::wf(final(self)@),
            old(self)@.channels != 2 ==> r == Err::<Option<Vec<u8>>, AdpcmError>(AdpcmError::WrongChannels(old(self)@.channels))
                && final(self)@ == old(self)@,
            old(self)@.channels == 2 ==> final(self)@ == Self::write_spec(old(self)@, stereos_flat(stereos@)).0
                && (r matches Ok(o) && match o {
                    Some(v) => Self::write_spec(old(self)@, stereos_flat(stereos@)).1 == Some(v@),
                    None => Self::write_spec(old(self)@, stereos_flat(stereos@)).1 is None,
                }),
    {
        if self.channels != 2 {
            return Err(AdpcmError::WrongChannels(self.channels));
        }
        let samples = stereos_to_interleaved_samples(stereos);
        self.write_interleaved_samples(samples.as_slice())
    }

    pub fn get_channels(&self) -> (r: u16)
        ensures
            r == self@.channels,
    {
        self.channels
    }

    pub fn get_max_channels(&self) -> (r: u16)
        ensures
            r == 2,
    {
        2
    }

    /// Nothing to prepare before encoding.
    pub fn begin_encoding(&mut self) -> (r: Result<(), AdpcmError>)
        ensures
            r is Ok,
            final(self)@ == old(self)@,
    {
        Ok(())
    }

    /// The `fmt ` chunk for the encoded data, four bits per sample.
    pub fn new_fmt_chunk(&mut self) -> (r: Result<FmtChunk, AdpcmError>)
        requires
            Self::wf(old(self)@),
            E::fmt_args_ok(old(self)@.channels, old(self)@.sample_rate, 4),
        ensures
            final(self)@ == old(self)@,
            r matches Ok(f) && E::new_fmt_is(old(self)@.channels, old(self)@.sample_rate, 4, f),
    {
        self.encoder.new_fmt_chunk(self.channels, self.sample_rate, 4)
    }

    /// The bit rate: four bits per sample of each channel.
    pub fn get_bitrate(&self) -> (r: u32)
        requires
            self@.sample_rate * self@.channels * 4 <= u32::MAX,
        ensures
            r == self@.sample_rate * self@.channels * 4,
    {
        self.sample_rate * self.channels as u32 * 4
    }

    /// Updates the `fmt ` chunk after encoding, as the encoder does it.
    pub fn update_fmt_chunk(&self, fmt: &mut FmtChunk) -> (r: Result<(), AdpcmError>)
        requires
            Self::wf(self@),
            E::modify_args_ok(*old(fmt)),
        ensures
            *final(fmt) == E::modify_spec(*old(fmt)).0,
            r == E::modify_spec(*old(fmt)).1,
    {
        self.encoder.modify_fmt_chunk(fmt)
    }

    /// Flushes the encoder and hands out every byte held, the last ones included.
    pub fn finish(&mut self) -> (r: Result<Vec<u8>, AdpcmError>)
        requires
            Self::wf(old(self)@),
            E::can_flush(old(self)@.encoder),
        ensures
            Self::wf(final(self)@),
            r matches Ok(v) && v@ == old(self)@.nibbles + E::flush_spec(old(self)@.encoder).1,
            final(self)@ == (EncoderWrapView {
                encoder: E::flush_spec(old(self)@.encoder).0,
                nibbles: Seq::empty(),
                ..old(self)@
            }),
    {
        let _ = self.encoder.flush(&mut self.nibbles);
        Ok(self.flush_buffers())
    }
}

/// Holding bytes loses and reorders none: what a write hands out, followed by what the wrapper
/// holds after it, is what it held before followed by the bytes the encoder wrote for the samples;
/// and after a write it holds fewer than `MAX_BUFFER_USAGE` bytes.
pub proof fn lemma_write_keeps_bytes<E: AdpcmEncoder>(s: EncoderWrapView<E::V>, input: Seq<i16>)
    ensures
        ({
            let (s2, handed) = AdpcmEncoderWrap::<E>::write_spec(s, input);
            &&& handed_bytes(handed) + s2.nibbles == s.nibbles + E::encode_spec(s.encoder, input).1
            &&& s2.nibbles.len() < MAX_BUFFER_USAGE
            &&& s2.encoder == E::encode_spec(s.encoder, input).0
        }),
{
    let (s2, handed) = AdpcmEncoderWrap::<E>::write_spec(s, input);
    let held = s.nibbles + E::encode_spec(s.encoder, input).1;
    if held.len() >= MAX_BUFFER_USAGE {
        assert(held + Seq::<u8>::empty() =~= held);
    } else {
        assert(Seq::<u8>::empty() + held =~= held);
    }
}

/// The bytes a write hands out, or none.
pub open spec fn handed_bytes(handed: Option<Seq<u8>>) -> Seq<u8> {
    match handed {
        Some(v) => v,
        None => Seq::empty(),
    }
}

/// Writing samples in two calls hands out and holds the same bytes, in the same order, as the
/// encoder writes for all of the samples at once: what the two writes hand out, followed by what
/// the wrapper then holds, is what it held before followed by the bytes for `a + b`.
pub proof fn lemma_two_writes<E: AdpcmEncoder>(s: EncoderWrapView<E::V>, a: Seq<i16>, b: Seq<i16>)
    ensures
        ({
            let (s1, h1) = AdpcmEncoderWrap::<E>::write_spec(s, a);
            let (s2, h2) = AdpcmEncoderWrap::<E>::write_spec(s1, b);
            &&& handed_bytes(h1) + handed_bytes(h2) + s2.nibbles == s.nibbles + E::encode_spec(s.encoder, a + b).1
            &&& s2.encoder == E::encode_spec(s.encoder, a + b).0
        }),
{
    let (s1, h1) = AdpcmEncoderWrap::<E>::write_spec(s, a);
    let (s2, h2) = AdpcmEncoderWrap::<E>::write_spec(s1, b);
    lemma_write_keeps_bytes::<E>(s, a);
    lemma_write_keeps_bytes::<E>(s1, b);
    E::lemma_encode_append(s.encoder, a, b);
    let oa = E::encode_spec(s.encoder, a).1;
    let ob = E::encode_spec(s1.encoder, b).1;
    assert(handed_bytes(h1) + s1.nibbles == s.nibbles + oa);
    assert(handed_bytes(h2) + s2.nibbles == s1.nibbles + ob);
    assert(handed_bytes(h1) + handed_bytes(h2) + s2.nibbles =~= s.nibbles + (oa + ob));
}

/// ## The bitrate option for the Opus encoder, the higher the better for audio quality.
#[derive(Debug, Clone, Copy, PartialEq, Eq)]
pub enum OpusBitrate {
    Bits(i32),
    Max,
    Auto,
}

/// The durations of samples that the Opus encoder takes at once.
#[derive(Debug, Clone, Copy, PartialEq, Eq)]
pub enum OpusEncoderSampleDuration {
    MilliSec2_5,
    MilliSec5,
    MilliSec10,
    MilliSec20,
    MilliSec40,
    MilliSec60,
}

/// A duration in tenths of a millisecond.
pub open spec fn duration_tenth_ms(d: OpusEncoderSampleDuration) -> int {
    match d {
        OpusEncoderSampleDuration::MilliSec2_5 => 25,
        OpusEncoderSampleDuration::MilliSec5 => 50,
        OpusEncoderSampleDuration::MilliSec10 => 100,
        OpusEncoderSampleDuration::MilliSec20 => 200,
        OpusEncoderSampleDuration::MilliSec40 => 400,
        OpusEncoderSampleDuration::MilliSec60 => 600,
    }
}

impl OpusEncoderSampleDuration {
    /// * The samples of all channels in this duration: `sample_rate * tenths of a ms * channels / 10000`.
    pub fn get_num_samples(&self, channels: u16, sample_rate: u32) -> (r: usize)
        requires
            sample_rate * duration_tenth_ms(*self) <= usize::MAX,
            sample_rate * duration_tenth_ms(*self) * channels <= usize::MAX,
        ensures
            r == sample_rate * duration_tenth_ms(*self) * channels / 10000,
    {
        let ms_m_10: usize = match self {
            Self::MilliSec2_5 => 25,
            Self::MilliSec5 => 50,
            Self::MilliSec10 => 100,
            Self::MilliSec20 => 200,
            Self::MilliSec40 => 400,
            Self::MilliSec60 => 600,
        };
        (sample_rate as usize * ms_m_10) * channels as usize / 10000
    }
}

/// The sample rates the Opus encoder takes.
pub open spec fn opus_rate_allowed(rate: u32) -> bool {
    rate == 8000 || rate == 12000 || rate == 16000 || rate == 24000 || rate == 48000
}

/// The least allowed Opus sample rate at or above `sample_rate`, or the highest one above it.
pub open spec fn rounded_up_rate(sample_rate: u32) -> u32 {
    if sample_rate <= 8000 {
        8000
    } else if sample_rate <= 12000 {
        12000
    } else if sample_rate <= 16000 {
        16000
    } else if sample_rate <= 24000 {
        24000
    } else {
        48000
    }
}

/// ## The encoder options for Opus
#[derive(Debug, Clone, Copy, PartialEq)]
pub struct OpusEncoderOptions {
    /// * The tier 1 factor for Opus audio quality, bigger bitrate means better audio quality.
    pub bitrate: OpusBitrate,
    /// * VBR mode for better compression, turn it off to get better audio quality.
    pub encode_vbr: bool,
    /// * The opus encoder only eats these durations of the samples to encode.
    pub samples_cache_duration: OpusEncoderSampleDuration,
}

impl OpusEncoderOptions {
    pub fn new() -> (r: Self)
        ensures
            r.bitrate == OpusBitrate::Max,
            !r.encode_vbr,
            r.samples_cache_duration == OpusEncoderSampleDuration::MilliSec60,
    {
        Self { bitrate: OpusBitrate::Max, encode_vbr: false, samples_cache_duration: OpusEncoderSampleDuration::MilliSec60 }
    }

    /// * The sample rates the Opus encoder takes, in increasing order.
    pub fn get_allowed_sample_rates(&self) -> (r: [u32; 5])
        ensures
            r@ == seq![8000u32, 12000u32, 16000u32, 24000u32, 48000u32],
    {
        let r = [8000u32, 12000, 16000, 24000, 48000];
        assert(r@ =~= seq![8000u32, 12000u32, 16000u32, 24000u32, 48000u32]);
        r
    }

    /// * The least allowed sample rate at or above `sample_rate`, at most 48000.
    pub fn get_rounded_up_sample_rate(&self, sample_rate: u32) -> (r: u32)
        ensures
            r == rounded_up_rate(sample_rate),
            opus_rate_allowed(r),
            sample_rate <= 48000 ==> sample_rate <= r,
            forall|a: u32| opus_rate_allowed(a) && sample_rate <= a ==> r <= a,
    {
        let rates = self.get_allowed_sample_rates();
        if sample_rate <= rates[0] {
            return rates[0];
        } else if sample_rate >= rates[4] {
            return rates[4];
        }
        let mut i: usize = 0;
        while i < 4
            invariant
                rates@ == seq![8000u32, 12000u32, 16000u32, 24000u32, 48000u32],
                0 <= i <= 4,
                8000 < sample_rate < 48000,
                sample_rate > rates@[i as int],
            decreases 4 - i,
        {
            if sample_rate > rates[i] && sample_rate <= rates[i + 1] {
                return rates[i + 1];
            }
            i += 1;
        }
        rates[4]
    }
}

impl Default for OpusEncoderOptions {
    fn default() -> (r: Self)
        ensures
            r.bitrate == OpusBitrate::Max,
            !r.encode_vbr,
            r.samples_cache_duration == OpusEncoderSampleDuration::MilliSec60,
    {
        Self::new()
    }
}

/// The Vorbis header that a naked-Vorbis `fmt ` chunk stores: the count of sized fields (2),
/// the sizes of the identification and comments headers (each kept to its low byte), then the
/// identification, comments and setup headers.
pub open spec fn naked_vorbis_header_spec(identification: Seq<u8>, comments: Seq<u8>, setup: Seq<u8>) -> Seq<u8> {
    seq![2u8, identification.len() as u8, comments.len() as u8] + identification + comments + setup
}

/// * Packs the three Vorbis headers into the header that a naked-Vorbis `fmt ` chunk stores.
pub fn pack_naked_vorbis_header(identification: &[u8], comments: &[u8], setup: &[u8]) -> (r: Vec<u8>)
    ensures
        r@ == naked_vorbis_header_spec(identification@, comments@, setup@),
{
    let mut r: Vec<u8> = Vec::new();
    r.push(2);
    r.push(identification.len() as u8);
    r.push(comments.len() as u8);
    let ghost head = r@;
    let parts: [&[u8]; 3] = [identification, comments, setup];
    let mut k: usize = 0;
    while k < 3
        invariant
            0 <= k <= 3,
            parts@ == seq![identification, comments, setup],
            r@ == head + (if k == 0 { Seq::<u8>::empty() } else if k == 1 { identification@ } else if k == 2 {
                identification@ + comments@ } else { identification@ + comments@ + setup@ }),
        decreases 3 - k,
    {
        let part: &[u8] = parts[k];
        let ghost before = r@;
        let mut j: usize = 0;
        while j < part.len()
            invariant
                j <= part@.len(),
                r@ == before + part@.take(j as int),
            decreases part@.len() - j,
        {
            r.push(part[j]);
            j += 1;
            assert(r@ =~= before + part@.take(j as int));
        }
        assert(part@.take(j as int) =~= part@);
        k += 1;
        proof {
            if k == 1 {
                assert(r@ =~= head + identification@);
            } else if k == 2 {
                assert(r@ =~= head + (identification@ + comments@));
            } else {
                assert(r@ =~= head + (identification@ + comments@ + setup@));
            }
        }
    }
    assert(r@ =~= naked_vorbis_header_spec(identification@, comments@, setup@));
    r
}

} // verus!
