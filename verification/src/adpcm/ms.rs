use vstd::prelude::*;
use super::{
    clamp, clamp_i32, lemma_nibbles, lemma_run_flow_append, lemma_pack_nibbles, lemma_run_flow_inv, lemma_run_flow_inv_no_panic, lemma_run_flow_next, lemma_run_flow_prefix, run_flow, tdiv, AdpcmDecoder,
    AdpcmEncoder, AdpcmError, CurrentChannel, Flow,
};
use crate::copiablebuf::CopiableBuffer;
use crate::wavcore::{AdpcmMsData, ExtensionData, FmtChunk, FmtExtension};

verus! {

/// How the quantizer step (`delta`) scales after each nibble, in 1/256 units.
pub const ADAPTATIONTABLE: [i16; 16] = [230, 230, 230, 230, 307, 409, 512, 614, 768, 614, 512, 409, 307, 230, 230, 230];

/// A pair of ADPCM-MS predictor coefficients, in 1/256 units.
#[derive(Clone, Copy, Debug, PartialEq, Eq)]
pub struct AdpcmCoeffSet {
    pub coeff1: i16,
    pub coeff2: i16,
}

/// The standard coefficient table of ADPCM-MS.
pub open spec fn def_coeff(i: int) -> AdpcmCoeffSet {
    if i == 0 {
        AdpcmCoeffSet { coeff1: 256, coeff2: 0 }
    } else if i == 1 {
        AdpcmCoeffSet { coeff1: 512, coeff2: -256i16 }
    } else if i == 2 {
        AdpcmCoeffSet { coeff1: 0, coeff2: 0 }
    } else if i == 3 {
        AdpcmCoeffSet { coeff1: 192, coeff2: 64 }
    } else if i == 4 {
        AdpcmCoeffSet { coeff1: 240, coeff2: 0 }
    } else if i == 5 {
        AdpcmCoeffSet { coeff1: 460, coeff2: -208i16 }
    } else {
        AdpcmCoeffSet { coeff1: 392, coeff2: -232i16 }
    }
}

/// The standard coefficient table, as a sequence.
pub open spec fn def_coeff_table_spec() -> Seq<AdpcmCoeffSet> {
    Seq::new(7, |i: int| def_coeff(i))
}

/// The standard coefficient table of ADPCM-MS.
pub fn def_coeff_table() -> (r: [AdpcmCoeffSet; 7])
    ensures
        r@ == def_coeff_table_spec(),
{
    let r = [
        AdpcmCoeffSet { coeff1: 256, coeff2: 0 },
        AdpcmCoeffSet { coeff1: 512, coeff2: -256 },
        AdpcmCoeffSet { coeff1: 0, coeff2: 0 },
        AdpcmCoeffSet { coeff1: 192, coeff2: 64 },
        AdpcmCoeffSet { coeff1: 240, coeff2: 0 },
        AdpcmCoeffSet { coeff1: 460, coeff2: -208 },
        AdpcmCoeffSet { coeff1: 392, coeff2: -232 },
    ];
    assert(r@ =~= def_coeff_table_spec());
    r
}

/// The bytes in one ADPCM-MS block per channel, header included.
pub const BLOCK_SIZE: usize = 1024;

/// The bytes of a block header per channel.
pub const HEADER_SIZE: usize = 7;

/// The greatest step the decoder keeps, so that scaling it cannot overflow.
pub const MAX_DECODER_DELTA: i32 = 2796202;

impl AdpcmCoeffSet {
    pub fn new() -> (r: Self)
        ensures
            r == (AdpcmCoeffSet { coeff1: 0, coeff2: 0 }),
    {
        Self { coeff1: 0, coeff2: 0 }
    }

    /// The first coefficient for index 1, the second for index 2.
    pub fn get(&self, index: usize) -> (r: i16)
        requires
            index == 1 || index == 2,
        ensures
            r == if index == 1 { self.coeff1 } else { self.coeff2 },
    {
        match index {
            1 => self.coeff1,
            _ => self.coeff2,
        }
    }
}

/// The scale factor for a nibble in `0..16`.
pub open spec fn adaptation(nibble: int) -> int {
    ADAPTATIONTABLE@[nibble] as int
}

/// The signed value of a nibble: bit 3 is the sign.
pub open spec fn signed_nibble(nibble: int) -> int {
    if nibble >= 8 { nibble - 16 } else { nibble }
}

/// The weighted sum that the predictor divides by 256.
pub open spec fn predictor_sum(sample1: i16, sample2: i16, coeff: AdpcmCoeffSet) -> int {
    sample1 * coeff.coeff1 + sample2 * coeff.coeff2
}

/// The predictor may be computed in 32 bits: only `-32768` everywhere overflows.
pub open spec fn predictor_fits(sample1: i16, sample2: i16, coeff: AdpcmCoeffSet) -> bool {
    predictor_sum(sample1, sample2, coeff) <= i32::MAX
}

/// The predicted sample: the weighted sum divided by 256, rounded toward zero.
pub open spec fn predictor(sample1: i16, sample2: i16, coeff: AdpcmCoeffSet) -> int {
    tdiv(predictor_sum(sample1, sample2, coeff), 256)
}

/// The nibble the encoder chooses: the rounded quotient of the prediction error by `delta`,
/// clamped to `-8..=7`, as four bits.
pub open spec fn choose_nibble(pred: int, delta: int, sample: int) -> int {
    let err = sample - pred;
    let bias = if err >= 0 { delta / 2 } else { -(delta / 2) };
    let v = clamp(tdiv(err + bias, delta), -8, 7);
    if v < 0 { v + 16 } else { v }
}

/// The sample reconstructed from a predictor, a step and a nibble.
pub open spec fn reconstruct(pred: int, delta: int, nibble: int) -> int {
    clamp(pred + signed_nibble(nibble) * delta, -32768, 32767)
}

/// The encoder's next step: scaled by the table, at least 16.
pub open spec fn encoder_next_delta(delta: int, nibble: int) -> int {
    let d = (adaptation(nibble) * delta) / 256;
    if d < 16 { 16 } else { d }
}

/// The decoder's next step: scaled by the table, kept within `16..=MAX_DECODER_DELTA`.
pub open spec fn decoder_next_delta(delta: int, nibble: int) -> int {
    clamp((adaptation(nibble) * delta) / 256, 16, MAX_DECODER_DELTA as int)
}

/// The greatest step of a well-formed encoder.
pub open spec fn max_encoder_delta() -> int {
    3400000
}

pub(crate) proof fn lemma_adaptation(n: int)
    requires
        0 <= n < 16,
    ensures
        230 <= adaptation(n) <= 768,
        signed_nibble(n) == 0 || signed_nibble(n) == 1 || signed_nibble(n) == 2 || signed_nibble(n) == 3
            || signed_nibble(n) == -1 || signed_nibble(n) == -2 || signed_nibble(n) == -3 ==> adaptation(n) == 230,
        ({
            let a = if signed_nibble(n) < 0 { -signed_nibble(n) } else { signed_nibble(n) };
            a >= 4 ==> 4 * adaptation(n) <= 205 * (2 * a - 1)
        }),
        ({
            let a = if signed_nibble(n) < 0 { -signed_nibble(n) } else { signed_nibble(n) };
            a < 4 ==> adaptation(n) == 230
        }),
{
    assert(ADAPTATIONTABLE@.len() == 16);
}

/// The nibble chosen for an error stands for at most the error plus half a step.
pub(crate) proof fn lemma_choose_nibble_bound(pred: int, delta: int, sample: int)
    requires
        16 <= delta,
    ensures
        0 <= choose_nibble(pred, delta, sample) < 16,
        ({
            let n = signed_nibble(choose_nibble(pred, delta, sample));
            let err = sample - pred;
            let abs_n = if n < 0 { -n } else { n };
            let abs_err = if err < 0 { -err } else { err };
            abs_n * delta <= abs_err + delta / 2
        }),
{
    let err = sample - pred;
    let bias = if err >= 0 { delta / 2 } else { -(delta / 2) };
    let q = tdiv(err + bias, delta);
    let v = clamp(q, -8, 7);
    if err >= 0 {
        assert(err + bias >= 0);
        assert(q * delta <= err + bias) by (nonlinear_arith)
            requires q == (err + bias) / delta, delta > 0, err + bias >= 0;
        assert(q >= 0) by (nonlinear_arith)
            requires q == (err + bias) / delta, delta > 0, err + bias >= 0;
        assert(v * delta <= q * delta) by (nonlinear_arith)
            requires 0 <= v <= q, delta > 0;
    } else {
        let x = -(err + bias);
        if err + bias >= 0 {
            assert(q >= 0) by (nonlinear_arith)
                requires q == (err + bias) / delta, delta > 0, err + bias >= 0;
            assert(q * delta <= err + bias) by (nonlinear_arith)
                requires q == (err + bias) / delta, delta > 0, err + bias >= 0;
            assert(v * delta <= q * delta) by (nonlinear_arith)
                requires 0 <= v <= q, delta > 0;
        } else {
            assert(x / delta * delta <= x) by (nonlinear_arith)
                requires delta > 0, x > 0;
            assert(x / delta >= 0) by (nonlinear_arith)
                requires delta > 0, x > 0;
            assert(-v * delta <= (x / delta) * delta) by (nonlinear_arith)
                requires 0 <= -v <= x / delta, delta > 0;
        }
    }
}


/// The encoder's step stays within `16..=max_encoder_delta()`, and scaling it fits in 32 bits.
proof fn lemma_encoder_delta_bound(pred: int, delta: int, sample: int)
    requires
        16 <= delta <= max_encoder_delta(),
        -8388608 <= pred <= 8388608,
        -32768 <= sample <= 32767,
    ensures
        0 <= choose_nibble(pred, delta, sample) < 16,
        adaptation(choose_nibble(pred, delta, sample)) * delta <= 863200000,
        16 <= encoder_next_delta(delta, choose_nibble(pred, delta, sample)) <= max_encoder_delta(),
{
    lemma_choose_nibble_bound(pred, delta, sample);
    let n = choose_nibble(pred, delta, sample);
    lemma_adaptation(n);
    let sn = signed_nibble(n);
    let a = if sn < 0 { -sn } else { sn };
    let err = sample - pred;
    let abs_err = if err < 0 { -err } else { err };
    let ad = adaptation(n);
    if a >= 4 {
        assert((2 * a - 1) * delta <= 2 * abs_err) by (nonlinear_arith)
            requires a * delta <= abs_err + delta / 2, delta > 0;
        assert(4 * ad * delta <= 205 * (2 * a - 1) * delta) by (nonlinear_arith)
            requires 4 * ad <= 205 * (2 * a - 1), delta > 0;
        assert(205 * (2 * a - 1) * delta <= 410 * abs_err) by (nonlinear_arith)
            requires (2 * a - 1) * delta <= 2 * abs_err;
        assert(abs_err <= 8421376);
        assert(ad * delta <= 863200000) by (nonlinear_arith)
            requires 4 * ad * delta <= 205 * (2 * a - 1) * delta, 205 * (2 * a - 1) * delta <= 410 * abs_err, abs_err <= 8421376;
    } else {
        assert(230 * delta <= 230 * 3400000) by (nonlinear_arith)
            requires delta <= 3400000;
        assert(230 * delta / 256 <= delta);
    }
}


/// A coefficient pair with which the predictor fits in 32 bits for every pair of samples.
pub open spec fn coeff_safe(c: AdpcmCoeffSet) -> bool {
    !(c.coeff1 == -32768 && c.coeff2 == -32768)
}

proof fn lemma_coeff_safe(s1: i16, s2: i16, c: AdpcmCoeffSet)
    requires
        coeff_safe(c),
    ensures
        predictor_fits(s1, s2, c),
        -8388608 <= predictor(s1, s2, c) <= 8388608,
{
    let a = s1 * c.coeff1;
    let b = s2 * c.coeff2;
    assert(-1073709056 <= a <= 1073741824) by (nonlinear_arith)
        requires -32768 <= s1 <= 32767, -32768 <= c.coeff1 <= 32767, a == s1 * c.coeff1;
    assert(-1073709056 <= b <= 1073741824) by (nonlinear_arith)
        requires -32768 <= s2 <= 32767, -32768 <= c.coeff2 <= 32767, b == s2 * c.coeff2;
    if a == 1073741824 {
        assert(s1 == -32768 && c.coeff1 == -32768) by (nonlinear_arith)
            requires -32768 <= s1 <= 32767, -32768 <= c.coeff1 <= 32767, a == s1 * c.coeff1, a == 1073741824;
        assert(b < 1073741824) by (nonlinear_arith)
            requires -32768 <= s2 <= 32767, c.coeff2 != -32768, -32768 <= c.coeff2 <= 32767, b == s2 * c.coeff2;
    }
}

/// The product of two `i16` values, in 32 bits.
fn mul_i16(a: i16, b: i16) -> (r: i32)
    ensures
        r == a * b,
        -1073709056 <= r <= 1073741824,
{
    assert(-1073709056 <= (a as int) * (b as int) <= 1073741824) by (nonlinear_arith)
        requires -32768 <= a <= 32767, -32768 <= b <= 32767;
    a as i32 * b as i32
}

/// The little-endian bytes of an `i16`.
pub open spec fn le_bytes(v: i16) -> Seq<u8> {
    seq![v as u8, ((v as u16) >> 8u16) as u8]
}

/// The `i16` made of two little-endian bytes.
pub open spec fn i16_from_le(lo: u8, hi: u8) -> i16 {
    (lo as u16 + (hi as u16) * 256) as i16
}

/// Reading back the little-endian bytes of an `i16` gives the `i16`.
pub proof fn lemma_le_bytes_roundtrip(v: i16)
    ensures
        i16_from_le(le_bytes(v)[0], le_bytes(v)[1]) == v,
{
    assert(((v as u8) as u16 + ((((v as u16) >> 8u16) as u8) as u16) * 256) as i16 == v) by (bit_vector);
}

fn output_le_i16(val: i16, output: &mut Vec<u8>)
    ensures
        final(output)@ == old(output)@ + le_bytes(val),
{
    let v = val as u16;
    output.push(val as u8);
    output.push((v >> 8u16) as u8);
    assert(final(output)@ =~= old(output)@ + le_bytes(val));
}

/// The state of a mono ADPCM-MS encoder, as plain values.
pub struct EncoderCoreState {
    pub sample1: i16,
    pub sample2: i16,
    pub coeff: AdpcmCoeffSet,
    pub delta: i32,
    pub ready: bool,
}

impl EncoderCoreState {
    /// The state invariant: the step stays within bounds.
    pub open spec fn wf(self) -> bool {
        16 <= self.delta <= max_encoder_delta()
    }

    /// The predictor of the next sample can be computed in 32 bits.
    pub open spec fn fits(self) -> bool {
        predictor_fits(self.sample1, self.sample2, self.coeff)
    }

    /// The nibble chosen for `sample`, and the state after it.
    pub open spec fn compress(self, sample: i16) -> (EncoderCoreState, u8) {
        let pred = predictor(self.sample1, self.sample2, self.coeff);
        let n = choose_nibble(pred, self.delta as int, sample as int);
        (
            EncoderCoreState {
                sample1: reconstruct(pred, self.delta as int, n) as i16,
                sample2: self.sample1,
                delta: encoder_next_delta(self.delta as int, n) as i32,
                ..self
            },
            n as u8,
        )
    }

    /// The state after `get_ready` with the first two samples of a block and a coefficient table.
    pub open spec fn get_ready(self, first: i16, second: i16, coeff_table: Seq<AdpcmCoeffSet>) -> EncoderCoreState {
        EncoderCoreState { coeff: coeff_table[0], sample2: first, sample1: second, ready: true, ..self }
    }

    /// The block header fields: predictor index 0, the step, the second sample and the first.
    pub open spec fn header(self) -> (u8, i16, i16, i16) {
        (0, self.delta as i16, self.sample1, self.sample2)
    }
}

/// A predictor computed in 32 bits, divided by 256, stays within 24 bits.
proof fn lemma_predictor_range(s1: i16, s2: i16, c: AdpcmCoeffSet)
    requires
        predictor_fits(s1, s2, c),
    ensures
        -2147418112 <= predictor_sum(s1, s2, c) <= i32::MAX,
        -8388608 <= predictor(s1, s2, c) <= 8388608,
{
    let a = s1 * c.coeff1;
    let b = s2 * c.coeff2;
    assert(-1073709056 <= a) by (nonlinear_arith)
        requires -32768 <= s1 <= 32767, -32768 <= c.coeff1 <= 32767, a == s1 * c.coeff1;
    assert(-1073709056 <= b) by (nonlinear_arith)
        requires -32768 <= s2 <= 32767, -32768 <= c.coeff2 <= 32767, b == s2 * c.coeff2;
}

pub(crate) proof fn lemma_compress_fits_wf(s: EncoderCoreState, sample: i16)
    requires
        s.wf(),
        s.fits(),
    ensures
        s.compress(sample).0.wf(),
        s.compress(sample).1 < 16,
{
    lemma_predictor_range(s.sample1, s.sample2, s.coeff);
    lemma_encoder_delta_bound(predictor(s.sample1, s.sample2, s.coeff), s.delta as int, sample as int);
}

pub(crate) proof fn lemma_compress_wf(s: EncoderCoreState, sample: i16)
    requires
        s.wf(),
        coeff_safe(s.coeff),
    ensures
        s.fits(),
        s.compress(sample).0.wf(),
        s.compress(sample).0.coeff == s.coeff,
        s.compress(sample).1 < 16,
{
    lemma_coeff_safe(s.sample1, s.sample2, s.coeff);
    lemma_compress_fits_wf(s, sample);
}

/// ## The core encoder of ADPCM-MS for mono-channel
#[derive(Clone, Copy)]
pub struct EncoderCore {
    sample1: i16,
    sample2: i16,
    coeff: AdpcmCoeffSet,
    delta: i32,
    ready: bool,
}

impl View for EncoderCore {
    type V = EncoderCoreState;

    closed spec fn view(&self) -> EncoderCoreState {
        EncoderCoreState { sample1: self.sample1, sample2: self.sample2, coeff: self.coeff, delta: self.delta, ready: self.ready }
    }
}

impl EncoderCore {
    /// The state of a new encoder.
    pub open spec fn new_spec() -> EncoderCoreState {
        EncoderCoreState { sample1: 0, sample2: 0, coeff: AdpcmCoeffSet { coeff1: 0, coeff2: 0 }, delta: 16, ready: false }
    }

    pub fn new() -> (r: Self)
        ensures
            r@ == Self::new_spec(),
            r@.wf(),
    {
        Self { sample1: 0, sample2: 0, coeff: AdpcmCoeffSet::new(), delta: 16, ready: false }
    }

    /// * If the encoder is ready, put samples to get the encoded data.
    pub fn is_ready(&self) -> (r: bool)
        ensures
            r == self@.ready,
    {
        self.ready
    }

    /// * Uninitialize the decoder. Every time it finishes decoding a block, it needs to be uninitialized.
    /// * Another usage is for seeking. Before seeking, `unready()` should be called to uninitialize the decoder.
    pub fn unready(&mut self)
        ensures
            final(self)@ == (EncoderCoreState { ready: false, ..old(self)@ }),
    {
        self.ready = false;
    }

    /// * Encode one sample to a nibble
    pub fn compress_sample(&mut self, sample: i16) -> (r: u8)
        requires
            old(self)@.wf(),
            old(self)@.fits(),
        ensures
            r == old(self)@.compress(sample).1,
            final(self)@ == old(self)@.compress(sample).0,
            final(self)@.wf(),
            r < 16,
    {
        proof {
            lemma_compress_fits_wf(self@, sample);
            lemma_predictor_range(self.sample1, self.sample2, self.coeff);
            lemma_encoder_delta_bound(predictor(self.sample1, self.sample2, self.coeff), self.delta as int, sample as int);
        }
        let p1 = mul_i16(self.sample1, self.coeff.get(1));
        let p2 = mul_i16(self.sample2, self.coeff.get(2));
        let predictor = (p1 + p2) / 256;
        let err = sample as i32 - predictor;
        let bias = if err >= 0 { self.delta / 2 } else { -self.delta / 2 };
        let q = (err + bias) / self.delta;
        let v = clamp_i32(q, -8, 7);
        assert(v & 0x0F == if v < 0 { (v + 16) as i32 } else { v }) by (bit_vector) requires -8 <= v <= 7;
        let nibble = v & 0x0F;
        assert((if nibble & 0x08 != 0 { nibble | 0xFFFFFFF0u32 as i32 } else { nibble }) == signed_nibble(nibble as int)) by (bit_vector)
            requires 0 <= nibble < 16;
        let sn = if nibble & 0x08 != 0 { nibble | 0xFFFFFFF0u32 as i32 } else { nibble };
        assert(-27200000 <= sn * self.delta <= 23800000) by (nonlinear_arith)
            requires -8 <= sn <= 7, 16 <= self.delta <= 3400000;
        let predictor = predictor + sn * self.delta;
        self.sample2 = self.sample1;
        self.sample1 = clamp_i32(predictor, -32768, 32767) as i16;
        let prod = ADAPTATIONTABLE[nibble as usize] as i32 * self.delta;
        assert(prod >> 8 == prod / 256) by (bit_vector) requires 0 <= prod <= 863200000;
        self.delta = prod >> 8;
        if self.delta < 16 {
            self.delta = 16;
        }
        nibble as u8
    }

    /// * To be initialized, some data is needed for the encoder.
    /// * The encoder excretes 4 fields of data as the header of a block of audio data.
    pub fn get_ready(&mut self, samples: &[i16; 2], coeff_table: &[AdpcmCoeffSet; 7]) -> (r: (u8, i16, i16, i16))
        requires
            old(self)@.wf(),
        ensures
            final(self)@ == old(self)@.get_ready(samples@[0], samples@[1], coeff_table@),
            r == final(self)@.header(),
            final(self)@.wf(),
    {
        let predictor = 0u8;
        self.coeff = coeff_table[predictor as usize];
        self.sample2 = samples[0];
        self.sample1 = samples[1];
        self.ready = true;
        (predictor, self.delta as i16, self.sample1, self.sample2)
    }
}


/// The state of a stereo ADPCM-MS encoder, as plain values.
pub struct StereoEncoderState {
    pub core_l: EncoderCoreState,
    pub core_r: EncoderCoreState,
    /// The channel of the next sample to compress.
    pub current_channel: CurrentChannel,
    pub ready: bool,
}

impl StereoEncoderState {
    pub open spec fn wf(self) -> bool {
        self.core_l.wf() && self.core_r.wf()
    }

    /// The predictor of the current channel's next sample can be computed in 32 bits.
    pub open spec fn fits(self) -> bool {
        match self.current_channel {
            CurrentChannel::Left => self.core_l.fits(),
            CurrentChannel::Right => self.core_r.fits(),
        }
    }

    /// The nibble for `sample` from the core of the current channel, and the state after it.
    pub open spec fn compress(self, sample: i16) -> (StereoEncoderState, u8) {
        match self.current_channel {
            CurrentChannel::Left => {
                let (c, n) = self.core_l.compress(sample);
                (StereoEncoderState { current_channel: CurrentChannel::Right, core_l: c, ..self }, n)
            },
            CurrentChannel::Right => {
                let (c, n) = self.core_r.compress(sample);
                (StereoEncoderState { current_channel: CurrentChannel::Left, core_r: c, ..self }, n)
            },
        }
    }
}

/// ### A wrapper for the `EncoderCore` to encode stereo audio.
#[derive(Clone, Copy)]
pub struct StereoEncoder {
    core_l: EncoderCore,
    core_r: EncoderCore,
    current_channel: CurrentChannel,
    ready: bool,
}

impl View for StereoEncoder {
    type V = StereoEncoderState;

    closed spec fn view(&self) -> StereoEncoderState {
        StereoEncoderState { core_l: self.core_l@, core_r: self.core_r@, current_channel: self.current_channel, ready: self.ready }
    }
}

impl StereoEncoder {
    pub fn new() -> (r: Self)
        ensures
            r@ == (StereoEncoderState {
                core_l: EncoderCore::new_spec(),
                core_r: EncoderCore::new_spec(),
                current_channel: CurrentChannel::Left,
                ready: false,
            }),
            r@.wf(),
    {
        Self { core_l: EncoderCore::new(), core_r: EncoderCore::new(), current_channel: CurrentChannel::Left, ready: false }
    }

    /// * If the encoder is ready, put samples to get the encoded data.
    pub fn is_ready(&self) -> (r: bool)
        ensures
            r == self@.ready,
    {
        self.ready
    }

    /// * Uninitialize the decoder. Every time it finishes decoding a block, it needs to be uninitialized.
    /// * Another usage is for seeking. Before seeking, `unready()` should be called to uninitialize the decoder.
    pub fn unready(&mut self)
        ensures
            final(self)@ == (StereoEncoderState {
                core_l: EncoderCoreState { ready: false, ..old(self)@.core_l },
                core_r: EncoderCoreState { ready: false, ..old(self)@.core_r },
                current_channel: CurrentChannel::Left,
                ready: false,
            }),
    {
        self.core_l.unready();
        self.core_r.unready();
        self.current_channel = CurrentChannel::Left;
        self.ready = false;
    }

    /// * Encode one sample to a nibble, interleaved by channels
    pub fn compress_sample(&mut self, sample: i16) -> (r: u8)
        requires
            old(self)@.wf(),
            old(self)@.fits(),
        ensures
            r == old(self)@.compress(sample).1,
            final(self)@ == old(self)@.compress(sample).0,
            final(self)@.wf(),
            r < 16,
    {
        match self.current_channel {
            CurrentChannel::Left => {
                self.current_channel = CurrentChannel::Right;
                self.core_l.compress_sample(sample)
            },
            CurrentChannel::Right => {
                self.current_channel = CurrentChannel::Left;
                self.core_r.compress_sample(sample)
            },
        }
    }

    /// * To be initialized, some data is needed for the encoder.
    /// * The encoder excretes 4 fields of data as the header of a block of audio data.
    /// * There are two of the encoder cores to be initialized, so 8 fields of data are to be excreted.
    pub fn get_ready(&mut self, samples: &[i16; 4], coeff_table: &[AdpcmCoeffSet; 7]) -> (r: (u8, u8, i16, i16, i16, i16, i16, i16))
        requires
            old(self)@.wf(),
        ensures
            final(self)@ == (StereoEncoderState {
                core_l: old(self)@.core_l.get_ready(samples@[0], samples@[2], coeff_table@),
                core_r: old(self)@.core_r.get_ready(samples@[1], samples@[3], coeff_table@),
                ready: true,
                ..old(self)@
            }),
            r == ({
                let l = final(self)@.core_l.header();
                let rr = final(self)@.core_r.header();
                (l.0, rr.0, l.1, rr.1, l.2, rr.2, l.3, rr.3)
            }),
            final(self)@.wf(),
    {
        let ready1 = self.core_l.get_ready(&[samples[0], samples[2]], coeff_table);
        let ready2 = self.core_r.get_ready(&[samples[1], samples[3]], coeff_table);
        self.ready = true;
        (ready1.0, ready2.0, ready1.1, ready2.1, ready1.2, ready2.2, ready1.3, ready2.3)
    }
}


proof fn lemma_stereo_fits(st: StereoEncoderState)
    requires
        coeff_safe(st.core_l.coeff),
        coeff_safe(st.core_r.coeff),
    ensures
        st.fits(),
{
    lemma_coeff_safe(st.core_l.sample1, st.core_l.sample2, st.core_l.coeff);
    lemma_coeff_safe(st.core_r.sample1, st.core_r.sample2, st.core_r.coeff);
}

/// The cores of an ADPCM-MS encoder, as plain values.
pub enum ChannelsState {
    Mono(EncoderCoreState),
    Stereo(StereoEncoderState),
}

/// The state of an ADPCM-MS encoder, as plain values.
pub struct EncoderState {
    pub channels: ChannelsState,
    pub coeff_table: Seq<AdpcmCoeffSet>,
    /// The bytes written in the current block.
    pub bytes_yield: usize,
    /// The samples waiting to be encoded together.
    pub buffer: Seq<i16>,
}

/// The bytes of a mono block header.
pub open spec fn mono_header_bytes(h: (u8, i16, i16, i16)) -> Seq<u8> {
    seq![h.0] + le_bytes(h.1) + le_bytes(h.2) + le_bytes(h.3)
}

/// The bytes of a stereo block header.
pub open spec fn stereo_header_bytes(h: (u8, u8, i16, i16, i16, i16, i16, i16)) -> Seq<u8> {
    seq![h.0, h.1] + le_bytes(h.2) + le_bytes(h.3) + le_bytes(h.4) + le_bytes(h.5) + le_bytes(h.6) + le_bytes(h.7)
}

/// The byte holding two nibbles, the first in the high half.
pub open spec fn pack(high: u8, low: u8) -> u8 {
    (low + high * 16) as u8
}

impl EncoderState {
    /// The state of a new encoder for one or two channels.
    pub open spec fn initial(channels: u16) -> EncoderState {
        EncoderState {
            channels: if channels == 1 {
                ChannelsState::Mono(EncoderCore::new_spec())
            } else {
                ChannelsState::Stereo(StereoEncoderState {
                    core_l: EncoderCore::new_spec(),
                    core_r: EncoderCore::new_spec(),
                    current_channel: CurrentChannel::Left,
                    ready: false,
                })
            },
            coeff_table: def_coeff_table_spec(),
            bytes_yield: 0,
            buffer: Seq::empty(),
        }
    }

    /// The state invariant.
    pub open spec fn wf(self) -> bool {
        &&& self.coeff_table == def_coeff_table_spec()
        &&& match self.channels {
            ChannelsState::Mono(c) => {
                &&& c.wf()
                &&& coeff_safe(c.coeff)
                &&& self.buffer.len() < 2
                &&& !c.ready ==> self.bytes_yield == 0
                &&& c.ready ==> HEADER_SIZE <= self.bytes_yield < BLOCK_SIZE
            },
            ChannelsState::Stereo(st) => {
                &&& st.wf()
                &&& coeff_safe(st.core_l.coeff)
                &&& coeff_safe(st.core_r.coeff)
                &&& self.buffer.len() < 4
                &&& st.current_channel == CurrentChannel::Left
                &&& !st.ready ==> self.bytes_yield == 0
                &&& st.ready ==> HEADER_SIZE * 2 <= self.bytes_yield < BLOCK_SIZE * 2 && self.bytes_yield % 2 == 0
            },
        }
    }

    /// Whether the cores have their block header.
    pub open spec fn is_ready(self) -> bool {
        match self.channels {
            ChannelsState::Mono(c) => c.ready,
            ChannelsState::Stereo(st) => st.ready,
        }
    }

    /// Takes one sample. Before a block, the first two samples per channel become the header;
    /// within it, every two samples per channel become bytes, the first sample in the high nibble
    /// (stereo: left in the high nibble, right in the low); a full block waits for a new header.
    pub open spec fn step(self, sample: i16) -> (EncoderState, Seq<u8>) {
        let buf = self.buffer.push(sample);
        match self.channels {
            ChannelsState::Mono(c) => if !c.ready {
                if buf.len() == 2 {
                    let c2 = c.get_ready(buf[0], buf[1], self.coeff_table);
                    (
                        EncoderState { channels: ChannelsState::Mono(c2), bytes_yield: (self.bytes_yield + 7) as usize, buffer: Seq::empty(), ..self },
                        mono_header_bytes(c2.header()),
                    )
                } else {
                    (EncoderState { buffer: buf, ..self }, Seq::empty())
                }
            } else {
                let (c2, out, b2, y) = if buf.len() == 2 {
                    let (c1, h) = c.compress(buf[0]);
                    let (c2, l) = c1.compress(buf[1]);
                    (c2, seq![pack(h, l)], Seq::<i16>::empty(), self.bytes_yield + 1)
                } else {
                    (c, Seq::<u8>::empty(), buf, self.bytes_yield as int)
                };
                if y == BLOCK_SIZE {
                    (EncoderState { channels: ChannelsState::Mono(EncoderCoreState { ready: false, ..c2 }), bytes_yield: 0, buffer: b2, ..self }, out)
                } else {
                    (EncoderState { channels: ChannelsState::Mono(c2), bytes_yield: y as usize, buffer: b2, ..self }, out)
                }
            },
            ChannelsState::Stereo(st) => if !st.ready {
                if buf.len() >= 4 {
                    let st2 = StereoEncoderState {
                        core_l: st.core_l.get_ready(buf[0], buf[2], self.coeff_table),
                        core_r: st.core_r.get_ready(buf[1], buf[3], self.coeff_table),
                        ready: true,
                        ..st
                    };
                    let l = st2.core_l.header();
                    let r = st2.core_r.header();
                    (
                        EncoderState { channels: ChannelsState::Stereo(st2), bytes_yield: (self.bytes_yield + 14) as usize, buffer: Seq::empty(), ..self },
                        stereo_header_bytes((l.0, r.0, l.1, r.1, l.2, r.2, l.3, r.3)),
                    )
                } else {
                    (EncoderState { buffer: buf, ..self }, Seq::empty())
                }
            } else {
                let (st2, out, b2, y) = if buf.len() == 4 {
                    let (s1, h1) = st.compress(buf[0]);
                    let (s2, l1) = s1.compress(buf[1]);
                    let (s3, h2) = s2.compress(buf[2]);
                    let (s4, l2) = s3.compress(buf[3]);
                    (s4, seq![pack(h1, l1), pack(h2, l2)], Seq::<i16>::empty(), self.bytes_yield + 2)
                } else {
                    (st, Seq::<u8>::empty(), buf, self.bytes_yield as int)
                };
                if y == BLOCK_SIZE * 2 {
                    let st3 = StereoEncoderState {
                        core_l: EncoderCoreState { ready: false, ..st2.core_l },
                        core_r: EncoderCoreState { ready: false, ..st2.core_r },
                        current_channel: CurrentChannel::Left,
                        ready: false,
                    };
                    (EncoderState { channels: ChannelsState::Stereo(st3), bytes_yield: 0, buffer: b2, ..self }, out)
                } else {
                    (EncoderState { channels: ChannelsState::Stereo(st2), bytes_yield: y as usize, buffer: b2, ..self }, out)
                }
            },
        }
    }

    /// Encodes the samples in order.
    pub open spec fn run(self, input: Seq<i16>) -> (EncoderState, Seq<u8>)
        decreases input.len(),
    {
        if input.len() == 0 {
            (self, Seq::<u8>::empty())
        } else {
            let (s1, o1) = self.run(input.drop_last());
            let (s2, o2) = s1.step(input.last());
            (s2, o1 + o2)
        }
    }

    /// The zero samples `flush` feeds to finish the current block.
    pub open spec fn flush_len(self) -> int {
        if self.bytes_yield == 0 {
            0
        } else {
            match self.channels {
                ChannelsState::Mono(_) => 2 * (BLOCK_SIZE - self.bytes_yield) - self.buffer.len(),
                ChannelsState::Stereo(_) => 2 * (2 * BLOCK_SIZE - self.bytes_yield) - self.buffer.len(),
            }
        }
    }
}

pub(crate) proof fn lemma_encoder_step_wf(s: EncoderState, sample: i16)
    requires
        s.wf(),
    ensures
        s.step(sample).0.wf(),
        s.bytes_yield != 0 ==> s.step(sample).0.flush_len() == s.flush_len() - 1,
{
    let buf = s.buffer.push(sample);
    assert(coeff_safe(def_coeff(0)));
    match s.channels {
        ChannelsState::Mono(c) => {
            if c.ready && buf.len() == 2 {
                lemma_compress_wf(c, buf[0]);
                lemma_compress_wf(c.compress(buf[0]).0, buf[1]);
            }
        },
        ChannelsState::Stereo(st) => {
            if st.ready && buf.len() == 4 {
                lemma_compress_wf(st.core_l, buf[0]);
                let s1 = st.compress(buf[0]).0;
                lemma_compress_wf(s1.core_r, buf[1]);
                let s2 = s1.compress(buf[1]).0;
                lemma_compress_wf(s2.core_l, buf[2]);
                let s3 = s2.compress(buf[2]).0;
                lemma_compress_wf(s3.core_r, buf[3]);
            }
        },
    }
}

pub(crate) proof fn lemma_encoder_run_wf(s: EncoderState, input: Seq<i16>)
    requires
        s.wf(),
    ensures
        s.run(input).0.wf(),
    decreases input.len(),
{
    if input.len() > 0 {
        lemma_encoder_run_wf(s, input.drop_last());
        lemma_encoder_step_wf(s.run(input.drop_last()).0, input.last());
    }
}

proof fn lemma_encoder_run_single(s: EncoderState, x: i16)
    ensures
        s.run(seq![x]).0 == s.step(x).0,
        s.run(seq![x]).1 == s.step(x).1,
{
    assert(seq![x].drop_last() =~= Seq::<i16>::empty());
    assert(seq![x].last() == x);
    assert(s.run(seq![x].drop_last()) == (s, Seq::<u8>::empty()));
    assert(Seq::<u8>::empty() + s.step(x).1 =~= s.step(x).1);
}

/// The cores of an ADPCM-MS encoder.
#[derive(Clone, Copy)]
pub enum Channels {
    Mono(EncoderCore),
    Stereo(StereoEncoder),
}

type EncoderBuffer = CopiableBuffer<i16, 4>;

/// ## The encoder is for your use
#[derive(Clone, Copy)]
pub struct Encoder {
    channels: Channels,
    coeff_table: [AdpcmCoeffSet; 7],
    bytes_yield: usize,
    buffer: EncoderBuffer,
}

impl View for Encoder {
    type V = EncoderState;

    closed spec fn view(&self) -> EncoderState {
        EncoderState {
            channels: match self.channels {
                Channels::Mono(c) => ChannelsState::Mono(c@),
                Channels::Stereo(st) => ChannelsState::Stereo(st@),
            },
            coeff_table: self.coeff_table@,
            bytes_yield: self.bytes_yield,
            buffer: self.buffer@,
        }
    }
}

/// The `fmt ` chunk that the ADPCM-MS encoder writes: format tag 2, 1024 bytes per block and
/// channel, 4 bits per sample, and the standard coefficient table in the extension.
pub open spec fn is_new_fmt(f: FmtChunk, channels: u16, sample_rate: u32) -> bool {
    &&& f.format_tag == 0x0002
    &&& f.channels == channels
    &&& f.sample_rate == sample_rate
    &&& f.byte_rate == sample_rate * 4 * channels / 8
    &&& f.block_align == BLOCK_SIZE * channels
    &&& f.bits_per_sample == 4
    &&& f.extension matches Some(ext) && ext.ext_len == 32 && (ext.data matches ExtensionData::AdpcmMs(d)
        && d.samples_per_block == (BLOCK_SIZE - HEADER_SIZE) * 2 * channels
        && d.num_coeff == 7
        && d.coeffs@ == def_coeff_table_spec())
}

impl Encoder {
    /// Whether the cores have their block header.
    pub fn is_ready(&self) -> (r: bool)
        ensures
            r == self@.is_ready(),
    {
        match self.channels {
            Channels::Mono(enc) => enc.is_ready(),
            Channels::Stereo(enc) => enc.is_ready(),
        }
    }

    fn encode_one(&mut self, sample: i16, output: &mut Vec<u8>)
        requires
            old(self)@.wf(),
        ensures
            final(self)@ == old(self)@.step(sample).0,
            final(output)@ == old(output)@ + old(self)@.step(sample).1,
    {
        let ghost s0 = self@;
        let ghost out0 = output@;
        proof { lemma_encoder_step_wf(s0, sample); }
        self.buffer.push(sample);
        assert(coeff_safe(def_coeff(0)));
        if !self.is_ready() {
            match self.channels {
                Channels::Mono(enc0) => {
                    let mut enc = enc0;
                    if self.buffer.len() == 2 {
                        let header = enc.get_ready(&[self.buffer.get(0), self.buffer.get(1)], &self.coeff_table);
                        output.push(header.0);
                        output_le_i16(header.1, output);
                        output_le_i16(header.2, output);
                        output_le_i16(header.3, output);
                        self.buffer.clear();
                        self.bytes_yield += 7;
                        self.channels = Channels::Mono(enc);
                    }
                },
                Channels::Stereo(enc0) => {
                    let mut enc = enc0;
                    if self.buffer.len() >= 4 {
                        let header = enc.get_ready(
                            &[self.buffer.get(0), self.buffer.get(1), self.buffer.get(2), self.buffer.get(3)],
                            &self.coeff_table,
                        );
                        output.push(header.0);
                        output.push(header.1);
                        output_le_i16(header.2, output);
                        output_le_i16(header.3, output);
                        output_le_i16(header.4, output);
                        output_le_i16(header.5, output);
                        output_le_i16(header.6, output);
                        output_le_i16(header.7, output);
                        self.buffer.clear();
                        self.bytes_yield += 14;
                        self.channels = Channels::Stereo(enc);
                    }
                },
            }
        } else {
            match self.channels {
                Channels::Mono(enc0) => {
                    let mut enc = enc0;
                    if self.buffer.len() == 2 {
                        proof { lemma_coeff_safe(enc@.sample1, enc@.sample2, enc@.coeff); }
                        let h = enc.compress_sample(self.buffer.get(0));
                        proof { lemma_coeff_safe(enc@.sample1, enc@.sample2, enc@.coeff); }
                        let l = enc.compress_sample(self.buffer.get(1));
                        proof { lemma_pack_nibbles(l, h); }
                        output.push(l | (h << 4u8));
                        self.buffer.clear();
                        self.bytes_yield += 1;
                    }
                    if self.bytes_yield == BLOCK_SIZE {
                        enc.unready();
                        self.bytes_yield = 0;
                    }
                    self.channels = Channels::Mono(enc);
                },
                Channels::Stereo(enc0) => {
                    let mut enc = enc0;
                    if self.buffer.len() == 4 {
                        proof { lemma_stereo_fits(enc@); }
                        let h1 = enc.compress_sample(self.buffer.get(0));
                        proof { lemma_stereo_fits(enc@); }
                        let l1 = enc.compress_sample(self.buffer.get(1));
                        proof { lemma_stereo_fits(enc@); }
                        let h2 = enc.compress_sample(self.buffer.get(2));
                        proof { lemma_stereo_fits(enc@); }
                        let l2 = enc.compress_sample(self.buffer.get(3));
                        proof {
                            lemma_pack_nibbles(l1, h1);
                            lemma_pack_nibbles(l2, h2);
                        }
                        output.push(l1 | (h1 << 4u8));
                        output.push(l2 | (h2 << 4u8));
                        self.buffer.clear();
                        self.bytes_yield += 2;
                    }
                    if self.bytes_yield == BLOCK_SIZE * 2 {
                        enc.unready();
                        self.bytes_yield = 0;
                    }
                    self.channels = Channels::Stereo(enc);
                },
            }
        }
        assert(output@ =~= out0 + s0.step(sample).1);
    }
}


impl AdpcmEncoder for Encoder {
    open spec fn encoder_wf(state: EncoderState) -> bool {
        state.wf()
    }

    open spec fn encode_spec(state: EncoderState, input: Seq<i16>) -> (EncoderState, Seq<u8>) {
        state.run(input)
    }

    proof fn lemma_encode_append(state: EncoderState, a: Seq<i16>, b: Seq<i16>) {
        lemma_encoder_run_append(state, a, b);
    }
    open spec fn can_flush(state: EncoderState) -> bool {
        true
    }

    open spec fn flush_spec(state: EncoderState) -> (EncoderState, Seq<u8>) {
        state.run(Seq::new(state.flush_len() as nat, |i: int| 0i16))
    }

    open spec fn fmt_args_ok(channels: u16, sample_rate: u32, bits_per_sample: u16) -> bool {
        &&& BLOCK_SIZE * channels <= u16::MAX
        &&& (BLOCK_SIZE - HEADER_SIZE) * 2 * channels <= u16::MAX
        &&& sample_rate * 4 <= u32::MAX
        &&& sample_rate * 4 * channels <= u32::MAX
    }

    open spec fn modify_args_ok(fmt_chunk: FmtChunk) -> bool {
        &&& BLOCK_SIZE * fmt_chunk.channels <= u16::MAX
        &&& fmt_chunk.sample_rate * fmt_chunk.channels <= u32::MAX
        &&& fmt_chunk.sample_rate * fmt_chunk.channels * 4 <= u32::MAX
        &&& (BLOCK_SIZE - HEADER_SIZE) * 2 * fmt_chunk.channels <= u16::MAX
    }

    open spec fn new_fmt_is(channels: u16, sample_rate: u32, bits_per_sample: u16, f: FmtChunk) -> bool {
        is_new_fmt(f, channels, sample_rate)
    }

    /// The block size, the bits per sample and the byte rate are set; the extension must hold
    /// ADPCM-MS data.
    open spec fn modify_spec(fmt_chunk: FmtChunk) -> (FmtChunk, Result<(), AdpcmError>) {
        (
            FmtChunk {
                block_align: (BLOCK_SIZE * fmt_chunk.channels) as u16,
                bits_per_sample: 4,
                byte_rate: (fmt_chunk.sample_rate * fmt_chunk.channels * 4 / 8) as u32,
                ..fmt_chunk
            },
            match fmt_chunk.extension {
                Some(ext) => match ext.data {
                    ExtensionData::AdpcmMs(_) => Ok(()),
                    _ => Err(AdpcmError::WrongExtensionData),
                },
                None => Err(AdpcmError::MissingExtensionData),
            },
        )
    }

    open spec fn new_spec(channels: u16) -> Result<EncoderState, AdpcmError> {
        if channels == 1 || channels == 2 {
            Ok(EncoderState::initial(channels))
        } else {
            Err(AdpcmError::WrongChannels(channels))
        }
    }

    fn new(channels: u16) -> (r: Result<Self, AdpcmError>)
        ensures
            r matches Ok(e) ==> e@ == EncoderState::initial(channels),
    {
        match channels {
            1 => Ok(Self {
                channels: Channels::Mono(EncoderCore::new()),
                coeff_table: def_coeff_table(),
                bytes_yield: 0,
                buffer: EncoderBuffer::new(),
            }),
            2 => Ok(Self {
                channels: Channels::Stereo(StereoEncoder::new()),
                coeff_table: def_coeff_table(),
                bytes_yield: 0,
                buffer: EncoderBuffer::new(),
            }),
            o => Err(AdpcmError::WrongChannels(o)),
        }
    }

    /// * When uninitialized, it asks for data to initialize the encoder cores.
    /// * On initialization, every encoder cores excrete its data for the header of the block.
    /// * When ready to encode, for stereo, each byte contains 2 nibbles, one for the left channel, and another for the right channel.
    fn encode(&mut self, input: &[i16], output: &mut Vec<u8>) -> (r: Result<(), AdpcmError>) {
        let ghost s0 = self@;
        let ghost out0 = output@;
        let mut i: usize = 0;
        while i < input.len()
            invariant
                s0.wf(),
                i <= input@.len(),
                self@ == s0.run(input@.take(i as int)).0,
                output@ == out0 + s0.run(input@.take(i as int)).1,
            decreases input@.len() - i,
        {
            proof {
                lemma_encoder_run_wf(s0, input@.take(i as int));
                assert(input@.take(i + 1).drop_last() =~= input@.take(i as int));
            }
            self.encode_one(input[i], output);
            i += 1;
            assert(output@ =~= out0 + s0.run(input@.take(i as int)).1);
        }
        assert(input@.take(i as int) =~= input@);
        proof { lemma_encoder_run_wf(s0, input@); }
        Ok(())
    }

    /// * The ADPCM-MS has specific `fmt ` chunk extension data to store the coeff table.
    /// * The bits per sample are always 4, whatever `bits_per_sample` says.
    fn new_fmt_chunk(&mut self, channels: u16, sample_rate: u32, bits_per_sample: u16) -> (r: Result<FmtChunk, AdpcmError>)
        ensures
            r matches Ok(f) && is_new_fmt(f, channels, sample_rate),
    {
        let bits_per_sample = 4u16;
        let block_align = BLOCK_SIZE as u16 * channels;
        let rate_bits = sample_rate * bits_per_sample as u32;
        Ok(FmtChunk {
            format_tag: 0x0002,
            channels,
            sample_rate,
            byte_rate: rate_bits * channels as u32 / 8,
            block_align,
            bits_per_sample,
            extension: Some(FmtExtension::new_adpcm_ms(AdpcmMsData {
                samples_per_block: (BLOCK_SIZE as u16 - HEADER_SIZE as u16) * 2 * channels,
                num_coeff: 7,
                coeffs: self.coeff_table,
            })),
        })
    }

    /// * When encoding is ended, call this to update statistics data for the `fmt ` chunk.
    /// * Sets the block size, the bits per sample and the byte rate; the extension must hold
    ///   ADPCM-MS data, which stays as it is.
    fn modify_fmt_chunk(&self, fmt_chunk: &mut FmtChunk) -> (r: Result<(), AdpcmError>)
        ensures
            final(fmt_chunk).block_align == BLOCK_SIZE * old(fmt_chunk).channels,
            final(fmt_chunk).bits_per_sample == 4,
            final(fmt_chunk).byte_rate == old(fmt_chunk).sample_rate * old(fmt_chunk).channels * 4 / 8,
            final(fmt_chunk).format_tag == old(fmt_chunk).format_tag,
            final(fmt_chunk).channels == old(fmt_chunk).channels,
            final(fmt_chunk).sample_rate == old(fmt_chunk).sample_rate,
            final(fmt_chunk).extension == old(fmt_chunk).extension,
            r == match old(fmt_chunk).extension {
                Some(ext) => match ext.data {
                    ExtensionData::AdpcmMs(_) => Ok::<(), AdpcmError>(()),
                    _ => Err(AdpcmError::WrongExtensionData),
                },
                None => Err(AdpcmError::MissingExtensionData),
            },
    {
        fmt_chunk.block_align = BLOCK_SIZE as u16 * fmt_chunk.channels;
        fmt_chunk.bits_per_sample = 4;
        let rate_channels = fmt_chunk.sample_rate * fmt_chunk.channels as u32;
        fmt_chunk.byte_rate = rate_channels * fmt_chunk.bits_per_sample as u32 / 8;
        match fmt_chunk.extension {
            Some(extension) => match extension.data {
                ExtensionData::AdpcmMs(_) => Ok(()),
                _ => Err(AdpcmError::WrongExtensionData),
            },
            None => Err(AdpcmError::MissingExtensionData),
        }
    }

    /// * Excrete the last data: feeds zero samples until the current block is complete.
    #[verifier::spinoff_prover]
    #[verifier::rlimit(40)]
    fn flush(&mut self, output: &mut Vec<u8>) -> (r: Result<(), AdpcmError>) {
        let ghost s0 = self@;
        let ghost out0 = output@;
        let ghost mut i: int = 0;
        proof { assert(Seq::new(0, |j: int| 0i16) =~= Seq::<i16>::empty()); }
        while self.bytes_yield != 0
            invariant
                s0 == old(self)@,
                out0 == old(output)@,
                s0.wf(),
                self@.wf(),
                0 <= i,
                self@ == s0.run(Seq::new(i as nat, |j: int| 0i16)).0,
                output@ == out0 + s0.run(Seq::new(i as nat, |j: int| 0i16)).1,
                self@.bytes_yield != 0 ==> i + self@.flush_len() == s0.flush_len(),
                self@.bytes_yield == 0 ==> i == s0.flush_len(),
                s0.bytes_yield == 0 ==> i == 0,
            decreases self@.flush_len(),
        {
            let zero: [i16; 1] = [0];
            proof {
                assert(zero@ =~= seq![0i16]);
                assert(Seq::new((i + 1) as nat, |j: int| 0i16).drop_last() =~= Seq::new(i as nat, |j: int| 0i16));
                lemma_encoder_step_wf(self@, 0);
                lemma_encoder_run_single(self@, 0);
            }
            let _ = self.encode(&zero, output);
            proof {
                i = i + 1;
                assert(output@ =~= out0 + s0.run(Seq::new(i as nat, |j: int| 0i16)).1);
            }
        }
        Ok(())
    }
}

/// The header fields of an ADPCM-MS block as the decoder reads them:
/// `(predictor, delta, sample1, sample2)`.
pub open spec fn breakfast_of(bytes: Seq<u8>) -> (u8, i16, i16, i16) {
    (bytes[0], i16_from_le(bytes[1], bytes[2]), i16_from_le(bytes[3], bytes[4]), i16_from_le(bytes[5], bytes[6]))
}

/// The bytes of the left channel's header within the fourteen header bytes of a stereo block.
pub open spec fn stereo_left_bytes(b: Seq<u8>) -> Seq<u8> {
    seq![b[0], b[2], b[3], b[6], b[7], b[10], b[11]]
}

/// The bytes of the right channel's header within the fourteen header bytes of a stereo block.
pub open spec fn stereo_right_bytes(b: Seq<u8>) -> Seq<u8> {
    seq![b[1], b[4], b[5], b[8], b[9], b[12], b[13]]
}

/// The state of a mono ADPCM-MS decoder, as plain values.
pub struct DecoderCoreState {
    pub sample1: i16,
    pub sample2: i16,
    pub coeff: AdpcmCoeffSet,
    pub delta: i32,
    /// Whether the block header was read.
    pub ready: bool,
    pub coeff_table: Seq<AdpcmCoeffSet>,
    /// The header bytes read so far.
    pub header_buffer: Seq<u8>,
    /// The bytes of the current block read so far.
    pub bytes_eaten: usize,
    /// The block size.
    pub max_bytes_can_eat: usize,
}

impl DecoderCoreState {
    /// The state invariant.
    pub open spec fn wf(self) -> bool {
        &&& self.coeff_table.len() == 7
        &&& self.header_buffer.len() <= HEADER_SIZE
        &&& -32768 <= self.delta <= MAX_DECODER_DELTA
        &&& self.max_bytes_can_eat <= 0xFFFF
        &&& !self.ready ==> self.bytes_eaten == 0
    }

    /// Whether the next nibble can be expanded without the predictor overflowing 32 bits.
    pub open spec fn can_expand(self) -> bool {
        predictor_fits(self.sample1, self.sample2, self.coeff)
    }

    /// The sample for `nibble`, and the state after it.
    pub open spec fn expand(self, nibble: int) -> (DecoderCoreState, i16) {
        let pred = predictor(self.sample1, self.sample2, self.coeff);
        let sample = reconstruct(pred, self.delta as int, nibble) as i16;
        (
            DecoderCoreState {
                sample1: sample,
                sample2: self.sample1,
                delta: decoder_next_delta(self.delta as int, nibble) as i32,
                ..self
            },
            sample,
        )
    }

    /// The state after `unready`.
    pub open spec fn unready(self) -> DecoderCoreState {
        DecoderCoreState { header_buffer: Seq::empty(), bytes_eaten: 0, ready: false, ..self }
    }

    /// How taking a block header `(predictor, delta, sample1, sample2)` ends: a predictor above 6
    /// is refused; otherwise the state takes the header and the two samples come out, the
    /// older first.
    pub open spec fn get_ready(self, bf: (u8, i16, i16, i16)) -> Flow<DecoderCoreState, i16> {
        if bf.0 > 6 {
            Flow::Stopped(self, Seq::empty(), AdpcmError::PredictorOutOfRange(bf.0))
        } else {
            Flow::Going(
                DecoderCoreState {
                    coeff: self.coeff_table[bf.0 as int],
                    delta: bf.1 as i32,
                    sample1: bf.2,
                    sample2: bf.3,
                    ready: true,
                    bytes_eaten: (self.bytes_eaten + HEADER_SIZE) as usize,
                    ..self
                },
                seq![bf.3, bf.2],
            )
        }
    }

    /// Decodes one byte: seven header bytes make the decoder ready; after that every byte gives
    /// two samples, the high nibble first, until the block is complete.
    pub open spec fn step(self, byte: u8) -> Flow<DecoderCoreState, i16> {
        if !self.ready {
            if self.header_buffer.len() >= HEADER_SIZE {
                Flow::Panics
            } else {
                let buf = self.header_buffer.push(byte);
                let s = DecoderCoreState { header_buffer: buf, ..self };
                if buf.len() == HEADER_SIZE {
                    s.get_ready(breakfast_of(buf))
                } else {
                    Flow::Going(s, Seq::empty())
                }
            }
        } else if self.bytes_eaten == usize::MAX {
            Flow::Panics
        } else if !self.can_expand() || !self.expand((byte / 16) as int).0.can_expand() {
            Flow::Stopped(self, Seq::empty(), AdpcmError::PredictorOverflow)
        } else {
            let (s1, a) = self.expand((byte / 16) as int);
            let (s2, b) = s1.expand((byte % 16) as int);
            let eaten = self.bytes_eaten + 1;
            let s3 = DecoderCoreState { bytes_eaten: eaten as usize, ..s2 };
            Flow::Going(if eaten >= self.max_bytes_can_eat { s3.unready() } else { s3 }, seq![a, b])
        }
    }
}

/// The header data for the decoder to initialize.
#[derive(Clone, Copy)]
pub struct DecoderBreakfast {
    predictor: u8,
    delta: i16,
    sample1: i16,
    sample2: i16,
}

impl View for DecoderBreakfast {
    type V = (u8, i16, i16, i16);

    closed spec fn view(&self) -> (u8, i16, i16, i16) {
        (self.predictor, self.delta, self.sample1, self.sample2)
    }
}

/// The `i16` of two little-endian bytes.
fn i16_from_le_bytes(lo: u8, hi: u8) -> (r: i16)
    ensures
        r == i16_from_le(lo, hi),
{
    (lo as u16 + (hi as u16) * 256) as i16
}

impl DecoderBreakfast {
    /// Reads a mono block header: the predictor, then the step, the newer and the older sample,
    /// each little-endian.
    pub fn from_bytes_mono(bytes: &[u8; 7]) -> (r: Self)
        ensures
            r@ == breakfast_of(bytes@),
    {
        Self {
            predictor: bytes[0],
            delta: i16_from_le_bytes(bytes[1], bytes[2]),
            sample1: i16_from_le_bytes(bytes[3], bytes[4]),
            sample2: i16_from_le_bytes(bytes[5], bytes[6]),
        }
    }

    /// Reads a stereo block header, whose fields interleave the two channels.
    pub fn from_bytes_stereo(bytes: &[u8; 14]) -> (r: (Self, Self))
        ensures
            r.0@ == breakfast_of(stereo_left_bytes(bytes@)),
            r.1@ == breakfast_of(stereo_right_bytes(bytes@)),
    {
        let l = Self::from_bytes_mono(&[bytes[0], bytes[2], bytes[3], bytes[6], bytes[7], bytes[10], bytes[11]]);
        let r = Self::from_bytes_mono(&[bytes[1], bytes[4], bytes[5], bytes[8], bytes[9], bytes[12], bytes[13]]);
        (l, r)
    }
}

/// The coefficient table a decoder takes from a `fmt ` chunk: the one stored in its ADPCM-MS
/// extension where that is at least 12 bytes long and has seven pairs, else the standard one.
pub open spec fn decoder_coeff_table(fmt_chunk: FmtChunk) -> Seq<AdpcmCoeffSet> {
    match fmt_chunk.extension {
        None => def_coeff_table_spec(),
        Some(extension) => if extension.ext_len < 12 {
            def_coeff_table_spec()
        } else {
            match extension.data {
                ExtensionData::AdpcmMs(adpcm_ms) => if adpcm_ms.num_coeff != 7 {
                    def_coeff_table_spec()
                } else {
                    adpcm_ms.coeffs@
                },
                _ => def_coeff_table_spec(),
            }
        },
    }
}

/// ## This is the decoder core for mono-channel decoding
#[derive(Clone, Copy)]
pub struct DecoderCore {
    sample1: i16,
    sample2: i16,
    coeff: AdpcmCoeffSet,
    delta: i32,
    ready: bool,
    coeff_table: [AdpcmCoeffSet; 7],
    header_buffer: CopiableBuffer<u8, HEADER_SIZE>,
    bytes_eaten: usize,
    max_bytes_can_eat: usize,
}

impl View for DecoderCore {
    type V = DecoderCoreState;

    closed spec fn view(&self) -> DecoderCoreState {
        DecoderCoreState {
            sample1: self.sample1,
            sample2: self.sample2,
            coeff: self.coeff,
            delta: self.delta,
            ready: self.ready,
            coeff_table: self.coeff_table@,
            header_buffer: self.header_buffer@,
            bytes_eaten: self.bytes_eaten,
            max_bytes_can_eat: self.max_bytes_can_eat,
        }
    }
}

impl DecoderCore {
    /// The state of a new decoder for a `fmt ` chunk.
    pub open spec fn new_spec(fmt_chunk: FmtChunk) -> DecoderCoreState {
        DecoderCoreState {
            sample1: 0,
            sample2: 0,
            coeff: AdpcmCoeffSet { coeff1: 0, coeff2: 0 },
            delta: 0,
            ready: false,
            coeff_table: decoder_coeff_table(fmt_chunk),
            header_buffer: Seq::empty(),
            bytes_eaten: 0,
            max_bytes_can_eat: fmt_chunk.block_align as usize,
        }
    }

    /// * If `fmt_chunk` doesn't have the extension data, use the default coeff table.
    pub fn new(fmt_chunk: FmtChunk) -> (r: Self)
        ensures
            r@ == Self::new_spec(fmt_chunk),
            r@.wf(),
    {
        let coeff_table = match fmt_chunk.extension {
            None => def_coeff_table(),
            Some(extension) => {
                if extension.ext_len < 12 {
                    def_coeff_table()
                } else {
                    match extension.data {
                        ExtensionData::AdpcmMs(adpcm_ms) => {
                            if adpcm_ms.num_coeff != 7 {
                                def_coeff_table()
                            } else {
                                adpcm_ms.coeffs
                            }
                        },
                        _ => def_coeff_table(),
                    }
                }
            },
        };
        Self {
            sample1: 0,
            sample2: 0,
            coeff: AdpcmCoeffSet::new(),
            delta: 0,
            ready: false,
            coeff_table,
            header_buffer: CopiableBuffer::new(),
            bytes_eaten: 0,
            max_bytes_can_eat: fmt_chunk.block_align as usize,
        }
    }

    /// * Uncompress a nibble to a sample
    pub fn expand_nibble(&mut self, nibble: u8) -> (r: i16)
        requires
            old(self)@.wf(),
            old(self)@.can_expand(),
            nibble < 16,
        ensures
            final(self)@ == old(self)@.expand(nibble as int).0,
            r == old(self)@.expand(nibble as int).1,
            final(self)@.wf(),
    {
        let p1 = mul_i16(self.sample1, self.coeff.get(1));
        let p2 = mul_i16(self.sample2, self.coeff.get(2));
        let predictor = (p1 + p2) / 256;
        assert(-8388608 <= predictor <= 8388608);
        let n = nibble as i32;
        assert((if (n & 0x08) != 0 { n.wrapping_sub(0x10) } else { n }) == signed_nibble(n as int)) by (bit_vector)
            requires 0 <= n < 16;
        let sn = if (n & 0x08) != 0 { n.wrapping_sub(0x10) } else { n };
        assert(-22369616 <= sn * self.delta <= 22369616) by (nonlinear_arith)
            requires -8 <= sn <= 7, -32768 <= self.delta <= 2796202;
        let predictor = predictor + sn * self.delta;
        self.sample2 = self.sample1;
        self.sample1 = clamp_i32(predictor, -32768, 32767) as i16;
        proof { lemma_adaptation(n as int); }
        let a = ADAPTATIONTABLE[nibble as usize] as i32;
        assert(-25165824 <= a * self.delta <= 2147483136) by (nonlinear_arith)
            requires 230 <= a <= 768, -32768 <= self.delta <= 2796202;
        let prod = a * self.delta;
        assert(prod >> 8 == prod / 256) by (bit_vector);
        self.delta = clamp_i32(prod >> 8, 16, i32::MAX / 768);
        self.sample1
    }

    /// Whether the predictor of the next sample can be computed in 32 bits.
    fn can_expand(&self) -> (r: bool)
        ensures
            r == self@.can_expand(),
    {
        let p1 = mul_i16(self.sample1, self.coeff.get(1));
        let p2 = mul_i16(self.sample2, self.coeff.get(2));
        p1 as i64 + p2 as i64 <= i32::MAX as i64
    }

    /// * Check if breakfast was eaten, and ready to decode.
    pub fn is_ready(&self) -> (r: bool)
        ensures
            r == self@.ready,
    {
        self.ready
    }

    /// * Puke the breakfast, and reset to the initial state.
    pub fn unready(&mut self)
        ensures
            final(self)@ == old(self)@.unready(),
    {
        self.header_buffer.clear();
        self.bytes_eaten = 0;
        self.ready = false;
    }

    /// * How many bytes were eaten, should not exceed the block size in the `fmt ` chunk.
    pub fn get_bytes_eaten(&self) -> (r: usize)
        ensures
            r == self@.bytes_eaten,
    {
        self.bytes_eaten
    }

    /// * The block size in the `fmt ` chunk.
    pub fn get_max_bytes_can_eat(&self) -> (r: usize)
        ensures
            r == self@.max_bytes_can_eat,
    {
        self.max_bytes_can_eat
    }

    /// * Provide the header data of the ADPCM-MS for the decoder core as the breakfast.
    /// * Appends the two samples of the header to `output`, the older one first.
    pub fn get_ready(&mut self, breakfast: &DecoderBreakfast, output: &mut Vec<i16>) -> (r: Result<(), AdpcmError>)
        requires
            old(self)@.wf(),
            old(self)@.bytes_eaten + HEADER_SIZE <= usize::MAX,
        ensures
            old(self)@.get_ready(breakfast@) matches Flow::Going(s, o) ==> r is Ok && final(self)@ == s
                && final(output)@ == old(output)@ + o,
            old(self)@.get_ready(breakfast@) matches Flow::Stopped(s, o, e) ==> r == Err::<(), AdpcmError>(e)
                && final(self)@ == s && final(output)@ == old(output)@ + o,
            final(self)@.wf(),
    {
        if breakfast.predictor > 6 {
            assert(output@ =~= old(output)@ + Seq::<i16>::empty());
            return Err(AdpcmError::PredictorOutOfRange(breakfast.predictor));
        }
        self.coeff = self.coeff_table[breakfast.predictor as usize];
        self.delta = breakfast.delta as i32;
        self.sample1 = breakfast.sample1;
        self.sample2 = breakfast.sample2;
        self.ready = true;
        self.bytes_eaten += 7;
        output.push(breakfast.sample2);
        output.push(breakfast.sample1);
        assert(output@ =~= old(output)@ + seq![breakfast.sample2, breakfast.sample1]);
        Ok(())
    }

    /// Decodes one byte and appends the samples it gives.
    fn decode_one(&mut self, byte: u8, output: &mut Vec<i16>) -> (r: Result<(), AdpcmError>)
        requires
            old(self)@.wf(),
            !(old(self)@.step(byte) is Panics),
        ensures
            old(self)@.step(byte) matches Flow::Going(s, o) ==> r is Ok && final(self)@ == s
                && final(output)@ == old(output)@ + o,
            old(self)@.step(byte) matches Flow::Stopped(s, o, e) ==> r == Err::<(), AdpcmError>(e)
                && final(self)@ == s && final(output)@ == old(output)@ + o,
    {
        let ghost s0 = self@;
        let ghost out0 = output@;
        if !self.ready {
            self.header_buffer.push(byte);
            if self.header_buffer.is_full() {
                let arr = self.header_buffer.get_array();
                assert(arr@ =~= self.header_buffer@) by {
                    assert(arr@.take(7) =~= arr@);
                }
                let breakfast = DecoderBreakfast::from_bytes_mono(arr);
                return self.get_ready(&breakfast, output);
            }
            assert(output@ =~= out0 + Seq::<i16>::empty());
            Ok(())
        } else {
            proof { lemma_nibbles(byte); }
            let mut probe = *self;
            let fits = if self.can_expand() {
                let _ = probe.expand_nibble(byte >> 4u8);
                probe.can_expand()
            } else {
                false
            };
            if !fits {
                assert(output@ =~= out0 + Seq::<i16>::empty());
                return Err(AdpcmError::PredictorOverflow);
            }
            let a = self.expand_nibble(byte >> 4u8);
            output.push(a);
            let b = self.expand_nibble(byte & 0x0Fu8);
            output.push(b);
            self.bytes_eaten += 1;
            if self.bytes_eaten >= self.max_bytes_can_eat {
                self.unready();
            }
            assert(output@ =~= out0 + seq![a, b]);
            Ok(())
        }
    }
}

/// The state of a stereo ADPCM-MS decoder, as plain values.
pub struct StereoDecoderState {
    pub core_l: DecoderCoreState,
    pub core_r: DecoderCoreState,
    /// The bytes of the current block read so far.
    pub bytes_eaten: usize,
    /// The block size.
    pub max_bytes_can_eat: usize,
    /// Whether both block headers were read.
    pub ready: bool,
}

impl StereoDecoderState {
    /// The state invariant.
    pub open spec fn wf(self) -> bool {
        &&& self.core_l.wf()
        &&& self.core_r.wf()
        &&& self.max_bytes_can_eat <= 0xFFFF
        &&& self.core_r.header_buffer.len() > 0 ==> self.core_l.header_buffer.len() == HEADER_SIZE
        &&& !self.ready ==> self.bytes_eaten == 0 && !self.core_r.ready
        &&& !self.ready && self.core_l.ready ==> self.core_r.header_buffer.len() == HEADER_SIZE
    }

    /// The state after `unready`.
    pub open spec fn unready(self) -> StereoDecoderState {
        StereoDecoderState {
            core_l: self.core_l.unready(),
            core_r: self.core_r.unready(),
            bytes_eaten: 0,
            ready: false,
            ..self
        }
    }

    /// How taking both block headers ends: the left header, then the right, each may be refused;
    /// otherwise the four samples come out as older left, older right, newer left, newer right.
    pub open spec fn get_ready(self, bl: (u8, i16, i16, i16), br: (u8, i16, i16, i16)) -> Flow<StereoDecoderState, i16> {
        match self.core_l.get_ready(bl) {
            Flow::Going(l2, ol) => match self.core_r.get_ready(br) {
                Flow::Going(r2, or) => Flow::Going(
                    StereoDecoderState {
                        core_l: l2,
                        core_r: r2,
                        bytes_eaten: (self.bytes_eaten + 2 * HEADER_SIZE) as usize,
                        ready: true,
                        ..self
                    },
                    seq![ol[0], or[0], ol[1], or[1]],
                ),
                Flow::Stopped(r2, _, e) => Flow::Stopped(StereoDecoderState { core_l: l2, core_r: r2, ..self }, Seq::empty(), e),
                Flow::Panics => Flow::Panics,
            },
            Flow::Stopped(l2, _, e) => Flow::Stopped(StereoDecoderState { core_l: l2, ..self }, Seq::empty(), e),
            Flow::Panics => Flow::Panics,
        }
    }

    /// Decodes one byte: the first seven header bytes go to the left channel, the next seven to the
    /// right; after that every byte gives a left sample (high nibble) and a right one (low nibble).
    pub open spec fn step(self, byte: u8) -> Flow<StereoDecoderState, i16> {
        if !self.ready {
            if self.core_l.header_buffer.len() >= HEADER_SIZE && self.core_r.header_buffer.len() >= HEADER_SIZE {
                Flow::Panics
            } else {
                let s = if self.core_l.header_buffer.len() < HEADER_SIZE {
                    StereoDecoderState {
                        core_l: DecoderCoreState { header_buffer: self.core_l.header_buffer.push(byte), ..self.core_l },
                        ..self
                    }
                } else {
                    StereoDecoderState {
                        core_r: DecoderCoreState { header_buffer: self.core_r.header_buffer.push(byte), ..self.core_r },
                        ..self
                    }
                };
                if s.core_r.header_buffer.len() == HEADER_SIZE {
                    let bytes = s.core_l.header_buffer + s.core_r.header_buffer;
                    s.get_ready(breakfast_of(stereo_left_bytes(bytes)), breakfast_of(stereo_right_bytes(bytes)))
                } else {
                    Flow::Going(s, Seq::empty())
                }
            }
        } else if self.bytes_eaten == usize::MAX {
            Flow::Panics
        } else if !self.core_l.can_expand() || !self.core_r.can_expand() {
            Flow::Stopped(self, Seq::empty(), AdpcmError::PredictorOverflow)
        } else {
            let (l2, a) = self.core_l.expand((byte / 16) as int);
            let (r2, b) = self.core_r.expand((byte % 16) as int);
            let eaten = self.bytes_eaten + 1;
            let s = StereoDecoderState { core_l: l2, core_r: r2, bytes_eaten: eaten as usize, ..self };
            Flow::Going(if eaten >= self.max_bytes_can_eat { s.unready() } else { s }, seq![a, b])
        }
    }
}

/// ## The decoder with two cores to decode the stereo audio.
#[derive(Clone, Copy)]
pub struct StereoDecoder {
    core_l: DecoderCore,
    core_r: DecoderCore,
    bytes_eaten: usize,
    max_bytes_can_eat: usize,
    ready: bool,
}

impl View for StereoDecoder {
    type V = StereoDecoderState;

    closed spec fn view(&self) -> StereoDecoderState {
        StereoDecoderState {
            core_l: self.core_l@,
            core_r: self.core_r@,
            bytes_eaten: self.bytes_eaten,
            max_bytes_can_eat: self.max_bytes_can_eat,
            ready: self.ready,
        }
    }
}

impl StereoDecoder {
    /// The state of a new stereo decoder for a `fmt ` chunk.
    pub open spec fn new_spec(fmt_chunk: FmtChunk) -> StereoDecoderState {
        StereoDecoderState {
            core_l: DecoderCore::new_spec(fmt_chunk),
            core_r: DecoderCore::new_spec(fmt_chunk),
            bytes_eaten: 0,
            max_bytes_can_eat: fmt_chunk.block_align as usize,
            ready: false,
        }
    }

    pub fn new(fmt_chunk: FmtChunk) -> (r: Self)
        ensures
            r@ == Self::new_spec(fmt_chunk),
            r@.wf(),
    {
        Self {
            core_l: DecoderCore::new(fmt_chunk),
            core_r: DecoderCore::new(fmt_chunk),
            bytes_eaten: 0,
            max_bytes_can_eat: fmt_chunk.block_align as usize,
            ready: false,
        }
    }

    /// * Check if breakfast was eaten, and ready to decode.
    pub fn is_ready(&self) -> (r: bool)
        ensures
            r == self@.ready,
    {
        self.ready
    }

    /// * Puke the breakfast, and reset to the initial state.
    pub fn unready(&mut self)
        ensures
            final(self)@ == old(self)@.unready(),
    {
        self.core_l.unready();
        self.core_r.unready();
        self.bytes_eaten = 0;
        self.ready = false;
    }

    /// * How many bytes were eaten, should not exceed the block size in the `fmt ` chunk.
    pub fn get_bytes_eaten(&self) -> (r: usize)
        ensures
            r == self@.bytes_eaten,
    {
        self.bytes_eaten
    }

    /// * The block size in the `fmt ` chunk.
    pub fn get_max_bytes_can_eat(&self) -> (r: usize)
        ensures
            r == self@.max_bytes_can_eat,
    {
        self.max_bytes_can_eat
    }

    /// * Provide the header data of the ADPCM-MS for the decoder cores as the breakfast.
    /// * Appends the four samples of the headers to `output`.
    pub fn get_ready(&mut self, breakfast_l: &DecoderBreakfast, breakfast_r: &DecoderBreakfast, output: &mut Vec<i16>) -> (r: Result<(), AdpcmError>)
        requires
            old(self)@.wf(),
            old(self)@.bytes_eaten + 2 * HEADER_SIZE <= usize::MAX,
            old(self)@.core_l.bytes_eaten + HEADER_SIZE <= usize::MAX,
            old(self)@.core_r.bytes_eaten + HEADER_SIZE <= usize::MAX,
        ensures
            old(self)@.get_ready(breakfast_l@, breakfast_r@) matches Flow::Going(s, o) ==> r is Ok && final(self)@ == s
                && final(output)@ == old(output)@ + o,
            old(self)@.get_ready(breakfast_l@, breakfast_r@) matches Flow::Stopped(s, o, e) ==> r == Err::<(), AdpcmError>(e)
                && final(self)@ == s && final(output)@ == old(output)@ + o,
            r is Ok ==> final(self)@.wf(),
    {
        let ghost out0 = output@;
        let mut samples: Vec<i16> = Vec::new();
        match self.core_l.get_ready(breakfast_l, &mut samples) {
            Err(e) => {
                assert(output@ =~= out0 + Seq::<i16>::empty());
                return Err(e);
            },
            Ok(()) => {},
        }
        match self.core_r.get_ready(breakfast_r, &mut samples) {
            Err(e) => {
                assert(output@ =~= out0 + Seq::<i16>::empty());
                return Err(e);
            },
            Ok(()) => {},
        }
        output.push(samples[0]);
        output.push(samples[2]);
        output.push(samples[1]);
        output.push(samples[3]);
        self.bytes_eaten += 14;
        self.ready = true;
        assert(output@ =~= out0 + seq![samples@[0], samples@[2], samples@[1], samples@[3]]);
        Ok(())
    }

    /// Decodes one byte and appends the samples it gives.
    fn decode_one(&mut self, byte: u8, output: &mut Vec<i16>) -> (r: Result<(), AdpcmError>)
        requires
            old(self)@.wf(),
            !(old(self)@.step(byte) is Panics),
        ensures
            old(self)@.step(byte) matches Flow::Going(s, o) ==> r is Ok && final(self)@ == s
                && final(output)@ == old(output)@ + o,
            old(self)@.step(byte) matches Flow::Stopped(s, o, e) ==> r == Err::<(), AdpcmError>(e)
                && final(self)@ == s && final(output)@ == old(output)@ + o,
    {
        let ghost s0 = self@;
        let ghost out0 = output@;
        if !self.ready {
            if !self.core_l.header_buffer.is_full() {
                self.core_l.header_buffer.push(byte);
            } else {
                self.core_r.header_buffer.push(byte);
            }
            if self.core_r.header_buffer.is_full() {
                let l = self.core_l.header_buffer.get_array();
                let r = self.core_r.header_buffer.get_array();
                assert(l@ =~= self.core_l.header_buffer@) by {
                    assert(l@.take(7) =~= l@);
                }
                assert(r@ =~= self.core_r.header_buffer@) by {
                    assert(r@.take(7) =~= r@);
                }
                let bytes: [u8; 14] = [l[0], l[1], l[2], l[3], l[4], l[5], l[6], r[0], r[1], r[2], r[3], r[4], r[5], r[6]];
                assert(bytes@ =~= self.core_l.header_buffer@ + self.core_r.header_buffer@);
                let (breakfast_l, breakfast_r) = DecoderBreakfast::from_bytes_stereo(&bytes);
                return self.get_ready(&breakfast_l, &breakfast_r, output);
            }
            assert(output@ =~= out0 + Seq::<i16>::empty());
            Ok(())
        } else {
            proof { lemma_nibbles(byte); }
            if !self.core_l.can_expand() || !self.core_r.can_expand() {
                assert(output@ =~= out0 + Seq::<i16>::empty());
                return Err(AdpcmError::PredictorOverflow);
            }
            let a = self.core_l.expand_nibble(byte >> 4u8);
            output.push(a);
            let b = self.core_r.expand_nibble(byte & 0x0Fu8);
            output.push(b);
            self.bytes_eaten += 1;
            if self.bytes_eaten >= self.max_bytes_can_eat {
                self.unready();
            }
            assert(output@ =~= out0 + seq![a, b]);
            Ok(())
        }
    }
}

/// The state of an ADPCM-MS decoder, as plain values.
pub enum DecoderState {
    Mono(DecoderCoreState),
    Stereo(StereoDecoderState),
}

/// One decoding step of an ADPCM-MS decoder, as a function.
pub open spec fn decoder_step() -> spec_fn(DecoderState, u8) -> Flow<DecoderState, i16> {
    |s: DecoderState, b: u8| s.step(b)
}

/// Zero bytes.
pub open spec fn zero_bytes(n: int) -> Seq<u8> {
    Seq::new(n as nat, |i: int| 0u8)
}

impl DecoderState {
    pub open spec fn wf(self) -> bool {
        match self {
            DecoderState::Mono(c) => c.wf(),
            DecoderState::Stereo(st) => st.wf(),
        }
    }

    /// Decodes one byte with the decoder of its channel count.
    pub open spec fn step(self, byte: u8) -> Flow<DecoderState, i16> {
        match self {
            DecoderState::Mono(c) => c.step(byte).map_state(|c2: DecoderCoreState| DecoderState::Mono(c2)),
            DecoderState::Stereo(st) => st.step(byte).map_state(|st2: StereoDecoderState| DecoderState::Stereo(st2)),
        }
    }

    /// Decodes the bytes in order.
    pub open spec fn run(self, input: Seq<u8>) -> Flow<DecoderState, i16> {
        run_flow(decoder_step(), self, input)
    }

    pub open spec fn is_ready(self) -> bool {
        match self {
            DecoderState::Mono(c) => c.ready,
            DecoderState::Stereo(st) => st.ready,
        }
    }

    pub open spec fn bytes_eaten(self) -> usize {
        match self {
            DecoderState::Mono(c) => c.bytes_eaten,
            DecoderState::Stereo(st) => st.bytes_eaten,
        }
    }

    pub open spec fn max_bytes_can_eat(self) -> usize {
        match self {
            DecoderState::Mono(c) => c.max_bytes_can_eat,
            DecoderState::Stereo(st) => st.max_bytes_can_eat,
        }
    }

    pub open spec fn channels(self) -> usize {
        match self {
            DecoderState::Mono(_) => 1,
            DecoderState::Stereo(_) => 2,
        }
    }

    /// The state after `unready`.
    pub open spec fn unready(self) -> DecoderState {
        match self {
            DecoderState::Mono(c) => DecoderState::Mono(c.unready()),
            DecoderState::Stereo(st) => DecoderState::Stereo(st.unready()),
        }
    }

    /// How `flush` ends: a block begun and not complete is completed with zero bytes.
    pub open spec fn flush_flow(self) -> Flow<DecoderState, i16> {
        if 0 < self.bytes_eaten() < self.max_bytes_can_eat() {
            self.run(zero_bytes(self.max_bytes_can_eat() - self.bytes_eaten()))
        } else {
            Flow::Going(self, Seq::empty())
        }
    }
}

/// A step from a well-formed state keeps it well formed, unless it panics.
pub proof fn lemma_decoder_step_wf(s: DecoderState, byte: u8)
    requires
        s.wf(),
    ensures
        match s.step(byte) {
            Flow::Going(s2, _) => s2.wf(),
            Flow::Stopped(s2, _, _) => s2.wf(),
            Flow::Panics => true,
        },
{
    match s {
        DecoderState::Mono(c) => {
            if c.ready && c.can_expand() {
                lemma_expand_wf(c, (byte / 16) as int);
            }
        },
        DecoderState::Stereo(st) => {
            if st.ready && st.core_l.can_expand() && st.core_r.can_expand() {
                lemma_expand_wf(st.core_l, (byte / 16) as int);
                lemma_expand_wf(st.core_r, (byte % 16) as int);
            }
        },
    }
}

proof fn lemma_expand_wf(c: DecoderCoreState, nibble: int)
    requires
        c.wf(),
        0 <= nibble < 16,
    ensures
        c.expand(nibble).0.wf(),
{
}

/// Runs from a well-formed state keep it well formed, unless they panic.
pub proof fn lemma_decoder_run_wf(s: DecoderState, input: Seq<u8>)
    requires
        s.wf(),
    ensures
        match s.run(input) {
            Flow::Going(s2, _) => s2.wf(),
            Flow::Stopped(s2, _, _) => s2.wf(),
            Flow::Panics => true,
        },
{
    let inv = |a: DecoderState| a.wf();
    assert forall|a: DecoderState, x: u8| #![trigger decoder_step()(a, x)] inv(a) implies match decoder_step()(a, x) {
        Flow::Going(b, _) => inv(b),
        Flow::Stopped(b, _, _) => inv(b),
        Flow::Panics => true,
    } by {
        lemma_decoder_step_wf(a, x);
    }
    lemma_run_flow_inv(decoder_step(), inv, s, input);
}

/// A run that does not panic ends with the bytes eaten of the block below the block size.
pub open spec fn ends_within_block(f: Flow<DecoderState, i16>) -> bool {
    match f {
        Flow::Going(s2, _) => eaten_within_block(s2),
        Flow::Stopped(s2, _, _) => eaten_within_block(s2),
        Flow::Panics => true,
    }
}

/// The bytes eaten of the current block are below the block size, and a block is longer than
/// its headers.
pub open spec fn eaten_within_block(s: DecoderState) -> bool {
    &&& s.bytes_eaten() < s.max_bytes_can_eat()
    &&& s.max_bytes_can_eat() > HEADER_SIZE * s.channels()
}

proof fn lemma_decoder_step_within_block(s: DecoderState, byte: u8)
    requires
        s.wf(),
        eaten_within_block(s),
    ensures
        match s.step(byte) {
            Flow::Going(s2, _) => s2.wf() && eaten_within_block(s2) && s2.max_bytes_can_eat() == s.max_bytes_can_eat(),
            Flow::Stopped(s2, _, _) => s2.wf() && eaten_within_block(s2) && s2.max_bytes_can_eat() == s.max_bytes_can_eat(),
            Flow::Panics => true,
        },
{
    lemma_decoder_step_wf(s, byte);
}

/// While a decoder reads its input, the bytes it has eaten of the current block stay below the
/// block size, for a block longer than its headers, and the block size stays as it was.
pub proof fn lemma_bytes_eaten_below_block_size(s: DecoderState, input: Seq<u8>)
    requires
        s.wf(),
        s.bytes_eaten() < s.max_bytes_can_eat(),
        s.max_bytes_can_eat() > HEADER_SIZE * s.channels(),
    ensures
        match s.run(input) {
            Flow::Going(s2, _) => s2.bytes_eaten() < s2.max_bytes_can_eat() && s2.max_bytes_can_eat() == s.max_bytes_can_eat(),
            Flow::Stopped(s2, _, _) => s2.bytes_eaten() < s2.max_bytes_can_eat() && s2.max_bytes_can_eat() == s.max_bytes_can_eat(),
            Flow::Panics => true,
        },
        ends_within_block(s.run(input)),
{
    let m = s.max_bytes_can_eat();
    let inv = |a: DecoderState| a.wf() && eaten_within_block(a) && a.max_bytes_can_eat() == m;
    assert forall|a: DecoderState, x: u8| #![trigger decoder_step()(a, x)] inv(a) implies match decoder_step()(a, x) {
        Flow::Going(b, _) => inv(b),
        Flow::Stopped(b, _, _) => inv(b),
        Flow::Panics => true,
    } by {
        lemma_decoder_step_within_block(a, x);
    }
    lemma_run_flow_inv(decoder_step(), inv, s, input);
}

/// The decoder can take another byte: no refused header left its header bytes complete.
pub open spec fn takes_input(s: DecoderState) -> bool {
    match s {
        DecoderState::Mono(c) => !c.ready ==> c.header_buffer.len() < HEADER_SIZE,
        DecoderState::Stereo(st) => !st.ready ==> st.core_r.header_buffer.len() < HEADER_SIZE,
    }
}

proof fn lemma_decoder_step_no_panic(s: DecoderState, byte: u8)
    requires
        s.wf(),
        eaten_within_block(s),
        takes_input(s),
    ensures
        !(s.step(byte) is Panics),
        s.step(byte) matches Flow::Going(s2, _) ==> s2.wf() && eaten_within_block(s2) && takes_input(s2),
{
    lemma_decoder_step_within_block(s, byte);
}

/// A decoder whose bytes eaten are below the block size, and that takes input, decodes any bytes
/// without panicking: data that no encoder writes gives an error.
pub proof fn lemma_decoder_never_panics(s: DecoderState, input: Seq<u8>)
    requires
        s.wf(),
        eaten_within_block(s),
        takes_input(s),
    ensures
        !(s.run(input) is Panics),
        s.run(input) matches Flow::Going(s2, _) ==> s2.wf() && eaten_within_block(s2) && takes_input(s2),
{
    let inv = |a: DecoderState| a.wf() && eaten_within_block(a) && takes_input(a);
    assert forall|a: DecoderState, x: u8| #![trigger decoder_step()(a, x)] inv(a) implies match decoder_step()(a, x) {
        Flow::Going(b, _) => inv(b),
        Flow::Stopped(_, _, _) => true,
        Flow::Panics => false,
    } by {
        lemma_decoder_step_no_panic(a, x);
    }
    lemma_run_flow_inv_no_panic(decoder_step(), inv, s, input);
}

/// ## The decoder is for your use
#[derive(Clone, Copy)]
pub enum Decoder {
    Mono(DecoderCore),
    Stereo(StereoDecoder),
}

impl View for Decoder {
    type V = DecoderState;

    closed spec fn view(&self) -> DecoderState {
        match self {
            Decoder::Mono(c) => DecoderState::Mono(c@),
            Decoder::Stereo(st) => DecoderState::Stereo(st@),
        }
    }
}

impl Decoder {
    /// * Mono and stereo are supported; other channel counts are refused.
    pub fn new(fmt_chunk: FmtChunk) -> (r: Result<Self, AdpcmError>)
        ensures
            fmt_chunk.channels == 1 ==> (r matches Ok(d) && d@ == DecoderState::Mono(DecoderCore::new_spec(fmt_chunk))),
            fmt_chunk.channels == 2 ==> (r matches Ok(d) && d@ == DecoderState::Stereo(StereoDecoder::new_spec(fmt_chunk))),
            fmt_chunk.channels != 1 && fmt_chunk.channels != 2 ==> r == Err::<Self, AdpcmError>(AdpcmError::WrongChannels(fmt_chunk.channels)),
            r matches Ok(d) ==> d@.wf(),
            fmt_chunk.block_align > HEADER_SIZE * fmt_chunk.channels ==> (r matches Ok(d) ==> eaten_within_block(d@)),
            r matches Ok(d) ==> takes_input(d@),
    {
        match fmt_chunk.channels {
            1 => Ok(Self::Mono(DecoderCore::new(fmt_chunk))),
            2 => Ok(Self::Stereo(StereoDecoder::new(fmt_chunk))),
            other => Err(AdpcmError::WrongChannels(other)),
        }
    }

    /// * Check if breakfast was eaten, and ready to decode.
    pub fn is_ready(&self) -> (r: bool)
        ensures
            r == self@.is_ready(),
    {
        match self {
            Self::Mono(mono) => mono.is_ready(),
            Self::Stereo(stereo) => stereo.is_ready(),
        }
    }

    /// * Puke the breakfast, and reset to the initial state.
    pub fn unready(&mut self)
        ensures
            final(self)@ == old(self)@.unready(),
    {
        match *self {
            Self::Mono(mono0) => {
                let mut mono = mono0;
                mono.unready();
                *self = Self::Mono(mono);
            },
            Self::Stereo(stereo0) => {
                let mut stereo = stereo0;
                stereo.unready();
                *self = Self::Stereo(stereo);
            },
        }
    }

    /// * How many bytes were eaten, should not exceed the block size in the `fmt ` chunk.
    pub fn get_bytes_eaten(&self) -> (r: usize)
        ensures
            r == self@.bytes_eaten(),
    {
        match self {
            Self::Mono(mono) => mono.get_bytes_eaten(),
            Self::Stereo(stereo) => stereo.get_bytes_eaten(),
        }
    }

    /// * The block size in the `fmt ` chunk.
    pub fn get_max_bytes_can_eat(&self) -> (r: usize)
        ensures
            r == self@.max_bytes_can_eat(),
    {
        match self {
            Self::Mono(mono) => mono.get_max_bytes_can_eat(),
            Self::Stereo(stereo) => stereo.get_max_bytes_can_eat(),
        }
    }

    /// * Get the number of the channels
    pub fn get_channels(&self) -> (r: usize)
        ensures
            r == self@.channels(),
    {
        match self {
            Self::Mono(_) => 1,
            Self::Stereo(_) => 2,
        }
    }

    /// Decodes one byte and appends the samples it gives.
    fn decode_one(&mut self, byte: u8, output: &mut Vec<i16>) -> (r: Result<(), AdpcmError>)
        requires
            old(self)@.wf(),
            !(old(self)@.step(byte) is Panics),
        ensures
            old(self)@.step(byte) matches Flow::Going(s, o) ==> r is Ok && final(self)@ == s
                && final(output)@ == old(output)@ + o,
            old(self)@.step(byte) matches Flow::Stopped(s, o, e) ==> r == Err::<(), AdpcmError>(e)
                && final(self)@ == s && final(output)@ == old(output)@ + o,
    {
        match *self {
            Self::Mono(mono0) => {
                let mut mono = mono0;
                let r = mono.decode_one(byte, output);
                *self = Self::Mono(mono);
                r
            },
            Self::Stereo(stereo0) => {
                let mut stereo = stereo0;
                let r = stereo.decode_one(byte, output);
                *self = Self::Stereo(stereo);
                r
            },
        }
    }
}

impl AdpcmDecoder for Decoder {
    open spec fn decoder_wf(state: DecoderState) -> bool {
        state.wf()
    }

    open spec fn decode_spec(state: DecoderState, input: Seq<u8>) -> Flow<DecoderState, i16> {
        state.run(input)
    }

    proof fn lemma_decode_append(state: DecoderState, a: Seq<u8>, b: Seq<u8>) {
        lemma_run_flow_append(decoder_step(), state, a, b);
    }

    open spec fn can_flush(state: DecoderState) -> bool {
        true
    }

    open spec fn flush_spec(state: DecoderState) -> Flow<DecoderState, i16> {
        state.flush_flow()
    }

    open spec fn block_size_spec(state: DecoderState) -> int {
        (state.max_bytes_can_eat() / state.channels()) as int
    }

    open spec fn frames_per_block_spec(state: DecoderState) -> Option<int> {
        let block_size = Self::block_size_spec(state);
        if block_size >= HEADER_SIZE {
            Some((block_size - HEADER_SIZE) * 2)
        } else {
            None
        }
    }

    open spec fn reset_spec(state: DecoderState) -> DecoderState {
        state.unready()
    }

    open spec fn new_spec(fmt_chunk: FmtChunk) -> Result<DecoderState, AdpcmError> {
        match fmt_chunk.channels {
            1 => Ok(DecoderState::Mono(DecoderCore::new_spec(fmt_chunk))),
            2 => Ok(DecoderState::Stereo(StereoDecoder::new_spec(fmt_chunk))),
            other => Err(AdpcmError::WrongChannels(other)),
        }
    }

    fn new(fmt_chunk: FmtChunk) -> (r: Result<Self, AdpcmError>)
        ensures
            fmt_chunk.channels == 1 ==> (r matches Ok(d) && d@ == DecoderState::Mono(DecoderCore::new_spec(fmt_chunk))),
            fmt_chunk.channels == 2 ==> (r matches Ok(d) && d@ == DecoderState::Stereo(StereoDecoder::new_spec(fmt_chunk))),
            fmt_chunk.channels != 1 && fmt_chunk.channels != 2 ==> r == Err::<Self, AdpcmError>(AdpcmError::WrongChannels(fmt_chunk.channels)),
    {
        Decoder::new(fmt_chunk)
    }

    fn get_block_size(&self) -> (r: usize) {
        self.get_max_bytes_can_eat() / self.get_channels()
    }

    /// Each byte stores two 4-bit samples (packed as high/low nibbles).
    /// Effective decodable bytes per block: BLOCK_SIZE - HEADER_SIZE.
    /// Mono: Block size = BLOCK_SIZE.
    /// Stereo: Block size doubles (2×BLOCK_SIZE), but two samples (L+R) form one audio frame.
    /// Thus, total samples = (BLOCK_SIZE - HEADER_SIZE) × 2 samples (1 frame per stereo pair).
    fn frames_per_block(&self) -> (r: usize) {
        (self.get_block_size() - HEADER_SIZE) * 2
    }

    fn reset_states(&mut self) {
        self.unready()
    }

    #[verifier::spinoff_prover]
    #[verifier::rlimit(40)]
    /// * Decoding from a decoder whose bytes eaten are below the block size keeps them below it.
    fn decode(&mut self, input: &[u8], output: &mut Vec<i16>) -> (r: Result<(), AdpcmError>)
        ensures
            eaten_within_block(old(self)@) ==> eaten_within_block(final(self)@),
            eaten_within_block(old(self)@) && takes_input(old(self)@) && r is Ok ==> takes_input(final(self)@),
    {
        let ghost s0 = self@;
        let ghost out0 = output@;
        let mut i: usize = 0;
        proof {
            if eaten_within_block(s0) {
                lemma_bytes_eaten_below_block_size(s0, input@);
                if takes_input(s0) {
                    lemma_decoder_never_panics(s0, input@);
                }
            }
            assert(input@.take(0) =~= Seq::<u8>::empty());
            assert(output@ =~= out0 + Seq::<i16>::empty());
        }
        while i < input.len()
            invariant
                s0 == old(self)@,
                out0 == old(output)@,
                s0.wf(),
                self@.wf(),
                i <= input@.len(),
                !(s0.run(input@) is Panics),
                eaten_within_block(s0) ==> ends_within_block(s0.run(input@)),
                eaten_within_block(s0) && takes_input(s0) ==> (s0.run(input@) matches Flow::Going(s2, _) ==> takes_input(s2)),
                s0.run(input@.take(i as int)) matches Flow::Going(s, o) && self@ == s && output@ == out0 + o,
            decreases input@.len() - i,
        {
            let ghost o1 = output@.skip(out0.len() as int);
            proof {
                assert(output@.skip(out0.len() as int) =~= s0.run(input@.take(i as int))->Going_1);
                lemma_run_flow_next(decoder_step(), s0, input@, i as int);
                lemma_run_flow_prefix(decoder_step(), s0, input@, i + 1);
                lemma_decoder_step_wf(self@, input@[i as int]);
            }
            let res = self.decode_one(input[i], output);
            match res {
                Err(e) => {
                    proof {
                        let o2 = self@;
                        assert(s0.run(input@.take(i + 1)) is Stopped);
                        assert(output@ =~= out0 + s0.run(input@.take(i + 1))->Stopped_1);
                    }
                    return Err(e);
                },
                Ok(()) => {},
            }
            i += 1;
            proof {
                assert(output@ =~= out0 + s0.run(input@.take(i as int))->Going_1);
            }
        }
        assert(input@.take(i as int) =~= input@);
        Ok(())
    }

    fn flush(&mut self, output: &mut Vec<i16>) -> (r: Result<(), AdpcmError>)
        ensures
            eaten_within_block(old(self)@) ==> eaten_within_block(final(self)@),
    {
        let eaten = self.get_bytes_eaten();
        let max = self.get_max_bytes_can_eat();
        if eaten > 0 && eaten < max {
            let n = max - eaten;
            let mut food: Vec<u8> = Vec::new();
            let mut k: usize = 0;
            while k < n
                invariant
                    k <= n,
                    food@ == zero_bytes(k as int),
                decreases n - k,
            {
                food.push(0);
                k += 1;
                assert(food@ =~= zero_bytes(k as int));
            }
            return self.decode(&food, output);
        }
        assert(output@ =~= old(output)@ + Seq::<i16>::empty());
        Ok(())
    }
}


/// Encoding `a + b` is encoding `a`, then `b` from where that ended.
#[verifier::spinoff_prover]
#[verifier::rlimit(60)]
proof fn lemma_encoder_run_append(e: EncoderState, a: Seq<i16>, b: Seq<i16>)
    ensures
        e.run(a + b) == (e.run(a).0.run(b).0, e.run(a).1 + e.run(a).0.run(b).1),
    decreases b.len(),
{
    if b.len() == 0 {
        assert(a + b =~= a);
        assert(e.run(a).1 + Seq::<u8>::empty() =~= e.run(a).1);
    } else {
        lemma_encoder_run_append(e, a, b.drop_last());
        assert((a + b).drop_last() =~= a + b.drop_last());
        assert((a + b).last() == b.last());
        let m = e.run(a).0;
        let o3 = m.run(b.drop_last()).1;
        let o4 = m.run(b.drop_last()).0.step(b.last()).1;
        assert((e.run(a).1 + o3) + o4 =~= e.run(a).1 + (o3 + o4));
    }
}

} // verus!
