use vstd::prelude::*;
use super::{
    clamp, clamp_i32, lemma_nibbles, lemma_pack_nibbles, lemma_run_flow_append, lemma_run_flow_never_panics, lemma_run_flow_next, lemma_run_flow_prefix,
    lemma_run_flow_single, run_flow, tdiv,
    AdpcmDecoder, AdpcmEncoder, AdpcmError, Flow,
};
use crate::copiablebuf::CopiableBuffer;
use crate::wavcore::FmtChunk;

verus! {

/// The block size that ADPCM-YAMAHA writes in the `fmt ` chunk.
pub const BLOCK_SIZE: usize = 1024;

/// How the step scales after each nibble, in 1/256 units.
pub const YAMAHA_INDEXSCALE: [i16; 16] = [230, 230, 230, 230, 307, 409, 512, 614, 230, 230, 230, 230, 307, 409, 512, 614];

/// The difference each nibble stands for, in eighths of the step.
pub const YAMAHA_DIFFLOOKUP: [i8; 16] = [1, 3, 5, 7, 9, 11, 13, 15, -1, -3, -5, -7, -9, -11, -13, -15];

/// The scale factor of a nibble.
pub open spec fn index_scale(nibble: int) -> int {
    YAMAHA_INDEXSCALE@[nibble] as int
}

/// The difference of a nibble, in eighths of the step.
pub open spec fn diff_lookup(nibble: int) -> int {
    YAMAHA_DIFFLOOKUP@[nibble] as int
}

/// The change of the predictor for a nibble: the step times the nibble's difference, divided
/// by 8 toward zero and clamped to the `i16` range.
pub open spec fn predictor_change(step: int, nibble: int) -> int {
    clamp(tdiv(step * diff_lookup(nibble), 8), -32768, 32767)
}

/// The next step: scaled by the table and kept within `127..=24576`.
pub open spec fn next_step(step: int, nibble: int) -> int {
    clamp(step * index_scale(nibble) / 256, 127, 24576)
}

/// The nibble the encoder chooses: four times the distance to the predictor over the step,
/// at most 7, with bit 3 set where the sample is below the predictor.
pub open spec fn choose_nibble(predictor: int, step: int, sample: int) -> int {
    let delta = sample - predictor;
    let a = if delta < 0 { -delta } else { delta };
    let q = a * 4 / step;
    (if q < 7 { q } else { 7 }) + if delta < 0 { 8int } else { 0int }
}

/// The byte holding two nibbles, the first in the low half.
pub open spec fn pack(low: u8, high: u8) -> u8 {
    (low + high * 16) as u8
}

/// The state of an ADPCM-YAMAHA codec core, as plain values.
pub struct CoreState {
    pub predictor: i32,
    pub step: i32,
}

impl CoreState {
    /// The state of a new core.
    pub open spec fn initial() -> CoreState {
        CoreState { predictor: 0, step: 127 }
    }

    /// The step stays within its bounds.
    pub open spec fn wf(self) -> bool {
        127 <= self.step <= 24576
    }

    /// An encoder's predictor follows the samples, so it stays within these bounds.
    pub open spec fn encoder_wf(self) -> bool {
        &&& self.wf()
        &&& -65536 <= self.predictor <= 65534
    }

    /// Whether the predictor can take the change of `nibble` in 32 bits.
    pub open spec fn can_apply(self, nibble: int) -> bool {
        i32::MIN <= self.predictor + predictor_change(self.step as int, nibble) <= i32::MAX
    }

    /// The state after a nibble.
    pub open spec fn apply(self, nibble: int) -> CoreState {
        CoreState {
            predictor: (self.predictor + predictor_change(self.step as int, nibble)) as i32,
            step: next_step(self.step as int, nibble) as i32,
        }
    }

    /// The nibble chosen for `sample`, and the state after it.
    pub open spec fn compress(self, sample: i16) -> (CoreState, u8) {
        let n = choose_nibble(self.predictor as int, self.step as int, sample as int);
        (self.apply(n), n as u8)
    }

    /// The sample a core gives: its predictor, truncated to 16 bits.
    pub open spec fn sample(self) -> i16 {
        self.predictor as i16
    }
}

proof fn lemma_tables(n: int)
    requires
        0 <= n < 16,
    ensures
        230 <= index_scale(n) <= 614,
        n < 8 ==> 1 <= diff_lookup(n) <= 15,
        n >= 8 ==> -15 <= diff_lookup(n) <= -1,
{
    assert(YAMAHA_INDEXSCALE@.len() == 16);
    assert(YAMAHA_DIFFLOOKUP@.len() == 16);
}

/// The change for a nibble below 8 raises the predictor, for one of 8 or above lowers it, and
/// the step stays within its bounds.
proof fn lemma_apply_bounds(c: CoreState, n: int)
    requires
        c.wf(),
        0 <= n < 16,
    ensures
        n < 8 ==> 15 <= predictor_change(c.step as int, n) <= 32767,
        n >= 8 ==> -32768 <= predictor_change(c.step as int, n) <= -15,
        c.apply(n).wf(),
        0 <= c.step * index_scale(n) <= 15089664,
        -368640 <= c.step * diff_lookup(n) <= 368640,
{
    lemma_tables(n);
    let p = c.step * diff_lookup(n);
    assert(-368640 <= p <= 368640) by (nonlinear_arith)
        requires 127 <= c.step <= 24576, -15 <= diff_lookup(n) <= 15, p == c.step * diff_lookup(n);
    assert(0 <= c.step * index_scale(n) <= 15089664) by (nonlinear_arith)
        requires 127 <= c.step <= 24576, 230 <= index_scale(n) <= 614;
    if n < 8 {
        assert(p >= 127) by (nonlinear_arith)
            requires 127 <= c.step, 1 <= diff_lookup(n), p == c.step * diff_lookup(n);
    } else {
        assert(p <= -127) by (nonlinear_arith)
            requires 127 <= c.step, diff_lookup(n) <= -1, p == c.step * diff_lookup(n);
    }
}

/// The encoder's predictor stays within its bounds whatever the sample.
proof fn lemma_compress_wf(c: CoreState, sample: i16)
    requires
        c.encoder_wf(),
    ensures
        c.compress(sample).0.encoder_wf(),
        c.compress(sample).1 < 16,
        c.can_apply(choose_nibble(c.predictor as int, c.step as int, sample as int)),
{
    let delta = sample - c.predictor;
    let a = if delta < 0 { -delta } else { delta };
    let q = a * 4 / (c.step as int);
    assert(q >= 0) by (nonlinear_arith)
        requires a >= 0, c.step > 0, q == a * 4 / (c.step as int);
    let n = choose_nibble(c.predictor as int, c.step as int, sample as int);
    assert(0 <= n < 16);
    lemma_apply_bounds(c, n);
}

/// ADPCM-YAMAHA codec core: the predictor and the step.
#[derive(Clone, Copy)]
struct YamahaCodecCore {
    predictor: i32,
    step: i32,
}

impl View for YamahaCodecCore {
    type V = CoreState;

    closed spec fn view(&self) -> CoreState {
        CoreState { predictor: self.predictor, step: self.step }
    }
}

impl YamahaCodecCore {
    pub fn new() -> (r: Self)
        ensures
            r@ == CoreState::initial(),
    {
        Self { predictor: 0, step: 127 }
    }

    /// Moves the predictor and the step by a nibble.
    fn apply_nibble(&mut self, nibble: u8)
        requires
            old(self)@.wf(),
            nibble < 16,
            old(self)@.can_apply(nibble as int),
        ensures
            final(self)@ == old(self)@.apply(nibble as int),
            final(self)@.wf(),
    {
        proof { lemma_apply_bounds(self@, nibble as int); }
        let d = self.step * YAMAHA_DIFFLOOKUP[nibble as usize] as i32;
        self.predictor += clamp_i32(d / 8, -32768, 32767);
        let prod = self.step * YAMAHA_INDEXSCALE[nibble as usize] as i32;
        assert(prod >> 8 == prod / 256) by (bit_vector) requires 0 <= prod <= 15089664;
        self.step = clamp_i32(prod >> 8, 127, 24576);
    }

    /// Whether the predictor can take the change of `nibble` in 32 bits.
    fn can_apply_nibble(&self, nibble: u8) -> (r: bool)
        requires
            self@.wf(),
            nibble < 16,
        ensures
            r == self@.can_apply(nibble as int),
    {
        proof { lemma_apply_bounds(self@, nibble as int); }
        let d = self.step * YAMAHA_DIFFLOOKUP[nibble as usize] as i32;
        let change = clamp_i32(d / 8, -32768, 32767);
        let p = self.predictor as i64 + change as i64;
        p >= i32::MIN as i64 && p <= i32::MAX as i64
    }

    /// * Compress one sample to a nibble
    pub fn compress_sample(&mut self, sample: i16) -> (r: u8)
        requires
            old(self)@.encoder_wf(),
        ensures
            (final(self)@, r) == old(self)@.compress(sample),
            final(self)@.encoder_wf(),
            r < 16,
    {
        proof { lemma_compress_wf(self@, sample); }
        let delta = sample as i32 - self.predictor;
        let a = if delta < 0 { -delta } else { delta };
        let q = a * 4 / self.step;
        let m = if q < 7 { q } else { 7 };
        let nibble = m + if delta < 0 { 8 } else { 0 };
        self.apply_nibble(nibble as u8);
        nibble as u8
    }

    /// * Uncompress a nibble to a sample
    pub fn expand_nibble(&mut self, nibble: u8) -> (r: i16)
        requires
            old(self)@.wf(),
            nibble < 16,
            old(self)@.can_apply(nibble as int),
        ensures
            final(self)@ == old(self)@.apply(nibble as int),
            r == final(self)@.sample(),
            final(self)@.wf(),
    {
        self.apply_nibble(nibble);
        self.predictor as i16
    }

    /// * Compress two samples, combine two encoded nibbles to a bytes
    pub fn encode_sample(&mut self, samples: &[i16; 2]) -> (r: u8)
        requires
            old(self)@.encoder_wf(),
        ensures
            final(self)@ == old(self)@.compress(samples@[0]).0.compress(samples@[1]).0,
            r == pack(old(self)@.compress(samples@[0]).1, old(self)@.compress(samples@[0]).0.compress(samples@[1]).1),
            final(self)@.encoder_wf(),
    {
        let l = self.compress_sample(samples[0]);
        let h = self.compress_sample(samples[1]);
        proof { lemma_pack_nibbles(l, h); }
        l | (h << 4u8)
    }

    /// * Decode a byte as two nibbles, and return two samples.
    pub fn decode_sample(&mut self, nibble: u8) -> (r: [i16; 2])
        requires
            old(self)@.wf(),
            old(self)@.can_apply((nibble % 16) as int),
            old(self)@.apply((nibble % 16) as int).can_apply((nibble / 16) as int),
        ensures
            final(self)@ == old(self)@.apply((nibble % 16) as int).apply((nibble / 16) as int),
            r@ == seq![old(self)@.apply((nibble % 16) as int).sample(), final(self)@.sample()],
            final(self)@.wf(),
    {
        proof { lemma_nibbles(nibble); }
        let a = self.expand_nibble(nibble & 0x0F);
        let b = self.expand_nibble(nibble >> 4);
        let r = [a, b];
        assert(r@ =~= seq![a, b]);
        r
    }
}

/// The state of a mono ADPCM-YAMAHA encoder, as plain values.
pub struct EncoderMonoState {
    pub core: CoreState,
    /// The sample waiting for its partner.
    pub buffer: Seq<i16>,
}

impl EncoderMonoState {
    pub open spec fn wf(self) -> bool {
        self.core.encoder_wf() && self.buffer.len() < 2
    }

    /// Takes one sample; every two samples become a byte, the first in the low nibble.
    pub open spec fn step(self, sample: i16) -> (EncoderMonoState, Seq<u8>) {
        let buf = self.buffer.push(sample);
        if buf.len() == 2 {
            let (c1, l) = self.core.compress(buf[0]);
            let (c2, h) = c1.compress(buf[1]);
            (EncoderMonoState { core: c2, buffer: Seq::empty() }, seq![pack(l, h)])
        } else {
            (EncoderMonoState { buffer: buf, ..self }, Seq::empty())
        }
    }

    /// Encodes the samples in order.
    pub open spec fn run(self, input: Seq<i16>) -> (EncoderMonoState, Seq<u8>)
        decreases input.len(),
    {
        if input.len() == 0 {
            (self, Seq::empty())
        } else {
            let (s1, o1) = self.run(input.drop_last());
            let (s2, o2) = s1.step(input.last());
            (s2, o1 + o2)
        }
    }

    /// A waiting sample is encoded with a zero after it.
    pub open spec fn flush(self) -> (EncoderMonoState, Seq<u8>) {
        if self.buffer.len() == 0 {
            (self, Seq::empty())
        } else {
            self.step(0)
        }
    }
}

/// The state of a stereo ADPCM-YAMAHA encoder, as plain values.
pub struct EncoderStereoState {
    pub core_l: CoreState,
    pub core_r: CoreState,
    /// The left sample waiting for its right partner.
    pub buffer: Seq<i16>,
}

impl EncoderStereoState {
    pub open spec fn wf(self) -> bool {
        self.core_l.encoder_wf() && self.core_r.encoder_wf() && self.buffer.len() < 2
    }

    /// Takes one sample; every left and right pair become a byte, left in the low nibble.
    pub open spec fn step(self, sample: i16) -> (EncoderStereoState, Seq<u8>) {
        let buf = self.buffer.push(sample);
        if buf.len() == 2 {
            let (l2, l) = self.core_l.compress(buf[0]);
            let (r2, h) = self.core_r.compress(buf[1]);
            (EncoderStereoState { core_l: l2, core_r: r2, buffer: Seq::empty() }, seq![pack(l, h)])
        } else {
            (EncoderStereoState { buffer: buf, ..self }, Seq::empty())
        }
    }

    /// Encodes the samples in order.
    pub open spec fn run(self, input: Seq<i16>) -> (EncoderStereoState, Seq<u8>)
        decreases input.len(),
    {
        if input.len() == 0 {
            (self, Seq::empty())
        } else {
            let (s1, o1) = self.run(input.drop_last());
            let (s2, o2) = s1.step(input.last());
            (s2, o1 + o2)
        }
    }

    /// A waiting left sample is encoded with a zero right sample.
    pub open spec fn flush(self) -> (EncoderStereoState, Seq<u8>) {
        if self.buffer.len() == 0 {
            (self, Seq::empty())
        } else {
            self.step(0)
        }
    }
}

proof fn lemma_mono_step_wf(s: EncoderMonoState, x: i16)
    requires
        s.wf(),
    ensures
        s.step(x).0.wf(),
{
    let buf = s.buffer.push(x);
    if buf.len() == 2 {
        lemma_compress_wf(s.core, buf[0]);
        lemma_compress_wf(s.core.compress(buf[0]).0, buf[1]);
    }
}

proof fn lemma_mono_run_wf(s: EncoderMonoState, input: Seq<i16>)
    requires
        s.wf(),
    ensures
        s.run(input).0.wf(),
    decreases input.len(),
{
    if input.len() > 0 {
        lemma_mono_run_wf(s, input.drop_last());
        lemma_mono_step_wf(s.run(input.drop_last()).0, input.last());
    }
}

proof fn lemma_stereo_step_wf(s: EncoderStereoState, x: i16)
    requires
        s.wf(),
    ensures
        s.step(x).0.wf(),
{
    let buf = s.buffer.push(x);
    if buf.len() == 2 {
        lemma_compress_wf(s.core_l, buf[0]);
        lemma_compress_wf(s.core_r, buf[1]);
    }
}

proof fn lemma_stereo_run_wf(s: EncoderStereoState, input: Seq<i16>)
    requires
        s.wf(),
    ensures
        s.run(input).0.wf(),
    decreases input.len(),
{
    if input.len() > 0 {
        lemma_stereo_run_wf(s, input.drop_last());
        lemma_stereo_step_wf(s.run(input.drop_last()).0, input.last());
    }
}

/// ## The mono-channel encoder
#[derive(Clone, Copy)]
pub struct EncoderMono {
    core: YamahaCodecCore,
    buffer: CopiableBuffer<i16, 2>,
}

impl View for EncoderMono {
    type V = EncoderMonoState;

    closed spec fn view(&self) -> EncoderMonoState {
        EncoderMonoState { core: self.core@, buffer: self.buffer@ }
    }
}

impl EncoderMono {
    pub fn new() -> (r: Self)
        ensures
            r@ == (EncoderMonoState { core: CoreState::initial(), buffer: Seq::empty() }),
            r@.wf(),
    {
        Self { core: YamahaCodecCore::new(), buffer: CopiableBuffer::new() }
    }

    /// * Encode two samples, combine two encoded nibbles to a bytes
    pub fn encode_sample(&mut self, samples: &[i16; 2]) -> (r: u8)
        requires
            old(self)@.core.encoder_wf(),
        ensures
            final(self)@ == (EncoderMonoState {
                core: old(self)@.core.compress(samples@[0]).0.compress(samples@[1]).0,
                ..old(self)@
            }),
            r == pack(old(self)@.core.compress(samples@[0]).1, old(self)@.core.compress(samples@[0]).0.compress(samples@[1]).1),
            final(self)@.core.encoder_wf(),
    {
        self.core.encode_sample(samples)
    }

    fn encode_one(&mut self, sample: i16, output: &mut Vec<u8>)
        requires
            old(self)@.wf(),
        ensures
            final(self)@ == old(self)@.step(sample).0,
            final(output)@ == old(output)@ + old(self)@.step(sample).1,
            final(self)@.wf(),
    {
        proof { lemma_mono_step_wf(self@, sample); }
        let ghost out0 = output@;
        self.buffer.push(sample);
        if self.buffer.is_full() {
            let pair = [self.buffer.get(0), self.buffer.get(1)];
            let byte = self.encode_sample(&pair);
            output.push(byte);
            self.buffer.clear();
        }
        assert(output@ =~= out0 + old(self)@.step(sample).1);
    }

    /// * Encodes the samples of `input` and appends the bytes to `output`; every two samples make a byte.
    /// * To continue encoding, call it again and feed it data.
    pub fn encode(&mut self, input: &[i16], output: &mut Vec<u8>)
        requires
            old(self)@.wf(),
        ensures
            final(self)@ == old(self)@.run(input@).0,
            final(output)@ == old(output)@ + old(self)@.run(input@).1,
            final(self)@.wf(),
    {
        let ghost s0 = self@;
        let ghost out0 = output@;
        let mut i: usize = 0;
        assert(input@.take(0) =~= Seq::<i16>::empty());
        assert(output@ =~= out0 + Seq::<u8>::empty());
        while i < input.len()
            invariant
                s0.wf(),
                i <= input@.len(),
                self@ == s0.run(input@.take(i as int)).0,
                output@ == out0 + s0.run(input@.take(i as int)).1,
                self@.wf(),
            decreases input@.len() - i,
        {
            proof {
                assert(input@.take(i + 1).drop_last() =~= input@.take(i as int));
            }
            self.encode_one(input[i], output);
            i += 1;
            assert(output@ =~= out0 + s0.run(input@.take(i as int)).1);
        }
        assert(input@.take(i as int) =~= input@);
    }

    /// * Excrete the last data: a waiting sample is encoded with a zero after it.
    pub fn flush(&mut self, output: &mut Vec<u8>)
        requires
            old(self)@.wf(),
        ensures
            final(self)@ == old(self)@.flush().0,
            final(output)@ == old(output)@ + old(self)@.flush().1,
            final(self)@.wf(),
    {
        if self.buffer.is_empty() {
            assert(output@ =~= old(output)@ + Seq::<u8>::empty());
            return;
        }
        self.encode_one(0, output);
    }
}

/// ## The stereo-channel encoder
#[derive(Clone, Copy)]
pub struct EncoderStereo {
    core_l: YamahaCodecCore,
    core_r: YamahaCodecCore,
    buffer: CopiableBuffer<i16, 2>,
}

impl View for EncoderStereo {
    type V = EncoderStereoState;

    closed spec fn view(&self) -> EncoderStereoState {
        EncoderStereoState { core_l: self.core_l@, core_r: self.core_r@, buffer: self.buffer@ }
    }
}

impl EncoderStereo {
    pub fn new() -> (r: Self)
        ensures
            r@ == (EncoderStereoState { core_l: CoreState::initial(), core_r: CoreState::initial(), buffer: Seq::empty() }),
            r@.wf(),
    {
        Self { core_l: YamahaCodecCore::new(), core_r: YamahaCodecCore::new(), buffer: CopiableBuffer::new() }
    }

    /// * The function distributes two samples to each encoder core and returns a byte containing two nibbles for each channel.
    pub fn encode_sample(&mut self, samples: &[i16; 2]) -> (r: u8)
        requires
            old(self)@.core_l.encoder_wf(),
            old(self)@.core_r.encoder_wf(),
        ensures
            final(self)@ == (EncoderStereoState {
                core_l: old(self)@.core_l.compress(samples@[0]).0,
                core_r: old(self)@.core_r.compress(samples@[1]).0,
                ..old(self)@
            }),
            r == pack(old(self)@.core_l.compress(samples@[0]).1, old(self)@.core_r.compress(samples@[1]).1),
            final(self)@.core_l.encoder_wf(),
            final(self)@.core_r.encoder_wf(),
    {
        let l = self.core_l.compress_sample(samples[0]);
        let h = self.core_r.compress_sample(samples[1]);
        proof { lemma_pack_nibbles(l, h); }
        l | (h << 4u8)
    }

    fn encode_one(&mut self, sample: i16, output: &mut Vec<u8>)
        requires
            old(self)@.wf(),
        ensures
            final(self)@ == old(self)@.step(sample).0,
            final(output)@ == old(output)@ + old(self)@.step(sample).1,
            final(self)@.wf(),
    {
        proof { lemma_stereo_step_wf(self@, sample); }
        let ghost out0 = output@;
        self.buffer.push(sample);
        if self.buffer.is_full() {
            let pair = [self.buffer.get(0), self.buffer.get(1)];
            let byte = self.encode_sample(&pair);
            output.push(byte);
            self.buffer.clear();
        }
        assert(output@ =~= out0 + old(self)@.step(sample).1);
    }

    /// * Encodes the interleaved samples of `input` and appends the bytes to `output`.
    /// * To continue encoding, call it again and feed it data.
    pub fn encode(&mut self, input: &[i16], output: &mut Vec<u8>)
        requires
            old(self)@.wf(),
        ensures
            final(self)@ == old(self)@.run(input@).0,
            final(output)@ == old(output)@ + old(self)@.run(input@).1,
            final(self)@.wf(),
    {
        let ghost s0 = self@;
        let ghost out0 = output@;
        let mut i: usize = 0;
        assert(input@.take(0) =~= Seq::<i16>::empty());
        assert(output@ =~= out0 + Seq::<u8>::empty());
        while i < input.len()
            invariant
                s0.wf(),
                i <= input@.len(),
                self@ == s0.run(input@.take(i as int)).0,
                output@ == out0 + s0.run(input@.take(i as int)).1,
                self@.wf(),
            decreases input@.len() - i,
        {
            proof {
                assert(input@.take(i + 1).drop_last() =~= input@.take(i as int));
            }
            self.encode_one(input[i], output);
            i += 1;
            assert(output@ =~= out0 + s0.run(input@.take(i as int)).1);
        }
        assert(input@.take(i as int) =~= input@);
    }

    /// * Excrete the last data: a waiting left sample is encoded with a zero right sample.
    pub fn flush(&mut self, output: &mut Vec<u8>)
        requires
            old(self)@.wf(),
        ensures
            final(self)@ == old(self)@.flush().0,
            final(output)@ == old(output)@ + old(self)@.flush().1,
            final(self)@.wf(),
    {
        if self.buffer.is_empty() {
            assert(output@ =~= old(output)@ + Seq::<u8>::empty());
            return;
        }
        self.encode_one(0, output);
    }
}

/// The state of an ADPCM-YAMAHA encoder, as plain values.
pub enum EncoderState {
    Mono(EncoderMonoState),
    Stereo(EncoderStereoState),
}

impl EncoderState {
    pub open spec fn wf(self) -> bool {
        match self {
            EncoderState::Mono(m) => m.wf(),
            EncoderState::Stereo(st) => st.wf(),
        }
    }

    /// Encodes the samples in order with the encoder of its channel count.
    pub open spec fn run(self, input: Seq<i16>) -> (EncoderState, Seq<u8>) {
        match self {
            EncoderState::Mono(m) => {
                let (m2, o) = m.run(input);
                (EncoderState::Mono(m2), o)
            },
            EncoderState::Stereo(st) => {
                let (st2, o) = st.run(input);
                (EncoderState::Stereo(st2), o)
            },
        }
    }

    /// Encodes a waiting sample, padded with zero.
    pub open spec fn flush(self) -> (EncoderState, Seq<u8>) {
        match self {
            EncoderState::Mono(m) => {
                let (m2, o) = m.flush();
                (EncoderState::Mono(m2), o)
            },
            EncoderState::Stereo(st) => {
                let (st2, o) = st.flush();
                (EncoderState::Stereo(st2), o)
            },
        }
    }
}

/// ## The ADPCM-YAMAHA encoder, mono or stereo
#[derive(Clone, Copy)]
pub enum Encoder {
    Mono(EncoderMono),
    Stereo(EncoderStereo),
}

impl View for Encoder {
    type V = EncoderState;

    closed spec fn view(&self) -> EncoderState {
        match self {
            Encoder::Mono(m) => EncoderState::Mono(m@),
            Encoder::Stereo(st) => EncoderState::Stereo(st@),
        }
    }
}

/// The `fmt ` chunk that the ADPCM-YAMAHA encoder writes: format tag 0x20, blocks of 1024 bytes,
/// 4 bits per sample and no extension.
pub open spec fn new_fmt_spec(channels: u16, sample_rate: u32) -> FmtChunk {
    FmtChunk {
        format_tag: 0x0020,
        channels,
        sample_rate,
        byte_rate: (sample_rate * 4 * channels / 8) as u32,
        block_align: BLOCK_SIZE as u16,
        bits_per_sample: 4,
        extension: None,
    }
}

impl AdpcmEncoder for Encoder {
    open spec fn encoder_wf(state: EncoderState) -> bool {
        state.wf()
    }

    open spec fn encode_spec(state: EncoderState, input: Seq<i16>) -> (EncoderState, Seq<u8>) {
        state.run(input)
    }

    proof fn lemma_encode_append(state: EncoderState, a: Seq<i16>, b: Seq<i16>) {
        match state {
            EncoderState::Mono(m) => lemma_mono_encoder_run_append(m, a, b),
            EncoderState::Stereo(st) => lemma_stereo_encoder_run_append(st, a, b),
        }
    }

    open spec fn can_flush(state: EncoderState) -> bool {
        true
    }

    open spec fn flush_spec(state: EncoderState) -> (EncoderState, Seq<u8>) {
        state.flush()
    }

    open spec fn fmt_args_ok(channels: u16, sample_rate: u32, bits_per_sample: u16) -> bool {
        &&& sample_rate * 4 <= u32::MAX
        &&& sample_rate * 4 * channels <= u32::MAX
    }

    open spec fn modify_args_ok(fmt_chunk: FmtChunk) -> bool {
        true
    }

    open spec fn new_fmt_is(channels: u16, sample_rate: u32, bits_per_sample: u16, f: FmtChunk) -> bool {
        f == new_fmt_spec(channels, sample_rate)
    }

    /// Nothing to update: the chunk stays as it is.
    open spec fn modify_spec(fmt_chunk: FmtChunk) -> (FmtChunk, Result<(), AdpcmError>) {
        (fmt_chunk, Ok(()))
    }

    open spec fn new_spec(channels: u16) -> Result<EncoderState, AdpcmError> {
        match channels {
            1 => Ok(EncoderState::Mono(EncoderMonoState { core: CoreState::initial(), buffer: Seq::empty() })),
            2 => Ok(EncoderState::Stereo(
                EncoderStereoState { core_l: CoreState::initial(), core_r: CoreState::initial(), buffer: Seq::empty() },
            )),
            o => Err(AdpcmError::WrongChannels(o)),
        }
    }

    fn new(channels: u16) -> (r: Result<Self, AdpcmError>)
        ensures
            channels == 1 ==> (r matches Ok(e)
                && e@ == EncoderState::Mono(EncoderMonoState { core: CoreState::initial(), buffer: Seq::empty() })),
            channels == 2 ==> (r matches Ok(e) && e@ == EncoderState::Stereo(
                EncoderStereoState { core_l: CoreState::initial(), core_r: CoreState::initial(), buffer: Seq::empty() },
            )),
    {
        match channels {
            1 => Ok(Self::Mono(EncoderMono::new())),
            2 => Ok(Self::Stereo(EncoderStereo::new())),
            o => Err(AdpcmError::WrongChannels(o)),
        }
    }

    fn encode(&mut self, input: &[i16], output: &mut Vec<u8>) -> (r: Result<(), AdpcmError>) {
        match *self {
            Self::Mono(enc0) => {
                let mut enc = enc0;
                enc.encode(input, output);
                *self = Self::Mono(enc);
            },
            Self::Stereo(enc0) => {
                let mut enc = enc0;
                enc.encode(input, output);
                *self = Self::Stereo(enc);
            },
        }
        Ok(())
    }

    /// * The bits per sample are always 4, whatever `bits_per_sample` says.
    fn new_fmt_chunk(&mut self, channels: u16, sample_rate: u32, bits_per_sample: u16) -> (r: Result<FmtChunk, AdpcmError>)
        ensures
            r == Ok::<FmtChunk, AdpcmError>(new_fmt_spec(channels, sample_rate)),
    {
        let bits_per_sample = 4u16;
        let block_align = BLOCK_SIZE as u16;
        let rate_bits = sample_rate * bits_per_sample as u32;
        Ok(FmtChunk {
            format_tag: 0x0020,
            channels,
            sample_rate,
            byte_rate: rate_bits * channels as u32 / 8,
            block_align,
            bits_per_sample,
            extension: None,
        })
    }

    /// * Nothing to update for ADPCM-YAMAHA.
    fn modify_fmt_chunk(&self, fmt_chunk: &mut FmtChunk) -> (r: Result<(), AdpcmError>)
        ensures
            r is Ok,
            *final(fmt_chunk) == *old(fmt_chunk),
    {
        Ok(())
    }

    fn flush(&mut self, output: &mut Vec<u8>) -> (r: Result<(), AdpcmError>) {
        match *self {
            Self::Mono(enc0) => {
                let mut enc = enc0;
                enc.flush(output);
                *self = Self::Mono(enc);
            },
            Self::Stereo(enc0) => {
                let mut enc = enc0;
                enc.flush(output);
                *self = Self::Stereo(enc);
            },
        }
        Ok(())
    }
}

/// The state of a mono ADPCM-YAMAHA decoder, as plain values.
pub struct DecoderMonoState {
    pub core: CoreState,
}

impl DecoderMonoState {
    /// Decodes one byte into two samples, the low nibble first; refuses the byte, and stays as it
    /// was, where the predictor would leave 32 bits.
    pub open spec fn step(self, byte: u8) -> Flow<DecoderMonoState, i16> {
        let lo = (byte % 16) as int;
        let hi = (byte / 16) as int;
        if !self.core.can_apply(lo) || !self.core.apply(lo).can_apply(hi) {
            Flow::Stopped(self, Seq::empty(), AdpcmError::PredictorOverflow)
        } else {
            let c1 = self.core.apply(lo);
            let c2 = c1.apply(hi);
            Flow::Going(DecoderMonoState { core: c2 }, seq![c1.sample(), c2.sample()])
        }
    }

    /// Decodes the bytes in order.
    pub open spec fn run(self, input: Seq<u8>) -> Flow<DecoderMonoState, i16> {
        run_flow(mono_decoder_step(), self, input)
    }
}

/// One decoding step of a mono decoder, as a function.
pub open spec fn mono_decoder_step() -> spec_fn(DecoderMonoState, u8) -> Flow<DecoderMonoState, i16> {
    |s: DecoderMonoState, b: u8| s.step(b)
}

/// The state of a stereo ADPCM-YAMAHA decoder, as plain values.
pub struct DecoderStereoState {
    pub core_l: CoreState,
    pub core_r: CoreState,
}

impl DecoderStereoState {
    /// Decodes one byte into a left sample (low nibble) and a right one (high nibble); refuses the
    /// byte, and stays as it was, where a predictor would leave 32 bits.
    pub open spec fn step(self, byte: u8) -> Flow<DecoderStereoState, i16> {
        let lo = (byte % 16) as int;
        let hi = (byte / 16) as int;
        if !self.core_l.can_apply(lo) || !self.core_r.can_apply(hi) {
            Flow::Stopped(self, Seq::empty(), AdpcmError::PredictorOverflow)
        } else {
            let l = self.core_l.apply(lo);
            let r = self.core_r.apply(hi);
            Flow::Going(DecoderStereoState { core_l: l, core_r: r }, seq![l.sample(), r.sample()])
        }
    }

    /// Decodes the bytes in order.
    pub open spec fn run(self, input: Seq<u8>) -> Flow<DecoderStereoState, i16> {
        run_flow(stereo_decoder_step(), self, input)
    }
}

/// One decoding step of a stereo decoder, as a function.
pub open spec fn stereo_decoder_step() -> spec_fn(DecoderStereoState, u8) -> Flow<DecoderStereoState, i16> {
    |s: DecoderStereoState, b: u8| s.step(b)
}

/// ## The mono-channel decoder
#[derive(Clone, Copy)]
pub struct DecoderMono {
    core: YamahaCodecCore,
}

impl View for DecoderMono {
    type V = DecoderMonoState;

    closed spec fn view(&self) -> DecoderMonoState {
        DecoderMonoState { core: self.core@ }
    }
}

impl DecoderMono {
    pub fn new() -> (r: Self)
        ensures
            r@ == (DecoderMonoState { core: CoreState::initial() }),
    {
        Self { core: YamahaCodecCore::new() }
    }

    /// * Each byte contains two nibbles to decode to 2 samples.
    pub fn decode_sample(&mut self, nibble: u8) -> (r: [i16; 2])
        requires
            old(self)@.core.wf(),
            old(self)@.step(nibble) is Going,
        ensures
            old(self)@.step(nibble) == Flow::<DecoderMonoState, i16>::Going(final(self)@, r@),
            final(self)@.core.wf(),
    {
        self.core.decode_sample(nibble)
    }

    /// Whether the predictor takes both nibbles of `byte` in 32 bits.
    fn takes_byte(&self, byte: u8) -> (r: bool)
        requires
            self@.core.wf(),
        ensures
            r == (self@.step(byte) is Going),
    {
        proof { lemma_nibbles(byte); }
        if !self.core.can_apply_nibble(byte & 0x0F) {
            return false;
        }
        let mut probe = self.core;
        probe.apply_nibble(byte & 0x0F);
        probe.can_apply_nibble(byte >> 4u8)
    }

    /// * Decodes the bytes of `input` and appends the samples to `output`.
    /// * To continue decoding, call it again and feed it data.
    /// * A byte that would take the predictor out of 32 bits, which no encoder writes, is refused.
    pub fn decode(&mut self, input: &[u8], output: &mut Vec<i16>) -> (r: Result<(), AdpcmError>)
        requires
            old(self)@.core.wf(),
        ensures
            !(old(self)@.run(input@) is Panics),
            old(self)@.run(input@) matches Flow::Going(s, o) ==> r is Ok && final(self)@ == s
                && final(output)@ == old(output)@ + o,
            old(self)@.run(input@) matches Flow::Stopped(s, o, e) ==> r == Err::<(), AdpcmError>(e)
                && final(self)@ == s && final(output)@ == old(output)@ + o,
            final(self)@.core.wf(),
    {
        let ghost s0 = self@;
        let ghost out0 = output@;
        proof {
            assert forall|a: DecoderMonoState, x: u8| #![trigger mono_decoder_step()(a, x)] !(mono_decoder_step()(a, x) is Panics) by {}
            lemma_run_flow_never_panics(mono_decoder_step(), s0, input@);
            assert(input@.take(0) =~= Seq::<u8>::empty());
            assert(output@ =~= out0 + Seq::<i16>::empty());
        }
        let mut i: usize = 0;
        while i < input.len()
            invariant
                s0 == old(self)@,
                out0 == old(output)@,
                i <= input@.len(),
                self@.core.wf(),
                !(s0.run(input@) is Panics),
                s0.run(input@.take(i as int)) matches Flow::Going(s, o) && self@ == s && output@ == out0 + o,
            decreases input@.len() - i,
        {
            proof {
                lemma_run_flow_next(mono_decoder_step(), s0, input@, i as int);
                lemma_run_flow_prefix(mono_decoder_step(), s0, input@, i + 1);
            }
            let ghost o1 = output@.skip(out0.len() as int);
            let ghost before = output@;
            if !self.takes_byte(input[i]) {
                proof {
                    assert(o1 + Seq::<i16>::empty() =~= o1);
                    assert(output@ =~= out0 + o1);
                }
                return Err(AdpcmError::PredictorOverflow);
            }
            let pair = self.decode_sample(input[i]);
            output.push(pair[0]);
            output.push(pair[1]);
            i += 1;
            proof {
                assert(output@ =~= before + pair@);
                assert(output@ =~= out0 + (o1 + pair@));
            }
        }
        assert(input@.take(i as int) =~= input@);
        Ok(())
    }
}

/// ## The stereo-channel decoder
#[derive(Clone, Copy)]
pub struct DecoderStereo {
    core_l: YamahaCodecCore,
    core_r: YamahaCodecCore,
}

impl View for DecoderStereo {
    type V = DecoderStereoState;

    closed spec fn view(&self) -> DecoderStereoState {
        DecoderStereoState { core_l: self.core_l@, core_r: self.core_r@ }
    }
}

impl DecoderStereo {
    pub fn new() -> (r: Self)
        ensures
            r@ == (DecoderStereoState { core_l: CoreState::initial(), core_r: CoreState::initial() }),
    {
        Self { core_l: YamahaCodecCore::new(), core_r: YamahaCodecCore::new() }
    }

    /// * Each byte contains two nibbles to decode to 2 samples for left and right channels.
    pub fn decode_sample(&mut self, nibble: u8) -> (r: [i16; 2])
        requires
            old(self)@.core_l.wf(),
            old(self)@.core_r.wf(),
            old(self)@.step(nibble) is Going,
        ensures
            old(self)@.step(nibble) == Flow::<DecoderStereoState, i16>::Going(final(self)@, r@),
            final(self)@.core_l.wf(),
            final(self)@.core_r.wf(),
    {
        proof { lemma_nibbles(nibble); }
        let a = self.core_l.expand_nibble(nibble & 0x0F);
        let b = self.core_r.expand_nibble(nibble >> 4);
        let r = [a, b];
        assert(r@ =~= seq![a, b]);
        r
    }

    /// * Decodes the bytes of `input` and appends the interleaved samples to `output`.
    /// * To continue decoding, call it again and feed it data.
    /// * A byte that would take a predictor out of 32 bits, which no encoder writes, is refused.
    pub fn decode(&mut self, input: &[u8], output: &mut Vec<i16>) -> (r: Result<(), AdpcmError>)
        requires
            old(self)@.core_l.wf(),
            old(self)@.core_r.wf(),
        ensures
            !(old(self)@.run(input@) is Panics),
            old(self)@.run(input@) matches Flow::Going(s, o) ==> r is Ok && final(self)@ == s
                && final(output)@ == old(output)@ + o,
            old(self)@.run(input@) matches Flow::Stopped(s, o, e) ==> r == Err::<(), AdpcmError>(e)
                && final(self)@ == s && final(output)@ == old(output)@ + o,
            final(self)@.core_l.wf(),
            final(self)@.core_r.wf(),
    {
        let ghost s0 = self@;
        let ghost out0 = output@;
        proof {
            assert forall|a: DecoderStereoState, x: u8| #![trigger stereo_decoder_step()(a, x)] !(stereo_decoder_step()(a, x) is Panics) by {}
            lemma_run_flow_never_panics(stereo_decoder_step(), s0, input@);
            assert(input@.take(0) =~= Seq::<u8>::empty());
            assert(output@ =~= out0 + Seq::<i16>::empty());
        }
        let mut i: usize = 0;
        while i < input.len()
            invariant
                s0 == old(self)@,
                out0 == old(output)@,
                i <= input@.len(),
                self@.core_l.wf(),
                self@.core_r.wf(),
                !(s0.run(input@) is Panics),
                s0.run(input@.take(i as int)) matches Flow::Going(s, o) && self@ == s && output@ == out0 + o,
            decreases input@.len() - i,
        {
            proof {
                lemma_run_flow_next(stereo_decoder_step(), s0, input@, i as int);
                lemma_run_flow_prefix(stereo_decoder_step(), s0, input@, i + 1);
                lemma_nibbles(input[i as int]);
            }
            let ghost o1 = output@.skip(out0.len() as int);
            let ghost before = output@;
            let b = input[i];
            if !self.core_l.can_apply_nibble(b & 0x0F) || !self.core_r.can_apply_nibble(b >> 4u8) {
                proof {
                    assert(o1 + Seq::<i16>::empty() =~= o1);
                    assert(output@ =~= out0 + o1);
                }
                return Err(AdpcmError::PredictorOverflow);
            }
            let pair = self.decode_sample(b);
            output.push(pair[0]);
            output.push(pair[1]);
            i += 1;
            proof {
                assert(output@ =~= before + pair@);
                assert(output@ =~= out0 + (o1 + pair@));
            }
        }
        assert(input@.take(i as int) =~= input@);
        Ok(())
    }
}

/// The state of an ADPCM-YAMAHA decoder, as plain values.
pub enum DecoderState {
    Mono(DecoderMonoState),
    Stereo(DecoderStereoState),
}

impl DecoderState {
    pub open spec fn wf(self) -> bool {
        match self {
            DecoderState::Mono(m) => m.core.wf(),
            DecoderState::Stereo(st) => st.core_l.wf() && st.core_r.wf(),
        }
    }

    /// Decodes the bytes in order with the decoder of its channel count.
    pub open spec fn run(self, input: Seq<u8>) -> Flow<DecoderState, i16> {
        match self {
            DecoderState::Mono(m) => m.run(input).map_state(|m2: DecoderMonoState| DecoderState::Mono(m2)),
            DecoderState::Stereo(st) => st.run(input).map_state(|st2: DecoderStereoState| DecoderState::Stereo(st2)),
        }
    }

    pub open spec fn channels(self) -> int {
        match self {
            DecoderState::Mono(_) => 1,
            DecoderState::Stereo(_) => 2,
        }
    }
}

/// An ADPCM-YAMAHA decoder decodes any bytes without panicking: a byte that would take a
/// predictor out of 32 bits gives an error.
pub proof fn lemma_decoder_never_panics(s: DecoderState, input: Seq<u8>)
    ensures
        !(s.run(input) is Panics),
{
    match s {
        DecoderState::Mono(m) => {
            assert forall|a: DecoderMonoState, x: u8| #![trigger mono_decoder_step()(a, x)] !(mono_decoder_step()(a, x) is Panics) by {}
            lemma_run_flow_never_panics(mono_decoder_step(), m, input);
        },
        DecoderState::Stereo(st) => {
            assert forall|a: DecoderStereoState, x: u8| #![trigger stereo_decoder_step()(a, x)] !(stereo_decoder_step()(a, x) is Panics) by {}
            lemma_run_flow_never_panics(stereo_decoder_step(), st, input);
        },
    }
}

/// ## The ADPCM-YAMAHA decoder, mono or stereo
#[derive(Clone, Copy)]
pub enum Decoder {
    Mono(DecoderMono),
    Stereo(DecoderStereo),
}

impl View for Decoder {
    type V = DecoderState;

    closed spec fn view(&self) -> DecoderState {
        match self {
            Decoder::Mono(m) => DecoderState::Mono(m@),
            Decoder::Stereo(st) => DecoderState::Stereo(st@),
        }
    }
}

impl Decoder {
    /// * Get the number of the channels
    pub fn get_channels(&self) -> (r: usize)
        ensures
            r == self@.channels(),
    {
        match self {
            Self::Mono(_) => 1,
            Self::Stereo(_) => 2,
        }
    }
}

impl AdpcmDecoder for Decoder {
    open spec fn decoder_wf(state: DecoderState) -> bool {
        state.wf()
    }

    open spec fn decode_spec(state: DecoderState, input: Seq<u8>) -> Flow<DecoderState, i16> {
        state.run(input)
    }

    proof fn lemma_decode_append(state: DecoderState, a: Seq<u8>, b: Seq<u8>) {
        match state {
            DecoderState::Mono(m) => {
                lemma_run_flow_append(mono_decoder_step(), m, a, b);
                if let Flow::Going(m1, o1) = m.run(a) {
                    match m1.run(b) {
                        Flow::Going(m2, o2) => {},
                        Flow::Stopped(m2, o2, e) => {},
                        Flow::Panics => {},
                    }
                }
            },
            DecoderState::Stereo(st) => {
                lemma_run_flow_append(stereo_decoder_step(), st, a, b);
                if let Flow::Going(t1, o1) = st.run(a) {
                    match t1.run(b) {
                        Flow::Going(t2, o2) => {},
                        Flow::Stopped(t2, o2, e) => {},
                        Flow::Panics => {},
                    }
                }
            },
        }
    }

    open spec fn can_flush(state: DecoderState) -> bool {
        true
    }

    open spec fn flush_spec(state: DecoderState) -> Flow<DecoderState, i16> {
        Flow::Going(state, Seq::empty())
    }

    open spec fn block_size_spec(state: DecoderState) -> int {
        BLOCK_SIZE as int
    }

    open spec fn frames_per_block_spec(state: DecoderState) -> Option<int> {
        Some(BLOCK_SIZE * 2 / state.channels())
    }

    open spec fn reset_spec(state: DecoderState) -> DecoderState {
        match state {
            DecoderState::Mono(_) => DecoderState::Mono(DecoderMonoState { core: CoreState::initial() }),
            DecoderState::Stereo(_) => DecoderState::Stereo(DecoderStereoState { core_l: CoreState::initial(), core_r: CoreState::initial() }),
        }
    }

    open spec fn new_spec(fmt_chunk: FmtChunk) -> Result<DecoderState, AdpcmError> {
        match fmt_chunk.channels {
            1 => Ok(DecoderState::Mono(DecoderMonoState { core: CoreState::initial() })),
            2 => Ok(DecoderState::Stereo(DecoderStereoState { core_l: CoreState::initial(), core_r: CoreState::initial() })),
            other => Err(AdpcmError::WrongChannels(other)),
        }
    }

    /// * Mono and stereo are supported; other channel counts are refused.
    fn new(fmt_chunk: FmtChunk) -> (r: Result<Self, AdpcmError>)
        ensures
            fmt_chunk.channels == 1 ==> (r matches Ok(d) && d@ == DecoderState::Mono(DecoderMonoState { core: CoreState::initial() })),
            fmt_chunk.channels == 2 ==> (r matches Ok(d) && d@ == DecoderState::Stereo(
                DecoderStereoState { core_l: CoreState::initial(), core_r: CoreState::initial() },
            )),
            fmt_chunk.channels != 1 && fmt_chunk.channels != 2 ==> r == Err::<Self, AdpcmError>(AdpcmError::WrongChannels(fmt_chunk.channels)),
    {
        match fmt_chunk.channels {
            1 => Ok(Self::Mono(DecoderMono::new())),
            2 => Ok(Self::Stereo(DecoderStereo::new())),
            o => Err(AdpcmError::WrongChannels(o)),
        }
    }

    fn get_block_size(&self) -> (r: usize) {
        BLOCK_SIZE
    }

    fn frames_per_block(&self) -> (r: usize) {
        BLOCK_SIZE * 2 / self.get_channels()
    }

    fn reset_states(&mut self) {
        match self {
            Self::Mono(_) => *self = Self::Mono(DecoderMono::new()),
            Self::Stereo(_) => *self = Self::Stereo(DecoderStereo::new()),
        }
    }

    fn decode(&mut self, input: &[u8], output: &mut Vec<i16>) -> (r: Result<(), AdpcmError>) {
        match *self {
            Self::Mono(dec0) => {
                let mut dec = dec0;
                let r = dec.decode(input, output);
                *self = Self::Mono(dec);
                r
            },
            Self::Stereo(dec0) => {
                let mut dec = dec0;
                let r = dec.decode(input, output);
                *self = Self::Stereo(dec);
                r
            },
        }
    }

    fn flush(&mut self, output: &mut Vec<i16>) -> (r: Result<(), AdpcmError>) {
        assert(output@ =~= old(output)@ + Seq::<i16>::empty());
        Ok(())
    }
}

impl EncoderMonoState {
    /// The samples that one more sample lets the encoder encode, as a decoder rebuilds them:
    /// the predictor after each nibble, truncated to 16 bits.
    pub open spec fn step_reconstruction(self, sample: i16) -> Seq<i16> {
        let buf = self.buffer.push(sample);
        if buf.len() == 2 {
            let c1 = self.core.compress(buf[0]).0;
            let c2 = c1.compress(buf[1]).0;
            seq![c1.sample(), c2.sample()]
        } else {
            Seq::empty()
        }
    }

    /// The encoded samples of `input`, as a decoder rebuilds them.
    pub open spec fn reconstruction(self, input: Seq<i16>) -> Seq<i16>
        decreases input.len(),
    {
        if input.len() == 0 {
            Seq::empty()
        } else {
            self.reconstruction(input.drop_last()) + self.run(input.drop_last()).0.step_reconstruction(input.last())
        }
    }
}

impl EncoderStereoState {
    /// The samples that one more sample lets the encoder encode, as a decoder rebuilds them.
    pub open spec fn step_reconstruction(self, sample: i16) -> Seq<i16> {
        let buf = self.buffer.push(sample);
        if buf.len() == 2 {
            seq![self.core_l.compress(buf[0]).0.sample(), self.core_r.compress(buf[1]).0.sample()]
        } else {
            Seq::empty()
        }
    }

    /// The encoded samples of `input`, as a decoder rebuilds them.
    pub open spec fn reconstruction(self, input: Seq<i16>) -> Seq<i16>
        decreases input.len(),
    {
        if input.len() == 0 {
            Seq::empty()
        } else {
            self.reconstruction(input.drop_last()) + self.run(input.drop_last()).0.step_reconstruction(input.last())
        }
    }
}

proof fn lemma_pack(l: u8, h: u8)
    requires
        l < 16,
        h < 16,
    ensures
        pack(l, h) % 16 == l,
        pack(l, h) / 16 == h,
{
    assert(l + h * 16 < 256);
    assert((l + h * 16) % 16 == l && (l + h * 16) / 16 == h) by (nonlinear_arith)
        requires l < 16, h < 16, 0 <= l, 0 <= h;
}

/// A core in the state of an encoder's core decodes the byte that the encoder's core makes of two
/// samples without overflow, into the encoder's reconstruction of the two samples (its predictor
/// after each, in 16 bits), and ends in the state of the encoder's core.
pub proof fn lemma_core_byte_roundtrip(c: CoreState, a: i16, b: i16)
    requires
        c.encoder_wf(),
    ensures
        ({
            let (c1, lo) = c.compress(a);
            let (c2, hi) = c1.compress(b);
            let byte = pack(lo, hi);
            &&& c.wf()
            &&& c.can_apply((byte % 16) as int)
            &&& c.apply((byte % 16) as int) == c1
            &&& c1.can_apply((byte / 16) as int)
            &&& c1.apply((byte / 16) as int) == c2
            &&& c2.encoder_wf()
        }),
{
    lemma_compress_wf(c, a);
    let (c1, lo) = c.compress(a);
    lemma_compress_wf(c1, b);
    let (c2, hi) = c1.compress(b);
    lemma_pack(lo, hi);
}

/// A stereo decoder decodes each byte with the core of each channel: the low nibble with the
/// left core and the high nibble with the right one, the left sample first.
pub proof fn lemma_stereo_decode_by_channel(d: DecoderStereoState, byte: u8)
    requires
        d.core_l.can_apply((byte % 16) as int),
        d.core_r.can_apply((byte / 16) as int),
    ensures
        d.step(byte) == Flow::<DecoderStereoState, i16>::Going(
            DecoderStereoState { core_l: d.core_l.apply((byte % 16) as int), core_r: d.core_r.apply((byte / 16) as int) },
            seq![d.core_l.apply((byte % 16) as int).sample(), d.core_r.apply((byte / 16) as int).sample()],
        ),
{
}

/// A stereo decoder whose cores are in the states of a stereo encoder's cores decodes the byte
/// that the encoder makes of a left and a right sample into the encoder's reconstruction of
/// them, and its cores end in the states of the encoder's.
pub proof fn lemma_stereo_byte_roundtrip(l: CoreState, r: CoreState, a: i16, b: i16)
    requires
        l.encoder_wf(),
        r.encoder_wf(),
    ensures
        (DecoderStereoState { core_l: l, core_r: r }).step(pack(l.compress(a).1, r.compress(b).1))
            == Flow::<DecoderStereoState, i16>::Going(
            DecoderStereoState { core_l: l.compress(a).0, core_r: r.compress(b).0 },
            seq![l.compress(a).0.sample(), r.compress(b).0.sample()],
        ),
{
    lemma_compress_wf(l, a);
    lemma_compress_wf(r, b);
    lemma_pack(l.compress(a).1, r.compress(b).1);
}

proof fn lemma_mono_step_roundtrip(e: EncoderMonoState, x: i16)
    requires
        e.wf(),
    ensures
        (DecoderMonoState { core: e.core }).run(e.step(x).1)
            == Flow::<DecoderMonoState, i16>::Going(DecoderMonoState { core: e.step(x).0.core }, e.step_reconstruction(x)),
{
    let d = DecoderMonoState { core: e.core };
    let buf = e.buffer.push(x);
    if buf.len() == 2 {
        lemma_compress_wf(e.core, buf[0]);
        let (c1, l) = e.core.compress(buf[0]);
        lemma_compress_wf(c1, buf[1]);
        let (c2, h) = c1.compress(buf[1]);
        lemma_pack(l, h);
        lemma_run_flow_single(mono_decoder_step(), d, pack(l, h));
    } else {
        assert(e.step(x).1 =~= Seq::<u8>::empty());
    }
}

/// Decoding what a mono encoder writes, with a decoder whose core is in the state of the
/// encoder's core, never panics, gives back every encoded sample as the encoder reconstructed
/// it, and leaves the decoder's core in the state of the encoder's.
pub proof fn lemma_mono_roundtrip(e: EncoderMonoState, d: DecoderMonoState, input: Seq<i16>)
    requires
        e.wf(),
        d.core == e.core,
    ensures
        d.run(e.run(input).1) == Flow::<DecoderMonoState, i16>::Going(
            DecoderMonoState { core: e.run(input).0.core },
            e.reconstruction(input),
        ),
    decreases input.len(),
{
    if input.len() > 0 {
        let prev = input.drop_last();
        lemma_mono_roundtrip(e, d, prev);
        lemma_mono_run_wf(e, prev);
        let (e1, o1) = e.run(prev);
        lemma_mono_step_roundtrip(e1, input.last());
        lemma_run_flow_append(mono_decoder_step(), d, o1, e1.step(input.last()).1);
    } else {
        assert(e.run(input).1 =~= Seq::<u8>::empty());
    }
}

proof fn lemma_stereo_step_roundtrip(e: EncoderStereoState, x: i16)
    requires
        e.wf(),
    ensures
        (DecoderStereoState { core_l: e.core_l, core_r: e.core_r }).run(e.step(x).1) == Flow::<DecoderStereoState, i16>::Going(
            DecoderStereoState { core_l: e.step(x).0.core_l, core_r: e.step(x).0.core_r },
            e.step_reconstruction(x),
        ),
{
    let d = DecoderStereoState { core_l: e.core_l, core_r: e.core_r };
    let buf = e.buffer.push(x);
    if buf.len() == 2 {
        lemma_compress_wf(e.core_l, buf[0]);
        lemma_compress_wf(e.core_r, buf[1]);
        let (l2, l) = e.core_l.compress(buf[0]);
        let (r2, h) = e.core_r.compress(buf[1]);
        lemma_pack(l, h);
        lemma_run_flow_single(stereo_decoder_step(), d, pack(l, h));
    } else {
        assert(e.step(x).1 =~= Seq::<u8>::empty());
    }
}

/// Decoding what a stereo encoder writes, with a decoder whose cores are in the states of the
/// encoder's cores, never panics, gives back every encoded sample as the encoder reconstructed
/// it, interleaved as the input was, and leaves the decoder's cores in the states of the
/// encoder's.
pub proof fn lemma_stereo_roundtrip(e: EncoderStereoState, d: DecoderStereoState, input: Seq<i16>)
    requires
        e.wf(),
        d.core_l == e.core_l,
        d.core_r == e.core_r,
    ensures
        d.run(e.run(input).1) == Flow::<DecoderStereoState, i16>::Going(
            DecoderStereoState { core_l: e.run(input).0.core_l, core_r: e.run(input).0.core_r },
            e.reconstruction(input),
        ),
    decreases input.len(),
{
    if input.len() > 0 {
        let prev = input.drop_last();
        lemma_stereo_roundtrip(e, d, prev);
        lemma_stereo_run_wf(e, prev);
        let (e1, o1) = e.run(prev);
        lemma_stereo_step_roundtrip(e1, input.last());
        lemma_run_flow_append(stereo_decoder_step(), d, o1, e1.step(input.last()).1);
    } else {
        assert(e.run(input).1 =~= Seq::<u8>::empty());
    }
}

/// The decoder whose cores are in the states of the encoder's cores; for a new encoder this is
/// a new decoder of the same channel count.
pub open spec fn matching_decoder(e: EncoderState) -> DecoderState {
    match e {
        EncoderState::Mono(m) => DecoderState::Mono(DecoderMonoState { core: m.core }),
        EncoderState::Stereo(st) => DecoderState::Stereo(DecoderStereoState { core_l: st.core_l, core_r: st.core_r }),
    }
}

impl EncoderState {
    /// The encoded samples of `input`, as a decoder rebuilds them.
    pub open spec fn reconstruction(self, input: Seq<i16>) -> Seq<i16> {
        match self {
            EncoderState::Mono(m) => m.reconstruction(input),
            EncoderState::Stereo(st) => st.reconstruction(input),
        }
    }
}

/// What an ADPCM-YAMAHA encoder writes, decoded by the matching decoder, is every encoded sample
/// as the encoder reconstructed it, and the decoder ends matching the encoder; decoding it never
/// panics.
pub proof fn lemma_roundtrip(e: EncoderState, input: Seq<i16>)
    requires
        e.wf(),
    ensures
        <Decoder as AdpcmDecoder>::decode_spec(matching_decoder(e), <Encoder as AdpcmEncoder>::encode_spec(e, input).1)
            == Flow::<DecoderState, i16>::Going(matching_decoder(e.run(input).0), e.reconstruction(input)),
{
    match e {
        EncoderState::Mono(m) => {
            lemma_mono_roundtrip(m, DecoderMonoState { core: m.core }, input);
        },
        EncoderState::Stereo(st) => {
            lemma_stereo_roundtrip(st, DecoderStereoState { core_l: st.core_l, core_r: st.core_r }, input);
        },
    }
}


/// A mono encoder that takes `a` and then `b` writes the bytes and ends in the state that it
/// writes and ends in when it takes `a + b` in one call.
pub proof fn lemma_mono_encoder_run_append(e: EncoderMonoState, a: Seq<i16>, b: Seq<i16>)
    ensures
        e.run(a + b) == (e.run(a).0.run(b).0, e.run(a).1 + e.run(a).0.run(b).1),
    decreases b.len(),
{
    if b.len() == 0 {
        assert(a + b =~= a);
        assert(e.run(a).1 + Seq::<u8>::empty() =~= e.run(a).1);
    } else {
        lemma_mono_encoder_run_append(e, a, b.drop_last());
        assert((a + b).drop_last() =~= a + b.drop_last());
        assert((a + b).last() == b.last());
        let m = e.run(a).0;
        let o3 = m.run(b.drop_last()).1;
        let o4 = m.run(b.drop_last()).0.step(b.last()).1;
        assert((e.run(a).1 + o3) + o4 =~= e.run(a).1 + (o3 + o4));
    }
}

/// A stereo encoder that takes `a` and then `b` writes the bytes and ends in the state that it
/// writes and ends in when it takes `a + b` in one call.
pub proof fn lemma_stereo_encoder_run_append(e: EncoderStereoState, a: Seq<i16>, b: Seq<i16>)
    ensures
        e.run(a + b) == (e.run(a).0.run(b).0, e.run(a).1 + e.run(a).0.run(b).1),
    decreases b.len(),
{
    if b.len() == 0 {
        assert(a + b =~= a);
        assert(e.run(a).1 + Seq::<u8>::empty() =~= e.run(a).1);
    } else {
        lemma_stereo_encoder_run_append(e, a, b.drop_last());
        assert((a + b).drop_last() =~= a + b.drop_last());
        assert((a + b).last() == b.last());
        let m = e.run(a).0;
        let o3 = m.run(b.drop_last()).1;
        let o4 = m.run(b.drop_last()).0.step(b.last()).1;
        assert((e.run(a).1 + o3) + o4 =~= e.run(a).1 + (o3 + o4));
    }
}

} // verus!
