use vstd::prelude::*;
use super::{
    clamp, clamp_i32, lemma_after_after, lemma_nibbles, lemma_pack_nibbles, AdpcmDecoder, AdpcmEncoder, AdpcmError,
    CurrentChannel, Flow,
};
use crate::copiablebuf::CopiableBuffer;
use crate::wavcore::{AdpcmImaData, ExtensionData, FmtChunk, FmtExtension};

verus! {

/// An error of the ADPCM-IMA coder.
#[derive(Clone, Debug)]
pub enum ImaAdpcmError {
    InvalidArgument(String),
}

impl ImaAdpcmError {
    /// The error as text: "Invalid arguments: " and what was wrong.
    pub fn to_message(&self) -> (r: String)
        ensures
            self matches ImaAdpcmError::InvalidArgument(info) ==> r@ == "Invalid arguments: "@ + info@,
    {
        match self {
            ImaAdpcmError::InvalidArgument(info) => {
                let mut r = String::from_str("Invalid arguments: ");
                r.append(info.as_str());
                r
            },
        }
    }
}

/// How the step-size index moves after each nibble.
pub const IMAADPCM_INDEX_TABLE: [i8; 16] = [-1, -1, -1, -1, 2, 4, 6, 8, -1, -1, -1, -1, 2, 4, 6, 8];

/// The quantizer step sizes, indexed by the step-size index `0..=88`.
pub const IMAADPCM_STEPSIZE_TABLE: [u16; 89] = [
    7, 8, 9, 10, 11, 12, 13, 14,
    16, 17, 19, 21, 23, 25, 28, 31,
    34, 37, 41, 45, 50, 55, 60, 66,
    73, 80, 88, 97, 107, 118, 130, 143,
    157, 173, 190, 209, 230, 253, 279, 307,
    337, 371, 408, 449, 494, 544, 598, 658,
    724, 796, 876, 963, 1060, 1166, 1282, 1411,
    1552, 1707, 1878, 2066, 2272, 2499, 2749, 3024,
    3327, 3660, 4026, 4428, 4871, 5358, 5894, 6484,
    7132, 7845, 8630, 9493, 10442, 11487, 12635, 13899,
    15289, 16818, 18500, 20350, 22385, 24623, 27086, 29794,
    32767,
];

/// The step size for a step-size index in `0..=88`.
pub open spec fn step_size(index: int) -> int {
    IMAADPCM_STEPSIZE_TABLE@[index] as int
}

/// The index adjustment for a nibble in `0..16`.
pub open spec fn index_adjust(nibble: int) -> int {
    IMAADPCM_INDEX_TABLE@[nibble] as int
}

/// The quantized difference that a nibble stands for at the given step size.
pub open spec fn quantized_diff(step: int, nibble: int) -> int {
    (step * ((nibble % 8) * 2 + 1)) / 8
}

/// The predictor after applying `nibble` to the state `(sample, index)`.
pub open spec fn next_sample(sample: int, index: int, nibble: int) -> int {
    let q = quantized_diff(step_size(index), nibble);
    clamp(if nibble >= 8 { sample - q } else { sample + q }, -32768, 32767)
}

/// The step-size index after applying `nibble` at `index`.
pub open spec fn next_index(index: int, nibble: int) -> int {
    clamp(index + index_adjust(nibble), 0, 88)
}

/// The nibble the encoder chooses for `sample` from the state `(prev, index)`:
/// the magnitude `min(4 * |sample - prev| / step, 7)`, with bit 3 set for a negative difference.
pub open spec fn choose_nibble(prev: int, index: int, sample: int) -> int {
    let diff = sample - prev;
    let absdiff = if diff < 0 { -diff } else { diff };
    let mag = if absdiff * 4 / step_size(index) < 7 { absdiff * 4 / step_size(index) } else { 7 };
    if diff < 0 { mag + 8 } else { mag }
}

pub(crate) proof fn lemma_tables()
    ensures
        forall|i: int| 0 <= i < 89 ==> 7 <= #[trigger] step_size(i) <= 32767,
        forall|n: int| 0 <= n < 16 ==> -1 <= #[trigger] index_adjust(n) <= 8,
{
    assert(forall|i: int| 0 <= i < 89 ==> 7 <= #[trigger] step_size(i) <= 32767) by {
        assert(IMAADPCM_STEPSIZE_TABLE@.len() == 89);
    }
}

/// The bytes in one ADPCM-IMA block, header included.
pub const BLOCK_SIZE: usize = 512;

/// The bytes of a block header: the first sample and the step-size index.
pub const HEADER_SIZE: usize = 4;

/// Channels are interleaved in runs of this many bytes.
pub const INTERLEAVE_BYTES: usize = 4;

/// The samples that one interleaved run of bytes holds.
pub const INTERLEAVE_SAMPLES: usize = 8;

/// The bytes a core encoder can hand out for one run of samples: a header and a run.
pub const NIBBLE_BUFFER_SIZE: usize = 8;

/// The little-endian bytes of a block header.
pub open spec fn header_bytes(sample: i16, index: i8) -> Seq<u8> {
    seq![sample as u8, ((sample as u16) >> 8u16) as u8, index as u8, 0u8]
}

/// Applies one nibble to the predictor state and returns the new predictor.
fn apply_nibble(sample: i16, index: i8, nibble: u8) -> (r: (i16, i8))
    requires
        0 <= index <= 88,
        nibble < 16,
    ensures
        r.0 == next_sample(sample as int, index as int, nibble as int),
        r.1 == next_index(index as int, nibble as int),
{
    proof { lemma_tables(); }
    let mut predict = sample as i32;
    let stepsize = IMAADPCM_STEPSIZE_TABLE[index as usize] as i32;
    let idx = clamp_i32(index as i32 + IMAADPCM_INDEX_TABLE[nibble as usize] as i32, 0, 88);
    let delta = (nibble & 7) as i32;
    assert(nibble & 7 == nibble % 8) by (bit_vector);
    assert((delta << 1) == delta * 2) by (bit_vector) requires 0 <= delta < 8;
    assert(0 <= stepsize * ((delta << 1) + 1) <= 32767 * 15) by (nonlinear_arith)
        requires 7 <= stepsize <= 32767, 0 <= (delta << 1) + 1 <= 15;
    let prod = stepsize * ((delta << 1) + 1);
    assert(prod >> 3 == prod / 8) by (bit_vector) requires 0 <= prod < 0x1000000;
    let qdiff = prod >> 3;
    assert((nibble & 8) != 0 <==> nibble >= 8) by (bit_vector) requires nibble < 16;
    if (nibble & 8) != 0 {
        predict -= qdiff;
    } else {
        predict += qdiff;
    }
    predict = clamp_i32(predict, -32768, 32767);
    (predict as i16, idx as i8)
}

/// The state of a mono ADPCM-IMA encoder, as plain values.
pub struct EncoderCoreState {
    /// The predictor: the sample a decoder holds at this point.
    pub prev_sample: i16,
    /// The step-size index.
    pub stepsize_index: i8,
    /// The pending nibble (when `half_byte_written`), else the last byte written.
    pub nibble: u8,
    /// Whether a nibble waits for its partner.
    pub half_byte_written: bool,
    /// Whether the current block's header was written.
    pub header_written: bool,
    /// The bytes written in the current block.
    pub num_outputs: usize,
}

impl EncoderCoreState {
    /// The state invariant of the encoder.
    pub open spec fn wf(self) -> bool {
        &&& 0 <= self.stepsize_index <= 88
        &&& self.half_byte_written ==> self.nibble < 16
        &&& self.header_written ==> HEADER_SIZE <= self.num_outputs < BLOCK_SIZE
        &&& !self.header_written ==> self.num_outputs == 0 && !self.half_byte_written
    }

    /// Encodes one sample: writes the block header where it is due, then either keeps the
    /// nibble or completes a byte (low nibble first); a full block restarts from the raw sample.
    pub open spec fn step(self, sample: i16) -> (EncoderCoreState, Seq<u8>) {
        let hdr = if self.header_written {
            Seq::<u8>::empty()
        } else {
            header_bytes(self.prev_sample, self.stepsize_index)
        };
        let outs: int = if self.header_written { self.num_outputs as int } else { self.num_outputs + 4 };
        let n = choose_nibble(self.prev_sample as int, self.stepsize_index as int, sample as int);
        let p = next_sample(self.prev_sample as int, self.stepsize_index as int, n);
        let i = next_index(self.stepsize_index as int, n);
        if !self.half_byte_written {
            (
                EncoderCoreState {
                    prev_sample: p as i16,
                    stepsize_index: i as i8,
                    nibble: n as u8,
                    half_byte_written: true,
                    header_written: true,
                    num_outputs: outs as usize,
                },
                hdr,
            )
        } else {
            let byte = (self.nibble + n * 16) as u8;
            if outs + 1 >= BLOCK_SIZE {
                (
                    EncoderCoreState {
                        prev_sample: sample,
                        stepsize_index: i as i8,
                        nibble: byte,
                        half_byte_written: false,
                        header_written: false,
                        num_outputs: 0,
                    },
                    hdr.push(byte),
                )
            } else {
                (
                    EncoderCoreState {
                        prev_sample: p as i16,
                        stepsize_index: i as i8,
                        nibble: byte,
                        half_byte_written: false,
                        header_written: true,
                        num_outputs: (outs + 1) as usize,
                    },
                    hdr.push(byte),
                )
            }
        }
    }

    /// Encodes the samples in order: the final state and the bytes written.
    pub open spec fn run(self, input: Seq<i16>) -> (EncoderCoreState, Seq<u8>)
        decreases input.len(),
    {
        if input.len() == 0 {
            (self, Seq::<u8>::empty())
        } else {
            let (s1, o1) = self.run(input.drop_last());
            let (s2, o2) = s1.step(input.last());
            (s2, o1 + o2)
        }
    }
}

/// The zero samples that `flush` feeds: none between blocks; within a block, one to complete a
/// pending half byte and two for each byte still missing from the block.
pub open spec fn block_fill(e: EncoderCoreState) -> int {
    if !e.header_written {
        0
    } else {
        2 * (BLOCK_SIZE - e.num_outputs) - (if e.half_byte_written { 1int } else { 0int })
    }
}

/// `n` zero samples.
pub open spec fn zero_samples(n: int) -> Seq<i16> {
    Seq::new(n as nat, |i: int| 0i16)
}

pub(crate) proof fn lemma_choose_nibble(prev: int, index: int, sample: int)
    requires
        0 <= index <= 88,
        -32768 <= prev <= 32767,
        -32768 <= sample <= 32767,
    ensures
        0 <= choose_nibble(prev, index, sample) < 16,
        choose_nibble(prev, index, sample) >= 8 <==> sample < prev,
{
    lemma_tables();
    let diff = sample - prev;
    let absdiff = if diff < 0 { -diff } else { diff };
    assert(absdiff * 4 / step_size(index) >= 0) by (nonlinear_arith)
        requires absdiff >= 0, step_size(index) > 0;
}

/// The encoder state stays well formed after each sample.
pub proof fn lemma_encoder_step_wf(s: EncoderCoreState, sample: i16)
    requires
        s.wf(),
    ensures
        s.step(sample).0.wf(),
{
    lemma_choose_nibble(s.prev_sample as int, s.stepsize_index as int, sample as int);
}

/// The encoder state stays well formed over any run of samples.
pub proof fn lemma_encoder_run_wf(s: EncoderCoreState, input: Seq<i16>)
    requires
        s.wf(),
    ensures
        s.run(input).0.wf(),
    decreases input.len(),
{
    if input.len() > 0 {
        lemma_encoder_run_wf(s, input.drop_last());
        lemma_encoder_step_wf(s.run(input.drop_last()).0, input.last());
    }
}

/// The bytes written in the block when a run of eight samples starts.
pub open spec fn batch_start_outputs(s: EncoderCoreState) -> int {
    if s.header_written { s.num_outputs as int } else { HEADER_SIZE as int }
}

/// Encoding the first `j <= 8` of a run of eight samples, from a state at a four-byte boundary,
/// writes a header where due and then one byte per pair, and reaches the block's end only at the
/// eighth sample.
pub proof fn lemma_encoder_batch_prefix(c: EncoderCoreState, samples: Seq<i16>, j: int)
    requires
        c.wf(),
        !c.half_byte_written,
        c.num_outputs % 4 == 0,
        samples.len() == 8,
        0 <= j <= 8,
    ensures
        c.run(samples.take(j)).0.wf(),
        c.run(samples.take(j)).0.half_byte_written == (j % 2 == 1),
        c.run(samples.take(j)).1.len() == (if c.header_written || j == 0 { 0int } else { 4int }) + j / 2,
        j < 8 ==> c.run(samples.take(j)).0.header_written == (c.header_written || j > 0)
            && c.run(samples.take(j)).0.num_outputs == (if j == 0 { c.num_outputs as int } else { batch_start_outputs(c) + j / 2 }),
        j == 8 ==> if batch_start_outputs(c) + 4 >= BLOCK_SIZE {
            !c.run(samples.take(j)).0.header_written && c.run(samples.take(j)).0.num_outputs == 0
        } else {
            c.run(samples.take(j)).0.header_written && c.run(samples.take(j)).0.num_outputs == batch_start_outputs(c) + 4
        },
    decreases j,
{
    if j > 0 {
        lemma_encoder_batch_prefix(c, samples, j - 1);
        assert(samples.take(j).drop_last() =~= samples.take(j - 1));
        let prev = c.run(samples.take(j - 1)).0;
        lemma_encoder_step_wf(prev, samples.take(j).last());
        assert(header_bytes(prev.prev_sample, prev.stepsize_index).len() == 4);
        let st = prev.step(samples.take(j).last());
        assert(st.1.len() == (if prev.header_written { 0int } else { 4int }) + (if prev.half_byte_written { 1int } else { 0int }));
        assert(c.run(samples.take(j)).1 == c.run(samples.take(j - 1)).1 + st.1);
        assert((j - 1) / 2 + (if (j - 1) % 2 == 1 { 1int } else { 0int }) == j / 2);
        assert(prev.half_byte_written == ((j - 1) % 2 == 1));
        assert(j > 1 ==> prev.header_written);
        assert(j == 1 ==> prev == c);
    } else {
        assert(samples.take(0) =~= Seq::<i16>::empty());
    }
}

/// ## The core encoder of ADPCM-IMA for mono-channel
#[derive(Clone, Copy)]
pub struct EncoderCore {
    prev_sample: i16,
    stepsize_index: i8,
    nibble: u8,
    half_byte_written: bool,
    header_written: bool,
    num_outputs: usize,
}

impl View for EncoderCore {
    type V = EncoderCoreState;

    closed spec fn view(&self) -> EncoderCoreState {
        EncoderCoreState {
            prev_sample: self.prev_sample,
            stepsize_index: self.stepsize_index,
            nibble: self.nibble,
            half_byte_written: self.half_byte_written,
            header_written: self.header_written,
            num_outputs: self.num_outputs,
        }
    }
}

impl EncoderCore {
    /// The state of a new encoder.
    pub open spec fn new_spec() -> EncoderCoreState {
        EncoderCoreState {
            prev_sample: 0,
            stepsize_index: 0,
            nibble: 0,
            half_byte_written: false,
            header_written: false,
            num_outputs: 0,
        }
    }

    /// Set all of the members to zero.
    pub fn new() -> (r: Self)
        ensures
            r@ == Self::new_spec(),
            r@.wf(),
    {
        Self {
            prev_sample: 0,
            stepsize_index: 0,
            nibble: 0,
            half_byte_written: false,
            header_written: false,
            num_outputs: 0,
        }
    }

    /// * Encode one sample, get a nibble
    pub fn encode_sample(&mut self, sample: i16) -> (r: u8)
        requires
            old(self)@.wf(),
        ensures
            r == choose_nibble(old(self)@.prev_sample as int, old(self)@.stepsize_index as int, sample as int),
            r < 16,
            final(self)@ == (EncoderCoreState {
                prev_sample: next_sample(old(self)@.prev_sample as int, old(self)@.stepsize_index as int, r as int) as i16,
                stepsize_index: next_index(old(self)@.stepsize_index as int, r as int) as i8,
                ..old(self)@
            }),
    {
        proof {
            lemma_tables();
            lemma_choose_nibble(self.prev_sample as int, self.stepsize_index as int, sample as int);
        }
        let prev = self.prev_sample as i32;
        let stepsize = IMAADPCM_STEPSIZE_TABLE[self.stepsize_index as usize] as i32;
        let diff = sample as i32 - prev;
        let sign = diff < 0;
        let diffabs = if diff < 0 { -diff } else { diff };
        assert((diffabs << 2) == diffabs * 4) by (bit_vector) requires 0 <= diffabs <= 65535;
        let q = (diffabs << 2) / stepsize;
        let mut nibble: u8 = if q < 7 { q as u8 } else { 7 };
        if sign {
            assert(nibble | 8 == nibble + 8) by (bit_vector) requires nibble < 8;
            nibble |= 8;
        }
        let (p, i) = apply_nibble(self.prev_sample, self.stepsize_index, nibble);
        self.prev_sample = p;
        self.stepsize_index = i;
        nibble
    }

    /// Encodes one sample and appends what it writes.
    fn encode_one(&mut self, sample: i16, output: &mut Vec<u8>)
        requires
            old(self)@.wf(),
        ensures
            final(self)@ == old(self)@.step(sample).0,
            final(output)@ == old(output)@ + old(self)@.step(sample).1,
    {
        proof { lemma_encoder_step_wf(self@, sample); }
        let ghost s0 = self@;
        let ghost out0 = output@;
        if !self.header_written {
            let v = self.prev_sample as u16;
            output.push(self.prev_sample as u8);
            output.push((v >> 8u16) as u8);
            output.push(self.stepsize_index as u8);
            output.push(0);
            self.num_outputs += 4;
            self.header_written = true;
        }
        if !self.half_byte_written {
            self.nibble = self.encode_sample(sample);
            self.half_byte_written = true;
        } else {
            let n = self.encode_sample(sample);
            let lo = self.nibble;
            proof { lemma_pack_nibbles(lo, n); }
            self.nibble = lo | (n << 4u8);
            self.half_byte_written = false;
            output.push(self.nibble);
            self.num_outputs += 1;
            if self.num_outputs >= BLOCK_SIZE {
                // Reaches the block size limit; resets the encoder.
                self.prev_sample = sample;
                self.header_written = false;
                self.num_outputs = 0;
            }
        }
        assert(output@ =~= out0 + s0.step(sample).1);
    }

    /// ### Encoder logic:
    /// 1. Initially outputs 4 bytes of the decoder's state machine register values.
    /// 2. Processes samples by converting two raw samples into one encoded unit combined by two nibbles (a byte).
    pub fn encode(&mut self, input: &[i16], output: &mut Vec<u8>) -> (r: Result<(), AdpcmError>)
        requires
            old(self)@.wf(),
        ensures
            r is Ok,
            final(self)@ == old(self)@.run(input@).0,
            final(output)@ == old(output)@ + old(self)@.run(input@).1,
            final(self)@.wf(),
    {
        let ghost s0 = self@;
        let ghost out0 = output@;
        let mut i: usize = 0;
        while i < input.len()
            invariant
                s0.wf(),
                i <= input@.len(),
                self@ == s0.run(input@.take(i as int)).0,
                output@ == out0 + s0.run(input@.take(i as int)).1,
            decreases input@.len() - i,
        {
            proof {
                lemma_encoder_run_wf(s0, input@.take(i as int));
                assert(input@.take(i + 1).drop_last() =~= input@.take(i as int));
            }
            self.encode_one(input[i], output);
            i += 1;
            assert(output@ =~= out0 + s0.run(input@.take(i as int)).1);
        }
        assert(input@.take(i as int) =~= input@);
        proof { lemma_encoder_run_wf(s0, input@); }
        Ok(())
    }

    /// * Continue feeding zeroes to the encoder until it finishes processing a whole block of data.
    /// * Between blocks there is nothing to complete; within a block the pending half byte is
    ///   completed and the block is filled up to `BLOCK_SIZE` bytes, after which the encoder
    ///   waits for the next block.
    pub fn flush(&mut self, output: &mut Vec<u8>) -> (r: Result<(), AdpcmError>)
        requires
            old(self)@.wf(),
        ensures
            r is Ok,
            final(self)@ == old(self)@.run(zero_samples(block_fill(old(self)@))).0,
            final(output)@ == old(output)@ + old(self)@.run(zero_samples(block_fill(old(self)@))).1,
            final(self)@.wf(),
            !final(self)@.header_written,
            !final(self)@.half_byte_written,
            final(self)@.num_outputs == 0,
            old(self)@.header_written ==> old(self)@.num_outputs + (final(output)@.len() - old(output)@.len()) == BLOCK_SIZE,
            !old(self)@.header_written ==> final(output)@ == old(output)@ && final(self)@ == old(self)@,
    {
        proof {
            if self@.header_written {
                lemma_block_fill(self@, block_fill(self@));
            } else {
                assert(zero_samples(0) =~= Seq::<i16>::empty());
            }
        }
        if self.header_written {
            let half: usize = if self.half_byte_written { 1 } else { 0 };
            let n = 2 * (BLOCK_SIZE - self.num_outputs) - half;
            let zeros = vec![0i16; n];
            assert(zeros@ =~= zero_samples(block_fill(self@)));
            self.encode(&zeros, output)
        } else {
            assert(output@ =~= old(output)@ + Seq::<u8>::empty());
            Ok(())
        }
    }
}


/// Feeding zero samples to an encoder within a block: each pair completes a byte, and the
/// `block_fill` zeros complete the block, after which the encoder waits for the next one.
pub proof fn lemma_block_fill(e: EncoderCoreState, j: int)
    requires
        e.wf(),
        e.header_written,
        0 <= j <= block_fill(e),
    ensures
        ({
            let h: int = if e.half_byte_written { 1 } else { 0 };
            let (s, o) = e.run(zero_samples(j));
            &&& s.wf()
            &&& o.len() == (h + j) / 2
            &&& j < block_fill(e) ==> s.header_written && s.num_outputs == e.num_outputs + (h + j) / 2
                && s.half_byte_written == ((h + j) % 2 == 1)
            &&& j == block_fill(e) ==> !s.header_written && !s.half_byte_written && s.num_outputs == 0
        }),
    decreases j,
{
    if j == 0 {
        assert(zero_samples(0) =~= Seq::<i16>::empty());
    } else {
        lemma_block_fill(e, j - 1);
        assert(zero_samples(j).drop_last() =~= zero_samples(j - 1));
        assert(zero_samples(j).last() == 0i16);
        let sp = e.run(zero_samples(j - 1)).0;
        lemma_encoder_step_wf(sp, 0);
    }
}

/// The little-endian `i16` made of two bytes.
pub open spec fn i16_from_le(lo: u8, hi: u8) -> i16 {
    (lo as u16 + (hi as u16) * 256) as i16
}

/// Builds an `i16` from its little-endian bytes.
pub fn i16_from_le_bytes(lo: u8, hi: u8) -> (r: i16)
    ensures
        r == i16_from_le(lo, hi),
{
    let v: u16 = (lo as u16) | ((hi as u16) << 8u16);
    assert((lo as u16) | ((hi as u16) << 8u16) == (lo as u16 + (hi as u16) * 256) as u16) by (bit_vector);
    v as i16
}

/// The 8 samples decoded from 4 bytes, each byte low nibble first, from the state `(sample, index)`;
/// `None` where a step-size index leaves the table.
pub open spec fn decode_group(sample: i16, index: i8, bytes: Seq<u8>) -> Option<(i16, i8, Seq<i16>)>
    decreases bytes.len(),
{
    if bytes.len() == 0 {
        Some((sample, index, Seq::<i16>::empty()))
    } else {
        match decode_group(sample, index, bytes.drop_last()) {
            Some((s1, i1, o1)) => {
                let b = bytes.last();
                if !(0 <= i1 <= 88) {
                    None
                } else {
                    let s2 = next_sample(s1 as int, i1 as int, (b % 16) as int) as i16;
                    let i2 = next_index(i1 as int, (b % 16) as int) as i8;
                    let s3 = next_sample(s2 as int, i2 as int, (b / 16) as int) as i16;
                    let i3 = next_index(i2 as int, (b / 16) as int) as i8;
                    Some((s3, i3, o1.push(s2).push(s3)))
                }
            },
            None => None,
        }
    }
}

/// The state of a mono ADPCM-IMA decoder, as plain values.
pub struct DecoderCoreState {
    /// The predictor.
    pub sample_val: i16,
    /// The step-size index.
    pub stepsize_index: i8,
    /// Whether the block header was read.
    pub ready: bool,
    /// The bytes waiting for a complete group (or header).
    pub nibble_buffer: Seq<u8>,
    /// The bytes of the current block read so far.
    pub input_count: usize,
    /// The bytes of one block for one channel.
    pub block_size: usize,
}

impl DecoderCoreState {
    /// The state invariant of the decoder.
    pub open spec fn wf(self) -> bool {
        &&& self.nibble_buffer.len() <= 4
        &&& self.block_size <= 0xFFFF
        &&& !self.ready ==> self.input_count == self.nibble_buffer.len()
        &&& self.ready ==> self.nibble_buffer.len() < 4 && self.input_count <= self.block_size + 4 + self.nibble_buffer.len()
        &&& self.ready ==> 0 <= self.stepsize_index <= 88
    }

    /// The decoder can take another byte: no error left a complete header waiting.
    pub open spec fn takes_input(self) -> bool {
        self.nibble_buffer.len() < 4
    }

    /// Feeding zero bytes completes the header being read with a valid step-size index: the
    /// decoder is within a block, or has not yet read the index byte, or read a valid one.
    pub open spec fn flush_succeeds(self) -> bool {
        self.ready || self.nibble_buffer.len() < 3 || 0 <= (self.nibble_buffer[2] as i8) <= 88
    }

    /// The decoder is between blocks.
    pub open spec fn on_new_block(self) -> bool {
        !self.ready && self.input_count == 0
    }

    /// The state after `unready`.
    pub open spec fn unready(self) -> DecoderCoreState {
        DecoderCoreState {
            sample_val: 0,
            stepsize_index: 0,
            ready: false,
            nibble_buffer: Seq::<u8>::empty(),
            input_count: 0,
            block_size: self.block_size,
        }
    }

    /// Decodes one byte: four bytes of header set the predictor and give its sample; after that,
    /// every four bytes give eight samples, and a full block makes the decoder wait for a header.
    pub open spec fn step(self, byte: u8) -> Flow<DecoderCoreState, i16> {
        let buf = self.nibble_buffer.push(byte);
        let count = (self.input_count + 1) as usize;
        if buf.len() > 4 {
            Flow::Panics
        } else if !self.ready {
            if buf.len() < 4 {
                Flow::Going(DecoderCoreState { nibble_buffer: buf, input_count: count, ..self }, Seq::empty())
            } else {
                let sample = i16_from_le(buf[0], buf[1]);
                let index = buf[2] as i8;
                if buf[3] != 0 {
                    Flow::Stopped(
                        DecoderCoreState { sample_val: sample, stepsize_index: index, nibble_buffer: buf, input_count: count, ..self },
                        Seq::empty(),
                        AdpcmError::ReservedByteNotZero(buf[3]),
                    )
                } else if !(0 <= index <= 88) {
                    Flow::Stopped(
                        DecoderCoreState { sample_val: sample, stepsize_index: index, nibble_buffer: buf, input_count: count, ..self },
                        Seq::empty(),
                        AdpcmError::StepIndexOutOfRange(buf[2]),
                    )
                } else {
                    Flow::Going(
                        DecoderCoreState {
                            sample_val: sample,
                            stepsize_index: index,
                            ready: true,
                            nibble_buffer: Seq::empty(),
                            input_count: count,
                            block_size: self.block_size,
                        },
                        seq![sample],
                    )
                }
            }
        } else if buf.len() < 4 {
            Flow::Going(DecoderCoreState { nibble_buffer: buf, input_count: count, ..self }, Seq::empty())
        } else {
            match decode_group(self.sample_val, self.stepsize_index, buf) {
                None => Flow::Panics,
                Some((sample, index, out)) => {
                    let s = DecoderCoreState {
                        sample_val: sample,
                        stepsize_index: index,
                        ready: true,
                        nibble_buffer: Seq::empty(),
                        input_count: count,
                        block_size: self.block_size,
                    };
                    if count >= self.block_size {
                        Flow::Going(s.unready(), out)
                    } else {
                        Flow::Going(s, out)
                    }
                },
            }
        }
    }

    /// Decodes the bytes in order.
    pub open spec fn run(self, input: Seq<u8>) -> Flow<DecoderCoreState, i16>
        decreases input.len(),
    {
        if input.len() == 0 {
            Flow::Going(self, Seq::empty())
        } else {
            match self.run(input.drop_last()) {
                Flow::Going(s1, o1) => match s1.step(input.last()) {
                    Flow::Going(s2, o2) => Flow::Going(s2, o1 + o2),
                    Flow::Stopped(s2, o2, e) => Flow::Stopped(s2, o1 + o2, e),
                    Flow::Panics => Flow::Panics,
                },
                other => other,
            }
        }
    }
}

impl DecoderCoreState {
    /// Bounds the zero bytes that `flush` feeds before the decoder reaches a block boundary.
    pub open spec fn flush_measure(self) -> nat {
        if self.on_new_block() {
            0
        } else if !self.ready {
            (2 * (self.block_size + 8) + 8 - self.input_count) as nat
        } else {
            (self.block_size + 8 - self.input_count) as nat
        }
    }

    /// Feeds zero bytes until the decoder is at a block boundary.
    pub open spec fn flush_flow(self) -> Flow<DecoderCoreState, i16>
        decreases self.flush_measure(),
    {
        if self.on_new_block() {
            Flow::Going(self, Seq::empty())
        } else {
            match self.step(0) {
                Flow::Going(s2, o) => if s2.flush_measure() < self.flush_measure() {
                    s2.flush_flow().after(o)
                } else {
                    Flow::Going(s2, o)
                },
                other => other,
            }
        }
    }
}

/// Each zero byte that `flush` feeds brings a well-formed decoder closer to a block boundary.
pub proof fn lemma_flush_measure_decreases(s: DecoderCoreState)
    requires
        s.wf(),
        !s.on_new_block(),
    ensures
        s.step(0) matches Flow::Going(s2, _) ==> s2.flush_measure() < s.flush_measure(),
{
}

/// A step from a well-formed state that does not panic keeps the state well formed.
pub proof fn lemma_decoder_step_wf(s: DecoderCoreState, byte: u8)
    requires
        s.wf(),
    ensures
        s.step(byte) matches Flow::Going(s2, _) ==> s2.wf(),
        s.step(byte) matches Flow::Stopped(s2, _, _) ==> s2.nibble_buffer.len() == 4 && !s2.ready && s2.wf(),
{
}

/// A run that does not panic keeps a well-formed state well formed.
pub proof fn lemma_decoder_run_wf(s: DecoderCoreState, input: Seq<u8>)
    requires
        s.wf(),
    ensures
        s.run(input) matches Flow::Going(s2, _) ==> s2.wf(),
        s.run(input) matches Flow::Stopped(s2, _, _) ==> s2.wf(),
    decreases input.len(),
{
    if input.len() > 0 {
        lemma_decoder_run_wf(s, input.drop_last());
        if let Flow::Going(s1, _) = s.run(input.drop_last()) {
            lemma_decoder_step_wf(s1, input.last());
        }
    }
}


/// The block size per channel that a `fmt ` chunk gives.
pub open spec fn channel_block_size(fmt: FmtChunk) -> usize {
    (fmt.block_align / fmt.channels) as usize
}

/// ### Decoder logic:
/// * Data is stored as interleaved u32 values across channels.
/// * For each channel, the first u32 initializes the decoder state.
/// * Each subsequent u32 (4 bytes) decodes into 8 compressed nibbles (4-bit samples).
#[derive(Clone, Copy)]
pub struct DecoderCore {
    sample_val: i16,
    stepsize_index: i8,
    ready: bool,
    nibble_buffer: CopiableBuffer<u8, INTERLEAVE_BYTES>,
    input_count: usize,
    block_size: usize,
}

impl View for DecoderCore {
    type V = DecoderCoreState;

    closed spec fn view(&self) -> DecoderCoreState {
        DecoderCoreState {
            sample_val: self.sample_val,
            stepsize_index: self.stepsize_index,
            ready: self.ready,
            nibble_buffer: self.nibble_buffer@,
            input_count: self.input_count,
            block_size: self.block_size,
        }
    }
}

impl DecoderCore {
    /// The state of a new decoder for a `fmt ` chunk.
    pub open spec fn new_spec(fmt_chunk: FmtChunk) -> DecoderCoreState {
        DecoderCoreState {
            sample_val: 0,
            stepsize_index: 0,
            ready: false,
            nibble_buffer: Seq::empty(),
            input_count: 0,
            block_size: channel_block_size(fmt_chunk),
        }
    }

    pub fn new(fmt_chunk: FmtChunk) -> (r: Self)
        requires
            fmt_chunk.channels > 0,
        ensures
            r@ == Self::new_spec(fmt_chunk),
            r@.wf(),
    {
        Self {
            sample_val: 0,
            stepsize_index: 0,
            ready: false,
            nibble_buffer: CopiableBuffer::new(),
            input_count: 0,
            block_size: (fmt_chunk.block_align / fmt_chunk.channels) as usize,
        }
    }

    /// Decode one sample
    pub fn decode_sample(&mut self, nibble: u8) -> (r: i16)
        requires
            0 <= old(self)@.stepsize_index <= 88,
            nibble < 16,
        ensures
            r == next_sample(old(self)@.sample_val as int, old(self)@.stepsize_index as int, nibble as int),
            final(self)@ == (DecoderCoreState {
                sample_val: r,
                stepsize_index: next_index(old(self)@.stepsize_index as int, nibble as int) as i8,
                ..old(self)@
            }),
    {
        let (p, i) = apply_nibble(self.sample_val, self.stepsize_index, nibble);
        self.sample_val = p;
        self.stepsize_index = i;
        self.sample_val
    }

    /// Decodes one byte and appends the samples it completes.
    fn decode_one(&mut self, byte: u8, output: &mut Vec<i16>) -> (r: Result<(), AdpcmError>)
        requires
            old(self)@.wf(),
            !(old(self)@.step(byte) is Panics),
        ensures
            old(self)@.step(byte) matches Flow::Going(s, o) ==> r is Ok && final(self)@ == s
                && final(output)@ == old(output)@ + o,
            old(self)@.step(byte) matches Flow::Stopped(s, o, e) ==> r == Err::<(), AdpcmError>(e)
                && final(self)@ == s && final(output)@ == old(output)@ + o,
    {
        let ghost s0 = self@;
        let ghost out0 = output@;
        if !self.ready {
            // Consumes 4 bytes to initialize the decoder state and generates the first decoded sample.
            self.nibble_buffer.push(byte);
            self.input_count += 1;
            if self.nibble_buffer.is_full() {
                self.sample_val = i16_from_le_bytes(self.nibble_buffer.get(0), self.nibble_buffer.get(1));
                self.stepsize_index = self.nibble_buffer.get(2) as i8;
                let reserved = self.nibble_buffer.get(3);
                if reserved != 0 {
                    return Err(AdpcmError::ReservedByteNotZero(reserved));
                }
                if self.stepsize_index < 0 || self.stepsize_index > 88 {
                    return Err(AdpcmError::StepIndexOutOfRange(self.nibble_buffer.get(2)));
                }
                self.nibble_buffer.clear();
                self.ready = true;
                output.push(self.sample_val);
            }
        } else {
            self.nibble_buffer.push(byte);
            self.input_count += 1;
            // Every 4 bytes (8 nibbles) decode to 8 samples.
            if self.nibble_buffer.is_full() {
                let ghost buf = self.nibble_buffer@;
                let mut k: usize = 0;
                while k < 4
                    invariant
                        0 <= k <= 4,
                        buf.len() == 4,
                        self.nibble_buffer@ == buf,
                        self.input_count == s0.input_count + 1,
                        self.block_size == s0.block_size,
                        self.ready,
                        decode_group(s0.sample_val, s0.stepsize_index, buf) is Some,
                        decode_group(s0.sample_val, s0.stepsize_index, buf.take(k as int)) == Some(
                            (self.sample_val, self.stepsize_index, output@.skip(out0.len() as int))),
                        output@.len() >= out0.len(),
                        output@.take(out0.len() as int) == out0,
                    decreases 4 - k,
                {
                    proof {
                        assert(buf.take(k + 1).drop_last() =~= buf.take(k as int));
                        lemma_decode_group_prefix(s0.sample_val, s0.stepsize_index, buf, k + 1);
                    }
                    let b = self.nibble_buffer.get(k);
                    proof { lemma_nibbles(b); }
                    let v1 = self.decode_sample(b & 0xF);
                    output.push(v1);
                    let v2 = self.decode_sample(b >> 4u8);
                    output.push(v2);
                    k += 1;
                    assert(output@.skip(out0.len() as int) =~= output@.skip(out0.len() as int).drop_last().drop_last().push(v1).push(v2));
                    assert(output@.take(out0.len() as int) =~= out0);
                }
                assert(buf.take(4) =~= buf);
                self.nibble_buffer.clear();
                if self.input_count >= self.block_size {
                    self.unready()
                }
            }
        }
        assert(output@ =~= out0 + output@.skip(out0.len() as int));
        Ok(())
    }

    /// * This `decode()` function needs 4 initial bytes to initialize, after being initialized, every 4 bytes decodes to 8 samples.
    pub fn decode(&mut self, input: &[u8], output: &mut Vec<i16>) -> (r: Result<(), AdpcmError>)
        requires
            old(self)@.wf(),
            !(old(self)@.run(input@) is Panics),
        ensures
            old(self)@.run(input@) matches Flow::Going(s, o) ==> r is Ok && final(self)@ == s
                && final(output)@ == old(output)@ + o,
            old(self)@.run(input@) matches Flow::Stopped(s, o, e) ==> r == Err::<(), AdpcmError>(e)
                && final(self)@ == s && final(output)@ == old(output)@ + o,
    {
        let ghost s0 = self@;
        let ghost out0 = output@;
        let mut i: usize = 0;
        proof { lemma_decoder_run_prefix(s0, input@, 0); }
        while i < input.len()
            invariant
                s0 == old(self)@,
                out0 == old(output)@,
                s0.wf(),
                i <= input@.len(),
                !(s0.run(input@) is Panics),
                s0.run(input@.take(i as int)) matches Flow::Going(s, o) && self@ == s && output@ == out0 + o,
                s0.run(input@.take(i as int)) matches Flow::Going(s, _) && s.wf(),
            decreases input@.len() - i,
        {
            proof {
                assert(input@.take(i + 1).drop_last() =~= input@.take(i as int));
                assert(input@.take(i + 1).last() == input@[i as int]);
                lemma_decoder_run_prefix(s0, input@, i + 1);
            }
            let ghost out_before = output@;
            let res = self.decode_one(input[i], output);
            proof {
                let o1 = s0.run(input@.take(i as int))->Going_1;
                match self_step_flow(s0, input@, i as int) {
                    Flow::Stopped(_, o2, _) => {
                        assert(output@ =~= out0 + (o1 + o2));
                    },
                    _ => {},
                }
            }
            proof { lemma_decoder_run_wf(s0, input@.take(i + 1)); }
            match res {
                Err(e) => {
                    proof {
                        let st = self_step_flow(s0, input@, i as int);
                        assert(st is Stopped);
                        assert(s0.run(input@.take(i + 1)) is Stopped);
                        lemma_decoder_run_stopped(s0, input@, i + 1);
                        assert(s0.run(input@) == s0.run(input@.take(i + 1)));
                        assert(self@ == s0.run(input@)->Stopped_0);
                        assert(e == s0.run(input@)->Stopped_2);
                        assert(output@ == out0 + s0.run(input@)->Stopped_1);
                    }
                    return Err(e);
                },
                Ok(()) => {},
            }
            i += 1;
            assert(output@ =~= out0 + s0.run(input@.take(i as int))->Going_1);
        }
        assert(input@.take(i as int) =~= input@);
        Ok(())
    }

    /// * Continuous feeding the decoder zero data until it finished decoding a whole block.
    /// * It ends at a block boundary, and without an error unless the header being read has a
    ///   step-size index out of the table.
    pub fn flush(&mut self, output: &mut Vec<i16>) -> (r: Result<(), AdpcmError>)
        requires
            old(self)@.wf(),
            !(old(self)@.flush_flow() is Panics),
        ensures
            r is Ok ==> final(self)@.on_new_block(),
            old(self)@.takes_input() && old(self)@.flush_succeeds() ==> r is Ok,
            old(self)@.flush_flow() matches Flow::Going(s, o) ==> r is Ok && final(self)@ == s
                && final(output)@ == old(output)@ + o,
            old(self)@.flush_flow() matches Flow::Stopped(s, o, e) ==> r == Err::<(), AdpcmError>(e)
                && final(self)@ == s && final(output)@ == old(output)@ + o,
    {
        proof {
            if self@.takes_input() && self@.flush_succeeds() {
                lemma_flush_succeeds(self@);
            }
        }
        let ghost s0 = self@;
        let ghost out0 = output@;
        while !self.on_new_block()
            invariant
                s0 == old(self)@,
                out0 == old(output)@,
                self@.wf(),
                output@.len() >= out0.len(),
                output@.take(out0.len() as int) == out0,
                s0.flush_flow() == self@.flush_flow().after(output@.skip(out0.len() as int)),
                !(s0.flush_flow() is Panics),
                s0.takes_input() && s0.flush_succeeds() ==> s0.flush_flow() is Going,
            decreases self@.flush_measure(),
        {
            let ghost s1 = self@;
            let ghost done = output@.skip(out0.len() as int);
            let zero: [u8; 1] = [0];
            proof {
                lemma_flush_measure_decreases(s1);
                lemma_decoder_run_single(s1, 0);
                assert(zero@ =~= seq![0u8]);
                assert(!(s1.flush_flow() is Panics));
                assert(!(s1.step(0) is Panics));
            }
            let res = self.decode(&zero, output);
            proof {
                lemma_decoder_step_wf(s1, 0);
                match s1.step(0) {
                    Flow::Going(s2, o) => {
                        assert(output@.skip(out0.len() as int) =~= done + o);
                        assert(output@.take(out0.len() as int) =~= out0);
                        assert(s1.flush_flow() == s2.flush_flow().after(o));
                        lemma_after_after(s2.flush_flow(), done, o);
                    },
                    Flow::Stopped(s2, o, e) => {
                        assert(output@ =~= out0 + (done + o));
                    },
                    Flow::Panics => {},
                }
            }
            match res {
                Err(e) => {
                    return Err(e);
                },
                Ok(()) => {},
            }
        }
        assert(output@ =~= out0 + output@.skip(out0.len() as int));
        Ok(())
    }

    /// * Check if one block of data was fully decoded (at the beginning of a new block)
    pub fn on_new_block(&self) -> (r: bool)
        ensures
            r == self@.on_new_block(),
    {
        !self.ready && self.input_count == 0
    }

    /// * Uninitialize the decoder. Every time it finishes decoding a block, it needs to be uninitialized.
    /// * Another usage is for seeking. Before seeking, `unready()` should be called to uninitialize the decoder.
    pub fn unready(&mut self)
        ensures
            final(self)@ == old(self)@.unready(),
    {
        self.sample_val = 0;
        self.stepsize_index = 0;
        self.nibble_buffer.clear();
        self.input_count = 0;
        self.ready = false;
    }
}

spec fn self_step_flow(s0: DecoderCoreState, input: Seq<u8>, i: int) -> Flow<DecoderCoreState, i16> {
    s0.run(input.take(i))->Going_0.step(input[i])
}

/// Running the decoder over one byte is one step.
pub proof fn lemma_decoder_run_single(s: DecoderCoreState, b: u8)
    ensures
        s.run(seq![b]) == s.step(b),
{
    assert(seq![b].drop_last() =~= Seq::<u8>::empty());
    assert(seq![b].last() == b);
    assert(s.run(seq![b].drop_last()) == Flow::<DecoderCoreState, i16>::Going(s, Seq::empty()));
    match s.step(b) {
        Flow::Going(s2, o) => { assert(Seq::<i16>::empty() + o =~= o); },
        Flow::Stopped(s2, o, e) => { assert(Seq::<i16>::empty() + o =~= o); },
        Flow::Panics => {},
    }
}

/// From a step-size index in the table, a group always decodes and its index stays in the table.
pub proof fn lemma_decode_group_in_table(sample: i16, index: i8, bytes: Seq<u8>)
    requires
        0 <= index <= 88,
    ensures
        decode_group(sample, index, bytes) is Some,
        0 <= decode_group(sample, index, bytes)->Some_0.1 <= 88,
    decreases bytes.len(),
{
    if bytes.len() > 0 {
        lemma_decode_group_in_table(sample, index, bytes.drop_last());
    }
}

/// A step from a decoder that takes input never panics, and one that goes on leaves a decoder
/// that takes input.
pub proof fn lemma_decoder_step_no_panic(s: DecoderCoreState, byte: u8)
    requires
        s.wf(),
        s.takes_input(),
    ensures
        !(s.step(byte) is Panics),
        s.step(byte) matches Flow::Going(s2, _) ==> s2.wf() && s2.takes_input(),
{
    if s.ready {
        lemma_decode_group_in_table(s.sample_val, s.stepsize_index, s.nibble_buffer.push(byte));
    }
    lemma_decoder_step_wf(s, byte);
}

/// A decoder that takes input decodes any bytes without panicking: corrupt data gives an error.
pub proof fn lemma_decoder_never_panics(s: DecoderCoreState, input: Seq<u8>)
    requires
        s.wf(),
        s.takes_input(),
    ensures
        !(s.run(input) is Panics),
        s.run(input) matches Flow::Going(s2, _) ==> s2.wf() && s2.takes_input(),
    decreases input.len(),
{
    if input.len() > 0 {
        lemma_decoder_never_panics(s, input.drop_last());
        if let Flow::Going(s1, _) = s.run(input.drop_last()) {
            lemma_decoder_step_no_panic(s1, input.last());
        }
    }
}

/// `flush` from a decoder that takes input and completes its header with a valid index ends at
/// a block boundary without an error.
pub proof fn lemma_flush_succeeds(s: DecoderCoreState)
    requires
        s.wf(),
        s.takes_input(),
        s.flush_succeeds(),
    ensures
        s.flush_flow() matches Flow::Going(s2, _) && s2.on_new_block(),
    decreases s.flush_measure(),
{
    if !s.on_new_block() {
        lemma_decoder_step_no_panic(s, 0);
        lemma_flush_measure_decreases(s);
        if s.ready {
            lemma_decode_group_in_table(s.sample_val, s.stepsize_index, s.nibble_buffer.push(0));
        }
        match s.step(0) {
            Flow::Going(s2, o) => {
                lemma_flush_succeeds(s2);
            },
            _ => {},
        }
    }
}

/// The 16-bit two's complement value of the unsigned 16-bit number `v`.
pub open spec fn twos_complement_16(v: int) -> int {
    if v >= 32768 { v - 65536 } else { v }
}

/// A decoder between blocks that reads the header bytes `[lo, hi, index, 0]`, with a step-size
/// index in the table, takes the little-endian predictor `lo + 256 * hi` (as a 16-bit two's
/// complement number), outputs it, and is then within the block with that predictor and index.
pub proof fn lemma_decoder_reads_little_endian_header(d: DecoderCoreState, lo: u8, hi: u8, index: u8)
    requires
        d.wf(),
        !d.ready,
        d.nibble_buffer.len() == 0,
        index <= 88,
    ensures
        d.run(seq![lo, hi, index, 0u8]) matches Flow::Going(d2, o) && o.len() == 1
            && o[0] as int == twos_complement_16(lo + 256 * hi)
            && d2.ready && d2.sample_val as int == twos_complement_16(lo + 256 * hi)
            && d2.stepsize_index == index,
{
    let b = seq![lo, hi, index, 0u8];
    assert(b.drop_last() =~= seq![lo, hi, index]);
    assert(seq![lo, hi, index].drop_last() =~= seq![lo, hi]);
    assert(seq![lo, hi].drop_last() =~= seq![lo]);
    assert(seq![lo].drop_last() =~= Seq::<u8>::empty());
    let v: u16 = (lo as u16 + (hi as u16) * 256) as u16;
    assert(lo + (hi as u16) * 256 <= 65535);
    assert((v as i16) as int == if v >= 32768 { v - 65536 } else { v as int }) by (bit_vector);
    assert(d.run(Seq::<u8>::empty()) == Flow::<DecoderCoreState, i16>::Going(d, Seq::empty()));
    let r1 = d.run(seq![lo]);
    let r2 = d.run(seq![lo, hi]);
    let r3 = d.run(seq![lo, hi, index]);
    assert(r1 matches Flow::Going(d1, o1) && d1.nibble_buffer == seq![lo] && !d1.ready && o1.len() == 0);
    assert(r2 matches Flow::Going(d1, o1) && d1.nibble_buffer =~= seq![lo, hi] && !d1.ready && o1.len() == 0);
    assert(r3 matches Flow::Going(d1, o1) && d1.nibble_buffer =~= seq![lo, hi, index] && !d1.ready && o1.len() == 0);
    assert(((index as u8) as i8) as int == index as int) by (bit_vector)
        requires index <= 88;
}

/// Within a block, an encoder packs two samples into one byte, the first one's nibble low: the
/// low nibble is the nibble chosen for the first sample, the high one that chosen for the second
/// from the predictor and index the first left.
pub proof fn lemma_encoder_low_nibble_first(e: EncoderCoreState, x: i16, y: i16)
    requires
        e.wf(),
        e.header_written,
        !e.half_byte_written,
    ensures
        ({
            let (e1, o1) = e.step(x);
            let o2 = e1.step(y).1;
            let nx = choose_nibble(e.prev_sample as int, e.stepsize_index as int, x as int);
            let ny = choose_nibble(
                next_sample(e.prev_sample as int, e.stepsize_index as int, nx),
                next_index(e.stepsize_index as int, nx),
                y as int,
            );
            &&& o1.len() == 0
            &&& o2.len() == 1
            &&& o2[0] % 16 == nx
            &&& o2[0] / 16 == ny
        }),
{
    lemma_tables();
    let nx = choose_nibble(e.prev_sample as int, e.stepsize_index as int, x as int);
    lemma_choose_nibble(e.prev_sample as int, e.stepsize_index as int, x as int);
    lemma_encoder_step_wf(e, x);
    let e1 = e.step(x).0;
    lemma_choose_nibble(e1.prev_sample as int, e1.stepsize_index as int, y as int);
    let ny = choose_nibble(e1.prev_sample as int, e1.stepsize_index as int, y as int);
    assert((nx + ny * 16) % 16 == nx && (nx + ny * 16) / 16 == ny) by (nonlinear_arith)
        requires 0 <= nx < 16, 0 <= ny < 16;
}

/// The header that an encoder writes before the first sample of a block: the predictor
/// little-endian (its 16-bit two's complement `u` as `[u % 256, u / 256]`), then the step-size
/// index and a zero byte.
pub proof fn lemma_encoder_writes_little_endian_header(e: EncoderCoreState, sample: i16)
    requires
        e.wf(),
        !e.header_written,
    ensures
        ({
            let out = e.step(sample).1;
            let u: int = if e.prev_sample < 0 { e.prev_sample + 65536 } else { e.prev_sample as int };
            &&& out.len() >= 4
            &&& out[0] as int == u % 256
            &&& out[1] as int == u / 256
            &&& out[2] as int == e.stepsize_index as int
            &&& out[3] == 0
        }),
{
    let p = e.prev_sample;
    assert((p as u8) as int == (if p < 0 { p + 65536 } else { p as int }) % 256) by (bit_vector);
    assert((((p as u16) >> 8u16) as u8) as int == (if p < 0 { p + 65536 } else { p as int }) / 256) by (bit_vector);
    let i = e.stepsize_index;
    assert((i as u8) as int == i as int) by (bit_vector)
        requires 0 <= i <= 88;
}

/// Within a block, a decoder decodes four bytes into eight samples, each byte low nibble first:
/// the first sample applies the low nibble of the first byte to the predictor and index, the
/// second applies its high nibble to what the first left.
pub proof fn lemma_decoder_low_nibble_first(d: DecoderCoreState, b0: u8, b1: u8, b2: u8, b3: u8)
    requires
        d.wf(),
        d.ready,
        d.nibble_buffer.len() == 0,
    ensures
        d.run(seq![b0, b1, b2, b3]) matches Flow::Going(_, o) && o.len() == 8
            && o[0] == next_sample(d.sample_val as int, d.stepsize_index as int, (b0 % 16) as int) as i16
            && o[1] == next_sample(o[0] as int, next_index(d.stepsize_index as int, (b0 % 16) as int), (b0 / 16) as int) as i16,
{
    let b = seq![b0, b1, b2, b3];
    assert(b.drop_last() =~= seq![b0, b1, b2]);
    assert(seq![b0, b1, b2].drop_last() =~= seq![b0, b1]);
    assert(seq![b0, b1].drop_last() =~= seq![b0]);
    assert(seq![b0].drop_last() =~= Seq::<u8>::empty());
    assert(d.run(Seq::<u8>::empty()) == Flow::<DecoderCoreState, i16>::Going(d, Seq::empty()));
    let r1 = d.run(seq![b0]);
    let r2 = d.run(seq![b0, b1]);
    let r3 = d.run(seq![b0, b1, b2]);
    assert(r1 matches Flow::Going(d1, o1) && d1.nibble_buffer == seq![b0] && d1.ready && o1.len() == 0
        && d1.sample_val == d.sample_val && d1.stepsize_index == d.stepsize_index);
    assert(r2 matches Flow::Going(d1, o1) && d1.nibble_buffer =~= seq![b0, b1] && d1.ready && o1.len() == 0
        && d1.sample_val == d.sample_val && d1.stepsize_index == d.stepsize_index);
    assert(r3 matches Flow::Going(d1, o1) && d1.nibble_buffer =~= seq![b0, b1, b2] && d1.ready && o1.len() == 0
        && d1.sample_val == d.sample_val && d1.stepsize_index == d.stepsize_index);
    lemma_decode_group_in_table(d.sample_val, d.stepsize_index, b);
    lemma_decode_group_len(d.sample_val, d.stepsize_index, b);
    reveal_with_fuel(decode_group, 5);
    assert(b.drop_last().drop_last().drop_last() =~= seq![b0]);
    assert(seq![b0, b1, b2].drop_last().drop_last() =~= seq![b0]);
    lemma_decode_group_prefix(d.sample_val, d.stepsize_index, b, 1);
    lemma_decode_group_prefix(d.sample_val, d.stepsize_index, b, 2);
    lemma_decode_group_prefix(d.sample_val, d.stepsize_index, b, 3);
    assert(b.take(1) =~= seq![b0]);
    assert(b.take(2) =~= seq![b0, b1]);
    assert(b.take(3) =~= seq![b0, b1, b2]);
}

/// A prefix of a successful group decode is successful, and one more byte extends it.
proof fn lemma_decode_group_prefix(sample: i16, index: i8, bytes: Seq<u8>, k: int)
    requires
        0 <= k <= bytes.len(),
        decode_group(sample, index, bytes) is Some,
    ensures
        decode_group(sample, index, bytes.take(k)) is Some,
    decreases bytes.len(),
{
    if k < bytes.len() {
        assert(bytes.drop_last().take(k) =~= bytes.take(k));
        lemma_decode_group_prefix(sample, index, bytes.drop_last(), k);
    } else {
        assert(bytes.take(k) =~= bytes);
    }
}

/// A run that does not panic has prefixes that do not panic.
pub proof fn lemma_decoder_run_prefix(s: DecoderCoreState, input: Seq<u8>, k: int)
    requires
        0 <= k <= input.len(),
        !(s.run(input) is Panics),
    ensures
        !(s.run(input.take(k)) is Panics),
        s.run(input.take(k)) is Stopped ==> s.run(input) == s.run(input.take(k)),
    decreases input.len(),
{
    if k < input.len() {
        assert(input.drop_last().take(k) =~= input.take(k));
        lemma_decoder_run_prefix(s, input.drop_last(), k);
    } else {
        assert(input.take(k) =~= input);
    }
}

/// Once a run stops, more input does not change how it ends.
pub proof fn lemma_decoder_run_stopped(s: DecoderCoreState, input: Seq<u8>, k: int)
    requires
        0 <= k <= input.len(),
        !(s.run(input) is Panics),
        s.run(input.take(k)) is Stopped,
    ensures
        s.run(input) == s.run(input.take(k)),
{
    lemma_decoder_run_prefix(s, input, k);
}


/// Hands out runs of four bytes from each channel in turn while both channels have one;
/// gives the bytes handed out and what stays of each channel.
pub open spec fn drain(nl: Seq<u8>, nr: Seq<u8>) -> (Seq<u8>, Seq<u8>, Seq<u8>)
    decreases nl.len(),
{
    if nl.len() >= 4 && nr.len() >= 4 {
        let (o, a, b) = drain(nl.skip(4), nr.skip(4));
        (nl.take(4) + nr.take(4) + o, a, b)
    } else {
        (Seq::<u8>::empty(), nl, nr)
    }
}

/// The state of a stereo ADPCM-IMA encoder, as plain values.
pub struct StereoEncoderState {
    /// The channel the next sample belongs to.
    pub current_channel: CurrentChannel,
    pub core_l: EncoderCoreState,
    pub core_r: EncoderCoreState,
    /// Samples of each channel waiting for a run of eight.
    pub sample_l: Seq<i16>,
    pub sample_r: Seq<i16>,
    /// Bytes of each channel waiting to be interleaved.
    pub nibble_l: Seq<u8>,
    pub nibble_r: Seq<u8>,
}

impl StereoEncoderState {
    /// The state invariant: both cores stand at the same four-byte boundary of their blocks,
    /// no bytes wait, and the channels' pending samples differ by at most the one sample of the
    /// left channel that waits for its right partner.
    pub open spec fn wf(self) -> bool {
        &&& self.core_l.wf()
        &&& self.core_r.wf()
        &&& !self.core_l.half_byte_written
        &&& !self.core_r.half_byte_written
        &&& self.core_l.num_outputs % 4 == 0
        &&& self.core_l.num_outputs == self.core_r.num_outputs
        &&& self.core_l.header_written == self.core_r.header_written
        &&& self.nibble_l.len() == 0
        &&& self.nibble_r.len() == 0
        &&& self.current_channel == CurrentChannel::Left ==> self.sample_l.len() == self.sample_r.len() < 8
        &&& self.current_channel == CurrentChannel::Right ==> self.sample_l.len() == self.sample_r.len() + 1 <= 8
    }

    /// Takes one sample of the channel whose turn it is; once both channels hold eight samples,
    /// each core encodes its eight, and runs of four bytes of each channel are written in turn.
    pub open spec fn step(self, sample: i16) -> (StereoEncoderState, Seq<u8>) {
        let (cc, sl, sr) = match self.current_channel {
            CurrentChannel::Left => (CurrentChannel::Right, self.sample_l.push(sample), self.sample_r),
            CurrentChannel::Right => (CurrentChannel::Left, self.sample_l, self.sample_r.push(sample)),
        };
        if sl.len() == INTERLEAVE_SAMPLES && sr.len() == INTERLEAVE_SAMPLES {
            let (cl, ol) = self.core_l.run(sl);
            let (cr, or) = self.core_r.run(sr);
            let (out, nl, nr) = drain(self.nibble_l + ol, self.nibble_r + or);
            (
                StereoEncoderState {
                    current_channel: cc,
                    core_l: cl,
                    core_r: cr,
                    sample_l: Seq::empty(),
                    sample_r: Seq::empty(),
                    nibble_l: nl,
                    nibble_r: nr,
                },
                out,
            )
        } else {
            let (out, nl, nr) = drain(self.nibble_l, self.nibble_r);
            (StereoEncoderState { current_channel: cc, sample_l: sl, sample_r: sr, nibble_l: nl, nibble_r: nr, ..self }, out)
        }
    }

    /// Encodes the samples in order.
    pub open spec fn run(self, input: Seq<i16>) -> (StereoEncoderState, Seq<u8>)
        decreases input.len(),
    {
        if input.len() == 0 {
            (self, Seq::<u8>::empty())
        } else {
            let (s1, o1) = self.run(input.drop_last());
            let (s2, o2) = s1.step(input.last());
            (s2, o1 + o2)
        }
    }

    /// The zero samples `flush` feeds to complete the pending run of eight samples per channel.
    pub open spec fn flush_len(self) -> int {
        if self.sample_l.len() == 0 && self.sample_r.len() == 0 {
            0
        } else {
            16 - self.sample_l.len() - self.sample_r.len()
        }
    }
}

/// Eight samples through a core at a four-byte boundary give four bytes, or eight with a header,
/// and leave the core at a four-byte boundary.
pub proof fn lemma_encoder_batch(c: EncoderCoreState, samples: Seq<i16>)
    requires
        c.wf(),
        !c.half_byte_written,
        c.num_outputs % 4 == 0,
        samples.len() == 8,
    ensures
        c.run(samples).0.wf(),
        !c.run(samples).0.half_byte_written,
        c.run(samples).0.num_outputs % 4 == 0,
        c.run(samples).1.len() == (if c.header_written { 4int } else { 8int }),
        c.run(samples).0.header_written == (batch_start_outputs(c) + 4 < BLOCK_SIZE),
        c.run(samples).0.num_outputs == (if batch_start_outputs(c) + 4 < BLOCK_SIZE { batch_start_outputs(c) + 4 } else { 0 }),
{
    lemma_encoder_batch_prefix(c, samples, 8);
    assert(samples.take(8) =~= samples);
}

/// Draining two byte runs of equal length that is a multiple of four hands them all out.
pub proof fn lemma_drain_all(nl: Seq<u8>, nr: Seq<u8>)
    requires
        nl.len() == nr.len(),
        nl.len() % 4 == 0,
    ensures
        drain(nl, nr).1.len() == 0,
        drain(nl, nr).2.len() == 0,
    decreases nl.len(),
{
    if nl.len() >= 4 {
        lemma_drain_all(nl.skip(4), nr.skip(4));
    }
}

/// The stereo encoder state stays well formed after each sample.
pub proof fn lemma_stereo_encoder_step_wf(s: StereoEncoderState, sample: i16)
    requires
        s.wf(),
    ensures
        s.step(sample).0.wf(),
{
    let (cc, sl, sr) = match s.current_channel {
        CurrentChannel::Left => (CurrentChannel::Right, s.sample_l.push(sample), s.sample_r),
        CurrentChannel::Right => (CurrentChannel::Left, s.sample_l, s.sample_r.push(sample)),
    };
    if sl.len() == INTERLEAVE_SAMPLES && sr.len() == INTERLEAVE_SAMPLES {
        lemma_encoder_batch(s.core_l, sl);
        lemma_encoder_batch(s.core_r, sr);
        assert(s.nibble_l + s.core_l.run(sl).1 =~= s.core_l.run(sl).1);
        assert(s.nibble_r + s.core_r.run(sr).1 =~= s.core_r.run(sr).1);
        lemma_drain_all(s.core_l.run(sl).1, s.core_r.run(sr).1);
    }
}

/// Running the stereo encoder over one sample is one step.
pub proof fn lemma_stereo_encoder_run_single(s: StereoEncoderState, x: i16)
    ensures
        s.run(seq![x]).0 == s.step(x).0,
        s.run(seq![x]).1 == s.step(x).1,
{
    assert(seq![x].drop_last() =~= Seq::<i16>::empty());
    assert(seq![x].last() == x);
    assert(s.run(seq![x].drop_last()) == (s, Seq::<u8>::empty()));
    assert(Seq::<u8>::empty() + s.step(x).1 =~= s.step(x).1);
}

/// The stereo encoder state stays well formed over any run of samples.
pub proof fn lemma_stereo_encoder_run_wf(s: StereoEncoderState, input: Seq<i16>)
    requires
        s.wf(),
    ensures
        s.run(input).0.wf(),
    decreases input.len(),
{
    if input.len() > 0 {
        lemma_stereo_encoder_run_wf(s, input.drop_last());
        lemma_stereo_encoder_step_wf(s.run(input.drop_last()).0, input.last());
    }
}

type EncoderSampleBuffer = CopiableBuffer<i16, INTERLEAVE_SAMPLES>;

type EncoderNibbleBuffer = CopiableBuffer<u8, NIBBLE_BUFFER_SIZE>;

/// ### A wrapper for the `EncoderCore` to encode stereo audio.
#[derive(Clone, Copy)]
pub struct StereoEncoder {
    current_channel: CurrentChannel,
    core_l: EncoderCore,
    core_r: EncoderCore,
    sample_l: EncoderSampleBuffer,
    sample_r: EncoderSampleBuffer,
    nibble_l: EncoderNibbleBuffer,
    nibble_r: EncoderNibbleBuffer,
}

impl View for StereoEncoder {
    type V = StereoEncoderState;

    closed spec fn view(&self) -> StereoEncoderState {
        StereoEncoderState {
            current_channel: self.current_channel,
            core_l: self.core_l@,
            core_r: self.core_r@,
            sample_l: self.sample_l@,
            sample_r: self.sample_r@,
            nibble_l: self.nibble_l@,
            nibble_r: self.nibble_r@,
        }
    }
}

impl StereoEncoder {
    pub fn new() -> (r: Self)
        ensures
            r@.current_channel == CurrentChannel::Left,
            r@.core_l == EncoderCore::new_spec(),
            r@.core_r == EncoderCore::new_spec(),
            r@.sample_l.len() == 0,
            r@.sample_r.len() == 0,
            r@.nibble_l.len() == 0,
            r@.nibble_r.len() == 0,
            r@.wf(),
    {
        Self {
            current_channel: CurrentChannel::Left,
            core_l: EncoderCore::new(),
            core_r: EncoderCore::new(),
            sample_l: EncoderSampleBuffer::new(),
            sample_r: EncoderSampleBuffer::new(),
            nibble_l: EncoderNibbleBuffer::new(),
            nibble_r: EncoderNibbleBuffer::new(),
        }
    }

    /// Encodes one sample and appends what it writes.
    fn encode_one(&mut self, sample: i16, output: &mut Vec<u8>)
        requires
            old(self)@.wf(),
        ensures
            final(self)@ == old(self)@.step(sample).0,
            final(output)@ == old(output)@ + old(self)@.step(sample).1,
    {
        let ghost s0 = self@;
        let ghost out0 = output@;
        proof { lemma_stereo_encoder_step_wf(s0, sample); }
        match self.current_channel {
            CurrentChannel::Left => {
                self.current_channel = CurrentChannel::Right;
                self.sample_l.push(sample);
            },
            CurrentChannel::Right => {
                self.current_channel = CurrentChannel::Left;
                self.sample_r.push(sample);
            },
        }
        if self.sample_l.is_full() && self.sample_r.is_full() {
            let samples_l = self.sample_l.to_vec();
            let samples_r = self.sample_r.to_vec();
            self.sample_l = EncoderSampleBuffer::new();
            self.sample_r = EncoderSampleBuffer::new();
            proof {
                lemma_encoder_batch(s0.core_l, samples_l@);
                lemma_encoder_batch(s0.core_r, samples_r@);
            }
            let mut bytes_l: Vec<u8> = Vec::new();
            let mut bytes_r: Vec<u8> = Vec::new();
            let _ = self.core_l.encode(&samples_l, &mut bytes_l);
            let _ = self.core_r.encode(&samples_r, &mut bytes_r);
            assert(bytes_l@ =~= s0.core_l.run(samples_l@).1);
            assert(bytes_r@ =~= s0.core_r.run(samples_r@).1);
            let mut nl = self.nibble_l;
            let mut nr = self.nibble_r;
            let mut k: usize = 0;
            while k < bytes_l.len()
                invariant
                    k <= bytes_l@.len() <= 8,
                    s0.nibble_l.len() == 0,
                    nl@ == s0.nibble_l + bytes_l@.take(k as int),
                decreases bytes_l@.len() - k,
            {
                nl.push(bytes_l[k]);
                k += 1;
                assert(nl@ =~= s0.nibble_l + bytes_l@.take(k as int));
            }
            let mut k: usize = 0;
            while k < bytes_r.len()
                invariant
                    k <= bytes_r@.len() <= 8,
                    s0.nibble_r.len() == 0,
                    nr@ == s0.nibble_r + bytes_r@.take(k as int),
                decreases bytes_r@.len() - k,
            {
                nr.push(bytes_r[k]);
                k += 1;
                assert(nr@ =~= s0.nibble_r + bytes_r@.take(k as int));
            }
            assert(bytes_l@.take(bytes_l@.len() as int) =~= bytes_l@);
            assert(bytes_r@.take(bytes_r@.len() as int) =~= bytes_r@);
            self.nibble_l = nl;
            self.nibble_r = nr;
        }
        let mut nl = self.nibble_l;
        let mut nr = self.nibble_r;
        let ghost nl0 = nl@;
        let ghost nr0 = nr@;
        while nl.len() >= INTERLEAVE_BYTES && nr.len() >= INTERLEAVE_BYTES
            invariant
                output@.len() >= out0.len(),
                output@.take(out0.len() as int) == out0,
                drain(nl0, nr0) == ({
                    let d = drain(nl@, nr@);
                    (output@.skip(out0.len() as int) + d.0, d.1, d.2)
                }),
            decreases nl@.len(),
        {
            let ghost gl = nl@;
            let ghost gr = nr@;
            let ghost done = output@.skip(out0.len() as int);
            proof { assert(output@ =~= out0 + done); }
            let mut i: usize = 0;
            while i < INTERLEAVE_BYTES
                invariant
                    i <= INTERLEAVE_BYTES,
                    nl@ == gl,
                    gl.len() >= 4,
                    output@ == out0 + done + gl.take(i as int),
                decreases INTERLEAVE_BYTES - i,
            {
                output.push(nl.get(i));
                i += 1;
                assert(output@ =~= out0 + done + gl.take(i as int));
            }
            let mut i: usize = 0;
            while i < INTERLEAVE_BYTES
                invariant
                    i <= INTERLEAVE_BYTES,
                    nr@ == gr,
                    gr.len() >= 4,
                    output@ == out0 + done + gl.take(4) + gr.take(i as int),
                decreases INTERLEAVE_BYTES - i,
            {
                output.push(nr.get(i));
                i += 1;
                assert(output@ =~= out0 + done + gl.take(4) + gr.take(i as int));
            }
            nl.remove_front(INTERLEAVE_BYTES);
            nr.remove_front(INTERLEAVE_BYTES);
            proof {
                let d = drain(nl@, nr@);
                assert(output@.skip(out0.len() as int) =~= done + (gl.take(4) + gr.take(4)));
                assert(done + (gl.take(4) + gr.take(4) + d.0) =~= output@.skip(out0.len() as int) + d.0);
                assert(output@.take(out0.len() as int) =~= out0);
            }
        }
        self.nibble_l = nl;
        self.nibble_r = nr;
        proof {
            assert(output@ =~= out0 + output@.skip(out0.len() as int));
            assert(output@.skip(out0.len() as int) + Seq::<u8>::empty() =~= output@.skip(out0.len() as int));
        }
    }

    /// * This `encode()` function will cache a very small amount of samples and data.
    /// * Call `flush()` to let it excrete all of the cached data.
    pub fn encode(&mut self, input: &[i16], output: &mut Vec<u8>) -> (r: Result<(), AdpcmError>)
        requires
            old(self)@.wf(),
        ensures
            r is Ok,
            final(self)@ == old(self)@.run(input@).0,
            final(output)@ == old(output)@ + old(self)@.run(input@).1,
            final(self)@.wf(),
    {
        let ghost s0 = self@;
        let ghost out0 = output@;
        let mut i: usize = 0;
        while i < input.len()
            invariant
                s0.wf(),
                i <= input@.len(),
                self@ == s0.run(input@.take(i as int)).0,
                output@ == out0 + s0.run(input@.take(i as int)).1,
            decreases input@.len() - i,
        {
            proof {
                lemma_stereo_encoder_run_wf(s0, input@.take(i as int));
                assert(input@.take(i + 1).drop_last() =~= input@.take(i as int));
            }
            self.encode_one(input[i], output);
            i += 1;
            assert(output@ =~= out0 + s0.run(input@.take(i as int)).1);
        }
        assert(input@.take(i as int) =~= input@);
        proof { lemma_stereo_encoder_run_wf(s0, input@); }
        Ok(())
    }

    /// * Let the encoder excrete all of the data, finish encoding.
    pub fn flush(&mut self, output: &mut Vec<u8>) -> (r: Result<(), AdpcmError>)
        requires
            old(self)@.wf(),
        ensures
            r is Ok,
            final(self)@ == old(self)@.run(zero_samples(old(self)@.flush_len())).0,
            final(output)@ == old(output)@ + old(self)@.run(zero_samples(old(self)@.flush_len())).1,
            final(self)@.wf(),
            final(self)@.sample_l.len() == 0,
            final(self)@.sample_r.len() == 0,
    {
        let ghost s0 = self@;
        let ghost out0 = output@;
        let ghost mut i: int = 0;
        proof { assert(zero_samples(0) =~= Seq::<i16>::empty()); }
        while !self.sample_l.is_empty() || !self.sample_r.is_empty()
            invariant
                s0 == old(self)@,
                out0 == old(output)@,
                s0.wf(),
                self@.wf(),
                0 <= i,
                self@ == s0.run(zero_samples(i)).0,
                output@ == out0 + s0.run(zero_samples(i)).1,
                i + self@.flush_len() == s0.flush_len(),
                self@.sample_l.len() == 0 && self@.sample_r.len() == 0 ==> i == s0.flush_len(),
            decreases self@.flush_len(),
        {
            let zero: [i16; 1] = [0];
            proof {
                assert(zero@ =~= seq![0i16]);
                assert(seq![0i16].drop_last() =~= Seq::<i16>::empty());
                assert(zero_samples(i + 1).drop_last() =~= zero_samples(i));
                assert(zero_samples(i + 1).last() == 0i16);
                lemma_stereo_encoder_step_wf(self@, 0);
                lemma_stereo_encoder_run_single(self@, 0);
            }
            let ghost before = output@;
            let _ = self.encode(&zero, output);
            proof {
                i = i + 1;
                assert(output@ =~= out0 + s0.run(zero_samples(i)).1);
            }
        }
        Ok(())
    }
}


/// Pairs up the samples of two channels, left first, as far as both reach.
pub open spec fn interleave(a: Seq<i16>, b: Seq<i16>) -> Seq<i16> {
    let n = if a.len() < b.len() { a.len() } else { b.len() };
    Seq::new(2 * n, |i: int| if i % 2 == 0 { a[i / 2] } else { b[i / 2] })
}

/// Decoding one run of four bytes, from a well-formed core that waits for no byte: a header gives
/// one sample and makes the core ready; a data run gives eight samples and may end the block.
pub proof fn lemma_decoder_chunk(c: DecoderCoreState, bytes: Seq<u8>)
    requires
        c.wf(),
        c.nibble_buffer.len() == 0,
        bytes.len() == 4,
    ensures
        c.run(bytes) matches Flow::Going(c2, o) ==> {
            &&& c2.wf()
            &&& c2.nibble_buffer.len() == 0
            &&& c2.block_size == c.block_size
            &&& !c.ready ==> c2.ready && c2.input_count == 4 && o.len() == 1
            &&& c.ready ==> o.len() == 8 && (if c.input_count + 4 >= c.block_size {
                    !c2.ready && c2.input_count == 0
                } else {
                    c2.ready && c2.input_count == c.input_count + 4
                })
        },
        c.run(bytes) matches Flow::Stopped(c2, o, _) ==> c2.wf() && o.len() == 0,
{
    lemma_decoder_run_wf(c, bytes);
    let b0 = bytes.take(1);
    let b1 = bytes.take(2);
    let b2 = bytes.take(3);
    assert(bytes.take(1).drop_last() =~= Seq::<u8>::empty());
    assert(bytes.take(2).drop_last() =~= bytes.take(1));
    assert(bytes.take(3).drop_last() =~= bytes.take(2));
    assert(bytes.drop_last() =~= bytes.take(3));
    assert(c.run(Seq::<u8>::empty()) == Flow::<DecoderCoreState, i16>::Going(c, Seq::empty()));
    let r1 = c.run(b0);
    let r2 = c.run(b1);
    let r3 = c.run(b2);
    if let Flow::Going(c1, o1) = r1 {
        assert(o1.len() == 0);
        if let Flow::Going(c2, o2) = r2 {
            assert(o2.len() == 0);
            if let Flow::Going(c3, o3) = r3 {
                assert(o3.len() == 0);
                assert(c3.nibble_buffer.len() == 3);
                assert(c3.ready == c.ready);
                assert(c3.input_count == c.input_count + 3);
                if c.ready {
                    if let Some((sv, si, out)) = decode_group(c3.sample_val, c3.stepsize_index, c3.nibble_buffer.push(bytes.last())) {
                        lemma_decode_group_len(c3.sample_val, c3.stepsize_index, c3.nibble_buffer.push(bytes.last()));
                    }
                }
            }
        }
    }
}

/// A successful group decode gives two samples per byte.
pub proof fn lemma_decode_group_len(sample: i16, index: i8, bytes: Seq<u8>)
    requires
        decode_group(sample, index, bytes) is Some,
    ensures
        decode_group(sample, index, bytes)->Some_0.2.len() == 2 * bytes.len(),
    decreases bytes.len(),
{
    if bytes.len() > 0 {
        lemma_decode_group_len(sample, index, bytes.drop_last());
    }
}


/// The state of a stereo ADPCM-IMA decoder, as plain values.
pub struct StereoDecoderState {
    /// The channel the next byte belongs to.
    pub current_channel: CurrentChannel,
    pub core_l: DecoderCoreState,
    pub core_r: DecoderCoreState,
    /// Bytes of each channel waiting for a run of four.
    pub nibble_l: Seq<u8>,
    pub nibble_r: Seq<u8>,
    /// Decoded samples of each channel waiting to be paired.
    pub sample_l: Seq<i16>,
    pub sample_r: Seq<i16>,
    pub block_size: usize,
}

impl StereoDecoderState {
    /// The state invariant: the bytes of the run being read fit, and so do the samples kept.
    pub open spec fn wf(self) -> bool {
        &&& self.core_l.wf()
        &&& self.core_r.wf()
        &&& self.current_channel == CurrentChannel::Left ==> self.nibble_l.len() < 4 && self.nibble_r.len() == 0
        &&& self.current_channel == CurrentChannel::Right ==> self.nibble_l.len() == 4 && self.nibble_r.len() < 4
        &&& self.sample_l.len() <= INTERLEAVE_SAMPLES
        &&& self.sample_r.len() <= INTERLEAVE_SAMPLES
    }

    /// Both cores stand at the same point of their blocks and wait for no byte, and no sample waits:
    /// what every decode that did not fail leaves.
    pub open spec fn synced(self) -> bool {
        &&& self.core_l.nibble_buffer.len() == 0
        &&& self.core_r.nibble_buffer.len() == 0
        &&& self.core_l.ready == self.core_r.ready
        &&& self.core_l.input_count == self.core_r.input_count
        &&& self.core_l.block_size == self.core_r.block_size
        &&& self.sample_l.len() == 0
        &&& self.sample_r.len() == 0
    }

    /// Takes one byte for the channel whose turn it is (runs of four per channel); once both
    /// channels hold four, each core decodes its run; the samples kept are written in pairs.
    pub open spec fn step(self, byte: u8) -> Flow<StereoDecoderState, i16> {
        let (cc, nl, nr) = match self.current_channel {
            CurrentChannel::Left => {
                let nl = self.nibble_l.push(byte);
                (if nl.len() >= 4 { CurrentChannel::Right } else { CurrentChannel::Left }, nl, self.nibble_r)
            },
            CurrentChannel::Right => {
                let nr = self.nibble_r.push(byte);
                (if nr.len() >= 4 { CurrentChannel::Left } else { CurrentChannel::Right }, self.nibble_l, nr)
            },
        };
        if nl.len() > 4 || nr.len() > 4 {
            Flow::Panics
        } else if nl.len() == 4 && nr.len() == 4 {
            match self.core_l.run(nl) {
                Flow::Panics => Flow::Panics,
                Flow::Stopped(cl, ol, e) => if self.sample_l.len() + ol.len() > INTERLEAVE_SAMPLES {
                    Flow::Panics
                } else {
                    Flow::Stopped(
                        StereoDecoderState {
                            current_channel: cc,
                            core_l: cl,
                            nibble_l: Seq::empty(),
                            nibble_r: Seq::empty(),
                            sample_l: self.sample_l + ol,
                            ..self
                        },
                        Seq::empty(),
                        e,
                    )
                },
                Flow::Going(cl, ol) => if self.sample_l.len() + ol.len() > INTERLEAVE_SAMPLES {
                    Flow::Panics
                } else {
                    match self.core_r.run(nr) {
                        Flow::Panics => Flow::Panics,
                        Flow::Stopped(cr, or, e) => if self.sample_r.len() + or.len() > INTERLEAVE_SAMPLES {
                            Flow::Panics
                        } else {
                            Flow::Stopped(
                                StereoDecoderState {
                                    current_channel: cc,
                                    core_l: cl,
                                    core_r: cr,
                                    nibble_l: Seq::empty(),
                                    nibble_r: Seq::empty(),
                                    sample_l: self.sample_l + ol,
                                    sample_r: self.sample_r + or,
                                    block_size: self.block_size,
                                },
                                Seq::empty(),
                                e,
                            )
                        },
                        Flow::Going(cr, or) => if self.sample_r.len() + or.len() > INTERLEAVE_SAMPLES {
                            Flow::Panics
                        } else {
                            Flow::Going(
                                StereoDecoderState {
                                    current_channel: cc,
                                    core_l: cl,
                                    core_r: cr,
                                    nibble_l: Seq::empty(),
                                    nibble_r: Seq::empty(),
                                    sample_l: Seq::empty(),
                                    sample_r: Seq::empty(),
                                    block_size: self.block_size,
                                },
                                interleave(self.sample_l + ol, self.sample_r + or),
                            )
                        },
                    }
                },
            }
        } else {
            Flow::Going(
                StereoDecoderState {
                    current_channel: cc,
                    nibble_l: nl,
                    nibble_r: nr,
                    sample_l: Seq::empty(),
                    sample_r: Seq::empty(),
                    ..self
                },
                interleave(self.sample_l, self.sample_r),
            )
        }
    }

    /// Decodes the bytes in order.
    pub open spec fn run(self, input: Seq<u8>) -> Flow<StereoDecoderState, i16>
        decreases input.len(),
    {
        if input.len() == 0 {
            Flow::Going(self, Seq::empty())
        } else {
            match self.run(input.drop_last()) {
                Flow::Going(s1, o1) => s1.step(input.last()).after(o1),
                other => other,
            }
        }
    }

    /// Bounds the zero bytes that `flush` feeds before both cores reach a block boundary.
    pub open spec fn flush_measure(self) -> nat {
        (9 * self.core_l.flush_measure() + 8 - self.nibble_l.len() - self.nibble_r.len()) as nat
    }

    /// Both cores are at a block boundary.
    pub open spec fn on_new_block(self) -> bool {
        self.core_l.on_new_block() && self.core_r.on_new_block()
    }

    /// Feeds zero bytes until both cores are at a block boundary.
    pub open spec fn flush_flow(self) -> Flow<StereoDecoderState, i16>
        decreases self.flush_measure(),
    {
        if self.on_new_block() {
            Flow::Going(self, Seq::empty())
        } else {
            match self.step(0) {
                Flow::Going(s2, o) => if s2.flush_measure() < self.flush_measure() {
                    s2.flush_flow().after(o)
                } else {
                    Flow::Going(s2, o)
                },
                other => other,
            }
        }
    }
}

/// A step from a well-formed stereo decoder that does not panic keeps it well formed, and one
/// from a synced decoder that goes on keeps it synced.
pub proof fn lemma_stereo_decoder_step_wf(s: StereoDecoderState, byte: u8)
    requires
        s.wf(),
    ensures
        s.step(byte) matches Flow::Going(s2, _) ==> s2.wf() && (s.synced() ==> s2.synced()),
        s.step(byte) matches Flow::Stopped(s2, _, _) ==> s2.wf(),
{
    let (cc, nl, nr) = match s.current_channel {
        CurrentChannel::Left => {
            let nl = s.nibble_l.push(byte);
            (if nl.len() >= 4 { CurrentChannel::Right } else { CurrentChannel::Left }, nl, s.nibble_r)
        },
        CurrentChannel::Right => {
            let nr = s.nibble_r.push(byte);
            (if nr.len() >= 4 { CurrentChannel::Left } else { CurrentChannel::Right }, s.nibble_l, nr)
        },
    };
    if nl.len() == 4 && nr.len() == 4 {
        lemma_decoder_run_wf(s.core_l, nl);
        lemma_decoder_run_wf(s.core_r, nr);
        if s.synced() {
            lemma_decoder_chunk(s.core_l, nl);
            lemma_decoder_chunk(s.core_r, nr);
        }
    }
}

/// A step of a synced stereo decoder never panics: data that no encoder writes gives an error.
pub proof fn lemma_stereo_decoder_step_no_panic(s: StereoDecoderState, byte: u8)
    requires
        s.wf(),
        s.synced(),
    ensures
        !(s.step(byte) is Panics),
        s.step(byte) matches Flow::Going(s2, _) ==> s2.wf() && s2.synced(),
{
    lemma_stereo_decoder_step_wf(s, byte);
    let (cc, nl, nr) = match s.current_channel {
        CurrentChannel::Left => {
            let nl = s.nibble_l.push(byte);
            (if nl.len() >= 4 { CurrentChannel::Right } else { CurrentChannel::Left }, nl, s.nibble_r)
        },
        CurrentChannel::Right => {
            let nr = s.nibble_r.push(byte);
            (if nr.len() >= 4 { CurrentChannel::Left } else { CurrentChannel::Right }, s.nibble_l, nr)
        },
    };
    if nl.len() == 4 && nr.len() == 4 {
        lemma_decoder_never_panics(s.core_l, nl);
        lemma_decoder_never_panics(s.core_r, nr);
        lemma_decoder_chunk(s.core_l, nl);
        lemma_decoder_chunk(s.core_r, nr);
    }
}

/// A synced stereo decoder, as every decode that did not fail leaves it, decodes any bytes
/// without panicking: data that no encoder writes gives an error.
pub proof fn lemma_stereo_decoder_never_panics(s: StereoDecoderState, input: Seq<u8>)
    requires
        s.wf(),
        s.synced(),
    ensures
        !(s.run(input) is Panics),
        s.run(input) matches Flow::Going(s2, _) ==> s2.wf() && s2.synced(),
    decreases input.len(),
{
    if input.len() > 0 {
        lemma_stereo_decoder_never_panics(s, input.drop_last());
        if let Flow::Going(s1, _) = s.run(input.drop_last()) {
            lemma_stereo_decoder_step_no_panic(s1, input.last());
        }
    }
}

/// Each zero byte that `flush` feeds brings a synced stereo decoder closer to a block boundary.
pub proof fn lemma_stereo_flush_measure_decreases(s: StereoDecoderState)
    requires
        s.wf(),
        s.synced(),
        !s.on_new_block(),
    ensures
        s.step(0) matches Flow::Going(s2, _) ==> s2.flush_measure() < s.flush_measure(),
{
    lemma_stereo_decoder_step_wf(s, 0);
    let (cc, nl, nr) = match s.current_channel {
        CurrentChannel::Left => {
            let nl = s.nibble_l.push(0);
            (if nl.len() >= 4 { CurrentChannel::Right } else { CurrentChannel::Left }, nl, s.nibble_r)
        },
        CurrentChannel::Right => {
            let nr = s.nibble_r.push(0);
            (if nr.len() >= 4 { CurrentChannel::Left } else { CurrentChannel::Right }, s.nibble_l, nr)
        },
    };
    if nl.len() == 4 && nr.len() == 4 {
        lemma_decoder_chunk(s.core_l, nl);
    }
}


type DecoderNibbleBuffer = CopiableBuffer<u8, INTERLEAVE_BYTES>;

type DecoderSampleBuffer = CopiableBuffer<i16, INTERLEAVE_SAMPLES>;

/// ### A wrapper for the `DecoderCore` to decode stereo audio.
#[derive(Clone, Copy)]
pub struct StereoDecoder {
    current_channel: CurrentChannel,
    core_l: DecoderCore,
    core_r: DecoderCore,
    nibble_l: DecoderNibbleBuffer,
    nibble_r: DecoderNibbleBuffer,
    sample_l: DecoderSampleBuffer,
    sample_r: DecoderSampleBuffer,
    block_size: usize,
}

impl View for StereoDecoder {
    type V = StereoDecoderState;

    closed spec fn view(&self) -> StereoDecoderState {
        StereoDecoderState {
            current_channel: self.current_channel,
            core_l: self.core_l@,
            core_r: self.core_r@,
            nibble_l: self.nibble_l@,
            nibble_r: self.nibble_r@,
            sample_l: self.sample_l@,
            sample_r: self.sample_r@,
            block_size: self.block_size,
        }
    }
}

/// Appends the samples of a buffer to a `CopiableBuffer` that has room for them.
fn push_samples(buf: &mut DecoderSampleBuffer, samples: &Vec<i16>)
    requires
        old(buf)@.len() + samples@.len() <= INTERLEAVE_SAMPLES,
    ensures
        final(buf)@ == old(buf)@ + samples@,
{
    let mut k: usize = 0;
    while k < samples.len()
        invariant
            k <= samples@.len(),
            old(buf)@.len() + samples@.len() <= INTERLEAVE_SAMPLES,
            buf@ == old(buf)@ + samples@.take(k as int),
        decreases samples@.len() - k,
    {
        buf.push(samples[k]);
        k += 1;
        assert(buf@ =~= old(buf)@ + samples@.take(k as int));
    }
    assert(samples@.take(k as int) =~= samples@);
}

impl StereoDecoder {
    pub fn new(fmt_chunk: FmtChunk) -> (r: Self)
        requires
            fmt_chunk.channels > 0,
        ensures
            r@.current_channel == CurrentChannel::Left,
            r@.core_l == DecoderCore::new_spec(fmt_chunk),
            r@.core_r == DecoderCore::new_spec(fmt_chunk),
            r@.nibble_l.len() == 0,
            r@.nibble_r.len() == 0,
            r@.sample_l.len() == 0,
            r@.sample_r.len() == 0,
            r@.block_size == channel_block_size(fmt_chunk),
            r@.wf(),
            r@.synced(),
    {
        Self {
            current_channel: CurrentChannel::Left,
            core_l: DecoderCore::new(fmt_chunk),
            core_r: DecoderCore::new(fmt_chunk),
            nibble_l: DecoderNibbleBuffer::new(),
            nibble_r: DecoderNibbleBuffer::new(),
            sample_l: DecoderSampleBuffer::new(),
            sample_r: DecoderSampleBuffer::new(),
            block_size: (fmt_chunk.block_align / fmt_chunk.channels) as usize,
        }
    }

    /// * Uninitialize the decoder. Every time it finishes decoding a block, it needs to be uninitialized.
    /// * Another usage is for seeking. Before seeking, `unready()` should be called to uninitialize the decoder.
    pub fn unready(&mut self)
        ensures
            final(self)@ == (StereoDecoderState {
                current_channel: CurrentChannel::Left,
                core_l: old(self)@.core_l.unready(),
                core_r: old(self)@.core_r.unready(),
                nibble_l: Seq::empty(),
                nibble_r: Seq::empty(),
                sample_l: Seq::empty(),
                sample_r: Seq::empty(),
                block_size: old(self)@.block_size,
            }),
            old(self)@.core_l.block_size <= 0xFFFF && old(self)@.core_r.block_size <= 0xFFFF ==> final(self)@.wf(),
    {
        self.current_channel = CurrentChannel::Left;
        self.core_l.unready();
        self.core_r.unready();
        self.nibble_l.clear();
        self.nibble_r.clear();
        self.sample_l.clear();
        self.sample_r.clear();
    }

    /// Decodes one byte and appends the samples it completes.
    fn decode_one(&mut self, byte: u8, output: &mut Vec<i16>) -> (r: Result<(), AdpcmError>)
        requires
            old(self)@.wf(),
            !(old(self)@.step(byte) is Panics),
        ensures
            old(self)@.step(byte) matches Flow::Going(s, o) ==> r is Ok && final(self)@ == s
                && final(output)@ == old(output)@ + o,
            old(self)@.step(byte) matches Flow::Stopped(s, o, e) ==> r == Err::<(), AdpcmError>(e)
                && final(self)@ == s && final(output)@ == old(output)@ + o,
    {
        let ghost s0 = self@;
        match self.current_channel {
            CurrentChannel::Left => {
                self.nibble_l.push(byte);
                if self.nibble_l.is_full() {
                    self.current_channel = CurrentChannel::Right;
                }
            },
            CurrentChannel::Right => {
                self.nibble_r.push(byte);
                if self.nibble_r.is_full() {
                    self.current_channel = CurrentChannel::Left;
                }
            },
        }
        if self.nibble_l.is_full() && self.nibble_r.is_full() {
            let bytes_l = self.nibble_l.to_vec();
            let bytes_r = self.nibble_r.to_vec();
            self.nibble_l.clear();
            self.nibble_r.clear();
            let mut decoded_l: Vec<i16> = Vec::new();
            let res_l = self.core_l.decode(&bytes_l, &mut decoded_l);
            proof {
                assert(Seq::<i16>::empty() + decoded_l@ =~= decoded_l@);
            }
            match res_l {
                Err(e) => {
                    assert(decoded_l@ =~= Seq::<i16>::empty() + s0.core_l.run(bytes_l@)->Stopped_1);
                    push_samples(&mut self.sample_l, &decoded_l);
                    assert(output@ =~= old(output)@ + Seq::<i16>::empty());
                    return Err(e);
                },
                Ok(()) => {},
            }
            assert(decoded_l@ =~= Seq::<i16>::empty() + s0.core_l.run(bytes_l@)->Going_1);
            push_samples(&mut self.sample_l, &decoded_l);
            let mut decoded_r: Vec<i16> = Vec::new();
            let res_r = self.core_r.decode(&bytes_r, &mut decoded_r);
            match res_r {
                Err(e) => {
                    assert(decoded_r@ =~= Seq::<i16>::empty() + s0.core_r.run(bytes_r@)->Stopped_1);
                    push_samples(&mut self.sample_r, &decoded_r);
                    assert(output@ =~= old(output)@ + Seq::<i16>::empty());
                    return Err(e);
                },
                Ok(()) => {},
            }
            assert(decoded_r@ =~= Seq::<i16>::empty() + s0.core_r.run(bytes_r@)->Going_1);
            push_samples(&mut self.sample_r, &decoded_r);
        }
        let ghost sl = self.sample_l@;
        let ghost sr = self.sample_r@;
        let nl = self.sample_l.len();
        let nr = self.sample_r.len();
        let n = if nl < nr { nl } else { nr };
        let ghost out0 = output@;
        let mut k: usize = 0;
        while k < n
            invariant
                k <= n,
                n <= sl.len(),
                n <= sr.len(),
                n == (if sl.len() < sr.len() { sl.len() } else { sr.len() }),
                self.sample_l@ == sl,
                self.sample_r@ == sr,
                output@ == out0 + interleave(sl, sr).take(2 * k),
            decreases n - k,
        {
            output.push(self.sample_l.get(k));
            output.push(self.sample_r.get(k));
            k += 1;
            assert(output@ =~= out0 + interleave(sl, sr).take(2 * k));
        }
        assert(interleave(sl, sr).take(2 * n) =~= interleave(sl, sr));
        self.sample_l.clear();
        self.sample_r.clear();
        Ok(())
    }

    /// * This `decode()` function needs 8 initial bytes to initialize 2 decoder cores, after being initialized, every 8 bytes decode to 16 samples.
    /// * The output samples are interleaved by channels.
    pub fn decode(&mut self, input: &[u8], output: &mut Vec<i16>) -> (r: Result<(), AdpcmError>)
        requires
            old(self)@.wf(),
            !(old(self)@.run(input@) is Panics),
        ensures
            old(self)@.run(input@) matches Flow::Going(s, o) ==> r is Ok && final(self)@ == s
                && final(output)@ == old(output)@ + o,
            old(self)@.run(input@) matches Flow::Stopped(s, o, e) ==> r == Err::<(), AdpcmError>(e)
                && final(self)@ == s && final(output)@ == old(output)@ + o,
    {
        let ghost s0 = self@;
        let ghost out0 = output@;
        let mut i: usize = 0;
        proof { lemma_stereo_decoder_run_prefix(s0, input@, 0); }
        while i < input.len()
            invariant
                s0 == old(self)@,
                out0 == old(output)@,
                s0.wf(),
                i <= input@.len(),
                !(s0.run(input@) is Panics),
                s0.run(input@.take(i as int)) matches Flow::Going(s, o) && self@ == s && output@ == out0 + o,
                s0.run(input@.take(i as int)) matches Flow::Going(s, _) && s.wf(),
            decreases input@.len() - i,
        {
            proof {
                assert(input@.take(i + 1).drop_last() =~= input@.take(i as int));
                assert(input@.take(i + 1).last() == input@[i as int]);
                lemma_stereo_decoder_run_prefix(s0, input@, i + 1);
                lemma_stereo_decoder_run_wf(s0, input@.take(i + 1));
            }
            let res = self.decode_one(input[i], output);
            proof {
                let o1 = s0.run(input@.take(i as int))->Going_1;
                let st = s0.run(input@.take(i as int))->Going_0.step(input@[i as int]);
                match st {
                    Flow::Stopped(_, o2, _) => { assert(output@ =~= out0 + (o1 + o2)); },
                    Flow::Going(_, o2) => { assert(output@ =~= out0 + (o1 + o2)); },
                    _ => {},
                }
            }
            match res {
                Err(e) => {
                    proof { lemma_stereo_decoder_run_prefix(s0, input@, i + 1); }
                    return Err(e);
                },
                Ok(()) => {},
            }
            i += 1;
        }
        assert(input@.take(i as int) =~= input@);
        Ok(())
    }

    /// * Flush both decoder cores.
    /// Continuous feeding the decoder zero data until it finished decoding a whole block.
    pub fn flush(&mut self, output: &mut Vec<i16>) -> (r: Result<(), AdpcmError>)
        requires
            old(self)@.wf(),
            old(self)@.synced(),
            !(old(self)@.flush_flow() is Panics),
        ensures
            r is Ok ==> final(self)@.on_new_block(),
            old(self)@.flush_flow() matches Flow::Going(s, o) ==> r is Ok && final(self)@ == s
                && final(output)@ == old(output)@ + o,
            old(self)@.flush_flow() matches Flow::Stopped(s, o, e) ==> r == Err::<(), AdpcmError>(e)
                && final(self)@ == s && final(output)@ == old(output)@ + o,
    {
        let ghost s0 = self@;
        let ghost out0 = output@;
        while !self.core_l.on_new_block() || !self.core_r.on_new_block()
            invariant
                s0 == old(self)@,
                out0 == old(output)@,
                self@.wf(),
                self@.synced(),
                output@.len() >= out0.len(),
                output@.take(out0.len() as int) == out0,
                s0.flush_flow() == self@.flush_flow().after(output@.skip(out0.len() as int)),
                !(s0.flush_flow() is Panics),
            decreases self@.flush_measure(),
        {
            let ghost s1 = self@;
            let ghost done = output@.skip(out0.len() as int);
            let zero: [u8; 1] = [0];
            proof {
                lemma_stereo_flush_measure_decreases(s1);
                lemma_stereo_decoder_step_wf(s1, 0);
                lemma_stereo_decoder_run_single(s1, 0);
                assert(zero@ =~= seq![0u8]);
                assert(!(s1.flush_flow() is Panics));
                assert(!(s1.step(0) is Panics));
            }
            let res = self.decode(&zero, output);
            proof {
                match s1.step(0) {
                    Flow::Going(s2, o) => {
                        assert(output@.skip(out0.len() as int) =~= done + o);
                        assert(output@.take(out0.len() as int) =~= out0);
                        assert(s1.flush_flow() == s2.flush_flow().after(o));
                        lemma_after_after(s2.flush_flow(), done, o);
                    },
                    Flow::Stopped(s2, o, e) => {
                        assert(output@ =~= out0 + (done + o));
                    },
                    Flow::Panics => {},
                }
            }
            match res {
                Err(e) => {
                    return Err(e);
                },
                Ok(()) => {},
            }
        }
        assert(output@ =~= out0 + output@.skip(out0.len() as int));
        Ok(())
    }
}

/// Running the stereo decoder over one byte is one step.
pub proof fn lemma_stereo_decoder_run_single(s: StereoDecoderState, b: u8)
    ensures
        s.run(seq![b]) == s.step(b),
{
    assert(seq![b].drop_last() =~= Seq::<u8>::empty());
    assert(seq![b].last() == b);
    assert(s.run(seq![b].drop_last()) == Flow::<StereoDecoderState, i16>::Going(s, Seq::empty()));
    match s.step(b) {
        Flow::Going(s2, o) => { assert(Seq::<i16>::empty() + o =~= o); },
        Flow::Stopped(s2, o, e) => { assert(Seq::<i16>::empty() + o =~= o); },
        Flow::Panics => {},
    }
}

/// A stereo run that does not panic has prefixes that do not panic, and once a prefix stops,
/// the run ends there.
pub proof fn lemma_stereo_decoder_run_prefix(s: StereoDecoderState, input: Seq<u8>, k: int)
    requires
        0 <= k <= input.len(),
        !(s.run(input) is Panics),
    ensures
        !(s.run(input.take(k)) is Panics),
        s.run(input.take(k)) is Stopped ==> s.run(input) == s.run(input.take(k)),
    decreases input.len(),
{
    if k < input.len() {
        assert(input.drop_last().take(k) =~= input.take(k));
        lemma_stereo_decoder_run_prefix(s, input.drop_last(), k);
    } else {
        assert(input.take(k) =~= input);
    }
}

/// A stereo run that does not panic keeps a well-formed state well formed.
pub proof fn lemma_stereo_decoder_run_wf(s: StereoDecoderState, input: Seq<u8>)
    requires
        s.wf(),
    ensures
        s.run(input) matches Flow::Going(s2, _) ==> s2.wf(),
        s.run(input) matches Flow::Stopped(s2, _, _) ==> s2.wf(),
    decreases input.len(),
{
    if input.len() > 0 {
        lemma_stereo_decoder_run_wf(s, input.drop_last());
        if let Flow::Going(s1, o1) = s.run(input.drop_last()) {
            lemma_stereo_decoder_step_wf(s1, input.last());
        }
    }
}


/// The state of an ADPCM-IMA encoder, as plain values.
pub enum EncoderState {
    Mono(EncoderCoreState),
    Stereo(StereoEncoderState),
}

/// ## The ADPCM-IMA Encoder for you to use.
#[derive(Clone, Copy)]
pub enum Encoder {
    Mono(EncoderCore),
    Stereo(StereoEncoder),
}

impl View for Encoder {
    type V = EncoderState;

    open spec fn view(&self) -> EncoderState {
        match self {
            Encoder::Mono(enc) => EncoderState::Mono(enc@),
            Encoder::Stereo(enc) => EncoderState::Stereo(enc@),
        }
    }
}

/// The `fmt ` chunk that the ADPCM-IMA encoder writes.
pub open spec fn new_fmt_spec(channels: u16, sample_rate: u32, bits_per_sample: u16) -> FmtChunk {
    FmtChunk {
        format_tag: 0x0011,
        channels,
        sample_rate,
        byte_rate: (sample_rate * bits_per_sample * channels / 8) as u32,
        block_align: (BLOCK_SIZE * channels) as u16,
        bits_per_sample,
        extension: Some(FmtExtension {
            ext_len: 2,
            data: ExtensionData::AdpcmIma(AdpcmImaData { samples_per_block: ((BLOCK_SIZE - HEADER_SIZE) * channels * 2) as u16 }),
        }),
    }
}

impl AdpcmEncoder for Encoder {
    open spec fn encoder_wf(state: EncoderState) -> bool {
        match state {
            EncoderState::Mono(s) => s.wf(),
            EncoderState::Stereo(s) => s.wf(),
        }
    }

    open spec fn encode_spec(state: EncoderState, input: Seq<i16>) -> (EncoderState, Seq<u8>) {
        match state {
            EncoderState::Mono(s) => (EncoderState::Mono(s.run(input).0), s.run(input).1),
            EncoderState::Stereo(s) => (EncoderState::Stereo(s.run(input).0), s.run(input).1),
        }
    }

    proof fn lemma_encode_append(state: EncoderState, a: Seq<i16>, b: Seq<i16>) {
        match state {
            EncoderState::Mono(s) => super::ima_roundtrip::lemma_encoder_run_append(s, a, b),
            EncoderState::Stereo(s) => super::ima_roundtrip::lemma_stereo_encoder_run_append(s, a, b),
        }
    }

    open spec fn can_flush(state: EncoderState) -> bool {
        true
    }

    open spec fn flush_spec(state: EncoderState) -> (EncoderState, Seq<u8>) {
        match state {
            EncoderState::Mono(s) => {
                let r = s.run(zero_samples(block_fill(s)));
                (EncoderState::Mono(r.0), r.1)
            },
            EncoderState::Stereo(s) => {
                let r = s.run(zero_samples(s.flush_len()));
                (EncoderState::Stereo(r.0), r.1)
            },
        }
    }

    open spec fn fmt_args_ok(channels: u16, sample_rate: u32, bits_per_sample: u16) -> bool {
        &&& bits_per_sample == 4
        &&& (BLOCK_SIZE - HEADER_SIZE) * channels * 2 <= u16::MAX
        &&& sample_rate * bits_per_sample <= u32::MAX
        &&& sample_rate * bits_per_sample * channels <= u32::MAX
    }

    open spec fn modify_args_ok(fmt_chunk: FmtChunk) -> bool {
        &&& fmt_chunk.channels > 0
        &&& BLOCK_SIZE * fmt_chunk.channels <= u16::MAX
        &&& fmt_chunk.sample_rate * 8 <= u32::MAX
    }

    open spec fn new_fmt_is(channels: u16, sample_rate: u32, bits_per_sample: u16, f: FmtChunk) -> bool {
        f == new_fmt_spec(channels, sample_rate, bits_per_sample)
    }

    /// The block size, the bits per sample and the byte rate are set; the extension must hold
    /// ADPCM-IMA data.
    open spec fn modify_spec(fmt_chunk: FmtChunk) -> (FmtChunk, Result<(), AdpcmError>) {
        (
            FmtChunk {
                block_align: (BLOCK_SIZE * fmt_chunk.channels) as u16,
                bits_per_sample: 4,
                byte_rate: (fmt_chunk.sample_rate * 8 / (fmt_chunk.channels * 4)) as u32,
                ..fmt_chunk
            },
            match fmt_chunk.extension {
                Some(ext) => match ext.data {
                    ExtensionData::AdpcmIma(_) => Ok(()),
                    _ => Err(AdpcmError::WrongExtensionData),
                },
                None => Err(AdpcmError::MissingExtensionData),
            },
        )
    }

    open spec fn new_spec(channels: u16) -> Result<EncoderState, AdpcmError> {
        match channels {
            1 => Ok(EncoderState::Mono(EncoderCore::new_spec())),
            2 => Ok(EncoderState::Stereo(StereoEncoderState {
                current_channel: CurrentChannel::Left,
                core_l: EncoderCore::new_spec(),
                core_r: EncoderCore::new_spec(),
                sample_l: Seq::empty(),
                sample_r: Seq::empty(),
                nibble_l: Seq::empty(),
                nibble_r: Seq::empty(),
            })),
            other => Err(AdpcmError::WrongChannels(other)),
        }
    }

    fn new(channels: u16) -> (r: Result<Self, AdpcmError>) {
        match channels {
            1 => Ok(Encoder::Mono(EncoderCore::new())),
            2 => {
                let e = StereoEncoder::new();
                assert(e@.sample_l =~= Seq::empty() && e@.sample_r =~= Seq::empty());
                assert(e@.nibble_l =~= Seq::empty() && e@.nibble_r =~= Seq::empty());
                Ok(Encoder::Stereo(e))
            },
            other => Err(AdpcmError::WrongChannels(other)),
        }
    }

    fn encode(&mut self, input: &[i16], output: &mut Vec<u8>) -> (r: Result<(), AdpcmError>) {
        match self {
            Encoder::Mono(enc) => enc.encode(input, output),
            Encoder::Stereo(enc) => enc.encode(input, output),
        }
    }

    /// The ADPCM-IMA `fmt ` chunk: format tag 0x11, 512 bytes per block and channel, and the
    /// samples per block in the extension.
    fn new_fmt_chunk(&mut self, channels: u16, sample_rate: u32, bits_per_sample: u16) -> (r: Result<FmtChunk, AdpcmError>)
        ensures
            r == Ok::<FmtChunk, AdpcmError>(new_fmt_spec(channels, sample_rate, bits_per_sample)),
    {
        let block_align = BLOCK_SIZE as u16 * channels;
        let rate_bits = sample_rate * bits_per_sample as u32;
        assert(rate_bits * channels <= u32::MAX);
        Ok(FmtChunk {
            format_tag: 0x0011,
            channels,
            sample_rate,
            byte_rate: sample_rate * bits_per_sample as u32 * channels as u32 / 8,
            block_align,
            bits_per_sample,
            extension: Some(FmtExtension::new_adpcm_ima(AdpcmImaData {
                samples_per_block: (BLOCK_SIZE as u16 - HEADER_SIZE as u16) * channels * 2,
            })),
        })
    }

    /// Sets the block size, the bits per sample and the byte rate; the extension must hold
    /// ADPCM-IMA data, which stays as it is.
    fn modify_fmt_chunk(&self, fmt_chunk: &mut FmtChunk) -> (r: Result<(), AdpcmError>)
        ensures
            final(fmt_chunk).block_align == BLOCK_SIZE * old(fmt_chunk).channels,
            final(fmt_chunk).bits_per_sample == 4,
            final(fmt_chunk).byte_rate == old(fmt_chunk).sample_rate * 8 / (old(fmt_chunk).channels * 4),
            final(fmt_chunk).format_tag == old(fmt_chunk).format_tag,
            final(fmt_chunk).channels == old(fmt_chunk).channels,
            final(fmt_chunk).sample_rate == old(fmt_chunk).sample_rate,
            final(fmt_chunk).extension == old(fmt_chunk).extension,
            r == match old(fmt_chunk).extension {
                Some(ext) => match ext.data {
                    ExtensionData::AdpcmIma(_) => Ok::<(), AdpcmError>(()),
                    _ => Err(AdpcmError::WrongExtensionData),
                },
                None => Err(AdpcmError::MissingExtensionData),
            },
    {
        fmt_chunk.block_align = BLOCK_SIZE as u16 * fmt_chunk.channels;
        fmt_chunk.bits_per_sample = 4;
        fmt_chunk.byte_rate = fmt_chunk.sample_rate * 8 / (fmt_chunk.channels as u32 * fmt_chunk.bits_per_sample as u32);
        match fmt_chunk.extension {
            Some(extension) => match extension.data {
                ExtensionData::AdpcmIma(_) => Ok(()),
                _ => Err(AdpcmError::WrongExtensionData),
            },
            None => Err(AdpcmError::MissingExtensionData),
        }
    }

    fn flush(&mut self, output: &mut Vec<u8>) -> (r: Result<(), AdpcmError>) {
        match self {
            Encoder::Mono(enc) => enc.flush(output),
            Encoder::Stereo(enc) => enc.flush(output),
        }
    }
}

/// The state of an ADPCM-IMA decoder, as plain values.
pub enum DecoderState {
    Mono(DecoderCoreState),
    Stereo(StereoDecoderState),
}

/// The decoder can take any bytes: a mono core that no error left with a complete header
/// waiting, or a synced stereo decoder.
pub open spec fn takes_input(s: DecoderState) -> bool {
    match s {
        DecoderState::Mono(c) => c.wf() && c.takes_input(),
        DecoderState::Stereo(st) => st.wf() && st.synced(),
    }
}

/// An ADPCM-IMA decoder that takes input decodes any bytes without panicking, and one that goes
/// on still takes input: data that no encoder writes gives an error.
pub proof fn lemma_ima_decoder_never_panics(s: DecoderState, input: Seq<u8>)
    requires
        takes_input(s),
    ensures
        !(<Decoder as AdpcmDecoder>::decode_spec(s, input) is Panics),
        <Decoder as AdpcmDecoder>::decode_spec(s, input) matches Flow::Going(s2, _) ==> takes_input(s2),
{
    match s {
        DecoderState::Mono(c) => lemma_decoder_never_panics(c, input),
        DecoderState::Stereo(st) => lemma_stereo_decoder_never_panics(st, input),
    }
}

/// ## The ADPCM-IMA Decoder for you to use.
#[derive(Clone, Copy)]
pub enum Decoder {
    Mono(DecoderCore),
    Stereo(StereoDecoder),
}

impl View for Decoder {
    type V = DecoderState;

    open spec fn view(&self) -> DecoderState {
        match self {
            Decoder::Mono(dec) => DecoderState::Mono(dec@),
            Decoder::Stereo(dec) => DecoderState::Stereo(dec@),
        }
    }
}

impl AdpcmDecoder for Decoder {
    open spec fn decoder_wf(state: DecoderState) -> bool {
        match state {
            DecoderState::Mono(s) => s.wf(),
            DecoderState::Stereo(s) => s.wf(),
        }
    }

    open spec fn decode_spec(state: DecoderState, input: Seq<u8>) -> Flow<DecoderState, i16> {
        match state {
            DecoderState::Mono(s) => match s.run(input) {
                Flow::Going(s2, o) => Flow::Going(DecoderState::Mono(s2), o),
                Flow::Stopped(s2, o, e) => Flow::Stopped(DecoderState::Mono(s2), o, e),
                Flow::Panics => Flow::Panics,
            },
            DecoderState::Stereo(s) => match s.run(input) {
                Flow::Going(s2, o) => Flow::Going(DecoderState::Stereo(s2), o),
                Flow::Stopped(s2, o, e) => Flow::Stopped(DecoderState::Stereo(s2), o, e),
                Flow::Panics => Flow::Panics,
            },
        }
    }

    proof fn lemma_decode_append(state: DecoderState, a: Seq<u8>, b: Seq<u8>) {
        match state {
            DecoderState::Mono(s) => {
                super::ima_roundtrip::lemma_run_append(s, a, b);
                if let Flow::Going(s1, o1) = s.run(a) {
                    match s1.run(b) {
                        Flow::Going(s2, o2) => {},
                        Flow::Stopped(s2, o2, e) => {},
                        Flow::Panics => {},
                    }
                }
            },
            DecoderState::Stereo(s) => {
                super::ima_roundtrip::lemma_stereo_decoder_run_append(s, a, b);
                if let Flow::Going(s1, o1) = s.run(a) {
                    match s1.run(b) {
                        Flow::Going(s2, o2) => {},
                        Flow::Stopped(s2, o2, e) => {},
                        Flow::Panics => {},
                    }
                }
            },
        }
    }

    /// A stereo decoder can be flushed when both cores stand at the same point.
    open spec fn can_flush(state: DecoderState) -> bool {
        match state {
            DecoderState::Mono(s) => true,
            DecoderState::Stereo(s) => s.synced(),
        }
    }

    open spec fn flush_spec(state: DecoderState) -> Flow<DecoderState, i16> {
        match state {
            DecoderState::Mono(s) => match s.flush_flow() {
                Flow::Going(s2, o) => Flow::Going(DecoderState::Mono(s2), o),
                Flow::Stopped(s2, o, e) => Flow::Stopped(DecoderState::Mono(s2), o, e),
                Flow::Panics => Flow::Panics,
            },
            DecoderState::Stereo(s) => match s.flush_flow() {
                Flow::Going(s2, o) => Flow::Going(DecoderState::Stereo(s2), o),
                Flow::Stopped(s2, o, e) => Flow::Stopped(DecoderState::Stereo(s2), o, e),
                Flow::Panics => Flow::Panics,
            },
        }
    }

    open spec fn block_size_spec(state: DecoderState) -> int {
        match state {
            DecoderState::Mono(s) => s.block_size as int,
            DecoderState::Stereo(s) => s.block_size as int,
        }
    }

    /// Each byte after the header holds two samples: `(block size - 4) * 2` frames per block.
    open spec fn frames_per_block_spec(state: DecoderState) -> Option<int> {
        if Self::block_size_spec(state) >= HEADER_SIZE && (Self::block_size_spec(state) - HEADER_SIZE) * 2 <= usize::MAX {
            Some((Self::block_size_spec(state) - HEADER_SIZE) * 2)
        } else {
            None
        }
    }

    open spec fn reset_spec(state: DecoderState) -> DecoderState {
        match state {
            DecoderState::Mono(s) => DecoderState::Mono(s.unready()),
            DecoderState::Stereo(s) => DecoderState::Stereo(StereoDecoderState {
                current_channel: CurrentChannel::Left,
                core_l: s.core_l.unready(),
                core_r: s.core_r.unready(),
                nibble_l: Seq::empty(),
                nibble_r: Seq::empty(),
                sample_l: Seq::empty(),
                sample_r: Seq::empty(),
                block_size: s.block_size,
            }),
        }
    }

    open spec fn new_spec(fmt_chunk: FmtChunk) -> Result<DecoderState, AdpcmError> {
        match fmt_chunk.channels {
            1 => Ok(DecoderState::Mono(DecoderCore::new_spec(fmt_chunk))),
            2 => Ok(DecoderState::Stereo(StereoDecoderState {
                current_channel: CurrentChannel::Left,
                core_l: DecoderCore::new_spec(fmt_chunk),
                core_r: DecoderCore::new_spec(fmt_chunk),
                nibble_l: Seq::empty(),
                nibble_r: Seq::empty(),
                sample_l: Seq::empty(),
                sample_r: Seq::empty(),
                block_size: channel_block_size(fmt_chunk),
            })),
            other => Err(AdpcmError::WrongChannels(other)),
        }
    }

    /// Mono or stereo decoders only; the block size per channel is the block size of the
    /// `fmt ` chunk divided by the channel count.
    fn new(fmt_chunk: FmtChunk) -> (r: Result<Self, AdpcmError>)
        ensures
            fmt_chunk.channels == 1 ==> (r matches Ok(d) && d@ == DecoderState::Mono(DecoderCore::new_spec(fmt_chunk))),
            fmt_chunk.channels == 2 ==> (r matches Ok(d) && (d@ matches DecoderState::Stereo(s) && s.synced()
                && s.core_l == DecoderCore::new_spec(fmt_chunk) && s.core_r == DecoderCore::new_spec(fmt_chunk)
                && s.block_size == channel_block_size(fmt_chunk) && s.current_channel == CurrentChannel::Left)),
            !(fmt_chunk.channels == 1 || fmt_chunk.channels == 2) ==> r == Err::<Decoder, AdpcmError>(AdpcmError::WrongChannels(fmt_chunk.channels)),
            r matches Ok(d) ==> takes_input(d@),
    {
        match fmt_chunk.channels {
            1 => Ok(Decoder::Mono(DecoderCore::new(fmt_chunk))),
            2 => {
                let d = StereoDecoder::new(fmt_chunk);
                assert(d@.nibble_l =~= Seq::empty() && d@.nibble_r =~= Seq::empty());
                assert(d@.sample_l =~= Seq::empty() && d@.sample_r =~= Seq::empty());
                Ok(Decoder::Stereo(d))
            },
            other => Err(AdpcmError::WrongChannels(other)),
        }
    }

    fn get_block_size(&self) -> (r: usize) {
        match self {
            Decoder::Mono(dec) => dec.block_size,
            Decoder::Stereo(dec) => dec.block_size,
        }
    }

    /// Each byte stores two 4-bit samples (packed as high/low nibbles).
    /// Effective decodable bytes per block: BLOCK_SIZE - HEADER_SIZE.
    /// Mono: Block size = BLOCK_SIZE.
    /// Stereo: Block size doubles (2×BLOCK_SIZE), but two samples (L+R) form one audio frame.
    /// Thus, total samples = (BLOCK_SIZE - HEADER_SIZE) × 2 samples (1 frame per stereo pair).
    fn frames_per_block(&self) -> (r: usize) {
        (self.get_block_size() - HEADER_SIZE) * 2
    }

    fn reset_states(&mut self) {
        match self {
            Decoder::Mono(dec) => dec.unready(),
            Decoder::Stereo(dec) => dec.unready(),
        }
    }

    fn decode(&mut self, input: &[u8], output: &mut Vec<i16>) -> (r: Result<(), AdpcmError>) {
        match self {
            Decoder::Mono(dec) => {
                proof { lemma_decoder_run_wf(dec@, input@); }
                dec.decode(input, output)
            },
            Decoder::Stereo(dec) => {
                proof { lemma_stereo_decoder_run_wf(dec@, input@); }
                dec.decode(input, output)
            },
        }
    }

    fn flush(&mut self, output: &mut Vec<i16>) -> (r: Result<(), AdpcmError>) {
        match self {
            Decoder::Mono(dec) => {
                proof { lemma_decoder_flush_wf(dec@); }
                dec.flush(output)
            },
            Decoder::Stereo(dec) => {
                proof { lemma_stereo_decoder_flush_wf(dec@); }
                dec.flush(output)
            },
        }
    }
}


/// What `flush` leaves of a well-formed decoder is well formed.
pub proof fn lemma_decoder_flush_wf(s: DecoderCoreState)
    requires
        s.wf(),
    ensures
        s.flush_flow() matches Flow::Going(s2, _) ==> s2.wf(),
        s.flush_flow() matches Flow::Stopped(s2, _, _) ==> s2.wf(),
    decreases s.flush_measure(),
{
    if !s.on_new_block() {
        lemma_decoder_step_wf(s, 0);
        if let Flow::Going(s2, o) = s.step(0) {
            if s2.flush_measure() < s.flush_measure() {
                lemma_decoder_flush_wf(s2);
            }
        }
    }
}

/// What `flush` leaves of a well-formed stereo decoder is well formed.
pub proof fn lemma_stereo_decoder_flush_wf(s: StereoDecoderState)
    requires
        s.wf(),
    ensures
        s.flush_flow() matches Flow::Going(s2, _) ==> s2.wf(),
        s.flush_flow() matches Flow::Stopped(s2, _, _) ==> s2.wf(),
    decreases s.flush_measure(),
{
    if !s.on_new_block() {
        lemma_stereo_decoder_step_wf(s, 0);
        if let Flow::Going(s2, o) = s.step(0) {
            if s2.flush_measure() < s.flush_measure() {
                lemma_stereo_decoder_flush_wf(s2);
            }
        }
    }
}

} // verus!
