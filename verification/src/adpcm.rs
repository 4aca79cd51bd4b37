use vstd::prelude::*;
use crate::wavcore::FmtChunk;

pub mod ima;
pub mod ms;
pub mod yamaha;
pub mod ms_roundtrip;
pub mod ima_roundtrip;

verus! {

/// * This is used for the encoder to decide while the new sample arrives, which channel the sample should be put in
#[derive(Clone, Copy, Debug, PartialEq, Eq)]
pub enum CurrentChannel {
    Left,
    Right,
}

/// Why an ADPCM encoder or decoder refused its input.
#[derive(Clone, Copy, Debug, PartialEq, Eq)]
pub enum AdpcmError {
    /// Only mono and stereo are supported; holds the channel count given.
    WrongChannels(u16),
    /// The reserved byte of an ADPCM-IMA block header was not zero; holds it.
    ReservedByteNotZero(u8),
    /// The step-size index of an ADPCM-IMA block header was outside `0..=88`; holds its byte.
    StepIndexOutOfRange(u8),
    /// A predictor (ADPCM-MS or ADPCM-YAMAHA) would leave 32 bits: the data cannot come from an
    /// encoder.
    PredictorOverflow,
    /// The predictor of an ADPCM-MS block header was greater than 6; holds it.
    PredictorOutOfRange(u8),
    /// The `fmt ` chunk holds extension data of another format.
    WrongExtensionData,
    /// The `fmt ` chunk lacks the extension data that the format needs.
    MissingExtensionData,
}

/// How a run of a stream coder over some input ends: still going with a state and the outputs so
/// far, stopped by an error after some outputs, or at an input on which the coder panics.
pub enum Flow<S, O> {
    Going(S, Seq<O>),
    Stopped(S, Seq<O>, AdpcmError),
    Panics,
}

impl<S, O> Flow<S, O> {
    /// The same flow with `o` written before its outputs.
    pub open spec fn after(self, o: Seq<O>) -> Flow<S, O> {
        match self {
            Flow::Going(s, o2) => Flow::Going(s, o + o2),
            Flow::Stopped(s, o2, e) => Flow::Stopped(s, o + o2, e),
            Flow::Panics => Flow::Panics,
        }
    }

    /// The same flow with its state passed through `f`.
    pub open spec fn map_state<T>(self, f: spec_fn(S) -> T) -> Flow<T, O> {
        match self {
            Flow::Going(s, o) => Flow::Going(f(s), o),
            Flow::Stopped(s, o, e) => Flow::Stopped(f(s), o, e),
            Flow::Panics => Flow::Panics,
        }
    }
}

/// Writing `o1` and then `o2` before a flow is writing `o1 + o2` before it.
pub proof fn lemma_after_after<S, O>(f: Flow<S, O>, o1: Seq<O>, o2: Seq<O>)
    ensures
        f.after(o2).after(o1) == f.after(o1 + o2),
{
    match f {
        Flow::Going(s, o) => { assert(o1 + (o2 + o) =~= (o1 + o2) + o); },
        Flow::Stopped(s, o, e) => { assert(o1 + (o2 + o) =~= (o1 + o2) + o); },
        Flow::Panics => {},
    }
}

/// Feeds the items of `input` in order to a coder whose single step is `step`, stopping at the
/// first error or panic.
pub open spec fn run_flow<S, I, O>(step: spec_fn(S, I) -> Flow<S, O>, s: S, input: Seq<I>) -> Flow<S, O>
    decreases input.len(),
{
    if input.len() == 0 {
        Flow::Going(s, Seq::empty())
    } else {
        match run_flow(step, s, input.drop_last()) {
            Flow::Going(s1, o1) => step(s1, input.last()).after(o1),
            other => other,
        }
    }
}

/// A run over one item is one step.
pub proof fn lemma_run_flow_single<S, I, O>(step: spec_fn(S, I) -> Flow<S, O>, s: S, x: I)
    ensures
        run_flow(step, s, seq![x]) == step(s, x),
{
    assert(seq![x].drop_last() =~= Seq::<I>::empty());
    assert(seq![x].last() == x);
    assert(run_flow(step, s, seq![x].drop_last()) == Flow::<S, O>::Going(s, Seq::empty()));
    match step(s, x) {
        Flow::Going(s2, o) => { assert(Seq::<O>::empty() + o =~= o); },
        Flow::Stopped(s2, o, e) => { assert(Seq::<O>::empty() + o =~= o); },
        Flow::Panics => {},
    }
}

/// A run over one more item takes one more step from where the shorter run went on.
pub proof fn lemma_run_flow_next<S, I, O>(step: spec_fn(S, I) -> Flow<S, O>, s: S, input: Seq<I>, i: int)
    requires
        0 <= i < input.len(),
    ensures
        run_flow(step, s, input.take(i + 1)) == match run_flow(step, s, input.take(i)) {
            Flow::Going(s1, o1) => step(s1, input[i]).after(o1),
            other => other,
        },
{
    assert(input.take(i + 1).drop_last() =~= input.take(i));
    assert(input.take(i + 1).last() == input[i]);
}

/// A run that does not panic has prefixes that do not panic, and one that stops on a prefix
/// ends there.
pub proof fn lemma_run_flow_prefix<S, I, O>(step: spec_fn(S, I) -> Flow<S, O>, s: S, input: Seq<I>, k: int)
    requires
        0 <= k <= input.len(),
        !(run_flow(step, s, input) is Panics),
    ensures
        !(run_flow(step, s, input.take(k)) is Panics),
        run_flow(step, s, input.take(k)) is Stopped ==> run_flow(step, s, input) == run_flow(step, s, input.take(k)),
    decreases input.len(),
{
    if k < input.len() {
        assert(input.drop_last().take(k) =~= input.take(k));
        lemma_run_flow_prefix(step, s, input.drop_last(), k);
    } else {
        assert(input.take(k) =~= input);
    }
}

/// Running over `a + b` is running over `a`, then over `b` from where that run went on.
pub proof fn lemma_run_flow_append<S, I, O>(step: spec_fn(S, I) -> Flow<S, O>, s: S, a: Seq<I>, b: Seq<I>)
    ensures
        run_flow(step, s, a + b) == match run_flow(step, s, a) {
            Flow::Going(s1, o1) => run_flow(step, s1, b).after(o1),
            other => other,
        },
    decreases b.len(),
{
    if b.len() == 0 {
        assert(a + b =~= a);
        match run_flow(step, s, a) {
            Flow::Going(s1, o1) => { assert(o1 + Seq::<O>::empty() =~= o1); },
            _ => {},
        }
    } else {
        let b1 = b.drop_last();
        lemma_run_flow_append(step, s, a, b1);
        assert((a + b).drop_last() =~= a + b1);
        assert((a + b).last() == b.last());
        match run_flow(step, s, a) {
            Flow::Going(s1, o1) => {
                match run_flow(step, s1, b1) {
                    Flow::Going(s3, o3) => {
                        lemma_after_after(step(s3, b.last()), o1, o3);
                    },
                    _ => {},
                }
            },
            _ => {},
        }
    }
}

/// A run never panics from a state of an invariant that every step keeps without panicking.
pub proof fn lemma_run_flow_inv_no_panic<S, I, O>(step: spec_fn(S, I) -> Flow<S, O>, inv: spec_fn(S) -> bool, s: S, input: Seq<I>)
    requires
        inv(s),
        forall|a: S, x: I| #![trigger step(a, x)] inv(a) ==> match step(a, x) {
            Flow::Going(b, _) => inv(b),
            Flow::Stopped(_, _, _) => true,
            Flow::Panics => false,
        },
    ensures
        !(run_flow(step, s, input) is Panics),
        run_flow(step, s, input) matches Flow::Going(b, _) ==> inv(b),
    decreases input.len(),
{
    if input.len() > 0 {
        lemma_run_flow_inv_no_panic(step, inv, s, input.drop_last());
        if let Flow::Going(s1, _) = run_flow(step, s, input.drop_last()) {
            assert(inv(s1));
            let _ = step(s1, input.last());
        }
    }
}

/// A run never panics where no step does.
pub proof fn lemma_run_flow_never_panics<S, I, O>(step: spec_fn(S, I) -> Flow<S, O>, s: S, input: Seq<I>)
    requires
        forall|a: S, x: I| #![trigger step(a, x)] !(step(a, x) is Panics),
    ensures
        !(run_flow(step, s, input) is Panics),
    decreases input.len(),
{
    if input.len() > 0 {
        lemma_run_flow_never_panics(step, s, input.drop_last());
    }
}

/// Runs keep an invariant that every step keeps.
pub proof fn lemma_run_flow_inv<S, I, O>(step: spec_fn(S, I) -> Flow<S, O>, inv: spec_fn(S) -> bool, s: S, input: Seq<I>)
    requires
        inv(s),
        forall|a: S, x: I| #![trigger step(a, x)] inv(a) ==> match step(a, x) {
            Flow::Going(b, _) => inv(b),
            Flow::Stopped(b, _, _) => inv(b),
            Flow::Panics => true,
        },
    ensures
        match run_flow(step, s, input) {
            Flow::Going(b, _) => inv(b),
            Flow::Stopped(b, _, _) => inv(b),
            Flow::Panics => true,
        },
    decreases input.len(),
{
    if input.len() > 0 {
        lemma_run_flow_inv(step, inv, s, input.drop_last());
    }
}

/// The two nibbles of a byte: the high one by shifting, the low one by masking.
pub proof fn lemma_nibbles(b: u8)
    by (bit_vector)
    ensures
        b >> 4u8 == b / 16,
        b & 0x0Fu8 == b % 16,
{
}

/// Two nibbles joined into a byte, the low one first.
pub proof fn lemma_pack_nibbles(lo: u8, hi: u8)
    by (bit_vector)
    requires
        lo < 16,
        hi < 16,
    ensures
        lo | (hi << 4u8) == lo + hi * 16,
{
}

/// Clamps `x` into the closed range `[lo, hi]`.
pub open spec fn clamp(x: int, lo: int, hi: int) -> int {
    if x < lo {
        lo
    } else if x > hi {
        hi
    } else {
        x
    }
}

/// Division that rounds toward zero, as the `/` of Rust's signed integers does.
pub open spec fn tdiv(a: int, b: int) -> int {
    if a >= 0 {
        a / b
    } else {
        -((-a) / b)
    }
}

/// Clamps an `i32` into `[lo, hi]`.
pub fn clamp_i32(x: i32, lo: i32, hi: i32) -> (r: i32)
    requires
        lo <= hi,
    ensures
        r == clamp(x as int, lo as int, hi as int),
{
    if x < lo {
        lo
    } else if x > hi {
        hi
    } else {
        x
    }
}


/// ## The `AdpcmEncoder` trait for all of the ADPCM encoders to implement
/// * This thing is able to encode samples, write the `fmt ` chunk, update statistics, and finish encoding.
pub trait AdpcmEncoder: View + Sized {
    /// The encoder's state invariant.
    spec fn encoder_wf(state: Self::V) -> bool;

    /// The state after encoding `input`, and the bytes written.
    spec fn encode_spec(state: Self::V, input: Seq<i16>) -> (Self::V, Seq<u8>);

    /// Whether `flush` may be called in this state.
    spec fn can_flush(state: Self::V) -> bool;

    /// The state after `flush`, and the bytes written.
    spec fn flush_spec(state: Self::V) -> (Self::V, Seq<u8>);

    /// The arguments for which `new_fmt_chunk` works.
    spec fn fmt_args_ok(channels: u16, sample_rate: u32, bits_per_sample: u16) -> bool;

    /// The `fmt ` chunks that `modify_fmt_chunk` accepts.
    spec fn modify_args_ok(fmt_chunk: FmtChunk) -> bool;

    /// Whether `f` is the `fmt ` chunk that `new_fmt_chunk` makes for these arguments.
    spec fn new_fmt_is(channels: u16, sample_rate: u32, bits_per_sample: u16, f: FmtChunk) -> bool;

    /// The `fmt ` chunk that `modify_fmt_chunk` leaves, and what it returns.
    spec fn modify_spec(fmt_chunk: FmtChunk) -> (FmtChunk, Result<(), AdpcmError>);

    /// The encoder that `new` builds for a channel count, or the error it gives.
    spec fn new_spec(channels: u16) -> Result<Self::V, AdpcmError>;

    fn new(channels: u16) -> (r: Result<Self, AdpcmError>)
        ensures
            r matches Ok(e) ==> Self::encoder_wf(e@) && Self::new_spec(channels) == Ok::<Self::V, AdpcmError>(e@),
            r matches Err(e) ==> Self::new_spec(channels) == Err::<Self::V, AdpcmError>(e),
            (channels == 1 || channels == 2) <==> r is Ok,
            !(channels == 1 || channels == 2) ==> r == Err::<Self, AdpcmError>(AdpcmError::WrongChannels(channels)),
    ;

    /// Encoding in two calls is encoding at once: encoding `a` and then, from where that ended,
    /// `b` ends where encoding `a + b` ends and writes the same bytes.
    proof fn lemma_encode_append(state: Self::V, a: Seq<i16>, b: Seq<i16>)
        ensures
            Self::encode_spec(state, a + b).0 == Self::encode_spec(Self::encode_spec(state, a).0, b).0,
            Self::encode_spec(state, a + b).1 == Self::encode_spec(state, a).1 + Self::encode_spec(
                Self::encode_spec(state, a).0,
                b,
            ).1,
    ;

    /// * Encodes the samples of `input` in order and appends the bytes it excretes to `output`.
    /// * You can continue encoding by calling `encode()` again with further samples.
    fn encode(&mut self, input: &[i16], output: &mut Vec<u8>) -> (r: Result<(), AdpcmError>)
        requires
            Self::encoder_wf(old(self)@),
        ensures
            r is Ok,
            final(self)@ == Self::encode_spec(old(self)@, input@).0,
            final(output)@ == old(output)@ + Self::encode_spec(old(self)@, input@).1,
            Self::encoder_wf(final(self)@),
    ;

    /// * Call this method if you want to create a `fmt ` chunk for a WAV file.
    /// * Later after encoding, you should call `modify_fmt_chunk()` to update the `fmt ` chunk for the encoder to save some statistics data.
    fn new_fmt_chunk(&mut self, channels: u16, sample_rate: u32, bits_per_sample: u16) -> (r: Result<FmtChunk, AdpcmError>)
        requires
            Self::encoder_wf(old(self)@),
            Self::fmt_args_ok(channels, sample_rate, bits_per_sample),
        ensures
            final(self)@ == old(self)@,
            r matches Ok(f) && Self::new_fmt_is(channels, sample_rate, bits_per_sample, f),
    ;

    /// * After encoding, call this function to update the `fmt ` chunk for the encoder to save some statistics data.
    fn modify_fmt_chunk(&self, fmt_chunk: &mut FmtChunk) -> (r: Result<(), AdpcmError>)
        requires
            Self::encoder_wf(self@),
            Self::modify_args_ok(*old(fmt_chunk)),
        ensures
            *final(fmt_chunk) == Self::modify_spec(*old(fmt_chunk)).0,
            r == Self::modify_spec(*old(fmt_chunk)).1,
    ;

    /// * Flush the encoder. The encoder may have some half-bytes (nibbles) in the cache, or the encoded data size is not a full block.
    /// * Normally the `flush()` method will feed zero samples for the encoder to let it excrete.
    fn flush(&mut self, output: &mut Vec<u8>) -> (r: Result<(), AdpcmError>)
        requires
            Self::encoder_wf(old(self)@),
            Self::can_flush(old(self)@),
        ensures
            r is Ok,
            final(self)@ == Self::flush_spec(old(self)@).0,
            final(output)@ == old(output)@ + Self::flush_spec(old(self)@).1,
            Self::encoder_wf(final(self)@),
    ;
}

/// ## The `AdpcmDecoder` trait for all of the ADPCM decoders to implement
/// * To create this thing, you need the WAV `fmt ` chunk data for the encoder to get the critical data.
pub trait AdpcmDecoder: View + Sized {
    /// The decoder's state invariant.
    spec fn decoder_wf(state: Self::V) -> bool;

    /// How decoding `input` from `state` ends.
    spec fn decode_spec(state: Self::V, input: Seq<u8>) -> Flow<Self::V, i16>;

    /// Whether `flush` may be called in this state.
    spec fn can_flush(state: Self::V) -> bool;

    /// How `flush` ends.
    spec fn flush_spec(state: Self::V) -> Flow<Self::V, i16>;

    /// The block size of a decoder in this state.
    spec fn block_size_spec(state: Self::V) -> int;

    /// The audio frames in one block, where defined.
    spec fn frames_per_block_spec(state: Self::V) -> Option<int>;

    /// The state after `reset_states`.
    spec fn reset_spec(state: Self::V) -> Self::V;

    /// The decoder that `new` builds from a `fmt ` chunk, or the error it gives.
    spec fn new_spec(fmt_chunk: FmtChunk) -> Result<Self::V, AdpcmError>;

    /// * Only mono and stereo decoders can be built.
    fn new(fmt_chunk: FmtChunk) -> (r: Result<Self, AdpcmError>)
        ensures
            r matches Ok(d) ==> Self::decoder_wf(d@) && Self::new_spec(fmt_chunk) == Ok::<Self::V, AdpcmError>(d@),
            r matches Err(e) ==> Self::new_spec(fmt_chunk) == Err::<Self::V, AdpcmError>(e),
            r is Ok ==> fmt_chunk.channels == 1 || fmt_chunk.channels == 2,
    ;

    /// * Get the block size for each block stored in the `data` chunk of the WAV file.
    /// * When it's needed to seek for a sample, first seek to the block, then decode the block to get the sample.
    fn get_block_size(&self) -> (r: usize)
        ensures
            r == Self::block_size_spec(self@),
    ;

    /// * How many audio frames are encoded in a block of data. An audio frame is an array that contains one sample for every channel.
    fn frames_per_block(&self) -> (r: usize)
        requires
            Self::decoder_wf(self@),
            Self::frames_per_block_spec(self@) is Some,
        ensures
            r == Self::frames_per_block_spec(self@)->Some_0,
    ;

    /// * This function is called before seeking, it resets the decoder to prevent it excretes unexpected samples.
    fn reset_states(&mut self)
        requires
            Self::decoder_wf(old(self)@),
        ensures
            final(self)@ == Self::reset_spec(old(self)@),
            Self::decoder_wf(final(self)@),
    ;

    /// Decoding in two calls is decoding at once: decoding `a + b` is decoding `a` and then, if
    /// that went on, `b` from where it ended, its samples after those of `a`.
    proof fn lemma_decode_append(state: Self::V, a: Seq<u8>, b: Seq<u8>)
        ensures
            Self::decode_spec(state, a + b) == match Self::decode_spec(state, a) {
                Flow::Going(s1, o1) => Self::decode_spec(s1, b).after(o1),
                other => other,
            },
    ;

    /// * Decodes the bytes of `input` in order and appends the samples it excretes to `output`.
    /// * To continue decoding, just call the function again with further bytes.
    fn decode(&mut self, input: &[u8], output: &mut Vec<i16>) -> (r: Result<(), AdpcmError>)
        requires
            Self::decoder_wf(old(self)@),
            !(Self::decode_spec(old(self)@, input@) is Panics),
        ensures
            Self::decode_spec(old(self)@, input@) matches Flow::Going(s, o) ==> r is Ok && final(self)@ == s
                && final(output)@ == old(output)@ + o,
            Self::decode_spec(old(self)@, input@) matches Flow::Stopped(s, o, e) ==> r == Err::<(), AdpcmError>(e)
                && final(self)@ == s && final(output)@ == old(output)@ + o,
            Self::decoder_wf(final(self)@),
    ;

    /// * The `flush()` function causes the decoder to excrete the last samples.
    fn flush(&mut self, output: &mut Vec<i16>) -> (r: Result<(), AdpcmError>)
        requires
            Self::decoder_wf(old(self)@),
            Self::can_flush(old(self)@),
            !(Self::flush_spec(old(self)@) is Panics),
        ensures
            Self::flush_spec(old(self)@) matches Flow::Going(s, o) ==> r is Ok && final(self)@ == s
                && final(output)@ == old(output)@ + o,
            Self::flush_spec(old(self)@) matches Flow::Stopped(s, o, e) ==> r == Err::<(), AdpcmError>(e)
                && final(self)@ == s && final(output)@ == old(output)@ + o,
            Self::decoder_wf(final(self)@),
    ;
}

/// ### An example test function to test the `AdpcmEncoder` and the `AdpcmDecoder`.
/// * Normally it won't be called by you, but if you want to test how lossy the ADPCM algorithm is, this can help.
/// * The samples of `input` are encoded, every byte the encoder excretes is fed to the decoder,
///   and what the decoder excretes is appended to `output`.
pub fn test<E: AdpcmEncoder, D: AdpcmDecoder>(encoder: &mut E, decoder: &mut D, input: &[i16], output: &mut Vec<i16>) -> (r: Result<(), AdpcmError>)
    requires
        E::encoder_wf(old(encoder)@),
        D::decoder_wf(old(decoder)@),
        D::decode_spec(old(decoder)@, E::encode_spec(old(encoder)@, input@).1) is Going,
    ensures
        r is Ok,
        final(encoder)@ == E::encode_spec(old(encoder)@, input@).0,
        final(decoder)@ == D::decode_spec(old(decoder)@, E::encode_spec(old(encoder)@, input@).1)->Going_0,
        final(output)@ == old(output)@ + D::decode_spec(old(decoder)@, E::encode_spec(old(encoder)@, input@).1)->Going_1,
{
    let mut bytes: Vec<u8> = Vec::new();
    let r = encoder.encode(input, &mut bytes);
    assert(bytes@ =~= E::encode_spec(old(encoder)@, input@).1);
    let _ = decoder.decode(&bytes, output);
    r
}

} // verus!
