use vstd::prelude::*;
use super::{AdpcmDecoder, AdpcmError, Flow};
use super::ima::{
    channel_block_size, interleave, choose_nibble, decode_group, header_bytes, i16_from_le, lemma_choose_nibble, lemma_decode_group_len,
    lemma_encoder_step_wf, lemma_encoder_run_wf, lemma_tables, new_fmt_spec, next_index, next_sample, DecoderCore,
    DecoderCoreState, EncoderCore, EncoderCoreState, BLOCK_SIZE, drain, StereoEncoderState,
    lemma_encoder_batch, lemma_drain_all, lemma_stereo_encoder_step_wf, StereoDecoderState,
    lemma_decoder_chunk, lemma_decoder_run_wf, Decoder, DecoderState,
};
use super::CurrentChannel;

verus! {

/// The sample a decoder rebuilds for each sample the encoder takes, and before it the block
/// header's sample where the sample starts a block.
pub open spec fn step_reconstruction(e: EncoderCoreState, sample: i16) -> Seq<i16> {
    let n = choose_nibble(e.prev_sample as int, e.stepsize_index as int, sample as int);
    let p = next_sample(e.prev_sample as int, e.stepsize_index as int, n) as i16;
    if e.header_written {
        seq![p]
    } else {
        seq![e.prev_sample, p]
    }
}

/// The samples a decoder rebuilds for `input`.
pub open spec fn reconstruction(e: EncoderCoreState, input: Seq<i16>) -> Seq<i16>
    decreases input.len(),
{
    if input.len() == 0 {
        Seq::empty()
    } else {
        reconstruction(e, input.drop_last()) + step_reconstruction(e.run(input.drop_last()).0, input.last())
    }
}

/// A decoder that follows an encoder: between blocks both wait for a header; within a block the
/// decoder has read every byte the encoder wrote, holds the bytes of the group not yet complete,
/// and decoding them (and the encoder's pending nibble) brings it to the encoder's state.
pub open spec fn follows(e: EncoderCoreState, d: DecoderCoreState) -> bool {
    &&& d.block_size == BLOCK_SIZE
    &&& if !e.header_written {
        &&& !d.ready
        &&& d.nibble_buffer.len() == 0
        &&& d.input_count == 0
    } else {
        &&& d.ready
        &&& d.input_count == e.num_outputs
        &&& d.nibble_buffer.len() == (e.num_outputs - 4) % 4
        &&& 0 <= d.stepsize_index <= 88
        &&& decode_group(d.sample_val, d.stepsize_index, d.nibble_buffer) matches Some((s, i, _)) && if e.half_byte_written {
            &&& 0 <= i <= 88
            &&& next_sample(s as int, i as int, e.nibble as int) == e.prev_sample
            &&& next_index(i as int, e.nibble as int) == e.stepsize_index
        } else {
            s == e.prev_sample && i == e.stepsize_index
        }
    }
}

/// The samples the encoder has encoded that the decoder has not given yet: those of the bytes
/// it holds, and the encoder's pending nibble.
pub open spec fn pending_samples(e: EncoderCoreState, d: DecoderCoreState) -> Seq<i16> {
    if !e.header_written {
        Seq::empty()
    } else {
        decode_group(d.sample_val, d.stepsize_index, d.nibble_buffer)->Some_0.2 + if e.half_byte_written {
            seq![e.prev_sample]
        } else {
            Seq::empty()
        }
    }
}

/// Decoding one more byte extends a group decode by its two nibbles, low first.
proof fn lemma_decode_group_push(sample: i16, index: i8, bytes: Seq<u8>, b: u8)
    ensures
        decode_group(sample, index, bytes.push(b)) == match decode_group(sample, index, bytes) {
            Some((s1, i1, o1)) => if !(0 <= i1 <= 88) {
                None
            } else {
                let s2 = next_sample(s1 as int, i1 as int, (b % 16) as int) as i16;
                let i2 = next_index(i1 as int, (b % 16) as int) as i8;
                let s3 = next_sample(s2 as int, i2 as int, (b / 16) as int) as i16;
                let i3 = next_index(i2 as int, (b / 16) as int) as i8;
                Some((s3, i3, o1.push(s2).push(s3)))
            },
            None => None,
        },
{
    assert(bytes.push(b).drop_last() =~= bytes);
}

/// The header bytes hold the sample and the step-size index.
proof fn lemma_header_fields(p: i16, i: i8)
    requires
        0 <= i <= 88,
    ensures
        header_bytes(p, i).len() == 4,
        i16_from_le(header_bytes(p, i)[0], header_bytes(p, i)[1]) == p,
        header_bytes(p, i)[2] as i8 == i,
        header_bytes(p, i)[3] == 0,
{
    assert((((p as u8) as u16 + ((((p as u16) >> 8u16) as u8) as u16) * 256) as i16) == p) by (bit_vector);
    assert(((i as u8) as i8) == i) by (bit_vector) requires 0 <= i <= 88;
}

/// A decoder between blocks reads the four header bytes: it takes the sample and the index and
/// gives the sample.
proof fn lemma_decode_header(d: DecoderCoreState, p: i16, i: i8)
    requires
        !d.ready,
        d.nibble_buffer.len() == 0,
        d.input_count == 0,
        0 <= i <= 88,
    ensures
        d.run(header_bytes(p, i)) == Flow::<DecoderCoreState, i16>::Going(
            DecoderCoreState {
                sample_val: p,
                stepsize_index: i,
                ready: true,
                nibble_buffer: Seq::empty(),
                input_count: 4,
                block_size: d.block_size,
            },
            seq![p],
        ),
{
    lemma_header_fields(p, i);
    let h = header_bytes(p, i);
    let s1 = DecoderCoreState { nibble_buffer: seq![h[0]], input_count: 1, ..d };
    let s2 = DecoderCoreState { nibble_buffer: seq![h[0], h[1]], input_count: 2, ..d };
    let s3 = DecoderCoreState { nibble_buffer: seq![h[0], h[1], h[2]], input_count: 3, ..d };
    let fin = DecoderCoreState {
        sample_val: p,
        stepsize_index: i,
        ready: true,
        nibble_buffer: Seq::empty(),
        input_count: 4,
        block_size: d.block_size,
    };
    assert(d.nibble_buffer.push(h[0]) =~= seq![h[0]]);
    assert(s1.nibble_buffer.push(h[1]) =~= seq![h[0], h[1]]);
    assert(s2.nibble_buffer.push(h[2]) =~= seq![h[0], h[1], h[2]]);
    assert(s3.nibble_buffer.push(h[3]) =~= h);
    assert(d.step(h[0]) == Flow::<DecoderCoreState, i16>::Going(s1, Seq::empty()));
    assert(s1.step(h[1]) == Flow::<DecoderCoreState, i16>::Going(s2, Seq::empty()));
    assert(s2.step(h[2]) == Flow::<DecoderCoreState, i16>::Going(s3, Seq::empty()));
    assert(s3.step(h[3]) == Flow::<DecoderCoreState, i16>::Going(fin, seq![p]));
    assert(h.take(1).drop_last() =~= Seq::<u8>::empty());
    assert(h.take(2).drop_last() =~= h.take(1));
    assert(h.take(3).drop_last() =~= h.take(2));
    assert(h.drop_last() =~= h.take(3));
    assert(h.take(1).last() == h[0]);
    assert(h.take(2).last() == h[1]);
    assert(h.take(3).last() == h[2]);
    assert(h.last() == h[3]);
    assert(d.run(Seq::<u8>::empty()) == Flow::<DecoderCoreState, i16>::Going(d, Seq::empty()));
    assert(Seq::<i16>::empty() + Seq::<i16>::empty() =~= Seq::<i16>::empty());
    assert(d.run(h.take(1)) == Flow::<DecoderCoreState, i16>::Going(s1, Seq::empty()));
    assert(d.run(h.take(2)) == Flow::<DecoderCoreState, i16>::Going(s2, Seq::empty()));
    assert(d.run(h.take(3)) == Flow::<DecoderCoreState, i16>::Going(s3, Seq::empty()));
    assert(Seq::<i16>::empty() + seq![p] =~= seq![p]);
}

/// One encoder step: decoding the bytes it writes keeps the decoder following the encoder, and
/// what the decoder gives, followed by what it still holds, is what it held before followed by
/// the step's reconstruction.
#[verifier::spinoff_prover]
#[verifier::rlimit(40)]
proof fn lemma_step_roundtrip(e: EncoderCoreState, d: DecoderCoreState, x: i16)
    requires
        e.wf(),
        follows(e, d),
    ensures
        d.run(e.step(x).1) matches Flow::Going(d2, o) && follows(e.step(x).0, d2)
            && o + pending_samples(e.step(x).0, d2) == pending_samples(e, d) + step_reconstruction(e, x),
{
    lemma_tables();
    lemma_choose_nibble(e.prev_sample as int, e.stepsize_index as int, x as int);
    lemma_encoder_step_wf(e, x);
    let n = choose_nibble(e.prev_sample as int, e.stepsize_index as int, x as int);
    let p = next_sample(e.prev_sample as int, e.stepsize_index as int, n) as i16;
    let i = next_index(e.stepsize_index as int, n) as i8;
    let (e2, bytes) = e.step(x);
    if !e.header_written {
        assert(!e.half_byte_written);
        lemma_decode_header(d, e.prev_sample, e.stepsize_index);
        assert(bytes == header_bytes(e.prev_sample, e.stepsize_index));
        let d2 = DecoderCoreState {
            sample_val: e.prev_sample,
            stepsize_index: e.stepsize_index,
            ready: true,
            nibble_buffer: Seq::empty(),
            input_count: 4,
            block_size: d.block_size,
        };
        assert(decode_group(d2.sample_val, d2.stepsize_index, d2.nibble_buffer) == Some(
            (e.prev_sample, e.stepsize_index, Seq::<i16>::empty()),
        ));
        assert(seq![e.prev_sample] + (Seq::<i16>::empty() + seq![p]) =~= Seq::<i16>::empty() + seq![e.prev_sample, p]);
    } else if !e.half_byte_written {
        assert(bytes =~= Seq::<u8>::empty());
        assert(d.run(Seq::<u8>::empty()) == Flow::<DecoderCoreState, i16>::Going(d, Seq::empty()));
        let g = decode_group(d.sample_val, d.stepsize_index, d.nibble_buffer)->Some_0.2;
        assert(Seq::<i16>::empty() + (g + seq![p]) =~= (g + Seq::<i16>::empty()) + seq![p]);
    } else {
        let byte = (e.nibble + n * 16) as u8;
        assert(byte % 16 == e.nibble && byte / 16 == n) by (nonlinear_arith)
            requires byte == (e.nibble + n * 16) as u8, 0 <= e.nibble < 16, 0 <= n < 16, e.nibble + n * 16 < 256;
        assert(bytes =~= seq![byte]);
        assert(seq![byte].drop_last() =~= Seq::<u8>::empty());
        assert(d.run(Seq::<u8>::empty()) == Flow::<DecoderCoreState, i16>::Going(d, Seq::empty()));
        let nb2 = d.nibble_buffer.push(byte);
        lemma_decode_group_push(d.sample_val, d.stepsize_index, d.nibble_buffer, byte);
        let (gs, gi, g) = decode_group(d.sample_val, d.stepsize_index, d.nibble_buffer)->Some_0;
        assert(decode_group(d.sample_val, d.stepsize_index, nb2) == Some((p, i, g.push(e.prev_sample).push(p))));
        assert(g.push(e.prev_sample).push(p) =~= g + seq![e.prev_sample, p]);
        if nb2.len() < 4 {
            assert((e.num_outputs + 1 - 4) % 4 == (e.num_outputs - 4) % 4 + 1);
            assert(e.num_outputs + 1 < BLOCK_SIZE);
            assert(Seq::<i16>::empty() + (g + seq![e.prev_sample, p]) =~= (g + seq![e.prev_sample]) + seq![p]);
        } else {
            assert((e.num_outputs + 1 - 4) % 4 == 0);
            assert(Seq::<i16>::empty() + (g + seq![e.prev_sample, p]) =~= g + seq![e.prev_sample, p]);
            assert((g + seq![e.prev_sample, p]) + Seq::<i16>::empty() =~= (g + seq![e.prev_sample]) + seq![p]);
        }
    }
}

/// Whatever samples an ADPCM-IMA encoder takes, a decoder that follows it decodes the bytes it
/// writes without error or panic and keeps following it; what the decoder gives, followed by
/// the samples of the group it has not completed, is the encoder's reconstruction of those
/// samples (after what it held before).
#[verifier::spinoff_prover]
#[verifier::rlimit(40)]
pub proof fn lemma_roundtrip(e: EncoderCoreState, d: DecoderCoreState, input: Seq<i16>)
    requires
        e.wf(),
        follows(e, d),
    ensures
        d.run(e.run(input).1) matches Flow::Going(d2, o) && follows(e.run(input).0, d2)
            && o + pending_samples(e.run(input).0, d2) == pending_samples(e, d) + reconstruction(e, input),
    decreases input.len(),
{
    if input.len() > 0 {
        let prev = input.drop_last();
        lemma_roundtrip(e, d, prev);
        lemma_encoder_run_wf(e, prev);
        let (e1, o1) = e.run(prev);
        let d1 = d.run(o1)->Going_0;
        let out1 = d.run(o1)->Going_1;
        lemma_step_roundtrip(e1, d1, input.last());
        let (e2, o2) = e1.step(input.last());
        lemma_run_append(d, o1, o2);
        let d2 = d1.run(o2)->Going_0;
        let out2 = d1.run(o2)->Going_1;
        assert(e.run(input) == (e2, o1 + o2));
        assert(reconstruction(e, input) == reconstruction(e, prev) + step_reconstruction(e1, input.last()));
        assert(d.run(o1 + o2) == Flow::<DecoderCoreState, i16>::Going(d2, out1 + out2));
        let pe = pending_samples(e, d);
        let r1 = reconstruction(e, prev);
        let sr = step_reconstruction(e1, input.last());
        assert((out1 + out2) + pending_samples(e2, d2) =~= out1 + (out2 + pending_samples(e2, d2)));
        assert(out1 + (pending_samples(e1, d1) + sr) =~= (out1 + pending_samples(e1, d1)) + sr);
        assert((pe + r1) + sr =~= pe + (r1 + sr));
    } else {
        assert(e.run(input).1 =~= Seq::<u8>::empty());
        assert(d.run(Seq::<u8>::empty()) == Flow::<DecoderCoreState, i16>::Going(d, Seq::empty()));
        assert(Seq::<i16>::empty() + pending_samples(e, d) =~= pending_samples(e, d) + Seq::<i16>::empty());
    }
}

/// Decoding `a + b` is decoding `a`, then `b` from where that ended.
pub(crate) proof fn lemma_run_append(d: DecoderCoreState, a: Seq<u8>, b: Seq<u8>)
    ensures
        d.run(a + b) == match d.run(a) {
            Flow::Going(d1, o1) => d1.run(b).after(o1),
            other => other,
        },
    decreases b.len(),
{
    if b.len() == 0 {
        assert(a + b =~= a);
        match d.run(a) {
            Flow::Going(d1, o1) => { assert(o1 + Seq::<i16>::empty() =~= o1); },
            _ => {},
        }
    } else {
        lemma_run_append(d, a, b.drop_last());
        assert((a + b).drop_last() =~= a + b.drop_last());
        assert((a + b).last() == b.last());
        match d.run(a) {
            Flow::Going(d1, o1) => {
                match d1.run(b.drop_last()) {
                    Flow::Going(d3, o3) => {
                        super::lemma_after_after(d3.step(b.last()), o1, o3);
                        match d3.step(b.last()) {
                            Flow::Going(d4, o4) => { assert(o1 + (o3 + o4) =~= (o1 + o3) + o4); },
                            Flow::Stopped(d4, o4, er) => { assert(o1 + (o3 + o4) =~= (o1 + o3) + o4); },
                            Flow::Panics => {},
                        }
                    },
                    _ => {},
                }
            },
            _ => {},
        }
    }
}

/// A decoder that follows an encoder holds fewer than eight of its samples.
pub proof fn lemma_pending_len(e: EncoderCoreState, d: DecoderCoreState)
    requires
        follows(e, d),
    ensures
        pending_samples(e, d).len() <= 7,
{
    if e.header_written {
        lemma_decode_group_len(d.sample_val, d.stepsize_index, d.nibble_buffer);
    }
}

/// What a new mono ADPCM-IMA encoder writes for any samples, decoded by the decoder made from
/// the `fmt ` chunk the encoder writes, is the encoder's reconstruction of those samples, but for
/// at most its last seven samples, which wait for their group of four bytes to complete.
pub proof fn lemma_new_roundtrip(sample_rate: u32, input: Seq<i16>)
    ensures
        DecoderCore::new_spec(new_fmt_spec(1, sample_rate, 4)).run(EncoderCore::new_spec().run(input).1) matches Flow::Going(d2, o)
            && o + pending_samples(EncoderCore::new_spec().run(input).0, d2) == reconstruction(EncoderCore::new_spec(), input)
            && pending_samples(EncoderCore::new_spec().run(input).0, d2).len() <= 7,
{
    let e = EncoderCore::new_spec();
    let f = new_fmt_spec(1, sample_rate, 4);
    let d = DecoderCore::new_spec(f);
    assert(BLOCK_SIZE * 1 == 512);
    assert(f.block_align == 512);
    assert(f.channels == 1);
    assert(f.block_align / f.channels == 512) by (nonlinear_arith)
        requires f.block_align == 512, f.channels == 1;
    assert(channel_block_size(f) == 512);
    assert(d.block_size == BLOCK_SIZE);
    lemma_roundtrip(e, d, input);
    assert(pending_samples(e, d) =~= Seq::<i16>::empty());
    assert(Seq::<i16>::empty() + reconstruction(e, input) =~= reconstruction(e, input));
    if let Flow::Going(d2, o) = d.run(e.run(input).1) {
        lemma_pending_len(e.run(input).0, d2);
    }
}

/// The samples at even positions: the left channel of interleaved stereo samples.
pub open spec fn evens(s: Seq<i16>) -> Seq<i16> {
    Seq::new(((s.len() + 1) / 2) as nat, |i: int| s[2 * i])
}

/// The samples at odd positions: the right channel of interleaved stereo samples.
pub open spec fn odds(s: Seq<i16>) -> Seq<i16> {
    Seq::new((s.len() / 2) as nat, |i: int| s[2 * i + 1])
}

/// The channels of `a + b`, where `a` holds whole frames, are those of `a` followed by those of `b`.
proof fn lemma_channels_append(a: Seq<i16>, b: Seq<i16>)
    requires
        a.len() % 2 == 0,
    ensures
        evens(a + b) == evens(a) + evens(b),
        odds(a + b) == odds(a) + odds(b),
{
    assert(evens(a + b) =~= evens(a) + evens(b));
    assert(odds(a + b) =~= odds(a) + odds(b));
}

/// Pairing up channels batch by batch is pairing up the whole channels.
proof fn lemma_interleave_append(a1: Seq<i16>, b1: Seq<i16>, a2: Seq<i16>, b2: Seq<i16>)
    requires
        a1.len() == b1.len(),
        a2.len() == b2.len(),
    ensures
        interleave(a1, b1) + interleave(a2, b2) == interleave(a1 + a2, b1 + b2),
{
    assert(interleave(a1, b1) + interleave(a2, b2) =~= interleave(a1 + a2, b1 + b2));
}

/// Encoding `a + b` is encoding `a`, then `b` from where that ended.
pub(crate) proof fn lemma_encoder_run_append(e: EncoderCoreState, a: Seq<i16>, b: Seq<i16>)
    ensures
        e.run(a + b) == (e.run(a).0.run(b).0, e.run(a).1 + e.run(a).0.run(b).1),
    decreases b.len(),
{
    if b.len() == 0 {
        assert(a + b =~= a);
        assert(e.run(a).1 + Seq::<u8>::empty() =~= e.run(a).1);
    } else {
        lemma_encoder_run_append(e, a, b.drop_last());
        assert((a + b).drop_last() =~= a + b.drop_last());
        assert((a + b).last() == b.last());
        let m = e.run(a).0;
        let o3 = m.run(b.drop_last()).1;
        let o4 = m.run(b.drop_last()).0.step(b.last()).1;
        assert((e.run(a).1 + o3) + o4 =~= e.run(a).1 + (o3 + o4));
    }
}

/// The reconstruction of `a + b` is that of `a`, then that of `b` from where encoding `a` ended.
#[verifier::spinoff_prover]
#[verifier::rlimit(40)]
proof fn lemma_reconstruction_append(e: EncoderCoreState, a: Seq<i16>, b: Seq<i16>)
    ensures
        reconstruction(e, a + b) == reconstruction(e, a) + reconstruction(e.run(a).0, b),
    decreases b.len(),
{
    if b.len() == 0 {
        assert(a + b =~= a);
        assert(reconstruction(e, a) + Seq::<i16>::empty() =~= reconstruction(e, a));
    } else {
        lemma_reconstruction_append(e, a, b.drop_last());
        assert((a + b).drop_last() =~= a + b.drop_last());
        assert((a + b).last() == b.last());
        lemma_encoder_run_append(e, a, b.drop_last());
        let r1 = reconstruction(e, a);
        let r2 = reconstruction(e.run(a).0, b.drop_last());
        let r3 = step_reconstruction(e.run(a).0.run(b.drop_last()).0, b.last());
        assert((r1 + r2) + r3 =~= r1 + (r2 + r3));
    }
}

/// A stereo encoder at the start of a run of eight frames: well formed, waiting for a left
/// sample, with no sample held.
pub open spec fn stereo_encoder_at_batch(s: StereoEncoderState) -> bool {
    &&& s.wf()
    &&& s.current_channel == CurrentChannel::Left
    &&& s.sample_l.len() == 0
    &&& s.sample_r.len() == 0
}

/// Encoding stereo `a + b` is encoding `a`, then `b` from where that ended.
pub(crate) proof fn lemma_stereo_encoder_run_append(e: StereoEncoderState, a: Seq<i16>, b: Seq<i16>)
    ensures
        e.run(a + b) == (e.run(a).0.run(b).0, e.run(a).1 + e.run(a).0.run(b).1),
    decreases b.len(),
{
    if b.len() == 0 {
        assert(a + b =~= a);
        assert(e.run(a).1 + Seq::<u8>::empty() =~= e.run(a).1);
    } else {
        lemma_stereo_encoder_run_append(e, a, b.drop_last());
        assert((a + b).drop_last() =~= a + b.drop_last());
        assert((a + b).last() == b.last());
        let m = e.run(a).0;
        let o3 = m.run(b.drop_last()).1;
        let o4 = m.run(b.drop_last()).0.step(b.last()).1;
        assert((e.run(a).1 + o3) + o4 =~= e.run(a).1 + (o3 + o4));
    }
}

/// Fewer than sixteen samples from the start of a run are only held, each in its channel; no byte
/// is written.
proof fn lemma_stereo_encoder_partial(e: StereoEncoderState, x: Seq<i16>)
    requires
        stereo_encoder_at_batch(e),
        x.len() < 16,
    ensures
        e.run(x) == (StereoEncoderState {
            current_channel: if x.len() % 2 == 0 { CurrentChannel::Left } else { CurrentChannel::Right },
            sample_l: evens(x),
            sample_r: odds(x),
            ..e
        }, Seq::<u8>::empty()),
    decreases x.len(),
{
    if x.len() == 0 {
        assert(evens(x) =~= e.sample_l);
        assert(odds(x) =~= e.sample_r);
    } else {
        let p = x.drop_last();
        lemma_stereo_encoder_partial(e, p);
        let s1 = e.run(p).0;
        assert(drain(s1.nibble_l, s1.nibble_r) == (Seq::<u8>::empty(), Seq::<u8>::empty(), Seq::<u8>::empty())) by {
            assert(s1.nibble_l.len() == 0);
        }
        if p.len() % 2 == 0 {
            assert(evens(x) =~= evens(p).push(x.last()));
            assert(odds(x) =~= odds(p));
        } else {
            assert(evens(x) =~= evens(p));
            assert(odds(x) =~= odds(p).push(x.last()));
        }
        assert(Seq::<u8>::empty() + Seq::<u8>::empty() =~= Seq::<u8>::empty());
    }
}

/// Sixteen samples from the start of a run: each core encodes the eight of its channel, and
/// their bytes are written interleaved in runs of four; the encoder is at the start of the next run.
proof fn lemma_stereo_encoder_batch(e: StereoEncoderState, x: Seq<i16>)
    requires
        stereo_encoder_at_batch(e),
        x.len() == 16,
    ensures
        evens(x).len() == 8,
        odds(x).len() == 8,
        e.run(x) == (StereoEncoderState {
            current_channel: CurrentChannel::Left,
            core_l: e.core_l.run(evens(x)).0,
            core_r: e.core_r.run(odds(x)).0,
            sample_l: Seq::empty(),
            sample_r: Seq::empty(),
            nibble_l: Seq::empty(),
            nibble_r: Seq::empty(),
        }, drain(e.core_l.run(evens(x)).1, e.core_r.run(odds(x)).1).0),
        stereo_encoder_at_batch(e.run(x).0),
{
    let p = x.drop_last();
    lemma_stereo_encoder_partial(e, p);
    let s1 = e.run(p).0;
    assert(evens(p) =~= evens(x));
    assert(odds(x) =~= odds(p).push(x.last()));
    lemma_encoder_batch(e.core_l, evens(x));
    lemma_encoder_batch(e.core_r, odds(x));
    let ol = e.core_l.run(evens(x)).1;
    let or = e.core_r.run(odds(x)).1;
    assert(s1.nibble_l + ol =~= ol);
    assert(s1.nibble_r + or =~= or);
    lemma_drain_all(ol, or);
    assert(drain(ol, or).1 =~= Seq::<u8>::empty());
    assert(drain(ol, or).2 =~= Seq::<u8>::empty());
    assert(Seq::<u8>::empty() + drain(ol, or).0 =~= drain(ol, or).0);
    lemma_stereo_encoder_step_wf(s1, x.last());
}

/// A stereo decoder at the start of a run of four left bytes, with no byte or sample held.
pub open spec fn stereo_decoder_at_batch(s: StereoDecoderState) -> bool {
    &&& s.wf()
    &&& s.current_channel == CurrentChannel::Left
    &&& s.nibble_l == Seq::<u8>::empty()
    &&& s.nibble_r == Seq::<u8>::empty()
    &&& s.sample_l == Seq::<i16>::empty()
    &&& s.sample_r == Seq::<i16>::empty()
}

/// Where a stereo decoder stands after the first `k < 8` bytes of a left run `bl` and a right
/// run `br`.
spec fn pair_state(s: StereoDecoderState, bl: Seq<u8>, br: Seq<u8>, k: int) -> StereoDecoderState {
    if k <= 3 {
        StereoDecoderState { nibble_l: bl.take(k), ..s }
    } else {
        StereoDecoderState { current_channel: CurrentChannel::Right, nibble_l: bl, nibble_r: br.take(k - 4), ..s }
    }
}

/// The first `k < 8` bytes of the two runs are only held.
proof fn lemma_stereo_decoder_pair_prefix(s: StereoDecoderState, bl: Seq<u8>, br: Seq<u8>, k: int)
    requires
        stereo_decoder_at_batch(s),
        bl.len() == 4,
        br.len() == 4,
        0 <= k <= 7,
    ensures
        s.run((bl + br).take(k)) == Flow::<StereoDecoderState, i16>::Going(pair_state(s, bl, br, k), Seq::empty()),
    decreases k,
{
    let input = bl + br;
    if k == 0 {
        assert(input.take(0) =~= Seq::<u8>::empty());
        assert(bl.take(0) =~= Seq::<u8>::empty());
    } else {
        lemma_stereo_decoder_pair_prefix(s, bl, br, k - 1);
        assert(input.take(k).drop_last() =~= input.take(k - 1));
        assert(input.take(k).last() == input[k - 1]);
        let t = pair_state(s, bl, br, k - 1);
        if k <= 3 {
            assert(t.nibble_l.push(input[k - 1]) =~= bl.take(k));
        } else if k == 4 {
            assert(t.nibble_l.push(input[k - 1]) =~= bl);
            assert(br.take(0) =~= Seq::<u8>::empty());
        } else {
            assert(t.nibble_r.push(input[k - 1]) =~= br.take(k - 4));
        }
        assert(interleave(Seq::<i16>::empty(), Seq::<i16>::empty()) =~= Seq::<i16>::empty());
        assert(Seq::<i16>::empty() + Seq::<i16>::empty() =~= Seq::<i16>::empty());
    }
}

/// A left run of four bytes and then a right run of four: each core decodes its run, and the
/// samples come out in pairs.
proof fn lemma_stereo_decoder_pair(s: StereoDecoderState, bl: Seq<u8>, br: Seq<u8>)
    requires
        stereo_decoder_at_batch(s),
        bl.len() == 4,
        br.len() == 4,
        s.core_l.run(bl) matches Flow::Going(cl, ol) && ol.len() <= 8,
        s.core_r.run(br) matches Flow::Going(cr, or) && or.len() <= 8,
    ensures
        s.run(bl + br) == Flow::<StereoDecoderState, i16>::Going(
            StereoDecoderState { core_l: s.core_l.run(bl)->Going_0, core_r: s.core_r.run(br)->Going_0, ..s },
            interleave(s.core_l.run(bl)->Going_1, s.core_r.run(br)->Going_1),
        ),
{
    let input = bl + br;
    lemma_stereo_decoder_pair_prefix(s, bl, br, 7);
    assert(input.drop_last() =~= input.take(7));
    assert(input.last() == br[3]);
    let t = pair_state(s, bl, br, 7);
    assert(t.nibble_r.push(br[3]) =~= br);
    let ol = s.core_l.run(bl)->Going_1;
    let or = s.core_r.run(br)->Going_1;
    assert(Seq::<i16>::empty() + ol =~= ol);
    assert(Seq::<i16>::empty() + or =~= or);
    assert(Seq::<i16>::empty() + interleave(ol, or) =~= interleave(ol, or));
}

/// Decoding stereo `a + b` is decoding `a`, then `b` from where that ended.
pub(crate) proof fn lemma_stereo_decoder_run_append(d: StereoDecoderState, a: Seq<u8>, b: Seq<u8>)
    ensures
        d.run(a + b) == match d.run(a) {
            Flow::Going(d1, o1) => d1.run(b).after(o1),
            other => other,
        },
    decreases b.len(),
{
    if b.len() == 0 {
        assert(a + b =~= a);
        match d.run(a) {
            Flow::Going(d1, o1) => { assert(o1 + Seq::<i16>::empty() =~= o1); },
            _ => {},
        }
    } else {
        lemma_stereo_decoder_run_append(d, a, b.drop_last());
        assert((a + b).drop_last() =~= a + b.drop_last());
        assert((a + b).last() == b.last());
        match d.run(a) {
            Flow::Going(d1, o1) => {
                match d1.run(b.drop_last()) {
                    Flow::Going(d3, o3) => {
                        super::lemma_after_after(d3.step(b.last()), o1, o3);
                    },
                    _ => {},
                }
            },
            _ => {},
        }
    }
}

/// At a four-byte boundary a decoder that follows an encoder holds none of its samples.
proof fn lemma_pending_at_boundary(e: EncoderCoreState, d: DecoderCoreState)
    requires
        follows(e, d),
        !e.half_byte_written,
        e.num_outputs % 4 == 0,
    ensures
        pending_samples(e, d) == Seq::<i16>::empty(),
{
    if e.header_written {
        assert(d.nibble_buffer.len() == 0);
        assert(Seq::<i16>::empty() + Seq::<i16>::empty() =~= Seq::<i16>::empty());
    }
}

/// A stereo decoder that follows a stereo encoder, both at the start of a run.
pub open spec fn stereo_follows(e: StereoEncoderState, d: StereoDecoderState) -> bool {
    &&& stereo_encoder_at_batch(e)
    &&& stereo_decoder_at_batch(d)
    &&& follows(e.core_l, d.core_l)
    &&& follows(e.core_r, d.core_r)
}

/// The core decoder's part of a run of eight samples: the bytes the core encoder writes decode,
/// as runs of four, to the reconstruction of the eight samples.
proof fn lemma_core_batch(e: EncoderCoreState, d: DecoderCoreState, x: Seq<i16>)
    requires
        e.wf(),
        d.wf(),
        follows(e, d),
        !e.half_byte_written,
        e.num_outputs % 4 == 0,
        x.len() == 8,
    ensures
        d.run(e.run(x).1) matches Flow::Going(d2, o) && follows(e.run(x).0, d2) && d2.wf()
            && d2.nibble_buffer.len() == 0 && o == reconstruction(e, x),
        !e.header_written ==> (e.run(x).1.len() == 8
            && (d.run(e.run(x).1.take(4)) matches Flow::Going(d1, o1) && o1.len() == 1 && d1.wf() && d1.nibble_buffer.len() == 0
            && (d1.run(e.run(x).1.skip(4)) matches Flow::Going(d2, o2) && o2.len() == 8
            && d.run(e.run(x).1) == Flow::<DecoderCoreState, i16>::Going(d2, o1 + o2)))),
        e.header_written ==> (e.run(x).1.len() == 4 && (d.run(e.run(x).1) matches Flow::Going(_, o) && o.len() == 8)),
{
    lemma_encoder_batch(e, x);
    lemma_roundtrip(e, d, x);
    let (e2, bytes) = e.run(x);
    lemma_pending_at_boundary(e, d);
    lemma_pending_at_boundary(e2, d.run(bytes)->Going_0);
    let o = d.run(bytes)->Going_1;
    assert(o + Seq::<i16>::empty() =~= o);
    assert(Seq::<i16>::empty() + reconstruction(e, x) =~= reconstruction(e, x));
    lemma_decoder_run_wf(d, bytes);
    if !e.header_written {
        assert(bytes.take(4) + bytes.skip(4) =~= bytes);
        lemma_run_append(d, bytes.take(4), bytes.skip(4));
        lemma_decoder_chunk(d, bytes.take(4));
        if let Flow::Going(d1, o1) = d.run(bytes.take(4)) {
            lemma_decoder_chunk(d1, bytes.skip(4));
        }
    } else {
        lemma_decoder_chunk(d, bytes);
    }
}

/// One run of sixteen stereo samples: the stereo decoder decodes the bytes the stereo encoder
/// writes to the reconstructions of the two channels in pairs, and keeps following it.
#[verifier::spinoff_prover]
#[verifier::rlimit(40)]
proof fn lemma_stereo_batch_roundtrip(e: StereoEncoderState, d: StereoDecoderState, x: Seq<i16>)
    requires
        stereo_follows(e, d),
        x.len() == 16,
    ensures
        d.run(e.run(x).1) matches Flow::Going(d2, o) && stereo_follows(e.run(x).0, d2)
            && o == interleave(reconstruction(e.core_l, evens(x)), reconstruction(e.core_r, odds(x))),
        reconstruction(e.core_l, evens(x)).len() == reconstruction(e.core_r, odds(x)).len(),
{
    lemma_stereo_encoder_batch(e, x);
    let xl = evens(x);
    let xr = odds(x);
    lemma_core_batch(e.core_l, d.core_l, xl);
    lemma_core_batch(e.core_r, d.core_r, xr);
    let ol = e.core_l.run(xl).1;
    let or = e.core_r.run(xr).1;
    let bytes = drain(ol, or).0;
    let rl = reconstruction(e.core_l, xl);
    let rr = reconstruction(e.core_r, xr);
    if !e.core_l.header_written {
        let (dl1, a1) = (d.core_l.run(ol.take(4))->Going_0, d.core_l.run(ol.take(4))->Going_1);
        let (dr1, b1) = (d.core_r.run(or.take(4))->Going_0, d.core_r.run(or.take(4))->Going_1);
        let (dl2, a2) = (dl1.run(ol.skip(4))->Going_0, dl1.run(ol.skip(4))->Going_1);
        let (dr2, b2) = (dr1.run(or.skip(4))->Going_0, dr1.run(or.skip(4))->Going_1);
        assert(ol.skip(4).skip(4).len() == 0);
        assert(drain(ol.skip(4).skip(4), or.skip(4).skip(4)).0 == Seq::<u8>::empty());
        assert(drain(ol.skip(4), or.skip(4)).0 == ol.skip(4).take(4) + or.skip(4).take(4) + Seq::<u8>::empty());
        assert(drain(ol.skip(4), or.skip(4)).0 =~= ol.skip(4).take(4) + or.skip(4).take(4));
        assert(ol.skip(4).take(4) =~= ol.skip(4));
        assert(or.skip(4).take(4) =~= or.skip(4));
        let p1 = ol.take(4) + or.take(4);
        let p2 = ol.skip(4) + or.skip(4);
        assert(bytes =~= p1 + p2);
        lemma_stereo_decoder_pair(d, ol.take(4), or.take(4));
        let mid = StereoDecoderState { core_l: dl1, core_r: dr1, ..d };
        lemma_stereo_decoder_pair(mid, ol.skip(4), or.skip(4));
        lemma_stereo_decoder_run_append(d, p1, p2);
        lemma_interleave_append(a1, b1, a2, b2);
    } else {
        assert(ol.skip(4).len() == 0);
        assert(bytes =~= ol + or);
        assert(ol.take(4) =~= ol);
        assert(or.take(4) =~= or);
        lemma_stereo_decoder_pair(d, ol, or);
    }
}

/// The samples of the complete runs of sixteen, the frames of eight that the stereo encoder has
/// encoded.
pub open spec fn complete_runs(input: Seq<i16>) -> Seq<i16> {
    input.take(input.len() - input.len() % 16)
}

/// Encoding with a core encoder, under a name whose definition is shown only where needed.
#[verifier::opaque]
spec fn core_encode(c: EncoderCoreState, x: Seq<i16>) -> (EncoderCoreState, Seq<u8>) {
    c.run(x)
}

/// Encoding with a stereo encoder, under a name whose definition is shown only where needed.
#[verifier::opaque]
spec fn stereo_encode(e: StereoEncoderState, x: Seq<i16>) -> (StereoEncoderState, Seq<u8>) {
    e.run(x)
}

/// Decoding with a stereo decoder, under a name whose definition is shown only where needed.
#[verifier::opaque]
spec fn stereo_decode(d: StereoDecoderState, b: Seq<u8>) -> Flow<StereoDecoderState, i16> {
    d.run(b)
}

/// `stereo_follows`, under a name whose definition is shown only where needed.
#[verifier::opaque]
spec fn follows_named(e: StereoEncoderState, d: StereoDecoderState) -> bool {
    stereo_follows(e, d)
}

/// `reconstruction`, under a name whose definition is shown only where needed.
#[verifier::opaque]
spec fn recon_named(e: EncoderCoreState, x: Seq<i16>) -> Seq<i16> {
    reconstruction(e, x)
}

/// `lemma_stereo_batch_roundtrip` over the named runs.
proof fn lemma_batch_named(e: StereoEncoderState, d: StereoDecoderState, x: Seq<i16>)
    requires
        follows_named(e, d),
        x.len() == 16,
    ensures
        stereo_decode(d, stereo_encode(e, x).1) matches Flow::Going(d2, o) && follows_named(stereo_encode(e, x).0, d2)
            && o == interleave(recon_named(e.core_l, evens(x)), recon_named(e.core_r, odds(x))),
        recon_named(e.core_l, evens(x)).len() == recon_named(e.core_r, odds(x)).len(),
        stereo_encode(e, x).0.core_l == core_encode(e.core_l, evens(x)).0,
        stereo_encode(e, x).0.core_r == core_encode(e.core_r, odds(x)).0,
{
    reveal(core_encode);
    reveal(stereo_encode);
    reveal(stereo_decode);
    reveal(follows_named);
    reveal(recon_named);
    lemma_stereo_batch_roundtrip(e, d, x);
    lemma_stereo_encoder_batch(e, x);
}

/// Encoding `a + b` over the named runs.
proof fn lemma_encode_append_named(e: StereoEncoderState, a: Seq<i16>, b: Seq<i16>)
    ensures
        stereo_encode(e, a + b).1 == stereo_encode(e, a).1 + stereo_encode(stereo_encode(e, a).0, b).1,
{
    reveal(stereo_encode);
    lemma_stereo_encoder_run_append(e, a, b);
}

/// Decoding `a + b` over the named runs, where decoding `a` goes on.
proof fn lemma_decode_append_named(d: StereoDecoderState, a: Seq<u8>, b: Seq<u8>)
    requires
        stereo_decode(d, a) is Going,
        stereo_decode(stereo_decode(d, a)->Going_0, b) is Going,
    ensures
        stereo_decode(d, a + b) == Flow::<StereoDecoderState, i16>::Going(
            stereo_decode(stereo_decode(d, a)->Going_0, b)->Going_0,
            stereo_decode(d, a)->Going_1 + stereo_decode(stereo_decode(d, a)->Going_0, b)->Going_1,
        ),
{
    reveal(stereo_decode);
    lemma_stereo_decoder_run_append(d, a, b);
}

/// Fewer than sixteen samples write no byte, and no byte decodes to nothing.
proof fn lemma_partial_named(e: StereoEncoderState, d: StereoDecoderState, x: Seq<i16>)
    requires
        follows_named(e, d),
        x.len() < 16,
    ensures
        stereo_encode(e, x).1 == Seq::<u8>::empty(),
        stereo_decode(d, Seq::<u8>::empty()) == Flow::<StereoDecoderState, i16>::Going(d, Seq::empty()),
        recon_named(e.core_l, Seq::empty()) == Seq::<i16>::empty(),
        recon_named(e.core_r, Seq::empty()) == Seq::<i16>::empty(),
{
    reveal(stereo_encode);
    reveal(stereo_decode);
    reveal(follows_named);
    reveal(recon_named);
    lemma_stereo_encoder_partial(e, x);
}

/// The reconstructions of one run of sixteen samples, in pairs, followed by those of later
/// samples, are the reconstructions of all of them in pairs.
#[verifier::spinoff_prover]
#[verifier::rlimit(40)]
proof fn lemma_merge_runs(el: EncoderCoreState, er: EncoderCoreState, x0: Seq<i16>, cr: Seq<i16>)
    requires
        x0.len() == 16,
        recon_named(el, evens(x0)).len() == recon_named(er, odds(x0)).len(),
    ensures
        interleave(recon_named(el, evens(x0)), recon_named(er, odds(x0)))
            + interleave(recon_named(core_encode(el, evens(x0)).0, evens(cr)), recon_named(core_encode(er, odds(x0)).0, odds(cr)))
            == interleave(recon_named(el, evens(x0 + cr)), recon_named(er, odds(x0 + cr))),
{
    reveal(core_encode);
    reveal(recon_named);
    lemma_channels_append(x0, cr);
    lemma_reconstruction_append(el, evens(x0), evens(cr));
    lemma_reconstruction_append(er, odds(x0), odds(cr));
    let a1 = reconstruction(el.run(evens(x0)).0, evens(cr));
    let b1 = reconstruction(er.run(odds(x0)).0, odds(cr));
    let a0 = reconstruction(el, evens(x0));
    let b0 = reconstruction(er, odds(x0));
    assert(interleave(a0, b0) + interleave(a1, b1) =~= interleave(a0 + a1, b0 + b1));
}

/// The stereo round trip over the named runs, by induction on the runs of sixteen.
proof fn lemma_stereo_roundtrip_named(e: StereoEncoderState, d: StereoDecoderState, input: Seq<i16>)
    requires
        follows_named(e, d),
    ensures
        stereo_decode(d, stereo_encode(e, input).1) matches Flow::Going(_, o) && o == interleave(
            recon_named(e.core_l, evens(complete_runs(input))),
            recon_named(e.core_r, odds(complete_runs(input))),
        ),
    decreases input.len(),
{
    if input.len() < 16 {
        lemma_partial_named(e, d, input);
        assert(complete_runs(input) =~= Seq::<i16>::empty());
        assert(evens(complete_runs(input)) =~= Seq::<i16>::empty());
        assert(odds(complete_runs(input)) =~= Seq::<i16>::empty());
        assert(interleave(Seq::<i16>::empty(), Seq::<i16>::empty()) =~= Seq::<i16>::empty());
    } else {
        let x0 = input.take(16);
        let rest = input.skip(16);
        let cr = complete_runs(rest);
        lemma_batch_named(e, d, x0);
        let e1 = stereo_encode(e, x0).0;
        let b0 = stereo_encode(e, x0).1;
        let d1 = stereo_decode(d, b0)->Going_0;
        lemma_stereo_roundtrip_named(e1, d1, rest);
        let b1 = stereo_encode(e1, rest).1;
        assert(x0 + rest =~= input);
        lemma_encode_append_named(e, x0, rest);
        lemma_decode_append_named(d, b0, b1);
        assert(complete_runs(input) =~= x0 + cr);
        lemma_merge_runs(e.core_l, e.core_r, x0, cr);
    }
}

/// Whatever samples an ADPCM-IMA stereo encoder takes (left and right in turn), a stereo decoder
/// that follows it decodes the bytes it writes without error or panic, to the reconstructions of
/// the two channels' samples of every complete run of sixteen, in pairs, left first; the samples
/// of the run not yet complete wait in the encoder.
pub proof fn lemma_stereo_roundtrip(e: StereoEncoderState, d: StereoDecoderState, input: Seq<i16>)
    requires
        stereo_follows(e, d),
    ensures
        d.run(e.run(input).1) matches Flow::Going(_, o) && o == interleave(
            reconstruction(e.core_l, evens(complete_runs(input))),
            reconstruction(e.core_r, odds(complete_runs(input))),
        ),
{
    reveal(follows_named);
    lemma_stereo_roundtrip_named(e, d, input);
    reveal(stereo_encode);
    reveal(stereo_decode);
    reveal(recon_named);
}

/// The state of a new stereo encoder.
pub open spec fn new_stereo_encoder() -> StereoEncoderState {
    StereoEncoderState {
        current_channel: CurrentChannel::Left,
        core_l: EncoderCore::new_spec(),
        core_r: EncoderCore::new_spec(),
        sample_l: Seq::empty(),
        sample_r: Seq::empty(),
        nibble_l: Seq::empty(),
        nibble_r: Seq::empty(),
    }
}

/// What a new stereo ADPCM-IMA encoder writes for any samples (left and right in turn), decoded by
/// the decoder made from the `fmt ` chunk the encoder writes, is the reconstructions of the two
/// channels' samples in pairs, left first, but for the samples of the last run of sixteen if it
/// is not complete, which wait in the encoder.
pub proof fn lemma_new_stereo_roundtrip(sample_rate: u32, input: Seq<i16>)
    ensures
        <Decoder as AdpcmDecoder>::new_spec(new_fmt_spec(2, sample_rate, 4)) is Ok,
        <Decoder as AdpcmDecoder>::decode_spec(
            <Decoder as AdpcmDecoder>::new_spec(new_fmt_spec(2, sample_rate, 4))->Ok_0,
            new_stereo_encoder().run(input).1,
        ) matches Flow::Going(_, o) && o == interleave(
            reconstruction(EncoderCore::new_spec(), evens(complete_runs(input))),
            reconstruction(EncoderCore::new_spec(), odds(complete_runs(input))),
        ),
{
    let e = new_stereo_encoder();
    let f = new_fmt_spec(2, sample_rate, 4);
    assert(f.block_align == 1024);
    assert(f.channels == 2);
    assert(f.block_align / f.channels == 512) by (nonlinear_arith)
        requires f.block_align == 1024, f.channels == 2;
    assert(channel_block_size(f) == BLOCK_SIZE);
    let d = StereoDecoderState {
        current_channel: CurrentChannel::Left,
        core_l: DecoderCore::new_spec(f),
        core_r: DecoderCore::new_spec(f),
        nibble_l: Seq::empty(),
        nibble_r: Seq::empty(),
        sample_l: Seq::empty(),
        sample_r: Seq::empty(),
        block_size: channel_block_size(f),
    };
    assert(<Decoder as AdpcmDecoder>::new_spec(f) == Ok::<DecoderState, AdpcmError>(DecoderState::Stereo(d)));
    assert(stereo_follows(e, d));
    lemma_stereo_roundtrip(e, d, input);
}

} // verus!
