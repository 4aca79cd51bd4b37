use vstd::prelude::*;
use super::{lemma_run_flow_append, lemma_run_flow_next, lemma_run_flow_single, run_flow, CurrentChannel, Flow};
use super::ms::{
    adaptation, breakfast_of, choose_nibble, decoder_next_delta, decoder_step, def_coeff, def_coeff_table_spec,
    encoder_next_delta, lemma_adaptation, lemma_choose_nibble_bound, lemma_compress_wf, lemma_encoder_run_wf,
    lemma_le_bytes_roundtrip, le_bytes, mono_header_bytes, pack, predictor, signed_nibble, stereo_header_bytes,
    stereo_left_bytes, stereo_right_bytes, ChannelsState, DecoderCoreState, DecoderState, EncoderCoreState, EncoderState,
    StereoDecoderState, StereoEncoderState, BLOCK_SIZE, HEADER_SIZE, is_new_fmt, DecoderCore, StereoDecoder,
};
use crate::wavcore::FmtChunk;

verus! {

/// An encoder core whose step fits in an `i16` and whose block uses the first standard
/// coefficient pair, as every block of the encoder does.
pub open spec fn core_small(c: EncoderCoreState) -> bool {
    &&& c.delta <= 32767
    &&& c.ready ==> c.coeff == def_coeff(0)
}

/// The encoder cores are small, and a stereo encoder's cores are ready together with it.
pub open spec fn encoder_small(e: EncoderState) -> bool {
    match e.channels {
        ChannelsState::Mono(c) => core_small(c),
        ChannelsState::Stereo(st) => {
            &&& core_small(st.core_l)
            &&& core_small(st.core_r)
            &&& st.core_l.ready == st.ready
            &&& st.core_r.ready == st.ready
        },
    }
}

/// A decoder core that follows an encoder core: between blocks both wait for a header; within
/// a block they hold the same samples, coefficients and step.
pub open spec fn core_tracks(c: EncoderCoreState, dc: DecoderCoreState) -> bool {
    &&& dc.coeff_table == def_coeff_table_spec()
    &&& if c.ready {
        &&& dc.ready
        &&& dc.sample1 == c.sample1
        &&& dc.sample2 == c.sample2
        &&& dc.coeff == c.coeff
        &&& dc.delta == c.delta
    } else {
        &&& !dc.ready
        &&& dc.header_buffer.len() == 0
        &&& dc.bytes_eaten == 0
    }
}

/// A decoder that follows an encoder: same channel count, cores that follow, the block size the
/// encoder writes, and as many bytes of the current block read as the encoder wrote.
pub open spec fn tracks(e: EncoderState, d: DecoderState) -> bool {
    match e.channels {
        ChannelsState::Mono(c) => match d {
            DecoderState::Mono(dc) => {
                &&& core_tracks(c, dc)
                &&& dc.max_bytes_can_eat == BLOCK_SIZE
                &&& c.ready ==> dc.bytes_eaten == e.bytes_yield
            },
            DecoderState::Stereo(_) => false,
        },
        ChannelsState::Stereo(st) => match d {
            DecoderState::Stereo(dst) => {
                &&& core_tracks(st.core_l, dst.core_l)
                &&& core_tracks(st.core_r, dst.core_r)
                &&& dst.ready == st.ready
                &&& dst.max_bytes_can_eat == 2 * BLOCK_SIZE
                &&& dst.bytes_eaten == if st.ready { e.bytes_yield } else { 0 }
            },
            DecoderState::Mono(_) => false,
        },
    }
}

/// The samples that one more sample lets the encoder write, as a decoder rebuilds them: the
/// first samples of a block exactly, the others as the encoder reconstructed them.
pub open spec fn step_reconstruction(e: EncoderState, sample: i16) -> Seq<i16> {
    let buf = e.buffer.push(sample);
    match e.channels {
        ChannelsState::Mono(c) => if buf.len() == 2 {
            if !c.ready {
                seq![buf[0], buf[1]]
            } else {
                let c1 = c.compress(buf[0]).0;
                let c2 = c1.compress(buf[1]).0;
                seq![c1.sample1, c2.sample1]
            }
        } else {
            Seq::empty()
        },
        ChannelsState::Stereo(st) => if buf.len() == 4 {
            if !st.ready {
                seq![buf[0], buf[1], buf[2], buf[3]]
            } else {
                let s1 = st.compress(buf[0]).0;
                let s2 = s1.compress(buf[1]).0;
                let s3 = s2.compress(buf[2]).0;
                let s4 = s3.compress(buf[3]).0;
                seq![s1.core_l.sample1, s2.core_r.sample1, s3.core_l.sample1, s4.core_r.sample1]
            }
        } else {
            Seq::empty()
        },
    }
}

/// The samples of `input` that the encoder writes, as a decoder rebuilds them.
pub open spec fn reconstruction(e: EncoderState, input: Seq<i16>) -> Seq<i16>
    decreases input.len(),
{
    if input.len() == 0 {
        Seq::empty()
    } else {
        reconstruction(e, input.drop_last()) + step_reconstruction(e.run(input.drop_last()).0, input.last())
    }
}

/// With a step that fits in an `i16` and a prediction within the `i16` range, the encoder's next
/// step fits in an `i16` too, and the decoder computes the same one.
proof fn lemma_small_delta(pred: int, delta: int, sample: int)
    requires
        16 <= delta <= 32767,
        -32768 <= pred <= 32767,
        -32768 <= sample <= 32767,
    ensures
        0 <= choose_nibble(pred, delta, sample) < 16,
        16 <= encoder_next_delta(delta, choose_nibble(pred, delta, sample)) <= 32767,
        encoder_next_delta(delta, choose_nibble(pred, delta, sample)) == decoder_next_delta(delta, choose_nibble(pred, delta, sample)),
{
    lemma_choose_nibble_bound(pred, delta, sample);
    let n = choose_nibble(pred, delta, sample);
    lemma_adaptation(n);
    let sn = signed_nibble(n);
    let a = if sn < 0 { -sn } else { sn };
    let err = sample - pred;
    let abs_err = if err < 0 { -err } else { err };
    let ad = adaptation(n);
    if a >= 4 {
        assert((2 * a - 1) * delta <= 2 * abs_err) by (nonlinear_arith)
            requires a * delta <= abs_err + delta / 2, delta > 0;
        assert(4 * ad * delta <= 205 * (2 * a - 1) * delta) by (nonlinear_arith)
            requires 4 * ad <= 205 * (2 * a - 1), delta > 0;
        assert(205 * (2 * a - 1) * delta <= 410 * abs_err) by (nonlinear_arith)
            requires (2 * a - 1) * delta <= 2 * abs_err;
        assert(ad * delta <= 6717337) by (nonlinear_arith)
            requires 4 * ad * delta <= 205 * (2 * a - 1) * delta, 205 * (2 * a - 1) * delta <= 410 * abs_err, abs_err <= 65535;
    } else {
        assert(230 * delta <= 230 * 32767) by (nonlinear_arith)
            requires delta <= 32767;
    }
    assert(ad * delta >= 0) by (nonlinear_arith)
        requires ad >= 0, delta >= 0;
}

/// A decoder core that follows a ready encoder core, whose step fits in an `i16` and whose block
/// uses the first standard coefficient pair, expands the nibble the encoder chose for a sample
/// into the sample the encoder reconstructed, and keeps following it.
pub proof fn lemma_compress_expand(c: EncoderCoreState, dc: DecoderCoreState, sample: i16)
    requires
        c.wf(),
        core_small(c),
        c.ready,
        core_tracks(c, dc),
    ensures
        c.compress(sample).1 < 16,
        dc.can_expand(),
        core_small(c.compress(sample).0),
        core_tracks(c.compress(sample).0, dc.expand(c.compress(sample).1 as int).0),
        dc.expand(c.compress(sample).1 as int).1 == c.compress(sample).0.sample1,
        dc.expand(c.compress(sample).1 as int).0.header_buffer == dc.header_buffer,
        dc.expand(c.compress(sample).1 as int).0.bytes_eaten == dc.bytes_eaten,
        dc.expand(c.compress(sample).1 as int).0.max_bytes_can_eat == dc.max_bytes_can_eat,
{
    let pred = predictor(c.sample1, c.sample2, c.coeff);
    assert(c.coeff.coeff1 == 256 && c.coeff.coeff2 == 0);
    let s1 = c.sample1 as int;
    assert(s1 * c.coeff.coeff1 + c.sample2 * c.coeff.coeff2 == s1 * 256) by (nonlinear_arith)
        requires c.coeff.coeff1 == 256, c.coeff.coeff2 == 0;
    assert((s1 * 256) / 256 == s1 && (-(s1 * 256)) / 256 == -s1) by (nonlinear_arith);
    assert(pred == c.sample1);
    lemma_small_delta(pred, c.delta as int, sample as int);
    lemma_compress_wf(c, sample);
}

/// The header fields written as bytes are read back as the same fields.
proof fn lemma_mono_header_bytes(h: (u8, i16, i16, i16))
    ensures
        mono_header_bytes(h).len() == 7,
        breakfast_of(mono_header_bytes(h)) == h,
{
    lemma_le_bytes_roundtrip(h.1);
    lemma_le_bytes_roundtrip(h.2);
    lemma_le_bytes_roundtrip(h.3);
    let b = mono_header_bytes(h);
    assert(b =~= seq![
        h.0,
        le_bytes(h.1)[0], le_bytes(h.1)[1],
        le_bytes(h.2)[0], le_bytes(h.2)[1],
        le_bytes(h.3)[0], le_bytes(h.3)[1],
    ]);
}

/// Header bytes before the seventh only fill a waiting mono decoder's header buffer.
proof fn lemma_mono_fill(dc: DecoderCoreState, h: Seq<u8>, k: int)
    requires
        !dc.ready,
        dc.header_buffer.len() == 0,
        h.len() == 7,
        0 <= k < 7,
    ensures
        DecoderState::Mono(dc).run(h.take(k)) == Flow::<DecoderState, i16>::Going(
            DecoderState::Mono((DecoderCoreState { header_buffer: h.take(k), ..dc })),
            Seq::empty(),
        ),
    decreases k,
{
    if k == 0 {
        assert(h.take(0) =~= Seq::<u8>::empty());
        assert(dc.header_buffer =~= h.take(0));
    } else {
        lemma_mono_fill(dc, h, k - 1);
        lemma_run_flow_next(decoder_step(), DecoderState::Mono(dc), h, k - 1);
        assert(h.take(k - 1).push(h[k - 1]) =~= h.take(k));
        assert(Seq::<i16>::empty() + Seq::<i16>::empty() =~= Seq::<i16>::empty());
    }
}

/// Seven header bytes make a waiting mono decoder take the header they hold.
proof fn lemma_mono_header(dc: DecoderCoreState, h: Seq<u8>)
    requires
        !dc.ready,
        dc.header_buffer.len() == 0,
        h.len() == 7,
    ensures
        DecoderState::Mono(dc).run(h) == (DecoderCoreState { header_buffer: h, ..dc }).get_ready(breakfast_of(h)).map_state(
            (|c2: DecoderCoreState| DecoderState::Mono(c2)),
        ),
{
    lemma_mono_fill(dc, h, 6);
    lemma_run_flow_next(decoder_step(), DecoderState::Mono(dc), h, 6);
    assert(h.take(6).push(h[6]) =~= h);
    assert(h.take(7) =~= h);
    let f = DecoderCoreState { header_buffer: h, ..dc }.get_ready(breakfast_of(h));
    match f {
        Flow::Going(s2, o) => { assert(Seq::<i16>::empty() + o =~= o); },
        Flow::Stopped(s2, o, e) => { assert(Seq::<i16>::empty() + o =~= o); },
        Flow::Panics => {},
    }
}

/// One mono encoder step: the decoder, following the encoder, decodes what it writes into its
/// reconstruction and keeps following it.
proof fn lemma_mono_step_roundtrip(e: EncoderState, d: DecoderState, x: i16)
    requires
        e.wf(),
        encoder_small(e),
        tracks(e, d),
        e.channels is Mono,
    ensures
        d.run(e.step(x).1) matches Flow::Going(d2, o) && tracks(e.step(x).0, d2) && o == step_reconstruction(e, x),
        encoder_small(e.step(x).0),
{
    let c = e.channels->Mono_0;
    let dc = d->Mono_0;
    let buf = e.buffer.push(x);
    if !c.ready {
        if buf.len() == 2 {
            let c2 = c.get_ready(buf[0], buf[1], e.coeff_table);
            let hdr = c2.header();
            lemma_mono_header_bytes(hdr);
            let h = mono_header_bytes(hdr);
            lemma_mono_header(dc, h);
            assert(e.coeff_table[0] == def_coeff(0));
            assert((c2.delta as i16) as i32 == c2.delta);
        } else {
            assert(e.step(x).1 =~= Seq::<u8>::empty());
        }
    } else {
        if buf.len() == 2 {
            lemma_compress_expand(c, dc, buf[0]);
            let (c1, hi) = c.compress(buf[0]);
            let (dc1, a) = dc.expand(hi as int);
            lemma_compress_wf(c, buf[0]);
            lemma_compress_expand(c1, dc1, buf[1]);
            let (c2, lo) = c1.compress(buf[1]);
            assert(pack(hi, lo) / 16 == hi && pack(hi, lo) % 16 == lo) by (nonlinear_arith)
                requires hi < 16, lo < 16, pack(hi, lo) == (lo + hi * 16) as u8, lo + hi * 16 < 256;
            lemma_run_flow_single(decoder_step(), d, pack(hi, lo));
        } else {
            assert(e.step(x).1 =~= Seq::<u8>::empty());
        }
    }
}

/// The header fields of both channels written as bytes are read back as the same fields.
proof fn lemma_stereo_header_bytes(h: (u8, u8, i16, i16, i16, i16, i16, i16))
    ensures
        stereo_header_bytes(h).len() == 14,
        breakfast_of(stereo_left_bytes(stereo_header_bytes(h))) == (h.0, h.2, h.4, h.6),
        breakfast_of(stereo_right_bytes(stereo_header_bytes(h))) == (h.1, h.3, h.5, h.7),
{
    lemma_le_bytes_roundtrip(h.2);
    lemma_le_bytes_roundtrip(h.3);
    lemma_le_bytes_roundtrip(h.4);
    lemma_le_bytes_roundtrip(h.5);
    lemma_le_bytes_roundtrip(h.6);
    lemma_le_bytes_roundtrip(h.7);
    let b = stereo_header_bytes(h);
    assert(b =~= seq![
        h.0, h.1,
        le_bytes(h.2)[0], le_bytes(h.2)[1],
        le_bytes(h.3)[0], le_bytes(h.3)[1],
        le_bytes(h.4)[0], le_bytes(h.4)[1],
        le_bytes(h.5)[0], le_bytes(h.5)[1],
        le_bytes(h.6)[0], le_bytes(h.6)[1],
        le_bytes(h.7)[0], le_bytes(h.7)[1],
    ]);
}

/// A waiting stereo decoder after the first `k` of fourteen header bytes: seven for the left
/// core's buffer, then the rest for the right one's.
pub open spec fn stereo_filled(dst: StereoDecoderState, h: Seq<u8>, k: int) -> StereoDecoderState {
    if k <= 7 {
        StereoDecoderState { core_l: DecoderCoreState { header_buffer: h.take(k), ..dst.core_l }, ..dst }
    } else {
        StereoDecoderState {
            core_l: DecoderCoreState { header_buffer: h.take(7), ..dst.core_l },
            core_r: DecoderCoreState { header_buffer: h.subrange(7, k), ..dst.core_r },
            ..dst
        }
    }
}

/// Header bytes before the fourteenth only fill a waiting stereo decoder's header buffers.
proof fn lemma_stereo_fill(dst: StereoDecoderState, h: Seq<u8>, k: int)
    requires
        !dst.ready,
        dst.core_l.header_buffer.len() == 0,
        dst.core_r.header_buffer.len() == 0,
        h.len() == 14,
        0 <= k < 14,
    ensures
        DecoderState::Stereo(dst).run(h.take(k)) == Flow::<DecoderState, i16>::Going(
            DecoderState::Stereo(stereo_filled(dst, h, k)),
            Seq::empty(),
        ),
    decreases k,
{
    if k == 0 {
        assert(h.take(0) =~= Seq::<u8>::empty());
        assert(dst.core_l.header_buffer =~= h.take(0));
        assert(stereo_filled(dst, h, 0) == dst);
    } else {
        lemma_stereo_fill(dst, h, k - 1);
        lemma_run_flow_next(decoder_step(), DecoderState::Stereo(dst), h, k - 1);
        if k <= 7 {
            assert(h.take(k - 1).push(h[k - 1]) =~= h.take(k));
        } else if k == 8 {
            assert(dst.core_r.header_buffer.push(h[7]) =~= h.subrange(7, 8));
            assert(h.take(7) =~= h.take(7));
        } else {
            assert(h.subrange(7, k - 1).push(h[k - 1]) =~= h.subrange(7, k));
        }
        assert(Seq::<i16>::empty() + Seq::<i16>::empty() =~= Seq::<i16>::empty());
    }
}

/// Fourteen header bytes make a waiting stereo decoder take the two headers they hold.
proof fn lemma_stereo_header(dst: StereoDecoderState, h: Seq<u8>)
    requires
        !dst.ready,
        dst.core_l.header_buffer.len() == 0,
        dst.core_r.header_buffer.len() == 0,
        h.len() == 14,
    ensures
        DecoderState::Stereo(dst).run(h) == stereo_filled(dst, h, 14).get_ready(
            breakfast_of(stereo_left_bytes(h)),
            breakfast_of(stereo_right_bytes(h)),
        ).map_state((|s2: StereoDecoderState| DecoderState::Stereo(s2))),
{
    lemma_stereo_fill(dst, h, 13);
    lemma_run_flow_next(decoder_step(), DecoderState::Stereo(dst), h, 13);
    assert(h.subrange(7, 13).push(h[13]) =~= h.subrange(7, 14));
    assert(h.take(14) =~= h);
    assert(h.take(7) + h.subrange(7, 14) =~= h);
    let f = stereo_filled(dst, h, 14).get_ready(breakfast_of(stereo_left_bytes(h)), breakfast_of(stereo_right_bytes(h)));
    match f {
        Flow::Going(s2, o) => { assert(Seq::<i16>::empty() + o =~= o); },
        Flow::Stopped(s2, o, e) => { assert(Seq::<i16>::empty() + o =~= o); },
        Flow::Panics => {},
    }
}

/// A stereo encoder's block header, decoded by a decoder that follows it, gives back the four
/// samples it holds.
#[verifier::spinoff_prover]
#[verifier::rlimit(40)]
proof fn lemma_stereo_step_header(e: EncoderState, d: DecoderState, x: i16)
    requires
        e.wf(),
        encoder_small(e),
        tracks(e, d),
        e.channels is Stereo,
        !e.channels->Stereo_0.ready,
        e.buffer.push(x).len() >= 4,
    ensures
        d.run(e.step(x).1) matches Flow::Going(d2, o) && tracks(e.step(x).0, d2) && o == step_reconstruction(e, x),
        encoder_small(e.step(x).0),
{
    let st = e.channels->Stereo_0;
    let dst = d->Stereo_0;
    let buf = e.buffer.push(x);
    let st2 = StereoEncoderState {
        core_l: st.core_l.get_ready(buf[0], buf[2], e.coeff_table),
        core_r: st.core_r.get_ready(buf[1], buf[3], e.coeff_table),
        ready: true,
        ..st
    };
    let l = st2.core_l.header();
    let r = st2.core_r.header();
    let hdr = (l.0, r.0, l.1, r.1, l.2, r.2, l.3, r.3);
    lemma_stereo_header_bytes(hdr);
    let h = stereo_header_bytes(hdr);
    lemma_stereo_header(dst, h);
    assert(e.coeff_table[0] == def_coeff(0));
    assert((st2.core_l.delta as i16) as i32 == st2.core_l.delta);
    assert((st2.core_r.delta as i16) as i32 == st2.core_r.delta);
}

/// Two bytes of a stereo block, decoded by a decoder that follows the encoder, give back the
/// encoder's reconstruction of the four samples they stand for.
#[verifier::spinoff_prover]
#[verifier::rlimit(80)]
proof fn lemma_stereo_step_nibbles(e: EncoderState, d: DecoderState, x: i16)
    requires
        e.wf(),
        encoder_small(e),
        tracks(e, d),
        e.channels is Stereo,
        e.channels->Stereo_0.ready,
        e.buffer.push(x).len() == 4,
    ensures
        d.run(e.step(x).1) matches Flow::Going(d2, o) && tracks(e.step(x).0, d2) && o == step_reconstruction(e, x),
        encoder_small(e.step(x).0),
{
    let st = e.channels->Stereo_0;
    let dst = d->Stereo_0;
    let buf = e.buffer.push(x);
    let (s1, h1) = st.compress(buf[0]);
    let (s2, l1) = s1.compress(buf[1]);
    let (s3, h2) = s2.compress(buf[2]);
    let (s4, l2) = s3.compress(buf[3]);
    assert(s1.core_l == st.core_l.compress(buf[0]).0 && s1.core_r == st.core_r);
    assert(s2.core_r == st.core_r.compress(buf[1]).0 && s2.core_l == s1.core_l);
    assert(s3.core_l == s2.core_l.compress(buf[2]).0 && s3.core_r == s2.core_r);
    assert(s4.core_r == s3.core_r.compress(buf[3]).0 && s4.core_l == s3.core_l);
    lemma_compress_wf(st.core_l, buf[0]);
    lemma_compress_wf(st.core_r, buf[1]);
    lemma_compress_expand(st.core_l, dst.core_l, buf[0]);
    lemma_compress_expand(st.core_r, dst.core_r, buf[1]);
    let (dl1, a1) = dst.core_l.expand(h1 as int);
    let (dr1, b1) = dst.core_r.expand(l1 as int);
    lemma_compress_expand(s2.core_l, dl1, buf[2]);
    lemma_compress_expand(s3.core_r, dr1, buf[3]);
    let (dl2, a2) = dl1.expand(h2 as int);
    let (dr2, b2) = dr1.expand(l2 as int);
    assert(pack(h1, l1) / 16 == h1 && pack(h1, l1) % 16 == l1) by (nonlinear_arith)
        requires h1 < 16, l1 < 16, pack(h1, l1) == (l1 + h1 * 16) as u8, l1 + h1 * 16 < 256;
    assert(pack(h2, l2) / 16 == h2 && pack(h2, l2) % 16 == l2) by (nonlinear_arith)
        requires h2 < 16, l2 < 16, pack(h2, l2) == (l2 + h2 * 16) as u8, l2 + h2 * 16 < 256;
    let first = pack(h1, l1);
    let second = pack(h2, l2);
    assert(e.step(x).1 == seq![first, second]);
    assert(seq![first] + seq![second] =~= seq![first, second]);
    lemma_run_flow_single(decoder_step(), d, first);
    lemma_run_flow_append(decoder_step(), d, seq![first], seq![second]);
    let d1 = DecoderState::Stereo(StereoDecoderState {
        core_l: dl1,
        core_r: dr1,
        bytes_eaten: (dst.bytes_eaten + 1) as usize,
        ..dst
    });
    assert(d.step(first) == Flow::<DecoderState, i16>::Going(d1, seq![a1, b1]));
    lemma_run_flow_single(decoder_step(), d1, second);
    assert(seq![a1, b1] + seq![a2, b2] =~= seq![a1, b1, a2, b2]);
}

/// One stereo encoder step: the decoder, following the encoder, decodes what it writes into its
/// reconstruction and keeps following it.
proof fn lemma_stereo_step_roundtrip(e: EncoderState, d: DecoderState, x: i16)
    requires
        e.wf(),
        encoder_small(e),
        tracks(e, d),
        e.channels is Stereo,
    ensures
        d.run(e.step(x).1) matches Flow::Going(d2, o) && tracks(e.step(x).0, d2) && o == step_reconstruction(e, x),
        encoder_small(e.step(x).0),
{
    let st = e.channels->Stereo_0;
    let buf = e.buffer.push(x);
    if !st.ready && buf.len() >= 4 {
        lemma_stereo_step_header(e, d, x);
    } else if st.ready && buf.len() == 4 {
        lemma_stereo_step_nibbles(e, d, x);
    } else {
        assert(e.step(x).1 =~= Seq::<u8>::empty());
    }
}

/// Whatever samples an ADPCM-MS encoder takes, a decoder that follows it decodes the bytes it
/// writes, without error or panic, into the encoder's reconstruction of those samples (the two
/// first samples of each block and channel exactly, the others as the encoder reconstructed
/// them), and keeps following it.
pub proof fn lemma_roundtrip(e: EncoderState, d: DecoderState, input: Seq<i16>)
    requires
        e.wf(),
        encoder_small(e),
        tracks(e, d),
    ensures
        d.run(e.run(input).1) matches Flow::Going(d2, o) && tracks(e.run(input).0, d2) && o == reconstruction(e, input),
        encoder_small(e.run(input).0),
    decreases input.len(),
{
    if input.len() > 0 {
        let prev = input.drop_last();
        lemma_roundtrip(e, d, prev);
        lemma_encoder_run_wf(e, prev);
        let (e1, o1) = e.run(prev);
        let d1 = d.run(o1)->Going_0;
        match e1.channels {
            ChannelsState::Mono(_) => lemma_mono_step_roundtrip(e1, d1, input.last()),
            ChannelsState::Stereo(_) => lemma_stereo_step_roundtrip(e1, d1, input.last()),
        }
        lemma_run_flow_append(decoder_step(), d, o1, e1.step(input.last()).1);
    } else {
        assert(e.run(input).1 =~= Seq::<u8>::empty());
    }
}

/// The decoder that `Decoder::new` makes from a `fmt ` chunk with one or two channels.
pub open spec fn new_decoder(fmt_chunk: FmtChunk) -> DecoderState {
    if fmt_chunk.channels == 1 {
        DecoderState::Mono(DecoderCore::new_spec(fmt_chunk))
    } else {
        DecoderState::Stereo(StereoDecoder::new_spec(fmt_chunk))
    }
}

/// A new encoder and the decoder made from the `fmt ` chunk that the encoder writes follow each
/// other.
pub proof fn lemma_new_tracks(channels: u16, sample_rate: u32, fmt_chunk: FmtChunk)
    requires
        channels == 1 || channels == 2,
        is_new_fmt(fmt_chunk, channels, sample_rate),
    ensures
        EncoderState::initial(channels).wf(),
        encoder_small(EncoderState::initial(channels)),
        tracks(EncoderState::initial(channels), new_decoder(fmt_chunk)),
{
    assert(crate::adpcm::ms::decoder_coeff_table(fmt_chunk) == def_coeff_table_spec());
}

/// What a new ADPCM-MS encoder writes for any samples, decoded by the decoder made from the
/// `fmt ` chunk the encoder writes, is the encoder's reconstruction of those samples, without
/// error or panic.
pub proof fn lemma_new_roundtrip(channels: u16, sample_rate: u32, fmt_chunk: FmtChunk, input: Seq<i16>)
    requires
        channels == 1 || channels == 2,
        is_new_fmt(fmt_chunk, channels, sample_rate),
    ensures
        new_decoder(fmt_chunk).run(EncoderState::initial(channels).run(input).1) matches Flow::Going(_, o)
            && o == reconstruction(EncoderState::initial(channels), input),
{
    lemma_new_tracks(channels, sample_rate, fmt_chunk);
    lemma_roundtrip(EncoderState::initial(channels), new_decoder(fmt_chunk), input);
}

} // verus!
