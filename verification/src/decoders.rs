use vstd::prelude::*;
use vstd::slice::slice_subrange;
use crate::adpcm::{tdiv, AdpcmDecoder, AdpcmError, Flow};
use crate::audiocore::Spec;
use crate::wavcore::{ExtensionData, FmtChunk, Guid, EXTENSIBLE_DATA_SIZE, FORMAT_TAG_EXTENSIBLE, is_ieee_float_guid, is_pcm_guid};

verus! {

/// Why the data of an extensible `fmt ` chunk cannot be decoded.
#[derive(Clone, Copy, Debug)]
pub enum ExtensibleError {
    /// The format tag is not the extensible one.
    NotExtensible,
    /// The extension holds data of another format.
    WrongExtensionData,
    /// The sub-format is neither integer PCM nor IEEE float.
    UnknownSubFormat(Guid),
}

/// How the data of an extensible `fmt ` chunk is decoded: as PCM with the spec read from the
/// header, with the channel mask of the extension where it is complete and names PCM or float
/// samples. With no extension, or one too short, the data is PCM as the spec says.
pub open spec fn extensible_choice(spec: Spec, fmt: FmtChunk) -> Result<Spec, ExtensibleError> {
    if fmt.format_tag != FORMAT_TAG_EXTENSIBLE {
        Err(ExtensibleError::NotExtensible)
    } else {
        match fmt.extension {
            None => Ok(spec),
            Some(extension) => match extension.data {
                ExtensionData::Extensible(extensible) => if extension.ext_len < EXTENSIBLE_DATA_SIZE {
                    Ok(spec)
                } else if is_pcm_guid(extensible.sub_format) || is_ieee_float_guid(extensible.sub_format) {
                    Ok(Spec { channel_mask: extensible.channel_mask, ..spec })
                } else {
                    Err(ExtensibleError::UnknownSubFormat(extensible.sub_format))
                },
                _ => Err(ExtensibleError::WrongExtensionData),
            },
        }
    }
}

/// * The spec with which the extensible decoder reads the data as PCM, or why it cannot.
pub fn extensible_decoding_spec(spec: Spec, fmt: &FmtChunk) -> (r: Result<Spec, ExtensibleError>)
    ensures
        r == extensible_choice(spec, *fmt),
{
    if fmt.format_tag != FORMAT_TAG_EXTENSIBLE {
        return Err(ExtensibleError::NotExtensible);
    }
    match fmt.extension {
        None => Ok(spec),
        Some(extension) => match extension.data {
            ExtensionData::Extensible(extensible) => {
                if extension.ext_len < EXTENSIBLE_DATA_SIZE {
                    Ok(spec)
                } else if extensible.sub_format.is_pcm_or_float() {
                    Ok(Spec {
                        channels: spec.channels,
                        channel_mask: extensible.channel_mask,
                        sample_rate: spec.sample_rate,
                        bits_per_sample: spec.bits_per_sample,
                        sample_format: spec.sample_format,
                    })
                } else {
                    Err(ExtensibleError::UnknownSubFormat(extensible.sub_format))
                }
            },
            _ => Err(ExtensibleError::WrongExtensionData),
        },
    }
}

/// Where a seek goes: to an audio frame counted from the start, or by a signed number of frames
/// from the end or from the current frame.
#[derive(Clone, Copy, Debug, PartialEq, Eq)]
pub enum SeekFrom {
    Start(u64),
    End(i64),
    Current(i64),
}

/// The state of an `AdpcmDecoderWrap`: the `data` chunk, where it starts in the file and where
/// reading stands, the decoder, and the cache of decoded samples with the frame it starts at.
pub struct WrapView<V> {
    pub channels: u16,
    pub data: Seq<u8>,
    pub data_offset: u64,
    pub position: u64,
    pub block_align: u16,
    pub frame_index: u64,
    pub frames_decoded: u64,
    pub total_frames: u64,
    pub decoder: V,
    pub samples: Seq<i16>,
    pub first_frame_of_samples: u64,
}

/// How an operation of the wrapper ends: with its new state and a result, with its new state
/// and the error of the decoder, or in a panic.
pub enum WrapFlow<V, R> {
    Done(WrapView<V>, R),
    Failed(WrapView<V>, AdpcmError),
    Panics,
}

impl<V, R> WrapFlow<V, R> {
    /// The same outcome with its result passed through `f`.
    pub open spec fn map_value<R2>(self, f: spec_fn(R) -> R2) -> WrapFlow<V, R2> {
        match self {
            WrapFlow::Done(s, r) => WrapFlow::Done(s, f(r)),
            WrapFlow::Failed(s, e) => WrapFlow::Failed(s, e),
            WrapFlow::Panics => WrapFlow::Panics,
        }
    }
}

/// The mean of two samples, rounded toward zero: how a stereo frame is mixed into one sample.
pub open spec fn mean_spec(l: i16, r: i16) -> i16 {
    tdiv(l + r, 2) as i16
}

/// The mean of two samples, rounded toward zero.
pub fn mean(l: i16, r: i16) -> (m: i16)
    ensures
        m == mean_spec(l, r),
{
    ((l as i32 + r as i32) / 2) as i16
}

/// The sum of some samples.
pub open spec fn sum_samples(s: Seq<i16>) -> int
    decreases s.len(),
{
    if s.len() == 0 {
        0
    } else {
        sum_samples(s.drop_last()) + s.last()
    }
}

/// The samples of one channel spread over `t` channels: every sample `t` times in a row.
pub open spec fn spread_channels(s: Seq<i16>, t: int) -> Seq<i16> {
    Seq::new((s.len() * t) as nat, |i: int| s[i / t])
}

/// Frame `k` of `t` interleaved channels mixed into one sample: the mean of its samples, rounded
/// toward zero; the last frame may be short.
pub open spec fn mixed_frame(s: Seq<i16>, t: int, k: int) -> i16 {
    let g = s.subrange(k * t, if (k + 1) * t < s.len() { (k + 1) * t } else { s.len() as int });
    tdiv(sum_samples(g), g.len() as int) as i16
}

/// The frames of `t` interleaved channels mixed into one channel, a short last frame included.
pub open spec fn mix_channels(s: Seq<i16>, t: int) -> Seq<i16> {
    let n = s.len() as int;
    Seq::new((n / t + if n % t != 0 { 1int } else { 0 }) as nat, |k: int| mixed_frame(s, t, k))
}

/// Decoded samples of `source` interleaved channels brought to `target` channels: one channel is
/// spread over all of them, several are mixed into one, and any other pair is left as it is.
pub open spec fn convert_channels_spec(s: Seq<i16>, source: int, target: int) -> Seq<i16> {
    if source == 1 {
        spread_channels(s, target)
    } else if target == 1 {
        if source == 0 {
            Seq::empty()
        } else {
            mix_channels(s, source)
        }
    } else {
        s
    }
}

/// Frame `k` of a mix of `t` channels starts within the samples.
proof fn lemma_frame_start(n: int, t: int, k: int)
    requires
        t >= 1,
        n >= 0,
        0 <= k,
        k < n / t + if n % t != 0 { 1int } else { 0 },
    ensures
        0 <= k * t < n,
{
    let q = n / t;
    vstd::arithmetic::div_mod::lemma_fundamental_div_mod(n, t);
    vstd::arithmetic::div_mod::lemma_mod_pos_bound(n, t);
    assert(t * q == q * t) by (nonlinear_arith);
    if k < q {
        assert(k * t <= q * t - t) by (nonlinear_arith)
            requires k <= q - 1, t >= 1;
    } else {
        assert(k == q);
    }
    assert(k * t >= 0) by (nonlinear_arith)
        requires k >= 0, t >= 1;
}

/// The sum of the samples of `s` from `lo` up to (not including) `hi`, one at a time.
pub open spec fn sum_between(s: Seq<i16>, lo: int, hi: int) -> int
    decreases hi - lo,
{
    if hi <= lo {
        0
    } else {
        sum_between(s, lo, hi - 1) + s[hi - 1]
    }
}

proof fn lemma_sum_between(s: Seq<i16>, lo: int, hi: int)
    requires
        0 <= lo <= hi <= s.len(),
    ensures
        sum_between(s, lo, hi) == sum_samples(s.subrange(lo, hi)),
        -32768 * (hi - lo) <= sum_between(s, lo, hi) <= 32767 * (hi - lo),
    decreases hi - lo,
{
    if hi > lo {
        lemma_sum_between(s, lo, hi - 1);
        assert(s.subrange(lo, hi).drop_last() =~= s.subrange(lo, hi - 1));
    } else {
        assert(s.subrange(lo, hi) =~= Seq::<i16>::empty());
    }
}

/// Sample `m` is the mean of frame `k` of `t` interleaved channels of `s`: the sum of the samples
/// from `k * t` up to `(k + 1) * t` or the end, divided by their count, rounded toward zero.
pub open spec fn is_frame_mean(s: Seq<i16>, t: int, k: int, m: i16) -> bool {
    let lo = k * t;
    let hi = if (k + 1) * t < s.len() { (k + 1) * t } else { s.len() as int };
    let sum = sum_between(s, lo, hi);
    &&& 0 <= lo < hi <= s.len()
    &&& sum >= 0 ==> m as int == sum / (hi - lo)
    &&& sum < 0 ==> m as int == -((-sum) / (hi - lo))
}

/// Mixing `t >= 2` interleaved channels down to one gives one sample per frame, a short last
/// frame included, and each sample is the mean of its frame, rounded toward zero.
pub proof fn lemma_mix_is_frame_mean(s: Seq<i16>, t: int)
    requires
        t >= 2,
    ensures
        s.len() == 0 ==> convert_channels_spec(s, t, 1).len() == 0,
        s.len() > 0 ==> (convert_channels_spec(s, t, 1).len() - 1) * t < s.len() <= convert_channels_spec(s, t, 1).len() * t,
        forall|k: int| 0 <= k < convert_channels_spec(s, t, 1).len()
            ==> is_frame_mean(s, t, k, #[trigger] convert_channels_spec(s, t, 1)[k]),
{
    let r = convert_channels_spec(s, t, 1);
    let n = s.len() as int;
    vstd::arithmetic::div_mod::lemma_fundamental_div_mod(n, t);
    vstd::arithmetic::div_mod::lemma_mod_pos_bound(n, t);
    if n > 0 {
        let q = n / t;
        assert(t * q == q * t) by (nonlinear_arith);
        assert((r.len() - 1) * t < n <= r.len() * t) by (nonlinear_arith)
            requires r.len() == q + if n % t != 0 { 1int } else { 0 }, n == q * t + n % t, 0 <= n % t < t, n > 0, t >= 2;
    }
    assert forall|k: int| 0 <= k < r.len() implies is_frame_mean(s, t, k, #[trigger] r[k]) by {
        let lo = k * t;
        let hi = if (k + 1) * t < n { (k + 1) * t } else { n };
        lemma_frame_start(n, t, k);
        assert((k + 1) * t == lo + t) by (nonlinear_arith)
            requires lo == k * t;
        lemma_sum_between(s, lo, hi);
        let sum = sum_between(s, lo, hi);
        let c = hi - lo;
        assert(-32768 <= tdiv(sum, c) <= 32767) by (nonlinear_arith)
            requires c >= 1, -32768 * c <= sum <= 32767 * c, tdiv(sum, c) == if sum >= 0 { sum / c } else { -((-sum) / c) };
        assert(s.subrange(lo, hi).len() == c);
    }
}

/// A mono source spread over `t` channels gives `t` samples per input sample: for each input
/// sample `j` and channel `c`, output sample `j * t + c` is sample `j`. Any other pair of channel
/// counts but a mix down to mono leaves the samples as they are.
pub proof fn lemma_spread_and_keep(s: Seq<i16>, source: int, target: int)
    requires
        target >= 0,
    ensures
        source == 1 ==> convert_channels_spec(s, source, target).len() == s.len() * target,
        source == 1 ==> forall|j: int, c: int| 0 <= j < s.len() && 0 <= c < target
            ==> #[trigger] convert_channels_spec(s, source, target)[j * target + c] == s[j],
        source != 1 && target != 1 ==> convert_channels_spec(s, source, target) == s,
        source == 0 && target == 1 ==> convert_channels_spec(s, source, target).len() == 0,
{
    if source == 1 {
        assert forall|j: int, c: int| 0 <= j < s.len() && 0 <= c < target
            implies #[trigger] convert_channels_spec(s, source, target)[j * target + c] == s[j] by {
            assert((j * target + c) / target == j) by (nonlinear_arith)
                requires 0 <= c < target, 0 <= j;
            assert(j * target + c < s.len() * target) by (nonlinear_arith)
                requires 0 <= c < target, 0 <= j < s.len();
            assert(j * target + c >= 0) by (nonlinear_arith)
                requires 0 <= c, 0 <= j, target >= 0;
        }
    }
}

/// * Brings decoded samples of `source` interleaved channels to `target` channels: a mono source
///   is copied to every channel, a source of several channels is mixed down to mono by the mean
///   of each frame, and any other pair of channel counts is left as it is.
pub fn convert_channels(samples: &[i16], source: u16, target: u16) -> (r: Vec<i16>)
    requires
        source == 1 ==> samples@.len() * target <= usize::MAX,
    ensures
        r@ == convert_channels_spec(samples@, source as int, target as int),
{
    let len = samples.len();
    if source == 1 {
        let mut r: Vec<i16> = Vec::new();
        let mut i: usize = 0;
        while i < len
            invariant
                len == samples@.len(),
                i <= len,
                r@.len() == i * target,
                forall|k: int| 0 <= k < r@.len() ==> r@[k] == samples@[k / (target as int)],
            decreases len - i,
        {
            let mut j: u16 = 0;
            while j < target
                invariant
                    len == samples@.len(),
                    i < len,
                    j <= target,
                    r@.len() == i * target + j,
                    forall|k: int| 0 <= k < r@.len() ==> r@[k] == samples@[k / (target as int)],
                decreases target - j,
            {
                proof {
                    assert((i * target + j) / (target as int) == i) by (nonlinear_arith)
                        requires 0 <= j < target, 0 <= i;
                }
                r.push(samples[i]);
                j += 1;
            }
            assert((i + 1) * target == i * target + target) by (nonlinear_arith);
            i += 1;
        }
        assert(r@ =~= spread_channels(samples@, target as int));
        r
    } else if target == 1 {
        if source == 0 {
            return Vec::new();
        }
        let t = source as usize;
        let q = len / t;
        assert(q * 2 <= len) by (nonlinear_arith)
            requires q == len / t, t >= 2, len >= 0;
        let frames = q + if len % t != 0 { 1 } else { 0 };
        let mut r: Vec<i16> = Vec::new();
        let mut k: usize = 0;
        while k < frames
            invariant
                len == samples@.len(),
                2 <= t <= 65535,
                t == source,
                frames == len / t + if len % t != 0 { 1int } else { 0 },
                k <= frames,
                r@.len() == k,
                forall|m: int| 0 <= m < k ==> r@[m] == mixed_frame(samples@, t as int, m),
            decreases frames - k,
        {
            proof { lemma_frame_start(len as int, t as int, k as int); }
            let start = k * t;
            let end = if len - start < t { len } else { start + t };
            assert(end == if (k + 1) * t < len { (k + 1) * t } else { len as int }) by (nonlinear_arith)
                requires start == k * t, end == if len - start < t { len as int } else { start + t };
            let mut sum: i32 = 0;
            let mut m: usize = start;
            while m < end
                invariant
                    len == samples@.len(),
                    start < end <= len,
                    end - start <= t <= 65535,
                    start <= m <= end,
                    sum == sum_samples(samples@.subrange(start as int, m as int)),
                    -32768 * (m - start) <= sum <= 32767 * (m - start),
                decreases end - m,
            {
                assert(samples@.subrange(start as int, m + 1).drop_last() =~= samples@.subrange(start as int, m as int));
                sum = sum + samples[m] as i32;
                m += 1;
            }
            let n = (end - start) as i32;
            let mean = sum / n;
            assert(-32768 <= mean <= 32767) by (nonlinear_arith)
                requires mean == tdiv(sum as int, n as int), 1 <= n, -32768 * n <= sum <= 32767 * n;
            r.push(mean as i16);
            k += 1;
        }
        assert(r@ =~= mix_channels(samples@, t as int));
        r
    } else {
        let mut r: Vec<i16> = Vec::new();
        let mut i: usize = 0;
        while i < len
            invariant
                len == samples@.len(),
                i <= len,
                r@ == samples@.take(i as int),
            decreases len - i,
        {
            r.push(samples[i]);
            i += 1;
            assert(r@ =~= samples@.take(i as int));
        }
        assert(samples@.take(len as int) =~= samples@);
        r
    }
}

/// ## The `AdpcmDecoderWrap` to decode ADPCM blocks to samples
/// * It holds the bytes of the `data` chunk, which starts at `data_offset` in the file, and reads
///   them one block at a time.
pub struct AdpcmDecoderWrap<D: AdpcmDecoder> {
    channels: u16,
    data: Vec<u8>,
    data_offset: u64,
    position: u64,
    block_align: u16,
    frame_index: u64,
    frames_decoded: u64,
    total_frames: u64,
    decoder: D,
    samples: Vec<i16>,
    first_frame_of_samples: u64,
}

impl<D: AdpcmDecoder> View for AdpcmDecoderWrap<D> {
    type V = WrapView<D::V>;

    closed spec fn view(&self) -> WrapView<D::V> {
        WrapView {
            channels: self.channels,
            data: self.data@,
            data_offset: self.data_offset,
            position: self.position,
            block_align: self.block_align,
            frame_index: self.frame_index,
            frames_decoded: self.frames_decoded,
            total_frames: self.total_frames,
            decoder: self.decoder@,
            samples: self.samples@,
            first_frame_of_samples: self.first_frame_of_samples,
        }
    }
}

impl<D: AdpcmDecoder> AdpcmDecoderWrap<D> {
    /// Where the `data` chunk ends in the file.
    pub open spec fn end_of_data(s: WrapView<D::V>) -> int {
        s.data_offset + s.data.len()
    }

    /// The invariant: a well-formed mono or stereo decoder, reading at or after the start of the
    /// data, and no more frames counted as decoded past the cache's first frame than it holds.
    pub open spec fn wf(s: WrapView<D::V>) -> bool {
        &&& D::decoder_wf(s.decoder)
        &&& s.channels == 1 || s.channels == 2
        &&& s.data_offset <= s.position
        &&& (s.frames_decoded - s.first_frame_of_samples) * s.channels <= s.samples.len()
    }

    /// Feeding blocks until the cache holds `wanted` samples: while it holds fewer, the next block
    /// (at most `block_align` bytes up to the end of the data) is decoded into it; at the end of
    /// the data the decoder is flushed instead, and feeding stops. `decoded` counts the samples
    /// added so far.
    pub open spec fn feed_loop(s: WrapView<D::V>, wanted: int, decoded: int) -> WrapFlow<D::V, int>
        decreases Self::end_of_data(s) - s.position,
    {
        let end = Self::end_of_data(s);
        if s.samples.len() >= wanted {
            WrapFlow::Done(s, decoded)
        } else if s.position < end {
            let to_read = if end - s.position < s.block_align { end - s.position } else { s.block_align as int };
            if to_read <= 0 || end > u64::MAX {
                WrapFlow::Panics
            } else {
                let start = s.position - s.data_offset;
                let moved = WrapView { position: (s.position + to_read) as u64, ..s };
                match D::decode_spec(s.decoder, s.data.subrange(start, start + to_read)) {
                    Flow::Going(d, o) => Self::feed_loop(
                        WrapView { decoder: d, samples: s.samples + o, ..moved },
                        wanted,
                        decoded + o.len(),
                    ),
                    Flow::Stopped(d, o, e) => WrapFlow::Failed(WrapView { decoder: d, samples: s.samples + o, ..moved }, e),
                    Flow::Panics => WrapFlow::Panics,
                }
            }
        } else if !D::can_flush(s.decoder) {
            WrapFlow::Panics
        } else {
            match D::flush_spec(s.decoder) {
                Flow::Going(d, o) => WrapFlow::Done(WrapView { decoder: d, samples: s.samples + o, ..s }, decoded + o.len()),
                Flow::Stopped(d, o, e) => WrapFlow::Failed(WrapView { decoder: d, samples: s.samples + o, ..s }, e),
                Flow::Panics => WrapFlow::Panics,
            }
        }
    }

    /// `feed_until_output`: the feeding above, after which the decoded frames are counted.
    pub open spec fn feed_spec(s: WrapView<D::V>, wanted: int) -> WrapFlow<D::V, ()> {
        if Self::end_of_data(s) > u64::MAX {
            WrapFlow::Panics
        } else {
            match Self::feed_loop(s, wanted, 0) {
                WrapFlow::Done(t, decoded) => {
                    let fd = t.frames_decoded + decoded / (t.channels as int);
                    if t.channels == 0 || fd > u64::MAX {
                        WrapFlow::Panics
                    } else {
                        WrapFlow::Done(WrapView { frames_decoded: fd as u64, ..t }, ())
                    }
                },
                WrapFlow::Failed(t, e) => WrapFlow::Failed(t, e),
                WrapFlow::Panics => WrapFlow::Panics,
            }
        }
    }

    /// The next sample of mono data, within `fuel` rounds (`None` when that is not enough): an
    /// empty cache is fed first; an empty cache then means the end of the data; a frame in the
    /// cache is returned; otherwise the cache is dropped and the next one is looked at.
    pub open spec fn mono_path(s: WrapView<D::V>, fuel: nat) -> Option<WrapFlow<D::V, Option<i16>>>
        decreases fuel,
    {
        if fuel == 0 {
            None
        } else {
            let fed = if s.samples.len() == 0 { Self::feed_spec(s, 1) } else { WrapFlow::Done(s, ()) };
            match fed {
                WrapFlow::Done(t, _) => {
                    if t.samples.len() == 0 {
                        Some(WrapFlow::Done(t, None))
                    } else if t.frame_index < t.first_frame_of_samples {
                        Some(WrapFlow::Panics)
                    } else if t.frame_index < t.frames_decoded {
                        Some(WrapFlow::Done(
                            WrapView { frame_index: (t.frame_index + 1) as u64, ..t },
                            Some(t.samples[t.frame_index - t.first_frame_of_samples]),
                        ))
                    } else if t.first_frame_of_samples + t.samples.len() > u64::MAX {
                        Some(WrapFlow::Panics)
                    } else {
                        Self::mono_path(
                            WrapView {
                                first_frame_of_samples: (t.first_frame_of_samples + t.samples.len()) as u64,
                                samples: Seq::empty(),
                                ..t
                            },
                            (fuel - 1) as nat,
                        )
                    }
                },
                WrapFlow::Failed(t, e) => Some(WrapFlow::Failed(t, e)),
                WrapFlow::Panics => Some(WrapFlow::Panics),
            }
        }
    }

    /// The next frame of stereo data, within `fuel` rounds, as `mono_path` does it with two
    /// samples a frame.
    pub open spec fn stereo_path(s: WrapView<D::V>, fuel: nat) -> Option<WrapFlow<D::V, Option<(i16, i16)>>>
        decreases fuel,
    {
        if fuel == 0 {
            None
        } else {
            let fed = if s.samples.len() == 0 { Self::feed_spec(s, 2) } else { WrapFlow::Done(s, ()) };
            match fed {
                WrapFlow::Done(t, _) => {
                    if t.samples.len() == 0 {
                        Some(WrapFlow::Done(t, None))
                    } else if t.frame_index < t.first_frame_of_samples {
                        Some(WrapFlow::Panics)
                    } else if t.frame_index < t.frames_decoded {
                        let index = (t.frame_index - t.first_frame_of_samples) * 2;
                        Some(WrapFlow::Done(
                            WrapView { frame_index: (t.frame_index + 1) as u64, ..t },
                            Some((t.samples[index], t.samples[index + 1])),
                        ))
                    } else if t.first_frame_of_samples + t.samples.len() / 2 > u64::MAX {
                        Some(WrapFlow::Panics)
                    } else {
                        Self::stereo_path(
                            WrapView {
                                first_frame_of_samples: (t.first_frame_of_samples + t.samples.len() / 2) as u64,
                                samples: Seq::empty(),
                                ..t
                            },
                            (fuel - 1) as nat,
                        )
                    }
                },
                WrapFlow::Failed(t, e) => Some(WrapFlow::Failed(t, e)),
                WrapFlow::Panics => Some(WrapFlow::Panics),
            }
        }
    }

    /// How taking the next mono sample ends; `Panics` also where it never ends.
    pub open spec fn mono_run(s: WrapView<D::V>) -> WrapFlow<D::V, Option<i16>> {
        if exists|n: nat| #[trigger] Self::mono_path(s, n) is Some {
            Self::mono_path(s, choose|n: nat| #[trigger] Self::mono_path(s, n) is Some)->Some_0
        } else {
            WrapFlow::Panics
        }
    }

    /// How taking the next stereo frame ends; `Panics` also where it never ends.
    pub open spec fn stereo_run(s: WrapView<D::V>) -> WrapFlow<D::V, Option<(i16, i16)>> {
        if exists|n: nat| #[trigger] Self::stereo_path(s, n) is Some {
            Self::stereo_path(s, choose|n: nat| #[trigger] Self::stereo_path(s, n) is Some)->Some_0
        } else {
            WrapFlow::Panics
        }
    }

    /// `decode_mono`: mono data gives its next sample, stereo data the mean of its next frame.
    pub open spec fn decode_mono_spec(s: WrapView<D::V>) -> WrapFlow<D::V, Option<i16>> {
        if s.channels == 1 {
            Self::mono_run(s)
        } else {
            Self::stereo_run(s).map_value(|v: Option<(i16, i16)>| match v {
                Some(f) => Some(mean_spec(f.0, f.1)),
                None => None,
            })
        }
    }

    /// `decode_stereo`: stereo data gives its next frame, mono data its next sample twice.
    pub open spec fn decode_stereo_spec(s: WrapView<D::V>) -> WrapFlow<D::V, Option<(i16, i16)>> {
        if s.channels == 2 {
            Self::stereo_run(s)
        } else {
            Self::mono_run(s).map_value(|v: Option<i16>| match v {
                Some(x) => Some((x, x)),
                None => None,
            })
        }
    }

    /// `decode_frame`: the next frame, one sample for each channel.
    pub open spec fn decode_frame_spec(s: WrapView<D::V>) -> WrapFlow<D::V, Option<Seq<i16>>> {
        if s.channels == 1 {
            Self::mono_run(s).map_value(|v: Option<i16>| match v {
                Some(x) => Some(seq![x]),
                None => None,
            })
        } else {
            Self::stereo_run(s).map_value(|v: Option<(i16, i16)>| match v {
                Some(f) => Some(seq![f.0, f.1]),
                None => None,
            })
        }
    }

    /// The frame a seek goes to, where computing it does not overflow.
    pub open spec fn seek_target(s: WrapView<D::V>, seek_from: SeekFrom) -> Option<int> {
        match seek_from {
            SeekFrom::Start(fi) => Some(fi as int),
            SeekFrom::Current(cur) => {
                let x = (s.frame_index as i64) + cur;
                if i64::MIN <= x <= i64::MAX { Some((x as u64) as int) } else { None }
            },
            SeekFrom::End(end) => {
                let x = (s.total_frames as i64) + end;
                if i64::MIN <= x <= i64::MAX { Some((x as u64) as int) } else { None }
            },
        }
    }

    /// `seek`: the cache is dropped and the decoder reset; reading goes to the start of the block
    /// that holds the target frame, or to the end of the data for a frame at or past the last.
    pub open spec fn seek_spec(s: WrapView<D::V>, seek_from: SeekFrom) -> WrapFlow<D::V, ()> {
        match (D::frames_per_block_spec(s.decoder), Self::seek_target(s, seek_from)) {
            (Some(fpb), Some(fi)) => {
                if fpb == 0 {
                    WrapFlow::Panics
                } else {
                    let block_index = fi / fpb;
                    let base = WrapView {
                        frame_index: fi as u64,
                        decoder: D::reset_spec(s.decoder),
                        samples: Seq::empty(),
                        ..s
                    };
                    if fi >= s.total_frames {
                        if Self::end_of_data(s) > u64::MAX {
                            WrapFlow::Panics
                        } else {
                            WrapFlow::Done(WrapView {
                                position: Self::end_of_data(s) as u64,
                                first_frame_of_samples: s.total_frames,
                                frames_decoded: s.total_frames,
                                ..base
                            }, ())
                        }
                    } else if s.data_offset + block_index * s.block_align > u64::MAX {
                        WrapFlow::Panics
                    } else {
                        WrapFlow::Done(WrapView {
                            position: (s.data_offset + block_index * s.block_align) as u64,
                            first_frame_of_samples: (block_index * fpb) as u64,
                            frames_decoded: (block_index * fpb) as u64,
                            ..base
                        }, ())
                    }
                }
            },
            _ => WrapFlow::Panics,
        }
    }

    /// The frames in the data: `total_samples / channels` where the count of samples is known,
    /// else the whole blocks times the frames in a block.
    pub open spec fn total_frames_spec(d: D::V, data_len: int, fmt: FmtChunk, total_samples: u64) -> int {
        if total_samples == 0 {
            (data_len / (fmt.block_align as int)) * D::frames_per_block_spec(d)->Some_0
        } else {
            (total_samples as int) / (fmt.channels as int)
        }
    }

    /// Where `new` does not panic once the decoder `d` is built.
    pub open spec fn new_ok(d: D::V, data_len: int, fmt: FmtChunk, total_samples: u64) -> bool {
        total_samples == 0 ==> {
            &&& D::frames_per_block_spec(d) is Some
            &&& fmt.block_align > 0
            &&& Self::total_frames_spec(d, data_len, fmt, total_samples) <= u64::MAX
        }
    }
}

impl<D: AdpcmDecoder> AdpcmDecoderWrap<D> {
    /// Builds the wrapper over the bytes of the `data` chunk, which starts at `data_offset` in the
    /// file. Where `total_samples` is 0, the frames are counted from the whole blocks in the data.
    pub fn new(data: Vec<u8>, data_offset: u64, fmt: &FmtChunk, total_samples: u64) -> (r: Result<Self, AdpcmError>)
        requires
            D::new_spec(*fmt) matches Ok(d) ==> Self::new_ok(d, data@.len() as int, *fmt, total_samples),
        ensures
            r is Ok <==> D::new_spec(*fmt) is Ok,
            r matches Err(e) ==> D::new_spec(*fmt) == Err::<D::V, AdpcmError>(e),
            r matches Ok(w) ==> Self::wf(w@) && w@ == (WrapView {
                channels: fmt.channels,
                data: data@,
                data_offset,
                position: data_offset,
                block_align: fmt.block_align,
                frame_index: 0,
                frames_decoded: 0,
                total_frames: Self::total_frames_spec(D::new_spec(*fmt)->Ok_0, data@.len() as int, *fmt, total_samples) as u64,
                decoder: D::new_spec(*fmt)->Ok_0,
                samples: Seq::empty(),
                first_frame_of_samples: 0,
            }),
    {
        let decoder = match D::new(*fmt) {
            Ok(d) => d,
            Err(e) => { return Err(e); },
        };
        let total_frames: u64 = if total_samples == 0 {
            let frames_per_block = decoder.frames_per_block() as u64;
            let total_blocks = data.len() as u64 / fmt.block_align as u64;
            total_blocks * frames_per_block
        } else {
            total_samples / fmt.channels as u64
        };
        let w = Self {
            channels: fmt.channels,
            data,
            data_offset,
            position: data_offset,
            block_align: fmt.block_align,
            frame_index: 0,
            frames_decoded: 0,
            total_frames,
            decoder,
            samples: Vec::new(),
            first_frame_of_samples: 0,
        };
        assert(Self::wf(w@));
        assert(w@.decoder == D::new_spec(*fmt)->Ok_0);
        assert(w@.total_frames == Self::total_frames_spec(D::new_spec(*fmt)->Ok_0, data@.len() as int, *fmt, total_samples) as u64);
        assert(w@.samples == Seq::<i16>::empty());
        Ok(w)
    }

    /// The channel count of the data.
    pub fn get_channels(&self) -> (r: u16)
        ensures
            r == self@.channels,
    {
        self.channels
    }

    /// The frame that the next decode returns.
    pub fn get_cur_frame_index(&self) -> (r: u64)
        ensures
            r == self@.frame_index,
    {
        self.frame_index
    }

    /// Decodes blocks into the cache until it holds `wanted_length` samples or the data ends, at
    /// which the decoder is flushed.
    pub fn feed_until_output(&mut self, wanted_length: usize) -> (r: Result<(), AdpcmError>)
        requires
            Self::wf(old(self)@),
            !(Self::feed_spec(old(self)@, wanted_length as int) is Panics),
        ensures
            Self::wf(final(self)@),
            final(self)@.channels == old(self)@.channels,
            final(self)@.frame_index == old(self)@.frame_index,
            final(self)@.first_frame_of_samples == old(self)@.first_frame_of_samples,
            final(self)@.samples.len() >= old(self)@.samples.len(),
            Self::feed_spec(old(self)@, wanted_length as int) matches WrapFlow::Done(s, _) ==> r is Ok && final(self)@ == s,
            Self::feed_spec(old(self)@, wanted_length as int) matches WrapFlow::Failed(s, e) ==> r == Err::<(), AdpcmError>(e) && final(self)@ == s,
    {
        let ghost s0 = self@;
        let ghost wanted = wanted_length as int;
        let end_of_data: u64 = self.data_offset + self.data.len() as u64;
        let mut sample_decoded: u64 = 0;
        let mut flushed = false;
        while !flushed && self.samples.len() < wanted_length
            invariant
                D::decoder_wf(self@.decoder),
                Self::wf(s0),
                s0 == old(self)@,
                wanted == wanted_length as int,
                end_of_data == Self::end_of_data(s0),
                self@.channels == s0.channels,
                self@.data == s0.data,
                self@.data_offset == s0.data_offset,
                self@.block_align == s0.block_align,
                self@.frame_index == s0.frame_index,
                self@.frames_decoded == s0.frames_decoded,
                self@.total_frames == s0.total_frames,
                self@.first_frame_of_samples == s0.first_frame_of_samples,
                s0.data_offset <= self@.position,
                s0.data.len() <= usize::MAX,
                self@.samples.len() == s0.samples.len() + sample_decoded,
                !flushed ==> Self::feed_loop(self@, wanted, sample_decoded as int) == Self::feed_loop(s0, wanted, 0),
                flushed ==> Self::feed_loop(s0, wanted, 0) == WrapFlow::<D::V, int>::Done(self@, sample_decoded as int),
                !(Self::feed_loop(s0, wanted, 0) is Panics),
                (s0.frames_decoded - s0.first_frame_of_samples) * s0.channels <= s0.samples.len(),
            decreases
                (if self.position < end_of_data { end_of_data - self.position } else { 0 }) * 2 + (if flushed { 0int } else { 1 }),
        {
            let ghost before = self@;
            let cur_pos = self.position;
            if cur_pos < end_of_data {
                let remains = end_of_data - cur_pos;
                let to_read: u64 = if remains < self.block_align as u64 { remains } else { self.block_align as u64 };
                let start = (cur_pos - self.data_offset) as usize;
                let stop = start + to_read as usize;
                let old_len = self.samples.len();
                self.position = cur_pos + to_read;
                let res = self.decoder.decode(slice_subrange(self.data.as_slice(), start, stop), &mut self.samples);
                match res {
                    Ok(()) => {
                        sample_decoded = sample_decoded + (self.samples.len() - old_len) as u64;
                    },
                    Err(e) => {
                        assert(Self::feed_loop(before, wanted, sample_decoded as int) == WrapFlow::<D::V, int>::Failed(self@, e));
                        return Err(e);
                    },
                }
            } else {
                let old_len = self.samples.len();
                let res = self.decoder.flush(&mut self.samples);
                match res {
                    Ok(()) => {
                        sample_decoded = sample_decoded + (self.samples.len() - old_len) as u64;
                        flushed = true;
                    },
                    Err(e) => {
                        return Err(e);
                    },
                }
            }
        }
        self.frames_decoded = self.frames_decoded + sample_decoded / self.channels as u64;
        proof {
            let sd = sample_decoded as int;
            let ch = s0.channels as int;
            let a = s0.frames_decoded - s0.first_frame_of_samples;
            assert((a + sd / ch) * ch <= s0.samples.len() + sd) by (nonlinear_arith)
                requires ch == 1 || ch == 2, sd >= 0, a * ch <= s0.samples.len();
        }
        Ok(())
    }
}

impl<D: AdpcmDecoder> AdpcmDecoderWrap<D> {
    /// Goes to an audio frame: the cache is dropped, the decoder reset, and reading goes to the
    /// start of the block that holds the frame (to the end of the data for a frame past the last).
    #[verifier::spinoff_prover]
    pub fn seek(&mut self, seek_from: SeekFrom)
        requires
            Self::wf(old(self)@),
            !(Self::seek_spec(old(self)@, seek_from) is Panics),
        ensures
            Self::wf(final(self)@),
            Self::seek_spec(old(self)@, seek_from) == WrapFlow::<D::V, ()>::Done(final(self)@, ()),
    {
        let frames_per_block = self.decoder.frames_per_block() as u64;
        let frame_index: u64 = match seek_from {
            SeekFrom::Start(fi) => fi,
            SeekFrom::Current(cur) => (self.frame_index as i64 + cur) as u64,
            SeekFrom::End(end) => (self.total_frames as i64 + end) as u64,
        };
        let block_index = frame_index / frames_per_block;
        self.samples.clear();
        self.decoder.reset_states();
        if frame_index >= self.total_frames {
            let end_of_data = self.data_offset + self.data.len() as u64;
            self.position = end_of_data;
            self.first_frame_of_samples = self.total_frames;
            self.frames_decoded = self.total_frames;
            self.frame_index = frame_index;
            assert(D::decoder_wf(self@.decoder));
            assert(self@.channels == 1 || self@.channels == 2);
            assert(self@.data_offset <= self@.position);
            assert(self@.frames_decoded - self@.first_frame_of_samples == 0);
            assert((self@.frames_decoded - self@.first_frame_of_samples) * self@.channels <= self@.samples.len());
            assert(Self::wf(self@));
        } else {
            proof {
                let fi = frame_index as int;
                let fpb = frames_per_block as int;
                assert((fi / fpb) * fpb <= fi) by (nonlinear_arith)
                    requires fi >= 0, fpb > 0;
            }
            let block_pos = self.data_offset + block_index * self.block_align as u64;
            self.position = block_pos;
            self.first_frame_of_samples = block_index * frames_per_block;
            self.frames_decoded = self.first_frame_of_samples;
            self.frame_index = frame_index;
            assert(D::decoder_wf(self@.decoder));
            assert(self@.channels == 1 || self@.channels == 2);
            assert(self@.data_offset <= self@.position);
            assert(self@.frames_decoded - self@.first_frame_of_samples == 0);
            assert((self@.frames_decoded - self@.first_frame_of_samples) * self@.channels <= self@.samples.len());
            assert(Self::wf(self@));
        }
    }

    /// The next sample of mono data, as `mono_path` with `fuel` rounds gives it.
    #[verifier::spinoff_prover]
    fn next_mono(&mut self, Ghost(fuel): Ghost<nat>) -> (r: Result<Option<i16>, AdpcmError>)
        requires
            Self::wf(old(self)@),
            old(self)@.channels == 1,
            Self::mono_path(old(self)@, fuel) matches Some(o) && !(o is Panics),
        ensures
            Self::wf(final(self)@),
            Self::mono_path(old(self)@, fuel) matches Some(WrapFlow::Done(s, v)) ==> r == Ok::<Option<i16>, AdpcmError>(v) && final(self)@ == s,
            Self::mono_path(old(self)@, fuel) matches Some(WrapFlow::Failed(s, e)) ==> r == Err::<Option<i16>, AdpcmError>(e) && final(self)@ == s,
        decreases fuel,
    {
        if self.samples.len() == 0 {
            match self.feed_until_output(1) {
                Ok(()) => {},
                Err(e) => { return Err(e); },
            }
        }
        if self.samples.len() == 0 {
            Ok(None)
        } else if self.frame_index < self.frames_decoded {
            let v = self.samples[(self.frame_index - self.first_frame_of_samples) as usize];
            self.frame_index = self.frame_index + 1;
            Ok(Some(v))
        } else {
            let ghost a = self.frames_decoded - self.first_frame_of_samples;
            let ghost len = self.samples@.len() as int;
            assert(self.channels == 1);
            assert(a <= len);
            self.first_frame_of_samples = self.first_frame_of_samples + self.samples.len() as u64;
            self.samples.clear();
            assert(Self::wf(self@));
            self.next_mono(Ghost((fuel - 1) as nat))
        }
    }

    /// The next frame of stereo data, as `stereo_path` with `fuel` rounds gives it.
    #[verifier::spinoff_prover]
    fn next_stereo(&mut self, Ghost(fuel): Ghost<nat>) -> (r: Result<Option<(i16, i16)>, AdpcmError>)
        requires
            Self::wf(old(self)@),
            old(self)@.channels == 2,
            Self::stereo_path(old(self)@, fuel) matches Some(o) && !(o is Panics),
        ensures
            Self::wf(final(self)@),
            Self::stereo_path(old(self)@, fuel) matches Some(WrapFlow::Done(s, v)) ==> r == Ok::<Option<(i16, i16)>, AdpcmError>(v) && final(self)@ == s,
            Self::stereo_path(old(self)@, fuel) matches Some(WrapFlow::Failed(s, e)) ==> r == Err::<Option<(i16, i16)>, AdpcmError>(e) && final(self)@ == s,
        decreases fuel,
    {
        if self.samples.len() == 0 {
            match self.feed_until_output(2) {
                Ok(()) => {},
                Err(e) => { return Err(e); },
            }
        }
        if self.samples.len() == 0 {
            Ok(None)
        } else if self.frame_index < self.frames_decoded {
            let index = ((self.frame_index - self.first_frame_of_samples) * 2) as usize;
            self.frame_index = self.frame_index + 1;
            let l = self.samples[index];
            let r = self.samples[index + 1];
            Ok(Some((l, r)))
        } else {
            let ghost a = self.frames_decoded - self.first_frame_of_samples;
            let ghost len = self.samples@.len() as int;
            assert(self.channels == 2);
            assert(a * 2 <= len);
            assert(a - len / 2 <= 0);
            self.first_frame_of_samples = self.first_frame_of_samples + (self.samples.len() / 2) as u64;
            self.samples.clear();
            assert(Self::wf(self@));
            self.next_stereo(Ghost((fuel - 1) as nat))
        }
    }
}

impl<D: AdpcmDecoder> AdpcmDecoderWrap<D> {
    /// Decodes one mono sample: the next sample of mono data, or the mean of the next frame of
    /// stereo data; `None` at the end of the data.
    pub fn decode_mono(&mut self) -> (r: Result<Option<i16>, AdpcmError>)
        requires
            Self::wf(old(self)@),
            !(Self::decode_mono_spec(old(self)@) is Panics),
        ensures
            Self::wf(final(self)@),
            Self::decode_mono_spec(old(self)@) matches WrapFlow::Done(s, v) ==> r == Ok::<Option<i16>, AdpcmError>(v) && final(self)@ == s,
            Self::decode_mono_spec(old(self)@) matches WrapFlow::Failed(s, e) ==> r == Err::<Option<i16>, AdpcmError>(e) && final(self)@ == s,
    {
        if self.channels == 1 {
            let ghost n = choose|n: nat| #[trigger] Self::mono_path(self@, n) is Some;
            self.next_mono(Ghost(n))
        } else {
            let ghost n = choose|n: nat| #[trigger] Self::stereo_path(self@, n) is Some;
            match self.next_stereo(Ghost(n)) {
                Ok(Some((l, r))) => Ok(Some(mean(l, r))),
                Ok(None) => Ok(None),
                Err(e) => Err(e),
            }
        }
    }

    /// Decodes one stereo frame: the next frame of stereo data, or the next sample of mono data
    /// twice; `None` at the end of the data.
    pub fn decode_stereo(&mut self) -> (r: Result<Option<(i16, i16)>, AdpcmError>)
        requires
            Self::wf(old(self)@),
            !(Self::decode_stereo_spec(old(self)@) is Panics),
        ensures
            Self::wf(final(self)@),
            Self::decode_stereo_spec(old(self)@) matches WrapFlow::Done(s, v) ==> r == Ok::<Option<(i16, i16)>, AdpcmError>(v) && final(self)@ == s,
            Self::decode_stereo_spec(old(self)@) matches WrapFlow::Failed(s, e) ==> r == Err::<Option<(i16, i16)>, AdpcmError>(e) && final(self)@ == s,
    {
        if self.channels == 2 {
            let ghost n = choose|n: nat| #[trigger] Self::stereo_path(self@, n) is Some;
            self.next_stereo(Ghost(n))
        } else {
            let ghost n = choose|n: nat| #[trigger] Self::mono_path(self@, n) is Some;
            match self.next_mono(Ghost(n)) {
                Ok(Some(x)) => Ok(Some((x, x))),
                Ok(None) => Ok(None),
                Err(e) => Err(e),
            }
        }
    }

    /// Decodes one audio frame, one sample for each channel; `None` at the end of the data.
    pub fn decode_frame(&mut self) -> (r: Result<Option<Vec<i16>>, AdpcmError>)
        requires
            Self::wf(old(self)@),
            !(Self::decode_frame_spec(old(self)@) is Panics),
        ensures
            Self::wf(final(self)@),
            Self::decode_frame_spec(old(self)@) matches WrapFlow::Done(s, v) ==> final(self)@ == s && match v {
                Some(f) => r matches Ok(Some(x)) && x@ == f,
                None => r matches Ok(None),
            },
            Self::decode_frame_spec(old(self)@) matches WrapFlow::Failed(s, e) ==> r matches Err(e2) && e2 == e && final(self)@ == s,
    {
        if self.channels == 1 {
            let ghost n = choose|n: nat| #[trigger] Self::mono_path(self@, n) is Some;
            match self.next_mono(Ghost(n)) {
                Ok(Some(x)) => {
                    let v = vec![x];
                    assert(v@ =~= seq![x]);
                    Ok(Some(v))
                },
                Ok(None) => Ok(None),
                Err(e) => Err(e),
            }
        } else {
            let ghost n = choose|n: nat| #[trigger] Self::stereo_path(self@, n) is Some;
            match self.next_stereo(Ghost(n)) {
                Ok(Some((l, r))) => {
                    let v = vec![l, r];
                    assert(v@ =~= seq![l, r]);
                    Ok(Some(v))
                },
                Ok(None) => Ok(None),
                Err(e) => Err(e),
            }
        }
    }
}

/// Feeding the cache keeps the frame counters and the channel count, and only adds samples.
pub proof fn lemma_feed_loop_keeps<D: AdpcmDecoder>(s: WrapView<D::V>, wanted: int, decoded: int)
    ensures
        match AdpcmDecoderWrap::<D>::feed_loop(s, wanted, decoded) {
            WrapFlow::Done(t, _) => t.frame_index == s.frame_index && t.channels == s.channels
                && t.first_frame_of_samples == s.first_frame_of_samples && t.frames_decoded == s.frames_decoded,
            WrapFlow::Failed(t, _) => t.frame_index == s.frame_index,
            WrapFlow::Panics => true,
        },
    decreases AdpcmDecoderWrap::<D>::end_of_data(s) - s.position,
{
    let end = AdpcmDecoderWrap::<D>::end_of_data(s);
    if s.samples.len() < wanted && s.position < end {
        let to_read = if end - s.position < s.block_align { end - s.position } else { s.block_align as int };
        if to_read > 0 && end <= u64::MAX {
            let start = s.position - s.data_offset;
            let moved = WrapView { position: (s.position + to_read) as u64, ..s };
            if let Flow::Going(d, o) = D::decode_spec(s.decoder, s.data.subrange(start, start + to_read)) {
                lemma_feed_loop_keeps::<D>(WrapView { decoder: d, samples: s.samples + o, ..moved }, wanted, decoded + o.len());
            }
        }
    }
}

/// Taking a mono sample moves the current frame on by one when it gives one, and leaves it
/// where it was at the end of the data.
pub proof fn lemma_mono_path_advances<D: AdpcmDecoder>(s: WrapView<D::V>, fuel: nat)
    ensures
        AdpcmDecoderWrap::<D>::mono_path(s, fuel) matches Some(WrapFlow::Done(t, v))
            ==> t.frame_index == s.frame_index + (if v is Some { 1int } else { 0 }),
    decreases fuel,
{
    if fuel > 0 {
        lemma_feed_loop_keeps::<D>(s, 1, 0);
        let fed = if s.samples.len() == 0 { AdpcmDecoderWrap::<D>::feed_spec(s, 1) } else { WrapFlow::Done(s, ()) };
        if let WrapFlow::Done(t, _) = fed {
            if t.samples.len() != 0 && t.frame_index >= t.first_frame_of_samples && t.frame_index >= t.frames_decoded
                && t.first_frame_of_samples + t.samples.len() <= u64::MAX {
                lemma_mono_path_advances::<D>(WrapView {
                    first_frame_of_samples: (t.first_frame_of_samples + t.samples.len()) as u64,
                    samples: Seq::empty(),
                    ..t
                }, (fuel - 1) as nat);
            }
        }
    }
}

/// Taking a stereo frame moves the current frame on by one when it gives one, and leaves it
/// where it was at the end of the data.
pub proof fn lemma_stereo_path_advances<D: AdpcmDecoder>(s: WrapView<D::V>, fuel: nat)
    ensures
        AdpcmDecoderWrap::<D>::stereo_path(s, fuel) matches Some(WrapFlow::Done(t, v))
            ==> t.frame_index == s.frame_index + (if v is Some { 1int } else { 0 }),
    decreases fuel,
{
    if fuel > 0 {
        lemma_feed_loop_keeps::<D>(s, 2, 0);
        let fed = if s.samples.len() == 0 { AdpcmDecoderWrap::<D>::feed_spec(s, 2) } else { WrapFlow::Done(s, ()) };
        if let WrapFlow::Done(t, _) = fed {
            if t.samples.len() != 0 && t.frame_index >= t.first_frame_of_samples && t.frame_index >= t.frames_decoded
                && t.first_frame_of_samples + t.samples.len() / 2 <= u64::MAX {
                lemma_stereo_path_advances::<D>(WrapView {
                    first_frame_of_samples: (t.first_frame_of_samples + t.samples.len() / 2) as u64,
                    samples: Seq::empty(),
                    ..t
                }, (fuel - 1) as nat);
            }
        }
    }
}

/// On stereo data `decode_mono` reads what `decode_stereo` reads and gives the mean of the frame
/// that `decode_stereo` gives; on mono data `decode_stereo` gives the sample of `decode_mono` for
/// both channels. Either way both end in the same state, or fail alike.
pub proof fn lemma_mono_is_mixed_stereo<D: AdpcmDecoder>(s: WrapView<D::V>)
    ensures
        s.channels == 2 ==> match AdpcmDecoderWrap::<D>::decode_stereo_spec(s) {
            WrapFlow::Done(t, Some(f)) => AdpcmDecoderWrap::<D>::decode_mono_spec(s) == WrapFlow::<D::V, Option<i16>>::Done(t, Some(mean_spec(f.0, f.1))),
            WrapFlow::Done(t, None) => AdpcmDecoderWrap::<D>::decode_mono_spec(s) == WrapFlow::<D::V, Option<i16>>::Done(t, None),
            WrapFlow::Failed(t, e) => AdpcmDecoderWrap::<D>::decode_mono_spec(s) == WrapFlow::<D::V, Option<i16>>::Failed(t, e),
            WrapFlow::Panics => AdpcmDecoderWrap::<D>::decode_mono_spec(s) is Panics,
        },
        s.channels == 1 ==> match AdpcmDecoderWrap::<D>::decode_mono_spec(s) {
            WrapFlow::Done(t, Some(x)) => AdpcmDecoderWrap::<D>::decode_stereo_spec(s) == WrapFlow::<D::V, Option<(i16, i16)>>::Done(t, Some((x, x))),
            WrapFlow::Done(t, None) => AdpcmDecoderWrap::<D>::decode_stereo_spec(s) == WrapFlow::<D::V, Option<(i16, i16)>>::Done(t, None),
            WrapFlow::Failed(t, e) => AdpcmDecoderWrap::<D>::decode_stereo_spec(s) == WrapFlow::<D::V, Option<(i16, i16)>>::Failed(t, e),
            WrapFlow::Panics => AdpcmDecoderWrap::<D>::decode_stereo_spec(s) is Panics,
        },
{
}

/// Every decode that gives an audio frame moves the current frame index on by one; one that
/// gives none, at the end of the data, leaves it where it was.
pub proof fn lemma_decode_frame_advances<D: AdpcmDecoder>(s: WrapView<D::V>)
    ensures
        AdpcmDecoderWrap::<D>::decode_frame_spec(s) matches WrapFlow::Done(t, v)
            ==> t.frame_index == s.frame_index + (if v is Some { 1int } else { 0 }),
        AdpcmDecoderWrap::<D>::decode_mono_spec(s) matches WrapFlow::Done(t, v)
            ==> t.frame_index == s.frame_index + (if v is Some { 1int } else { 0 }),
        AdpcmDecoderWrap::<D>::decode_stereo_spec(s) matches WrapFlow::Done(t, v)
            ==> t.frame_index == s.frame_index + (if v is Some { 1int } else { 0 }),
{
    if exists|n: nat| #[trigger] AdpcmDecoderWrap::<D>::mono_path(s, n) is Some {
        lemma_mono_path_advances::<D>(s, choose|n: nat| #[trigger] AdpcmDecoderWrap::<D>::mono_path(s, n) is Some);
    }
    if exists|n: nat| #[trigger] AdpcmDecoderWrap::<D>::stereo_path(s, n) is Some {
        lemma_stereo_path_advances::<D>(s, choose|n: nat| #[trigger] AdpcmDecoderWrap::<D>::stereo_path(s, n) is Some);
    }
}

/// Seeking to frame `k` from the start makes `k` the current frame, with an empty cache.
pub proof fn lemma_seek_start<D: AdpcmDecoder>(s: WrapView<D::V>, k: u64)
    requires
        !(AdpcmDecoderWrap::<D>::seek_spec(s, SeekFrom::Start(k)) is Panics),
    ensures
        AdpcmDecoderWrap::<D>::seek_spec(s, SeekFrom::Start(k)) matches WrapFlow::Done(t, _)
            && t.frame_index == k && t.samples.len() == 0,
{
}

impl<D: AdpcmDecoder> AdpcmDecoderWrap<D> {
    /// What the decoder gives for the data from where reading stands: each block (at most
    /// `block_align` bytes up to the end of the data) decoded in turn, then the flush; `None`
    /// where the decoder fails or panics on the way.
    pub open spec fn blocks_output(s: WrapView<D::V>) -> Option<Seq<i16>>
        decreases Self::end_of_data(s) - s.position,
    {
        let end = Self::end_of_data(s);
        if s.position < end {
            let to_read = if end - s.position < s.block_align { end - s.position } else { s.block_align as int };
            if to_read <= 0 || end > u64::MAX {
                None
            } else {
                let start = s.position - s.data_offset;
                match D::decode_spec(s.decoder, s.data.subrange(start, start + to_read)) {
                    Flow::Going(d, o) => match Self::blocks_output(
                        WrapView { decoder: d, position: (s.position + to_read) as u64, ..s },
                    ) {
                        Some(r) => Some(o + r),
                        None => None,
                    },
                    _ => None,
                }
            }
        } else if !D::can_flush(s.decoder) {
            None
        } else {
            match D::flush_spec(s.decoder) {
                Flow::Going(_, o) => Some(o),
                _ => None,
            }
        }
    }

    /// Whether each block of the data from where reading stands, and the flush, give an even
    /// number of samples: whole stereo frames.
    pub open spec fn blocks_even(s: WrapView<D::V>) -> bool
        decreases Self::end_of_data(s) - s.position,
    {
        let end = Self::end_of_data(s);
        if s.position < end {
            let to_read = if end - s.position < s.block_align { end - s.position } else { s.block_align as int };
            if to_read <= 0 || end > u64::MAX {
                false
            } else {
                let start = s.position - s.data_offset;
                match D::decode_spec(s.decoder, s.data.subrange(start, start + to_read)) {
                    Flow::Going(d, o) => o.len() % 2 == 0
                        && Self::blocks_even(WrapView { decoder: d, position: (s.position + to_read) as u64, ..s }),
                    _ => false,
                }
            }
        } else {
            D::can_flush(s.decoder) && match D::flush_spec(s.decoder) {
                Flow::Going(_, o) => o.len() % 2 == 0,
                _ => false,
            }
        }
    }

    /// The samples that `k` successive `decode_mono` calls give from `s`, and the state they
    /// leave, where each of them gives a sample.
    pub open spec fn mono_frames(s: WrapView<D::V>, k: nat) -> Option<(WrapView<D::V>, Seq<i16>)>
        decreases k,
    {
        if k == 0 {
            Some((s, Seq::empty()))
        } else {
            match Self::mono_frames(s, (k - 1) as nat) {
                Some((u, vs)) => match Self::decode_mono_spec(u) {
                    WrapFlow::Done(u2, Some(v)) => Some((u2, vs.push(v))),
                    _ => None,
                },
                None => None,
            }
        }
    }

    /// The frames that `k` successive `decode_stereo` calls give from `s`, and the state they
    /// leave, where each of them gives a frame.
    pub open spec fn stereo_frames(s: WrapView<D::V>, k: nat) -> Option<(WrapView<D::V>, Seq<(i16, i16)>)>
        decreases k,
    {
        if k == 0 {
            Some((s, Seq::empty()))
        } else {
            match Self::stereo_frames(s, (k - 1) as nat) {
                Some((u, fs)) => match Self::decode_stereo_spec(u) {
                    WrapFlow::Done(u2, Some(f)) => Some((u2, fs.push(f))),
                    _ => None,
                },
                None => None,
            }
        }
    }

    /// A stereo wrapper in step with the samples `t` decoded from the start of the data (left and
    /// right in turn): the cache holds whole frames of `t` from its first frame on, and the data
    /// not yet read gives the rest of `t` in whole frames.
    pub open spec fn stereo_in_step(s: WrapView<D::V>, t: Seq<i16>) -> bool {
        &&& s.channels == 2
        &&& s.samples.len() % 2 == 0
        &&& s.frames_decoded == s.first_frame_of_samples + s.samples.len() / 2
        &&& 2 * s.first_frame_of_samples + s.samples.len() <= t.len()
        &&& s.samples == t.subrange(2 * s.first_frame_of_samples, 2 * s.first_frame_of_samples + s.samples.len())
        &&& 2 * s.first_frame_of_samples + s.samples.len() < t.len() ==> {
            &&& Self::blocks_output(s) == Some(t.skip(2 * s.first_frame_of_samples + s.samples.len()))
            &&& Self::blocks_even(s)
        }
    }

    /// A mono wrapper in step with the samples `t` decoded from the start of the data: the cache
    /// holds `t` from its first frame on, and the data not yet read gives the rest of `t`.
    pub open spec fn mono_in_step(s: WrapView<D::V>, t: Seq<i16>) -> bool {
        &&& s.channels == 1
        &&& s.frames_decoded == s.first_frame_of_samples + s.samples.len()
        &&& s.first_frame_of_samples + s.samples.len() <= t.len()
        &&& s.samples == t.subrange(s.first_frame_of_samples as int, s.first_frame_of_samples + s.samples.len())
        &&& s.first_frame_of_samples + s.samples.len() < t.len()
            ==> Self::blocks_output(s) == Some(t.skip(s.first_frame_of_samples + s.samples.len()))
    }
}

/// Whether the data gives whole frames depends only on the decoder, the data and where reading
/// stands.
proof fn lemma_blocks_even_fields<D: AdpcmDecoder>(s: WrapView<D::V>, t: WrapView<D::V>)
    requires
        s.decoder == t.decoder,
        s.data == t.data,
        s.data_offset == t.data_offset,
        s.position == t.position,
        s.block_align == t.block_align,
    ensures
        AdpcmDecoderWrap::<D>::blocks_even(s) == AdpcmDecoderWrap::<D>::blocks_even(t),
    decreases AdpcmDecoderWrap::<D>::end_of_data(s) - s.position,
{
    let end = AdpcmDecoderWrap::<D>::end_of_data(s);
    if s.position < end {
        let to_read = if end - s.position < s.block_align { end - s.position } else { s.block_align as int };
        if to_read > 0 && end <= u64::MAX {
            let start = s.position - s.data_offset;
            if let Flow::Going(d, o) = D::decode_spec(s.decoder, s.data.subrange(start, start + to_read)) {
                lemma_blocks_even_fields::<D>(
                    WrapView { decoder: d, position: (s.position + to_read) as u64, ..s },
                    WrapView { decoder: d, position: (s.position + to_read) as u64, ..t },
                );
            }
        }
    }
}

/// What the data gives depends only on the decoder, the data and where reading stands.
proof fn lemma_blocks_output_fields<D: AdpcmDecoder>(s: WrapView<D::V>, t: WrapView<D::V>)
    requires
        s.decoder == t.decoder,
        s.data == t.data,
        s.data_offset == t.data_offset,
        s.position == t.position,
        s.block_align == t.block_align,
    ensures
        AdpcmDecoderWrap::<D>::blocks_output(s) == AdpcmDecoderWrap::<D>::blocks_output(t),
    decreases AdpcmDecoderWrap::<D>::end_of_data(s) - s.position,
{
    let end = AdpcmDecoderWrap::<D>::end_of_data(s);
    if s.position < end {
        let to_read = if end - s.position < s.block_align { end - s.position } else { s.block_align as int };
        if to_read > 0 && end <= u64::MAX {
            let start = s.position - s.data_offset;
            if let Flow::Going(d, o) = D::decode_spec(s.decoder, s.data.subrange(start, start + to_read)) {
                lemma_blocks_output_fields::<D>(
                    WrapView { decoder: d, position: (s.position + to_read) as u64, ..s },
                    WrapView { decoder: d, position: (s.position + to_read) as u64, ..t },
                );
            }
        }
    }
}

/// Feeding an empty cache (for one sample, or for two where every block and the flush give an
/// even number of samples) from data that gives `r`: blocks are decoded until one gives samples,
/// or the data ends and the decoder is flushed; the cache then holds the first samples of `r`,
/// the data left gives the rest, and at the end of the data the cache holds all of `r`.
proof fn lemma_feed_in_step<D: AdpcmDecoder>(s: WrapView<D::V>, wanted: int, decoded: int, r: Seq<i16>)
    requires
        s.samples.len() == 0,
        AdpcmDecoderWrap::<D>::blocks_output(s) == Some(r),
        wanted == 1 || (wanted == 2 && AdpcmDecoderWrap::<D>::blocks_even(s)),
    ensures
        AdpcmDecoderWrap::<D>::feed_loop(s, wanted, decoded) matches WrapFlow::Done(s2, d2) && d2 == decoded + s2.samples.len()
            && s2.frame_index == s.frame_index && s2.first_frame_of_samples == s.first_frame_of_samples
            && s2.frames_decoded == s.frames_decoded && s2.channels == s.channels
            && s2.samples.len() <= r.len()
            && s2.samples == r.take(s2.samples.len() as int)
            && (s2.samples.len() < r.len() ==> AdpcmDecoderWrap::<D>::blocks_output(s2) == Some(r.skip(s2.samples.len() as int)))
            && (s2.samples.len() == 0 ==> r.len() == 0)
            && (s2.samples.len() == r.len() || s.position < s2.position <= AdpcmDecoderWrap::<D>::end_of_data(s))
            && s2.data == s.data && s2.data_offset == s.data_offset
            && (wanted == 2 ==> s2.samples.len() % 2 == 0
                && (s2.samples.len() < r.len() ==> AdpcmDecoderWrap::<D>::blocks_even(s2))),
    decreases AdpcmDecoderWrap::<D>::end_of_data(s) - s.position,
{
    let end = AdpcmDecoderWrap::<D>::end_of_data(s);
    if s.position < end {
        let to_read = if end - s.position < s.block_align { end - s.position } else { s.block_align as int };
        let start = s.position - s.data_offset;
        if let Flow::Going(d, o) = D::decode_spec(s.decoder, s.data.subrange(start, start + to_read)) {
            let moved = WrapView { decoder: d, position: (s.position + to_read) as u64, ..s };
            let r2 = AdpcmDecoderWrap::<D>::blocks_output(moved)->Some_0;
            assert(r == o + r2);
            let s1 = WrapView { decoder: d, samples: s.samples + o, position: (s.position + to_read) as u64, ..s };
            assert(s.samples + o =~= o);
            if o.len() == 0 {
                assert(s1.samples =~= moved.samples);
                assert(s1 == moved);
                assert(o + r2 =~= r2);
                assert(AdpcmDecoderWrap::<D>::feed_loop(s, wanted, decoded) == AdpcmDecoderWrap::<D>::feed_loop(s1, wanted, decoded + o.len()));
                lemma_feed_in_step::<D>(moved, wanted, decoded, r2);
            } else {
                assert(o =~= r.take(o.len() as int));
                assert(r2 =~= r.skip(o.len() as int));
                lemma_blocks_output_fields::<D>(s1, moved);
                lemma_blocks_even_fields::<D>(s1, moved);
                assert(AdpcmDecoderWrap::<D>::feed_loop(s, wanted, decoded) == AdpcmDecoderWrap::<D>::feed_loop(s1, wanted, decoded + o.len()));
                assert(AdpcmDecoderWrap::<D>::feed_loop(s1, wanted, decoded + o.len()) == WrapFlow::<D::V, int>::Done(s1, decoded + o.len()));
            }
        }
    } else {
        if let Flow::Going(d, o) = D::flush_spec(s.decoder) {
            assert(s.samples + o =~= o);
            assert(o =~= r.take(o.len() as int));
        }
    }
}

/// Any two fuels that are enough give the same outcome.
proof fn lemma_mono_path_fuel<D: AdpcmDecoder>(s: WrapView<D::V>, a: nat, b: nat)
    requires
        AdpcmDecoderWrap::<D>::mono_path(s, a) is Some,
        AdpcmDecoderWrap::<D>::mono_path(s, b) is Some,
    ensures
        AdpcmDecoderWrap::<D>::mono_path(s, a) == AdpcmDecoderWrap::<D>::mono_path(s, b),
    decreases a,
{
    if a > 0 && b > 0 {
        let fed = if s.samples.len() == 0 { AdpcmDecoderWrap::<D>::feed_spec(s, 1) } else { WrapFlow::Done(s, ()) };
        if let WrapFlow::Done(t, _) = fed {
            if t.samples.len() != 0 && t.frame_index >= t.first_frame_of_samples && t.frame_index >= t.frames_decoded
                && t.first_frame_of_samples + t.samples.len() <= u64::MAX {
                lemma_mono_path_fuel::<D>(
                    WrapView {
                        first_frame_of_samples: (t.first_frame_of_samples + t.samples.len()) as u64,
                        samples: Seq::empty(),
                        ..t
                    },
                    (a - 1) as nat,
                    (b - 1) as nat,
                );
            }
        }
    }
}

/// A mono wrapper in step with the decoded samples `t`, at a frame of `t` at or after the cache's
/// first: the next decode gives that frame's sample and stays in step, with enough fuel.
proof fn lemma_mono_next<D: AdpcmDecoder>(s: WrapView<D::V>, t: Seq<i16>) -> (n: nat)
    requires
        AdpcmDecoderWrap::<D>::mono_in_step(s, t),
        s.first_frame_of_samples <= s.frame_index < t.len(),
        t.len() <= u64::MAX,
    ensures
        AdpcmDecoderWrap::<D>::mono_path(s, n) matches Some(WrapFlow::Done(s2, v))
            && v == Some(t[s.frame_index as int])
            && AdpcmDecoderWrap::<D>::mono_in_step(s2, t)
            && s2.frame_index == s.frame_index + 1
            && s2.first_frame_of_samples <= s2.frame_index,
    decreases AdpcmDecoderWrap::<D>::end_of_data(s) - s.position, if s.samples.len() > 0 { 1int } else { 0int },
{
    let first = s.first_frame_of_samples as int;
    if s.samples.len() > 0 {
        if s.frame_index < s.frames_decoded {
            lemma_blocks_output_fields::<D>(WrapView { frame_index: (s.frame_index + 1) as u64, ..s }, s);
            1
        } else {
            let s1 = WrapView {
                first_frame_of_samples: (first + s.samples.len()) as u64,
                samples: Seq::empty(),
                ..s
            };
            lemma_blocks_output_fields::<D>(s1, s);
            assert(s1.samples =~= t.subrange(first + s.samples.len(), first + s.samples.len()));
            let n1 = lemma_mono_next::<D>(s1, t);
            n1 + 1
        }
    } else {
        let r = t.skip(first);
        assert(AdpcmDecoderWrap::<D>::blocks_output(s) == Some(r));
        lemma_feed_in_step::<D>(s, 1, 0, r);
        let s2 = AdpcmDecoderWrap::<D>::feed_loop(s, 1, 0)->Done_0;
        let fed = WrapView { frames_decoded: (s2.frames_decoded + s2.samples.len()) as u64, ..s2 };
        assert(AdpcmDecoderWrap::<D>::feed_spec(s, 1) == WrapFlow::<D::V, ()>::Done(fed, ()));
        lemma_blocks_output_fields::<D>(fed, s2);
        assert(fed.samples =~= t.subrange(first, first + fed.samples.len()));
        assert(r.skip(fed.samples.len() as int) =~= t.skip(first + fed.samples.len()));
        if s.frame_index < fed.frames_decoded {
            lemma_blocks_output_fields::<D>(WrapView { frame_index: (fed.frame_index + 1) as u64, ..fed }, fed);
            1
        } else {
            let s3 = WrapView {
                first_frame_of_samples: (first + fed.samples.len()) as u64,
                samples: Seq::empty(),
                ..fed
            };
            lemma_blocks_output_fields::<D>(s3, fed);
            assert(s3.samples =~= t.subrange(first + fed.samples.len(), first + fed.samples.len()));
            let n3 = lemma_mono_next::<D>(s3, t);
            n3 + 1
        }
    }
}

/// `k` successive decodes from a mono wrapper in step with `t` at its start give the first `k`
/// samples of `t` and leave it in step at frame `k`.
proof fn lemma_mono_frames_in_step<D: AdpcmDecoder>(s: WrapView<D::V>, t: Seq<i16>, k: nat)
    requires
        AdpcmDecoderWrap::<D>::mono_in_step(s, t),
        s.frame_index == 0,
        s.first_frame_of_samples == 0,
        t.len() <= u64::MAX,
        k <= t.len(),
    ensures
        AdpcmDecoderWrap::<D>::mono_frames(s, k) matches Some((u, vs)) && vs == t.take(k as int)
            && AdpcmDecoderWrap::<D>::mono_in_step(u, t) && u.frame_index == k
            && u.first_frame_of_samples <= u.frame_index,
    decreases k,
{
    if k == 0 {
        assert(t.take(0) =~= Seq::<i16>::empty());
    } else {
        lemma_mono_frames_in_step::<D>(s, t, (k - 1) as nat);
        let (u, vs) = AdpcmDecoderWrap::<D>::mono_frames(s, (k - 1) as nat)->Some_0;
        let n = lemma_mono_next::<D>(u, t);
        let m = choose|m: nat| #[trigger] AdpcmDecoderWrap::<D>::mono_path(u, m) is Some;
        lemma_mono_path_fuel::<D>(u, m, n);
        assert(t.take(k - 1).push(t[k - 1]) =~= t.take(k as int));
    }
}

/// Decoding mono data sample after sample from a new wrapper gives exactly what the decoder gives
/// for the data, each block in turn and then the flush, in order (as far as the decoder neither
/// fails nor panics on it).
pub proof fn lemma_mono_decodes_data<D: AdpcmDecoder>(s: WrapView<D::V>, k: nat)
    requires
        s.channels == 1,
        s.samples.len() == 0,
        s.frame_index == 0,
        s.frames_decoded == 0,
        s.first_frame_of_samples == 0,
        AdpcmDecoderWrap::<D>::blocks_output(s) matches Some(t) && t.len() <= u64::MAX && k <= t.len(),
    ensures
        AdpcmDecoderWrap::<D>::mono_frames(s, k) matches Some((_, vs))
            && vs == AdpcmDecoderWrap::<D>::blocks_output(s)->Some_0.take(k as int),
{
    let t = AdpcmDecoderWrap::<D>::blocks_output(s)->Some_0;
    assert(s.samples =~= t.subrange(0, 0));
    assert(t.skip(0) =~= t);
    lemma_mono_frames_in_step::<D>(s, t, k);
}

/// Any two fuels that are enough give the same stereo outcome.
proof fn lemma_stereo_path_fuel<D: AdpcmDecoder>(s: WrapView<D::V>, a: nat, b: nat)
    requires
        AdpcmDecoderWrap::<D>::stereo_path(s, a) is Some,
        AdpcmDecoderWrap::<D>::stereo_path(s, b) is Some,
    ensures
        AdpcmDecoderWrap::<D>::stereo_path(s, a) == AdpcmDecoderWrap::<D>::stereo_path(s, b),
    decreases a,
{
    if a > 0 && b > 0 {
        let fed = if s.samples.len() == 0 { AdpcmDecoderWrap::<D>::feed_spec(s, 2) } else { WrapFlow::Done(s, ()) };
        if let WrapFlow::Done(t, _) = fed {
            if t.samples.len() != 0 && t.frame_index >= t.first_frame_of_samples && t.frame_index >= t.frames_decoded
                && t.first_frame_of_samples + t.samples.len() / 2 <= u64::MAX {
                lemma_stereo_path_fuel::<D>(
                    WrapView {
                        first_frame_of_samples: (t.first_frame_of_samples + t.samples.len() / 2) as u64,
                        samples: Seq::empty(),
                        ..t
                    },
                    (a - 1) as nat,
                    (b - 1) as nat,
                );
            }
        }
    }
}

/// A stereo wrapper in step with the decoded samples `t`, at a frame of `t` at or after the
/// cache's first: the next decode gives that frame and stays in step, with enough fuel.
proof fn lemma_stereo_next<D: AdpcmDecoder>(s: WrapView<D::V>, t: Seq<i16>) -> (n: nat)
    requires
        AdpcmDecoderWrap::<D>::stereo_in_step(s, t),
        s.first_frame_of_samples <= s.frame_index,
        2 * s.frame_index + 1 < t.len(),
        t.len() <= u64::MAX,
    ensures
        AdpcmDecoderWrap::<D>::stereo_path(s, n) matches Some(WrapFlow::Done(s2, v))
            && v == Some((t[2 * s.frame_index], t[2 * s.frame_index + 1]))
            && AdpcmDecoderWrap::<D>::stereo_in_step(s2, t)
            && s2.frame_index == s.frame_index + 1
            && s2.first_frame_of_samples <= s2.frame_index,
    decreases AdpcmDecoderWrap::<D>::end_of_data(s) - s.position, if s.samples.len() > 0 { 1int } else { 0int },
{
    let first = s.first_frame_of_samples as int;
    if s.samples.len() > 0 {
        if s.frame_index < s.frames_decoded {
            let w = WrapView { frame_index: (s.frame_index + 1) as u64, ..s };
            lemma_blocks_output_fields::<D>(w, s);
            lemma_blocks_even_fields::<D>(w, s);
            1
        } else {
            let s1 = WrapView {
                first_frame_of_samples: (first + s.samples.len() / 2) as u64,
                samples: Seq::empty(),
                ..s
            };
            lemma_blocks_output_fields::<D>(s1, s);
            lemma_blocks_even_fields::<D>(s1, s);
            assert(s1.samples =~= t.subrange(2 * first + s.samples.len(), 2 * first + s.samples.len()));
            let n1 = lemma_stereo_next::<D>(s1, t);
            n1 + 1
        }
    } else {
        let r = t.skip(2 * first);
        assert(AdpcmDecoderWrap::<D>::blocks_output(s) == Some(r));
        lemma_feed_in_step::<D>(s, 2, 0, r);
        let s2 = AdpcmDecoderWrap::<D>::feed_loop(s, 2, 0)->Done_0;
        let fed = WrapView { frames_decoded: (s2.frames_decoded + s2.samples.len() / 2) as u64, ..s2 };
        assert(AdpcmDecoderWrap::<D>::feed_spec(s, 2) == WrapFlow::<D::V, ()>::Done(fed, ()));
        lemma_blocks_output_fields::<D>(fed, s2);
        lemma_blocks_even_fields::<D>(fed, s2);
        assert(fed.samples =~= t.subrange(2 * first, 2 * first + fed.samples.len()));
        assert(r.skip(fed.samples.len() as int) =~= t.skip(2 * first + fed.samples.len()));
        if s.frame_index < fed.frames_decoded {
            let w = WrapView { frame_index: (fed.frame_index + 1) as u64, ..fed };
            lemma_blocks_output_fields::<D>(w, fed);
            lemma_blocks_even_fields::<D>(w, fed);
            1
        } else {
            let s3 = WrapView {
                first_frame_of_samples: (first + fed.samples.len() / 2) as u64,
                samples: Seq::empty(),
                ..fed
            };
            lemma_blocks_output_fields::<D>(s3, fed);
            lemma_blocks_even_fields::<D>(s3, fed);
            assert(s3.samples =~= t.subrange(2 * first + fed.samples.len(), 2 * first + fed.samples.len()));
            let n3 = lemma_stereo_next::<D>(s3, t);
            n3 + 1
        }
    }
}

/// `k` successive decodes from a stereo wrapper in step with `t` at its start give the first `k`
/// frames of `t` and leave it in step at frame `k`.
proof fn lemma_stereo_frames_in_step<D: AdpcmDecoder>(s: WrapView<D::V>, t: Seq<i16>, k: nat)
    requires
        AdpcmDecoderWrap::<D>::stereo_in_step(s, t),
        s.frame_index == 0,
        s.first_frame_of_samples == 0,
        t.len() <= u64::MAX,
        2 * k <= t.len(),
    ensures
        AdpcmDecoderWrap::<D>::stereo_frames(s, k) matches Some((u, fs)) && fs.len() == k
            && (forall|i: int| 0 <= i < k ==> #[trigger] fs[i] == (t[2 * i], t[2 * i + 1]))
            && AdpcmDecoderWrap::<D>::stereo_in_step(u, t) && u.frame_index == k
            && u.first_frame_of_samples <= u.frame_index,
    decreases k,
{
    if k > 0 {
        lemma_stereo_frames_in_step::<D>(s, t, (k - 1) as nat);
        let (u, fs) = AdpcmDecoderWrap::<D>::stereo_frames(s, (k - 1) as nat)->Some_0;
        let n = lemma_stereo_next::<D>(u, t);
        let m = choose|m: nat| #[trigger] AdpcmDecoderWrap::<D>::stereo_path(u, m) is Some;
        lemma_stereo_path_fuel::<D>(u, m, n);
        let fs2 = fs.push((t[2 * (k - 1)], t[2 * (k - 1) + 1]));
        assert forall|i: int| 0 <= i < k implies #[trigger] fs2[i] == (t[2 * i], t[2 * i + 1]) by {
            if i < k - 1 {
                assert(fs2[i] == fs[i]);
            }
        }
    }
}

/// Decoding stereo data frame after frame from a new wrapper gives exactly what the decoder gives
/// for the data, each block in turn and then the flush, in pairs of samples (as far as the
/// decoder neither fails nor panics on it, and each block and the flush give whole frames).
pub proof fn lemma_stereo_decodes_data<D: AdpcmDecoder>(s: WrapView<D::V>, k: nat)
    requires
        s.channels == 2,
        s.samples.len() == 0,
        s.frame_index == 0,
        s.frames_decoded == 0,
        s.first_frame_of_samples == 0,
        AdpcmDecoderWrap::<D>::blocks_even(s),
        AdpcmDecoderWrap::<D>::blocks_output(s) matches Some(t) && t.len() <= u64::MAX && 2 * k <= t.len(),
    ensures
        AdpcmDecoderWrap::<D>::stereo_frames(s, k) matches Some((_, fs)) && fs.len() == k
            && forall|i: int| 0 <= i < k ==> #[trigger] fs[i] == (
                AdpcmDecoderWrap::<D>::blocks_output(s)->Some_0[2 * i],
                AdpcmDecoderWrap::<D>::blocks_output(s)->Some_0[2 * i + 1],
            ),
{
    let t = AdpcmDecoderWrap::<D>::blocks_output(s)->Some_0;
    assert(s.samples =~= t.subrange(0, 0));
    assert(t.skip(0) =~= t);
    lemma_stereo_frames_in_step::<D>(s, t, k);
}

} // verus!
