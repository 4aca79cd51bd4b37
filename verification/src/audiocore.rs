use vstd::prelude::*;

verus! {

/// Why a channel layout could not be worked out.
#[derive(Clone, Copy, Debug, PartialEq, Eq)]
pub enum AudioError {
    /// No channel mask is known for this number of channels.
    CantGuessChannelMask(u16),
    /// The number of channels does not match the channel mask.
    ChannelNotMatchMask,
}

/// The speaker positions of a WAVE channel mask, in the order of their bits.
#[derive(Clone, Copy, Debug, PartialEq, Eq)]
pub enum SpeakerPosition {
    FrontLeft,
    FrontRight,
    FrontCenter,
    LowFreq,
    BackLeft,
    BackRight,
    FrontLeftOfCenter,
    FrontRightOfCenter,
    BackCenter,
    SideLeft,
    SideRight,
    TopCenter,
    TopFrontLeft,
    TopFrontCenter,
    TopFrontRight,
    TopBackLeft,
    TopBackCenter,
    TopBackRight,
}

/// The speaker positions in the order of their bits in a channel mask.
pub open spec fn all_positions() -> Seq<SpeakerPosition> {
    seq![
        SpeakerPosition::FrontLeft,
        SpeakerPosition::FrontRight,
        SpeakerPosition::FrontCenter,
        SpeakerPosition::LowFreq,
        SpeakerPosition::BackLeft,
        SpeakerPosition::BackRight,
        SpeakerPosition::FrontLeftOfCenter,
        SpeakerPosition::FrontRightOfCenter,
        SpeakerPosition::BackCenter,
        SpeakerPosition::SideLeft,
        SpeakerPosition::SideRight,
        SpeakerPosition::TopCenter,
        SpeakerPosition::TopFrontLeft,
        SpeakerPosition::TopFrontCenter,
        SpeakerPosition::TopFrontRight,
        SpeakerPosition::TopBackLeft,
        SpeakerPosition::TopBackCenter,
        SpeakerPosition::TopBackRight,
    ]
}

/// The bit of a speaker position in a channel mask.
pub open spec fn position_bit(p: SpeakerPosition) -> u32 {
    match p {
        SpeakerPosition::FrontLeft => 0x1,
        SpeakerPosition::FrontRight => 0x2,
        SpeakerPosition::FrontCenter => 0x4,
        SpeakerPosition::LowFreq => 0x8,
        SpeakerPosition::BackLeft => 0x10,
        SpeakerPosition::BackRight => 0x20,
        SpeakerPosition::FrontLeftOfCenter => 0x40,
        SpeakerPosition::FrontRightOfCenter => 0x80,
        SpeakerPosition::BackCenter => 0x100,
        SpeakerPosition::SideLeft => 0x200,
        SpeakerPosition::SideRight => 0x400,
        SpeakerPosition::TopCenter => 0x800,
        SpeakerPosition::TopFrontLeft => 0x1000,
        SpeakerPosition::TopFrontCenter => 0x2000,
        SpeakerPosition::TopFrontRight => 0x4000,
        SpeakerPosition::TopBackLeft => 0x8000,
        SpeakerPosition::TopBackCenter => 0x10000,
        SpeakerPosition::TopBackRight => 0x20000,
    }
}

/// The speaker positions whose bits are all set in `channel_mask`, in the order of their bits.
pub open spec fn positions_in_mask(channel_mask: u32) -> Seq<SpeakerPosition> {
    all_positions().filter(|p: SpeakerPosition| channel_mask & position_bit(p) == position_bit(p))
}

impl SpeakerPosition {
    /// The bit of this position in a channel mask.
    pub fn mask(self) -> (r: u32)
        ensures
            r == position_bit(self),
    {
        match self {
            SpeakerPosition::FrontLeft => 0x1,
            SpeakerPosition::FrontRight => 0x2,
            SpeakerPosition::FrontCenter => 0x4,
            SpeakerPosition::LowFreq => 0x8,
            SpeakerPosition::BackLeft => 0x10,
            SpeakerPosition::BackRight => 0x20,
            SpeakerPosition::FrontLeftOfCenter => 0x40,
            SpeakerPosition::FrontRightOfCenter => 0x80,
            SpeakerPosition::BackCenter => 0x100,
            SpeakerPosition::SideLeft => 0x200,
            SpeakerPosition::SideRight => 0x400,
            SpeakerPosition::TopCenter => 0x800,
            SpeakerPosition::TopFrontLeft => 0x1000,
            SpeakerPosition::TopFrontCenter => 0x2000,
            SpeakerPosition::TopFrontRight => 0x4000,
            SpeakerPosition::TopBackLeft => 0x8000,
            SpeakerPosition::TopBackCenter => 0x10000,
            SpeakerPosition::TopBackRight => 0x20000,
        }
    }
}

/// How samples are stored.
#[derive(Clone, Copy, Debug, PartialEq, Eq)]
pub enum SampleFormat {
    Unknown,
    Float,
    UInt,
    Int,
}

/// The audio spec: channels, which speaker each channel feeds, sample rate and sample format.
#[derive(Clone, Copy, Debug)]
pub struct Spec {
    pub channels: u16,
    pub channel_mask: u32,
    pub sample_rate: u32,
    pub bits_per_sample: u16,
    pub sample_format: SampleFormat,
}

/// The speaker positions in the order of their bits, as an array.
fn positions_table() -> (r: [SpeakerPosition; 18])
    ensures
        r@ == all_positions(),
{
    let r = [
        SpeakerPosition::FrontLeft,
        SpeakerPosition::FrontRight,
        SpeakerPosition::FrontCenter,
        SpeakerPosition::LowFreq,
        SpeakerPosition::BackLeft,
        SpeakerPosition::BackRight,
        SpeakerPosition::FrontLeftOfCenter,
        SpeakerPosition::FrontRightOfCenter,
        SpeakerPosition::BackCenter,
        SpeakerPosition::SideLeft,
        SpeakerPosition::SideRight,
        SpeakerPosition::TopCenter,
        SpeakerPosition::TopFrontLeft,
        SpeakerPosition::TopFrontCenter,
        SpeakerPosition::TopFrontRight,
        SpeakerPosition::TopBackLeft,
        SpeakerPosition::TopBackCenter,
        SpeakerPosition::TopBackRight,
    ];
    assert(r@ =~= all_positions());
    r
}

impl Spec {
    /// An empty spec: no channels, zero rate, unknown format.
    pub fn new() -> (r: Self)
        ensures
            r.channels == 0,
            r.channel_mask == 0,
            r.sample_rate == 0,
            r.bits_per_sample == 0,
            r.sample_format == SampleFormat::Unknown,
    {
        Self { channels: 0, channel_mask: 0, sample_rate: 0, bits_per_sample: 0, sample_format: SampleFormat::Unknown }
    }

    /// The usual channel mask for mono (front center) and stereo (front left and right).
    pub fn guess_channel_mask(channels: u16) -> (r: Result<u32, AudioError>)
        ensures
            channels == 1 ==> r == Ok::<u32, AudioError>(position_bit(SpeakerPosition::FrontCenter)),
            channels == 2 ==> r == Ok::<u32, AudioError>(
                position_bit(SpeakerPosition::FrontLeft) | position_bit(SpeakerPosition::FrontRight),
            ),
            channels != 1 && channels != 2 ==> r == Err::<u32, AudioError>(AudioError::CantGuessChannelMask(channels)),
    {
        match channels {
            1 => Ok(SpeakerPosition::FrontCenter.mask()),
            2 => Ok(SpeakerPosition::FrontLeft.mask() | SpeakerPosition::FrontRight.mask()),
            other => Err(AudioError::CantGuessChannelMask(other)),
        }
    }

    /// The speaker of each channel, from the channel mask; the mask must name one speaker per
    /// channel.
    pub fn which_channel_which_speaker(&self) -> (r: Result<Vec<SpeakerPosition>, AudioError>)
        ensures
            positions_in_mask(self.channel_mask).len() == self.channels ==> (r matches Ok(v) && v@ == positions_in_mask(self.channel_mask)),
            positions_in_mask(self.channel_mask).len() != self.channels ==> r == Err::<Vec<SpeakerPosition>, AudioError>(AudioError::ChannelNotMatchMask),
    {
        let enums = positions_table();
        let mut ret = Vec::<SpeakerPosition>::new();
        let mut i: usize = 0;
        while i < 18
            invariant
                i <= 18,
                enums@ == all_positions(),
                ret@ == all_positions().take(i as int).filter(|p: SpeakerPosition| self.channel_mask & position_bit(p) == position_bit(p)),
            decreases 18 - i,
        {
            let m = enums[i].mask();
            proof {
                let f = |p: SpeakerPosition| self.channel_mask & position_bit(p) == position_bit(p);
                assert(all_positions().take(i + 1).drop_last() =~= all_positions().take(i as int));
                assert(all_positions().take(i + 1).last() == enums@[i as int]);
                reveal(Seq::filter);
            }
            if self.channel_mask & m == m {
                ret.push(enums[i]);
            }
            i += 1;
        }
        assert(all_positions().take(18) =~= all_positions());
        proof { reveal(Seq::filter); }
        if ret.len() == self.channels as usize {
            Ok(ret)
        } else {
            Err(AudioError::ChannelNotMatchMask)
        }
    }
}


/// The positions listed by `all_positions` have strictly increasing bits, and every position is
/// listed.
proof fn lemma_all_positions_in_bit_order()
    ensures
        forall|i: int, j: int| 0 <= i < j < all_positions().len() ==> position_bit(all_positions()[i]) < position_bit(all_positions()[j]),
        forall|p: SpeakerPosition| all_positions().contains(p),
{
    let a = all_positions();
    assert(a.len() == 18);
    assert(position_bit(a[0]) == 1);
    assert(position_bit(a[1]) == 2);
    assert(position_bit(a[2]) == 4);
    assert(position_bit(a[3]) == 8);
    assert(position_bit(a[4]) == 16);
    assert(position_bit(a[5]) == 32);
    assert(position_bit(a[6]) == 64);
    assert(position_bit(a[7]) == 128);
    assert(position_bit(a[8]) == 256);
    assert(position_bit(a[9]) == 512);
    assert(position_bit(a[10]) == 1024);
    assert(position_bit(a[11]) == 2048);
    assert(position_bit(a[12]) == 4096);
    assert(position_bit(a[13]) == 8192);
    assert(position_bit(a[14]) == 16384);
    assert(position_bit(a[15]) == 32768);
    assert(position_bit(a[16]) == 65536);
    assert(position_bit(a[17]) == 131072);
    assert forall|i: int, j: int| 0 <= i < j < a.len() implies position_bit(a[i]) < position_bit(a[j]) by {
        assert(i == 0 || i == 1 || i == 2 || i == 3 || i == 4 || i == 5 || i == 6 || i == 7 || i == 8 || i == 9 || i == 10 || i == 11 || i == 12 || i == 13 || i == 14 || i == 15 || i == 16 || i == 17);
        assert(j == 0 || j == 1 || j == 2 || j == 3 || j == 4 || j == 5 || j == 6 || j == 7 || j == 8 || j == 9 || j == 10 || j == 11 || j == 12 || j == 13 || j == 14 || j == 15 || j == 16 || j == 17);
    }
    assert forall|p: SpeakerPosition| a.contains(p) by {
        match p {
            SpeakerPosition::FrontLeft => assert(a[0] == p),
            SpeakerPosition::FrontRight => assert(a[1] == p),
            SpeakerPosition::FrontCenter => assert(a[2] == p),
            SpeakerPosition::LowFreq => assert(a[3] == p),
            SpeakerPosition::BackLeft => assert(a[4] == p),
            SpeakerPosition::BackRight => assert(a[5] == p),
            SpeakerPosition::FrontLeftOfCenter => assert(a[6] == p),
            SpeakerPosition::FrontRightOfCenter => assert(a[7] == p),
            SpeakerPosition::BackCenter => assert(a[8] == p),
            SpeakerPosition::SideLeft => assert(a[9] == p),
            SpeakerPosition::SideRight => assert(a[10] == p),
            SpeakerPosition::TopCenter => assert(a[11] == p),
            SpeakerPosition::TopFrontLeft => assert(a[12] == p),
            SpeakerPosition::TopFrontCenter => assert(a[13] == p),
            SpeakerPosition::TopFrontRight => assert(a[14] == p),
            SpeakerPosition::TopBackLeft => assert(a[15] == p),
            SpeakerPosition::TopBackCenter => assert(a[16] == p),
            SpeakerPosition::TopBackRight => assert(a[17] == p),
        }
    }
}

/// Filtering a run of positions in bit order keeps them in bit order, and keeps exactly those
/// that pass.
proof fn lemma_filter_in_bit_order(s: Seq<SpeakerPosition>, f: spec_fn(SpeakerPosition) -> bool)
    requires
        forall|i: int, j: int| 0 <= i < j < s.len() ==> position_bit(s[i]) < position_bit(s[j]),
    ensures
        forall|i: int, j: int| 0 <= i < j < s.filter(f).len() ==> position_bit(s.filter(f)[i]) < position_bit(s.filter(f)[j]),
        forall|p: SpeakerPosition| s.filter(f).contains(p) <==> (s.contains(p) && f(p)),
    decreases s.len(),
{
    reveal(Seq::filter);
    if s.len() > 0 {
        let d = s.drop_last();
        lemma_filter_in_bit_order(d, f);
        let fd = d.filter(f);
        assert forall|p: SpeakerPosition| s.contains(p) <==> (d.contains(p) || p == s.last()) by {
            if s.contains(p) {
                let k = choose|k: int| 0 <= k < s.len() && s[k] == p;
                if k < s.len() - 1 {
                    assert(d[k] == p);
                }
            }
            if d.contains(p) {
                let k = choose|k: int| 0 <= k < d.len() && d[k] == p;
                assert(s[k] == p);
            }
        }
        if f(s.last()) {
            let r = fd.push(s.last());
            assert forall|i: int| 0 <= i < fd.len() implies position_bit(fd[i]) < position_bit(s.last()) by {
                assert(fd.contains(fd[i]));
                assert(d.contains(fd[i]));
                let k = choose|k: int| 0 <= k < d.len() && d[k] == fd[i];
                assert(s[k] == d[k]);
            }
            assert forall|p: SpeakerPosition| r.contains(p) <==> (fd.contains(p) || p == s.last()) by {
                if r.contains(p) {
                    let k = choose|k: int| 0 <= k < r.len() && r[k] == p;
                    if k < fd.len() {
                        assert(fd[k] == p);
                    }
                }
                if fd.contains(p) {
                    let k = choose|k: int| 0 <= k < fd.len() && fd[k] == p;
                    assert(r[k] == p);
                }
                if p == s.last() {
                    assert(r[fd.len() as int] == p);
                }
            }
        }
    }
}

/// The speakers of a channel mask, as `which_channel_which_speaker` gives them, come in strictly
/// increasing order of their bits, and a position is among them exactly when its bit is set in
/// the mask.
pub proof fn lemma_speakers_follow_the_mask_bits(channel_mask: u32)
    ensures
        forall|i: int, j: int| 0 <= i < j < positions_in_mask(channel_mask).len()
            ==> position_bit(positions_in_mask(channel_mask)[i]) < position_bit(positions_in_mask(channel_mask)[j]),
        forall|p: SpeakerPosition| positions_in_mask(channel_mask).contains(p)
            <==> channel_mask & position_bit(p) == position_bit(p),
{
    lemma_all_positions_in_bit_order();
    let f = |p: SpeakerPosition| channel_mask & position_bit(p) == position_bit(p);
    lemma_filter_in_bit_order(all_positions(), f);
    assert(positions_in_mask(channel_mask) == all_positions().filter(f));
}

} // verus!
