use vstd::prelude::*;
use crate::errors::AudioError;

verus! {

/// * Speaker position bit mask data for multi-channel audio.
/// * This also be used on single-channel audio or double-channel audio.
pub struct SpeakerPosition;

/// The speaker position bits in their order.
pub open spec fn speaker_bits() -> Seq<u32> {
    seq![
        0x1u32, 0x2, 0x4, 0x8, 0x10, 0x20, 0x40, 0x80, 0x100, 0x200, 0x400, 0x800, 0x1000, 0x2000, 0x4000, 0x8000,
        0x10000, 0x20000,
    ]
}

/// The name of a speaker position bit; other values are "Invalid bit".
pub open spec fn bit_name(bit: u32) -> Seq<char> {
    if bit == 0x1 {
        "front_left"@
    } else if bit == 0x2 {
        "front_right"@
    } else if bit == 0x4 {
        "front_center"@
    } else if bit == 0x8 {
        "low_freq"@
    } else if bit == 0x10 {
        "back_left"@
    } else if bit == 0x20 {
        "back_right"@
    } else if bit == 0x40 {
        "front_left_of_center"@
    } else if bit == 0x80 {
        "front_right_of_center"@
    } else if bit == 0x100 {
        "back_center"@
    } else if bit == 0x200 {
        "side_left"@
    } else if bit == 0x400 {
        "side_right"@
    } else if bit == 0x800 {
        "top_center"@
    } else if bit == 0x1000 {
        "top_front_left"@
    } else if bit == 0x2000 {
        "top_front_center"@
    } else if bit == 0x4000 {
        "top_front_right"@
    } else if bit == 0x8000 {
        "top_back_left"@
    } else if bit == 0x10000 {
        "top_back_center"@
    } else if bit == 0x20000 {
        "top_back_right"@
    } else {
        "Invalid bit"@
    }
}

/// The speaker position bits set in `channel_mask`, in their order.
pub open spec fn mask_bits(channel_mask: u32) -> Seq<u32> {
    speaker_bits().filter(|m: u32| channel_mask & m == m)
}

/// The names of the speaker positions set in `channel_mask`, in their order.
pub open spec fn mask_names(channel_mask: u32) -> Seq<Seq<char>> {
    mask_bits(channel_mask).map_values(|m: u32| bit_name(m))
}

/// The strings joined with `sep` between each two.
pub open spec fn join(strs: Seq<Seq<char>>, sep: Seq<char>) -> Seq<char>
    decreases strs.len(),
{
    if strs.len() == 0 {
        Seq::empty()
    } else if strs.len() == 1 {
        strs[0]
    } else {
        join(strs.drop_last(), sep) + sep + strs.last()
    }
}

/// The number of bits set among the lowest `n` bits of `x`.
pub open spec fn count_bits(x: u32, n: nat) -> nat
    decreases n,
{
    if n == 0 {
        0
    } else {
        count_bits(x, (n - 1) as nat) + if x & (1u32 << ((n - 1) as u32)) != 0 { 1nat } else { 0nat }
    }
}

/// What `guess_channel_mask` gives: the usual layouts for 1, 2, 6 and 8 channels; for other
/// counts up to 18, the lowest bits; no mask for none or more than 18 channels.
pub open spec fn guessed_mask(channels: u16) -> Option<u32> {
    if channels == 0 {
        None
    } else if channels == 1 {
        Some(SpeakerPosition::MonoLayout)
    } else if channels == 2 {
        Some(SpeakerPosition::StereoLayout)
    } else if channels == 6 {
        Some(SpeakerPosition::Dolby5_1LayoutFrontBack)
    } else if channels == 8 {
        Some(SpeakerPosition::Dolby7_1Layout)
    } else if channels <= 18 {
        Some(((1u32 << channels as u32) - 1) as u32)
    } else {
        None
    }
}

/// The speaker position bits in their order, as an array.
fn bits_table() -> (r: [u32; 18])
    ensures
        r@ == speaker_bits(),
{
    let r = [
        0x1u32, 0x2, 0x4, 0x8, 0x10, 0x20, 0x40, 0x80, 0x100, 0x200, 0x400, 0x800, 0x1000, 0x2000, 0x4000, 0x8000,
        0x10000, 0x20000,
    ];
    assert(r@ =~= speaker_bits());
    r
}

#[allow(non_upper_case_globals)]
impl SpeakerPosition {
    pub const FrontLeft: u32 = 0x1;
    pub const FrontRight: u32 = 0x2;
    pub const FrontCenter: u32 = 0x4;
    pub const LowFreq: u32 = 0x8;
    pub const BackLeft: u32 = 0x10;
    pub const BackRight: u32 = 0x20;
    pub const FrontLeftOfCenter: u32 = 0x40;
    pub const FrontRightOfCenter: u32 = 0x80;
    pub const BackCenter: u32 = 0x100;
    pub const SideLeft: u32 = 0x200;
    pub const SideRight: u32 = 0x400;
    pub const TopCenter: u32 = 0x800;
    pub const TopFrontLeft: u32 = 0x1000;
    pub const TopFrontCenter: u32 = 0x2000;
    pub const TopFrontRight: u32 = 0x4000;
    pub const TopBackLeft: u32 = 0x8000;
    pub const TopBackCenter: u32 = 0x10000;
    pub const TopBackRight: u32 = 0x20000;

    /// * The channel mask for mono audio layout
    pub const MonoLayout: u32 = 0x4;

    /// * The channel mask for stereo audio layout: front left and right.
    pub const StereoLayout: u32 = 0x3;

    /// * The channel mask for dolby 5.1 audio layout: front left, right and center, low
    ///   frequency, back left and right.
    pub const Dolby5_1LayoutFrontBack: u32 = 0x3F;

    /// * The channel mask for dolby 5.1 audio layout with side speakers: front left, right and
    ///   center, low frequency, side left and right.
    pub const Dolby5_1LayoutFrontSide: u32 = 0x60F;

    /// * The channel mask for dolby 7.1 audio layout: front left, right and center, low
    ///   frequency, back left and right, side left and right.
    pub const Dolby7_1Layout: u32 = 0x63F;

    /// * The name of a speaker position bit.
    pub fn channel_bit_to_string(bit: u32) -> (r: &'static str)
        ensures
            r@ == bit_name(bit),
    {
        match bit {
            0x1 => "front_left",
            0x2 => "front_right",
            0x4 => "front_center",
            0x8 => "low_freq",
            0x10 => "back_left",
            0x20 => "back_right",
            0x40 => "front_left_of_center",
            0x80 => "front_right_of_center",
            0x100 => "back_center",
            0x200 => "side_left",
            0x400 => "side_right",
            0x800 => "top_center",
            0x1000 => "top_front_left",
            0x2000 => "top_front_center",
            0x4000 => "top_front_right",
            0x8000 => "top_back_left",
            0x10000 => "top_back_center",
            0x20000 => "top_back_right",
            _ => "Invalid bit",
        }
    }

    /// * The names of the speaker positions in `channel_mask`, joined by " + ".
    pub fn channel_mask_to_string(channel_mask: u32) -> (r: String)
        ensures
            r@ == join(mask_names(channel_mask), " + "@),
    {
        let descs = Self::channel_mask_to_speaker_positions_descs(channel_mask);
        let ghost names = mask_names(channel_mask);
        let mut r = String::new();
        let mut i: usize = 0;
        while i < descs.len()
            invariant
                i <= descs@.len(),
                descs@.len() == names.len(),
                forall|k: int| 0 <= k < descs@.len() ==> (#[trigger] descs@[k])@ == names[k],
                r@ == join(names.take(i as int), " + "@),
            decreases descs@.len() - i,
        {
            proof {
                assert(names.take(i + 1).drop_last() =~= names.take(i as int));
                assert(names.take(i + 1).last() == names[i as int]);
            }
            if i > 0 {
                r.append(" + ");
            } else {
                assert(names.take(1) =~= seq![names[0]]);
                assert(r@ =~= Seq::<char>::empty());
            }
            r.append(descs[i]);
            i += 1;
            proof {
                if i > 1 {
                    assert(r@ =~= join(names.take(i as int), " + "@));
                } else {
                    assert(r@ =~= names[0]);
                }
            }
        }
        assert(names.take(i as int) =~= names);
        r
    }

    /// * Break down `channel_mask` into each speaker position enum values to an array.
    pub fn channel_mask_to_speaker_positions(channel_mask: u32) -> (r: Vec<u32>)
        ensures
            r@ == mask_bits(channel_mask),
    {
        let enums = bits_table();
        let mut ret = Vec::<u32>::new();
        let mut i: usize = 0;
        while i < 18
            invariant
                i <= 18,
                enums@ == speaker_bits(),
                ret@ == speaker_bits().take(i as int).filter(|m: u32| channel_mask & m == m),
            decreases 18 - i,
        {
            let m = enums[i];
            proof {
                assert(speaker_bits().take(i + 1).drop_last() =~= speaker_bits().take(i as int));
                assert(speaker_bits().take(i + 1).last() == enums@[i as int]);
                reveal(Seq::filter);
            }
            if channel_mask & m == m {
                ret.push(enums[i]);
            }
            i += 1;
        }
        assert(speaker_bits().take(18) =~= speaker_bits());
        ret
    }

    /// * Break down `channel_mask` into each speaker position description string.
    pub fn channel_mask_to_speaker_positions_descs(channel_mask: u32) -> (r: Vec<&'static str>)
        ensures
            r@.len() == mask_names(channel_mask).len(),
            forall|k: int| 0 <= k < r@.len() ==> (#[trigger] r@[k])@ == mask_names(channel_mask)[k],
    {
        let bits = Self::channel_mask_to_speaker_positions(channel_mask);
        let mut r: Vec<&'static str> = Vec::new();
        let mut i: usize = 0;
        while i < bits.len()
            invariant
                i <= bits@.len(),
                bits@ == mask_bits(channel_mask),
                r@.len() == i,
                forall|k: int| 0 <= k < i ==> (#[trigger] r@[k])@ == bit_name(bits@[k]),
            decreases bits@.len() - i,
        {
            r.push(Self::channel_bit_to_string(bits[i]));
            i += 1;
        }
        r
    }

    /// * Guess the channel mask by the given channel number.
    pub fn guess_channel_mask(channels: u16) -> (r: Result<u32, AudioError>)
        ensures
            guessed_mask(channels) matches Some(m) ==> (r matches Ok(v) && v == m),
            guessed_mask(channels) is None ==> (r matches Err(AudioError::GuessChannelMaskFailed(c)) && c == channels),
    {
        match channels {
            0 => Err(AudioError::GuessChannelMaskFailed(channels)),
            1 => Ok(Self::MonoLayout),
            2 => Ok(Self::StereoLayout),
            6 => Ok(Self::Dolby5_1LayoutFrontBack),
            8 => Ok(Self::Dolby7_1Layout),
            o => {
                let mut mask: u32 = 0;
                let mut i: u16 = 0;
                assert(0u32 == ((1u32 << 0u32) - 1) as u32) by (bit_vector);
                while i < o
                    invariant
                        o == channels,
                        i <= o,
                        i <= 18,
                        mask == ((1u32 << i as u32) - 1) as u32,
                    decreases o - i,
                {
                    if i >= 18 {
                        return Err(AudioError::GuessChannelMaskFailed(channels));
                    }
                    let bit: u32 = 1u32 << i;
                    assert(mask | bit == ((1u32 << (i + 1) as u32) - 1) as u32) by (bit_vector)
                        requires mask == ((1u32 << i as u32) - 1) as u32, bit == 1u32 << i as u32, i < 18;
                    mask |= bit;
                    i += 1;
                }
                Ok(mask)
            },
        }
    }

    /// * Check if the channel mask matches the channel number.
    pub fn is_channel_mask_valid(channels: u16, channel_mask: u32) -> (r: bool)
        ensures
            r == ((channels <= 2 && channel_mask == 0) || count_bits(channel_mask, 32) == channels),
    {
        if channels <= 2 && channel_mask == 0 {
            return true;
        }
        let mut counter: u16 = 0;
        let mut i: u32 = 0;
        while i < 32
            invariant
                i <= 32,
                counter == count_bits(channel_mask, i as nat),
                counter <= i,
            decreases 32 - i,
        {
            if ((1u32 << i) & channel_mask) != 0 {
                counter += 1;
            }
            i += 1;
            assert(count_bits(channel_mask, i as nat) == count_bits(channel_mask, (i - 1) as nat)
                + if channel_mask & (1u32 << ((i - 1) as u32)) != 0 { 1nat } else { 0nat });
            assert((1u32 << ((i - 1) as u32)) & channel_mask == channel_mask & (1u32 << ((i - 1) as u32))) by (bit_vector);
        }
        counter == channels
    }
}

/// The dB parameter of a downmix that sets the gain of one input channel.
#[derive(Clone, Copy, Debug, PartialEq, Eq, Structural)]
pub enum GainSource {
    FrontLr,
    FrontCenter,
    LowFreq,
    BackLr,
    SideLr,
}

/// The input channels of a downmix, in order, each with the dB parameter of its gain: Dolby 5.1
/// with back or with side speakers, and Dolby 7.1 (whose back and side speakers all take the side
/// parameter). Any other channel mask cannot be downmixed.
pub open spec fn downmix_layout_spec(channel_mask: u32) -> Option<Seq<GainSource>> {
    if channel_mask == SpeakerPosition::Dolby5_1LayoutFrontBack {
        Some(seq![GainSource::FrontLr, GainSource::FrontLr, GainSource::FrontCenter, GainSource::LowFreq,
            GainSource::BackLr, GainSource::BackLr])
    } else if channel_mask == SpeakerPosition::Dolby5_1LayoutFrontSide {
        Some(seq![GainSource::FrontLr, GainSource::FrontLr, GainSource::FrontCenter, GainSource::LowFreq,
            GainSource::SideLr, GainSource::SideLr])
    } else if channel_mask == SpeakerPosition::Dolby7_1Layout {
        Some(seq![GainSource::FrontLr, GainSource::FrontLr, GainSource::FrontCenter, GainSource::LowFreq,
            GainSource::SideLr, GainSource::SideLr, GainSource::SideLr, GainSource::SideLr])
    } else {
        None
    }
}

/// * The channels a downmixer takes for `channel_mask` and the dB parameter of each channel's
///   gain; `None` for a layout that is not Dolby 5.1 or 7.1.
pub fn downmix_layout(channel_mask: u32) -> (r: Option<Vec<GainSource>>)
    ensures
        r matches Some(v) ==> downmix_layout_spec(channel_mask) == Some(v@),
        r is None <==> downmix_layout_spec(channel_mask) is None,
{
    let side_or_back = if channel_mask == SpeakerPosition::Dolby5_1LayoutFrontBack {
        GainSource::BackLr
    } else if channel_mask == SpeakerPosition::Dolby5_1LayoutFrontSide || channel_mask == SpeakerPosition::Dolby7_1Layout {
        GainSource::SideLr
    } else {
        return None;
    };
    let mut v: Vec<GainSource> = vec![GainSource::FrontLr, GainSource::FrontLr, GainSource::FrontCenter, GainSource::LowFreq];
    v.push(side_or_back);
    v.push(side_or_back);
    if channel_mask == SpeakerPosition::Dolby7_1Layout {
        v.push(GainSource::SideLr);
        v.push(GainSource::SideLr);
    }
    assert(downmix_layout_spec(channel_mask)->Some_0 =~= v@);
    Some(v)
}

/// The bits set in `mask` among its lowest `n` bits, from the lowest up.
pub open spec fn set_bits(mask: u32, n: nat) -> Seq<u32>
    decreases n,
{
    if n == 0 {
        Seq::empty()
    } else {
        let b = 1u32 << ((n - 1) as u32);
        set_bits(mask, (n - 1) as nat) + if mask & b != 0 { seq![b] } else { Seq::<u32>::empty() }
    }
}

/// The gain parameter that the speaker of `bit` takes in a downmix of `mask`: front left and
/// right the front parameter, front center and low frequency their own, back left and right the
/// back parameter (the side parameter where the mask also has side speakers, as in 7.1), and
/// side left and right the side parameter. No other speaker is downmixed.
pub open spec fn speaker_gain(bit: u32, mask: u32) -> Option<GainSource> {
    if bit == 0x1 || bit == 0x2 {
        Some(GainSource::FrontLr)
    } else if bit == 0x4 {
        Some(GainSource::FrontCenter)
    } else if bit == 0x8 {
        Some(GainSource::LowFreq)
    } else if bit == 0x10 || bit == 0x20 {
        if mask & 0x600 != 0 { Some(GainSource::SideLr) } else { Some(GainSource::BackLr) }
    } else if bit == 0x200 || bit == 0x400 {
        Some(GainSource::SideLr)
    } else {
        None
    }
}

/// Only Dolby 5.1 (back or side speakers, masks 0x3F and 0x60F) and Dolby 7.1 (0x63F) can be
/// downmixed, and then there is one channel for each speaker of the mask, the `i`-th for the
/// `i`-th set bit from the lowest up, each with the gain parameter of its speaker.
pub proof fn lemma_downmix_layout_follows_the_speakers(mask: u32)
    ensures
        downmix_layout_spec(mask) is Some <==> (mask == 0x3F || mask == 0x60F || mask == 0x63F),
        downmix_layout_spec(mask) matches Some(v) ==> {
            &&& v.len() == set_bits(mask, 32).len()
            &&& forall|i: int| 0 <= i < v.len() ==> speaker_gain(#[trigger] set_bits(mask, 32)[i], mask) == Some(v[i])
        },
{
    assert(1u32 << 0u32 == 1u32 && 1u32 << 1u32 == 2u32 && 1u32 << 2u32 == 4u32 && 1u32 << 3u32 == 8u32 && 1u32 << 4u32 == 16u32 && 1u32 << 5u32 == 32u32 && 1u32 << 6u32 == 64u32 && 1u32 << 7u32 == 128u32 && 1u32 << 8u32 == 256u32 && 1u32 << 9u32 == 512u32 && 1u32 << 10u32 == 1024u32 && 1u32 << 11u32 == 2048u32 && 1u32 << 12u32 == 4096u32 && 1u32 << 13u32 == 8192u32 && 1u32 << 14u32 == 16384u32 && 1u32 << 15u32 == 32768u32 && 1u32 << 16u32 == 65536u32 && 1u32 << 17u32 == 131072u32 && 1u32 << 18u32 == 262144u32 && 1u32 << 19u32 == 524288u32 && 1u32 << 20u32 == 1048576u32 && 1u32 << 21u32 == 2097152u32 && 1u32 << 22u32 == 4194304u32 && 1u32 << 23u32 == 8388608u32 && 1u32 << 24u32 == 16777216u32 && 1u32 << 25u32 == 33554432u32 && 1u32 << 26u32 == 67108864u32 && 1u32 << 27u32 == 134217728u32 && 1u32 << 28u32 == 268435456u32 && 1u32 << 29u32 == 536870912u32 && 1u32 << 30u32 == 1073741824u32 && 1u32 << 31u32 == 2147483648u32) by (bit_vector);
    reveal_with_fuel(set_bits, 33);
    if mask == 0x3F {
        assert(0x3Fu32 & 0x600u32 == 0 && 0x3Fu32 & 1u32 != 0 && 0x3Fu32 & 2u32 != 0 && 0x3Fu32 & 4u32 != 0 && 0x3Fu32 & 8u32 != 0 && 0x3Fu32 & 16u32 != 0 && 0x3Fu32 & 32u32 != 0 && 0x3Fu32 & 64u32 == 0 && 0x3Fu32 & 128u32 == 0 && 0x3Fu32 & 256u32 == 0 && 0x3Fu32 & 512u32 == 0 && 0x3Fu32 & 1024u32 == 0 && 0x3Fu32 & 2048u32 == 0 && 0x3Fu32 & 4096u32 == 0 && 0x3Fu32 & 8192u32 == 0 && 0x3Fu32 & 16384u32 == 0 && 0x3Fu32 & 32768u32 == 0 && 0x3Fu32 & 65536u32 == 0 && 0x3Fu32 & 131072u32 == 0 && 0x3Fu32 & 262144u32 == 0 && 0x3Fu32 & 524288u32 == 0 && 0x3Fu32 & 1048576u32 == 0 && 0x3Fu32 & 2097152u32 == 0 && 0x3Fu32 & 4194304u32 == 0 && 0x3Fu32 & 8388608u32 == 0 && 0x3Fu32 & 16777216u32 == 0 && 0x3Fu32 & 33554432u32 == 0 && 0x3Fu32 & 67108864u32 == 0 && 0x3Fu32 & 134217728u32 == 0 && 0x3Fu32 & 268435456u32 == 0 && 0x3Fu32 & 536870912u32 == 0 && 0x3Fu32 & 1073741824u32 == 0 && 0x3Fu32 & 2147483648u32 == 0) by (bit_vector);
        assert(set_bits(0x3Fu32, 32) =~= seq![0x1u32, 0x2u32, 0x4u32, 0x8u32, 0x10u32, 0x20u32]);
    } else if mask == 0x60F {
        assert(0x60Fu32 & 0x600u32 != 0 && 0x60Fu32 & 1u32 != 0 && 0x60Fu32 & 2u32 != 0 && 0x60Fu32 & 4u32 != 0 && 0x60Fu32 & 8u32 != 0 && 0x60Fu32 & 16u32 == 0 && 0x60Fu32 & 32u32 == 0 && 0x60Fu32 & 64u32 == 0 && 0x60Fu32 & 128u32 == 0 && 0x60Fu32 & 256u32 == 0 && 0x60Fu32 & 512u32 != 0 && 0x60Fu32 & 1024u32 != 0 && 0x60Fu32 & 2048u32 == 0 && 0x60Fu32 & 4096u32 == 0 && 0x60Fu32 & 8192u32 == 0 && 0x60Fu32 & 16384u32 == 0 && 0x60Fu32 & 32768u32 == 0 && 0x60Fu32 & 65536u32 == 0 && 0x60Fu32 & 131072u32 == 0 && 0x60Fu32 & 262144u32 == 0 && 0x60Fu32 & 524288u32 == 0 && 0x60Fu32 & 1048576u32 == 0 && 0x60Fu32 & 2097152u32 == 0 && 0x60Fu32 & 4194304u32 == 0 && 0x60Fu32 & 8388608u32 == 0 && 0x60Fu32 & 16777216u32 == 0 && 0x60Fu32 & 33554432u32 == 0 && 0x60Fu32 & 67108864u32 == 0 && 0x60Fu32 & 134217728u32 == 0 && 0x60Fu32 & 268435456u32 == 0 && 0x60Fu32 & 536870912u32 == 0 && 0x60Fu32 & 1073741824u32 == 0 && 0x60Fu32 & 2147483648u32 == 0) by (bit_vector);
        assert(set_bits(0x60Fu32, 32) =~= seq![0x1u32, 0x2u32, 0x4u32, 0x8u32, 0x200u32, 0x400u32]);
    } else if mask == 0x63F {
        assert(0x63Fu32 & 0x600u32 != 0 && 0x63Fu32 & 1u32 != 0 && 0x63Fu32 & 2u32 != 0 && 0x63Fu32 & 4u32 != 0 && 0x63Fu32 & 8u32 != 0 && 0x63Fu32 & 16u32 != 0 && 0x63Fu32 & 32u32 != 0 && 0x63Fu32 & 64u32 == 0 && 0x63Fu32 & 128u32 == 0 && 0x63Fu32 & 256u32 == 0 && 0x63Fu32 & 512u32 != 0 && 0x63Fu32 & 1024u32 != 0 && 0x63Fu32 & 2048u32 == 0 && 0x63Fu32 & 4096u32 == 0 && 0x63Fu32 & 8192u32 == 0 && 0x63Fu32 & 16384u32 == 0 && 0x63Fu32 & 32768u32 == 0 && 0x63Fu32 & 65536u32 == 0 && 0x63Fu32 & 131072u32 == 0 && 0x63Fu32 & 262144u32 == 0 && 0x63Fu32 & 524288u32 == 0 && 0x63Fu32 & 1048576u32 == 0 && 0x63Fu32 & 2097152u32 == 0 && 0x63Fu32 & 4194304u32 == 0 && 0x63Fu32 & 8388608u32 == 0 && 0x63Fu32 & 16777216u32 == 0 && 0x63Fu32 & 33554432u32 == 0 && 0x63Fu32 & 67108864u32 == 0 && 0x63Fu32 & 134217728u32 == 0 && 0x63Fu32 & 268435456u32 == 0 && 0x63Fu32 & 536870912u32 == 0 && 0x63Fu32 & 1073741824u32 == 0 && 0x63Fu32 & 2147483648u32 == 0) by (bit_vector);
        assert(set_bits(0x63Fu32, 32) =~= seq![0x1u32, 0x2u32, 0x4u32, 0x8u32, 0x10u32, 0x20u32, 0x200u32, 0x400u32]);
    }
    if downmix_layout_spec(mask) is Some {
        let v = downmix_layout_spec(mask)->Some_0;
        let b = set_bits(mask, 32);
        assert forall|i: int| 0 <= i < v.len() implies speaker_gain(#[trigger] b[i], mask) == Some(v[i]) by {
            assert(i == 0 || i == 1 || i == 2 || i == 3 || i == 4 || i == 5 || i == 6 || i == 7);
        }
    }
}

} // verus!
