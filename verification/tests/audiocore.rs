use rustwav::audiocore::{AudioError, SampleFormat, SpeakerPosition, Spec};

#[test]
fn spec_new_is_empty() {
    let s = Spec::new();
    assert_eq!(s.channels, 0);
    assert_eq!(s.channel_mask, 0);
    assert_eq!(s.sample_format, SampleFormat::Unknown);
}

#[test]
fn spec_guesses_mono_and_stereo_masks() {
    assert_eq!(Spec::guess_channel_mask(1), Ok(0x4));
    assert_eq!(Spec::guess_channel_mask(2), Ok(0x3));
    assert_eq!(Spec::guess_channel_mask(6), Err(AudioError::CantGuessChannelMask(6)));
}

#[test]
fn spec_maps_channels_to_speakers() {
    let mut s = Spec::new();
    s.channels = 2;
    s.channel_mask = 0x3;
    assert_eq!(s.which_channel_which_speaker(), Ok(vec![SpeakerPosition::FrontLeft, SpeakerPosition::FrontRight]));
    s.channels = 3;
    assert_eq!(s.which_channel_which_speaker(), Err(AudioError::ChannelNotMatchMask));
}

#[test]
fn speaker_position_masks() {
    assert_eq!(SpeakerPosition::LowFreq.mask(), 0x8);
    assert_eq!(SpeakerPosition::TopBackRight.mask(), 0x20000);
}
