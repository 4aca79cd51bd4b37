use rustwav::downmixer::{downmix_layout, GainSource, SpeakerPosition};
use rustwav::errors::AudioError;

#[test]
fn speaker_bit_names() {
    assert_eq!(SpeakerPosition::channel_bit_to_string(SpeakerPosition::FrontLeft), "front_left");
    assert_eq!(SpeakerPosition::channel_bit_to_string(SpeakerPosition::TopBackRight), "top_back_right");
    assert_eq!(SpeakerPosition::channel_bit_to_string(3), "Invalid bit");
}

#[test]
fn mask_breaks_down_into_positions() {
    assert_eq!(
        SpeakerPosition::channel_mask_to_speaker_positions(SpeakerPosition::Dolby5_1LayoutFrontBack),
        vec![0x1, 0x2, 0x4, 0x8, 0x10, 0x20]
    );
    assert_eq!(SpeakerPosition::channel_mask_to_speaker_positions(0), Vec::<u32>::new());
    assert_eq!(SpeakerPosition::channel_mask_to_speaker_positions_descs(0x3), vec!["front_left", "front_right"]);
}

#[test]
fn mask_to_string_joins_names() {
    assert_eq!(SpeakerPosition::channel_mask_to_string(SpeakerPosition::StereoLayout), "front_left + front_right");
    assert_eq!(SpeakerPosition::channel_mask_to_string(SpeakerPosition::MonoLayout), "front_center");
    assert_eq!(SpeakerPosition::channel_mask_to_string(0), "");
}

#[test]
fn guess_channel_mask_layouts() {
    assert_eq!(SpeakerPosition::guess_channel_mask(1).unwrap(), 0x4);
    assert_eq!(SpeakerPosition::guess_channel_mask(2).unwrap(), 0x3);
    assert_eq!(SpeakerPosition::guess_channel_mask(6).unwrap(), 0x3F);
    assert_eq!(SpeakerPosition::guess_channel_mask(8).unwrap(), 0x63F);
    assert_eq!(SpeakerPosition::guess_channel_mask(3).unwrap(), 0x7);
    assert_eq!(SpeakerPosition::guess_channel_mask(18).unwrap(), 0x3FFFF);
    assert!(matches!(SpeakerPosition::guess_channel_mask(0), Err(AudioError::GuessChannelMaskFailed(0))));
    assert!(matches!(SpeakerPosition::guess_channel_mask(19), Err(AudioError::GuessChannelMaskFailed(19))));
}

#[test]
fn channel_mask_validity() {
    assert!(SpeakerPosition::is_channel_mask_valid(2, 0));
    assert!(SpeakerPosition::is_channel_mask_valid(6, SpeakerPosition::Dolby5_1LayoutFrontSide));
    assert!(SpeakerPosition::is_channel_mask_valid(8, SpeakerPosition::Dolby7_1Layout));
    assert!(!SpeakerPosition::is_channel_mask_valid(3, 0));
    assert!(!SpeakerPosition::is_channel_mask_valid(2, 0x7));
}

#[test]
fn downmix_layout_gives_the_gain_of_each_channel() {
    let five_back = downmix_layout(SpeakerPosition::Dolby5_1LayoutFrontBack).unwrap();
    assert_eq!(five_back, vec![GainSource::FrontLr, GainSource::FrontLr, GainSource::FrontCenter, GainSource::LowFreq, GainSource::BackLr, GainSource::BackLr]);
    let five_side = downmix_layout(SpeakerPosition::Dolby5_1LayoutFrontSide).unwrap();
    assert_eq!(five_side[4], GainSource::SideLr);
    assert_eq!(five_side.len(), 6);
    let seven = downmix_layout(SpeakerPosition::Dolby7_1Layout).unwrap();
    assert_eq!(seven.len(), 8);
    assert!(seven[4..].iter().all(|g| *g == GainSource::SideLr));
    assert_eq!(downmix_layout(SpeakerPosition::StereoLayout), None);
    assert_eq!(downmix_layout(0x3F | 0x100), None);
}
