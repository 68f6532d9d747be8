use plunder::clip::{same_text, ClipEvent};
use plunder::sampler::AudioControls;

#[test]
fn clip_events_by_name() {
    assert!(matches!(ClipEvent::from_name("play"), Some(ClipEvent::Play)));
    assert!(matches!(ClipEvent::from_name("||>"), Some(ClipEvent::Play)));
    assert!(matches!(ClipEvent::from_name("Pause"), Some(ClipEvent::Pause)));
    assert!(matches!(ClipEvent::from_name("||"), Some(ClipEvent::Pause)));
    assert!(matches!(ClipEvent::from_name("[|"), Some(ClipEvent::Stop)));
    assert!(matches!(ClipEvent::from_name("o"), Some(ClipEvent::Stop)));
    assert!(matches!(ClipEvent::from_name("|>"), Some(ClipEvent::Resume)));
    assert!(ClipEvent::from_name("PLAY").is_none());
    assert!(ClipEvent::from_name("").is_none());
}

#[test]
fn clip_events_by_number_and_flag() {
    assert!(matches!(ClipEvent::from_index(1), Some(ClipEvent::Play)));
    assert!(matches!(ClipEvent::from_index(2), Some(ClipEvent::Resume)));
    assert!(matches!(ClipEvent::from_index(3), Some(ClipEvent::Pause)));
    assert!(matches!(ClipEvent::from_index(4), Some(ClipEvent::Stop)));
    assert!(ClipEvent::from_index(0).is_none());
    assert!(ClipEvent::from_index(5).is_none());
    assert!(matches!(ClipEvent::from_flag(true), ClipEvent::Resume));
    assert!(matches!(ClipEvent::from_flag(false), ClipEvent::Pause));
}

#[test]
fn audio_controls_by_name() {
    assert_eq!(AudioControls::from_name("reverse"), Some(AudioControls::Reverse));
    assert_eq!(AudioControls::from_name("unmute"), Some(AudioControls::Unmute));
    assert_eq!(AudioControls::from_name("Pause"), None);
    assert_eq!(
        AudioControls::seek_named("seek", "3s".to_string()),
        Some(AudioControls::Seek("3s".to_string()))
    );
    assert_eq!(AudioControls::seek_named("seeks", "3s".to_string()), None);
}

#[test]
fn text_comparison() {
    assert!(same_text("ab", "ab"));
    assert!(!same_text("ab", "abc"));
    assert!(!same_text("ab", "aB"));
    assert!(same_text("", ""));
}
