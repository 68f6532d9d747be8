use plunder::sample::Sample;
use plunder::sampler::{AudioControls, Backing, ControlOutcome, Playback, Sampler, SamplerError};

fn clip() -> Sampler {
    Sampler::from_samples(vec![
        Sample::S16(vec![1]),
        Sample::S16(vec![2]),
        Sample::S16(vec![3]),
    ])
}

#[test]
fn stopped_sampler_emits_empty() {
    let mut sampler = clip();
    assert_eq!(sampler.next(), Some(Sample::Empty));
    assert_eq!(sampler.next(), Some(Sample::Empty));
}

#[test]
fn sampler_plays_forward_then_ends() {
    let mut sampler = clip();
    sampler.control(AudioControls::Resume).unwrap();
    assert_eq!(sampler.next(), Some(Sample::S16(vec![1])));
    assert_eq!(sampler.next(), Some(Sample::S16(vec![2])));
    assert_eq!(sampler.next(), Some(Sample::S16(vec![3])));
    assert_eq!(sampler.next(), None);
    assert_eq!(sampler.next(), None);
}

#[test]
fn sampler_reverses_in_memory() {
    let mut sampler = clip();
    sampler.control(AudioControls::Resume).unwrap();
    assert_eq!(sampler.next(), Some(Sample::S16(vec![1])));
    assert_eq!(sampler.next(), Some(Sample::S16(vec![2])));
    sampler.control(AudioControls::Reverse).unwrap();
    assert_eq!(sampler.next(), Some(Sample::S16(vec![2])));
    assert_eq!(sampler.next(), Some(Sample::S16(vec![1])));
    assert_eq!(sampler.next(), None);
}

#[test]
fn sampler_mute_and_pause() {
    let mut sampler = clip();
    sampler.control(AudioControls::Resume).unwrap();
    sampler.control(AudioControls::Mute).unwrap();
    assert_eq!(sampler.next(), Some(Sample::Empty));
    sampler.control(AudioControls::Unmute).unwrap();
    assert_eq!(sampler.next(), Some(Sample::S16(vec![2])));
    sampler.control(AudioControls::Pause).unwrap();
    assert_eq!(sampler.next(), Some(Sample::Empty));
}

#[test]
fn sampler_in_memory_cannot_seek() {
    let mut sampler = clip();
    assert_eq!(
        sampler.control(AudioControls::Seek("1s".to_string())),
        Err(SamplerError::SeekInMemory)
    );
}

#[test]
fn file_playback_seeks_but_cannot_reverse() {
    let mut playback = Playback::new();
    assert_eq!(
        playback.control(AudioControls::Seek("2s".to_string()), Backing::File),
        Ok(ControlOutcome::SeekTo("2s".to_string()))
    );
    assert_eq!(
        playback.control(AudioControls::Reverse, Backing::File),
        Err(SamplerError::ReverseOpenedFile)
    );
    assert!(!playback.backward);
    assert_eq!(playback.control(AudioControls::Resume, Backing::File), Ok(ControlOutcome::Done));
    assert!(playback.outputting);
}

#[test]
fn duplicate_copies_every_channel() {
    let s = Sample::F64(vec![1, 2, 3]);
    assert_eq!(s.duplicate(), s);
}
