use plunder::engine::{collect_frame, Action, Engine, EngineError};
use plunder::instrument::SourceError;
use plunder::sample::{combine_i32, Sample};

/// A scripted instrument: what it returns on each pull, then `None` forever.
struct Scripted {
    script: Vec<Result<Option<Sample>, SourceError<String>>>,
    pulls: usize,
    forever: Option<Sample>,
}

impl Scripted {
    fn pull(&mut self) -> Result<Option<Sample>, SourceError<String>> {
        let i = self.pulls;
        self.pulls += 1;
        match self.script.get(i) {
            Some(r) => r.clone(),
            None => Ok(self.forever.clone()),
        }
    }
}

fn silence() -> Scripted {
    Scripted { script: vec![], pulls: 0, forever: Some(Sample::S16(vec![0])) }
}

fn tone(ticks: usize) -> Scripted {
    Scripted { script: vec![Ok(Some(Sample::S16(vec![100]))); ticks], pulls: 0, forever: None }
}

/// Drives an engine over `events` and `instruments` until it finishes; records each frame
/// and, as `(grid index, event)`, each dispatch.
fn run(
    mut engine: Engine<u32>,
    events: Vec<(usize, u32)>,
    instruments: &mut [Scripted],
    dispatched: &mut Vec<(usize, u32)>,
) -> Vec<Result<Option<Vec<Sample>>, EngineError>> {
    let mut stream = events.into_iter();
    let mut frames = Vec::new();
    let mut frames_pulled = 0usize;
    loop {
        match engine.next_action() {
            Action::Finished => return frames,
            Action::Pull => engine.receive(stream.next()),
            Action::Dispatch(e) => dispatched.push((frames_pulled, e)),
            Action::Sample => {
                frames_pulled += 1;
                let mut results = Vec::new();
                let mut failure = None;
                for instrument in instruments.iter_mut() {
                    match instrument.pull() {
                        Ok(s) => results.push(s),
                        Err(err) => {
                            failure = Some(err);
                            break;
                        }
                    }
                }
                match failure {
                    Some(err) => frames.push(Err(engine.fail(EngineError::Source(err)))),
                    None => frames.push(Ok(collect_frame(results))),
                }
            }
        }
    }
}

#[test]
fn an_exhausted_instrument_leaves_the_other_playing() {
    let engine = Engine::new(1, 5);
    let mut instruments = vec![silence(), tone(3)];
    let frames = run(engine, vec![], &mut instruments, &mut Vec::new());
    assert_eq!(frames.len(), 5);
    for frame in &frames[..3] {
        let frame = frame.as_ref().unwrap().as_ref().unwrap();
        assert_eq!(frame.len(), 2);
    }
    for frame in &frames[3..] {
        let frame = frame.as_ref().unwrap().as_ref().unwrap();
        assert_eq!(frame.len(), 1);
        assert_eq!(combine_i32(frame), Ok(Some(vec![0])));
    }
}

#[test]
fn a_once_error_is_reported_for_its_tick_only() {
    let engine = Engine::new(1, 5);
    let flaky = Scripted {
        script: vec![
            Ok(Some(Sample::S8(vec![1]))),
            Err(SourceError::Once("glitch".to_string())),
        ],
        pulls: 0,
        forever: Some(Sample::S8(vec![1])),
    };
    let mut instruments = vec![flaky];
    let frames = run(engine, vec![], &mut instruments, &mut Vec::new());
    assert_eq!(frames.len(), 5);
    assert_eq!(
        frames[1],
        Err(EngineError::Source(SourceError::Once("glitch".to_string())))
    );
    for i in [0, 2, 3, 4] {
        assert!(matches!(&frames[i], Ok(Some(v)) if v.len() == 1));
    }
}

#[test]
fn a_fatal_error_ends_the_run() {
    let engine = Engine::new(1, 5);
    let broken = Scripted {
        script: vec![Ok(Some(Sample::Empty)), Err(SourceError::Fatal("gone".to_string()))],
        pulls: 0,
        forever: Some(Sample::Empty),
    };
    let mut instruments = vec![broken];
    let frames = run(engine, vec![], &mut instruments, &mut Vec::new());
    assert_eq!(frames.len(), 2);
    assert!(frames[1].is_err());
}

#[test]
fn all_instruments_exhausted_gives_no_frame() {
    let engine = Engine::new(2, 4);
    let mut instruments = vec![tone(0), tone(0)];
    let frames = run(engine, vec![], &mut instruments, &mut Vec::new());
    assert_eq!(frames, vec![Ok(None), Ok(None), Ok(None)]);
}

#[test]
fn events_are_dispatched_at_their_tick_boundary() {
    // Three frames per tick; the bound is reached at the boundary of grid index 4.
    let engine = Engine::new(3, 12);
    let mut instruments = vec![silence()];
    let mut dispatched = Vec::new();
    let events = vec![(0, 10), (0, 11), (2, 20), (3, 30)];
    let frames = run(engine, events, &mut instruments, &mut dispatched);
    assert_eq!(frames.len(), 10);
    // Events of tick `p` go out once the frames of ticks before it are pulled, and before
    // any frame of tick `p`.
    assert_eq!(dispatched, vec![(0, 10), (0, 11), (6, 20), (9, 30)]);
}

#[test]
fn events_past_the_bound_are_never_dispatched() {
    let engine = Engine::new(2, 4);
    let mut instruments = vec![silence()];
    let mut dispatched = Vec::new();
    let frames = run(engine, vec![(1, 1), (2, 2)], &mut instruments, &mut dispatched);
    assert_eq!(frames.len(), 3);
    assert_eq!(dispatched, vec![(2, 1)]);
}

#[test]
fn two_runs_give_identical_output() {
    let events = vec![(0, 1), (1, 2), (1, 3)];
    let mut first_dispatched = Vec::new();
    let mut second_dispatched = Vec::new();
    let first = run(Engine::new(2, 6), events.clone(), &mut [silence(), tone(2)], &mut first_dispatched);
    let second = run(Engine::new(2, 6), events, &mut [silence(), tone(2)], &mut second_dispatched);
    assert_eq!(first_dispatched, second_dispatched);
    let first: Vec<_> = first.into_iter().map(|f| combine_i32(&f.unwrap().unwrap())).collect();
    let second: Vec<_> = second.into_iter().map(|f| combine_i32(&f.unwrap().unwrap())).collect();
    assert_eq!(first, second);
}

#[test]
fn collect_frame_keeps_instrument_order() {
    assert_eq!(collect_frame(vec![]), None);
    assert_eq!(collect_frame(vec![None, None]), None);
    let frame = collect_frame(vec![None, Some(Sample::S8(vec![1])), None, Some(Sample::Empty)]).unwrap();
    assert_eq!(frame.len(), 2);
    assert!(matches!(frame[0], Sample::S8(_)));
    assert!(matches!(frame[1], Sample::Empty));
}

#[test]
fn event_stream_error_ends_the_run() {
    let mut engine: Engine<u32> = Engine::new(1, 3);
    assert_eq!(engine.next_action(), Action::Pull);
    let err = engine.fail(EngineError::EventStream("bad item".to_string()));
    assert_eq!(err, EngineError::EventStream("bad item".to_string()));
    assert_eq!(engine.next_action(), Action::Finished);
}
