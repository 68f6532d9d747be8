use crate::sample::Sample;
use vstd::prelude::*;

verus! {

/// Controls of a sampler.
#[derive(Debug, Clone, PartialEq, Eq)]
pub enum AudioControls {
    /// Move the read position to the given time (for example `"1m30s"`).
    Seek(String),
    Pause,
    Resume,
    /// Turn the direction of playback around.
    Reverse,
    Mute,
    Unmute,
}

/// Why a sampler rejected a control.
#[derive(Debug, Clone, Copy, PartialEq, Eq)]
pub enum SamplerError {
    /// Only a sample read from a file can seek by time.
    SeekInMemory,
    /// Only a sample held in memory can play backward.
    ReverseOpenedFile,
}

/// Where a sampler takes its frames from.
#[derive(Debug, Clone, Copy, PartialEq, Eq, Structural)]
pub enum Backing {
    /// Decoded packet by packet from an opened file.
    File,
    /// Imported whole into memory.
    Memory,
}

/// What a control leaves for the sampler's reader to do.
#[derive(Debug, Clone, PartialEq, Eq)]
pub enum ControlOutcome {
    Done,
    /// Seek the file reader to this time.
    SeekTo(String),
}

/// The transport state of a sampler.
#[derive(Debug, Clone, Copy, PartialEq, Eq, Structural)]
pub struct Playback {
    pub outputting: bool,
    pub mute: bool,
    pub backward: bool,
}

/// A sample held whole in memory and played frame by frame.
pub struct Sampler {
    samples: Vec<Sample>,
    cursor: usize,
    playback: Playback,
}

/// The two samples are the same encoding with the same channel values.
pub open spec fn same_sample(a: Sample, b: Sample) -> bool {
    match (a, b) {
        (Sample::U8(x), Sample::U8(y)) => x@ == y@,
        (Sample::U16(x), Sample::U16(y)) => x@ == y@,
        (Sample::U24(x), Sample::U24(y)) => x@ == y@,
        (Sample::U32(x), Sample::U32(y)) => x@ == y@,
        (Sample::S8(x), Sample::S8(y)) => x@ == y@,
        (Sample::S16(x), Sample::S16(y)) => x@ == y@,
        (Sample::S24(x), Sample::S24(y)) => x@ == y@,
        (Sample::S32(x), Sample::S32(y)) => x@ == y@,
        (Sample::F32(x), Sample::F32(y)) => x@ == y@,
        (Sample::F64(x), Sample::F64(y)) => x@ == y@,
        (Sample::Empty, Sample::Empty) => true,
        _ => false,
    }
}

/// The transport state after a control, or the control's error.
pub open spec fn control_spec(p: Playback, event: AudioControls, backing: Backing) -> Result<Playback, SamplerError> {
    match event {
        AudioControls::Seek(_) => if backing == Backing::Memory {
            Err(SamplerError::SeekInMemory)
        } else {
            Ok(p)
        },
        AudioControls::Pause => Ok(Playback { outputting: false, ..p }),
        AudioControls::Resume => Ok(Playback { outputting: true, ..p }),
        AudioControls::Reverse => if backing == Backing::File {
            Err(SamplerError::ReverseOpenedFile)
        } else {
            Ok(Playback { backward: !p.backward, ..p })
        },
        AudioControls::Mute => Ok(Playback { mute: true, ..p }),
        AudioControls::Unmute => Ok(Playback { mute: false, ..p }),
    }
}

fn copy_vec<T: Copy>(v: &Vec<T>) -> (r: Vec<T>)
    ensures
        r@ == v@,
{
    let mut out: Vec<T> = Vec::new();
    let mut i: usize = 0;
    while i < v.len()
        invariant
            i <= v@.len(),
            out@ == v@.subrange(0, i as int),
        decreases v@.len() - i,
    {
        out.push(v[i]);
        i += 1;
        assert(out@ =~= v@.subrange(0, i as int));
    }
    assert(v@.subrange(0, v@.len() as int) =~= v@);
    out
}

impl Sample {
    /// A copy of the sample.
    pub fn duplicate(&self) -> (r: Sample)
        ensures
            same_sample(r, *self),
    {
        match self {
            Sample::U8(v) => Sample::U8(copy_vec(v)),
            Sample::U16(v) => Sample::U16(copy_vec(v)),
            Sample::U24(v) => Sample::U24(copy_vec(v)),
            Sample::U32(v) => Sample::U32(copy_vec(v)),
            Sample::S8(v) => Sample::S8(copy_vec(v)),
            Sample::S16(v) => Sample::S16(copy_vec(v)),
            Sample::S24(v) => Sample::S24(copy_vec(v)),
            Sample::S32(v) => Sample::S32(copy_vec(v)),
            Sample::F32(v) => Sample::F32(copy_vec(v)),
            Sample::F64(v) => Sample::F64(copy_vec(v)),
            Sample::Empty => Sample::Empty,
        }
    }
}

impl Playback {
    /// Stopped, unmuted, playing forward.
    pub fn new() -> (r: Self)
        ensures
            r == (Playback { outputting: false, mute: false, backward: false }),
    {
        Playback { outputting: false, mute: false, backward: false }
    }

    /// Applies a control to the transport state of a sampler with the given backing. A seek
    /// is left to a file reader, and only a sample in memory can be reversed.
    pub fn control(&mut self, event: AudioControls, backing: Backing) -> (r: Result<ControlOutcome, SamplerError>)
        ensures
            match control_spec(*old(self), event, backing) {
                Ok(p) => {
                    &&& *final(self) == p
                    &&& r is Ok
                    &&& event matches AudioControls::Seek(t) ==> r->Ok_0 == ControlOutcome::SeekTo(t)
                    &&& !(event is Seek) ==> r->Ok_0 == ControlOutcome::Done
                },
                Err(e) => *final(self) == *old(self) && r == Err::<ControlOutcome, SamplerError>(e),
            },
    {
        match event {
            AudioControls::Seek(time) => {
                if backing == Backing::Memory {
                    Err(SamplerError::SeekInMemory)
                } else {
                    Ok(ControlOutcome::SeekTo(time))
                }
            },
            AudioControls::Pause => {
                self.outputting = false;
                Ok(ControlOutcome::Done)
            },
            AudioControls::Resume => {
                self.outputting = true;
                Ok(ControlOutcome::Done)
            },
            AudioControls::Reverse => {
                if backing == Backing::File {
                    Err(SamplerError::ReverseOpenedFile)
                } else {
                    self.backward = !self.backward;
                    Ok(ControlOutcome::Done)
                }
            },
            AudioControls::Mute => {
                self.mute = true;
                Ok(ControlOutcome::Done)
            },
            AudioControls::Unmute => {
                self.mute = false;
                Ok(ControlOutcome::Done)
            },
        }
    }
}

impl Sampler {
    /// The frames of the sample.
    pub closed spec fn frames(&self) -> Seq<Sample> {
        self.samples@
    }

    /// How far playback has got: frames before the cursor have been played going forward.
    pub closed spec fn position(&self) -> nat {
        self.cursor as nat
    }

    pub closed spec fn playback_state(&self) -> Playback {
        self.playback
    }

    pub open spec fn wf(&self) -> bool {
        self.position() <= self.frames().len()
    }

    /// A stopped sampler at the start of `samples`.
    pub fn from_samples(samples: Vec<Sample>) -> (r: Self)
        ensures
            r.wf(),
            r.frames() == samples@,
            r.position() == 0,
            r.playback_state() == (Playback { outputting: false, mute: false, backward: false }),
    {
        Sampler { samples, cursor: 0, playback: Playback::new() }
    }

    /// The next frame: `Empty` while stopped or muted, `None` at the end in the direction of
    /// playback, and otherwise the frame under the cursor, which moves one frame on.
    pub fn next(&mut self) -> (r: Option<Sample>)
        requires
            old(self).wf(),
        ensures
            final(self).wf(),
            final(self).frames() == old(self).frames(),
            final(self).playback_state() == old(self).playback_state(),
            ({
                let p = old(self).playback_state();
                let c = old(self).position();
                let n = old(self).frames().len();
                if !p.outputting {
                    r == Some(Sample::Empty) && final(self).position() == c
                } else if !p.backward {
                    if c >= n {
                        r is None && final(self).position() == c
                    } else {
                        final(self).position() == c + 1 && r is Some && (if p.mute {
                            r == Some(Sample::Empty)
                        } else {
                            same_sample(r->0, old(self).frames()[c as int])
                        })
                    }
                } else {
                    if c == 0 {
                        r is None && final(self).position() == c
                    } else {
                        final(self).position() == c - 1 && r is Some && (if p.mute {
                            r == Some(Sample::Empty)
                        } else {
                            same_sample(r->0, old(self).frames()[c - 1])
                        })
                    }
                }
            }),
    {
        if !self.playback.outputting {
            return Some(Sample::Empty);
        }
        if !self.playback.backward {
            if self.cursor >= self.samples.len() {
                return None;
            }
            self.cursor = self.cursor + 1;
            if self.playback.mute {
                Some(Sample::Empty)
            } else {
                Some(self.samples[self.cursor - 1].duplicate())
            }
        } else {
            if self.cursor == 0 {
                return None;
            }
            self.cursor = self.cursor - 1;
            if self.playback.mute {
                Some(Sample::Empty)
            } else {
                Some(self.samples[self.cursor].duplicate())
            }
        }
    }

    /// Applies a control; see `Playback::control`. A seek is refused: the sample is in
    /// memory.
    pub fn control(&mut self, event: AudioControls) -> (r: Result<(), SamplerError>)
        requires
            old(self).wf(),
        ensures
            final(self).wf(),
            final(self).frames() == old(self).frames(),
            final(self).position() == old(self).position(),
            match control_spec(old(self).playback_state(), event, Backing::Memory) {
                Ok(p) => final(self).playback_state() == p && r is Ok,
                Err(e) => final(self).playback_state() == old(self).playback_state() && r == Err::<
                    (),
                    SamplerError,
                >(e),
            },
    {
        match self.playback.control(event, Backing::Memory) {
            Ok(_) => Ok(()),
            Err(e) => Err(e),
        }
    }
}

} // verus!
