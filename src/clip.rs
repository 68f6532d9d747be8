use crate::sampler::AudioControls;
use vstd::prelude::*;

verus! {

/// Transport controls of a clip.
#[derive(Debug)]
pub enum ClipEvent {
    Play,
    Pause,
    Stop,
    Resume,
    /// Several controls, applied in order.
    Multiple(Vec<ClipEvent>),
}

/// Whether two strings hold the same characters.
pub fn same_text(a: &str, b: &str) -> (r: bool)
    ensures
        r == (a@ == b@),
{
    let n = a.unicode_len();
    if n != b.unicode_len() {
        return false;
    }
    let mut i: usize = 0;
    while i < n
        invariant
            i <= n,
            n == a@.len(),
            n == b@.len(),
            forall|j: int| 0 <= j < i ==> a@[j] == b@[j],
        decreases n - i,
    {
        if a.get_char(i) != b.get_char(i) {
            return false;
        }
        i += 1;
    }
    assert(a@ =~= b@);
    true
}

/// The control that a name stands for.
pub open spec fn clip_event_named(name: Seq<char>) -> Option<ClipEvent> {
    if name == "play"@ || name == "Play"@ || name == "||>"@ {
        Some(ClipEvent::Play)
    } else if name == "pause"@ || name == "Pause"@ || name == "||"@ {
        Some(ClipEvent::Pause)
    } else if name == "stop"@ || name == "Stop"@ || name == "|]"@ || name == "[|"@ || name == "o"@ {
        Some(ClipEvent::Stop)
    } else if name == "resume"@ || name == "Resume"@ || name == "|>"@ {
        Some(ClipEvent::Resume)
    } else {
        None
    }
}

/// The control that a number stands for: 1 play, 2 resume, 3 pause, 4 stop.
pub open spec fn clip_event_numbered(n: i64) -> Option<ClipEvent> {
    if n == 1 {
        Some(ClipEvent::Play)
    } else if n == 2 {
        Some(ClipEvent::Resume)
    } else if n == 3 {
        Some(ClipEvent::Pause)
    } else if n == 4 {
        Some(ClipEvent::Stop)
    } else {
        None
    }
}

impl ClipEvent {
    /// The control named `name` (`play`, `Pause`, `|]`, ...), if any.
    pub fn from_name(name: &str) -> (r: Option<ClipEvent>)
        ensures
            r == clip_event_named(name@),
    {
        if same_text(name, "play") || same_text(name, "Play") || same_text(name, "||>") {
            Some(ClipEvent::Play)
        } else if same_text(name, "pause") || same_text(name, "Pause") || same_text(name, "||") {
            Some(ClipEvent::Pause)
        } else if same_text(name, "stop") || same_text(name, "Stop") || same_text(name, "|]")
            || same_text(name, "[|") || same_text(name, "o") {
            Some(ClipEvent::Stop)
        } else if same_text(name, "resume") || same_text(name, "Resume") || same_text(name, "|>") {
            Some(ClipEvent::Resume)
        } else {
            None
        }
    }

    /// The control numbered `n`, if any.
    pub fn from_index(n: i64) -> (r: Option<ClipEvent>)
        ensures
            r == clip_event_numbered(n),
    {
        if n == 1 {
            Some(ClipEvent::Play)
        } else if n == 2 {
            Some(ClipEvent::Resume)
        } else if n == 3 {
            Some(ClipEvent::Pause)
        } else if n == 4 {
            Some(ClipEvent::Stop)
        } else {
            None
        }
    }

    /// `true` resumes a clip, `false` pauses it.
    pub fn from_flag(b: bool) -> (r: ClipEvent)
        ensures
            r == (if b {
                ClipEvent::Resume
            } else {
                ClipEvent::Pause
            }),
    {
        if b {
            ClipEvent::Resume
        } else {
            ClipEvent::Pause
        }
    }
}

/// The sampler control that a lower-case name stands for; a seek takes its time apart.
pub open spec fn audio_control_named(name: Seq<char>) -> Option<AudioControls> {
    if name == "pause"@ {
        Some(AudioControls::Pause)
    } else if name == "resume"@ {
        Some(AudioControls::Resume)
    } else if name == "reverse"@ {
        Some(AudioControls::Reverse)
    } else if name == "mute"@ {
        Some(AudioControls::Mute)
    } else if name == "unmute"@ {
        Some(AudioControls::Unmute)
    } else {
        None
    }
}

impl AudioControls {
    /// The control named `name` (`pause`, `resume`, `reverse`, `mute`, `unmute`), if any.
    pub fn from_name(name: &str) -> (r: Option<AudioControls>)
        ensures
            r == audio_control_named(name@),
    {
        if same_text(name, "pause") {
            Some(AudioControls::Pause)
        } else if same_text(name, "resume") {
            Some(AudioControls::Resume)
        } else if same_text(name, "reverse") {
            Some(AudioControls::Reverse)
        } else if same_text(name, "mute") {
            Some(AudioControls::Mute)
        } else if same_text(name, "unmute") {
            Some(AudioControls::Unmute)
        } else {
            None
        }
    }

    /// A seek to `time`, for a control tagged `tag`; only the tag `seek` names one.
    pub fn seek_named(tag: &str, time: String) -> (r: Option<AudioControls>)
        ensures
            tag@ == "seek"@ ==> r == Some(AudioControls::Seek(time)),
            tag@ != "seek"@ ==> r is None,
    {
        if same_text(tag, "seek") {
            Some(AudioControls::Seek(time))
        } else {
            None
        }
    }
}

} // verus!
