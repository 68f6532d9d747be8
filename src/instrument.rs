use crate::clip::same_text;
use vstd::prelude::*;

verus! {

/// A failure of an instrument to produce its next sample.
#[derive(Debug, Clone, PartialEq, Eq)]
pub enum SourceError<E> {
    /// The instrument is broken for good and must not be polled again.
    Fatal(E),
    /// This one pull failed; the instrument may be asked again.
    Once(E),
}

/// A failure of an instrument to take an event.
#[derive(Debug, Clone, PartialEq, Eq)]
pub enum InstrumentError {
    /// The event could not be decoded into the type that the instrument expects.
    DeserializationError(String),
    /// The instrument's own state transition rejected or failed on the event.
    Custom(String),
}

impl<E> SourceError<E> {
    /// Whether the failure retires the instrument for good.
    pub fn is_fatal(&self) -> (r: bool)
        ensures
            r <==> *self is Fatal,
    {
        match self {
            SourceError::Fatal(_) => true,
            SourceError::Once(_) => false,
        }
    }
}

/// The construction modes that an instrument can be initialised through.
#[derive(Debug, Clone, Copy, PartialEq, Eq, Structural)]
pub enum Route {
    /// Read the backing resource as it is played.
    Open,
    /// Bring the backing resource into memory first.
    Import,
}

impl Route {
    /// The route called `name` (`open` or `import`), if any.
    pub fn from_name(name: &str) -> (r: Option<Route>)
        ensures
            name@ == "open"@ ==> r == Some(Route::Open),
            name@ == "import"@ ==> r == Some(Route::Import),
            name@ != "open"@ && name@ != "import"@ ==> r is None,
    {
        proof {
            reveal_strlit("open");
            reveal_strlit("import");
            assert("open"@.len() != "import"@.len());
        }
        if same_text(name, "open") {
            Some(Route::Open)
        } else if same_text(name, "import") {
            Some(Route::Import)
        } else {
            None
        }
    }
}

/// A sample source: each pull yields the next frame, `None` once it has nothing to play,
/// or a failure.
pub trait Source {
    type Err;

    fn next_sample(&mut self) -> Result<Option<crate::sample::Sample>, SourceError<Self::Err>>;
}

/// A state machine driven by events of type `E`, created once through a named route (such
/// as `open` or `import`) with arguments of type `A`.
pub trait State<A, E> {
    type TErr;

    type IErr;

    fn transform(&mut self, event: E) -> Result<(), Self::TErr>;

    fn initialize(route: &str, arguments: A) -> Result<Self, Self::IErr> where Self: Sized;
}

/// A pairing of a sample source and a state machine.
pub trait Instrument<A, E>: State<A, E> + Source {
    fn help(&self) -> String;
}

} // verus!
