use crate::instrument::SourceError;
use crate::sample::Sample;
use vstd::prelude::*;

verus! {

/// Where the engine is within one step of its run.
#[derive(Debug, Clone, Copy, PartialEq, Eq)]
pub enum Phase {
    /// About to start a new frame.
    Ready,
    /// At a tick boundary, handing out the events that are due.
    Draining,
    /// Waiting for the driver to hand over the next item of the event stream.
    Awaiting,
    /// The boundary is done; the frame's samples are owed.
    Sampling,
    /// An error ended the run.
    Aborted,
}

/// What the engine asks its driver to do next.
#[derive(Debug, Clone, PartialEq, Eq)]
pub enum Action<E> {
    /// Pull the next item of the merged event stream and hand it to `receive`.
    Pull,
    /// Deliver this event to its instrument.
    Dispatch(E),
    /// Pull one frame from every instrument.
    Sample,
    /// The run is over: the sample bound has been reached, or an error ended it.
    Finished,
}

/// A failure that ends, or for a one-off source error only reports on, a run.
#[derive(Debug, Clone, PartialEq, Eq)]
pub enum EngineError {
    /// The event stream failed to produce its next item.
    EventStream(String),
    /// An instrument failed to take a dispatched event.
    Emit(String),
    /// An instrument failed to produce a sample.
    Source(SourceError<String>),
}

/// The state of a run, as the engine's contracts speak of it.
pub struct EngineState<E> {
    /// The single look-ahead item pulled from the event stream.
    pub next_event: Option<(usize, E)>,
    /// The current grid index.
    pub index: nat,
    /// The frame counter within the current tick.
    pub interval: nat,
    /// Frames per tick.
    pub max_interval: nat,
    /// Bound on the number of frames of the run.
    pub duration: nat,
    pub phase: Phase,
}

/// The sample bound has been reached.
pub open spec fn bound_reached<E>(s: EngineState<E>) -> bool {
    s.index * s.max_interval >= s.duration
}

/// The end of a tick boundary: the frame counter restarts and the grid index advances.
pub open spec fn end_boundary<E>(s: EngineState<E>) -> EngineState<E> {
    EngineState { interval: 0, index: s.index + 1, phase: Phase::Ready, ..s }
}

/// One decision at a tick boundary: hand out the pending event if it is due now, ask for
/// the next one if none is pending, and otherwise close the boundary and sample.
pub open spec fn drain_step<E>(s: EngineState<E>) -> (EngineState<E>, Action<E>) {
    match s.next_event {
        Some((pos, e)) => if pos == s.index {
            (EngineState { next_event: None, phase: Phase::Draining, ..s }, Action::Dispatch(e))
        } else {
            (end_boundary(s), Action::Sample)
        },
        None => (EngineState { phase: Phase::Awaiting, ..s }, Action::Pull),
    }
}

/// The engine's next decision and the state it leaves behind.
pub open spec fn step_spec<E>(s: EngineState<E>) -> (EngineState<E>, Action<E>) {
    match s.phase {
        Phase::Aborted => (s, Action::Finished),
        Phase::Awaiting => (s, Action::Pull),
        Phase::Sampling => (EngineState { phase: Phase::Ready, ..s }, Action::Sample),
        Phase::Draining => drain_step(s),
        Phase::Ready => if bound_reached(s) {
            (s, Action::Finished)
        } else if s.interval + 1 >= s.max_interval {
            drain_step(EngineState { phase: Phase::Draining, ..s })
        } else {
            (EngineState { interval: s.interval + 1, ..s }, Action::Sample)
        },
    }
}

/// The state after the driver hands over the item that a `Pull` asked for; an exhausted
/// stream closes the boundary.
pub open spec fn receive_spec<E>(s: EngineState<E>, item: Option<(usize, E)>) -> EngineState<E> {
    match item {
        Some(_) => EngineState { next_event: item, phase: Phase::Draining, ..s },
        None => EngineState { next_event: None, phase: Phase::Sampling, ..end_boundary(s) },
    }
}

/// Whether an error ends the run: all do but a one-off source error.
pub open spec fn aborts(err: EngineError) -> bool {
    !(err matches EngineError::Source(SourceError::Once(_)))
}

/// The tick scheduler of a run. It decides, step by step, which events are due and when
/// the instruments are sampled; its driver performs what it decides.
pub struct Engine<E> {
    next_event: Option<(usize, E)>,
    index: usize,
    interval: usize,
    max_interval: usize,
    duration: usize,
    phase: Phase,
}

impl<E> View for Engine<E> {
    type V = EngineState<E>;

    closed spec fn view(&self) -> EngineState<E> {
        EngineState {
            next_event: self.next_event,
            index: self.index as nat,
            interval: self.interval as nat,
            max_interval: self.max_interval as nat,
            duration: self.duration as nat,
            phase: self.phase,
        }
    }
}

/// `a * b` for two machine-sized factors fits in 128 bits.
proof fn lemma_product_fits(a: usize, b: usize)
    ensures
        (a as int) * (b as int) <= u128::MAX,
{
    assert((a as int) * (b as int) <= (usize::MAX as int) * (usize::MAX as int)) by (nonlinear_arith);
}

impl<E> Engine<E> {
    /// The invariant of a run: at least one frame per tick, and the grid index stays below
    /// the point where the sample bound is reached while a boundary is in progress.
    pub closed spec fn wf(&self) -> bool {
        &&& self.max_interval >= 1
        &&& (self.phase is Draining || self.phase is Awaiting) ==> !bound_reached(self@)
        &&& self.phase is Sampling ==> self.index >= 1
    }

    /// A run of at most `sample_bound` frames, `max_interval` frames per tick. The first
    /// step is a tick boundary.
    pub fn new(max_interval: usize, sample_bound: usize) -> (r: Self)
        requires
            max_interval >= 1,
        ensures
            r.wf(),
            r@ == (EngineState::<E> {
                next_event: None,
                index: 0,
                interval: max_interval as nat,
                max_interval: max_interval as nat,
                duration: sample_bound as nat,
                phase: Phase::Ready,
            }),
    {
        Engine {
            next_event: None,
            index: 0,
            interval: max_interval,
            max_interval,
            duration: sample_bound,
            phase: Phase::Ready,
        }
    }

    fn close_boundary(&mut self)
        requires
            old(self).wf(),
            !bound_reached(old(self)@),
        ensures
            final(self)@ == end_boundary(old(self)@),
            final(self).wf(),
    {
        proof {
            lemma_product_fits(self.index, self.max_interval);
            assert((self.index as int) <= (self.index as int) * (self.max_interval as int))
                by (nonlinear_arith)
                requires
                    self.max_interval >= 1,
            ;
        }
        self.interval = 0;
        self.index = self.index + 1;
        self.phase = Phase::Ready;
    }

    fn drain(&mut self) -> (r: Action<E>)
        requires
            old(self).wf(),
            old(self).phase is Draining,
        ensures
            final(self).wf(),
            (final(self)@, r) == drain_step(old(self)@),
    {
        match self.next_event.take() {
            Some((pos, e)) => {
                if pos == self.index {
                    Action::Dispatch(e)
                } else {
                    self.next_event = Some((pos, e));
                    self.close_boundary();
                    Action::Sample
                }
            },
            None => {
                self.phase = Phase::Awaiting;
                Action::Pull
            },
        }
    }

    /// Decides the next thing to do; see `step_spec`.
    pub fn next_action(&mut self) -> (r: Action<E>)
        requires
            old(self).wf(),
            !(old(self)@.phase is Awaiting),
        ensures
            final(self).wf(),
            (final(self)@, r) == step_spec(old(self)@),
    {
        match self.phase {
            Phase::Aborted => Action::Finished,
            Phase::Awaiting => Action::Pull,
            Phase::Sampling => {
                self.phase = Phase::Ready;
                Action::Sample
            },
            Phase::Draining => self.drain(),
            Phase::Ready => {
                proof {
                    lemma_product_fits(self.index, self.max_interval);
                }
                if (self.index as u128) * (self.max_interval as u128) >= self.duration as u128 {
                    Action::Finished
                } else if self.interval >= self.max_interval - 1 {
                    self.phase = Phase::Draining;
                    self.drain()
                } else {
                    self.interval = self.interval + 1;
                    Action::Sample
                }
            },
        }
    }

    /// Hands over the item that a `Pull` asked for; `None` when the stream is exhausted.
    pub fn receive(&mut self, item: Option<(usize, E)>)
        requires
            old(self).wf(),
            old(self)@.phase is Awaiting,
        ensures
            final(self).wf(),
            final(self)@ == receive_spec(old(self)@, item),
    {
        match item {
            Some(_) => {
                self.next_event = item;
                self.phase = Phase::Draining;
            },
            None => {
                self.next_event = None;
                self.close_boundary();
                self.phase = Phase::Sampling;
            },
        }
    }

    /// Records an error met while carrying out an action and hands it back. Every error but
    /// a one-off source error ends the run.
    pub fn fail(&mut self, err: EngineError) -> (r: EngineError)
        requires
            old(self).wf(),
        ensures
            final(self).wf(),
            r == err,
            final(self)@ == (if aborts(err) {
                EngineState { phase: Phase::Aborted, ..old(self)@ }
            } else {
                old(self)@
            }),
    {
        let fatal = match &err {
            EngineError::Source(SourceError::Once(_)) => false,
            _ => true,
        };
        if fatal {
            self.phase = Phase::Aborted;
        }
        err
    }
}

/// The samples that were produced, in instrument order.
pub open spec fn produced(results: Seq<Option<Sample>>) -> Seq<Sample>
    decreases results.len(),
{
    if results.len() == 0 {
        seq![]
    } else {
        match results.last() {
            Some(s) => produced(results.drop_last()).push(s),
            None => produced(results.drop_last()),
        }
    }
}

/// One frame of a run from what each instrument returned: `None` only when every
/// instrument is exhausted, otherwise the samples produced, in instrument order.
pub fn collect_frame(results: Vec<Option<Sample>>) -> (r: Option<Vec<Sample>>)
    ensures
        r is None <==> forall|i: int| 0 <= i < results@.len() ==> results@[i] is None,
        r matches Some(v) ==> v@ == produced(results@),
{
    let ghost all = results@;
    let mut rest = results;
    let mut out: Vec<Sample> = Vec::new();
    let mut any = false;
    while rest.len() > 0
        invariant
            all == all.subrange(0, all.len() - rest@.len()) + rest@,
            rest@.len() <= all.len(),
            out@ == produced(all.subrange(0, all.len() - rest@.len())),
            any <==> exists|i: int| 0 <= i < all.len() - rest@.len() && all[i] is Some,
        decreases rest@.len(),
    {
        let ghost k = all.len() - rest@.len();
        let item = rest.remove(0);
        assert(all.subrange(0, k + 1).drop_last() =~= all.subrange(0, k));
        assert(all[k] == item);
        assert(all =~= all.subrange(0, k + 1) + rest@);
        match item {
            Some(s) => {
                out.push(s);
                any = true;
            },
            None => {},
        }
    }
    assert(all.subrange(0, all.len() as int) =~= all);
    if any {
        Some(out)
    } else {
        None
    }
}

/// Ticks keep to the grid: the engine hands out an event only while the grid index equals
/// its position, clears it from the look-ahead so that it goes out once, and closes a tick
/// boundary, after which that tick's samples are pulled, only once no pending event is due
/// at the boundary's index.
pub proof fn lemma_grid_fidelity<E>(s: EngineState<E>, item: Option<(usize, E)>)
    ensures
        step_spec(s).1 matches Action::Dispatch(e) ==> {
            &&& s.next_event == Some((s.index as usize, e))
            &&& step_spec(s).0.next_event is None
            &&& step_spec(s).0.index == s.index
        },
        step_spec(s).0.index != s.index ==> {
            &&& step_spec(s).1 is Sample
            &&& step_spec(s).0.index == s.index + 1
            &&& step_spec(s).0.next_event matches Some((pos, _)) ==> pos != s.index
        },
        step_spec(s).1 is Sample && step_spec(s).0.index == s.index ==> !(s.phase is Draining),
        receive_spec(s, item).index != s.index ==> item is None && receive_spec(s, item).phase
            is Sampling,
{
}

/// A run is determined by its inputs: two engines in the same state that are handed the
/// same items make the same decisions and reach the same states, step by step and over
/// whole driven runs alike.
pub proof fn lemma_deterministic<E>(
    a: EngineState<E>,
    b: EngineState<E>,
    stream_a: Seq<(usize, E)>,
    stream_b: Seq<(usize, E)>,
    n: nat,
)
    requires
        a == b,
        stream_a == stream_b,
    ensures
        step_spec(a) == step_spec(b),
        run(a, stream_a, n) == run(b, stream_b, n),
{
}

} // verus!

verus! {

/// What a run shows of itself: an event handed out at a grid index, or a frame pulled,
/// with the grid index that the engine had reached when it was pulled.
pub enum Trace<E> {
    Dispatched(nat, E),
    Sampled(nat),
}

/// The look-ahead item, if any, as a sequence.
pub open spec fn pending<E>(s: EngineState<E>) -> Seq<(usize, E)> {
    match s.next_event {
        Some(item) => seq![item],
        None => seq![],
    }
}

/// One step of a driver that feeds the engine from `rest`: the engine decides, and a `Pull`
/// is answered at once with the next item, or with `None` once `rest` is used up.
pub open spec fn drive_step<E>(s: EngineState<E>, rest: Seq<(usize, E)>) -> (EngineState<E>, Seq<(usize, E)>, Action<E>) {
    let (t, a) = step_spec(s);
    if a is Pull {
        if rest.len() > 0 {
            (receive_spec(t, Some(rest[0])), rest.drop_first(), a)
        } else {
            (receive_spec(t, None), rest, a)
        }
    } else {
        (t, rest, a)
    }
}

/// What one step shows.
pub open spec fn trace_of<E>(before: EngineState<E>, after: EngineState<E>, a: Action<E>) -> Seq<Trace<E>> {
    match a {
        Action::Dispatch(e) => seq![Trace::Dispatched(before.index, e)],
        Action::Sample => seq![Trace::Sampled(after.index)],
        _ => seq![],
    }
}

/// `n` driver steps from `s`: the final state, what is left of the stream, and the trace.
pub open spec fn run<E>(s: EngineState<E>, rest: Seq<(usize, E)>, n: nat) -> (EngineState<E>, Seq<(usize, E)>, Seq<Trace<E>>)
    decreases n,
{
    if n == 0 {
        (s, rest, seq![])
    } else {
        let (t, r, a) = drive_step(s, rest);
        let (u, r2, tr) = run(t, r, (n - 1) as nat);
        (u, r2, trace_of(s, t, a) + tr)
    }
}

/// The events handed out in a trace, with their grid indices, in order.
pub open spec fn dispatched<E>(tr: Seq<Trace<E>>) -> Seq<(usize, E)>
    decreases tr.len(),
{
    if tr.len() == 0 {
        seq![]
    } else {
        let head = match tr[0] {
            Trace::Dispatched(i, e) => seq![(i as usize, e)],
            Trace::Sampled(_) => seq![],
        };
        head + dispatched(tr.drop_first())
    }
}

/// The items are in ascending order of position.
pub open spec fn ascending<E>(items: Seq<(usize, E)>) -> bool {
    forall|a: int, b: int| 0 <= a <= b < items.len() ==> items[a].0 <= items[b].0
}

/// A state of a driven run: nothing outstanding, the stream ascending, and no item left
/// whose position the grid index has passed.
pub open spec fn driven<E>(s: EngineState<E>, rest: Seq<(usize, E)>) -> bool {
    &&& s.max_interval >= 1
    &&& !(s.phase is Awaiting)
    &&& ascending(rest)
    &&& match s.next_event {
        Some((p, _)) => s.index <= p && forall|k: int| 0 <= k < rest.len() ==> p <= #[trigger] rest[k].0,
        None => forall|k: int| 0 <= k < rest.len() ==> s.index <= #[trigger] rest[k].0,
    }
}

/// The least grid index that a frame pulled from `s` on can carry.
pub open spec fn low<E>(s: EngineState<E>) -> nat {
    if s.phase is Draining {
        s.index + 1
    } else {
        s.index
    }
}

proof fn lemma_drive_step<E>(s: EngineState<E>, rest: Seq<(usize, E)>)
    requires
        driven(s, rest),
    ensures
        ({
            let (t, r, a) = drive_step(s, rest);
            &&& driven(t, r)
            &&& t.index >= s.index
            &&& low(t) >= low(s)
            &&& a matches Action::Dispatch(e) ==> {
                &&& pending(s) + rest == seq![(s.index as usize, e)] + pending(t) + r
                &&& t.phase is Draining
                &&& t.index == s.index
            }
            &&& !(a is Dispatch) ==> pending(s) + rest == pending(t) + r
            &&& a is Sample ==> t.index >= low(s)
        }),
{
    let (t0, a0) = step_spec(s);
    let (t, r, a) = drive_step(s, rest);
    if a is Pull && rest.len() > 0 {
        assert(rest =~= seq![rest[0]] + rest.drop_first());
        assert forall|k: int| 0 <= k < r.len() implies rest[0].0 <= #[trigger] r[k].0 by {
            assert(r[k] == rest[k + 1]);
        }
        assert forall|a1: int, b1: int| 0 <= a1 <= b1 < r.len() implies r[a1].0 <= r[b1].0 by {
            assert(r[a1] == rest[a1 + 1]);
            assert(r[b1] == rest[b1 + 1]);
        }
        assert(rest[0].0 >= s.index);
    }
    if a is Dispatch {
        let e = a->Dispatch_0;
        assert(pending(s) =~= seq![(s.index as usize, e)]);
        assert(pending(t) =~= Seq::<(usize, E)>::empty());
        assert(pending(s) + rest =~= seq![(s.index as usize, e)] + pending(t) + r);
    } else if a is Pull {
        if rest.len() > 0 {
            assert(pending(s) + rest =~= pending(t) + r);
        } else {
            assert(pending(s) + rest =~= pending(t) + r);
        }
    } else {
        assert(pending(s) + rest =~= pending(t) + r);
    }
}

/// What a run of `n` driver steps from a driven state shows.
pub proof fn lemma_run<E>(s: EngineState<E>, rest: Seq<(usize, E)>, n: nat)
    requires
        driven(s, rest),
    ensures
        ({
            let (u, r2, tr) = run(s, rest, n);
            &&& driven(u, r2)
            &&& u.index >= s.index
            &&& dispatched(tr) + pending(u) + r2 == pending(s) + rest
            &&& forall|k: int| 0 <= k < tr.len() && tr[k] is Dispatched ==> tr[k]->Dispatched_0 >= s.index
            &&& forall|k: int| 0 <= k < tr.len() && tr[k] is Sampled ==> tr[k]->Sampled_0 >= low(s)
            &&& forall|i: int, j: int|
                0 <= i < j < tr.len() && tr[i] is Dispatched && tr[j] is Sampled
                    ==> tr[j]->Sampled_0 >= tr[i]->Dispatched_0 + 1
            &&& forall|i: int, j: int|
                0 <= i < j < tr.len() && tr[i] is Sampled && tr[j] is Dispatched
                    ==> tr[i]->Sampled_0 <= tr[j]->Dispatched_0
        }),
    decreases n,
{
    if n > 0 {
        let (t, r, a) = drive_step(s, rest);
        lemma_drive_step(s, rest);
        lemma_run(t, r, (n - 1) as nat);
        let (u, r2, tr1) = run(t, r, (n - 1) as nat);
        let head = trace_of(s, t, a);
        let tr = head + tr1;
        assert(run(s, rest, n) == (u, r2, tr));
        if head.len() == 0 {
            assert(tr =~= tr1);
            assert(!(a is Dispatch));
            assert(dispatched(tr) + pending(u) + r2 =~= pending(s) + rest);
        } else {
            assert(head.len() == 1);
            assert(tr.drop_first() =~= tr1);
            assert(tr[0] == head[0]);
            if a is Dispatch {
                let e = a->Dispatch_0;
                assert(dispatched(tr) == seq![(s.index as usize, e)] + dispatched(tr1));
                assert(dispatched(tr) + pending(u) + r2 =~= seq![(s.index as usize, e)] + (dispatched(
                    tr1,
                ) + pending(u) + r2));
                assert(seq![(s.index as usize, e)] + pending(t) + r =~= seq![(s.index as usize, e)] + (
                pending(t) + r));
            } else {
                assert(a is Sample);
                assert(dispatched(tr) == dispatched(tr1));
            }
            assert forall|k: int| 0 < k < tr.len() implies tr[k] == tr1[k - 1] by {}
            assert forall|i: int, j: int|
                0 <= i < j < tr.len() && tr[i] is Dispatched && tr[j] is Sampled implies tr[j]->Sampled_0
                >= tr[i]->Dispatched_0 + 1 by {
                if i > 0 {
                    assert(tr[i] == tr1[i - 1]);
                    assert(tr[j] == tr1[j - 1]);
                } else {
                    assert(tr[j] == tr1[j - 1]);
                }
            }
            assert forall|i: int, j: int|
                0 <= i < j < tr.len() && tr[i] is Sampled && tr[j] is Dispatched implies tr[i]->Sampled_0
                <= tr[j]->Dispatched_0 by {
                if i > 0 {
                    assert(tr[i] == tr1[i - 1]);
                    assert(tr[j] == tr1[j - 1]);
                } else {
                    assert(tr[j] == tr1[j - 1]);
                }
            }
        }
    } else {
        assert(dispatched(Seq::<Trace<E>>::empty()) =~= Seq::<(usize, E)>::empty());
        assert(Seq::<(usize, E)>::empty() + pending(s) + rest =~= pending(s) + rest);
    }
}

/// The state of a fresh run: nothing pulled yet, and a tick boundary first.
pub open spec fn fresh<E>(max_interval: nat, duration: nat) -> EngineState<E> {
    EngineState {
        next_event: None,
        index: 0,
        interval: max_interval,
        max_interval,
        duration,
        phase: Phase::Ready,
    }
}

/// Grid fidelity over a whole run driven from an ascending event stream: the events handed
/// out are the stream's first events, in order, so each goes out once; each goes out while
/// the grid index equals its position; every event whose position the grid index has
/// passed has gone out; a frame pulled after an event at position `p` went out carries a
/// grid index above `p` (it belongs to tick `p` or later), and a frame pulled before it
/// carries one of at most `p` (it belongs to a tick before `p`).
pub proof fn lemma_grid_fidelity_run<E>(stream: Seq<(usize, E)>, max_interval: nat, duration: nat, n: nat)
    requires
        ascending(stream),
        max_interval >= 1,
    ensures
        ({
            let (u, rest, tr) = run(fresh::<E>(max_interval, duration), stream, n);
            let out = dispatched(tr);
            &&& out.len() <= stream.len()
            &&& out == stream.subrange(0, out.len() as int)
            &&& forall|k: int| 0 <= k < stream.len() && stream[k].0 < u.index ==> k < out.len()
            &&& forall|i: int, j: int|
                0 <= i < j < tr.len() && tr[i] is Dispatched && tr[j] is Sampled
                    ==> tr[j]->Sampled_0 >= tr[i]->Dispatched_0 + 1
            &&& forall|i: int, j: int|
                0 <= i < j < tr.len() && tr[i] is Sampled && tr[j] is Dispatched
                    ==> tr[i]->Sampled_0 <= tr[j]->Dispatched_0
        }),
{
    let s0 = fresh::<E>(max_interval, duration);
    assert(pending(s0) + stream =~= stream);
    lemma_run(s0, stream, n);
    let (u, rest, tr) = run(s0, stream, n);
    let out = dispatched(tr);
    let left = pending(u) + rest;
    assert(out + left == stream);
    assert(out =~= stream.subrange(0, out.len() as int));
    assert forall|k: int| 0 <= k < stream.len() && stream[k].0 < u.index implies k < out.len() by {
        if k >= out.len() {
            assert(stream[k] == left[k - out.len()]);
            if u.next_event is Some {
                if k - out.len() > 0 {
                    assert(left[k - out.len()] == rest[k - out.len() - 1]);
                }
            } else {
                assert(left[k - out.len()] == rest[k - out.len()]);
            }
        }
    }
}

} // verus!
