use vstd::prelude::*;

use crate::state::PollStep;
use crate::state::Pulled;
use crate::state::State;
use crate::subsequence::is_subsequence_of;
use crate::subsequence::lemma_subseq_drop_last;

verus! {

/// One observable stimulus of the sampling combinator, from its two pull
/// sources: a fresh value from the inner stream, or a fired period timer
/// while the inner stream had nothing ready.
#[derive(Clone, Copy, Debug, PartialEq, Eq)]
pub enum DebounceEvent<T> {
    Value(T),
    Tick,
}

/// Folds a stimulus script into the values emitted so far and the value
/// still buffered: a fresh value overwrites the buffer (last write wins), a
/// tick emits the buffered value if any and clears the buffer, and an empty
/// tick emits nothing.
pub open spec fn debounce_fold<T>(script: Seq<DebounceEvent<T>>) -> (Seq<T>, Option<T>)
    decreases script.len(),
{
    if script.len() == 0 {
        (Seq::empty(), None)
    } else {
        let r = debounce_fold(script.drop_last());
        match script.last() {
            DebounceEvent::Value(x) => (r.0, Some(x)),
            DebounceEvent::Tick => match r.1 {
                Some(b) => (r.0.push(b), None),
                None => r,
            },
        }
    }
}

/// Mathematical model of time-sampled emission: the values the ticks
/// sampled, plus one terminal flush of a value still buffered when the
/// inner stream ends.
pub open spec fn debounce_model<T>(script: Seq<DebounceEvent<T>>) -> Seq<T> {
    match debounce_fold(script).1 {
        Some(b) => debounce_fold(script).0.push(b),
        None => debounce_fold(script).0,
    }
}

/// The inner-stream values of a stimulus script, in arrival order.
pub open spec fn values_of<T>(script: Seq<DebounceEvent<T>>) -> Seq<T>
    decreases script.len(),
{
    if script.len() == 0 {
        Seq::empty()
    } else {
        let r = values_of(script.drop_last());
        match script.last() {
            DebounceEvent::Value(x) => r.push(x),
            DebounceEvent::Tick => r,
        }
    }
}

/// An empty stimulus script — inner exhaustion before any value or tick —
/// yields empty output.
pub proof fn lemma_debounce_empty<T>()
    ensures
        debounce_model(Seq::<DebounceEvent<T>>::empty()) == Seq::<T>::empty(),
{
}

/// What time sampling emits is an order-preserving subsequence of the inner
/// stream's values: sampling selects, never reorders and never invents.
pub proof fn lemma_debounce_subsequence<T>(script: Seq<DebounceEvent<T>>)
    ensures
        is_subsequence_of(debounce_model(script), values_of(script)),
    decreases script.len(),
{
    if script.len() > 0 {
        lemma_debounce_subsequence(script.drop_last());
        let t = script.drop_last();
        let f = debounce_fold(t);
        match script.last() {
            DebounceEvent::Value(x) => {
                match f.1 {
                    Some(b) => {
                        lemma_subseq_drop_last(f.0.push(b), values_of(t));
                        assert((f.0.push(b)).drop_last() =~= f.0);
                    },
                    None => {},
                }
                assert((values_of(t).push(x)).drop_last() =~= values_of(t));
                assert((f.0.push(x)).drop_last() =~= f.0);
            },
            DebounceEvent::Tick => {},
        }
    }
}

/// Samples the most recent inner value on each tick of an independent
/// periodic timer: between ticks only the newest value survives in a
/// one-slot buffer, and a value still buffered when the inner stream ends
/// is flushed once before exhaustion is signalled.
#[derive(Debug)]
pub struct DebounceTime<T> {
    item: Option<T>,
    state: State,
}

impl<T> DebounceTime<T> {
    /// Completion marker of this combinator.
    pub closed spec fn completion(self) -> State {
        self.state
    }

    /// The most recently observed inner value, not yet emitted.
    pub closed spec fn buffered(self) -> Option<T> {
        self.item
    }

    pub fn new() -> (r: Self)
        ensures
            r.completion() == State::HasNext,
            r.buffered() == None::<T>,
    {
        DebounceTime { item: None, state: State::HasNext }
    }

    /// Absorbs the outcome of one opportunistic pull on the inner stream: a
    /// fresh value overwrites the buffer, exhaustion starts the draining
    /// phase, and "nothing ready" changes nothing.  Emission is never
    /// triggered here; it is gated by the timer alone.
    pub fn absorb(&mut self, pulled: Pulled<T>)
        requires
            old(self).completion() == State::HasNext,
        ensures
            (match pulled {
                Pulled::Item(x) => final(self).buffered() == Some(x) && final(self).completion()
                    == State::HasNext,
                Pulled::Exhausted => final(self).buffered() == old(self).buffered()
                    && final(self).completion() == State::HasNone,
                Pulled::Pending => *final(self) == *old(self),
            }),
    {
        match pulled {
            Pulled::Item(x) => {
                self.item = Some(x);
            },
            Pulled::Exhausted => {
                self.state = State::HasNone;
            },
            Pulled::Pending => {},
        }
    }

    /// Reacts to one poll of the period timer, after the inner pull was
    /// absorbed: a fired tick emits the buffered value if there is one; an
    /// empty tick, like a timer that has not fired, emits nothing.
    pub fn on_tick(&mut self, fired: bool) -> (r: PollStep<T>)
        requires
            old(self).completion() == State::HasNext,
        ensures
            final(self).completion() == State::HasNext,
            (if fired {
                match old(self).buffered() {
                    Some(x) => final(self).buffered() == None::<T> && r == PollStep::Emit(x),
                    None => *final(self) == *old(self) && r == PollStep::<T>::Pending,
                }
            } else {
                *final(self) == *old(self) && r == PollStep::<T>::Pending
            }),
    {
        if fired {
            match self.item.take() {
                Some(x) => PollStep::Emit(x),
                None => PollStep::Pending,
            }
        } else {
            PollStep::Pending
        }
    }

    /// One poll while draining, after the inner stream ended: a buffered
    /// value is flushed exactly once, off-tick, and the next poll signals
    /// exhaustion and terminates.
    pub fn flush(&mut self) -> (r: PollStep<T>)
        requires
            old(self).completion() == State::HasNone,
        ensures
            (match old(self).buffered() {
                Some(x) => final(self).completion() == State::HasNone && final(self).buffered()
                    == None::<T> && r == PollStep::Emit(x),
                None => final(self).completion() == State::Done && final(self).buffered()
                    == None::<T> && r == PollStep::<T>::Finished,
            }),
    {
        match self.item.take() {
            Some(x) => PollStep::Emit(x),
            None => {
                self.state = State::Done;
                PollStep::Finished
            },
        }
    }

    /// Whether the combinator still pulls its inner stream on a poll.
    pub fn is_pulling(&self) -> (r: bool)
        ensures
            r == (self.completion() == State::HasNext),
    {
        match self.state {
            State::HasNext => true,
            _ => false,
        }
    }

    /// Whether the combinator has terminated; polling it again is a caller
    /// defect.
    pub fn is_done(&self) -> (r: bool)
        ensures
            r == (self.completion() == State::Done),
    {
        match self.state {
            State::Done => true,
            _ => false,
        }
    }
}

/// Replays a finite stimulus script against the sampling combinator: each
/// `Value` is absorbed as a ready inner pull, each `Tick` is a poll in which
/// the inner stream was not ready and the timer fired, and at the end the
/// inner stream's exhaustion is absorbed and the combinator drained.
pub fn run_debounce<T>(script: Vec<DebounceEvent<T>>) -> (out: Vec<T>)
    ensures
        out@ == debounce_model(script@),
{
    let ghost orig: Seq<DebounceEvent<T>> = script@;
    let mut script = script;
    let mut m = DebounceTime::<T>::new();
    let mut out: Vec<T> = Vec::new();
    let n: usize = script.len();
    let mut i: usize = 0;
    while i < n
        invariant
            n == orig.len(),
            i <= n,
            script@ == orig.subrange(i as int, n as int),
            m.completion() == State::HasNext,
            out@ == debounce_fold(orig.take(i as int)).0,
            m.buffered() == debounce_fold(orig.take(i as int)).1,
        decreases n - i,
    {
        let ev = script.remove(0);
        let ghost gev = ev;
        proof {
            assert(gev == orig[i as int]);
            assert(orig.take(i + 1) =~= orig.take(i as int).push(gev));
            assert((orig.take(i as int).push(gev)).drop_last() =~= orig.take(i as int));
        }
        match ev {
            DebounceEvent::Value(v) => {
                m.absorb(Pulled::Item(v));
            },
            DebounceEvent::Tick => {
                m.absorb(Pulled::Pending);
                match m.on_tick(true) {
                    PollStep::Emit(v) => {
                        out.push(v);
                    },
                    _ => {},
                }
            },
        }
        i = i + 1;
    }
    proof {
        assert(orig.take(n as int) =~= orig);
    }
    m.absorb(Pulled::Exhausted);
    match m.flush() {
        PollStep::Emit(v) => {
            out.push(v);
            let _ = m.flush();
        },
        _ => {},
    }
    out
}

} // verus!
