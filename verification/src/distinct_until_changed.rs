use vstd::prelude::*;
use vstd::std_specs::cmp::PartialEqSpec;

use crate::state::PollStep;
use crate::state::Pulled;
use crate::state::State;
use crate::subsequence::is_subsequence_of;
use crate::subsequence::lemma_subseq_drop_last;

verus! {

/// Mathematical model of adjacent-duplicate suppression: every maximal run of
/// consecutive values that compare equal collapses to its final element, and
/// the relative order of the surviving elements is that of the input.
pub open spec fn dedup_adjacent<T: PartialEq>(s: Seq<T>) -> Seq<T>
    decreases s.len(),
{
    if s.len() == 0 {
        Seq::empty()
    } else if s.len() == 1 {
        seq![s[0]]
    } else {
        let rest = dedup_adjacent(s.drop_last());
        if s[s.len() - 1].eq_spec(&s[s.len() - 2]) {
            rest.update(rest.len() - 1, s.last())
        } else {
            rest.push(s.last())
        }
    }
}

/// Suppressing adjacent duplicates never loses the final element, never
/// produces more elements than it was given, and yields nothing only on
/// empty input.
pub proof fn lemma_dedup_adjacent_last<T: PartialEq>(s: Seq<T>)
    requires
        s.len() > 0,
    ensures
        dedup_adjacent(s).len() >= 1,
        dedup_adjacent(s).len() <= s.len(),
        dedup_adjacent(s).last() == s.last(),
    decreases s.len(),
{
    if s.len() > 1 {
        lemma_dedup_adjacent_last(s.drop_last());
    }
}

/// Empty input yields empty output.
pub proof fn lemma_dedup_adjacent_empty<T: PartialEq>()
    ensures
        dedup_adjacent(Seq::<T>::empty()) == Seq::<T>::empty(),
{
}

/// A single value passes through unchanged, followed only by exhaustion.
pub proof fn lemma_dedup_adjacent_single<T: PartialEq>(x: T)
    ensures
        dedup_adjacent(seq![x]) == seq![x],
{
    assert(dedup_adjacent(seq![x]) =~= seq![x]);
}

/// No two consecutive elements of `s` compare equal.
pub open spec fn no_adjacent_dup<T: PartialEq>(s: Seq<T>) -> bool {
    forall|i: int| 0 < i < s.len() ==> !(#[trigger] s[i].eq_spec(&s[i - 1]))
}

/// When equality behaves as an equivalence relation, the output of
/// adjacent-duplicate suppression contains no two consecutive equal elements.
pub proof fn lemma_dedup_adjacent_no_dup<T: PartialEq>(s: Seq<T>)
    requires
        vstd::laws_eq::obeys_eq::<T>(),
    ensures
        no_adjacent_dup(dedup_adjacent(s)),
    decreases s.len(),
{
    reveal(vstd::laws_eq::obeys_eq_spec_properties);
    if s.len() > 1 {
        lemma_dedup_adjacent_no_dup(s.drop_last());
        lemma_dedup_adjacent_last(s.drop_last());
        let rest = dedup_adjacent(s.drop_last());
        let d = dedup_adjacent(s);
        if s[s.len() - 1].eq_spec(&s[s.len() - 2]) {
            assert forall|i: int| 0 < i < d.len() implies !(#[trigger] d[i].eq_spec(
                &d[i - 1],
            )) by {
                if i == d.len() - 1 && i > 0 {
                    assert(rest[i - 1] == d[i - 1]);
                    assert(!rest[i].eq_spec(&rest[i - 1]));
                    assert(rest[i] == s[s.len() - 2]);
                }
            }
        }
    }
}

/// Input that already holds no adjacent duplicates passes through
/// adjacent-duplicate suppression unchanged.
pub proof fn lemma_dedup_adjacent_fixed<T: PartialEq>(s: Seq<T>)
    requires
        no_adjacent_dup(s),
    ensures
        dedup_adjacent(s) == s,
    decreases s.len(),
{
    if s.len() == 0 {
        assert(dedup_adjacent(s) =~= s);
    } else if s.len() == 1 {
        assert(dedup_adjacent(s) =~= s);
    } else {
        lemma_dedup_adjacent_fixed(s.drop_last());
        assert(dedup_adjacent(s) =~= s);
    }
}

/// Adjacent-duplicate suppression is idempotent: applying it to its own
/// output changes nothing, provided equality is an equivalence relation.
pub proof fn lemma_dedup_adjacent_idempotent<T: PartialEq>(s: Seq<T>)
    requires
        vstd::laws_eq::obeys_eq::<T>(),
    ensures
        dedup_adjacent(dedup_adjacent(s)) == dedup_adjacent(s),
{
    lemma_dedup_adjacent_no_dup(s);
    lemma_dedup_adjacent_fixed(dedup_adjacent(s));
}

/// Adjacent-duplicate suppression preserves order and invents nothing: its
/// output can be obtained from the input by deleting elements.
pub proof fn lemma_dedup_adjacent_subsequence<T: PartialEq>(s: Seq<T>)
    ensures
        is_subsequence_of(dedup_adjacent(s), s),
    decreases s.len(),
{
    if s.len() == 0 {
    } else if s.len() == 1 {
        assert(seq![s[0]].drop_last() =~= Seq::<T>::empty());
        assert(is_subsequence_of(Seq::<T>::empty(), s.drop_last()));
        assert(seq![s[0]].last() == s.last());
        assert(is_subsequence_of(seq![s[0]], s));
    } else {
        lemma_dedup_adjacent_subsequence(s.drop_last());
        lemma_dedup_adjacent_last(s.drop_last());
        let t = s.drop_last();
        let d = dedup_adjacent(t);
        if s[s.len() - 1].eq_spec(&s[s.len() - 2]) {
            lemma_subseq_drop_last(d, t);
            let d2 = d.update(d.len() - 1, s.last());
            assert(dedup_adjacent(s) == d2);
            assert(d2.len() > 0 && d2.last() == s.last());
            assert(d2.drop_last() =~= d.drop_last());
            assert(is_subsequence_of(d2.drop_last(), s.drop_last()));
            assert(is_subsequence_of(d2, s));
        } else {
            assert((d.push(s.last())).drop_last() =~= d);
            assert(is_subsequence_of(d.push(s.last()), s));
        }
    }
}

/// A reading whose equality looks only at its channel: consecutive readings
/// of one channel form a run even when their payloads differ, so suppression
/// keeps the payload of the run's last reading.
#[derive(Clone, Copy, Debug)]
pub struct Reading {
    pub channel: u32,
    pub payload: u32,
}

impl PartialEq for Reading {
    fn eq(&self, other: &Reading) -> (r: bool) {
        self.channel == other.channel
    }
}

impl vstd::std_specs::cmp::PartialEqSpecImpl for Reading {
    open spec fn obeys_eq_spec() -> bool {
        true
    }

    open spec fn eq_spec(&self, other: &Reading) -> bool {
        self.channel == other.channel
    }
}

/// Collapses runs of consecutive equal values to their last occurrence: a
/// freshly arrived value is held back, and the previously held value is
/// emitted only once a value that differs from it (or exhaustion) follows.
#[derive(Debug)]
pub struct DistinctUntilChanged<T> {
    prev: Option<T>,
    state: State,
}

impl<T> DistinctUntilChanged<T> {
    /// Completion marker of this combinator.
    pub closed spec fn completion(self) -> State {
        self.state
    }

    /// The value currently held back, pending a differing successor or
    /// exhaustion of the inner stream.
    pub closed spec fn held(self) -> Option<T> {
        self.prev
    }

    pub fn new() -> (r: Self)
        ensures
            r.completion() == State::HasNext,
            r.held() == None::<T>,
    {
        DistinctUntilChanged { prev: None, state: State::HasNext }
    }

    /// Final poll once the inner stream has ended and the last held value was
    /// already handed out: signals exhaustion and terminates.
    pub fn finish(&mut self) -> (r: PollStep<T>)
        requires
            old(self).completion() == State::HasNone,
        ensures
            final(self).completion() == State::Done,
            final(self).held() == old(self).held(),
            r == PollStep::<T>::Finished,
    {
        self.state = State::Done;
        PollStep::Finished
    }

    /// Whether the combinator still pulls its inner stream on a poll.
    pub fn is_pulling(&self) -> (r: bool)
        ensures
            r == (self.completion() == State::HasNext),
    {
        match self.state {
            State::HasNext => true,
            _ => false,
        }
    }

    /// Whether the combinator has terminated; polling it again is a caller
    /// defect.
    pub fn is_done(&self) -> (r: bool)
        ensures
            r == (self.completion() == State::Done),
    {
        match self.state {
            State::Done => true,
            _ => false,
        }
    }
}

impl<T: PartialEq> DistinctUntilChanged<T> {
    /// One poll while values may still arrive, fed with the outcome of
    /// pulling the inner stream once.  `Retry` asks the caller to poll again
    /// at once; a held value is emitted exactly when a differing value
    /// arrives, or when the inner stream ends.
    pub fn poll_step(&mut self, pulled: Pulled<T>) -> (r: PollStep<T>)
        requires
            old(self).completion() == State::HasNext,
            T::obeys_eq_spec(),
        ensures
            (match pulled {
                Pulled::Pending => {
                    &&& *final(self) == *old(self)
                    &&& r == PollStep::<T>::Pending
                },
                Pulled::Item(x) => {
                    &&& final(self).completion() == State::HasNext
                    &&& final(self).held() == Some(x)
                    &&& (match old(self).held() {
                        None => r == PollStep::<T>::Retry,
                        Some(p) => if x.eq_spec(&p) {
                            r == PollStep::<T>::Retry
                        } else {
                            r == PollStep::Emit(p)
                        },
                    })
                },
                Pulled::Exhausted => {
                    &&& final(self).held() == None::<T>
                    &&& (match old(self).held() {
                        Some(p) => final(self).completion() == State::HasNone
                            && r == PollStep::Emit(p),
                        None => final(self).completion() == State::Done
                            && r == PollStep::<T>::Finished,
                    })
                },
            }),
    {
        match pulled {
            Pulled::Pending => PollStep::Pending,
            Pulled::Item(next) => {
                match self.prev.take() {
                    Some(p) => {
                        if next == p {
                            self.prev = Some(next);
                            PollStep::Retry
                        } else {
                            self.prev = Some(next);
                            PollStep::Emit(p)
                        }
                    },
                    None => {
                        self.prev = Some(next);
                        PollStep::Retry
                    },
                }
            },
            Pulled::Exhausted => {
                match self.prev.take() {
                    Some(p) => {
                        self.state = State::HasNone;
                        PollStep::Emit(p)
                    },
                    None => {
                        self.state = State::Done;
                        PollStep::Finished
                    },
                }
            },
        }
    }
}

/// Applies adjacent-duplicate suppression to a finite, fully available
/// input: the output is exactly what the combinator emits once its inner
/// stream has yielded these values in order and then ended.
pub fn run_distinct_until_changed<T: PartialEq>(input: Vec<T>) -> (out: Vec<T>)
    requires
        T::obeys_eq_spec(),
    ensures
        out@ == dedup_adjacent(input@),
{
    let ghost orig: Seq<T> = input@;
    let mut input = input;
    let mut m = DistinctUntilChanged::<T>::new();
    let mut out: Vec<T> = Vec::new();
    let n: usize = input.len();
    let mut i: usize = 0;
    while i < n
        invariant
            T::obeys_eq_spec(),
            n == orig.len(),
            i <= n,
            input@ == orig.subrange(i as int, n as int),
            m.completion() == State::HasNext,
            i == 0 ==> m.held() == None::<T> && out@ == Seq::<T>::empty(),
            i > 0 ==> (m.held() matches Some(p)
                && dedup_adjacent(orig.take(i as int)) == out@.push(p)),
        decreases n - i,
    {
        let x = input.remove(0);
        let ghost gx = x;
        let ghost prefix = orig.take(i as int);
        proof {
            assert(gx == orig[i as int]);
            assert(orig.take(i + 1) =~= prefix.push(gx));
            assert((prefix.push(gx)).drop_last() =~= prefix);
            if i > 0 {
                lemma_dedup_adjacent_last(prefix);
            }
        }
        let r = m.poll_step(Pulled::Item(x));
        match r {
            PollStep::Emit(v) => {
                out.push(v);
            },
            _ => {},
        }
        proof {
            let cur = dedup_adjacent(orig.take(i + 1));
            if i == 0 {
                assert(cur =~= out@.push(gx));
            } else if gx.eq_spec(&prefix.last()) {
                assert(cur =~= out@.push(gx));
            } else {
                assert(cur =~= out@.push(gx));
            }
        }
        i = i + 1;
    }
    proof {
        assert(orig.take(n as int) =~= orig);
    }
    match m.poll_step(Pulled::Exhausted) {
        PollStep::Emit(v) => {
            out.push(v);
            let _ = m.finish();
        },
        _ => {},
    }
    out
}

} // verus!
