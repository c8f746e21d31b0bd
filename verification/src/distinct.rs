use vstd::prelude::*;
use vstd::std_specs::cmp::PartialEqSpec;

use crate::item_key::ItemKey;
use crate::state::PollStep;
use crate::state::Pulled;
use crate::state::State;
use crate::subsequence::is_subsequence_of;
use crate::subsequence::lemma_subseq_extend;

verus! {

/// Whether some key in `ks` compares equal to `k`.
pub open spec fn key_seen<K: PartialEq>(ks: Seq<K>, k: K) -> bool {
    exists|i: int| 0 <= i < ks.len() && ks[i].eq_spec(&k)
}

/// The identity keys of a sequence of items, in order.
pub open spec fn keys_of<T: ItemKey>(s: Seq<T>) -> Seq<T::Key> {
    s.map_values(|x: T| x.key_spec())
}

/// Mathematical model of global-duplicate suppression: an item survives
/// exactly when its identity key compares equal to no key of an earlier
/// surviving item, so each key class is represented by its first arrival,
/// in arrival order.
pub open spec fn distinct_keyed<T: ItemKey>(s: Seq<T>) -> Seq<T>
    decreases s.len(),
{
    if s.len() == 0 {
        Seq::empty()
    } else {
        let d = distinct_keyed(s.drop_last());
        if key_seen(keys_of(d), s.last().key_spec()) {
            d
        } else {
            d.push(s.last())
        }
    }
}

/// Empty input yields empty output.
pub proof fn lemma_distinct_keyed_empty<T: ItemKey>()
    ensures
        distinct_keyed(Seq::<T>::empty()) == Seq::<T>::empty(),
{
}

/// A single item passes through unchanged, followed only by exhaustion.
pub proof fn lemma_distinct_keyed_single<T: ItemKey>(x: T)
    ensures
        distinct_keyed(seq![x]) == seq![x],
{
    let s = seq![x];
    assert(s.drop_last() =~= Seq::<T>::empty());
    assert(keys_of(distinct_keyed(s.drop_last())).len() == 0);
    assert(!key_seen(keys_of(distinct_keyed(s.drop_last())), s.last().key_spec()));
    assert(distinct_keyed(s) == distinct_keyed(s.drop_last()).push(s.last()));
    assert(distinct_keyed(s) =~= s);
}

/// The keys of the surviving items are pairwise unequal: each distinct key
/// occurs exactly once in the output.
pub proof fn lemma_distinct_keyed_unique<T: ItemKey>(s: Seq<T>)
    ensures
        forall|a: int, b: int|
            0 <= a < b < distinct_keyed(s).len() ==> !(#[trigger] distinct_keyed(
                s,
            )[a].key_spec().eq_spec(&distinct_keyed(s)[b].key_spec())),
    decreases s.len(),
{
    if s.len() > 0 {
        lemma_distinct_keyed_unique(s.drop_last());
        let d = distinct_keyed(s.drop_last());
        if !key_seen(keys_of(d), s.last().key_spec()) {
            assert forall|a: int, b: int|
                0 <= a < b < distinct_keyed(s).len() implies !(#[trigger] distinct_keyed(
                s,
            )[a].key_spec().eq_spec(&distinct_keyed(s)[b].key_spec())) by {
                if b == d.len() {
                    assert(keys_of(d)[a] == d[a].key_spec());
                }
            }
        }
    }
}

/// Every surviving item is one of the input items.
pub proof fn lemma_distinct_keyed_members<T: ItemKey>(s: Seq<T>)
    ensures
        forall|j: int|
            0 <= j < distinct_keyed(s).len() ==> s.contains(#[trigger] distinct_keyed(s)[j]),
    decreases s.len(),
{
    if s.len() > 0 {
        lemma_distinct_keyed_members(s.drop_last());
        assert forall|j: int|
            0 <= j < distinct_keyed(s).len() implies s.contains(
            #[trigger] distinct_keyed(s)[j],
        ) by {
            let d = distinct_keyed(s.drop_last());
            if j < d.len() {
                let i = choose|i: int| 0 <= i < s.drop_last().len() && s.drop_last()[i] == d[j];
                assert(s[i] == d[j]);
            } else {
                assert(s[s.len() - 1] == distinct_keyed(s)[j]);
            }
        }
    }
}

/// Every item that is the first of its key class — no earlier input item's
/// key compares equal to its own — survives suppression.
pub proof fn lemma_distinct_keyed_first_occurrence<T: ItemKey>(s: Seq<T>)
    ensures
        forall|j: int|
            0 <= j < s.len() && !key_seen(keys_of(s.take(j)), s[j].key_spec())
                ==> distinct_keyed(s).contains(#[trigger] s[j]),
    decreases s.len(),
{
    if s.len() > 0 {
        lemma_distinct_keyed_first_occurrence(s.drop_last());
        lemma_distinct_keyed_members(s.drop_last());
        let t = s.drop_last();
        let d = distinct_keyed(t);
        let dd = distinct_keyed(s);
        assert forall|j: int|
            0 <= j < s.len() && !key_seen(keys_of(s.take(j)), s[j].key_spec()) implies dd.contains(
            #[trigger] s[j],
        ) by {
            if j < s.len() - 1 {
                assert(s.take(j) =~= t.take(j));
                assert(t[j] == s[j]);
                assert(d.contains(s[j]));
                let w = choose|w: int| 0 <= w < d.len() && d[w] == s[j];
                if !key_seen(keys_of(d), s.last().key_spec()) {
                    assert(dd[w] == s[j]);
                }
            } else {
                assert(s.take(j) =~= t);
                if key_seen(keys_of(d), s.last().key_spec()) {
                    let i = choose|i: int|
                        0 <= i < keys_of(d).len() && keys_of(d)[i].eq_spec(&s.last().key_spec());
                    assert(t.contains(d[i]));
                    let w = choose|w: int| 0 <= w < t.len() && t[w] == d[i];
                    assert(keys_of(t)[w] == d[i].key_spec());
                    assert(keys_of(t)[w].eq_spec(&s.last().key_spec()));
                    assert(false);
                } else {
                    assert(dd[d.len() as int] == s.last());
                }
            }
        }
    }
}

/// Global-duplicate suppression preserves order and invents nothing: its
/// output can be obtained from the input by deleting elements.
pub proof fn lemma_distinct_keyed_subsequence<T: ItemKey>(s: Seq<T>)
    ensures
        is_subsequence_of(distinct_keyed(s), s),
    decreases s.len(),
{
    if s.len() > 0 {
        lemma_distinct_keyed_subsequence(s.drop_last());
        let t = s.drop_last();
        let d = distinct_keyed(t);
        if key_seen(keys_of(d), s.last().key_spec()) {
            lemma_subseq_extend(d, t, s.last());
            assert(t.push(s.last()) =~= s);
        } else {
            assert((d.push(s.last())).drop_last() =~= d);
        }
    }
}

/// Input whose keys are already pairwise unequal passes through
/// global-duplicate suppression unchanged.
pub proof fn lemma_distinct_keyed_fixed<T: ItemKey>(s: Seq<T>)
    requires
        forall|a: int, b: int|
            0 <= a < b < s.len() ==> !(#[trigger] s[a].key_spec().eq_spec(&s[b].key_spec())),
    ensures
        distinct_keyed(s) == s,
    decreases s.len(),
{
    if s.len() == 0 {
        assert(distinct_keyed(s) =~= s);
    } else {
        lemma_distinct_keyed_fixed(s.drop_last());
        let t = s.drop_last();
        assert(!key_seen(keys_of(t), s.last().key_spec())) by {
            if key_seen(keys_of(t), s.last().key_spec()) {
                let i = choose|i: int|
                    0 <= i < keys_of(t).len() && keys_of(t)[i].eq_spec(&s.last().key_spec());
                assert(s[i].key_spec().eq_spec(&s[s.len() - 1].key_spec()));
            }
        }
        assert(distinct_keyed(s) =~= s);
    }
}

/// Global-duplicate suppression is idempotent: applying it to its own
/// output changes nothing.
pub proof fn lemma_distinct_keyed_idempotent<T: ItemKey>(s: Seq<T>)
    ensures
        distinct_keyed(distinct_keyed(s)) == distinct_keyed(s),
{
    lemma_distinct_keyed_unique(s);
    lemma_distinct_keyed_fixed(distinct_keyed(s));
}

/// When key equality is reflexive, symmetric and transitive, every input
/// item's key is represented in the output: nothing is dropped except later
/// arrivals of an already-seen key.
pub proof fn lemma_distinct_keyed_covers<T: ItemKey>(s: Seq<T>)
    requires
        forall|k: T::Key| #[trigger] k.eq_spec(&k),
        vstd::laws_eq::obeys_eq::<T::Key>(),
    ensures
        forall|j: int|
            0 <= j < s.len() ==> key_seen(keys_of(distinct_keyed(s)), #[trigger] s[j].key_spec()),
    decreases s.len(),
{
    reveal(vstd::laws_eq::obeys_eq_spec_properties);
    if s.len() > 0 {
        lemma_distinct_keyed_covers(s.drop_last());
        let t = s.drop_last();
        let d = distinct_keyed(t);
        let dd = distinct_keyed(s);
        assert forall|j: int| 0 <= j < s.len() implies key_seen(
            keys_of(dd),
            #[trigger] s[j].key_spec(),
        ) by {
            if j < s.len() - 1 {
                assert(t[j] == s[j]);
                assert(key_seen(keys_of(d), s[j].key_spec()));
                let i = choose|i: int|
                    0 <= i < keys_of(d).len() && keys_of(d)[i].eq_spec(&s[j].key_spec());
                assert(keys_of(dd)[i] == keys_of(d)[i]);
            } else {
                if key_seen(keys_of(d), s.last().key_spec()) {
                    let i = choose|i: int|
                        0 <= i < keys_of(d).len() && keys_of(d)[i].eq_spec(&s.last().key_spec());
                    assert(keys_of(dd)[i] == keys_of(d)[i]);
                } else {
                    assert(keys_of(dd)[d.len() as int] == s.last().key_spec());
                    assert(s.last().key_spec().eq_spec(&s.last().key_spec()));
                }
            }
        }
    }
}

/// Whether some key of `ks` compares equal to `k`, decided by a linear scan
/// with the key type's own equality.
fn seen_contains<K: PartialEq + Eq + core::hash::Hash>(ks: &Vec<K>, k: &K) -> (r: bool)
    requires
        K::obeys_eq_spec(),
    ensures
        r == key_seen(ks@, *k),
{
    let mut j: usize = 0;
    while j < ks.len()
        invariant
            K::obeys_eq_spec(),
            j <= ks.len(),
            forall|t: int| 0 <= t < j ==> !(#[trigger] ks@[t].eq_spec(k)),
        decreases ks.len() - j,
    {
        if ks[j] == *k {
            return true;
        }
        j = j + 1;
    }
    false
}

/// Emits only the first arrival of each identity key, suppressing every
/// later item whose key was seen before; the set of seen keys grows for the
/// life of the stream.
#[derive(Debug)]
pub struct Distinct<T: ItemKey> {
    items: Vec<T::Key>,
    state: State,
}

impl<T: ItemKey> Distinct<T> {
    /// Completion marker of this combinator.
    pub closed spec fn completion(self) -> State {
        self.state
    }

    /// The identity keys seen so far, in order of first arrival.
    pub closed spec fn seen(self) -> Seq<T::Key> {
        self.items@
    }

    pub fn new() -> (r: Self)
        ensures
            r.completion() == State::HasNext,
            r.seen() == Seq::<T::Key>::empty(),
    {
        Distinct { items: Vec::new(), state: State::HasNext }
    }

    /// One poll, fed with the outcome of pulling the inner stream once.  An
    /// item with a novel key is emitted and its key recorded; one with an
    /// already-seen key is discarded with an immediate retry, so suppression
    /// alone never surfaces as "not ready".
    pub fn poll_step(&mut self, pulled: Pulled<T>) -> (r: PollStep<T>)
        requires
            old(self).completion() == State::HasNext,
            <T::Key as PartialEqSpec>::obeys_eq_spec(),
        ensures
            (match pulled {
                Pulled::Pending => {
                    &&& *final(self) == *old(self)
                    &&& r == PollStep::<T>::Pending
                },
                Pulled::Item(x) => {
                    &&& final(self).completion() == State::HasNext
                    &&& (if key_seen(old(self).seen(), x.key_spec()) {
                        final(self).seen() == old(self).seen() && r == PollStep::<T>::Retry
                    } else {
                        final(self).seen() == old(self).seen().push(x.key_spec()) && r
                            == PollStep::Emit(x)
                    })
                },
                Pulled::Exhausted => {
                    &&& final(self).completion() == State::Done
                    &&& final(self).seen() == old(self).seen()
                    &&& r == PollStep::<T>::Finished
                },
            }),
    {
        match pulled {
            Pulled::Pending => PollStep::Pending,
            Pulled::Item(x) => {
                let k = x.key();
                if seen_contains(&self.items, &k) {
                    PollStep::Retry
                } else {
                    self.items.push(k);
                    PollStep::Emit(x)
                }
            },
            Pulled::Exhausted => {
                self.state = State::Done;
                PollStep::Finished
            },
        }
    }

    /// Whether the combinator has terminated; polling it again is a caller
    /// defect.
    pub fn is_done(&self) -> (r: bool)
        ensures
            r == (self.completion() == State::Done),
    {
        match self.state {
            State::Done => true,
            _ => false,
        }
    }
}

/// Applies global-duplicate suppression to a finite, fully available input:
/// the output is exactly what the combinator emits once its inner stream has
/// yielded these values in order and then ended.
pub fn run_distinct<T: ItemKey>(input: Vec<T>) -> (out: Vec<T>)
    requires
        <T::Key as PartialEqSpec>::obeys_eq_spec(),
    ensures
        out@ == distinct_keyed(input@),
{
    let ghost orig: Seq<T> = input@;
    let mut input = input;
    let mut m = Distinct::<T>::new();
    let mut out: Vec<T> = Vec::new();
    let n: usize = input.len();
    let mut i: usize = 0;
    while i < n
        invariant
            <T::Key as PartialEqSpec>::obeys_eq_spec(),
            n == orig.len(),
            i <= n,
            input@ == orig.subrange(i as int, n as int),
            m.completion() == State::HasNext,
            out@ == distinct_keyed(orig.take(i as int)),
            m.seen() == keys_of(out@),
        decreases n - i,
    {
        let x = input.remove(0);
        let ghost gx = x;
        let ghost prefix = orig.take(i as int);
        proof {
            assert(gx == orig[i as int]);
            assert(orig.take(i + 1) =~= prefix.push(gx));
            assert((prefix.push(gx)).drop_last() =~= prefix);
        }
        let r = m.poll_step(Pulled::Item(x));
        match r {
            PollStep::Emit(v) => {
                out.push(v);
            },
            _ => {},
        }
        proof {
            if !key_seen(keys_of(distinct_keyed(prefix)), gx.key_spec()) {
                assert(keys_of(distinct_keyed(prefix).push(gx)) =~= keys_of(
                    distinct_keyed(prefix),
                ).push(gx.key_spec()));
            }
        }
        i = i + 1;
    }
    proof {
        assert(orig.take(n as int) =~= orig);
    }
    let _ = m.poll_step(Pulled::Exhausted);
    out
}

} // verus!
