use vstd::prelude::*;

verus! {

/// Lifecycle marker of a combinator: whether its inner source may still yield
/// values (`HasNext`), has signalled exhaustion while buffered output may
/// remain to flush (`HasNone`), or has fully terminated (`Done`).
///
/// The marker only ever advances `HasNext` -> `HasNone` -> `Done`; `Done` is
/// terminal, and pulling a combinator again after it reached `Done` is a
/// caller defect, excluded by the `requires` of every poll method.
#[derive(Clone, Copy, Debug, PartialEq, Eq)]
pub enum State {
    HasNext,
    HasNone,
    Done,
}

/// Outcome of one pull on a source stream: a value is ready, the source is
/// exhausted for good, or nothing is ready yet (the puller will be notified).
#[derive(Clone, Copy, Debug, PartialEq, Eq)]
pub enum Pulled<T> {
    Item(T),
    Exhausted,
    Pending,
}

/// Outcome of one poll of a combinator, as seen by its own consumer.
///
/// `Emit` hands out the next value; `Finished` signals exhaustion; `Pending`
/// means the inner source (or timer) registered a wake-up; `Retry` means the
/// combinator made internal progress and should be polled again at once.
#[derive(Clone, Copy, Debug, PartialEq, Eq)]
pub enum PollStep<T> {
    Emit(T),
    Finished,
    Pending,
    Retry,
}

} // verus!
