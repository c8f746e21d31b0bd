use stream_ops::DebounceTime;
use stream_ops::Distinct;
use stream_ops::DistinctUntilChanged;
use stream_ops::PollStep;
use stream_ops::Pulled;

#[test]
fn distinct_until_changed_poll_protocol() {
    let mut m = DistinctUntilChanged::<i32>::new();
    assert!(m.is_pulling());
    assert!(!m.is_done());
    assert_eq!(m.poll_step(Pulled::Pending), PollStep::Pending);
    assert_eq!(m.poll_step(Pulled::Item(1)), PollStep::Retry);
    assert_eq!(m.poll_step(Pulled::Item(1)), PollStep::Retry);
    assert_eq!(m.poll_step(Pulled::Item(2)), PollStep::Emit(1));
    assert_eq!(m.poll_step(Pulled::Exhausted), PollStep::Emit(2));
    assert!(!m.is_pulling());
    assert!(!m.is_done());
    assert_eq!(m.finish(), PollStep::Finished);
    assert!(m.is_done());
}

#[test]
fn distinct_until_changed_exhausted_with_nothing_held() {
    let mut m = DistinctUntilChanged::<u8>::new();
    assert_eq!(m.poll_step(Pulled::Exhausted), PollStep::Finished);
    assert!(m.is_done());
}

#[test]
fn distinct_poll_protocol() {
    let mut m = Distinct::<i32>::new();
    assert!(!m.is_done());
    assert_eq!(m.poll_step(Pulled::Pending), PollStep::Pending);
    assert_eq!(m.poll_step(Pulled::Item(4)), PollStep::Emit(4));
    assert_eq!(m.poll_step(Pulled::Item(4)), PollStep::Retry);
    assert_eq!(m.poll_step(Pulled::Item(5)), PollStep::Emit(5));
    assert_eq!(m.poll_step(Pulled::Item(4)), PollStep::Retry);
    assert_eq!(m.poll_step(Pulled::Exhausted), PollStep::Finished);
    assert!(m.is_done());
}

#[test]
fn debounce_poll_protocol() {
    let mut m = DebounceTime::<i32>::new();
    assert!(m.is_pulling());
    m.absorb(Pulled::Item(1));
    m.absorb(Pulled::Item(2));
    assert_eq!(m.on_tick(false), PollStep::Pending);
    assert_eq!(m.on_tick(true), PollStep::Emit(2));
    assert_eq!(m.on_tick(true), PollStep::Pending);
    m.absorb(Pulled::Item(3));
    m.absorb(Pulled::Exhausted);
    assert!(!m.is_pulling());
    assert!(!m.is_done());
    assert_eq!(m.flush(), PollStep::Emit(3));
    assert_eq!(m.flush(), PollStep::Finished);
    assert!(m.is_done());
}
