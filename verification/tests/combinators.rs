use stream_ops::run_debounce;
use stream_ops::run_distinct;
use stream_ops::run_distinct_until_changed;
use stream_ops::DebounceEvent;
use stream_ops::Keyed;
use stream_ops::Reading;

fn todo(id: u32, title: &str) -> Keyed<u32, String> {
    Keyed { key: id, value: title.to_string() }
}

#[test]
fn distinct_until_changed_should_work() {
    let out = run_distinct_until_changed(vec![1, 1, 2, 3, 3, 3, 4, 4, 4, 4, 5]);
    assert_eq!(out, vec![1, 2, 3, 4, 5]);
}

#[test]
fn distinct_until_changed_empty_should_work() {
    let out = run_distinct_until_changed(Vec::<i32>::new());
    assert_eq!(out, Vec::<i32>::new());
}

#[test]
fn distinct_until_changed_one_should_work() {
    let out = run_distinct_until_changed(vec![1]);
    assert_eq!(out, vec![1]);
}

#[test]
fn distinct_until_changed_with_interval_should_work() {
    let out = run_distinct_until_changed(vec![1usize; 30]);
    assert_eq!(out, vec![1usize]);
}

#[test]
fn distinct_until_changed_keeps_last_of_run() {
    let reading = |channel: u32, payload: u32| Reading { channel, payload };
    let out = run_distinct_until_changed(vec![
        reading(1, 10),
        reading(1, 20),
        reading(2, 30),
    ]);
    assert_eq!(out.len(), 2);
    assert_eq!(out[0].channel, 1);
    assert_eq!(out[0].payload, 20);
    assert_eq!(out[1].channel, 2);
    assert_eq!(out[1].payload, 30);
}

#[test]
fn distinct_until_changed_is_idempotent_on_samples() {
    let input = vec![7, 7, 7, 2, 2, 9, 9, 9, 9, 2];
    let once = run_distinct_until_changed(input);
    let twice = run_distinct_until_changed(once.clone());
    assert_eq!(once, twice);
    assert_eq!(once, vec![7, 2, 9, 2]);
}

#[test]
fn distinct_should_work() {
    let out = run_distinct(vec![1, 1, 2, 2, 2, 1, 2, 3, 4, 3, 2, 1]);
    assert_eq!(out, vec![1, 2, 3, 4]);
}

#[test]
fn distinct_empty_should_work() {
    let out = run_distinct(Vec::<i32>::new());
    assert_eq!(out, Vec::<i32>::new());
}

#[test]
fn distinct_one_should_work() {
    let out = run_distinct(vec![1]);
    assert_eq!(out, vec![1]);
}

#[test]
fn distinct_with_todos_should_work() {
    let out = run_distinct(vec![
        todo(1, "Buy milk"),
        todo(2, "Buy eggs"),
        todo(1, "Buy more milk"),
        todo(3, "Buy bread"),
        todo(2, "Buy more eggs"),
    ]);
    assert_eq!(
        out,
        vec![todo(1, "Buy milk"), todo(2, "Buy eggs"), todo(3, "Buy bread")]
    );
}

#[test]
fn distinct_with_string_items() {
    let words: Vec<String> = vec!["a", "b", "a", "c", "b"]
        .into_iter()
        .map(|w| w.to_string())
        .collect();
    let out = run_distinct(words);
    assert_eq!(out, vec!["a".to_string(), "b".to_string(), "c".to_string()]);
}

#[test]
fn distinct_is_idempotent_on_samples() {
    let input = vec![5, 3, 5, 5, 8, 3, 8, 1];
    let once = run_distinct(input);
    let twice = run_distinct(once.clone());
    assert_eq!(once, twice);
    assert_eq!(once, vec![5, 3, 8, 1]);
}

#[test]
fn debounce_time_should_work() {
    let mut script: Vec<DebounceEvent<usize>> = Vec::new();
    script.push(DebounceEvent::Value(1));
    script.push(DebounceEvent::Tick);
    for v in 2..=11 {
        script.push(DebounceEvent::Value(v));
    }
    script.push(DebounceEvent::Tick);
    for v in 12..=21 {
        script.push(DebounceEvent::Value(v));
    }
    script.push(DebounceEvent::Tick);
    for v in 22..=30 {
        script.push(DebounceEvent::Value(v));
    }
    let out = run_debounce(script);
    assert_eq!(out, vec![1, 11, 21, 30]);
}

#[test]
fn debounce_time_should_work_with_empty_stream() {
    let out = run_debounce(Vec::<DebounceEvent<usize>>::new());
    assert_eq!(out, Vec::<usize>::new());
}

#[test]
fn debounce_empty_tick_emits_nothing() {
    let script = vec![
        DebounceEvent::Tick,
        DebounceEvent::Value(4),
        DebounceEvent::Tick,
        DebounceEvent::Tick,
        DebounceEvent::Value(9),
    ];
    let out = run_debounce(script);
    assert_eq!(out, vec![4, 9]);
}

#[test]
fn debounce_keeps_only_newest_between_ticks() {
    let script = vec![
        DebounceEvent::Value(1),
        DebounceEvent::Value(2),
        DebounceEvent::Value(3),
        DebounceEvent::Tick,
        DebounceEvent::Value(4),
    ];
    let out = run_debounce(script);
    assert_eq!(out, vec![3, 4]);
}

#[test]
fn debounce_output_is_subsequence_of_values() {
    let script = vec![
        DebounceEvent::Value(10),
        DebounceEvent::Value(20),
        DebounceEvent::Tick,
        DebounceEvent::Value(30),
        DebounceEvent::Tick,
        DebounceEvent::Value(40),
        DebounceEvent::Value(50),
    ];
    let values: Vec<i64> = vec![10, 20, 30, 40, 50];
    let out = run_debounce(script);
    assert_eq!(out, vec![20, 30, 50]);
    let mut pos: usize = 0;
    for v in &out {
        while pos < values.len() && values[pos] != *v {
            pos += 1;
        }
        assert!(pos < values.len(), "emitted value not found in order");
        pos += 1;
    }
}
