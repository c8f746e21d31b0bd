mod debounce_time;
mod distinct;
mod distinct_until_changed;
mod item_key;
mod state;
mod subsequence;

pub use debounce_time::debounce_fold;
pub use debounce_time::debounce_model;
pub use debounce_time::lemma_debounce_empty;
pub use debounce_time::lemma_debounce_subsequence;
pub use debounce_time::run_debounce;
pub use debounce_time::values_of;
pub use debounce_time::DebounceEvent;
pub use debounce_time::DebounceTime;
pub use distinct::distinct_keyed;
pub use distinct::key_seen;
pub use distinct::keys_of;
pub use distinct::lemma_distinct_keyed_covers;
pub use distinct::lemma_distinct_keyed_empty;
pub use distinct::lemma_distinct_keyed_first_occurrence;
pub use distinct::lemma_distinct_keyed_fixed;
pub use distinct::lemma_distinct_keyed_idempotent;
pub use distinct::lemma_distinct_keyed_members;
pub use distinct::lemma_distinct_keyed_single;
pub use distinct::lemma_distinct_keyed_subsequence;
pub use distinct::lemma_distinct_keyed_unique;
pub use distinct::run_distinct;
pub use distinct::Distinct;
pub use distinct_until_changed::dedup_adjacent;
pub use distinct_until_changed::lemma_dedup_adjacent_empty;
pub use distinct_until_changed::lemma_dedup_adjacent_fixed;
pub use distinct_until_changed::lemma_dedup_adjacent_idempotent;
pub use distinct_until_changed::lemma_dedup_adjacent_last;
pub use distinct_until_changed::lemma_dedup_adjacent_no_dup;
pub use distinct_until_changed::lemma_dedup_adjacent_single;
pub use distinct_until_changed::lemma_dedup_adjacent_subsequence;
pub use distinct_until_changed::no_adjacent_dup;
pub use distinct_until_changed::run_distinct_until_changed;
pub use distinct_until_changed::DistinctUntilChanged;
pub use distinct_until_changed::Reading;
pub use item_key::ItemKey;
pub use item_key::Keyed;
pub use state::PollStep;
pub use state::Pulled;
pub use state::State;
pub use subsequence::is_subsequence_of;
pub use subsequence::lemma_subseq_drop_last;
pub use subsequence::lemma_subseq_extend;
