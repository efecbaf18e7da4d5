//! The suitability score that ranks eligible workers for a rebalance.

use crate::model::{text_table, ShiftStart, Worker, WorkerView};
use vstd::hash_map::StringHashMap;
use vstd::prelude::*;

verus! {

/// The table holds `tag` under `key`.
pub open spec fn has_tag(table: Map<Seq<char>, Seq<char>>, key: Seq<char>, tag: Seq<char>) -> bool {
    table.contains_key(key) && table[key] == tag
}

/// The worker has said that they prefer mornings.
pub open spec fn prefers_mornings(w: WorkerView) -> bool {
    w.shift_preferences matches Some(prefs) && has_tag(prefs, "pref"@, "mornings"@)
}

/// The worker has said that they avoid nights.
pub open spec fn avoids_nights(w: WorkerView) -> bool {
    w.shift_preferences matches Some(prefs) && has_tag(prefs, "avoid"@, "nights"@)
}

/// The hours after which the worker counts as fatigued, if they have
/// declared a threshold at all; a threshold without `"max_hrs"` is 0.
pub open spec fn fatigue_limit(w: WorkerView) -> Option<int> {
    match w.fatigue_threshold {
        Some(threshold) => Some(
            if threshold.contains_key("max_hrs"@) {
                threshold["max_hrs"@]
            } else {
                0
            },
        ),
        None => None,
    }
}

/// The worker has worked more hours than their own threshold.
pub open spec fn is_fatigued(w: WorkerView) -> bool {
    fatigue_limit(w) matches Some(limit) && w.current_hours > limit
}

/// The score of a worker for a shift that starts at `hour`: 5 for a morning
/// start that the worker prefers, -5 for a night start that the worker
/// avoids, -8 for fatigue, and 0 for everything else.
pub open spec fn happiness(w: WorkerView, hour: int) -> int {
    (if prefers_mornings(w) && hour < 12 { 5int } else { 0 })
    + (if avoids_nights(w) && hour >= 18 { -5int } else { 0 })
    + (if is_fatigued(w) { -8int } else { 0 })
}

/// The score has no other source than the worker and the hour, and it stays
/// within -13 and 5.
pub proof fn lemma_happiness_is_a_function(w1: WorkerView, hour1: int, w2: WorkerView, hour2: int)
    requires
        w1 == w2,
        hour1 == hour2,
    ensures
        happiness(w1, hour1) == happiness(w2, hour2),
        -13 <= happiness(w1, hour1) <= 5,
{
}

/// Does the table hold `tag` under `key`?
fn holds_tag(table: &StringHashMap<String>, key: &str, tag: &str) -> (held: bool)
    ensures
        held == has_tag(text_table(table@), key@, tag@),
{
    match table.get(key) {
        Some(found) => *found == tag.to_owned(),
        None => false,
    }
}

/// Scores a worker for a shift with the given start.
pub fn calculate_happiness(worker: &Worker, at: &ShiftStart) -> (score: i32)
    ensures
        score == happiness(worker@, at@.hour),
{
    let mut score: i32 = 0;
    match &worker.shift_preferences {
        Some(prefs) => {
            if holds_tag(prefs, "pref", "mornings") && at.hour < 12 {
                score = score + 5;
            }
            if holds_tag(prefs, "avoid", "nights") && at.hour >= 18 {
                score = score - 5;
            }
        },
        None => {},
    }
    match &worker.fatigue_threshold {
        Some(threshold) => {
            let limit: i32 = match threshold.get("max_hrs") {
                Some(hours) => *hours,
                None => 0,
            };
            if worker.current_hours > limit {
                score = score - 8;
            }
        },
        None => {},
    }
    score
}

} // verus!
