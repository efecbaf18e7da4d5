//! The eligibility filter: may this worker cover this shift at all?

use crate::model::{texts, ShiftInput, ShiftStart, ShiftView, StartView, Worker, WorkerView};
use crate::window::{parse_window, window_of};
use vstd::prelude::*;

verus! {

/// The worker holds every skill that is asked for.
pub open spec fn has_skills(w: WorkerView, required: Seq<Seq<char>>) -> bool {
    forall|k: int| 0 <= k < required.len() ==> w.skills.contains(#[trigger] required[k])
}

/// The worker may take on more hours this week.
pub open spec fn has_hours_left(w: WorkerView) -> bool {
    w.current_hours < w.max_hours_per_week
}

/// The worker has a well-formed window for the day of the start, and the
/// window has opened by the hour of the start. When the window closes is
/// not looked at.
pub open spec fn available_at(w: WorkerView, at: StartView) -> bool {
    &&& w.availability.contains_key(at.day)
    &&& window_of(w.availability[at.day]) matches Some(window)
    &&& at.hour >= window.0
}

/// The worker can fill the shift: role, skills, hours and availability.
pub open spec fn qualified(shift: ShiftView, w: WorkerView, at: StartView) -> bool {
    &&& w.role == shift.role
    &&& has_skills(w, shift.required_skills)
    &&& has_hours_left(w)
    &&& available_at(w, at)
}

/// The worker can replace the absent one: qualified, and somebody else.
pub open spec fn eligible(shift: ShiftView, w: WorkerView, at: StartView) -> bool {
    &&& qualified(shift, w, at)
    &&& w.id != shift.absent_worker_id
}

/// Does the worker hold the skill?
pub fn holds_skill(worker: &Worker, skill: &String) -> (held: bool)
    ensures
        held == worker@.skills.contains(skill@),
{
    let mut j: usize = 0;
    while j < worker.skills.len()
        invariant
            j <= worker.skills.len(),
            forall|i: int| 0 <= i < j ==> worker@.skills[i] != skill@,
        decreases worker.skills.len() - j,
    {
        if worker.skills[j] == *skill {
            assert(worker@.skills[j as int] == skill@);
            return true;
        }
        j = j + 1;
    }
    false
}

/// Does the worker hold every skill that is asked for?
pub fn holds_skills(worker: &Worker, required: &Vec<String>) -> (held: bool)
    ensures
        held == has_skills(worker@, texts(required@)),
{
    let ghost asked = texts(required@);
    let mut k: usize = 0;
    while k < required.len()
        invariant
            k <= required.len(),
            asked == texts(required@),
            forall|i: int| 0 <= i < k ==> worker@.skills.contains(#[trigger] asked[i]),
        decreases required.len() - k,
    {
        if !holds_skill(worker, &required[k]) {
            assert(!worker@.skills.contains(asked[k as int]));
            return false;
        }
        k = k + 1;
    }
    true
}

/// Is the worker available when the shift starts?
pub fn is_available(worker: &Worker, at: &ShiftStart) -> (available: bool)
    ensures
        available == available_at(worker@, at@),
{
    match worker.availability.get(at.day.as_str()) {
        Some(text) => match parse_window(text.as_str()) {
            Some(window) => at.hour as i64 >= window.0 as i64,
            None => false,
        },
        None => false,
    }
}

/// Can the worker fill the shift? This is the filter of a first staffing,
/// where nobody is absent.
pub fn is_qualified(shift: &ShiftInput, worker: &Worker, at: &ShiftStart) -> (ok: bool)
    ensures
        ok == qualified(shift@, worker@, at@),
{
    worker.role == shift.role && holds_skills(worker, &shift.required_skills)
        && worker.current_hours < worker.max_hours_per_week && is_available(worker, at)
}

/// Can the worker replace the absent one? This is the filter of a rebalance.
pub fn is_eligible(shift: &ShiftInput, worker: &Worker, at: &ShiftStart) -> (ok: bool)
    ensures
        ok == eligible(shift@, worker@, at@),
{
    is_qualified(shift, worker, at) && worker.id != shift.absent_worker_id
}

/// A worker in another role is never qualified, whatever else holds of them.
pub proof fn lemma_role_mismatch_disqualifies(shift: ShiftView, w: WorkerView, at: StartView)
    requires
        w.role != shift.role,
    ensures
        !qualified(shift, w, at),
        !eligible(shift, w, at),
{
}

/// A worker who has reached the weekly maximum is never qualified; a worker
/// exactly at the maximum has reached it.
pub proof fn lemma_no_hours_left_disqualifies(shift: ShiftView, w: WorkerView, at: StartView)
    requires
        w.current_hours >= w.max_hours_per_week,
    ensures
        !qualified(shift, w, at),
        !eligible(shift, w, at),
{
}

/// A worker with no window for the day of the start, or with one that is
/// not well formed, is never qualified, whatever else holds of them.
pub proof fn lemma_malformed_window_disqualifies(shift: ShiftView, w: WorkerView, at: StartView)
    requires
        !w.availability.contains_key(at.day) || window_of(w.availability[at.day]) is None,
    ensures
        !qualified(shift, w, at),
        !eligible(shift, w, at),
{
}

/// The absent worker is never eligible.
pub proof fn lemma_absent_worker_ineligible(shift: ShiftView, w: WorkerView, at: StartView)
    requires
        w.id == shift.absent_worker_id,
    ensures
        !eligible(shift, w, at),
{
}

} // verus!
