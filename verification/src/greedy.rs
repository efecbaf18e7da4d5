//! Greedy assignment: staff a shift with the first worker who qualifies.

use crate::eligibility::{is_qualified, qualified};
use crate::model::{OutputView, ShiftInput, ShiftOutput, ShiftStart, ShiftView, StartView};
use crate::start::{resolve_start, starts_at};
use vstd::prelude::*;

verus! {

/// Position `i` of the pool holds a qualified worker.
pub open spec fn qualifier(shift: ShiftView, at: StartView, i: int) -> bool {
    0 <= i < shift.workers.len() && qualified(shift, shift.workers[i], at)
}

/// Position `i` holds the first qualified worker of the pool.
pub open spec fn is_first_qualifier(shift: ShiftView, at: StartView, i: int) -> bool {
    &&& qualifier(shift, at, i)
    &&& forall|j: int| j < i ==> !qualifier(shift, at, j)
}

/// The position of the worker that a greedy assignment picks, if it picks
/// one.
pub open spec fn greedy_choice(shift: ShiftView, at: StartView) -> Option<int> {
    if exists|i: int| is_first_qualifier(shift, at, i) {
        Some(choose|i: int| is_first_qualifier(shift, at, i))
    } else {
        None
    }
}

/// The identifier that a greedy assignment returns: that of the worker it
/// picks, or the empty identifier.
pub open spec fn greedy_pick(shift: ShiftView, at: StartView) -> Seq<char> {
    match greedy_choice(shift, at) {
        Some(i) => shift.workers[i].id,
        None => Seq::empty(),
    }
}

/// `out` answers a greedy assignment of `shift`: it names the shift, and the
/// worker picked for a start that the shift's timestamp allows.
pub open spec fn assigns(shift: ShiftView, out: OutputView) -> bool {
    &&& out.shift_id == shift.shift_id
    &&& exists|at: StartView| #[trigger]
        starts_at(shift.start, at) && out.new_worker_id == greedy_pick(shift, at)
}

/// Only one position holds the first qualified worker.
pub proof fn lemma_first_qualifier_unique(shift: ShiftView, at: StartView, i: int, j: int)
    requires
        is_first_qualifier(shift, at, i),
        is_first_qualifier(shift, at, j),
    ensures
        i == j,
{
}

/// Among the first `n` workers, either nobody qualifies or somebody is the
/// first to do so.
proof fn lemma_somebody_is_first(shift: ShiftView, at: StartView, n: int)
    requires
        0 <= n <= shift.workers.len(),
    ensures
        (forall|j: int| j < n ==> !qualifier(shift, at, j)) || (exists|i: int|
            i < n && is_first_qualifier(shift, at, i)),
    decreases n,
{
    if n > 0 {
        lemma_somebody_is_first(shift, at, n - 1);
        if forall|j: int| j < n - 1 ==> !qualifier(shift, at, j) {
            if qualifier(shift, at, n - 1) {
                assert(is_first_qualifier(shift, at, n - 1));
            }
        }
    }
}

/// What a greedy assignment picks: the first qualified worker in the order
/// of the pool where anybody qualifies, and nobody where nobody does.
pub proof fn lemma_greedy_choice(shift: ShiftView, at: StartView)
    ensures
        match greedy_choice(shift, at) {
            Some(i) => is_first_qualifier(shift, at, i),
            None => forall|j: int| !qualifier(shift, at, j),
        },
{
    lemma_somebody_is_first(shift, at, shift.workers.len() as int);
}

/// Where the worker that a greedy assignment would pick has an identifier
/// that is not empty, an empty result says exactly that nobody qualifies.
pub proof fn lemma_greedy_empty_iff_none_qualified(shift: ShiftView, at: StartView)
    requires
        greedy_choice(shift, at) matches Some(i) ==> shift.workers[i].id.len() > 0,
    ensures
        greedy_pick(shift, at).len() == 0 <==> forall|j: int| !qualifier(shift, at, j),
{
    lemma_greedy_choice(shift, at);
}

/// A greedy assignment does not look at who is absent: two shifts that
/// differ in nothing else get the same worker.
pub proof fn lemma_greedy_ignores_absence(shift: ShiftView, other: ShiftView, at: StartView)
    requires
        other == (ShiftView { absent_worker_id: other.absent_worker_id, ..shift }),
    ensures
        greedy_choice(shift, at) == greedy_choice(other, at),
        greedy_pick(shift, at) == greedy_pick(other, at),
{
    lemma_greedy_choice(shift, at);
    lemma_greedy_choice(other, at);
    assert forall|j: int| qualifier(shift, at, j) == qualifier(other, at, j) by {}
    match greedy_choice(shift, at) {
        Some(i) => {
            assert(is_first_qualifier(other, at, i));
            lemma_first_qualifier_unique(other, at, i, greedy_choice(other, at).unwrap());
        },
        None => {
            if greedy_choice(other, at) is Some {
                assert(qualifier(shift, at, greedy_choice(other, at).unwrap()));
            }
        },
    }
}

/// Whatever start the timestamp allows, the answer to a greedy assignment
/// names the first qualified worker of the pool or nobody.
pub proof fn lemma_greedy_answer(shift: ShiftView, out: OutputView)
    requires
        assigns(shift, out),
    ensures
        out.new_worker_id.len() == 0 || exists|at: StartView, i: int|
            #![trigger starts_at(shift.start, at), is_first_qualifier(shift, at, i)]
            starts_at(shift.start, at) && is_first_qualifier(shift, at, i) && out.new_worker_id
                == shift.workers[i].id,
{
    let at = choose|at: StartView| #[trigger]
        starts_at(shift.start, at) && out.new_worker_id == greedy_pick(shift, at);
    lemma_greedy_choice(shift, at);
    if out.new_worker_id.len() > 0 {
        let i = greedy_choice(shift, at).unwrap();
        assert(starts_at(shift.start, at) && is_first_qualifier(shift, at, i));
    }
}

/// Finds the first qualified worker of the pool.
pub fn first_qualified(shift: &ShiftInput, at: &ShiftStart) -> (first: Option<usize>)
    ensures
        match first {
            Some(i) => greedy_choice(shift@, at@) == Some(i as int),
            None => greedy_choice(shift@, at@) is None,
        },
{
    let mut i: usize = 0;
    while i < shift.workers.len()
        invariant
            i <= shift.workers.len(),
            shift@.workers.len() == shift.workers.len(),
            forall|j: int| j < i ==> !qualifier(shift@, at@, j),
        decreases shift.workers.len() - i,
    {
        let worker = &shift.workers[i];
        assert(shift@.workers[i as int] == worker@);
        if is_qualified(shift, worker, at) {
            proof {
                assert(is_first_qualifier(shift@, at@, i as int));
                let c = choose|k: int| is_first_qualifier(shift@, at@, k);
                lemma_first_qualifier_unique(shift@, at@, i as int, c);
            }
            return Some(i);
        }
        i = i + 1;
    }
    None
}

/// Staffs a shift that starts at `at`.
pub fn assign_shift_at(shift: &ShiftInput, at: &ShiftStart) -> (out: ShiftOutput)
    ensures
        out@.shift_id == shift@.shift_id,
        out@.new_worker_id == greedy_pick(shift@, at@),
{
    let new_worker_id = match first_qualified(shift, at) {
        Some(i) => shift.workers[i].id.clone(),
        None => String::new(),
    };
    ShiftOutput { shift_id: shift.shift_id.clone(), new_worker_id }
}

/// Staffs a shift with the first worker of the pool who qualifies. Nobody
/// is excluded as absent: the shift has had no worker yet.
///
/// The start is read from the shift's timestamp; where that cannot be read,
/// the shift counts as starting now, so the result is that of
/// [`assign_shift_at`] for some day and hour.
pub fn assign_shift(shift: ShiftInput) -> (out: ShiftOutput)
    ensures
        assigns(shift@, out@),
{
    let at = resolve_start(shift.start.as_str());
    let out = assign_shift_at(&shift, &at);
    assert(starts_at(shift@.start, at@) && out@.new_worker_id == greedy_pick(shift@, at@));
    out
}

} // verus!
