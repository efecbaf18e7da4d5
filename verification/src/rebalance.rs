//! Rebalance: replace an absent worker by the best-scoring eligible one.
//!
//! The pool is filtered down to the eligible workers, these are scored, and
//! a stable sort by descending score ranks them. The head of the ranking is
//! the replacement: the highest score, and among equal scores the worker who
//! stands first in the pool.

use crate::eligibility::{eligible, is_eligible};
use crate::model::{OutputView, ShiftInput, ShiftOutput, ShiftStart, ShiftView, StartView};
use crate::scoring::{calculate_happiness, happiness};
use crate::start::{resolve_start, starts_at};
use vstd::prelude::*;

verus! {

/// An eligible worker: where they stand in the pool, and their score.
#[derive(Clone, Copy, Debug, PartialEq, Eq, Structural)]
pub struct Candidate {
    pub position: usize,
    pub score: i32,
}

/// Position `i` of the pool holds an eligible worker.
pub open spec fn candidate(shift: ShiftView, at: StartView, i: int) -> bool {
    0 <= i < shift.workers.len() && eligible(shift, shift.workers[i], at)
}

/// The score of the worker at position `i` of the pool.
pub open spec fn score_at(shift: ShiftView, at: StartView, i: int) -> int {
    happiness(shift.workers[i], at.hour)
}

/// The worker at `i` is ranked before the one at `j`: they score higher, or
/// as high and stand earlier in the pool.
pub open spec fn outranks(shift: ShiftView, at: StartView, i: int, j: int) -> bool {
    ||| score_at(shift, at, i) > score_at(shift, at, j)
    ||| score_at(shift, at, i) == score_at(shift, at, j) && i < j
}

/// The candidate at `i` outranks every other candidate: none scores higher,
/// and none before it scores as high.
pub open spec fn is_top_candidate(shift: ShiftView, at: StartView, i: int) -> bool {
    &&& candidate(shift, at, i)
    &&& forall|j: int| #[trigger] candidate(shift, at, j) && j != i ==> outranks(shift, at, i, j)
}

/// The position of the worker that a rebalance picks, if it picks one.
pub open spec fn rebalance_choice(shift: ShiftView, at: StartView) -> Option<int> {
    if exists|i: int| is_top_candidate(shift, at, i) {
        Some(choose|i: int| is_top_candidate(shift, at, i))
    } else {
        None
    }
}

/// The identifier that a rebalance returns: that of the worker it picks, or
/// the empty identifier.
pub open spec fn rebalance_pick(shift: ShiftView, at: StartView) -> Seq<char> {
    match rebalance_choice(shift, at) {
        Some(i) => shift.workers[i].id,
        None => Seq::empty(),
    }
}

/// `out` answers a rebalance of `input`: it names the shift, and the worker
/// picked for a start that the shift's timestamp allows.
pub open spec fn rebalances(input: ShiftView, out: OutputView) -> bool {
    &&& out.shift_id == input.shift_id
    &&& exists|at: StartView| #[trigger]
        starts_at(input.start, at) && out.new_worker_id == rebalance_pick(input, at)
}

/// The worker at position `i` of the pool is on the list.
pub open spec fn listed(order: Seq<Candidate>, i: int) -> bool {
    exists|k: int| 0 <= k < order.len() && (#[trigger] order[k]).position == i
}

/// `order` ranks the first `n` workers of the pool: it lists the eligible
/// ones among them, all of them, each with their score, by descending score,
/// and workers of equal score in the order of the pool.
pub open spec fn ranks(shift: ShiftView, at: StartView, n: int, order: Seq<Candidate>) -> bool {
    &&& forall|k: int|
        0 <= k < order.len() ==> {
            &&& (#[trigger] order[k]).position < n
            &&& candidate(shift, at, order[k].position as int)
            &&& order[k].score == score_at(shift, at, order[k].position as int)
        }
    &&& forall|i: int| i < n && #[trigger] candidate(shift, at, i) ==> listed(order, i)
    &&& forall|a: int, b: int|
        0 <= a < b < order.len() ==> outranks(
            shift,
            at,
            (#[trigger] order[a]).position as int,
            (#[trigger] order[b]).position as int,
        )
}

/// `order` ranks the pool. This is what a stable sort by descending score
/// makes of the eligible workers.
pub open spec fn is_ranking(shift: ShiftView, at: StartView, order: Seq<Candidate>) -> bool {
    ranks(shift, at, shift.workers.len() as int, order)
}

/// No two candidates outrank all others.
pub proof fn lemma_top_candidate_unique(shift: ShiftView, at: StartView, i: int, j: int)
    requires
        is_top_candidate(shift, at, i),
        is_top_candidate(shift, at, j),
    ensures
        i == j,
{
}

/// A ranking is empty exactly where nobody is eligible. Otherwise it starts
/// with the top candidate: among workers of equal score, sorting keeps the
/// order of the pool, so the earliest comes first.
pub proof fn lemma_ranking_starts_with_top(shift: ShiftView, at: StartView, order: Seq<Candidate>)
    requires
        is_ranking(shift, at, order),
    ensures
        order.len() == 0 <==> forall|j: int| !candidate(shift, at, j),
        order.len() > 0 ==> is_top_candidate(shift, at, order[0].position as int),
{
    if order.len() > 0 {
        let top = order[0].position as int;
        assert forall|j: int| #[trigger] candidate(shift, at, j) && j != top implies outranks(
            shift,
            at,
            top,
            j,
        ) by {
            assert(listed(order, j));
            let k = choose|k: int| 0 <= k < order.len() && (#[trigger] order[k]).position == j;
            assert(outranks(shift, at, order[0].position as int, order[k].position as int));
        }
    } else {
        assert forall|j: int| !candidate(shift, at, j) by {
            if candidate(shift, at, j) {
                assert(listed(order, j));
            }
        }
    }
}

/// A pool has only one ranking.
pub proof fn lemma_ranking_unique(
    shift: ShiftView,
    at: StartView,
    one: Seq<Candidate>,
    other: Seq<Candidate>,
)
    requires
        is_ranking(shift, at, one),
        is_ranking(shift, at, other),
    ensures
        one == other,
{
    lemma_ranking_length(shift, at, one, other);
    lemma_ranking_length(shift, at, other, one);
    assert forall|k: int| 0 <= k < one.len() implies one[k] == other[k] by {
        lemma_ranking_place(shift, at, one, other, k);
    }
    assert(one =~= other);
}

/// A ranking is no longer than another of the same pool: it lists nobody
/// twice, and everybody on it is on the other.
proof fn lemma_ranking_length(
    shift: ShiftView,
    at: StartView,
    one: Seq<Candidate>,
    other: Seq<Candidate>,
)
    requires
        is_ranking(shift, at, one),
        is_ranking(shift, at, other),
    ensures
        one.len() <= other.len(),
{
    let here = one.map_values(|c: Candidate| c.position as int);
    let there = other.map_values(|c: Candidate| c.position as int);
    assert forall|a: int, b: int| 0 <= a < here.len() && 0 <= b < here.len() && a != b implies here[a]
        != here[b] by {
        if a < b {
            assert(outranks(shift, at, one[a].position as int, one[b].position as int));
        } else {
            assert(outranks(shift, at, one[b].position as int, one[a].position as int));
        }
    }
    assert forall|i: int| here.to_set().contains(i) implies there.to_set().contains(i) by {
        let k = choose|k: int| 0 <= k < here.len() && here[k] == i;
        assert(candidate(shift, at, one[k].position as int));
        assert(listed(other, i));
        let m = choose|m: int| 0 <= m < other.len() && (#[trigger] other[m]).position == i;
        assert(there[m] == i);
    }
    here.unique_seq_to_set();
    there.lemma_cardinality_of_set();
    vstd::set_lib::lemma_len_subset(here.to_set(), there.to_set());
}

/// Two rankings of the same pool hold the same candidate in every place.
proof fn lemma_ranking_place(
    shift: ShiftView,
    at: StartView,
    one: Seq<Candidate>,
    other: Seq<Candidate>,
    k: int,
)
    requires
        is_ranking(shift, at, one),
        is_ranking(shift, at, other),
        one.len() == other.len(),
        0 <= k < one.len(),
    ensures
        one[k] == other[k],
    decreases k,
{
    // The two agree below `k`. So the candidate of `one[k]` stands at `k`
    // or above in `other`, and that of `other[k]` at `k` or above in `one`.
    // Were they different candidates, each would outrank the other.
    assert forall|m: int| 0 <= m < k implies one[m] == other[m] by {
        lemma_ranking_place(shift, at, one, other, m);
    }
    let c = one[k].position as int;
    let d = other[k].position as int;
    assert(candidate(shift, at, c) && listed(other, c));
    assert(candidate(shift, at, d) && listed(one, d));
    let p = choose|p: int| 0 <= p < other.len() && (#[trigger] other[p]).position == c;
    let q = choose|q: int| 0 <= q < one.len() && (#[trigger] one[q]).position == d;
    if p < k {
        assert(outranks(shift, at, one[p].position as int, one[k].position as int));
    }
    if q < k {
        assert(outranks(shift, at, other[q].position as int, other[k].position as int));
    }
    if p > k {
        assert(outranks(shift, at, other[k].position as int, other[p].position as int));
    }
    if q > k {
        assert(outranks(shift, at, one[k].position as int, one[q].position as int));
    }
}

/// Putting the next eligible worker of the pool behind the last listed
/// candidate who scores at least as high keeps a ranking a ranking.
pub proof fn lemma_insert_keeps_ranking(
    shift: ShiftView,
    at: StartView,
    n: int,
    before: Seq<Candidate>,
    p: int,
    c: Candidate,
)
    requires
        ranks(shift, at, n, before),
        candidate(shift, at, n),
        c.position == n,
        c.score == score_at(shift, at, n),
        0 <= p <= before.len(),
        forall|k: int| 0 <= k < p ==> (#[trigger] before[k]).score >= c.score,
        p < before.len() ==> before[p].score < c.score,
    ensures
        ranks(shift, at, n + 1, before.insert(p, c)),
{
    let after = before.insert(p, c);
    before.insert_ensures(p, c);
    // Where an entry of the new list stood in the old one.
    let source = |k: int| if k < p { k } else { k - 1 };
    assert forall|k: int| 0 <= k < after.len() && k != p implies #[trigger] after[k] == before[source(
        k,
    )] by {
        if k > p {
            assert(after[(k - 1) + 1] == before[k - 1]);
        }
    }
    assert forall|i: int| i < n + 1 && #[trigger] candidate(shift, at, i) implies listed(
        after,
        i,
    ) by {
        if i == n {
            assert(after[p].position == i);
        } else {
            assert(listed(before, i));
            let k = choose|k: int| 0 <= k < before.len() && (#[trigger] before[k]).position == i;
            let moved = if k < p { k } else { k + 1 };
            assert(after[moved] == before[source(moved)]);
            assert(after[moved].position == i);
        }
    }
    assert forall|a: int, b: int| 0 <= a < b < after.len() implies outranks(
        shift,
        at,
        (#[trigger] after[a]).position as int,
        (#[trigger] after[b]).position as int,
    ) by {
        if a != p && b != p {
            assert(after[a] == before[source(a)]);
            assert(after[b] == before[source(b)]);
            assert(outranks(
                shift,
                at,
                before[source(a)].position as int,
                before[source(b)].position as int,
            ));
        } else if b == p {
            assert(after[a] == before[source(a)]);
            assert(before[a].score >= c.score);
        } else {
            assert(after[b] == before[source(b)]);
            if source(b) > p {
                assert(outranks(
                    shift,
                    at,
                    before[p].position as int,
                    before[source(b)].position as int,
                ));
            }
        }
    }
}

/// Among the first `n` workers of the pool, the candidate at `i` outranks
/// every other candidate.
spec fn tops(shift: ShiftView, at: StartView, n: int, i: int) -> bool {
    &&& i < n
    &&& candidate(shift, at, i)
    &&& forall|j: int|
        j < n && #[trigger] candidate(shift, at, j) && j != i ==> outranks(shift, at, i, j)
}

/// Among the first `n` workers of the pool, either nobody is eligible or
/// somebody outranks all others.
proof fn lemma_somebody_tops(shift: ShiftView, at: StartView, n: int)
    requires
        0 <= n <= shift.workers.len(),
    ensures
        (forall|j: int| j < n ==> !candidate(shift, at, j)) || (exists|i: int|
            tops(shift, at, n, i)),
    decreases n,
{
    if n > 0 {
        lemma_somebody_tops(shift, at, n - 1);
        let last = n - 1;
        if forall|j: int| j < last ==> !candidate(shift, at, j) {
            if candidate(shift, at, last) {
                assert(tops(shift, at, n, last));
            }
        } else {
            let before = choose|i: int| tops(shift, at, last, i);
            if candidate(shift, at, last) && score_at(shift, at, before) < score_at(
                shift,
                at,
                last,
            ) {
                assert forall|j: int|
                    j < n && #[trigger] candidate(shift, at, j) && j != last implies outranks(
                    shift,
                    at,
                    last,
                    j,
                ) by {
                    if j != before {
                        assert(outranks(shift, at, before, j));
                    }
                }
                assert(tops(shift, at, n, last));
            } else {
                assert(tops(shift, at, n, before));
            }
        }
    }
}

/// What a rebalance picks: the top candidate where anybody is eligible, and
/// nobody where nobody is.
pub proof fn lemma_rebalance_choice(shift: ShiftView, at: StartView)
    ensures
        match rebalance_choice(shift, at) {
            Some(i) => is_top_candidate(shift, at, i),
            None => forall|j: int| !candidate(shift, at, j),
        },
{
    let n = shift.workers.len() as int;
    lemma_somebody_tops(shift, at, n);
    if exists|i: int| tops(shift, at, n, i) {
        let top = choose|i: int| tops(shift, at, n, i);
        assert(is_top_candidate(shift, at, top));
    }
}

/// A rebalance returns the identifier of an eligible worker of the pool, or
/// the empty identifier; the latter whenever no worker is eligible.
pub proof fn lemma_rebalance_picks_eligible(shift: ShiftView, at: StartView)
    ensures
        (exists|i: int| candidate(shift, at, i) && rebalance_pick(shift, at) == shift.workers[i].id)
            || rebalance_pick(shift, at) == Seq::<char>::empty(),
        (forall|j: int| !candidate(shift, at, j)) ==> rebalance_pick(shift, at) == Seq::<
            char,
        >::empty(),
{
    lemma_rebalance_choice(shift, at);
}

/// Where the worker that a rebalance would pick has an identifier that is
/// not empty, an empty result says exactly that no worker is eligible.
pub proof fn lemma_rebalance_empty_iff_none_eligible(shift: ShiftView, at: StartView)
    requires
        rebalance_choice(shift, at) matches Some(i) ==> shift.workers[i].id.len() > 0,
    ensures
        rebalance_pick(shift, at).len() == 0 <==> forall|j: int| !candidate(shift, at, j),
{
    lemma_rebalance_choice(shift, at);
}

/// A rebalance never picks the absent worker, however well they would
/// otherwise fit: it returns their identifier only where that identifier is
/// empty and nobody is eligible.
pub proof fn lemma_rebalance_never_picks_absent(shift: ShiftView, at: StartView)
    ensures
        rebalance_choice(shift, at) matches Some(i) ==> shift.workers[i].id
            != shift.absent_worker_id,
        rebalance_pick(shift, at) == shift.absent_worker_id ==> shift.absent_worker_id.len() == 0
            && forall|j: int| !candidate(shift, at, j),
{
    lemma_rebalance_choice(shift, at);
}

/// Whatever start the timestamp allows, the answer to a rebalance names an
/// eligible worker of the pool or nobody, and an answer that names somebody
/// does not name the absent worker.
pub proof fn lemma_rebalance_answer(input: ShiftView, out: OutputView)
    requires
        rebalances(input, out),
    ensures
        out.new_worker_id.len() == 0 || exists|at: StartView, i: int|
            #![trigger starts_at(input.start, at), candidate(input, at, i)]
            starts_at(input.start, at) && candidate(input, at, i) && out.new_worker_id
                == input.workers[i].id,
        out.new_worker_id.len() > 0 ==> out.new_worker_id != input.absent_worker_id,
{
    let at = choose|at: StartView| #[trigger]
        starts_at(input.start, at) && out.new_worker_id == rebalance_pick(input, at);
    lemma_rebalance_choice(input, at);
    if out.new_worker_id.len() > 0 {
        let i = rebalance_choice(input, at).unwrap();
        assert(starts_at(input.start, at) && candidate(input, at, i));
    }
}

/// Ranks the pool: filters it down to the eligible workers, scores them,
/// and sorts them by descending score without disturbing the order of the
/// pool among equals.
pub fn rank_candidates(shift: &ShiftInput, at: &ShiftStart) -> (order: Vec<Candidate>)
    ensures
        is_ranking(shift@, at@, order@),
{
    let mut order: Vec<Candidate> = Vec::new();
    let mut i: usize = 0;
    while i < shift.workers.len()
        invariant
            i <= shift.workers.len(),
            shift@.workers.len() == shift.workers.len(),
            ranks(shift@, at@, i as int, order@),
        decreases shift.workers.len() - i,
    {
        let worker = &shift.workers[i];
        assert(shift@.workers[i as int] == worker@);
        if is_eligible(shift, worker, at) {
            let score = calculate_happiness(worker, at);
            let mut p: usize = 0;
            while p < order.len() && order[p].score >= score
                invariant
                    p <= order.len(),
                    forall|k: int| 0 <= k < p ==> (#[trigger] order[k]).score >= score,
                decreases order.len() - p,
            {
                p = p + 1;
            }
            let c = Candidate { position: i, score };
            proof {
                lemma_insert_keeps_ranking(shift@, at@, i as int, order@, p as int, c);
            }
            order.insert(p, c);
        } else {
            assert forall|j: int| j < i + 1 && #[trigger] candidate(shift@, at@, j) implies listed(
                order@,
                j,
            ) by {}
        }
        i = i + 1;
    }
    order
}

/// Finds the worker that a rebalance picks: the head of the ranking.
pub fn best_candidate(shift: &ShiftInput, at: &ShiftStart) -> (best: Option<usize>)
    ensures
        match best {
            Some(i) => rebalance_choice(shift@, at@) == Some(i as int),
            None => rebalance_choice(shift@, at@) is None,
        },
{
    let order = rank_candidates(shift, at);
    proof {
        lemma_ranking_starts_with_top(shift@, at@, order@);
        if order.len() > 0 {
            lemma_top_candidate_unique(
                shift@,
                at@,
                order[0].position as int,
                choose|i: int| is_top_candidate(shift@, at@, i),
            );
        }
    }
    if order.len() > 0 {
        Some(order[0].position)
    } else {
        None
    }
}

/// Picks the replacement for a shift that starts at `at`.
pub fn rebalance_shift_at(input: &ShiftInput, at: &ShiftStart) -> (out: ShiftOutput)
    ensures
        out@.shift_id == input@.shift_id,
        out@.new_worker_id == rebalance_pick(input@, at@),
{
    let new_worker_id = match best_candidate(input, at) {
        Some(i) => input.workers[i].id.clone(),
        None => String::new(),
    };
    ShiftOutput { shift_id: input.shift_id.clone(), new_worker_id }
}

/// Picks the replacement for a shift: the eligible worker with the highest
/// score, and among equals the one that stands first in the pool.
///
/// The start is read from the shift's timestamp; where that cannot be read,
/// the shift counts as starting now, so the result is that of
/// [`rebalance_shift_at`] for some day and hour.
pub fn rebalance_shift(input: ShiftInput) -> (out: ShiftOutput)
    ensures
        rebalances(input@, out@),
{
    let at = resolve_start(input.start.as_str());
    let out = rebalance_shift_at(&input, &at);
    assert(starts_at(input@.start, at@) && out@.new_worker_id == rebalance_pick(input@, at@));
    out
}

} // verus!
