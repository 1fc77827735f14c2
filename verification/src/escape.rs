//! Termination policy of the escape-time evaluator.
//!
//! An orbit is seeded at the tested point itself, so the point is iterate
//! number one. The caller squares the current iterate, reports whether its
//! squared magnitude is still below the escape threshold, and [`advance`]
//! answers with the next count or with the final result.

use vstd::prelude::*;

verus! {

/// Result of a point whose orbit stayed below the escape threshold for every
/// allowed iteration.
pub const BOUNDED: i32 = -1;

/// Count that belongs to the seeding step.
pub const FIRST_COUNT: i32 = 1;

/// What the evaluator does after looking at one iterate.
#[derive(Clone, Copy, Debug, PartialEq, Eq, Structural)]
pub enum Step {
    /// Compute the next iterate; it carries this count.
    Iterate(i32),
    /// Stop; this is the iteration result.
    Finish(i32),
}

/// The result reported when the evaluator stops at `count` under the cap
/// `cap`: the sentinel once the cap is reached, the count before that.
pub open spec fn result_at(count: i32, cap: i32) -> i32 {
    if count >= cap {
        BOUNDED
    } else {
        count
    }
}

/// The decision taken at iterate `count`, where `inside` says whether its
/// squared magnitude is below the escape threshold.
pub open spec fn next_step(count: i32, cap: i32, inside: bool) -> Step {
    if count < cap && inside {
        Step::Iterate((count + 1) as i32)
    } else {
        Step::Finish(result_at(count, cap))
    }
}

/// Every iterate numbered from `from` up to, not including, `to` lies below
/// the escape threshold.
pub open spec fn stays_inside(orbit: spec_fn(int) -> bool, from: int, to: int) -> bool {
    forall|i: int| from <= i < to ==> #[trigger] orbit(i)
}

/// Iterate `count` is the first one at or beyond the escape threshold, and
/// it comes before the cap.
pub open spec fn escapes_at(orbit: spec_fn(int) -> bool, cap: i32, count: int) -> bool {
    &&& FIRST_COUNT <= count < cap
    &&& !orbit(count)
    &&& stays_inside(orbit, FIRST_COUNT as int, count)
}

/// The result of an evaluation that has reached iterate `count`, for an
/// orbit given by the answers `orbit(i)` to "is iterate `i` below the
/// threshold".
pub open spec fn escape_time_from(orbit: spec_fn(int) -> bool, count: i32, cap: i32) -> i32
    decreases cap - count,
{
    if count < cap && orbit(count as int) {
        escape_time_from(orbit, (count + 1) as i32, cap)
    } else {
        result_at(count, cap)
    }
}

/// The iteration result of a whole evaluation.
pub open spec fn escape_time(orbit: spec_fn(int) -> bool, cap: i32) -> i32 {
    escape_time_from(orbit, FIRST_COUNT, cap)
}

/// Decides what follows iterate `count`: another iteration while the count is
/// below the cap and the iterate is inside, otherwise the result.
pub fn advance(count: i32, cap: i32, inside: bool) -> (step: Step)
    ensures
        step == next_step(count, cap, inside),
{
    if count < cap && inside {
        Step::Iterate(count + 1)
    } else if count >= cap {
        Step::Finish(BOUNDED)
    } else {
        Step::Finish(count)
    }
}

/// Following the decisions of [`advance`] from any iterate on ends in the
/// escape time of the orbit: a `Finish` carries it, and an `Iterate` leads to
/// a count from which it is the same.
pub proof fn lemma_decisions_reach_escape_time(orbit: spec_fn(int) -> bool, count: i32, cap: i32)
    ensures
        escape_time_from(orbit, count, cap) == (match next_step(count, cap, orbit(count as int)) {
            Step::Iterate(next) => escape_time_from(orbit, next, cap),
            Step::Finish(result) => result,
        }),
{
}

/// From iterate `count` on, the result is the sentinel exactly when the rest
/// of the orbit up to the cap stays inside, and otherwise the number of the
/// first iterate that does not.
pub proof fn lemma_escape_time_from(orbit: spec_fn(int) -> bool, count: i32, cap: i32)
    requires
        FIRST_COUNT <= count,
    ensures
        escape_time_from(orbit, count, cap) == BOUNDED <==> stays_inside(
            orbit,
            count as int,
            cap as int,
        ),
        escape_time_from(orbit, count, cap) != BOUNDED ==> {
            let result = escape_time_from(orbit, count, cap);
            &&& count <= result < cap
            &&& !orbit(result as int)
            &&& stays_inside(orbit, count as int, result as int)
        },
    decreases cap - count,
{
    if count < cap && orbit(count as int) {
        let next: i32 = (count + 1) as i32;
        lemma_escape_time_from(orbit, next, cap);
        let result = escape_time_from(orbit, next, cap);
        assert(result == escape_time_from(orbit, count, cap));
        if stays_inside(orbit, next as int, cap as int) {
            assert(stays_inside(orbit, count as int, cap as int));
        }
        if result != BOUNDED {
            assert(stays_inside(orbit, count as int, result as int));
        }
    } else if count < cap {
        assert(!orbit(count as int));
    }
}

/// The iteration result is never zero and never reaches the cap: it is the
/// sentinel or a count from one up to the cap, the cap left out.
pub proof fn lemma_escape_time_range(orbit: spec_fn(int) -> bool, cap: i32)
    ensures
        escape_time(orbit, cap) == BOUNDED || FIRST_COUNT <= escape_time(orbit, cap) < cap,
{
    lemma_escape_time_from(orbit, FIRST_COUNT, cap);
}

/// A point is reported as bounded exactly when every iterate below the cap
/// stays inside the escape radius.
pub proof fn lemma_bounded_iff_stays_inside(orbit: spec_fn(int) -> bool, cap: i32)
    ensures
        escape_time(orbit, cap) == BOUNDED <==> stays_inside(orbit, FIRST_COUNT as int, cap as int),
{
    lemma_escape_time_from(orbit, FIRST_COUNT, cap);
}

/// A count is reported exactly when it numbers the first iterate at or beyond
/// the escape threshold and lies below the cap.
pub proof fn lemma_count_iff_first_escape(orbit: spec_fn(int) -> bool, cap: i32, count: i32)
    ensures
        (count != BOUNDED && escape_time(orbit, cap) == count) <==> escapes_at(
            orbit,
            cap,
            count as int,
        ),
{
    lemma_escape_time_from(orbit, FIRST_COUNT, cap);
    let result = escape_time(orbit, cap);
    if escapes_at(orbit, cap, count as int) {
        assert(!stays_inside(orbit, FIRST_COUNT as int, cap as int));
        if result < count {
            assert(orbit(result as int));
        }
        if count < result {
            assert(orbit(count as int));
        }
    }
}

/// With a cap of one, or less, no iteration is made and every point is
/// reported as bounded, wherever its orbit goes.
pub proof fn lemma_cap_of_one_is_bounded(orbit: spec_fn(int) -> bool, cap: i32)
    requires
        cap <= 1,
    ensures
        escape_time(orbit, cap) == BOUNDED,
{
}

/// A point that lies at or beyond the escape threshold itself is reported
/// with the first count under every cap of two or more.
pub proof fn lemma_immediate_escape(orbit: spec_fn(int) -> bool, cap: i32)
    requires
        cap >= 2,
        !orbit(FIRST_COUNT as int),
    ensures
        escape_time(orbit, cap) == FIRST_COUNT,
{
}

} // verus!
