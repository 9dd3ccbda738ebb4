//! The scheduling invariants, proved over the model.
//!
//! The public lemmas here state the guarantees of the circle method:
//! each round is a perfect matching over the effective identifiers, every
//! unordered pair of identifiers meets in exactly one match of the whole
//! schedule, and an odd player count yields the same schedule as the next
//! even one.

use vstd::prelude::*;

use crate::model::{
    effective, id_count, id_hits, is_match_of, match_at, matches_per_round, num_rounds,
    pair_count, round_model, schedule_model, schedule_pair_count, wrap,
};

verus! {

/// How far ahead of `i` identifier `x` stands on the rotating circle of
/// size `m`.
spec fn offset(i: int, x: int, m: int) -> int {
    if x >= i {
        x - i
    } else {
        x - i + m
    }
}

/// The slot of round `i` whose match holds identifier `x`: the anchor and
/// its opponent stand in slot 0, and a rotating identifier at distance `d`
/// ahead of `i` stands in slot `d` when `d` is at most `(m - 1) / 2`, else
/// in slot `m - d` (as the right-hand side of that reflection).
spec fn slot_of(m: int, i: int, x: int) -> int {
    if x == m {
        0
    } else if offset(i, x, m) == 0 {
        0
    } else if offset(i, x, m) <= (m - 1) / 2 {
        offset(i, x, m)
    } else {
        m - offset(i, x, m)
    }
}

/// Whether some match of round `i` pairs `x` with `y` (for `x < y`).
spec fn round_has_pair(m: int, i: int, x: int, y: int) -> bool {
    if y == m {
        i == x
    } else {
        offset(i, x, m) + offset(i, y, m) == m
    }
}

/// The slot of round `i` in which `x` and `y` meet, where they do.
spec fn pair_slot(m: int, i: int, x: int, y: int) -> int {
    if y == m {
        0
    } else if offset(i, x, m) <= (m - 1) / 2 {
        offset(i, x, m)
    } else {
        offset(i, y, m)
    }
}

/// The round of the schedule in which `x` and `y` meet (for `x < y`):
/// the anchor meets `x` in round `x`, and two rotating identifiers meet
/// in the round `i` with `2 * i` congruent to `x + y` modulo `m`.
spec fn meeting_round(m: int, x: int, y: int) -> int {
    if y == m {
        x
    } else if (x + y) % 2 == 0 {
        (x + y) / 2
    } else if x + y < m {
        (x + y + m) / 2
    } else {
        (x + y - m) / 2
    }
}

/// Identifier `x` occupies a slot of the match in slot `j` of round `i`
/// exactly when `j` is `slot_of(m, i, x)`, and then only one slot of it.
proof fn lemma_id_hits_at(m: int, i: int, x: int, j: int)
    requires
        m >= 1,
        m % 2 == 1,
        0 <= i < m,
        0 <= x <= m,
        0 <= j < matches_per_round(m),
    ensures
        id_hits(match_at(m, i, j), x) == (if j == slot_of(m, i, x) {
            1int
        } else {
            0int
        }),
{
}

/// Counting `x` over the first `k` matches of round `i` sees it exactly
/// once once `k` passes its slot.
proof fn lemma_id_count_take(m: int, i: int, x: int, k: int)
    requires
        m >= 1,
        m % 2 == 1,
        0 <= i < m,
        0 <= x <= m,
        0 <= k <= matches_per_round(m),
    ensures
        id_count(round_model(m, i).take(k), x) == (if slot_of(m, i, x) < k {
            1int
        } else {
            0int
        }),
    decreases k,
{
    let r = round_model(m, i);
    if k == 0 {
        assert(r.take(0).len() == 0);
    } else {
        lemma_id_count_take(m, i, x, k - 1);
        assert(r.take(k).drop_last() =~= r.take(k - 1));
        assert(r.take(k).last() == match_at(m, i, k - 1));
        lemma_id_hits_at(m, i, x, k - 1);
    }
}

/// Every round of the schedule is a perfect matching: each identifier in
/// range occupies exactly one slot of exactly one match of that round.
pub proof fn lemma_round_is_perfect_matching(n: int, i: int, x: int)
    requires
        0 <= i < num_rounds(n),
        0 <= x < effective(n),
    ensures
        id_count(schedule_model(n)[i], x) == 1,
{
    let m = effective(n) - 1;
    assert(m >= 1 && m % 2 == 1);
    lemma_id_count_take(m, i, x, matches_per_round(m));
    assert(round_model(m, i).take(matches_per_round(m)) =~= round_model(m, i));
    assert(slot_of(m, i, x) < matches_per_round(m));
    assert(schedule_model(n)[i] == round_model(m, i));
}

/// Every match of the schedule pairs two distinct identifiers from the
/// effective range.
pub proof fn lemma_match_ids_in_range(n: int, i: int, j: int)
    requires
        0 <= i < num_rounds(n),
        0 <= j < schedule_model(n)[i].len(),
    ensures
        0 <= schedule_model(n)[i][j].0 < effective(n),
        0 <= schedule_model(n)[i][j].1 < effective(n),
        schedule_model(n)[i][j].0 != schedule_model(n)[i][j].1,
{
    let m = effective(n) - 1;
    assert(m >= 1 && m % 2 == 1);
    assert(schedule_model(n)[i] == round_model(m, i));
    assert(schedule_model(n)[i][j] == match_at(m, i, j));
}

/// The pair `{x, y}` stands in slot `j` of round `i` exactly when the
/// round holds it at all and `j` is its slot.
proof fn lemma_is_match_at(m: int, i: int, x: int, y: int, j: int)
    requires
        m >= 1,
        m % 2 == 1,
        0 <= i < m,
        0 <= x < y <= m,
        0 <= j < matches_per_round(m),
    ensures
        is_match_of(match_at(m, i, j), x, y) <==> (round_has_pair(m, i, x, y) && j == pair_slot(
            m,
            i,
            x,
            y,
        )),
{
}

/// Counting matches of `{x, y}` over the first `k` matches of round `i`.
proof fn lemma_pair_count_take(m: int, i: int, x: int, y: int, k: int)
    requires
        m >= 1,
        m % 2 == 1,
        0 <= i < m,
        0 <= x < y <= m,
        0 <= k <= matches_per_round(m),
    ensures
        pair_count(round_model(m, i).take(k), x, y) == (if round_has_pair(m, i, x, y) && pair_slot(
            m,
            i,
            x,
            y,
        ) < k {
            1int
        } else {
            0int
        }),
    decreases k,
{
    let r = round_model(m, i);
    if k == 0 {
        assert(r.take(0).len() == 0);
    } else {
        lemma_pair_count_take(m, i, x, y, k - 1);
        assert(r.take(k).drop_last() =~= r.take(k - 1));
        assert(r.take(k).last() == match_at(m, i, k - 1));
        lemma_is_match_at(m, i, x, y, k - 1);
    }
}

/// Round `i` holds the pair `{x, y}` in exactly one match when it holds
/// it at all, and in none otherwise.
proof fn lemma_pair_count_round(m: int, i: int, x: int, y: int)
    requires
        m >= 1,
        m % 2 == 1,
        0 <= i < m,
        0 <= x < y <= m,
    ensures
        pair_count(round_model(m, i), x, y) == (if round_has_pair(m, i, x, y) {
            1int
        } else {
            0int
        }),
{
    lemma_pair_count_take(m, i, x, y, matches_per_round(m));
    assert(round_model(m, i).take(matches_per_round(m)) =~= round_model(m, i));
    if round_has_pair(m, i, x, y) {
        assert(pair_slot(m, i, x, y) < matches_per_round(m));
    }
}

/// The meeting round of `{x, y}` is the one round that holds the pair.
proof fn lemma_meeting_round(m: int, x: int, y: int)
    requires
        m >= 1,
        m % 2 == 1,
        0 <= x < y <= m,
    ensures
        0 <= meeting_round(m, x, y) < m,
        round_has_pair(m, meeting_round(m, x, y), x, y),
        forall|i: int|
            0 <= i < m && round_has_pair(m, i, x, y) ==> i == meeting_round(m, x, y),
{
    let r = meeting_round(m, x, y);
    if y == m {
        assert(round_has_pair(m, r, x, y));
    } else {
        assert(round_has_pair(m, r, x, y));
        assert forall|i: int| 0 <= i < m && round_has_pair(m, i, x, y) implies i == r by {
            assert(offset(i, x, m) + offset(i, y, m) == m);
        }
    }
}

/// Counting matches of `{x, y}` over the first `k` rounds of the schedule
/// sees the pair exactly once once `k` passes its meeting round.
proof fn lemma_schedule_pair_count_take(n: int, x: int, y: int, k: int)
    requires
        n >= 2,
        0 <= x < y < effective(n),
        0 <= k <= num_rounds(n),
    ensures
        schedule_pair_count(schedule_model(n).take(k), x, y) == (if meeting_round(
            effective(n) - 1,
            x,
            y,
        ) < k {
            1int
        } else {
            0int
        }),
    decreases k,
{
    let m = effective(n) - 1;
    assert(m >= 1 && m % 2 == 1);
    let ss = schedule_model(n);
    if k == 0 {
        assert(ss.take(0).len() == 0);
    } else {
        lemma_schedule_pair_count_take(n, x, y, k - 1);
        assert(ss.take(k).drop_last() =~= ss.take(k - 1));
        assert(ss.take(k).last() == round_model(m, k - 1));
        lemma_pair_count_round(m, k - 1, x, y);
        lemma_meeting_round(m, x, y);
    }
}

/// Across the whole schedule, every unordered pair of distinct effective
/// identifiers meets in exactly one match of exactly one round.
pub proof fn lemma_pair_meets_exactly_once(n: int, x: int, y: int)
    requires
        0 <= x < y < effective(n),
    ensures
        schedule_pair_count(schedule_model(n), x, y) == 1,
{
    let m = effective(n) - 1;
    assert(n >= 2);
    lemma_schedule_pair_count_take(n, x, y, num_rounds(n));
    assert(schedule_model(n).take(num_rounds(n)) =~= schedule_model(n));
    lemma_meeting_round(m, x, y);
}

/// An odd player count draws the very same schedule as the next even one:
/// the odd count is normalized up before anything else happens.
pub proof fn lemma_odd_even_agree(n: int)
    requires
        n % 2 == 1,
        n >= 3,
    ensures
        schedule_model(n) == schedule_model(n + 1),
{
    assert(effective(n) == effective(n + 1));
    assert(num_rounds(n) == num_rounds(n + 1));
    assert(schedule_model(n) =~~= schedule_model(n + 1));
}

} // verus!
