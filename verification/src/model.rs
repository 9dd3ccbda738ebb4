//! Mathematical model of the circle-method schedule.
//!
//! A tournament over an even count `e` of identifiers fixes the highest
//! identifier `m = e - 1` as a stationary anchor and rotates the remaining
//! `m` identifiers. In round `i` the anchor meets identifier `i`, and the
//! other matches reflect the rotating identifiers around the circle. The
//! functions here give that schedule in closed form, together with the
//! counting functions that the scheduling laws are stated over.

use vstd::prelude::*;

verus! {

/// The even-normalized count of identifiers the schedule is drawn over:
/// the player count rounded up to even, and zero when fewer than two
/// players enter (no rounds are needed then).
pub open spec fn effective(n: int) -> int {
    if n <= 1 {
        0
    } else if n % 2 == 0 {
        n
    } else {
        n + 1
    }
}

/// How many rounds the schedule holds: one fewer than the effective
/// count, and zero for fewer than two players.
pub open spec fn num_rounds(n: int) -> int {
    if n <= 1 {
        0
    } else {
        effective(n) - 1
    }
}

/// Reduces `a` into `[0, m)`, assuming `a` lies in `[0, 2m)`.
pub open spec fn wrap(a: int, m: int) -> int {
    if a < m {
        a
    } else {
        a - m
    }
}

/// Matches in one round over `m` rotating identifiers and the anchor:
/// one match against the anchor plus `(m - 1) / 2` matches among the
/// rotating identifiers.
pub open spec fn matches_per_round(m: int) -> int {
    (m + 1) / 2
}

/// The match in slot `j` of round `i`, over `m` rotating identifiers and
/// the anchor `m`. Slot 0 pairs identifier `i` with the anchor; slot
/// `j >= 1` pairs the identifiers at distances `j` and `m - j` ahead of
/// `i` on the rotating circle.
pub open spec fn match_at(m: int, i: int, j: int) -> (int, int) {
    if j == 0 {
        (i, m)
    } else {
        (wrap(i + j, m), wrap(i + (m - j), m))
    }
}

/// Round `i` of the schedule over `m` rotating identifiers, as the
/// sequence of its matches.
pub open spec fn round_model(m: int, i: int) -> Seq<(int, int)> {
    Seq::new(matches_per_round(m) as nat, |j: int| match_at(m, i, j))
}

/// The whole schedule for a player count `n`.
pub open spec fn schedule_model(n: int) -> Seq<Seq<(int, int)>> {
    Seq::new(num_rounds(n) as nat, |i: int| round_model(effective(n) - 1, i))
}

/// The mathematical pairs of one executable round.
pub open spec fn as_pairs(s: Seq<(u32, u32)>) -> Seq<(int, int)> {
    s.map_values(|p: (u32, u32)| (p.0 as int, p.1 as int))
}

/// How often identifier `x` occupies a slot of match `p`.
pub open spec fn id_hits(p: (int, int), x: int) -> int {
    (if p.0 == x {
        1int
    } else {
        0int
    }) + (if p.1 == x {
        1int
    } else {
        0int
    })
}

/// How often identifier `x` occupies a slot across the matches of round `s`.
pub open spec fn id_count(s: Seq<(int, int)>, x: int) -> int
    decreases s.len(),
{
    if s.len() == 0 {
        0
    } else {
        id_count(s.drop_last(), x) + id_hits(s.last(), x)
    }
}

/// Whether match `p` is the unordered pair `{x, y}`.
pub open spec fn is_match_of(p: (int, int), x: int, y: int) -> bool {
    (p.0 == x && p.1 == y) || (p.0 == y && p.1 == x)
}

/// How many matches of round `s` pair `x` with `y`.
pub open spec fn pair_count(s: Seq<(int, int)>, x: int, y: int) -> int
    decreases s.len(),
{
    if s.len() == 0 {
        0
    } else {
        pair_count(s.drop_last(), x, y) + (if is_match_of(s.last(), x, y) {
            1int
        } else {
            0int
        })
    }
}

/// How many matches across the whole schedule `ss` pair `x` with `y`.
pub open spec fn schedule_pair_count(ss: Seq<Seq<(int, int)>>, x: int, y: int) -> int
    decreases ss.len(),
{
    if ss.len() == 0 {
        0
    } else {
        schedule_pair_count(ss.drop_last(), x, y) + pair_count(ss.last(), x, y)
    }
}

} // verus!
