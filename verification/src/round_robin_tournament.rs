//! The round-robin tournament draw.

use vstd::prelude::*;

use crate::model::{as_pairs, match_at, num_rounds, round_model, schedule_model};

verus! {

/// Draws the rounds of a round-robin tournament for `number_of_players`.
///
/// Each player is a `u32` identifier; the result lists the rounds in order,
/// each round an ordered list of matches `(a, b)`. For an odd count the
/// draw runs over `number_of_players + 1` identifiers, so the player paired
/// against the highest identifier has a bye that round. Zero or one players
/// need no rounds, and the result is then empty.
///
/// The result is exactly the circle-method schedule: the highest
/// identifier stands still as the anchor while the rest rotate, which
/// makes every pair of identifiers meet exactly once (proved in
/// [`crate::laws`]).
pub fn draw(number_of_players: u32) -> (rounds: Vec<Vec<(u32, u32)>>)
    ensures
        rounds@.len() == num_rounds(number_of_players as int),
        forall|i: int|
            0 <= i < rounds@.len() ==> as_pairs((#[trigger] rounds@[i])@) == schedule_model(
                number_of_players as int,
            )[i],
{
    if number_of_players <= 1 {
        let rounds: Vec<Vec<(u32, u32)>> = Vec::new();
        return rounds;
    }
    let e: u64 = if number_of_players % 2 == 0 {
        number_of_players as u64
    } else {
        number_of_players as u64 + 1
    };
    let m: u64 = e - 1;
    let h: u64 = (e - 2) / 2;
    let ghost gm: int = m as int;
    let mut rounds: Vec<Vec<(u32, u32)>> = Vec::new();
    let mut i: u64 = 0;
    while i < m
        invariant
            2 <= e <= 0x1_0000_0000,
            e % 2 == 0,
            m == e - 1,
            h == (e - 2) / 2,
            gm == m as int,
            i <= m,
            rounds@.len() == i as int,
            forall|k: int|
                0 <= k < i as int ==> as_pairs((#[trigger] rounds@[k])@) == round_model(gm, k),
        decreases m - i,
    {
        let mut pairs: Vec<(u32, u32)> = Vec::new();
        pairs.push((i as u32, m as u32));
        let mut j: u64 = 1;
        while j <= h
            invariant
                2 <= e <= 0x1_0000_0000,
                e % 2 == 0,
                m == e - 1,
                h == (e - 2) / 2,
                gm == m as int,
                i < m,
                1 <= j <= h + 1,
                pairs@.len() == j as int,
                forall|t: int|
                    0 <= t < j as int ==> ((#[trigger] pairs@[t]).0 as int, pairs@[t].1 as int)
                        == match_at(gm, i as int, t),
            decreases h + 1 - j,
        {
            let a: u64 = if i + j < m {
                i + j
            } else {
                i + j - m
            };
            let b: u64 = if i + (m - j) < m {
                i + (m - j)
            } else {
                i + (m - j) - m
            };
            pairs.push((a as u32, b as u32));
            j = j + 1;
        }
        assert(as_pairs(pairs@) =~= round_model(gm, i as int));
        rounds.push(pairs);
        i = i + 1;
    }
    rounds
}

} // verus!
