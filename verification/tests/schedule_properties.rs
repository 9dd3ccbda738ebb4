use round_robin_tournament::round_robin_tournament::draw;

fn effective(n: u32) -> u32 {
    if n <= 1 {
        0
    } else if n % 2 == 0 {
        n
    } else {
        n + 1
    }
}

/// Checks the three schedule invariants for a player count: the round
/// count, that each round is a perfect matching over the effective
/// identifiers, and that every unordered pair meets exactly once.
fn check_schedule_invariants(n: u32) {
    let e: u32 = effective(n);
    let schedule = draw(n);

    let expected_rounds: usize = if e == 0 { 0 } else { (e - 1) as usize };
    assert_eq!(schedule.len(), expected_rounds);

    for round in &schedule {
        assert_eq!(round.len(), (e / 2) as usize);
        let mut seen = vec![false; e as usize];
        for &(a, b) in round {
            assert!(a < e);
            assert!(b < e);
            assert_ne!(a, b);
            assert!(!seen[a as usize]);
            assert!(!seen[b as usize]);
            seen[a as usize] = true;
            seen[b as usize] = true;
        }
        assert!(seen.iter().all(|&s| s));
    }

    for x in 0..e {
        for y in (x + 1)..e {
            let mut count: u32 = 0;
            for round in &schedule {
                for &(a, b) in round {
                    if (a == x && b == y) || (a == y && b == x) {
                        count += 1;
                    }
                }
            }
            assert_eq!(count, 1);
        }
    }
}

#[test]
fn schedule_invariants_4_players() {
    check_schedule_invariants(4);
}

#[test]
fn schedule_invariants_6_players() {
    check_schedule_invariants(6);
}

#[test]
fn schedule_invariants_8_players() {
    check_schedule_invariants(8);
}

#[test]
fn schedule_invariants_edge_counts() {
    check_schedule_invariants(0);
    check_schedule_invariants(1);
    check_schedule_invariants(2);
    check_schedule_invariants(3);
}

#[test]
fn draw_is_deterministic() {
    assert_eq!(draw(10), draw(10));
    assert_eq!(draw(7), draw(7));
    assert_eq!(draw(0), draw(0));
}

#[test]
fn odd_count_matches_next_even() {
    assert_eq!(draw(3), draw(4));
    assert_eq!(draw(5), draw(6));
    assert_eq!(draw(7), draw(8));
}
