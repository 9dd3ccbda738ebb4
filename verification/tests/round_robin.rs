use round_robin_tournament::round_robin_tournament::draw;

fn tournament_test_data() -> Vec<Vec<(u32, u32)>> {
    vec![
        vec![(0, 9), (1, 8), (2, 7), (3, 6), (4, 5)],
        vec![(1, 9), (2, 0), (3, 8), (4, 7), (5, 6)],
        vec![(2, 9), (3, 1), (4, 0), (5, 8), (6, 7)],
        vec![(3, 9), (4, 2), (5, 1), (6, 0), (7, 8)],
        vec![(4, 9), (5, 3), (6, 2), (7, 1), (8, 0)],
        vec![(5, 9), (6, 4), (7, 3), (8, 2), (0, 1)],
        vec![(6, 9), (7, 5), (8, 4), (0, 3), (1, 2)],
        vec![(7, 9), (8, 6), (0, 5), (1, 4), (2, 3)],
        vec![(8, 9), (0, 7), (1, 6), (2, 5), (3, 4)],
    ]
}

#[test]
fn round_robin_10_player() {
    let result = draw(10);
    result.iter().for_each(|r| {
        println!("{:?}", r);
    });
    assert_eq!(result, tournament_test_data());
}

#[test]
fn round_robin_9_player() {
    let result = draw(9);
    assert_eq!(result, tournament_test_data());
}

#[test]
fn empty_schedule_for_zero_players() {
    let result = draw(0);
    assert_eq!(result, Vec::<Vec<(u32, u32)>>::new());
}

#[test]
fn empty_schedule_for_one_player() {
    let result = draw(1);
    assert_eq!(result, Vec::<Vec<(u32, u32)>>::new());
}

#[test]
fn two_players_single_round() {
    let result = draw(2);
    assert_eq!(result, vec![vec![(0, 1)]]);
}
