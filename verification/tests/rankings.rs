use convlog::rankings::Rankings;

#[test]
fn rankings() {
    let mut scores = [25000, 25000, 30000, 20000];

    let rk = Rankings::new(scores);
    assert_eq!(rk.player_by_rank, [2, 0, 1, 3]);
    assert_eq!(rk.rank_by_player, [1, 2, 0, 3]);
    *scores.iter_mut().min_by_key(|s| -**s).unwrap() = 0;
    assert_eq!(scores, [25000, 25000, 0, 20000]);

    scores = [25000, 25000, 25000, 25000];
    let rk = Rankings::new(scores);
    assert_eq!(rk.player_by_rank, [0, 1, 2, 3]);
    assert_eq!(rk.rank_by_player, [0, 1, 2, 3]);
    *scores.iter_mut().min_by_key(|s| -**s).unwrap() = 0;
    assert_eq!(scores, [0, 25000, 25000, 25000]);

    scores = [18000, 32000, 32000, 18000];
    let rk = Rankings::new(scores);
    assert_eq!(rk.player_by_rank, [1, 2, 0, 3]);
    assert_eq!(rk.rank_by_player, [2, 0, 1, 3]);
    *scores.iter_mut().min_by_key(|s| -**s).unwrap() = 0;
    assert_eq!(scores, [18000, 0, 32000, 18000]);

    scores = [32000, 18000, 18000, 32000];
    let rk = Rankings::new(scores);
    assert_eq!(rk.player_by_rank, [0, 3, 1, 2]);
    assert_eq!(rk.rank_by_player, [0, 2, 3, 1]);
    *scores.iter_mut().min_by_key(|s| -**s).unwrap() = 0;
    assert_eq!(scores, [0, 18000, 18000, 32000]);

    scores = [0, 100000, 0, 0];
    let rk = Rankings::new(scores);
    assert_eq!(rk.player_by_rank, [1, 0, 2, 3]);
    assert_eq!(rk.rank_by_player, [1, 0, 2, 3]);
    *scores.iter_mut().min_by_key(|s| -**s).unwrap() = 0;
    assert_eq!(scores, [0; 4]);
}

#[test]
fn rankings_new_n_places_only_the_first_seats() {
    let rk = Rankings::new_n(&[1000, 3000, 2000, 99999], 3);
    assert_eq!(rk.player_by_rank, [1, 2, 0, 3]);
    assert_eq!(rk.rank_by_player, [2, 0, 1, 3]);

    let rk = Rankings::new_n(&[1000, 3000, 2000, 4000], 2);
    assert_eq!(rk.player_by_rank, [1, 0, 2, 3]);
    assert_eq!(rk.rank_by_player, [1, 0, 2, 2]);

    let rk = Rankings::new_n(&[1000, 3000, 2000, 4000], 0);
    assert_eq!(rk.player_by_rank, [0, 1, 2, 3]);
    assert_eq!(rk.rank_by_player, [0, 0, 0, 0]);
}

#[test]
fn rankings_sanma_ties_keep_seat_order() {
    let rk = Rankings::new_sanma([35000, 35000, 35000]);
    assert_eq!(rk.player_by_rank, [0, 1, 2, 3]);
    assert_eq!(rk.rank_by_player, [0, 1, 2, 3]);

    let rk = Rankings::new_sanma([20000, 45000, 40000]);
    assert_eq!(rk.player_by_rank, [1, 2, 0, 3]);
    assert_eq!(rk.rank_by_player, [2, 0, 1, 3]);
}
