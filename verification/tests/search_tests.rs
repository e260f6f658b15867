use takeiteasy::ai::{best_field, Estimate, AI};
use takeiteasy::tile::{NumLeft, NumRight, NumTop, Tile};
use takeiteasy::{Board, Coordinate, Field, Game, GameError, TileReservoir};

fn field(column: i32, row: i32) -> Field {
    Field {
        column: Coordinate::from_int(column).unwrap(),
        row: Coordinate::from_int(row).unwrap(),
    }
}

fn tile(top: i32, left: i32, right: i32) -> Tile {
    Tile {
        top: NumTop::from_int(top).unwrap(),
        left: NumLeft::from_int(left).unwrap(),
        right: NumRight::from_int(right).unwrap(),
    }
}

fn board_without(missing: &[Field]) -> Board {
    let placements = vec![
        (field(1, 1), tile(9, 7, 3)),
        (field(1, 2), tile(9, 2, 4)),
        (field(1, 3), tile(9, 2, 3)),
        (field(2, 1), tile(5, 6, 8)),
        (field(2, 2), tile(5, 2, 8)),
        (field(2, 3), tile(1, 2, 4)),
        (field(2, 4), tile(5, 6, 3)),
        (field(3, 1), tile(1, 6, 3)),
        (field(3, 2), tile(1, 2, 8)),
        (field(3, 3), tile(9, 6, 4)),
        (field(3, 4), tile(1, 7, 4)),
        (field(3, 5), tile(1, 7, 3)),
        (field(4, 1), tile(1, 2, 3)),
        (field(4, 2), tile(1, 6, 8)),
        (field(4, 3), tile(1, 7, 8)),
        (field(4, 4), tile(5, 7, 4)),
        (field(5, 1), tile(5, 2, 3)),
        (field(5, 2), tile(5, 7, 8)),
        (field(5, 3), tile(5, 7, 3)),
    ];
    let mut board = Board::new();
    for (f, t) in placements {
        if !missing.contains(&f) {
            assert_eq!(board.place_tile(f, t), Ok(()));
        }
    }
    board
}

fn estimate(numerator: u128, denominator: u128) -> Estimate {
    Estimate {
        numerator,
        denominator,
    }
}

#[test]
fn test_depth_zero_is_the_value_of_the_position() {
    for board in [
        Board::new(),
        board_without(&[field(5, 3)]),
        board_without(&[field(5, 3), field(3, 1)]),
        board_without(&[]),
    ] {
        assert_eq!(
            AI::estimated_score(&board, 0),
            AI::eval_position(&board)
        );
    }
    assert_eq!(AI::eval_position(&Board::new()), Ok(estimate(456, 1)));
    assert_eq!(
        AI::eval_position(&board_without(&[field(5, 3)])),
        Ok(estimate(137, 1))
    );
    assert_eq!(AI::eval_position(&board_without(&[])), Ok(estimate(137, 1)));
}

#[test]
fn test_full_board_is_worth_its_score_at_any_depth() {
    let board = board_without(&[]);
    assert!(board.is_full());
    assert_eq!(board.score(), 137);
    for depth in [0, 1, 2, 5, 19, 1000, -1, i32::MIN, i32::MAX] {
        assert_eq!(AI::estimated_score(&board, depth), Ok(estimate(137, 1)));
    }
}

#[test]
fn test_one_level_is_the_mean_over_the_remaining_tiles() {
    let board = board_without(&[field(5, 3)]);
    // nine tiles remain; the scores of the nine full boards sum to 1017
    assert_eq!(board.remaining_tiles().len(), 9);
    assert_eq!(AI::estimated_score(&board, 1), Ok(estimate(1017, 9)));
    // the board is full one level down, so a deeper search sees the same
    assert_eq!(AI::estimated_score(&board, 2), Ok(estimate(1017, 9)));
    assert_eq!(AI::estimated_score(&board, -1), Ok(estimate(1017, 9)));
}

#[test]
fn test_two_levels_on_two_empty_fields() {
    let board = board_without(&[field(5, 3), field(3, 1)]);
    assert_eq!(AI::estimated_score(&board, 0), Ok(estimate(137, 1)));
    assert_eq!(AI::estimated_score(&board, 1), Ok(estimate(1307, 10)));
    assert_eq!(AI::estimated_score(&board, 2), Ok(estimate(10080, 90)));
    assert_eq!(AI::estimated_score(&board, 3), Ok(estimate(10080, 90)));
    assert_eq!(AI::estimated_score(&board, -7), Ok(estimate(10080, 90)));
}

#[test]
fn test_one_level_from_the_start() {
    assert_eq!(
        AI::estimated_score(&Board::new(), 1),
        Ok(estimate(11541, 27))
    );
    let mut board = Board::new();
    assert_eq!(board.place_tile(field(1, 1), tile(1, 2, 3)), Ok(()));
    assert_eq!(AI::estimated_score(&board, 1), Ok(estimate(9861, 26)));
}

#[test]
fn test_best_field_takes_the_first_of_the_largest() {
    assert_eq!(best_field(&vec![]), Err(GameError::EmptyScoreMapping));
    assert_eq!(best_field(&vec![(field(2, 2), 0)]), Ok(field(2, 2)));
    assert_eq!(
        best_field(&vec![(field(1, 1), 3), (field(1, 2), 9), (field(1, 3), 4)]),
        Ok(field(1, 2))
    );
    assert_eq!(
        best_field(&vec![
            (field(1, 1), 3),
            (field(1, 2), 9),
            (field(1, 3), 9),
            (field(2, 1), 1)
        ]),
        Ok(field(1, 2))
    );
    assert_eq!(
        best_field(&vec![(field(5, 3), 7), (field(1, 1), 7)]),
        Ok(field(5, 3))
    );
}

#[test]
fn test_rate_fields_rates_every_empty_field() {
    let board = board_without(&[field(5, 3), field(3, 1)]);
    let rated = AI::rate_fields(&board, tile(5, 7, 3), 0).unwrap();
    assert_eq!(rated.len(), 2);
    assert_eq!(rated[0].0, field(3, 1));
    assert_eq!(rated[1].0, field(5, 3));
    for (f, e) in rated.iter() {
        let next = board.place_tile_on_new_board(*f, tile(5, 7, 3)).unwrap();
        assert_eq!(Ok(*e), AI::estimated_score(&next, 0));
    }
    let deeper = AI::rate_fields(&board, tile(5, 7, 3), 1).unwrap();
    assert_eq!(deeper[0].1.denominator, 9);
    assert_eq!(deeper[1].1.denominator, 9);

    assert_eq!(
        AI::rate_fields(&board, tile(9, 7, 3), 0).err(),
        Some(GameError::TileAlreadyUsed)
    );
    assert_eq!(
        AI::rate_fields(&board_without(&[]), tile(5, 2, 4), 0),
        Ok(vec![])
    );
}

#[test]
fn test_play_turn_puts_the_tile_on_the_best_field() {
    let mut game = Game::new();
    let mut turns = 0;
    while !game.finished() {
        let tile_in_hand = game.current_tile().unwrap();
        let before = game.board().clone();
        let rated = AI::play_turn(&mut game, 0).unwrap();
        assert_eq!(rated.len(), 19 - turns);
        let scores: Vec<(Field, u128)> = rated.iter().map(|(f, e)| (*f, e.numerator)).collect();
        let best = best_field(&scores).unwrap();
        assert_eq!(before.get(best), None);
        assert_eq!(game.board().get(best), Some(tile_in_hand));
        assert_eq!(game.board().len(), before.len() + 1);
        assert!(!game.board().holds(&game.current_tile().unwrap()));
        turns += 1;
    }
    assert_eq!(turns, 19);
    assert_eq!(
        AI::play_turn(&mut game, 0).err(),
        Some(GameError::EmptyScoreMapping)
    );
    assert!(game.finished());
}

#[test]
fn test_play_game_ends_with_a_possible_score() {
    for depth in [0, 0, 0] {
        let score = AI::play_game(depth);
        assert!(score <= 307);
    }
}

#[test]
fn test_engine_can_be_made() {
    assert!(AI::new().is_ok());
}

#[test]
fn test_game_refuses_what_the_board_refuses() {
    let mut game = Game::new();
    let first = game.current_tile().unwrap();
    assert_eq!(game.place_tile(field(1, 4)), Err(GameError::InvalidField));
    assert_eq!(game.current_tile(), Some(first));
    assert!(game.board().is_empty());

    assert_eq!(game.place_tile(field(1, 1)), Ok(()));
    assert_eq!(game.board().get(field(1, 1)), Some(first));
    let second = game.current_tile().unwrap();
    assert_ne!(second, first);
    assert_eq!(game.place_tile(field(1, 1)), Err(GameError::FieldOccupied));
    assert_eq!(game.current_tile(), Some(second));
    assert_eq!(game.board().len(), 1);
}

#[test]
fn test_game_never_draws_a_tile_twice() {
    let mut game = Game::new();
    let mut seen: Vec<Tile> = vec![game.current_tile().unwrap()];
    for f in Board::all_fields() {
        assert_eq!(game.place_tile(f), Ok(()));
        let next = game.current_tile().unwrap();
        assert!(!seen.contains(&next));
        seen.push(next);
    }
    assert!(game.finished());
    assert_eq!(seen.len(), 20);
}

#[test]
fn test_reservoir_runs_dry() {
    let mut reservoir = TileReservoir::new();
    let mut drawn: Vec<Tile> = Vec::new();
    for left in (0..27).rev() {
        let t = reservoir.pick_random_tile().unwrap();
        assert!(!drawn.contains(&t));
        assert!(!reservoir.contains(&t));
        drawn.push(t);
        assert_eq!(reservoir.remaining_tiles.len(), left);
    }
    assert_eq!(
        reservoir.pick_random_tile(),
        Err(GameError::ReservoirExhausted)
    );
    assert!(reservoir.remaining_tiles.is_empty());
}

#[test]
fn test_pick_tile_and_pick_tile_at() {
    let mut reservoir = TileReservoir::new();
    assert_eq!(reservoir.pick_tile(&tile(1, 2, 4)), Ok(()));
    let mut expected = TileReservoir::all_tiles();
    expected.remove(1);
    assert_eq!(reservoir.remaining_tiles, expected);
    assert_eq!(
        reservoir.pick_tile(&tile(1, 2, 4)),
        Err(GameError::TileAlreadyUsed)
    );
    assert_eq!(reservoir.remaining_tiles, expected);

    assert_eq!(reservoir.pick_tile_at(0), Ok(tile(1, 2, 3)));
    assert_eq!(reservoir.pick_tile_at(24), Ok(tile(9, 7, 8)));
    assert_eq!(
        reservoir.pick_tile_at(24),
        Err(GameError::ReservoirExhausted)
    );
    assert_eq!(reservoir.remaining_tiles.len(), 24);
    let copy = reservoir.clone();
    assert_eq!(copy.remaining_tiles, reservoir.remaining_tiles);
}

#[test]
fn test_estimate_lies_between_score_and_bound() {
    for board in [
        Board::new(),
        board_without(&[field(5, 3)]),
        board_without(&[field(5, 3), field(3, 1)]),
        board_without(&[field(1, 1), field(2, 1), field(3, 1)]),
        board_without(&[]),
    ] {
        for depth in [0, 1] {
            let e = AI::estimated_score(&board, depth).unwrap();
            assert!(e.denominator >= 1);
            assert!(board.score() as u128 * e.denominator <= e.numerator);
            assert!(e.numerator <= board.max_score() as u128 * e.denominator);
        }
    }
    // 92 <= 10080 / 90 = 112 <= 137
    let board = board_without(&[field(5, 3), field(3, 1)]);
    assert_eq!((board.score(), board.max_score()), (92, 137));
}

#[test]
fn test_the_game_is_what_the_engine_makes_of_the_draws() {
    let mut game = Game::new();
    let mut draws: Vec<Tile> = Vec::new();
    while !game.finished() {
        draws.push(game.current_tile().unwrap());
        assert!(AI::play_turn(&mut game, 0).is_ok());
    }
    assert_eq!(draws.len(), 19);
    for (i, a) in draws.iter().enumerate() {
        for b in draws.iter().skip(i + 1) {
            assert_ne!(a, b);
        }
    }

    // the same tiles, each put on the first of the best-rated fields
    let mut replay = Board::new();
    for t in draws.iter() {
        let rated = AI::rate_fields(&replay, *t, 0).unwrap();
        let scores: Vec<(Field, u128)> = rated.iter().map(|(f, e)| (*f, e.numerator)).collect();
        let choice = best_field(&scores).unwrap();
        assert_eq!(replay.place_tile(choice, *t), Ok(()));
    }
    assert!(replay.is_full());
    for f in Board::all_fields() {
        assert_eq!(replay.get(f), game.board().get(f));
    }
    assert_eq!(replay.score(), game.board().score());
}
