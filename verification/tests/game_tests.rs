use red_alert::boat::Boat;
use red_alert::error::{DuplicateName, GameError, OutOfBounds, PlacementError};
use red_alert::fleet::boats_vec_to_map;
use red_alert::game::{Shot, MIN_BOARD_X_LEN, MIN_BOARD_Y_LEN};
use red_alert::{InvalidGame, RedAlert};

fn boat_of(game: &RedAlert, name: &str, x_len: u32, y_len: u32) -> u128 {
    let boats = game.get_player_boats(name).unwrap();
    for boat in boats.values() {
        if boat.x_len() == x_len && boat.y_len() == y_len {
            return boat.id();
        }
    }
    panic!("no boat of that shape");
}

fn message(outcome: Result<RedAlert, InvalidGame>) -> String {
    match outcome {
        Ok(_) => panic!("the game was accepted"),
        Err(e) => e.to_string(),
    }
}

#[test]
fn game_needs_five_columns_and_five_rows() {
    assert_eq!(MIN_BOARD_X_LEN, 5);
    assert_eq!(MIN_BOARD_Y_LEN, 5);
    assert!(RedAlert::new(5, 5).is_ok());
    assert!(RedAlert::new(4, 5).is_err());
    assert!(RedAlert::new(5, 4).is_err());
    assert!(RedAlert::new(0, 0).is_err());
    assert!(RedAlert::new(u32::MAX, 5).is_ok());
    let game = RedAlert::new(7, 12).unwrap();
    assert_eq!(game.board_x_len(), 7);
    assert_eq!(game.board_y_len(), 12);
    assert!(game.get_winner().is_none());
}

#[test]
fn refused_game_says_why() {
    assert_eq!(
        message(RedAlert::new(4, 9)),
        "Expected x_len shall be in the range 5.. Provided: 4"
    );
    assert_eq!(
        message(RedAlert::new(9, 0)),
        "Expected y_len shall be in the range 5.. Provided: 0"
    );
    assert_eq!(
        message(RedAlert::new(3, 2)),
        "Expected x_len shall be in the range 5.. Provided: 3"
    );
    assert_eq!(
        message(RedAlert::new(4294967295, 1)),
        "Expected y_len shall be in the range 5.. Provided: 1"
    );
}

#[test]
fn add_player_builds_board_and_fleet() {
    let mut game = RedAlert::new(5, 5).unwrap();
    assert_eq!(game.add_player("ada"), Ok(()));
    let board = game.get_player_board("ada").unwrap();
    assert_eq!((board.x_len(), board.y_len()), (5, 5));
    for x in 0..5 {
        for y in 0..5 {
            assert_eq!(board.is_hit(x, y), Ok(false));
            assert_eq!(board.is_attacked(x, y), Ok(false));
        }
    }
    let boats = game.get_player_boats("ada").unwrap();
    assert_eq!(boats.len(), 2);
    let mut shapes: Vec<(u32, u32)> = boats.values().map(|b| (b.x_len(), b.y_len())).collect();
    shapes.sort();
    assert_eq!(shapes, vec![(1, 3), (2, 1)]);
    for (id, boat) in boats.iter() {
        assert_eq!(*id, boat.id());
        assert!(!boat.is_placed());
        assert_eq!(boat.remaining_intact_pieces(), 0);
    }
}

#[test]
fn fleet_grows_with_the_board() {
    let mut game = RedAlert::new(10, 10).unwrap();
    assert_eq!(game.add_player("ada"), Ok(()));
    let boats = game.get_player_boats("ada").unwrap();
    let mut shapes: Vec<(u32, u32)> = boats.values().map(|b| (b.x_len(), b.y_len())).collect();
    shapes.sort();
    assert_eq!(shapes, vec![(1, 1), (1, 3), (1, 3), (1, 5), (2, 1), (2, 1), (4, 1)]);
    let pieces: u32 = boats.values().map(|b| b.get_n_pieces()).sum();
    assert_eq!(pieces, 20);
}

#[test]
fn names_are_taken_once() {
    let mut game = RedAlert::new(5, 5).unwrap();
    assert_eq!(game.add_player("ada"), Ok(()));
    let id = boat_of(&game, "ada", 2, 1);
    assert_eq!(game.add_player("ada"), Err(DuplicateName));
    assert_eq!(boat_of(&game, "ada", 2, 1), id);
    assert_eq!(game.add_player("Ada"), Ok(()));
    assert_eq!(game.add_player(""), Ok(()));
    assert_eq!(game.add_player(""), Err(DuplicateName));
    assert_eq!(
        game.add_player_with_fleet("ada", boats_vec_to_map(Vec::new())),
        Err(DuplicateName)
    );
}

#[test]
fn unknown_player() {
    let mut game = RedAlert::new(5, 5).unwrap();
    assert_eq!(game.add_player("ada"), Ok(()));
    let id = boat_of(&game, "ada", 2, 1);
    assert_eq!(game.place_boat("bob", &id, 0, 0), Err(GameError::UnknownPlayer));
    assert_eq!(game.hit("bob", 0, 0), Err(GameError::UnknownPlayer));
    assert!(game.get_player_board("bob").is_none());
    assert!(game.get_player_mut_board("bob").is_none());
    assert!(game.get_player_boats("bob").is_none());
    assert_eq!(game.get_player_board("ada").unwrap().is_hit(0, 0), Ok(false));
}

#[test]
fn placement_errors_reach_the_caller() {
    let mut game = RedAlert::new(5, 5).unwrap();
    assert_eq!(game.add_player("ada"), Ok(()));
    let two = boat_of(&game, "ada", 2, 1);
    let three = boat_of(&game, "ada", 1, 3);
    assert_eq!(game.place_boat("ada", &0, 0, 0), Err(GameError::UnknownBoat));
    assert_eq!(game.place_boat("ada", &two, 4, 0), Err(GameError::OutOfBounds));
    assert_eq!(game.place_boat("ada", &two, 0, 0), Ok(()));
    assert_eq!(game.place_boat("ada", &three, 2, 1), Err(GameError::Overlap));
    assert_eq!(game.place_boat("ada", &three, 3, 3), Err(GameError::OutOfBounds));
    assert_eq!(game.place_boat("ada", &three, 3, 2), Ok(()));
    assert_eq!(GameError::from_placement(PlacementError::Overlap), GameError::Overlap);
    assert_eq!(GameError::from_placement(PlacementError::OutOfBounds), GameError::OutOfBounds);
}

#[test]
fn each_player_has_a_board_of_their_own() {
    let mut game = RedAlert::new(5, 5).unwrap();
    assert_eq!(game.add_player("ada"), Ok(()));
    assert_eq!(game.add_player("bob"), Ok(()));
    let two = boat_of(&game, "ada", 2, 1);
    assert_eq!(game.place_boat("ada", &two, 0, 0), Ok(()));
    assert_eq!(game.place_boat("bob", &two, 0, 0), Err(GameError::UnknownBoat));
    assert_eq!(game.get_player_board("ada").unwrap().is_hit(0, 0), Ok(true));
    assert_eq!(game.get_player_board("bob").unwrap().is_hit(0, 0), Ok(false));
    assert_eq!(game.hit("bob", 0, 0), Ok(false));
    assert_eq!(game.get_player_board("ada").unwrap().is_attacked(0, 0), Ok(false));
    assert_eq!(game.get_player_board("bob").unwrap().is_attacked(0, 0), Ok(true));
}

#[test]
fn hit_through_the_game() {
    let mut game = RedAlert::new(6, 5).unwrap();
    assert_eq!(game.add_player("ada"), Ok(()));
    let one = boat_of(&game, "ada", 1, 1);
    assert_eq!(game.place_boat("ada", &one, 5, 4), Ok(()));
    assert_eq!(game.hit("ada", 6, 4), Err(GameError::OutOfBounds));
    assert_eq!(game.hit("ada", 5, 5), Err(GameError::OutOfBounds));
    assert_eq!(game.hit("ada", 4, 4), Ok(false));
    assert_eq!(game.hit("ada", 5, 4), Ok(true));
    assert_eq!(game.hit("ada", 5, 4), Ok(true));
    let boats = game.get_player_boats("ada").unwrap();
    assert_eq!(boats.get(&one).unwrap().remaining_intact_pieces(), 1);
}

#[test]
fn mutable_board_of_a_player() {
    let mut game = RedAlert::new(5, 5).unwrap();
    assert_eq!(game.add_player("ada"), Ok(()));
    assert_eq!(game.add_player("bob"), Ok(()));
    let board = game.get_player_mut_board("bob").unwrap();
    let mut none = std::collections::HashMap::new();
    assert_eq!(board.hit(&mut none, 1, 2), Ok(false));
    assert_eq!(board.hit(&mut none, 7, 2), Err(OutOfBounds));
    assert_eq!(game.get_player_board("bob").unwrap().is_attacked(1, 2), Ok(true));
    assert_eq!(game.get_player_board("ada").unwrap().is_attacked(1, 2), Ok(false));
}

#[test]
fn nobody_wins_while_two_are_alive_or_none_is() {
    let mut game = RedAlert::new(5, 5).unwrap();
    assert!(game.get_winner().is_none());
    assert_eq!(game.add_player_with_fleet("nobody", boats_vec_to_map(Vec::new())), Ok(()));
    assert!(game.get_winner().is_none());
    assert_eq!(game.add_player("ada"), Ok(()));
    assert_eq!(game.get_winner().unwrap().name(), "ada");
    assert_eq!(game.add_player("bob"), Ok(()));
    assert!(game.get_winner().is_none());
}

#[test]
fn sinking_the_whole_fleet_makes_the_other_player_win() {
    let mut game = RedAlert::new(5, 5).unwrap();
    assert_eq!(game.add_player("ada"), Ok(()));
    assert_eq!(game.add_player("bob"), Ok(()));
    for name in ["ada", "bob"] {
        let two = boat_of(&game, name, 2, 1);
        let three = boat_of(&game, name, 1, 3);
        assert_eq!(game.place_boat(name, &two, 0, 0), Ok(()));
        assert_eq!(game.place_boat(name, &three, 4, 0), Ok(()));
    }
    assert!(game.get_winner().is_none());
    let shots = [(0, 0), (1, 0), (4, 0), (4, 1)];
    for (x, y) in shots {
        assert_eq!(game.hit("ada", x, y), Ok(true));
        assert!(game.get_winner().is_none());
    }
    assert_eq!(game.hit("ada", 2, 2), Ok(false));
    assert!(game.get_winner().is_none());
    assert_eq!(game.hit("ada", 4, 2), Ok(true));
    let winner = game.get_winner().unwrap();
    assert_eq!(winner.name(), "bob");
    assert!(winner.is_alive());
    let boats = game.get_player_boats("ada").unwrap();
    for boat in boats.values() {
        assert_eq!(boat.remaining_intact_pieces(), boat.get_n_pieces());
    }
}

#[test]
fn one_boat_of_k_pieces_takes_k_hits() {
    for k in 1..=5u32 {
        let (x_len, y_len) = if k % 2 == 0 { (k, 1) } else { (1, k) };
        let mut game = RedAlert::new(5, 5).unwrap();
        let fleet = boats_vec_to_map(vec![Boat::with_id(1, x_len, y_len)]);
        assert_eq!(game.add_player_with_fleet("ada", fleet), Ok(()));
        assert_eq!(game.add_player("bob"), Ok(()));
        assert_eq!(game.place_boat("ada", &1, 0, 0), Ok(()));
        for i in 0..k {
            assert!(game.get_winner().is_none());
            let (x, y) = if k % 2 == 0 { (i, 0) } else { (0, i) };
            assert_eq!(game.hit("ada", x, y), Ok(true));
        }
        assert_eq!(game.get_winner().unwrap().name(), "bob");
    }
}

#[test]
fn all_dead_is_no_win() {
    let mut game = RedAlert::new(5, 5).unwrap();
    for name in ["ada", "bob"] {
        let fleet = boats_vec_to_map(vec![Boat::with_id(1, 1, 1)]);
        assert_eq!(game.add_player_with_fleet(name, fleet), Ok(()));
        assert_eq!(game.place_boat(name, &1, 2, 2), Ok(()));
    }
    assert_eq!(game.hit("ada", 2, 2), Ok(true));
    assert_eq!(game.get_winner().unwrap().name(), "bob");
    assert_eq!(game.hit("bob", 2, 2), Ok(true));
    assert!(game.get_winner().is_none());
}

#[test]
fn a_turn_shoots_at_a_cell_once() {
    let mut game = RedAlert::new(5, 5).unwrap();
    assert_eq!(game.add_player("ada"), Ok(()));
    let two = boat_of(&game, "ada", 2, 1);
    assert_eq!(game.place_boat("ada", &two, 1, 1), Ok(()));
    assert_eq!(game.shoot("bob", 1, 1), Err(GameError::UnknownPlayer));
    assert_eq!(game.shoot("ada", 5, 1), Err(GameError::OutOfBounds));
    assert_eq!(game.shoot("ada", 1, 5), Err(GameError::OutOfBounds));
    assert_eq!(game.shoot("ada", 1, 1), Ok(Shot::Hit));
    assert_eq!(game.shoot("ada", 1, 1), Ok(Shot::AlreadyAttacked));
    assert_eq!(game.shoot("ada", 0, 0), Ok(Shot::Miss));
    assert_eq!(game.shoot("ada", 0, 0), Ok(Shot::AlreadyAttacked));
    let boats = game.get_player_boats("ada").unwrap();
    assert_eq!(boats.get(&two).unwrap().remaining_intact_pieces(), 1);
    assert_eq!(game.shoot("ada", 2, 1), Ok(Shot::Hit));
    let boats = game.get_player_boats("ada").unwrap();
    assert_eq!(boats.get(&two).unwrap().remaining_intact_pieces(), 2);
}

#[test]
fn hit_on_the_board_shows_on_the_piece_behind_the_cell() {
    let mut game = RedAlert::new(5, 5).unwrap();
    assert_eq!(game.add_player("ada"), Ok(()));
    let three = boat_of(&game, "ada", 1, 3);
    assert_eq!(game.place_boat("ada", &three, 2, 1), Ok(()));
    assert_eq!(game.hit("ada", 2, 3), Ok(true));
    let board = game.get_player_board("ada").unwrap();
    let boats = game.get_player_boats("ada").unwrap();
    for y in 1..4u32 {
        let link = board.cell(2, y).unwrap().get_boat_piece().unwrap();
        assert_eq!(link.boat_id, three);
        let piece = boats.get(&link.boat_id).unwrap().piece(link.index).unwrap();
        assert_eq!((piece.x(), piece.y()), (0, y - 1));
        assert_eq!(red_alert::hittable::Hittable::is_hit(piece), y == 3);
    }
}




#[test]
fn fleet_of_a_new_player_has_a_fifth_of_the_cells_in_pieces() {
    for (w, h) in [(5u32, 5u32), (5, 6), (7, 9), (10, 10), (12, 13), (30, 20)] {
        let mut game = RedAlert::new(w, h).unwrap();
        assert_eq!(game.add_player("ada"), Ok(()));
        let boats = game.get_player_boats("ada").unwrap();
        let pieces: u32 = boats.values().map(|b| b.get_n_pieces()).sum();
        assert_eq!(pieces, w * h / 5);
        let built = red_alert::fleet::create_boats((w * h / 5) as u64).len();
        assert_eq!(boats.len(), built);
    }
}

#[test]
fn hit_through_the_game_shows_on_the_boat_itself() {
    let mut game = RedAlert::new(5, 5).unwrap();
    assert_eq!(game.add_player("ada"), Ok(()));
    assert_eq!(game.add_player("bob"), Ok(()));
    let two = boat_of(&game, "bob", 2, 1);
    let three = boat_of(&game, "bob", 1, 3);
    assert_eq!(game.place_boat("bob", &two, 0, 0), Ok(()));
    assert_eq!(game.place_boat("bob", &three, 4, 0), Ok(()));
    let shots = [(0, 0), (4, 2), (1, 0), (4, 0)];
    let mut hits_of_two = 0;
    let mut hits_of_three = 0;
    for (x, y) in shots {
        assert_eq!(game.hit("bob", x, y), Ok(true));
        if x < 2 {
            hits_of_two += 1;
        } else {
            hits_of_three += 1;
        }
        let boats = game.get_player_boats("bob").unwrap();
        assert_eq!(boats.get(&two).unwrap().remaining_intact_pieces(), hits_of_two);
        assert_eq!(boats.get(&three).unwrap().remaining_intact_pieces(), hits_of_three);
        assert!(game.get_winner().is_none());
    }
    assert_eq!(game.hit("bob", 4, 1), Ok(true));
    let boats = game.get_player_boats("bob").unwrap();
    assert!(!boats.get(&two).unwrap().is_afloat());
    assert!(!boats.get(&three).unwrap().is_afloat());
    assert_eq!(game.get_winner().unwrap().name(), "ada");
}

#[test]
fn second_player_of_a_name_is_refused_and_nothing_changes() {
    let mut game = RedAlert::new(5, 5).unwrap();
    assert_eq!(game.add_player("ada"), Ok(()));
    let two = boat_of(&game, "ada", 2, 1);
    assert_eq!(game.place_boat("ada", &two, 0, 0), Ok(()));
    assert_eq!(game.add_player("ada"), Err(DuplicateName));
    assert_eq!(boat_of(&game, "ada", 2, 1), two);
    assert_eq!(game.get_player_boats("ada").unwrap().len(), 2);
    assert_eq!(game.get_player_board("ada").unwrap().is_hit(0, 0), Ok(true));
    assert_eq!(game.get_winner().unwrap().name(), "ada");
}
