use red_alert::board::Board;
use red_alert::boat::{Boat, PieceRef};
use red_alert::cell::Cell;
use red_alert::error::{OutOfBounds, PlacementError};
use red_alert::hittable::Hittable;
use std::collections::HashMap;

fn no_fleet() -> HashMap<u128, Boat> {
    HashMap::new()
}

fn boat_at(x_len: u32, y_len: u32, x: u32, y: u32) -> Boat {
    let mut boat = Boat::new(x_len, y_len);
    boat.set_x(x);
    boat.set_y(y);
    boat
}

#[test]
fn cell_starts_as_open_water() {
    let cell = Cell::new();
    assert!(!cell.is_hit());
    assert_eq!(cell.get_boat_piece(), None);
}

#[test]
fn cell_keeps_its_piece_through_hit_and_repair() {
    let mut cell = Cell::new();
    let link = PieceRef { boat_id: 3, index: 1 };
    cell.set_boat_piece(link);
    assert_eq!(cell.get_boat_piece(), Some(link));
    assert!(!cell.is_hit());
    cell.hit();
    assert!(cell.is_hit());
    assert_eq!(cell.get_boat_piece(), Some(link));
    cell.repair();
    assert!(!cell.is_hit());
    assert_eq!(cell.get_boat_piece(), Some(link));
}

#[test]
fn cell_glyphs() {
    let mut water = Cell::new();
    assert_eq!(water.to_string(true), "🟦");
    assert_eq!(water.to_string(false), "🟦");
    water.hit();
    assert_eq!(water.to_string(true), "🌊");
    assert_eq!(water.to_string(false), "🌊");
    let mut taken = Cell::new();
    taken.set_boat_piece(PieceRef { boat_id: 1, index: 0 });
    assert_eq!(taken.to_string(true), "⚓");
    assert_eq!(taken.to_string(false), "🟦");
    taken.hit();
    assert_eq!(taken.to_string(true), "🔥");
    assert_eq!(taken.to_string(false), "🔥");
}

#[test]
fn new_board_has_the_asked_size_and_no_boat() {
    let board = Board::new(6, 9);
    assert_eq!(board.x_len(), 6);
    assert_eq!(board.y_len(), 9);
    for x in 0..6 {
        for y in 0..9 {
            assert_eq!(board.is_hit(x, y), Ok(false));
            assert_eq!(board.is_attacked(x, y), Ok(false));
            assert_eq!(board.cell(x, y).unwrap().get_boat_piece(), None);
        }
    }
    assert_eq!(board.is_hit(6, 0), Err(OutOfBounds));
    assert_eq!(board.is_hit(0, 9), Err(OutOfBounds));
    assert!(board.cell(6, 8).is_none());
    assert!(board.cell(5, 9).is_none());
}

#[test]
fn board_without_columns_has_no_rows() {
    let board = Board::new(0, 7);
    assert_eq!(board.x_len(), 0);
    assert_eq!(board.y_len(), 0);
    assert_eq!(board.is_hit(0, 0), Err(OutOfBounds));
    let flat = Board::new(7, 0);
    assert_eq!(flat.x_len(), 7);
    assert_eq!(flat.y_len(), 0);
    assert_eq!(flat.is_hit(0, 0), Err(OutOfBounds));
}

#[test]
fn three_boat_at_origin_then_neighbours() {
    let mut board = Board::new(5, 5);
    let mut long = boat_at(3, 1, 0, 0);
    assert_eq!(board.place_boat(&mut long), Ok(()));
    assert!(long.is_placed());
    assert_eq!(board.is_hit(0, 0), Ok(true));
    assert_eq!(board.is_hit(1, 0), Ok(true));
    assert_eq!(board.is_hit(2, 0), Ok(true));
    assert_eq!(board.is_hit(3, 0), Ok(false));
    assert_eq!(board.is_hit(0, 1), Ok(false));

    let mut small = boat_at(1, 1, 3, 0);
    assert_eq!(board.place_boat(&mut small), Err(PlacementError::Overlap));
    assert!(!small.is_placed());
    assert_eq!(board.is_hit(3, 0), Ok(false));

    small.set_x(4);
    small.set_y(1);
    assert_eq!(board.place_boat(&mut small), Ok(()));
    assert!(small.is_placed());
    assert_eq!(board.is_hit(4, 1), Ok(true));
}

#[test]
fn small_boat_right_of_the_margin_fits() {
    let mut board = Board::new(5, 5);
    let mut long = boat_at(3, 1, 0, 0);
    assert_eq!(board.place_boat(&mut long), Ok(()));
    let mut small = boat_at(1, 1, 4, 0);
    assert_eq!(board.place_boat(&mut small), Ok(()));
}

#[test]
fn placement_round_trip() {
    let mut board = Board::new(7, 6);
    let mut boat = boat_at(1, 3, 4, 2);
    let id = boat.id();
    assert_eq!(board.place_boat(&mut boat), Ok(()));
    for x in 0..7u32 {
        for y in 0..6u32 {
            let inside = x == 4 && (2..5).contains(&y);
            assert_eq!(board.is_hit(x, y), Ok(inside));
            let link = board.cell(x, y).unwrap().get_boat_piece();
            if inside {
                assert_eq!(link, Some(PieceRef { boat_id: id, index: (y - 2) as usize }));
            } else {
                assert_eq!(link, None);
            }
            assert_eq!(board.is_attacked(x, y), Ok(false));
        }
    }
}

#[test]
fn boats_that_touch_are_refused() {
    let offsets: [(u32, u32); 8] =
        [(1, 1), (2, 1), (3, 1), (1, 2), (3, 2), (1, 3), (2, 3), (3, 3)];
    for (x, y) in offsets {
        let mut board = Board::new(5, 5);
        let mut first = boat_at(1, 1, 2, 2);
        assert_eq!(board.place_boat(&mut first), Ok(()));
        let mut second = boat_at(1, 1, x, y);
        assert_eq!(board.place_boat(&mut second), Err(PlacementError::Overlap));
        assert!(!second.is_placed());
        assert_eq!(board.is_hit(x, y), Ok(false));
    }
}

#[test]
fn boat_on_a_taken_cell_is_refused() {
    let mut board = Board::new(5, 5);
    let mut first = boat_at(1, 3, 2, 1);
    assert_eq!(board.place_boat(&mut first), Ok(()));
    let mut second = boat_at(4, 1, 0, 2);
    assert_eq!(board.place_boat(&mut second), Err(PlacementError::Overlap));
}

#[test]
fn boats_with_a_free_cell_between_them_fit() {
    let spots: [(u32, u32); 8] = [(0, 0), (2, 0), (4, 0), (0, 2), (4, 2), (0, 4), (2, 4), (4, 4)];
    for (x, y) in spots {
        let mut board = Board::new(5, 5);
        let mut first = boat_at(1, 1, 2, 2);
        assert_eq!(board.place_boat(&mut first), Ok(()));
        let mut second = boat_at(1, 1, x, y);
        assert_eq!(board.place_boat(&mut second), Ok(()));
        assert!(second.is_placed());
        assert_eq!(board.is_hit(x, y), Ok(true));
    }
}

#[test]
fn margin_reaches_the_last_column_and_row() {
    let mut board = Board::new(5, 5);
    let mut corner = boat_at(1, 1, 4, 4);
    assert_eq!(board.place_boat(&mut corner), Ok(()));
    let mut diagonal = boat_at(1, 1, 3, 3);
    assert_eq!(board.place_boat(&mut diagonal), Err(PlacementError::Overlap));
    let mut left = boat_at(1, 1, 3, 4);
    assert_eq!(board.place_boat(&mut left), Err(PlacementError::Overlap));
    let mut above = boat_at(1, 1, 4, 3);
    assert_eq!(board.place_boat(&mut above), Err(PlacementError::Overlap));
    let mut far = boat_at(1, 1, 2, 2);
    assert_eq!(board.place_boat(&mut far), Ok(()));
}

#[test]
fn boat_that_leaves_the_board_is_out_of_bounds() {
    let mut board = Board::new(5, 6);
    let mut wide = boat_at(4, 1, 2, 0);
    assert_eq!(board.place_boat(&mut wide), Err(PlacementError::OutOfBounds));
    let mut tall = boat_at(1, 5, 0, 2);
    assert_eq!(board.place_boat(&mut tall), Err(PlacementError::OutOfBounds));
    let mut outside = boat_at(1, 1, 5, 0);
    assert_eq!(board.place_boat(&mut outside), Err(PlacementError::OutOfBounds));
    let mut huge = boat_at(1, 1, u32::MAX, u32::MAX);
    assert_eq!(board.place_boat(&mut huge), Err(PlacementError::OutOfBounds));
    assert!(!huge.is_placed());
    let mut edge = boat_at(4, 1, 1, 5);
    assert_eq!(board.place_boat(&mut edge), Ok(()));
    let mut last = boat_at(1, 5, 0, 0);
    assert_eq!(board.place_boat(&mut last), Err(PlacementError::Overlap));
}

#[test]
fn out_of_bounds_is_checked_before_overlap() {
    let mut board = Board::new(5, 5);
    let mut first = boat_at(1, 1, 4, 0);
    assert_eq!(board.place_boat(&mut first), Ok(()));
    let mut second = boat_at(4, 1, 3, 0);
    assert_eq!(board.place_boat(&mut second), Err(PlacementError::OutOfBounds));
}

#[test]
fn refused_boat_leaves_the_board_as_it_was() {
    let mut board = Board::new(5, 5);
    let mut first = boat_at(2, 1, 0, 0);
    assert_eq!(board.place_boat(&mut first), Ok(()));
    let before = board.to_string(true);
    let mut second = boat_at(1, 3, 2, 0);
    assert_eq!(board.place_boat(&mut second), Err(PlacementError::Overlap));
    assert_eq!(board.to_string(true), before);
    assert_eq!((second.x(), second.y()), (2, 0));
    assert!(!second.is_placed());
}

#[test]
fn hit_reports_hit_or_miss_and_marks_the_cell() {
    let mut board = Board::new(5, 5);
    let mut boat = boat_at(2, 1, 1, 1);
    assert_eq!(board.place_boat(&mut boat), Ok(()));
    assert_eq!(board.hit(&mut no_fleet(), 1, 1), Ok(true));
    assert_eq!(board.hit(&mut no_fleet(), 0, 0), Ok(false));
    assert_eq!(board.hit(&mut no_fleet(), 5, 0), Err(OutOfBounds));
    assert_eq!(board.hit(&mut no_fleet(), 0, 5), Err(OutOfBounds));
    assert_eq!(board.is_attacked(1, 1), Ok(true));
    assert_eq!(board.is_attacked(0, 0), Ok(true));
    assert_eq!(board.is_attacked(2, 1), Ok(false));
    assert_eq!(board.is_attacked(9, 9), Err(OutOfBounds));
    assert_eq!(board.is_hit(0, 0), Ok(false));
    assert_eq!(board.is_hit(2, 1), Ok(true));
}

#[test]
fn second_hit_on_a_cell_changes_nothing() {
    let mut board = Board::new(5, 5);
    let mut boat = boat_at(2, 1, 1, 1);
    assert_eq!(board.place_boat(&mut boat), Ok(()));
    assert_eq!(board.hit(&mut no_fleet(), 2, 1), Ok(true));
    assert_eq!(board.hit(&mut no_fleet(), 4, 4), Ok(false));
    let shown = board.to_string(true);
    let hidden = board.to_string(false);
    assert_eq!(board.hit(&mut no_fleet(), 2, 1), Ok(true));
    assert_eq!(board.hit(&mut no_fleet(), 4, 4), Ok(false));
    assert_eq!(board.to_string(true), shown);
    assert_eq!(board.to_string(false), hidden);
    for x in 0..5 {
        for y in 0..5 {
            assert_eq!(board.is_attacked(x, y), Ok((x, y) == (2, 1) || (x, y) == (4, 4)));
        }
    }
}

#[test]
fn board_picture_with_boats_shown() {
    let mut board = Board::new(5, 5);
    let mut boat = boat_at(3, 1, 0, 0);
    assert_eq!(board.place_boat(&mut boat), Ok(()));
    assert_eq!(board.hit(&mut no_fleet(), 1, 0), Ok(true));
    assert_eq!(board.hit(&mut no_fleet(), 4, 4), Ok(false));
    let expected = "  0 1 2 3 4\n\
                    ┌──────────┐\n\
                    │⚓🔥⚓🟦🟦│ 0\n\
                    │🟦🟦🟦🟦🟦│ 1\n\
                    │🟦🟦🟦🟦🟦│ 2\n\
                    │🟦🟦🟦🟦🟦│ 3\n\
                    │🟦🟦🟦🟦🌊│ 4\n\
                    └──────────┘";
    assert_eq!(board.to_string(true), expected);
}

#[test]
fn board_picture_with_boats_hidden() {
    let mut board = Board::new(5, 5);
    let mut boat = boat_at(3, 1, 0, 0);
    assert_eq!(board.place_boat(&mut boat), Ok(()));
    assert_eq!(board.hit(&mut no_fleet(), 1, 0), Ok(true));
    assert_eq!(board.hit(&mut no_fleet(), 4, 4), Ok(false));
    let expected = "  0 1 2 3 4\n\
                    ┌──────────┐\n\
                    │🟦🔥🟦🟦🟦│ 0\n\
                    │🟦🟦🟦🟦🟦│ 1\n\
                    │🟦🟦🟦🟦🟦│ 2\n\
                    │🟦🟦🟦🟦🟦│ 3\n\
                    │🟦🟦🟦🟦🌊│ 4\n\
                    └──────────┘";
    assert_eq!(board.to_string(false), expected);
}

#[test]
fn hidden_picture_does_not_tell_where_unhit_boats_are() {
    let mut with_boat = Board::new(6, 5);
    let mut boat = boat_at(1, 3, 2, 1);
    assert_eq!(with_boat.place_boat(&mut boat), Ok(()));
    let empty = Board::new(6, 5);
    assert_eq!(with_boat.to_string(false), empty.to_string(false));
    assert_ne!(with_boat.to_string(true), empty.to_string(true));
}

#[test]
fn board_picture_numbers_wrap_after_nine() {
    let board = Board::new(12, 11);
    let text = board.to_string(true);
    let lines: Vec<&str> = text.split('\n').collect();
    assert_eq!(lines.len(), 14);
    assert_eq!(lines[0], "  0 1 2 3 4 5 6 7 8 9 0 1");
    assert_eq!(lines[1], format!("┌{}┐", "─".repeat(24)));
    assert_eq!(lines[2], format!("│{}│ 0", "🟦".repeat(12)));
    assert_eq!(lines[11], format!("│{}│ 9", "🟦".repeat(12)));
    assert_eq!(lines[12], format!("│{}│ 0", "🟦".repeat(12)));
    assert_eq!(lines[13], format!("└{}┘", "─".repeat(24)));
}

#[test]
fn picture_of_a_board_without_cells() {
    assert_eq!(Board::new(0, 0).to_string(true), " \n┌┐\n└┘");
    assert_eq!(Board::new(2, 0).to_string(true), "  0 1\n┌────┐\n└────┘");
}



#[test]
fn hit_on_the_board_marks_the_piece_of_the_boat() {
    let mut board = Board::new(5, 5);
    let mut long = boat_at(1, 3, 3, 1);
    let mut short = boat_at(2, 1, 0, 0);
    let (long_id, short_id) = (long.id(), short.id());
    assert_eq!(board.place_boat(&mut long), Ok(()));
    assert_eq!(board.place_boat(&mut short), Ok(()));
    let mut fleet = HashMap::new();
    fleet.insert(long_id, long);
    fleet.insert(short_id, short);

    assert_eq!(board.hit(&mut fleet, 3, 2), Ok(true));
    let long = fleet.get(&long_id).unwrap();
    assert_eq!(long.remaining_intact_pieces(), 1);
    assert!(!long.piece(0).unwrap().is_hit());
    assert!(long.piece(1).unwrap().is_hit());
    assert!(!long.piece(2).unwrap().is_hit());
    assert_eq!(fleet.get(&short_id).unwrap().remaining_intact_pieces(), 0);
    assert_eq!(board.to_string(false).lines().nth(4).unwrap(), "│🟦🟦🟦🔥🟦│ 2");

    assert_eq!(board.hit(&mut fleet, 3, 2), Ok(true));
    assert_eq!(fleet.get(&long_id).unwrap().remaining_intact_pieces(), 1);
    assert_eq!(board.hit(&mut fleet, 4, 4), Ok(false));
    assert_eq!(board.hit(&mut fleet, 9, 9), Err(OutOfBounds));
    assert_eq!(fleet.get(&long_id).unwrap().remaining_intact_pieces(), 1);
    assert_eq!(fleet.get(&short_id).unwrap().remaining_intact_pieces(), 0);

    assert_eq!(board.hit(&mut fleet, 3, 1), Ok(true));
    assert_eq!(board.hit(&mut fleet, 3, 3), Ok(true));
    assert!(!fleet.get(&long_id).unwrap().is_afloat());
    assert!(fleet.get(&short_id).unwrap().is_afloat());
    assert_eq!(board.hit(&mut fleet, 1, 0), Ok(true));
    assert_eq!(fleet.get(&short_id).unwrap().remaining_intact_pieces(), 1);
    assert!(fleet.get(&short_id).unwrap().piece(1).unwrap().is_hit());
}

#[test]
fn hit_on_a_cell_whose_boat_is_not_in_the_fleet_marks_the_cell() {
    let mut board = Board::new(5, 5);
    let mut boat = boat_at(1, 1, 3, 3);
    assert_eq!(board.place_boat(&mut boat), Ok(()));
    let mut other = HashMap::new();
    other.insert(7, Boat::with_id(7, 1, 1));
    assert_eq!(board.hit(&mut other, 3, 3), Ok(true));
    assert_eq!(board.is_attacked(3, 3), Ok(true));
    assert_eq!(other.get(&7).unwrap().remaining_intact_pieces(), 0);
    assert_eq!(boat.remaining_intact_pieces(), 0);
}
