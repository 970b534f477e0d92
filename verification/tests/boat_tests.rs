use red_alert::boat::{Boat, BoatPiece, PieceRef};
use red_alert::hittable::Hittable;

#[test]
fn boat_piece_starts_intact_and_can_be_hit_and_repaired() {
    let mut piece = BoatPiece::new(2, 0);
    assert_eq!(piece.x(), 2);
    assert_eq!(piece.y(), 0);
    assert!(!piece.is_hit());
    piece.hit();
    assert!(piece.is_hit());
    piece.hit();
    assert!(piece.is_hit());
    piece.repair();
    assert!(!piece.is_hit());
    assert_eq!((piece.x(), piece.y()), (2, 0));
}

#[test]
fn new_boat_is_unplaced_at_the_origin() {
    let boat = Boat::with_id(42, 1, 3);
    assert_eq!(boat.id(), 42);
    assert_eq!((boat.x(), boat.y()), (0, 0));
    assert_eq!((boat.x_len(), boat.y_len()), (1, 3));
    assert_eq!(boat.get_n_pieces(), 3);
    assert!(!boat.is_placed());
    assert!(boat.is_afloat());
    assert_eq!(boat.remaining_intact_pieces(), 0);
}

#[test]
fn empty_boat_has_no_piece() {
    let mut boat = Boat::new(0, 0);
    assert_eq!(boat.get_n_pieces(), 0);
    assert!(!boat.target(0, 0));
    assert!(!boat.hit(0, 0));
    assert!(!boat.is_afloat());
    assert_eq!(boat.to_string(), "");
    let flat = Boat::new(3, 0);
    assert_eq!(flat.get_n_pieces(), 0);
    assert_eq!(flat.to_string(), "");
    let thin = Boat::new(0, 2);
    assert_eq!(thin.to_string(), "\n\n");
}

#[test]
fn target_is_the_rectangle() {
    let mut boat = Boat::new(4, 1);
    boat.set_x(2);
    boat.set_y(3);
    assert_eq!((boat.x(), boat.y()), (2, 3));
    assert!(!boat.target(1, 3));
    assert!(boat.target(2, 3));
    assert!(boat.target(5, 3));
    assert!(!boat.target(6, 3));
    assert!(!boat.target(2, 2));
    assert!(!boat.target(2, 4));
    assert!(!boat.target(0, 0));
}

#[test]
fn target_near_the_largest_coordinate() {
    let mut boat = Boat::new(1, 5);
    boat.set_x(u32::MAX);
    boat.set_y(u32::MAX - 1);
    assert!(boat.target(u32::MAX, u32::MAX - 1));
    assert!(boat.target(u32::MAX, u32::MAX));
    assert!(!boat.target(u32::MAX - 1, u32::MAX));
    assert!(!boat.target(u32::MAX, u32::MAX - 2));
    assert!(!boat.target(0, 0));
}

#[test]
fn hit_marks_one_piece_and_misses_change_nothing() {
    let mut boat = Boat::new(1, 3);
    boat.set_x(4);
    boat.set_y(1);
    assert!(!boat.hit(4, 0));
    assert!(!boat.hit(3, 1));
    assert_eq!(boat.remaining_intact_pieces(), 0);
    assert!(boat.hit(4, 2));
    assert_eq!(boat.remaining_intact_pieces(), 1);
    assert!(boat.hit(4, 2));
    assert_eq!(boat.remaining_intact_pieces(), 1);
    assert!(boat.is_afloat());
    assert!(boat.hit(4, 1));
    assert!(boat.hit(4, 3));
    assert_eq!(boat.remaining_intact_pieces(), 3);
    assert!(!boat.is_afloat());
    assert!(!boat.hit(4, 4));
}

#[test]
fn remaining_intact_pieces_counts_the_hit_ones() {
    let mut boat = Boat::new(1, 5);
    assert_eq!(boat.remaining_intact_pieces(), 0);
    boat.hit(0, 0);
    boat.hit(0, 4);
    assert_eq!(boat.remaining_intact_pieces(), 2);
    assert_eq!(boat.get_n_pieces() - boat.remaining_intact_pieces(), 3);
}

#[test]
fn piece_handles_follow_rows() {
    let mut boat = Boat::with_id(5, 4, 1);
    boat.set_x(1);
    boat.set_y(2);
    assert_eq!(boat.get_boat_piece_rc(1, 2), Ok(PieceRef { boat_id: 5, index: 0 }));
    assert_eq!(boat.get_boat_piece_rc(4, 2), Ok(PieceRef { boat_id: 5, index: 3 }));
    assert_eq!(boat.get_boat_piece_rc(5, 2), Err(()));
    assert_eq!(boat.get_boat_piece_rc(0, 2), Err(()));
    assert_eq!(boat.get_boat_piece_rc(1, 3), Err(()));
    let mut tall = Boat::with_id(6, 1, 3);
    tall.set_x(7);
    assert_eq!(tall.get_boat_piece_rc(7, 2), Ok(PieceRef { boat_id: 6, index: 2 }));
    assert_eq!(tall.get_boat_piece_rc(7, 3), Err(()));
}

#[test]
fn hit_piece_goes_by_the_handle() {
    let mut boat = Boat::new(2, 1);
    boat.set_x(3);
    let link = boat.get_boat_piece_rc(4, 0).unwrap();
    boat.set_x(0);
    assert!(boat.hit_piece(link.index));
    assert_eq!(boat.remaining_intact_pieces(), 1);
    assert!(!boat.hit_piece(2));
    assert_eq!(boat.remaining_intact_pieces(), 1);
    assert!(boat.hit_piece(0));
    assert!(!boat.is_afloat());
}

#[test]
fn place_sets_the_flag_only() {
    let mut boat = Boat::new(2, 1);
    boat.set_x(3);
    boat.hit(3, 0);
    boat.place();
    assert!(boat.is_placed());
    assert_eq!((boat.x(), boat.y()), (3, 0));
    assert_eq!(boat.remaining_intact_pieces(), 1);
}

#[test]
fn clone_is_a_new_boat_of_the_same_shape() {
    let mut boat = Boat::new(1, 3);
    boat.set_x(2);
    boat.set_y(1);
    boat.hit(2, 1);
    boat.place();
    let copy = boat.clone();
    assert_ne!(copy.id(), boat.id());
    assert_eq!((copy.x_len(), copy.y_len()), (1, 3));
    assert_eq!((copy.x(), copy.y()), (0, 0));
    assert!(!copy.is_placed());
    assert_eq!(copy.remaining_intact_pieces(), 0);
    assert_eq!(boat.remaining_intact_pieces(), 1);
    assert!(boat.is_placed());
}

#[test]
fn boat_text_is_its_shape() {
    assert_eq!(Boat::new(1, 1).to_string(), "X\n");
    assert_eq!(Boat::new(4, 1).to_string(), "XXXX\n");
    assert_eq!(Boat::new(1, 3).to_string(), "X\nX\nX\n");
    assert_eq!(Boat::new(2, 2).to_string(), "XX\nXX\n");
}

#[test]
fn pieces_sit_at_their_offsets() {
    let mut boat = Boat::new(3, 2);
    for index in 0..6usize {
        let piece = boat.piece(index).unwrap();
        assert_eq!((piece.x(), piece.y()), ((index % 3) as u32, (index / 3) as u32));
        assert!(!piece.is_hit());
    }
    assert!(boat.piece(6).is_none());
    boat.set_x(10);
    boat.set_y(20);
    assert!(boat.hit(11, 21));
    for index in 0..6usize {
        let piece = boat.piece(index).unwrap();
        assert_eq!((piece.x(), piece.y()), ((index % 3) as u32, (index / 3) as u32));
        assert_eq!(piece.is_hit(), index == 4);
    }
}

#[test]
fn clones_have_identifiers_of_their_own() {
    let boat = Boat::with_id(5, 2, 1);
    for _ in 0..50 {
        let copy = boat.clone();
        assert_ne!(copy.id(), boat.id());
        assert_ne!(copy.clone().id(), copy.id());
    }
}
