use red_alert::boat::Boat;
use red_alert::fleet::{boats_vec_to_map, create_boats, get_n_boat_pieces_per_player};
use red_alert::ident::{RANDOM_UUID_MARK, VERSION_VARIANT_MASK};

fn shapes(boats: &Vec<Boat>) -> Vec<(u32, u32)> {
    let mut out = Vec::new();
    for boat in boats.iter() {
        out.push((boat.x_len(), boat.y_len()));
    }
    out
}

const S1: (u32, u32) = (1, 1);
const S2: (u32, u32) = (2, 1);
const S3: (u32, u32) = (1, 3);
const S4: (u32, u32) = (4, 1);
const S5: (u32, u32) = (1, 5);

#[test]
fn pieces_per_player_is_a_fifth_of_the_cells() {
    assert_eq!(get_n_boat_pieces_per_player(5, 5), 5);
    assert_eq!(get_n_boat_pieces_per_player(10, 10), 20);
    assert_eq!(get_n_boat_pieces_per_player(7, 9), 12);
    assert_eq!(get_n_boat_pieces_per_player(6, 6), 7);
    assert_eq!(get_n_boat_pieces_per_player(0, 9), 0);
}

#[test]
fn pieces_per_player_does_not_overflow() {
    assert_eq!(
        get_n_boat_pieces_per_player(u32::MAX, u32::MAX),
        (u32::MAX as u64) * (u32::MAX as u64) / 5
    );
    assert_eq!(get_n_boat_pieces_per_player(65536, 65536), 858993459);
}

#[test]
fn five_by_five_board_gives_a_two_and_a_three() {
    let pieces = get_n_boat_pieces_per_player(5, 5);
    assert_eq!(pieces, 5);
    let boats = create_boats(pieces);
    assert_eq!(shapes(&boats), vec![S2, S3]);
    assert_eq!(boats[0].get_n_pieces(), 2);
    assert_eq!(boats[1].get_n_pieces(), 3);
}

#[test]
fn remainder_table_is_exact() {
    assert_eq!(shapes(&create_boats(0)), vec![]);
    assert_eq!(shapes(&create_boats(1)), vec![S1]);
    assert_eq!(shapes(&create_boats(2)), vec![S2]);
    assert_eq!(shapes(&create_boats(3)), vec![S1, S2]);
    assert_eq!(shapes(&create_boats(4)), vec![S1, S3]);
    assert_eq!(shapes(&create_boats(5)), vec![S2, S3]);
    assert_eq!(shapes(&create_boats(6)), vec![S1, S2, S3]);
    assert_eq!(shapes(&create_boats(7)), vec![S3, S4]);
    assert_eq!(shapes(&create_boats(8)), vec![S1, S3, S4]);
    assert_eq!(shapes(&create_boats(9)), vec![S2, S3, S4]);
    assert_eq!(shapes(&create_boats(10)), vec![S1, S2, S3, S4]);
    assert_eq!(shapes(&create_boats(11)), vec![S1, S2, S3, S5]);
    assert_eq!(shapes(&create_boats(12)), vec![S1, S2, S4, S5]);
    assert_eq!(shapes(&create_boats(13)), vec![S1, S3, S4, S5]);
    assert_eq!(shapes(&create_boats(14)), vec![S2, S3, S4, S5]);
}

#[test]
fn complete_sets_come_first() {
    assert_eq!(shapes(&create_boats(15)), vec![S1, S2, S3, S4, S5]);
    assert_eq!(shapes(&create_boats(22)), vec![S1, S2, S3, S4, S5, S3, S4]);
    assert_eq!(
        shapes(&create_boats(41)),
        vec![S1, S2, S3, S4, S5, S1, S2, S3, S4, S5, S1, S2, S3, S5]
    );
}

#[test]
fn fleet_has_exactly_the_pieces_asked_for() {
    for n in 0..200u64 {
        let boats = create_boats(n);
        let mut sum: u64 = 0;
        for boat in boats.iter() {
            sum += boat.get_n_pieces() as u64;
            assert!(boat.x_len() == 1 || boat.y_len() == 1);
            assert!(!boat.is_placed());
            assert_eq!((boat.x(), boat.y()), (0, 0));
            assert_eq!(boat.remaining_intact_pieces(), 0);
        }
        assert_eq!(sum, n);
    }
}

#[test]
fn fleet_of_every_board_up_to_twelve_sums_to_a_fifth_of_the_area() {
    for w in 5..=12u32 {
        for h in 5..=12u32 {
            let n = get_n_boat_pieces_per_player(w, h);
            assert_eq!(n, (w as u64 * h as u64) / 5);
            let sum: u64 = create_boats(n).iter().map(|b| b.get_n_pieces() as u64).sum();
            assert_eq!(sum, n);
        }
    }
}

#[test]
fn new_boats_carry_random_version_four_identifiers() {
    let a = Boat::new(2, 1);
    let b = Boat::new(2, 1);
    assert_ne!(a.id(), b.id());
    assert_ne!(a.id(), 0);
    assert_eq!(a.id() & VERSION_VARIANT_MASK, RANDOM_UUID_MARK);
    assert_eq!(b.id() & VERSION_VARIANT_MASK, RANDOM_UUID_MARK);
    assert_eq!((a.id() >> 76) & 0xF, 4);
    assert_eq!((a.id() >> 62) & 0x3, 2);
}

#[test]
fn fleet_boats_have_distinct_identifiers() {
    let boats = create_boats(45);
    assert_eq!(boats.len(), 15);
    let map = boats_vec_to_map(boats);
    assert_eq!(map.len(), 15);
    for (id, boat) in map.iter() {
        assert_eq!(*id, boat.id());
    }
}

#[test]
fn map_keeps_the_first_boat_of_an_identifier() {
    let boats = vec![
        Boat::with_id(7, 2, 1),
        Boat::with_id(9, 1, 3),
        Boat::with_id(7, 4, 1),
    ];
    let map = boats_vec_to_map(boats);
    assert_eq!(map.len(), 2);
    assert_eq!(map.get(&7).unwrap().x_len(), 2);
    assert_eq!(map.get(&7).unwrap().y_len(), 1);
    assert_eq!(map.get(&9).unwrap().y_len(), 3);
    assert!(map.get(&8).is_none());
}

#[test]
fn map_of_no_boats_is_empty() {
    assert!(boats_vec_to_map(Vec::new()).is_empty());
}

#[test]
fn no_two_boats_of_a_fleet_share_an_identifier() {
    let boats = create_boats(300);
    assert_eq!(boats.len(), 100);
    let mut ids: Vec<u128> = boats.iter().map(|b| b.id()).collect();
    ids.sort();
    ids.dedup();
    assert_eq!(ids.len(), 100);
    assert_eq!(boats_vec_to_map(boats).len(), 100);
}
