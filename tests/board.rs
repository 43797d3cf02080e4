use squaretillery::{Board, BoardPosition, Card, Suit};

fn card(value: u8, suit: Suit) -> Card {
    Card::new(value, suit).unwrap()
}

fn pos(x: i8, y: i8) -> BoardPosition {
    BoardPosition::new((x, y)).unwrap()
}

fn coords(ps: &[BoardPosition]) -> Vec<(i8, i8)> {
    ps.iter().map(|p| (p.x(), p.y())).collect()
}

/// A Jack of spades at (2,0) with 6 of spades on both its cannon cells.
fn jack_under_fire(first: Card, second: Card, royal: Card) -> Board {
    let mut board = Board::new_empty();
    board.place_card_at(pos(2, 0), royal);
    board.place_card_at(pos(1, 0), first);
    board.place_card_at(pos(0, 0), second);
    board
}

#[test]
fn empty_board_has_nothing() {
    let board = Board::new_empty();
    for p in BoardPosition::all_valid() {
        assert!(board.get_card_at(p).is_none());
        assert_eq!(board.get_armor_at(p), 0);
        assert_eq!(board.get_pile_at(p).size(), 0);
    }
}

#[test]
fn jack_falls_to_twelve_damage() {
    let mut board = jack_under_fire(card(6, Suit::Spades), card(6, Suit::Spades), card(11, Suit::Spades));
    board.resolve_attack(pos(2, 0));
    assert!(board.get_card_at(pos(2, 0)).is_none());
    assert_eq!(board.get_card_at(pos(1, 0)).unwrap().value(), 6);
    assert_eq!(board.get_card_at(pos(0, 0)).unwrap().value(), 6);
}

#[test]
fn jack_survives_too_little_damage() {
    let mut board = jack_under_fire(card(6, Suit::Spades), card(4, Suit::Hearts), card(11, Suit::Spades));
    board.resolve_attack(pos(2, 0));
    assert_eq!(board.get_card_at(pos(2, 0)).unwrap().value(), 11);
}

#[test]
fn armor_adds_to_health() {
    let mut board = jack_under_fire(card(6, Suit::Spades), card(6, Suit::Spades), card(11, Suit::Spades));
    board.add_armor_at(pos(2, 0), 2);
    assert_eq!(board.get_armor_at(pos(2, 0)), 2);
    board.resolve_attack(pos(2, 0));
    assert_eq!(board.get_card_at(pos(2, 0)).unwrap().value(), 11);
    board.place_card_at(pos(0, 0), card(7, Suit::Hearts));
    board.resolve_attack(pos(2, 0));
    assert!(board.get_card_at(pos(2, 0)).is_none());
    assert_eq!(board.get_armor_at(pos(2, 0)), 0);
}

#[test]
fn king_survives_a_cannon_of_another_suit() {
    let mut board = jack_under_fire(card(10, Suit::Spades), card(9, Suit::Clubs), card(13, Suit::Spades));
    board.resolve_attack(pos(2, 0));
    assert_eq!(board.get_card_at(pos(2, 0)).unwrap().value(), 13);
    let mut board = jack_under_fire(card(10, Suit::Spades), card(9, Suit::Spades), card(13, Suit::Spades));
    board.resolve_attack(pos(2, 0));
    assert!(board.get_card_at(pos(2, 0)).is_none());
}

#[test]
fn queen_survives_a_cannon_of_another_colour() {
    let mut board = jack_under_fire(card(10, Suit::Hearts), card(9, Suit::Clubs), card(12, Suit::Diamonds));
    board.resolve_attack(pos(2, 0));
    assert_eq!(board.get_card_at(pos(2, 0)).unwrap().value(), 12);
    let mut board = jack_under_fire(card(10, Suit::Hearts), card(9, Suit::Diamonds), card(12, Suit::Diamonds));
    board.resolve_attack(pos(2, 0));
    assert!(board.get_card_at(pos(2, 0)).is_none());
}

#[test]
fn attack_needs_both_cannon_cells() {
    let mut board = Board::new_empty();
    board.place_card_at(pos(2, 0), card(11, Suit::Spades));
    board.place_card_at(pos(1, 0), card(13, Suit::Spades));
    board.resolve_attack(pos(2, 0));
    assert_eq!(board.get_card_at(pos(2, 0)).unwrap().value(), 11);
    board.resolve_attack(pos(-2, 0));
    assert!(board.get_card_at(pos(-2, 0)).is_none());
}

#[test]
fn armor_goes_only_onto_royals_and_stops_at_255() {
    let mut board = Board::new_empty();
    board.add_armor_at(pos(2, 0), 5);
    assert_eq!(board.get_armor_at(pos(2, 0)), 0);
    board.place_card_at(pos(1, 0), card(4, Suit::Spades));
    board.add_armor_at(pos(1, 0), 5);
    assert_eq!(board.get_armor_at(pos(1, 0)), 0);
    board.place_card_at(pos(2, 0), card(12, Suit::Spades));
    board.add_armor_at(pos(2, 0), 200);
    board.add_armor_at(pos(2, 0), 100);
    assert_eq!(board.get_armor_at(pos(2, 0)), 255);
}

#[test]
fn removing_and_taking_piles() {
    let mut board = Board::new_empty();
    board.place_card_at(pos(-2, 1), card(11, Suit::Clubs));
    board.add_armor_at(pos(-2, 1), 3);
    board.place_card_at(pos(0, 0), card(2, Suit::Clubs));
    board.place_card_at(pos(0, 0), card(8, Suit::Hearts));
    let taken = board.take_pile_at(pos(0, 0));
    assert_eq!(taken.size(), 2);
    assert_eq!(taken.top().unwrap().value(), 8);
    assert!(board.get_card_at(pos(0, 0)).is_none());
    board.remove_pile_at(pos(-2, 1));
    assert!(board.get_card_at(pos(-2, 1)).is_none());
    assert_eq!(board.get_armor_at(pos(-2, 1)), 0);
}

#[test]
fn royal_goes_next_to_the_same_suit() {
    let mut board = Board::new_empty();
    board.place_card_at(pos(1, 0), card(5, Suit::Spades));
    board.place_card_at(pos(-1, 0), card(9, Suit::Hearts));
    let spots = board.find_valid_royal_placement_positions(card(11, Suit::Spades));
    assert_eq!(coords(&spots), vec![(2, 0)]);
}

#[test]
fn royal_spots_of_equal_rank_are_joined() {
    let mut board = Board::new_empty();
    board.place_card_at(pos(1, 0), card(5, Suit::Spades));
    board.place_card_at(pos(0, 1), card(5, Suit::Spades));
    let spots = board.find_valid_royal_placement_positions(card(13, Suit::Spades));
    assert_eq!(coords(&spots), vec![(0, 2), (2, 0)]);
}

#[test]
fn royal_prefers_suit_then_colour_then_value() {
    let mut board = Board::new_empty();
    board.place_card_at(pos(1, 0), card(5, Suit::Spades));
    board.place_card_at(pos(0, 1), card(7, Suit::Clubs));
    board.place_card_at(pos(-1, -1), card(10, Suit::Hearts));
    let spades = board.find_valid_royal_placement_positions(card(12, Suit::Spades));
    assert_eq!(coords(&spades), vec![(2, 0)]);
    let clubs = board.find_valid_royal_placement_positions(card(12, Suit::Clubs));
    assert_eq!(coords(&clubs), vec![(0, 2)]);
    let diamonds = board.find_valid_royal_placement_positions(card(12, Suit::Diamonds));
    assert_eq!(coords(&diamonds), vec![(-2, -1), (-1, -2)]);
    board.place_card_at(pos(-1, 1), card(2, Suit::Diamonds));
    let diamonds = board.find_valid_royal_placement_positions(card(12, Suit::Diamonds));
    assert_eq!(coords(&diamonds), vec![(-2, 1), (-1, 2)]);
}

#[test]
fn royal_spots_skip_full_edges() {
    let mut board = Board::new_empty();
    board.place_card_at(pos(1, 0), card(9, Suit::Spades));
    board.place_card_at(pos(0, 1), card(2, Suit::Hearts));
    board.place_card_at(pos(2, 0), card(11, Suit::Clubs));
    let spots = board.find_valid_royal_placement_positions(card(11, Suit::Spades));
    assert_eq!(coords(&spots), vec![(0, 2)]);
    let empty = Board::new_empty();
    assert!(empty.find_valid_royal_placement_positions(card(11, Suit::Spades)).is_empty());
}
