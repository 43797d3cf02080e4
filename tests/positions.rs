use squaretillery::screen::{translate_board_to_screen, translate_screen_to_board};
use squaretillery::{BoardPosition, GameError};

fn pos(x: i8, y: i8) -> BoardPosition {
    BoardPosition::new((x, y)).unwrap()
}

fn coords(ps: &[BoardPosition]) -> Vec<(i8, i8)> {
    ps.iter().map(|p| (p.x(), p.y())).collect()
}

#[test]
fn exactly_the_non_corner_cells_are_positions() {
    let mut valid = 0;
    for x in -2..=2i8 {
        for y in -2..=2i8 {
            let corner = (x == -2 || x == 2) && (y == -2 || y == 2);
            match BoardPosition::new((x, y)) {
                Ok(p) => {
                    assert!(!corner);
                    assert_eq!((p.x(), p.y()), (x, y));
                    valid += 1;
                }
                Err(e) => {
                    assert!(corner);
                    assert_eq!(e, GameError::InvalidCoordinate);
                }
            }
        }
    }
    assert_eq!(valid, 21);
}

#[test]
fn coordinates_off_the_grid_are_rejected() {
    assert_eq!(BoardPosition::new((3, 0)), Err(GameError::InvalidCoordinate));
    assert_eq!(BoardPosition::new((0, -3)), Err(GameError::InvalidCoordinate));
    assert_eq!(BoardPosition::new((-128, 127)), Err(GameError::InvalidCoordinate));
}

#[test]
fn all_valid_lists_the_board_in_order() {
    let all = BoardPosition::all_valid();
    assert_eq!(all.len(), 21);
    assert_eq!((all[0].x(), all[0].y()), (-2, -1));
    assert_eq!((all[3].x(), all[3].y()), (-1, -2));
    assert_eq!((all[20].x(), all[20].y()), (2, 1));
    assert_eq!(all.iter().filter(|p| p.is_cannon()).count(), 9);
    assert_eq!(all.iter().filter(|p| p.is_outer_cannon()).count(), 8);
    assert_eq!(all.iter().filter(|p| p.is_edge()).count(), 12);
}

#[test]
fn cells_are_classified() {
    assert!(pos(0, 0).is_cannon());
    assert!(!pos(0, 0).is_outer_cannon());
    assert!(!pos(0, 0).is_edge());
    assert!(pos(1, -1).is_outer_cannon());
    assert!(pos(2, 0).is_edge());
    assert!(!pos(2, 0).is_cannon());
    assert!(pos(-1, 2).is_edge());
}

#[test]
fn adjacent_edges_left_right_below_above() {
    assert_eq!(coords(&pos(1, 0).adjacent_edges()), vec![(2, 0)]);
    assert_eq!(coords(&pos(1, 1).adjacent_edges()), vec![(2, 1), (1, 2)]);
    assert_eq!(coords(&pos(-2, 0).adjacent_edges()), vec![(-2, -1), (-2, 1)]);
    assert_eq!(coords(&pos(0, 0).adjacent_edges()), Vec::<(i8, i8)>::new());
}

#[test]
fn aimed_at_targets() {
    assert_eq!(coords(&pos(-1, -1).aimed_at()), vec![(-1, 2), (2, -1)]);
    assert_eq!(coords(&pos(1, -1).aimed_at()), vec![(1, 2), (-2, -1)]);
    assert_eq!(coords(&pos(-1, 1).aimed_at()), vec![(-1, -2), (2, 1)]);
    assert_eq!(coords(&pos(1, 1).aimed_at()), vec![(1, -2), (-2, 1)]);
    assert_eq!(coords(&pos(-1, 0).aimed_at()), vec![(2, 0)]);
    assert_eq!(coords(&pos(1, 0).aimed_at()), vec![(-2, 0)]);
    assert_eq!(coords(&pos(0, -1).aimed_at()), vec![(0, 2)]);
    assert_eq!(coords(&pos(0, 1).aimed_at()), vec![(0, -2)]);
    assert!(pos(0, 0).aimed_at().is_empty());
    assert!(pos(2, 0).aimed_at().is_empty());
    assert!(pos(-2, 1).aimed_at().is_empty());
}

#[test]
fn cannon_towards_each_side() {
    assert_eq!(coords(&pos(-2, 1).cannon_towards()), vec![(-1, 1), (0, 1)]);
    assert_eq!(coords(&pos(2, 0).cannon_towards()), vec![(0, 0), (1, 0)]);
    assert_eq!(coords(&pos(0, -2).cannon_towards()), vec![(0, -1), (0, 0)]);
    assert_eq!(coords(&pos(1, 2).cannon_towards()), vec![(1, 0), (1, 1)]);
    assert!(pos(0, 0).cannon_towards().is_empty());
    assert!(pos(1, 1).cannon_towards().is_empty());
}

#[test]
fn aimed_targets_fire_through_their_cannon() {
    for p in BoardPosition::all_valid() {
        if !p.is_outer_cannon() {
            continue;
        }
        for e in p.aimed_at() {
            assert!(e.is_edge());
            let (dx, dy) = ((e.x() - p.x()) / 3, (e.y() - p.y()) / 3);
            assert_eq!((p.x() + 3 * dx, p.y() + 3 * dy), (e.x(), e.y()));
            let mut between = coords(&e.cannon_towards());
            between.sort();
            let mut expected = vec![(p.x() + dx, p.y() + dy), (p.x() + 2 * dx, p.y() + 2 * dy)];
            expected.sort();
            assert_eq!(between, expected);
        }
    }
}

#[test]
fn screen_points_map_to_board_cells() {
    let p = translate_screen_to_board((370, 30)).unwrap();
    assert_eq!((p.x(), p.y()), (0, -2));
    let p = translate_screen_to_board((874, 400)).unwrap();
    assert_eq!((p.x(), p.y()), (2, 0));
    assert!(translate_screen_to_board((874, 874)).is_none());
    assert!(translate_screen_to_board((10, 10)).is_none());
    assert!(translate_screen_to_board((-10, 400)).is_none());
    assert!(translate_screen_to_board((900, 400)).is_none());
    assert_eq!(translate_board_to_screen(pos(0, 0)), (375, 375));
    assert_eq!(translate_board_to_screen(pos(-2, 1)), (25, 550));
    for q in BoardPosition::all_valid() {
        let (x, y) = translate_board_to_screen(q);
        let back = translate_screen_to_board((x + 1, y + 1)).unwrap();
        assert_eq!(back, q);
    }
}
