use vstd::prelude::*;
use crate::position::{valid_xy, BoardPosition};

verus! {

/// Side of a card on screen, in pixels.
pub const CARD_WIDTH: i32 = 150;

/// Gap between two cards on screen, in pixels.
pub const CARD_SPACE: i32 = 25;

/// The column (or row) of the board under screen coordinate `v`, which counts
/// pixels from the window's edge.
pub open spec fn board_line(v: int) -> int {
    v / (CARD_SPACE + CARD_WIDTH) as int - 2
}

/// The board position under the screen point `(x, y)`, if any.
pub fn translate_screen_to_board(xy: (i32, i32)) -> (r: Option<BoardPosition>)
    ensures
        r is Some <==> xy.0 >= 0 && xy.1 >= 0 && valid_xy(board_line(xy.0 as int), board_line(xy.1 as int)),
        r is Some ==> r->0@ == (board_line(xy.0 as int), board_line(xy.1 as int)),
{
    let (x, y) = xy;
    if x < 0 || y < 0 {
        return None;
    }
    let board_x = x / (CARD_SPACE + CARD_WIDTH) - 2;
    let board_y = y / (CARD_SPACE + CARD_WIDTH) - 2;
    if board_x < -2 || board_x > 2 || board_y < -2 || board_y > 2 {
        return None;
    }
    match BoardPosition::new((board_x as i8, board_y as i8)) {
        Ok(pos) => Some(pos),
        Err(_) => None,
    }
}

/// The screen point of the top left corner of the card at `pos`.
pub fn translate_board_to_screen(pos: BoardPosition) -> (r: (i32, i32))
    ensures
        r.0 == CARD_SPACE + (CARD_SPACE + CARD_WIDTH) * (pos@.0 + 2),
        r.1 == CARD_SPACE + (CARD_SPACE + CARD_WIDTH) * (pos@.1 + 2),
{
    let x = pos.x();
    let y = pos.y();
    let screen_x = CARD_SPACE + (CARD_SPACE + CARD_WIDTH) * (x as i32 + 2);
    let screen_y = CARD_SPACE + (CARD_SPACE + CARD_WIDTH) * (y as i32 + 2);
    (screen_x, screen_y)
}

} // verus!
