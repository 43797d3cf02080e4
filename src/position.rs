use vstd::prelude::*;
use crate::error::GameError;

verus! {

/// Whether `(x, y)` is a cell of the board: a 5 by 5 grid centred on the
/// origin, without its four corners.
pub open spec fn valid_xy(x: int, y: int) -> bool {
    &&& -2 <= x <= 2
    &&& -2 <= y <= 2
    &&& !((x == -2 || x == 2) && (y == -2 || y == 2))
}

/// The inner 3 by 3 square.
pub open spec fn cannon_xy(x: int, y: int) -> bool {
    -1 <= x <= 1 && -1 <= y <= 1
}

/// The inner square without its centre.
pub open spec fn outer_cannon_xy(x: int, y: int) -> bool {
    cannon_xy(x, y) && !(x == 0 && y == 0)
}

/// A cell of the outer ring, where royals stand.
pub open spec fn edge_xy(x: int, y: int) -> bool {
    valid_xy(x, y) && !cannon_xy(x, y)
}

/// Where the cell `(x, y)` sits in a flat table of the 5 by 5 grid.
pub open spec fn cell_index(c: (int, int)) -> int {
    (c.0 + 2) * 5 + (c.1 + 2)
}

/// The grid cell stored at index `i` of the flat table.
pub open spec fn grid_cell(i: int) -> (int, int) {
    (i / 5 - 2, i % 5 - 2)
}

/// The valid cells among the first `n` grid cells, by increasing `x`, then `y`.
pub open spec fn cells_upto(n: int) -> Seq<(int, int)>
    decreases n,
{
    if n <= 0 {
        seq![]
    } else {
        let c = grid_cell(n - 1);
        if valid_xy(c.0, c.1) {
            cells_upto(n - 1).push(c)
        } else {
            cells_upto(n - 1)
        }
    }
}

/// All 21 cells of the board, by increasing `x`, then `y`.
pub open spec fn all_cells() -> Seq<(int, int)> {
    cells_upto(25)
}

/// The coordinates of a sequence of positions.
pub open spec fn cells_of(ps: Seq<BoardPosition>) -> Seq<(int, int)> {
    ps.map_values(|p: BoardPosition| p@)
}

/// `(x, y)` alone if it is an edge cell, else nothing.
pub open spec fn if_edge(x: int, y: int) -> Seq<(int, int)> {
    if edge_xy(x, y) {
        seq![(x, y)]
    } else {
        seq![]
    }
}

/// The edge cells next to `(x, y)`: left, right, below, above.
pub open spec fn adjacent_edge_cells(x: int, y: int) -> Seq<(int, int)> {
    if_edge(x - 1, y) + if_edge(x + 1, y) + if_edge(x, y - 1) + if_edge(x, y + 1)
}

/// The two cannon cells between an edge cell on a side of the board and the
/// centre; nothing for any other cell.
pub open spec fn cannon_cells(x: int, y: int) -> Seq<(int, int)> {
    if x == -2 {
        seq![(-1, y), (0, y)]
    } else if x == 2 {
        seq![(0, y), (1, y)]
    } else if y == -2 {
        seq![(x, -1), (x, 0)]
    } else if y == 2 {
        seq![(x, 0), (x, 1)]
    } else {
        seq![]
    }
}

/// The edge cells that a card placed on an outer cannon cell fires at: three
/// steps away across the board, first along the column, then along the row.
/// Nothing for any other cell.
pub open spec fn aimed_cells(x: int, y: int) -> Seq<(int, int)> {
    if outer_cannon_xy(x, y) {
        (if y != 0 {
            seq![(x, -2 * y)]
        } else {
            seq![]
        }) + (if x != 0 {
            seq![(-2 * x, y)]
        } else {
            seq![]
        })
    } else {
        seq![]
    }
}

/// A cell of the board.
#[derive(Debug, PartialEq, Eq, Structural, Clone, Copy)]
pub struct BoardPosition {
    x: i8,
    y: i8,
}

impl View for BoardPosition {
    type V = (int, int);

    closed spec fn view(&self) -> (int, int) {
        (self.x as int, self.y as int)
    }
}

impl BoardPosition {
    /// Every position lies on the board.
    #[verifier::type_invariant]
    pub open spec fn wf(self) -> bool {
        valid_xy(self@.0, self@.1)
    }

    pub fn new(xy: (i8, i8)) -> (r: Result<BoardPosition, GameError>)
        ensures
            r is Ok <==> valid_xy(xy.0 as int, xy.1 as int),
            r is Ok ==> r->Ok_0@ == (xy.0 as int, xy.1 as int),
            r is Err ==> r->Err_0 == GameError::InvalidCoordinate,
    {
        let (x, y) = xy;
        if x < -2 || x > 2 || y < -2 || y > 2 {
            return Err(GameError::InvalidCoordinate);
        }
        if (x == -2 || x == 2) && (y == -2 || y == 2) {
            return Err(GameError::InvalidCoordinate);
        }
        Ok(BoardPosition { x, y })
    }

    /// The 21 positions of the board, by increasing `x`, then `y`.
    pub fn all_valid() -> (r: Vec<BoardPosition>)
        ensures
            cells_of(r@) == all_cells(),
    {
        let mut result: Vec<BoardPosition> = Vec::new();
        let mut i: u8 = 0;
        while i < 25
            invariant
                i <= 25,
                cells_of(result@) == cells_upto(i as int),
            decreases 25 - i,
        {
            let x: i8 = (i / 5) as i8 - 2;
            let y: i8 = (i % 5) as i8 - 2;
            let ghost before = result@;
            match BoardPosition::new((x, y)) {
                Ok(pos) => {
                    result.push(pos);
                    assert(cells_of(result@) =~= cells_of(before).push(pos@));
                },
                Err(_) => {},
            }
            i = i + 1;
        }
        result
    }

    pub fn is_cannon(&self) -> (r: bool)
        ensures
            r == cannon_xy(self@.0, self@.1),
    {
        (self.x >= -1 && self.x <= 1) && (self.y >= -1 && self.y <= 1)
    }

    pub fn is_outer_cannon(&self) -> (r: bool)
        ensures
            r == outer_cannon_xy(self@.0, self@.1),
    {
        self.is_cannon() && !(self.x == 0 && self.y == 0)
    }

    pub fn is_edge(&self) -> (r: bool)
        ensures
            r == edge_xy(self@.0, self@.1),
    {
        proof {
            use_type_invariant(self);
        }
        !self.is_cannon()
    }

    /// The edge positions next to this one: left, right, below, above.
    pub fn adjacent_edges(&self) -> (r: Vec<BoardPosition>)
        ensures
            cells_of(r@) == adjacent_edge_cells(self@.0, self@.1),
    {
        proof {
            use_type_invariant(self);
        }
        let mut result: Vec<BoardPosition> = Vec::new();
        let ghost x = self@.0;
        let ghost y = self@.1;
        push_if_edge(&mut result, (self.x - 1, self.y));
        assert(cells_of(result@) =~= if_edge(x - 1, y));
        push_if_edge(&mut result, (self.x + 1, self.y));
        assert(cells_of(result@) =~= if_edge(x - 1, y) + if_edge(x + 1, y));
        push_if_edge(&mut result, (self.x, self.y - 1));
        assert(cells_of(result@) =~= if_edge(x - 1, y) + if_edge(x + 1, y) + if_edge(x, y - 1));
        push_if_edge(&mut result, (self.x, self.y + 1));
        assert(cells_of(result@) =~= adjacent_edge_cells(x, y));
        result
    }

    /// The edge positions attacked when a card is placed here.
    pub fn aimed_at(&self) -> (r: Vec<BoardPosition>)
        ensures
            cells_of(r@) == aimed_cells(self@.0, self@.1),
    {
        proof {
            use_type_invariant(self);
        }
        let mut result: Vec<BoardPosition> = Vec::new();
        let x = self.x;
        let y = self.y;
        if self.is_outer_cannon() {
            assert(-1 <= x <= 1 && -1 <= y <= 1);
            let across_x: i8 = -2 * x;
            let across_y: i8 = -2 * y;
            if y != 0 {
                result.push(BoardPosition { x, y: across_y });
            }
            if x != 0 {
                result.push(BoardPosition { x: across_x, y });
            }
        }
        assert(cells_of(result@) =~= aimed_cells(self@.0, self@.1));
        result
    }

    /// The two cannon positions whose cards attack a royal standing here.
    pub fn cannon_towards(&self) -> (r: Vec<BoardPosition>)
        ensures
            cells_of(r@) == cannon_cells(self@.0, self@.1),
    {
        proof {
            use_type_invariant(self);
        }
        let r = if self.x == -2 {
            vec![BoardPosition { x: -1, y: self.y }, BoardPosition { x: 0, y: self.y }]
        } else if self.x == 2 {
            vec![BoardPosition { x: 0, y: self.y }, BoardPosition { x: 1, y: self.y }]
        } else if self.y == -2 {
            vec![BoardPosition { x: self.x, y: -1 }, BoardPosition { x: self.x, y: 0 }]
        } else if self.y == 2 {
            vec![BoardPosition { x: self.x, y: 0 }, BoardPosition { x: self.x, y: 1 }]
        } else {
            Vec::new()
        };
        assert(cells_of(r@) =~= cannon_cells(self@.0, self@.1));
        r
    }

    pub fn x(&self) -> (r: i8)
        ensures
            r as int == self@.0,
            self.wf(),
    {
        proof {
            use_type_invariant(self);
        }
        self.x
    }

    pub fn y(&self) -> (r: i8)
        ensures
            r as int == self@.1,
            self.wf(),
    {
        proof {
            use_type_invariant(self);
        }
        self.y
    }

    /// Where this position sits in a flat table of the grid.
    pub(crate) fn index(&self) -> (r: usize)
        ensures
            r as int == cell_index(self@),
            r < 25,
            self.wf(),
    {
        proof {
            use_type_invariant(self);
        }
        ((self.x + 2) as usize) * 5 + ((self.y + 2) as usize)
    }
}

/// Appends the position `xy` to `v` when it is an edge cell.
fn push_if_edge(v: &mut Vec<BoardPosition>, xy: (i8, i8))
    ensures
        cells_of(final(v)@) == cells_of(old(v)@) + if_edge(xy.0 as int, xy.1 as int),
{
    match BoardPosition::new(xy) {
        Ok(pos) => {
            if pos.is_edge() {
                v.push(pos);
                assert(cells_of(final(v)@) =~= cells_of(old(v)@) + if_edge(xy.0 as int, xy.1 as int));
            } else {
                assert(cells_of(v@) =~= cells_of(old(v)@) + if_edge(xy.0 as int, xy.1 as int));
            }
        },
        Err(_) => {
            assert(cells_of(v@) =~= cells_of(old(v)@) + if_edge(xy.0 as int, xy.1 as int));
        },
    }
}

/// A step of one cell along a row or a column.
pub open spec fn unit_step(dx: int, dy: int) -> bool {
    (dx == 0 && (dy == 1 || dy == -1)) || (dy == 0 && (dx == 1 || dx == -1))
}

/// Every valid cell among the first `n` grid cells is listed by `cells_upto(n)`,
/// and every cell listed is valid.
proof fn lemma_cells_upto(n: int)
    requires
        0 <= n <= 25,
    ensures
        cells_upto(n).len() <= n,
        forall|k: int| 0 <= k < cells_upto(n).len() ==> valid_xy(#[trigger] cells_upto(n)[k].0, cells_upto(n)[k].1),
        forall|i: int| 0 <= i < n && valid_xy(grid_cell(i).0, grid_cell(i).1) ==> cells_upto(n).contains(#[trigger] grid_cell(i)),
    decreases n,
{
    if n > 0 {
        lemma_cells_upto(n - 1);
        let c = grid_cell(n - 1);
        if valid_xy(c.0, c.1) {
            let s = cells_upto(n - 1);
            assert(cells_upto(n) == s.push(c));
            assert forall|i: int| 0 <= i < n && valid_xy(grid_cell(i).0, grid_cell(i).1) implies cells_upto(n).contains(#[trigger] grid_cell(i)) by {
                if i == n - 1 {
                    assert(cells_upto(n)[s.len() as int] == c);
                } else {
                    let k = choose|k: int| 0 <= k < s.len() && s[k] == grid_cell(i);
                    assert(cells_upto(n)[k] == grid_cell(i));
                }
            }
        }
    }
}

/// Of the 25 cells of the 5 by 5 grid, exactly the 21 that are not corners are
/// positions of the board, and `all_cells()` lists each of them.
pub proof fn lemma_twenty_one_cells()
    ensures
        forall|x: int, y: int|
            -2 <= x <= 2 && -2 <= y <= 2 ==> (#[trigger] valid_xy(x, y) <==> !((x == -2 || x == 2) && (y == -2
                || y == 2))),
        all_cells().len() == 21,
        forall|k: int| 0 <= k < 21 ==> valid_xy(#[trigger] all_cells()[k].0, all_cells()[k].1),
        forall|x: int, y: int| #[trigger] valid_xy(x, y) ==> all_cells().contains((x, y)),
{
    reveal_with_fuel(cells_upto, 26);
    lemma_cells_upto(25);
    assert forall|x: int, y: int| #[trigger] valid_xy(x, y) implies all_cells().contains((x, y)) by {
        let i = cell_index((x, y));
        assert(grid_cell(i) == (x, y));
    }
}

/// A card placed on an outer cannon cell fires along each row and column
/// through it, at the cell three steps away when that cell is on the board;
/// and the cannon of that target is made of the two cells in between.
pub proof fn lemma_aim_through_cannon(px: int, py: int, dx: int, dy: int)
    requires
        valid_xy(px, py),
        outer_cannon_xy(px, py),
        unit_step(dx, dy),
    ensures
        aimed_cells(px, py).contains((px + 3 * dx, py + 3 * dy)) <==> valid_xy(px + 3 * dx, py + 3 * dy),
        valid_xy(px + 3 * dx, py + 3 * dy) ==> cannon_cells(px + 3 * dx, py + 3 * dy).to_set() == set![
            (px + dx, py + dy),
            (px + 2 * dx, py + 2 * dy),
        ],
{
    let a = aimed_cells(px, py);
    let e = (px + 3 * dx, py + 3 * dy);
    if valid_xy(e.0, e.1) {
        if dx == 0 {
            assert(a[0] == e);
        } else {
            assert(a[a.len() - 1] == e);
        }
        assert(cannon_cells(e.0, e.1).to_set() =~= set![(px + dx, py + dy), (px + 2 * dx, py + 2 * dy)]);
    } else {
        assert forall|k: int| 0 <= k < a.len() implies a[k] != e by {}
    }
}

/// Every cell a card fires at is an edge cell three steps away along the
/// row or the column of the card.
pub proof fn lemma_aimed_cells_in_line(px: int, py: int)
    requires
        valid_xy(px, py),
    ensures
        forall|k: int|
            0 <= k < aimed_cells(px, py).len() ==> {
                let e = #[trigger] aimed_cells(px, py)[k];
                &&& edge_xy(e.0, e.1)
                &&& exists|dx: int, dy: int| #[trigger] unit_step(dx, dy) && e == (px + 3 * dx, py + 3 * dy)
            },
{
    let a = aimed_cells(px, py);
    assert forall|k: int| 0 <= k < a.len() implies {
        let e = #[trigger] a[k];
        &&& edge_xy(e.0, e.1)
        &&& exists|dx: int, dy: int| #[trigger] unit_step(dx, dy) && e == (px + 3 * dx, py + 3 * dy)
    } by {
        let e = a[k];
        if py != 0 && k == 0 {
            assert(unit_step(0, -py) && e == (px + 3 * 0, py + 3 * -py));
        } else {
            assert(unit_step(-px, 0) && e == (px + 3 * -px, py + 3 * 0));
        }
    }
}

} // verus!
