use vstd::prelude::*;
use crate::card::{same_color, Card};
use crate::pile::{royal_count, royal_pred, Pile};
use crate::position::{
    adjacent_edge_cells, all_cells, cannon_cells, cannon_xy, cell_index, cells_of, edge_xy,
    lemma_twenty_one_cells, outer_cannon_xy, valid_xy, BoardPosition,
};

verus! {

/// `a + b`, or 255 where that does not fit in a byte.
pub open spec fn sat_add(a: u8, b: u8) -> u8 {
    if a + b > 255 {
        255u8
    } else {
        (a + b) as u8
    }
}

/// What a board holds: for each of the 25 grid cells, by `cell_index`, a pile
/// and an armor counter. The four corners stay empty.
pub struct BoardView {
    pub piles: Seq<Seq<Card>>,
    pub armor: Seq<u8>,
}

impl BoardView {
    /// A table for all 25 grid cells, where an empty pile carries no armor.
    pub open spec fn wf(self) -> bool {
        &&& self.piles.len() == 25
        &&& self.armor.len() == 25
        &&& forall|i: int| 0 <= i < 25 && (#[trigger] self.piles[i]).len() == 0 ==> self.armor[i] == 0
    }

    pub open spec fn pile(self, c: (int, int)) -> Seq<Card> {
        self.piles[cell_index(c)]
    }

    pub open spec fn armor_at(self, c: (int, int)) -> u8 {
        self.armor[cell_index(c)]
    }

    /// The top card of the pile at `c`.
    pub open spec fn top(self, c: (int, int)) -> Option<Card> {
        if self.pile(c).len() == 0 {
            None
        } else {
            Some(self.pile(c).last())
        }
    }

    pub open spec fn occupied(self, c: (int, int)) -> bool {
        self.pile(c).len() > 0
    }

    /// The board with `card` pushed onto the pile at `c`.
    pub open spec fn with_card(self, c: (int, int), card: Card) -> BoardView {
        BoardView { piles: self.piles.update(cell_index(c), self.pile(c).push(card)), armor: self.armor }
    }

    /// The board with the pile at `c` gone and its armor back to zero.
    pub open spec fn cleared(self, c: (int, int)) -> BoardView {
        BoardView {
            piles: self.piles.update(cell_index(c), Seq::empty()),
            armor: self.armor.update(cell_index(c), 0),
        }
    }

    /// The board with `ds[i]` pushed onto the pile at `cs[i]`, for each `i`
    /// in order.
    pub open spec fn with_cards(self, cs: Seq<(int, int)>, ds: Seq<Card>) -> BoardView
        decreases cs.len(),
    {
        if cs.len() == 0 || ds.len() == 0 {
            self
        } else {
            self.with_cards(cs.drop_last(), ds.drop_last()).with_card(cs.last(), ds.last())
        }
    }

    /// The board with `amount` more armor at `c`, when a royal is on top
    /// there; unchanged otherwise.
    pub open spec fn armored(self, c: (int, int), amount: u8) -> BoardView {
        match self.top(c) {
            Some(card) if card.spec_is_royal() => BoardView {
                piles: self.piles,
                armor: self.armor.update(cell_index(c), sat_add(self.armor_at(c), amount)),
            },
            _ => self,
        }
    }

    /// Whether the card at `c` falls when attacked: `c` is on a side, both
    /// cannon cells towards it hold cards, a Queen is hit only by cards of her
    /// colour and a King only by cards of his suit, and the two values reach
    /// the card's value plus its armor.
    pub open spec fn attack_lands(self, c: (int, int)) -> bool {
        let cannons = cannon_cells(c.0, c.1);
        match self.top(c) {
            None => false,
            Some(royal) => {
                &&& cannons.len() == 2
                &&& self.occupied(cannons[0])
                &&& self.occupied(cannons[1])
                &&& {
                    let a = self.top(cannons[0])->0;
                    let b = self.top(cannons[1])->0;
                    &&& royal.spec_value() == 12 ==> same_color(a.spec_suit(), royal.spec_suit())
                        && same_color(b.spec_suit(), royal.spec_suit())
                    &&& royal.spec_value() == 13 ==> a.spec_suit() == royal.spec_suit()
                        && b.spec_suit() == royal.spec_suit()
                    &&& a.spec_value() + b.spec_value() >= royal.spec_value() + self.armor_at(c)
                }
            },
        }
    }

    /// The board after an attack on the card at `c`.
    pub open spec fn after_attack(self, c: (int, int)) -> BoardView {
        if self.attack_lands(c) {
            self.cleared(c)
        } else {
            self
        }
    }

    /// The board after attacks on each of `cs`, in order.
    pub open spec fn after_attacks(self, cs: Seq<(int, int)>) -> BoardView
        decreases cs.len(),
    {
        if cs.len() == 0 {
            self
        } else {
            self.after_attacks(cs.drop_last()).after_attack(cs.last())
        }
    }

    /// The empty edge cells next to `c`.
    pub open spec fn adjacent_empty_edges(self, c: (int, int)) -> Seq<(int, int)> {
        adjacent_edge_cells(c.0, c.1).filter(|e: (int, int)| !self.occupied(e))
    }

    /// How close the suit on top at `c` is to the suit of `royal`: 2 for the
    /// same suit, 1 for the same colour, 0 otherwise.
    pub open spec fn similarity(self, c: (int, int), royal: Card) -> int {
        let s = self.top(c)->0.spec_suit();
        if s == royal.spec_suit() {
            2
        } else if same_color(s, royal.spec_suit()) {
            1
        } else {
            0
        }
    }

    /// Similarity first, then the value on top: the order in which outer
    /// cannon cells compete to guide a royal.
    pub open spec fn rank(self, c: (int, int), royal: Card) -> int {
        16 * self.similarity(c, royal) + self.top(c)->0.spec_value()
    }

    /// An occupied outer cannon cell with an empty edge cell next to it.
    pub open spec fn candidate(self, c: (int, int)) -> bool {
        &&& outer_cannon_xy(c.0, c.1)
        &&& self.occupied(c)
        &&& self.adjacent_empty_edges(c).len() > 0
    }

    /// The highest rank among the candidates of the first `n` cells of
    /// `all_cells()`, or -1 if there is none.
    pub open spec fn best_rank(self, royal: Card, n: int) -> int
        decreases n,
    {
        if n <= 0 {
            -1
        } else {
            let c = all_cells()[n - 1];
            let prev = self.best_rank(royal, n - 1);
            if self.candidate(c) && self.rank(c, royal) > prev {
                self.rank(c, royal)
            } else {
                prev
            }
        }
    }

    /// The empty edges next to the candidates of rank `best` among the first
    /// `n` cells of `all_cells()`, in that order.
    pub open spec fn spots_of_rank(self, royal: Card, n: int, best: int) -> Seq<(int, int)>
        decreases n,
    {
        if n <= 0 {
            seq![]
        } else {
            let c = all_cells()[n - 1];
            self.spots_of_rank(royal, n - 1, best) + if self.candidate(c) && self.rank(c, royal)
                == best {
                self.adjacent_empty_edges(c)
            } else {
                seq![]
            }
        }
    }

    /// Royals stand only on edge cells, each alone in its pile; no cannon
    /// cell holds a royal.
    pub open spec fn tidy(self) -> bool {
        forall|x: int, y: int| #[trigger]
            valid_xy(x, y) ==> {
                let p = self.pile((x, y));
                &&& cannon_xy(x, y) ==> royal_count(p) == 0
                &&& !cannon_xy(x, y) ==> p.len() == 0 || (p.len() == 1 && p[0].spec_is_royal())
            }
    }

    /// Where a newly drawn royal may go: the empty edges next to every
    /// candidate of the highest rank.
    pub open spec fn royal_spots(self, royal: Card) -> Seq<(int, int)> {
        self.spots_of_rank(royal, 21, self.best_rank(royal, 21))
    }
}

/// The 21 cells of the board, each with a pile and an armor counter.
#[derive(Debug)]
pub struct Board {
    piles: Vec<Pile>,
    armor: Vec<u8>,
}

impl View for Board {
    type V = BoardView;

    closed spec fn view(&self) -> BoardView {
        BoardView { piles: self.piles@.map_values(|p: Pile| p@), armor: self.armor@ }
    }
}

impl Board {
    pub fn new_empty() -> (r: Board)
        ensures
            r@.wf(),
            forall|i: int| 0 <= i < 25 ==> (#[trigger] r@.piles[i]).len() == 0 && r@.armor[i] == 0,
    {
        let mut piles: Vec<Pile> = Vec::new();
        let mut armor: Vec<u8> = Vec::new();
        let mut i: usize = 0;
        while i < 25
            invariant
                i <= 25,
                piles@.len() == i,
                armor@.len() == i,
                forall|j: int| 0 <= j < i ==> (#[trigger] piles@[j])@.len() == 0 && armor@[j] == 0,
            decreases 25 - i,
        {
            piles.push(Pile::new());
            armor.push(0);
            i = i + 1;
        }
        Board { piles, armor }
    }

    pub fn get_pile_at(&self, pos: BoardPosition) -> (r: &Pile)
        requires
            self@.wf(),
        ensures
            r@ == self@.pile(pos@),
    {
        let i = pos.index();
        &self.piles[i]
    }

    /// The top card at `pos`, if any.
    pub fn get_card_at(&self, pos: BoardPosition) -> (r: Option<Card>)
        requires
            self@.wf(),
        ensures
            r == self@.top(pos@),
    {
        self.get_pile_at(pos).top()
    }

    /// Pushes `card` onto the pile at `pos`, with no check of the rules.
    pub fn place_card_at(&mut self, pos: BoardPosition, card: Card)
        requires
            old(self)@.wf(),
        ensures
            final(self)@ == old(self)@.with_card(pos@, card),
            final(self)@.wf(),
    {
        let i = pos.index();
        self.piles[i].place_card_on_top(card);
        assert(self@.piles =~= old(self)@.with_card(pos@, card).piles);
    }

    /// Empties the cell at `pos` and resets its armor.
    pub fn remove_pile_at(&mut self, pos: BoardPosition)
        requires
            old(self)@.wf(),
        ensures
            final(self)@ == old(self)@.cleared(pos@),
            final(self)@.wf(),
    {
        let _ = self.take_pile_at(pos);
    }

    /// Hands out the pile at `pos`, leaving the cell empty and without armor.
    pub fn take_pile_at(&mut self, pos: BoardPosition) -> (r: Pile)
        requires
            old(self)@.wf(),
        ensures
            r@ == old(self)@.pile(pos@),
            final(self)@ == old(self)@.cleared(pos@),
            final(self)@.wf(),
    {
        let i = pos.index();
        let mut taken = Pile::new();
        std::mem::swap(&mut taken, &mut self.piles[i]);
        self.armor.set(i, 0);
        assert(self@.piles =~= old(self)@.cleared(pos@).piles);
        assert(self@.armor =~= old(self)@.cleared(pos@).armor);
        taken
    }

    /// Adds `amount` to the armor at `pos` when a royal is on top there, and
    /// does nothing otherwise. Armor stops at 255, far beyond what any attack
    /// can reach.
    pub fn add_armor_at(&mut self, pos: BoardPosition, amount: u8)
        requires
            old(self)@.wf(),
        ensures
            final(self)@ == old(self)@.armored(pos@, amount),
            final(self)@.wf(),
    {
        match self.get_card_at(pos) {
            Some(card) => {
                if card.is_royal() {
                    let i = pos.index();
                    let a = self.armor[i];
                    self.armor.set(i, a.saturating_add(amount));
                    assert(self@.armor =~= old(self)@.armored(pos@, amount).armor);
                    assert(self@.piles =~= old(self)@.piles);
                }
            },
            None => {},
        }
    }

    pub fn get_armor_at(&self, pos: BoardPosition) -> (r: u8)
        requires
            self@.wf(),
        ensures
            r == self@.armor_at(pos@),
    {
        let i = pos.index();
        self.armor[i]
    }

    /// The empty edge positions next to `pos`.
    fn adjacent_empty_edges(&self, pos: BoardPosition) -> (r: Vec<BoardPosition>)
        requires
            self@.wf(),
        ensures
            cells_of(r@) == self@.adjacent_empty_edges(pos@),
    {
        let adjacent = pos.adjacent_edges();
        let ghost all = cells_of(adjacent@);
        let ghost keep = |e: (int, int)| !self@.occupied(e);
        let mut result: Vec<BoardPosition> = Vec::new();
        let mut k: usize = 0;
        while k < adjacent.len()
            invariant
                self@.wf(),
                k <= adjacent@.len(),
                all == cells_of(adjacent@),
                keep == (|e: (int, int)| !self@.occupied(e)),
                cells_of(result@) == all.take(k as int).filter(keep),
            decreases adjacent@.len() - k,
        {
            let adj = adjacent[k];
            proof {
                assert(all.take(k + 1) =~= all.take(k as int).push(adj@));
                all.take(k as int).lemma_filter_push(adj@, keep);
            }
            if self.get_card_at(adj).is_none() {
                let ghost before = result@;
                result.push(adj);
                assert(cells_of(result@) =~= cells_of(before).push(adj@));
            }
            k = k + 1;
        }
        assert(all.take(k as int) =~= all);
        result
    }

    /// Attacks the card at `royal` with the two cannon cards towards it, and
    /// removes its whole pile when the attack lands.
    pub fn resolve_attack(&mut self, royal: BoardPosition)
        requires
            old(self)@.wf(),
        ensures
            final(self)@ == old(self)@.after_attack(royal@),
            final(self)@.wf(),
    {
        let royal_card = match self.get_card_at(royal) {
            Some(card) => card,
            None => {
                return;
            },
        };
        let cannons = royal.cannon_towards();
        if cannons.len() != 2 {
            return;
        }
        proof {
            assert(cells_of(cannons@)[0] == cannons@[0]@);
            assert(cells_of(cannons@)[1] == cannons@[1]@);
        }
        let first = self.get_card_at(cannons[0]);
        let second = self.get_card_at(cannons[1]);
        match (first, second) {
            (Some(a), Some(b)) => {
                let value = royal_card.value();
                let suit = royal_card.suit();
                let mut valid = true;
                if value == 12 && !(a.suit().is_same_color_as(suit) && b.suit().is_same_color_as(
                    suit,
                )) {
                    valid = false;
                }
                if value == 13 && !(a.suit() == suit && b.suit() == suit) {
                    valid = false;
                }
                let damage: u16 = a.value() as u16 + b.value() as u16;
                let health: u16 = value as u16 + self.get_armor_at(royal) as u16;
                if valid && damage >= health {
                    self.remove_pile_at(royal);
                }
            },
            _ => {},
        }
    }

    /// Where a newly drawn `royal` may be placed: the empty edges next to
    /// every outer cannon card that is best on suit likeness, then on value.
    pub fn find_valid_royal_placement_positions(&self, royal: Card) -> (r: Vec<BoardPosition>)
        requires
            self@.wf(),
        ensures
            cells_of(r@) == self@.royal_spots(royal),
    {
        let all = BoardPosition::all_valid();
        proof {
            lemma_twenty_one_cells();
        }
        let mut result: Vec<BoardPosition> = Vec::new();
        let mut best: u8 = 0;
        let mut k: usize = 0;
        while k < all.len()
            invariant
                self@.wf(),
                cells_of(all@) == all_cells(),
                all@.len() == 21,
                k <= 21,
                best as int == if self@.best_rank(royal, k as int) < 0 {
                    0
                } else {
                    self@.best_rank(royal, k as int)
                },
                cells_of(result@) == self@.spots_of_rank(royal, k as int, best as int),
            decreases 21 - k,
        {
            let pos = all[k];
            let ghost c = pos@;
            assert(c == all_cells()[k as int]);
            proof {
                self@.lemma_best_rank_bounds(royal, k as int);
            }
            if pos.is_outer_cannon() {
                match self.get_card_at(pos) {
                    Some(card) => {
                        let mut spots = self.adjacent_empty_edges(pos);
                        if spots.len() > 0 {
                            let suit = card.suit();
                            let likeness: u8 = if suit == royal.suit() {
                                2
                            } else if suit.is_same_color_as(royal.suit()) {
                                1
                            } else {
                                0
                            };
                            let rank: u8 = 16 * likeness + card.value();
                            assert(rank == self@.rank(c, royal));
                            if rank > best {
                                proof {
                                    self@.lemma_no_spots_above_best(royal, k as int, rank as int);
                                }
                                result.clear();
                                best = rank;
                            }
                            if rank == best {
                                let ghost before = result@;
                                result.append(&mut spots);
                                assert(cells_of(result@) =~= cells_of(before) + self@.adjacent_empty_edges(c));
                            }
                        }
                    },
                    None => {},
                }
            }
            k = k + 1;
        }
        assert(k == 21);
        assert(cells_of(result@) == self@.spots_of_rank(royal, 21, best as int));
        proof {
            self@.lemma_best_rank_bounds(royal, 21);
            if self@.best_rank(royal, 21) < 0 {
                self@.lemma_no_spots_above_best(royal, 21, 0);
                self@.lemma_no_spots_above_best(royal, 21, -1);
            } else {
                assert(best as int == self@.best_rank(royal, 21));
            }
        }
        result
    }
}

impl BoardView {
    /// Clearing a cell keeps the board tidy.
    pub proof fn lemma_cleared_tidy(self, c: (int, int))
        requires
            self.wf(),
            self.tidy(),
            valid_xy(c.0, c.1),
        ensures
            self.cleared(c).tidy(),
    {
        let b = self.cleared(c);
        assert(Seq::<Card>::empty().filter(royal_pred()) =~= Seq::<Card>::empty()) by {
            reveal(Seq::filter);
        }
        assert forall|x: int, y: int| #[trigger] valid_xy(x, y) implies {
            let p = b.pile((x, y));
            &&& cannon_xy(x, y) ==> royal_count(p) == 0
            &&& !cannon_xy(x, y) ==> p.len() == 0 || (p.len() == 1 && p[0].spec_is_royal())
        } by {
            if (x, y) != c {
                assert(b.pile((x, y)) == self.pile((x, y)));
            }
        }
    }

    /// Attacks only clear cells, so they keep the board tidy.
    pub proof fn lemma_attacks_tidy(self, cs: Seq<(int, int)>)
        requires
            self.wf(),
            self.tidy(),
            forall|k: int| 0 <= k < cs.len() ==> valid_xy(#[trigger] cs[k].0, cs[k].1),
        ensures
            self.after_attacks(cs).tidy(),
            self.after_attacks(cs).wf(),
        decreases cs.len(),
    {
        if cs.len() > 0 {
            self.lemma_attacks_tidy(cs.drop_last());
            let b = self.after_attacks(cs.drop_last());
            assert(valid_xy(cs[cs.len() - 1].0, cs[cs.len() - 1].1));
            if b.attack_lands(cs.last()) {
                b.lemma_cleared_tidy(cs.last());
                let cl = b.cleared(cs.last());
                assert forall|i: int| 0 <= i < 25 && (#[trigger] cl.piles[i]).len() == 0 implies cl.armor[i] == 0 by {
                    if i != cell_index(cs.last()) {
                        assert(cl.piles[i] == b.piles[i]);
                    }
                }
            }
        }
    }

    /// A card that is not a royal may be pushed onto a cannon cell, and a
    /// royal onto an empty edge cell, of a tidy board.
    pub proof fn lemma_with_card_tidy(self, c: (int, int), card: Card)
        requires
            self.wf(),
            self.tidy(),
            valid_xy(c.0, c.1),
            cannon_xy(c.0, c.1) ==> !card.spec_is_royal(),
            !cannon_xy(c.0, c.1) ==> card.spec_is_royal() && !self.occupied(c),
        ensures
            self.with_card(c, card).tidy(),
    {
        let b = self.with_card(c, card);
        assert forall|x: int, y: int| #[trigger] valid_xy(x, y) implies {
            let p = b.pile((x, y));
            &&& cannon_xy(x, y) ==> royal_count(p) == 0
            &&& !cannon_xy(x, y) ==> p.len() == 0 || (p.len() == 1 && p[0].spec_is_royal())
        } by {
            if (x, y) != c {
                assert(b.pile((x, y)) == self.pile((x, y)));
            } else {
                self.pile(c).lemma_filter_push(card, royal_pred());
                assert(valid_xy(c.0, c.1));
            }
        }
    }

    /// Every cell where a royal may be placed is an empty edge cell.
    pub proof fn lemma_royal_spots_are_empty_edges(self, royal: Card, n: int, best: int)
        ensures
            forall|k: int|
                0 <= k < self.spots_of_rank(royal, n, best).len() ==> {
                    let e = #[trigger] self.spots_of_rank(royal, n, best)[k];
                    edge_xy(e.0, e.1) && !self.occupied(e)
                },
        decreases n,
    {
        if n > 0 {
            self.lemma_royal_spots_are_empty_edges(royal, n - 1, best);
            let c = all_cells()[n - 1];
            let keep = |e: (int, int)| !self.occupied(e);
            let adj = adjacent_edge_cells(c.0, c.1);
            assert forall|k: int| 0 <= k < adj.filter(keep).len() implies {
                let e = #[trigger] adj.filter(keep)[k];
                edge_xy(e.0, e.1) && !self.occupied(e)
            } by {
                adj.lemma_filter_pred(keep, k);
                let e = adj.filter(keep)[k];
                assert(adj.filter(keep).contains(e));
                adj.lemma_filter_contains_rev(keep, e);
            }
            let prev = self.spots_of_rank(royal, n - 1, best);
            let next = self.spots_of_rank(royal, n, best);
            assert forall|k: int| 0 <= k < next.len() implies {
                let e = #[trigger] next[k];
                edge_xy(e.0, e.1) && !self.occupied(e)
            } by {
                if k < prev.len() {
                    assert(next[k] == prev[k]);
                } else {
                    assert(next[k] == adj.filter(keep)[k - prev.len()]);
                }
            }
        }
    }

    proof fn lemma_best_rank_bounds(self, royal: Card, n: int)
        ensures
            self.best_rank(royal, n) >= -1,
            forall|j: int|
                0 <= j < n && self.candidate(#[trigger] all_cells()[j]) ==> self.rank(all_cells()[j], royal)
                    <= self.best_rank(royal, n),
        decreases n,
    {
        if n > 0 {
            self.lemma_best_rank_bounds(royal, n - 1);
        }
    }

    /// No candidate among the first `n` cells ranks above the best rank, nor
    /// below zero.
    proof fn lemma_no_spots_above_best(self, royal: Card, n: int, b: int)
        requires
            b > self.best_rank(royal, n) || b < 0,
        ensures
            self.spots_of_rank(royal, n, b) == Seq::<(int, int)>::empty(),
        decreases n,
    {
        if n > 0 {
            let c = all_cells()[n - 1];
            self.lemma_best_rank_bounds(royal, n);
            self.lemma_best_rank_bounds(royal, n - 1);
            if self.candidate(c) {
                assert(self.rank(c, royal) >= 0);
            }
            self.lemma_no_spots_above_best(royal, n - 1, b);
            assert(self.spots_of_rank(royal, n, b) =~= Seq::<(int, int)>::empty());
        }
    }
}

/// A King falls only to cards of his own suit, and a Queen only to cards of
/// her colour: when one of the two cannon cards towards her or him breaks
/// that rule, the attack changes nothing, whatever the values.
pub proof fn lemma_suit_guards(b: BoardView, c: (int, int), j: int)
    requires
        b.occupied(c),
        0 <= j < cannon_cells(c.0, c.1).len(),
        b.occupied(cannon_cells(c.0, c.1)[j]),
        ({
            let royal = b.top(c)->0;
            let guard = b.top(cannon_cells(c.0, c.1)[j])->0;
            ||| royal.spec_value() == 13 && guard.spec_suit() != royal.spec_suit()
            ||| royal.spec_value() == 12 && !same_color(guard.spec_suit(), royal.spec_suit())
        }),
    ensures
        !b.attack_lands(c),
        b.after_attack(c) == b,
{
}

} // verus!
