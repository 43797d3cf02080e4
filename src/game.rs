use vstd::prelude::*;
use crate::board::{sat_add, Board, BoardView};
use crate::card::Card;
use crate::error::GameError;
use crate::pile::{non_royal_count, royal_count, Pile};
use crate::position::{aimed_cells, all_cells, cannon_xy, cells_of, outer_cannon_xy, valid_xy, BoardPosition};

verus! {

/// The outer cannon cells, in the order of `all_cells()`.
pub open spec fn outer_cells() -> Seq<(int, int)> {
    all_cells().filter(|c: (int, int)| outer_cannon_xy(c.0, c.1))
}

/// Dealing the outer cannon cells: cards come off the top of `deck`; royals
/// are set aside in the order drawn and other cards are dealt, until eight
/// are dealt or the deck runs out. Gives the deck left, the royals set aside
/// and the cards dealt.
pub open spec fn deal(deck: Seq<Card>, aside: Seq<Card>, dealt: Seq<Card>) -> (
    Seq<Card>,
    Seq<Card>,
    Seq<Card>,
)
    decreases deck.len(),
{
    if dealt.len() >= 8 || deck.len() == 0 {
        (deck, aside, dealt)
    } else if deck.last().spec_is_royal() {
        deal(deck.drop_last(), aside.push(deck.last()), dealt)
    } else {
        deal(deck.drop_last(), aside, dealt.push(deck.last()))
    }
}

/// What a game holds: the deck (its top is the last card), the card held, if
/// any, the board and the shame counter.
pub struct GameView {
    pub deck: Seq<Card>,
    pub drawn: Option<Card>,
    pub board: BoardView,
    pub shame: u8,
}

impl GameView {
    /// The board is well formed.
    pub open spec fn wf(self) -> bool {
        self.board.wf()
    }

    /// Whether the held card may go to `c`. A royal goes only where
    /// `royal_spots` allows. Another card goes to an empty cannon cell, or
    /// onto a cannon card of at most its value (an Ace onto any), or onto an
    /// occupied edge cell as armor.
    pub open spec fn can_place(self, c: (int, int)) -> bool {
        match self.drawn {
            None => false,
            Some(d) => {
                if d.spec_is_royal() {
                    self.board.royal_spots(d).contains(c)
                } else if cannon_xy(c.0, c.1) {
                    match self.board.top(c) {
                        None => true,
                        Some(o) => d.spec_value() == 1 || d.spec_value() >= o.spec_value(),
                    }
                } else {
                    self.board.occupied(c)
                }
            },
        }
    }

    /// Why a draw fails, if it does.
    pub open spec fn draw_error(self) -> Option<GameError> {
        if self.drawn is Some {
            Some(GameError::AlreadyDrawn)
        } else if self.deck.len() == 0 {
            Some(GameError::EmptyDeck)
        } else {
            None
        }
    }

    /// The game after a successful draw.
    pub open spec fn after_draw(self) -> GameView {
        GameView {
            deck: self.deck.drop_last(),
            drawn: Some(self.deck.last()),
            board: self.board,
            shame: self.shame,
        }
    }

    /// Why placing the held card at `c` fails, if it does.
    pub open spec fn place_error(self, c: (int, int)) -> Option<GameError> {
        if self.drawn is None {
            Some(GameError::NoDrawnCard)
        } else if !self.can_place(c) {
            Some(GameError::IllegalPlacement)
        } else {
            None
        }
    }

    /// The game after the held card goes to `c`. Onto a royal it becomes
    /// armor. Otherwise an Ace or a Joker first sends the pile at `c` to the
    /// bottom of the deck; then each royal that `c` aims at is attacked, and
    /// the card is pushed onto `c`.
    pub open spec fn after_place(self, c: (int, int)) -> GameView {
        let d = self.drawn->0;
        if self.board.occupied(c) && self.board.top(c)->0.spec_is_royal() {
            self.after_armor(c)
        } else {
            let recycle = d.spec_value() == 1 || d.spec_value() == 0;
            let deck = if recycle {
                self.board.pile(c) + self.deck
            } else {
                self.deck
            };
            let board = if recycle {
                self.board.cleared(c)
            } else {
                self.board
            };
            GameView {
                deck,
                drawn: None,
                board: board.after_attacks(aimed_cells(c.0, c.1)).with_card(c, d),
                shame: self.shame,
            }
        }
    }

    /// Why adding the held card as armor at `c` fails, if it does.
    pub open spec fn armor_error(self, c: (int, int)) -> Option<GameError> {
        if self.drawn is None {
            Some(GameError::NoDrawnCard)
        } else if !(self.board.occupied(c) && self.board.top(c)->0.spec_is_royal()) {
            Some(GameError::IllegalPlacement)
        } else {
            None
        }
    }

    /// The game after the held card's value is added as armor at `c`.
    pub open spec fn after_armor(self, c: (int, int)) -> GameView {
        GameView {
            deck: self.deck,
            drawn: None,
            board: self.board.armored(c, self.drawn->0.spec_value()),
            shame: self.shame,
        }
    }

    /// The game after the held card is discarded; nothing changes while no
    /// card is held.
    pub open spec fn after_shame(self) -> GameView {
        if self.drawn is Some {
            GameView { deck: self.deck, drawn: None, board: self.board, shame: sat_add(self.shame, 1) }
        } else {
            self
        }
    }

    /// The game after the pile at `c` goes to the bottom of the deck.
    pub open spec fn after_recycle(self, c: (int, int)) -> GameView {
        GameView {
            deck: self.board.pile(c) + self.deck,
            drawn: self.drawn,
            board: self.board.cleared(c),
            shame: self.shame,
        }
    }

    /// No royal is left in the deck; in particular, the deck is empty.
    pub open spec fn is_over(self) -> bool {
        royal_count(self.deck) == 0 || self.deck.len() == 0
    }
}

/// A game in progress.
#[derive(Debug)]
pub struct Game {
    drawn: Option<Card>,
    deck: Pile,
    board: Board,
    shame: u8,
}

impl View for Game {
    type V = GameView;

    closed spec fn view(&self) -> GameView {
        GameView { deck: self.deck@, drawn: self.drawn, board: self.board@, shame: self.shame }
    }
}

impl Game {
    /// A game with a freshly shuffled deck of 54 cards and an empty board.
    pub fn new() -> (r: Game)
        ensures
            r@.deck.len() == 54,
            crate::pile::card_keys(r@.deck).to_multiset() == crate::pile::standard_deck().to_multiset(),
            royal_count(r@.deck) == 12,
            non_royal_count(r@.deck) == 42,
            r@.drawn is None,
            r@.shame == 0,
            r@.wf(),
            forall|i: int| 0 <= i < 25 ==> (#[trigger] r@.board.piles[i]).len() == 0 && r@.board.armor[i] == 0,
    {
        let deck = Pile::new_shuffled_deck();
        proof {
            crate::pile::lemma_royal_split(deck@);
        }
        Game { drawn: None, deck, board: Board::new_empty(), shame: 0 }
    }

    /// A game that goes on from `board` with `deck`, no card in hand and no
    /// shame.
    pub fn from_parts(deck: Pile, board: Board) -> (r: Game)
        requires
            board@.wf(),
        ensures
            r@ == (GameView { deck: deck@, drawn: None, board: board@, shame: 0 }),
    {
        Game { drawn: None, deck, board, shame: 0 }
    }

    pub fn get_card_at(&self, pos: BoardPosition) -> (r: Option<Card>)
        requires
            self@.wf(),
        ensures
            r == self@.board.top(pos@),
    {
        self.board.get_card_at(pos)
    }

    pub fn get_armor_at(&self, pos: BoardPosition) -> (r: u8)
        requires
            self@.wf(),
        ensures
            r == self@.board.armor_at(pos@),
    {
        self.board.get_armor_at(pos)
    }

    pub fn drawn(&self) -> (r: Option<Card>)
        ensures
            r == self@.drawn,
    {
        self.drawn
    }

    pub fn cards_left(&self) -> (r: usize)
        ensures
            r == self@.deck.len(),
    {
        self.deck.size()
    }

    pub fn get_shame(&self) -> (r: u8)
        ensures
            r == self@.shame,
    {
        self.shame
    }

    pub fn is_game_over(&self) -> (r: bool)
        ensures
            r == self@.is_over(),
    {
        self.deck.royals_left() == 0 || self.deck.size() == 0
    }

    /// Deals one card that is not a royal to each outer cannon cell, in the
    /// order of `all_cells()`, setting aside the royals met on the way; the
    /// royals then go back on top of the deck, in the order drawn.
    pub fn set_up(&mut self)
        requires
            old(self)@.wf(),
            non_royal_count(old(self)@.deck) >= 8,
        ensures
            final(self)@.wf(),
            ({
                let (rest, aside, dealt) = deal(old(self)@.deck, seq![], seq![]);
                &&& final(self)@.deck == rest + aside
                &&& final(self)@.board == old(self)@.board.with_cards(outer_cells(), dealt)
            }),
            final(self)@.drawn == old(self)@.drawn,
            final(self)@.shame == old(self)@.shame,
    {
        let ghost start = self@;
        let ghost is_outer = |c: (int, int)| outer_cannon_xy(c.0, c.1);
        let ghost mut dealt: Seq<Card> = seq![];
        let mut royals = Pile::new();
        let all = BoardPosition::all_valid();
        proof {
            lemma_outer_cells();
            crate::position::lemma_twenty_one_cells();
        }
        let mut k: usize = 0;
        while k < all.len()
            invariant
                k <= 21,
                all@.len() == 21,
                cells_of(all@) == all_cells(),
                outer_cells().len() == 8,
                is_outer == (|c: (int, int)| outer_cannon_xy(c.0, c.1)),
                self@.wf(),
                dealt.len() == all_cells().take(k as int).filter(is_outer).len(),
                dealt.len() <= 8,
                non_royal_count(self@.deck) + dealt.len() >= 8,
                deal(self@.deck, royals@, dealt) == deal(start.deck, seq![], seq![]),
                self@.board == start.board.with_cards(all_cells().take(k as int).filter(is_outer), dealt),
                self@.drawn == start.drawn,
                self@.shame == start.shame,
            decreases 21 - k,
        {
            let pos = all[k];
            let ghost c = pos@;
            let ghost placed = all_cells().take(k as int).filter(is_outer);
            proof {
                assert(c == all_cells()[k as int]);
                assert(all_cells().take(k + 1) =~= all_cells().take(k as int).push(c));
                all_cells().take(k as int).lemma_filter_push(c, is_outer);
                all_cells().lemma_filter_take_len(is_outer, k + 1);
            }
            if pos.is_outer_cannon() {
                let ghost dealt_before = dealt;
                let mut done = false;
                while !done
                    invariant
                        self@.wf(),
                        c == pos@,
                        dealt_before.len() < 8,
                        done ==> dealt.len() == dealt_before.len() + 1,
                        !done ==> dealt == dealt_before,
                        non_royal_count(self@.deck) + dealt.len() >= 8,
                        deal(self@.deck, royals@, dealt) == deal(start.deck, seq![], seq![]),
                        done ==> self@.board == start.board.with_cards(placed.push(c), dealt),
                        !done ==> self@.board == start.board.with_cards(placed, dealt),
                        self@.drawn == start.drawn,
                        self@.shame == start.shame,
                    decreases self@.deck.len(), if done { 0int } else { 1 },
                {
                    let ghost deck = self@.deck;
                    proof {
                        crate::pile::lemma_royal_split(deck);
                        assert(deck =~= deck.drop_last().push(deck.last()));
                        deck.drop_last().lemma_filter_push(deck.last(), |c: Card| !c.spec_is_royal());
                    }
                    match self.deck.draw() {
                        Ok(card) => {
                            if card.is_royal() {
                                royals.place_card_on_top(card);
                            } else {
                                self.board.place_card_at(pos, card);
                                proof {
                                    dealt = dealt.push(card);
                                    assert(placed.push(c).drop_last() =~= placed);
                                    assert(dealt.drop_last() =~= dealt_before);
                                }
                                done = true;
                            }
                        },
                        Err(_) => {
                            // Unreachable: the deck still holds a card that is
                            // not a royal.
                            assert(false);
                            done = true;
                        },
                    }
                }
            }
            k = k + 1;
        }
        proof {
            assert(all_cells().take(21) =~= all_cells());
            assert(deal(self@.deck, royals@, dealt) == (self@.deck, royals@, dealt));
        }
        self.deck.place_pile_on_top(royals);
    }

    /// Whether the held card may go to `pos` (see `GameView::can_place`).
    pub fn can_place_at(&self, pos: BoardPosition) -> (r: bool)
        requires
            self@.wf(),
        ensures
            r == self@.can_place(pos@),
    {
        let drawn = match self.drawn {
            None => {
                return false;
            },
            Some(card) => card,
        };
        if drawn.is_royal() {
            let spots = self.board.find_valid_royal_placement_positions(drawn);
            let mut k: usize = 0;
            while k < spots.len()
                invariant
                    k <= spots@.len(),
                    cells_of(spots@) == self@.board.royal_spots(drawn),
                    self@.drawn == Some(drawn),
                    drawn.spec_is_royal(),
                    forall|j: int| 0 <= j < k ==> cells_of(spots@)[j] != pos@,
                decreases spots@.len() - k,
            {
                let spot = spots[k];
                if spot.x() == pos.x() && spot.y() == pos.y() {
                    assert(cells_of(spots@)[k as int] == pos@);
                    assert(cells_of(spots@).contains(pos@));
                    return true;
                }
                k = k + 1;
            }
            false
        } else if pos.is_cannon() {
            match self.board.get_card_at(pos) {
                None => true,
                Some(card) => drawn.value() == 1 || drawn.value() >= card.value(),
            }
        } else {
            self.board.get_card_at(pos).is_some()
        }
    }

    /// Plays the held card at `pos` (see `GameView::after_place`).
    pub fn place_card_at(&mut self, pos: BoardPosition) -> (r: Result<(), GameError>)
        requires
            old(self)@.wf(),
        ensures
            final(self)@.wf(),
            r is Err <==> old(self)@.place_error(pos@) is Some,
            r is Err ==> r->Err_0 == old(self)@.place_error(pos@)->0 && final(self)@ == old(self)@,
            r is Ok ==> final(self)@ == old(self)@.after_place(pos@),
    {
        let card = match self.drawn {
            None => {
                return Err(GameError::NoDrawnCard);
            },
            Some(card) => card,
        };
        if !self.can_place_at(pos) {
            return Err(GameError::IllegalPlacement);
        }
        match self.board.get_card_at(pos) {
            Some(occupant) => {
                if occupant.is_royal() {
                    self.board.add_armor_at(pos, card.value());
                    self.drawn = None;
                    return Ok(());
                }
            },
            None => {},
        }
        let ghost start = self@;
        if card.value() == 1 || card.value() == 0 {
            self.move_pile_to_bottom_of_deck_at(pos);
        }
        let ghost before_attacks = self@.board;
        let targets = pos.aimed_at();
        let mut k: usize = 0;
        while k < targets.len()
            invariant
                k <= targets@.len(),
                self@.wf(),
                self@.board == before_attacks.after_attacks(cells_of(targets@).take(k as int)),
                self@.deck == (if card.spec_value() == 1 || card.spec_value() == 0 {
                    start.board.pile(pos@) + start.deck
                } else {
                    start.deck
                }),
                self@.drawn == start.drawn,
                self@.shame == start.shame,
            decreases targets@.len() - k,
        {
            let target = targets[k];
            self.board.resolve_attack(target);
            assert(cells_of(targets@).take(k + 1).drop_last() =~= cells_of(targets@).take(k as int));
            k = k + 1;
        }
        assert(cells_of(targets@).take(k as int) =~= aimed_cells(pos@.0, pos@.1));
        self.board.place_card_at(pos, card);
        self.drawn = None;
        Ok(())
    }

    /// Adds the held card's value as armor to the royal at `pos`.
    pub fn add_armor_at(&mut self, pos: BoardPosition) -> (r: Result<(), GameError>)
        requires
            old(self)@.wf(),
        ensures
            final(self)@.wf(),
            r is Err <==> old(self)@.armor_error(pos@) is Some,
            r is Err ==> r->Err_0 == old(self)@.armor_error(pos@)->0 && final(self)@ == old(self)@,
            r is Ok ==> final(self)@ == old(self)@.after_armor(pos@),
    {
        let card = match self.drawn {
            None => {
                return Err(GameError::NoDrawnCard);
            },
            Some(card) => card,
        };
        match self.board.get_card_at(pos) {
            Some(occupant) => {
                if !occupant.is_royal() {
                    return Err(GameError::IllegalPlacement);
                }
            },
            None => {
                return Err(GameError::IllegalPlacement);
            },
        }
        self.board.add_armor_at(pos, card.value());
        self.drawn = None;
        Ok(())
    }

    /// Takes the top card of the deck into hand.
    pub fn draw(&mut self) -> (r: Result<(), GameError>)
        ensures
            r is Err <==> old(self)@.draw_error() is Some,
            r is Err ==> r->Err_0 == old(self)@.draw_error()->0 && final(self)@ == old(self)@,
            r is Ok ==> final(self)@ == old(self)@.after_draw(),
    {
        if self.drawn.is_some() {
            return Err(GameError::AlreadyDrawn);
        }
        match self.deck.draw() {
            Ok(card) => {
                self.drawn = Some(card);
                Ok(())
            },
            Err(_) => Err(GameError::EmptyDeck),
        }
    }

    /// Discards the held card and adds one to the shame counter (which stops
    /// at 255); does nothing while no card is held.
    pub fn add_to_shame_pile(&mut self)
        ensures
            final(self)@ == old(self)@.after_shame(),
    {
        if self.drawn.is_some() {
            self.drawn = None;
            self.shame = self.shame.saturating_add(1);
        }
    }

    /// Sends the pile at `pos` to the bottom of the deck, with no check of the
    /// rules.
    pub fn move_pile_to_bottom_of_deck_at(&mut self, pos: BoardPosition)
        requires
            old(self)@.wf(),
        ensures
            final(self)@.wf(),
            final(self)@ == old(self)@.after_recycle(pos@),
    {
        let pile = self.board.take_pile_at(pos);
        self.deck.place_pile_on_bottom(pile);
    }

    /// Discards the pile at `pos`, with no check of the rules.
    pub fn remove_pile_at(&mut self, pos: BoardPosition)
        requires
            old(self)@.wf(),
        ensures
            final(self)@.wf(),
            final(self)@.board == old(self)@.board.cleared(pos@),
            final(self)@.deck == old(self)@.deck,
            final(self)@.drawn == old(self)@.drawn,
            final(self)@.shame == old(self)@.shame,
    {
        self.board.remove_pile_at(pos);
    }
}

/// A draw that succeeds leaves a card in hand, so a second draw fails with
/// `AlreadyDrawn`; with no card in hand, placing a card or adding armor fails
/// with `NoDrawnCard`.
pub proof fn lemma_turn_discipline(g: GameView, c: (int, int))
    ensures
        g.draw_error() is None ==> g.after_draw().draw_error() == Some(GameError::AlreadyDrawn),
        g.drawn is None ==> g.place_error(c) == Some(GameError::NoDrawnCard),
        g.drawn is None ==> g.armor_error(c) == Some(GameError::NoDrawnCard),
{
}

/// Dealing from a deck with enough cards that are not royals: each step takes
/// the top card, royals go aside and the others are dealt, until eight are.
proof fn lemma_deal_steps(deck: Seq<Card>, aside: Seq<Card>, dealt: Seq<Card>)
    requires
        dealt.len() <= 8,
        non_royal_count(deck) + dealt.len() >= 8,
        forall|i: int| 0 <= i < aside.len() ==> (#[trigger] aside[i]).spec_is_royal(),
        forall|i: int| 0 <= i < dealt.len() ==> !(#[trigger] dealt[i]).spec_is_royal(),
    ensures
        ({
            let (rest, set_aside, dealt_all) = deal(deck, aside, dealt);
            &&& dealt_all.len() == 8
            &&& forall|i: int| 0 <= i < set_aside.len() ==> (#[trigger] set_aside[i]).spec_is_royal()
            &&& forall|i: int| 0 <= i < dealt_all.len() ==> !(#[trigger] dealt_all[i]).spec_is_royal()
            &&& rest.len() + set_aside.len() + dealt_all.len() == deck.len() + aside.len() + dealt.len()
            &&& royal_count(rest) + set_aside.len() == royal_count(deck) + aside.len()
        }),
    decreases deck.len(),
{
    crate::pile::lemma_royal_split(deck);
    if dealt.len() < 8 {
        let top = deck.last();
        assert(deck =~= deck.drop_last().push(top));
        deck.drop_last().lemma_filter_push(top, crate::pile::royal_pred());
        deck.drop_last().lemma_filter_push(top, |c: Card| !c.spec_is_royal());
        if top.spec_is_royal() {
            lemma_deal_steps(deck.drop_last(), aside.push(top), dealt);
        } else {
            lemma_deal_steps(deck.drop_last(), aside, dealt.push(top));
        }
    }
}

/// Setting up deals eight cards, none a royal, one onto each outer cannon
/// cell, and every royal met on the way goes back into the deck: the deck
/// keeps all its royals and loses eight cards. On an empty board, each
/// outer cannon cell then holds exactly its dealt card, every other cell
/// stays empty, and the board is tidy.
pub proof fn lemma_set_up_deals_outer_cannons(g: GameView)
    requires
        g.wf(),
        non_royal_count(g.deck) >= 8,
    ensures
        ({
            let (rest, aside, dealt) = deal(g.deck, seq![], seq![]);
            let deck = rest + aside;
            let board = g.board.with_cards(outer_cells(), dealt);
            &&& dealt.len() == 8
            &&& forall|i: int| 0 <= i < 8 ==> !(#[trigger] dealt[i]).spec_is_royal()
            &&& royal_count(deck) == royal_count(g.deck)
            &&& deck.len() == g.deck.len() - 8
            &&& (forall|i: int| 0 <= i < 25 ==> (#[trigger] g.board.piles[i]).len() == 0) ==> {
                &&& forall|i: int| 0 <= i < 8 ==> board.pile(#[trigger] outer_cells()[i]) == seq![dealt[i]]
                &&& forall|x: int, y: int|
                    valid_xy(x, y) && !outer_cannon_xy(x, y) ==> #[trigger] board.pile((x, y)).len() == 0
                &&& board.tidy()
            }
        }),
{
    lemma_deal_steps(g.deck, seq![], seq![]);
    let (rest, aside, dealt) = deal(g.deck, seq![], seq![]);
    Seq::filter_distributes_over_add(rest, aside, crate::pile::royal_pred());
    lemma_all_royal(aside);
    lemma_outer_cells();
    reveal_with_fuel(BoardView::with_cards, 9);
    let board = g.board.with_cards(outer_cells(), dealt);
    if forall|i: int| 0 <= i < 25 ==> (#[trigger] g.board.piles[i]).len() == 0 {
        assert(Seq::<Card>::empty().filter(crate::pile::royal_pred()) =~= Seq::<Card>::empty()) by {
            reveal(Seq::filter);
        }
        assert forall|i: int| 0 <= i < 8 implies royal_count(#[trigger] seq![dealt[i]]) == 0 by {
            assert(seq![dealt[i]] =~= Seq::<Card>::empty().push(dealt[i]));
            Seq::<Card>::empty().lemma_filter_push(dealt[i], crate::pile::royal_pred());
        }
        assert forall|x: int, y: int| #[trigger] valid_xy(x, y) implies {
            let p = board.pile((x, y));
            &&& cannon_xy(x, y) ==> royal_count(p) == 0
            &&& !cannon_xy(x, y) ==> p.len() == 0 || (p.len() == 1 && p[0].spec_is_royal())
        } by {
            if outer_cannon_xy(x, y) {
                let i = if x == -1 {
                    y + 1
                } else if x == 0 {
                    if y == -1 {
                        3
                    } else {
                        4
                    }
                } else {
                    y + 6
                };
                assert(outer_cells()[i] == (x, y));
                assert(board.pile(outer_cells()[i]) == seq![dealt[i]]);
            }
        }
    }
}

/// A sequence of royals only is its own royal count.
proof fn lemma_all_royal(s: Seq<Card>)
    requires
        forall|i: int| 0 <= i < s.len() ==> (#[trigger] s[i]).spec_is_royal(),
    ensures
        royal_count(s) == s.len(),
    decreases s.len(),
{
    if s.len() > 0 {
        lemma_all_royal(s.drop_last());
        assert(s =~= s.drop_last().push(s.last()));
        s.drop_last().lemma_filter_push(s.last(), crate::pile::royal_pred());
    } else {
        assert(s.filter(crate::pile::royal_pred()) =~= s) by {
            reveal(Seq::filter);
        }
    }
}

/// The game is over exactly when the deck holds no royal.
proof fn lemma_over_iff_no_royal(g: GameView)
    ensures
        g.is_over() <==> royal_count(g.deck) == 0,
{
    crate::pile::lemma_royal_split(g.deck);
}

/// Once the game is over it stays over, whatever the player does: drawing,
/// placing the held card, adding it as armor or discarding it. This holds on
/// a tidy board (royals only on the edge, each alone), which every one of
/// these moves keeps tidy.
pub proof fn lemma_game_over_stays(g: GameView, c: (int, int))
    requires
        g.wf(),
        g.board.tidy(),
        valid_xy(c.0, c.1),
    ensures
        g.draw_error() is None ==> g.after_draw().board.tidy() && (g.is_over() ==> g.after_draw().is_over()),
        g.place_error(c) is None ==> g.after_place(c).board.tidy() && (g.is_over()
            ==> g.after_place(c).is_over()),
        g.armor_error(c) is None ==> g.after_armor(c).board.tidy() && (g.is_over()
            ==> g.after_armor(c).is_over()),
        g.after_shame().board.tidy(),
        g.is_over() ==> g.after_shame().is_over(),
{
    lemma_over_iff_no_royal(g);
    if g.draw_error() is None {
        let next = g.after_draw();
        lemma_over_iff_no_royal(next);
        assert(g.deck =~= g.deck.drop_last().push(g.deck.last()));
        g.deck.drop_last().lemma_filter_push(g.deck.last(), crate::pile::royal_pred());
    }
    if g.armor_error(c) is None {
        let next = g.after_armor(c);
        lemma_over_iff_no_royal(next);
        assert(next.board.piles == g.board.piles);
    }
    if g.place_error(c) is None {
        let next = g.after_place(c);
        lemma_over_iff_no_royal(next);
        let d = g.drawn->0;
        assert(valid_xy(c.0, c.1));
        if g.board.occupied(c) && g.board.top(c)->0.spec_is_royal() {
            assert(next.board.piles == g.board.piles);
        } else if d.spec_is_royal() {
            g.board.lemma_royal_spots_are_empty_edges(d, 21, g.board.best_rank(d, 21));
            let k = choose|k: int| 0 <= k < g.board.royal_spots(d).len() && g.board.royal_spots(d)[k] == c;
            assert(g.board.after_attacks(aimed_cells(c.0, c.1)) == g.board);
            g.board.lemma_with_card_tidy(c, d);
        } else {
            let recycle = d.spec_value() == 1 || d.spec_value() == 0;
            let board = if recycle {
                g.board.cleared(c)
            } else {
                g.board
            };
            if recycle {
                g.board.lemma_cleared_tidy(c);
                Seq::filter_distributes_over_add(g.board.pile(c), g.deck, crate::pile::royal_pred());
                assert(next.deck == g.board.pile(c) + g.deck);
                assert forall|i: int| 0 <= i < 25 && (#[trigger] board.piles[i]).len() == 0 implies board.armor[i]
                    == 0 by {
                    if i != crate::position::cell_index(c) {
                        assert(board.piles[i] == g.board.piles[i]);
                    }
                }
            }
            crate::position::lemma_aimed_cells_in_line(c.0, c.1);
            let targets = aimed_cells(c.0, c.1);
            assert forall|k: int| 0 <= k < targets.len() implies valid_xy(#[trigger] targets[k].0, targets[k].1) by {
                assert(crate::position::edge_xy(targets[k].0, targets[k].1));
            }
            board.lemma_attacks_tidy(targets);
            board.after_attacks(targets).lemma_with_card_tidy(c, d);
        }
    }
    let next = g.after_shame();
    lemma_over_iff_no_royal(next);
}

/// The eight outer cannon cells.
pub proof fn lemma_outer_cells()
    ensures
        outer_cells() == seq![(-1int, -1int), (-1, 0), (-1, 1), (0, -1), (0, 1), (1, -1), (1, 0), (1, 1)],
        outer_cells().len() == 8,
{
    reveal_with_fuel(crate::position::cells_upto, 26);
    reveal_with_fuel(Seq::filter, 22);
    assert(outer_cells() =~= seq![(-1int, -1int), (-1, 0), (-1, 1), (0, -1), (0, 1), (1, -1), (1, 0), (1, 1)]);
}

} // verus!
