use vstd::prelude::*;
use vstd::seq_lib::{group_to_multiset_ensures, to_multiset_contains, to_multiset_len};
use rand::seq::SliceRandom;
use crate::card::{Card, Suit};
use crate::error::GameError;

verus! {

/// Whether a card is a Jack, Queen or King.
pub open spec fn royal_pred() -> spec_fn(Card) -> bool {
    |c: Card| c.spec_is_royal()
}

/// How many royals a sequence of cards holds.
pub open spec fn royal_count(s: Seq<Card>) -> nat {
    s.filter(royal_pred()).len()
}

/// How many cards of a sequence are not royals.
pub open spec fn non_royal_count(s: Seq<Card>) -> nat {
    s.filter(|c: Card| !c.spec_is_royal()).len()
}

/// Suit and value of each card of a sequence.
pub open spec fn card_keys(s: Seq<Card>) -> Seq<(Suit, u8)> {
    s.map_values(|c: Card| (c.spec_suit(), c.spec_value()))
}

/// The thirteen cards of one suit, Ace to King.
pub open spec fn suit_run(suit: Suit) -> Seq<(Suit, u8)> {
    Seq::new(13, |i: int| (suit, (i + 1) as u8))
}

/// The French suits, in the order in which a deck is built.
pub open spec fn suit_order() -> Seq<Suit> {
    seq![Suit::Spades, Suit::Hearts, Suit::Clubs, Suit::Diamonds]
}

/// The runs of the first `n` suits of `suit_order()`.
pub open spec fn suit_runs(n: int) -> Seq<(Suit, u8)>
    decreases n,
{
    if n <= 0 {
        seq![]
    } else {
        suit_runs(n - 1) + suit_run(suit_order()[n - 1])
    }
}

/// A full deck: thirteen values in each of four suits, then two Jokers.
pub open spec fn standard_deck() -> Seq<(Suit, u8)> {
    suit_runs(4) + seq![(Suit::Joker, 0u8), (Suit::Joker, 0u8)]
}

/// An ordered stack of cards; the top is the last card.
#[derive(Debug)]
pub struct Pile {
    cards: Vec<Card>,
}

impl View for Pile {
    type V = Seq<Card>;

    closed spec fn view(&self) -> Seq<Card> {
        self.cards@
    }
}

/// Relies on rand's `SliceRandom::shuffle` with `rand::thread_rng()`: it only
/// swaps elements, so the same cards come out that went in. (`thread_rng`
/// panics only when the operating system gives no random seed, which no
/// argument can rule out.)
#[verifier::external_body]
fn shuffle(cards: &mut Vec<Card>)
    ensures
        final(cards)@.to_multiset() == old(cards)@.to_multiset(),
{
    cards.shuffle(&mut rand::thread_rng());
}

impl Pile {
    pub fn new() -> (r: Pile)
        ensures
            r@ == Seq::<Card>::empty(),
    {
        Pile { cards: Vec::new() }
    }

    /// A full deck of 54 cards in random order.
    pub fn new_shuffled_deck() -> (r: Pile)
        ensures
            r@.len() == 54,
            card_keys(r@).to_multiset() == standard_deck().to_multiset(),
            royal_count(r@) == 12,
    {
        let mut cards: Vec<Card> = Vec::new();
        let mut s: usize = 0;
        while s < 4
            invariant
                s <= 4,
                card_keys(cards@) == suit_runs(s as int),
                royal_count(cards@) == 3 * s,
            decreases 4 - s,
        {
            let suit = if s == 0 {
                Suit::Spades
            } else if s == 1 {
                Suit::Hearts
            } else if s == 2 {
                Suit::Clubs
            } else {
                Suit::Diamonds
            };
            assert(suit == suit_order()[s as int]);
            let mut value: u8 = 1;
            while value <= 13
                invariant
                    1 <= value <= 14,
                    s < 4,
                    suit == suit_order()[s as int],
                    card_keys(cards@) == suit_runs(s as int) + suit_run(suit).take(value - 1),
                    royal_count(cards@) == 3 * s + if value > 11 { value - 11 } else { 0 },
                decreases 14 - value,
            {
                let ghost before = cards@;
                let card = Card::new(value, suit).unwrap();
                cards.push(card);
                proof {
                    assert(cards@ == before.push(card));
                    before.lemma_filter_push(card, royal_pred());
                    assert(card_keys(cards@) =~= card_keys(before).push((suit, value)));
                    assert(suit_run(suit).take(value as int) =~= suit_run(suit).take(value - 1).push(
                        (suit, value),
                    ));
                    assert(card_keys(cards@) =~= suit_runs(s as int) + suit_run(suit).take(
                        value as int,
                    ));
                }
                value = value + 1;
            }
            assert(suit_run(suit).take(13) =~= suit_run(suit));
            s = s + 1;
        }
        let ghost before = cards@;
        let joker = Card::new(0, Suit::Joker).unwrap();
        cards.push(joker);
        proof {
            before.lemma_filter_push(joker, royal_pred());
        }
        let ghost middle = cards@;
        let joker = Card::new(0, Suit::Joker).unwrap();
        cards.push(joker);
        proof {
            middle.lemma_filter_push(joker, royal_pred());
            assert(card_keys(cards@) =~= standard_deck());
            reveal_with_fuel(suit_runs, 5);
            assert(standard_deck().len() == 54);
        }
        let ghost ordered = cards@;
        shuffle(&mut cards);
        proof {
            broadcast use group_to_multiset_ensures;

            lemma_multiset_filter_len(ordered, cards@, royal_pred());
            lemma_multiset_map(ordered, cards@, |c: Card| (c.spec_suit(), c.spec_value()));
            assert(cards@.len() == cards@.to_multiset().len());
        }
        Pile { cards }
    }

    /// The top card, if any; the pile is unchanged.
    pub fn top(&self) -> (r: Option<Card>)
        ensures
            r == (if self@.len() == 0 {
                None
            } else {
                Some(self@.last())
            }),
    {
        if self.cards.len() == 0 {
            None
        } else {
            Some(self.cards[self.cards.len() - 1])
        }
    }

    pub fn place_card_on_top(&mut self, card: Card)
        ensures
            final(self)@ == old(self)@.push(card),
    {
        self.cards.push(card);
    }

    /// Puts all of `pile` above this pile's cards, in its own order.
    pub fn place_pile_on_top(&mut self, pile: Pile)
        ensures
            final(self)@ == old(self)@ + pile@,
    {
        let mut pile = pile;
        self.cards.append(&mut pile.cards);
    }

    /// Puts all of `pile` below this pile's cards, in its own order.
    pub fn place_pile_on_bottom(&mut self, pile: Pile)
        ensures
            final(self)@ == pile@ + old(self)@,
    {
        let mut pile = pile;
        pile.cards.append(&mut self.cards);
        self.cards = pile.cards;
    }

    /// Takes the top card off the pile.
    pub fn draw(&mut self) -> (r: Result<Card, GameError>)
        ensures
            old(self)@.len() == 0 <==> r is Err,
            r is Err ==> r->Err_0 == GameError::EmptyPile && final(self)@ == old(self)@,
            r is Ok ==> r->Ok_0 == old(self)@.last() && final(self)@ == old(self)@.drop_last(),
    {
        match self.cards.pop() {
            Some(card) => Ok(card),
            None => Err(GameError::EmptyPile),
        }
    }

    pub fn size(&self) -> (r: usize)
        ensures
            r == self@.len(),
    {
        self.cards.len()
    }

    /// How many Jacks, Queens and Kings the pile holds.
    pub fn royals_left(&self) -> (r: usize)
        ensures
            r == royal_count(self@),
    {
        let mut count: usize = 0;
        let mut i: usize = 0;
        while i < self.cards.len()
            invariant
                i <= self.cards@.len(),
                count == royal_count(self.cards@.take(i as int)),
                count <= i,
            decreases self.cards@.len() - i,
        {
            proof {
                assert(self.cards@.take(i + 1) =~= self.cards@.take(i as int).push(self.cards@[i as int]));
                self.cards@.take(i as int).lemma_filter_push(self.cards@[i as int], royal_pred());
            }
            if self.cards[i].is_royal() {
                count = count + 1;
            }
            i = i + 1;
        }
        assert(self.cards@.take(i as int) =~= self.cards@);
        count
    }
}

/// Each card of a sequence is a royal or not.
pub proof fn lemma_royal_split(s: Seq<Card>)
    ensures
        royal_count(s) + non_royal_count(s) == s.len(),
    decreases s.len(),
{
    if s.len() > 0 {
        lemma_royal_split(s.drop_last());
        assert(s =~= s.drop_last().push(s.last()));
        s.drop_last().lemma_filter_push(s.last(), royal_pred());
        s.drop_last().lemma_filter_push(s.last(), |c: Card| !c.spec_is_royal());
    } else {
        assert(s.filter(royal_pred()) =~= s) by {
            reveal(Seq::filter);
        }
        assert(s.filter(|c: Card| !c.spec_is_royal()) =~= s) by {
            reveal(Seq::filter);
        }
    }
}

/// Inserting one element anywhere adds one to the number of elements that
/// satisfy `p` when the element does.
pub proof fn lemma_filter_len_insert<A>(s: Seq<A>, i: int, x: A, p: spec_fn(A) -> bool)
    requires
        0 <= i <= s.len(),
    ensures
        s.insert(i, x).filter(p).len() == s.filter(p).len() + if p(x) { 1int } else { 0 },
{
    let a = s.subrange(0, i);
    let b = s.subrange(i, s.len() as int);
    assert(s =~= a + b);
    assert(s.insert(i, x) =~= a + (seq![x] + b));
    Seq::filter_distributes_over_add(a, b, p);
    Seq::filter_distributes_over_add(a, seq![x] + b, p);
    Seq::filter_distributes_over_add(seq![x], b, p);
    assert(seq![x] =~= Seq::<A>::empty().push(x));
    Seq::<A>::empty().lemma_filter_push(x, p);
    assert(Seq::<A>::empty().filter(p) =~= Seq::<A>::empty()) by {
        reveal(Seq::filter);
    }
}

/// Two sequences with the same elements, counted with multiplicity, have as
/// many elements that satisfy `p`.
pub proof fn lemma_multiset_filter_len<A>(a: Seq<A>, b: Seq<A>, p: spec_fn(A) -> bool)
    requires
        a.to_multiset() == b.to_multiset(),
    ensures
        a.filter(p).len() == b.filter(p).len(),
    decreases a.len(),
{
    broadcast use group_to_multiset_ensures;

    to_multiset_len(a);
    to_multiset_len(b);
    if a.len() == 0 {
        assert(a.filter(p) =~= a) by {
            reveal(Seq::filter);
        }
        assert(b.filter(p) =~= b) by {
            reveal(Seq::filter);
        }
    } else {
        let x = a.last();
        let a0 = a.drop_last();
        assert(a =~= a0.push(x));
        assert(a.contains(x)) by {
            assert(a[a.len() - 1] == x);
        }
        to_multiset_contains(a, x);
        to_multiset_contains(b, x);
        let i = choose|i: int| 0 <= i < b.len() && b[i] == x;
        let b0 = b.remove(i);
        assert(a0.to_multiset() =~= b0.to_multiset()) by {
            assert(a0.push(x).to_multiset() == a0.to_multiset().insert(x));
            assert(b0.to_multiset() == b.to_multiset().remove(x));
        }
        lemma_multiset_filter_len(a0, b0, p);
        a0.lemma_filter_push(x, p);
        assert(b =~= b0.insert(i, x));
        lemma_filter_len_insert(b0, i, x, p);
    }
}

/// Two sequences with the same elements, counted with multiplicity, keep
/// that property through any map.
pub proof fn lemma_multiset_map<A, B>(a: Seq<A>, b: Seq<A>, f: spec_fn(A) -> B)
    requires
        a.to_multiset() == b.to_multiset(),
    ensures
        a.map_values(f).to_multiset() == b.map_values(f).to_multiset(),
    decreases a.len(),
{
    broadcast use group_to_multiset_ensures;

    to_multiset_len(a);
    to_multiset_len(b);
    if a.len() == 0 {
        assert(a.map_values(f) =~= b.map_values(f));
    } else {
        let x = a.last();
        let a0 = a.drop_last();
        assert(a =~= a0.push(x));
        assert(a.contains(x)) by {
            assert(a[a.len() - 1] == x);
        }
        to_multiset_contains(a, x);
        to_multiset_contains(b, x);
        let i = choose|i: int| 0 <= i < b.len() && b[i] == x;
        let b0 = b.remove(i);
        assert(a0.to_multiset() =~= b0.to_multiset()) by {
            assert(a0.push(x).to_multiset() == a0.to_multiset().insert(x));
            assert(b0.to_multiset() == b.to_multiset().remove(x));
        }
        lemma_multiset_map(a0, b0, f);
        assert(a.map_values(f) =~= a0.map_values(f).push(f(x)));
        assert(b =~= b0.insert(i, x));
        assert(b.map_values(f) =~= b0.map_values(f).insert(i, f(x)));
        assert(b.map_values(f).to_multiset() == b0.map_values(f).to_multiset().insert(f(x)));
    }
}

} // verus!
