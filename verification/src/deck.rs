//! The deck: construction of the standard 52-card pack, shuffling, and
//! random draws.

use vstd::prelude::*;
use vstd::seq_lib::lemma_multiset_commutative;

use rand::seq::SliceRandom;

use crate::card::{rank_of_ordinal, suit_of_index, Card, Rank, Suit};
use crate::error::CoreError;

verus! {

/// [`Deck`] is an alias for a vector of cards, for better contextual
/// understanding.
pub type Deck = Vec<Card>;

/// The card at a given position of the standard deck: ranks in ordinal
/// order (ace first), the four suits inside each rank.
pub open spec fn standard_card(i: int) -> Card {
    Card { rank: rank_of_ordinal(i / 4 + 1), suit: suit_of_index(i % 4) }
}

/// The standard 52-card deck in its canonical order.
pub open spec fn standard_deck() -> Seq<Card> {
    Seq::new(52, |i: int| standard_card(i))
}

/// The standard deck holds 52 cards and no two of them share both rank and
/// suit.
pub proof fn lemma_standard_deck_distinct()
    ensures
        standard_deck().len() == 52,
        forall|i: int, j: int|
            0 <= i < j < 52 ==> standard_deck()[i] != standard_deck()[j],
{
    assert forall|i: int, j: int| 0 <= i < j < 52 implies standard_deck()[i]
        != standard_deck()[j] by {
        assert(standard_deck()[i] == standard_card(i));
        assert(standard_deck()[j] == standard_card(j));
        assert(i == 4 * (i / 4) + i % 4);
        assert(j == 4 * (j / 4) + j % 4);
        if i / 4 == j / 4 {
            assert(i % 4 != j % 4);
            assert(suit_of_index(i % 4) != suit_of_index(j % 4));
        } else {
            assert(1 <= i / 4 + 1 <= 13 && 1 <= j / 4 + 1 <= 13);
            assert(rank_of_ordinal(i / 4 + 1) != rank_of_ordinal(j / 4 + 1));
        }
    }
}

/// Constructor extension trait for [`Deck`].
pub trait DeckConstExt {
    /// Returns a standard 52 card deck in its canonical order.
    fn standard() -> (d: Deck)
        ensures
            d@ == standard_deck(),
    ;
}

/// Mutating extension methods for [`Deck`].
pub trait DeckExt where Self: View<V = Seq<Card>> {
    /// In-place shuffles the deck.  The cards are preserved as a multiset;
    /// their order after the call is unspecified.
    fn shuffle(&mut self)
        ensures
            final(self)@.to_multiset() == old(self)@.to_multiset(),
            final(self)@.len() == old(self)@.len(),
    ;

    /// Shuffles the deck and removes and returns `draw_size` cards from its
    /// end.  Fails, leaving the deck unchanged, when more cards are asked
    /// for than the deck holds.
    fn draw_random(&mut self, draw_size: usize) -> (drawn: Result<Deck, CoreError>)
        ensures
            match drawn {
                Ok(cards) => {
                    &&& draw_size <= old(self)@.len()
                    &&& cards@.len() == draw_size
                    &&& final(self)@.len() == old(self)@.len() - draw_size
                    &&& final(self)@.to_multiset().add(cards@.to_multiset()) == old(
                        self,
                    )@.to_multiset()
                },
                Err(e) => {
                    &&& e == CoreError::InsufficientCardsError
                    &&& draw_size > old(self)@.len()
                    &&& final(self)@ == old(self)@
                },
            },
    ;
}

/// Relies on rand's `SliceRandom::shuffle`, driven by `rand::rng`: it
/// permutes the slice in place (an unbiased Fisher-Yates shuffle), so the
/// cards afterwards are the same multiset, in an order that depends on the
/// generator's state.
#[verifier::external_body]
fn shuffle_cards(cards: &mut Vec<Card>)
    ensures
        final(cards)@.to_multiset() == old(cards)@.to_multiset(),
        final(cards)@.len() == old(cards)@.len(),
{
    cards.as_mut_slice().shuffle(&mut rand::rng());
}

impl DeckConstExt for Deck {
    fn standard() -> (d: Deck) {
        let mut d: Vec<Card> = Vec::new();
        let mut o: usize = 1;
        while o <= 13
            invariant
                1 <= o <= 14,
                d@.len() == (o - 1) * 4,
                forall|i: int| 0 <= i < d@.len() ==> #[trigger] d@[i] == standard_card(i),
            decreases 14 - o,
        {
            let mut si: usize = 0;
            while si < 4
                invariant
                    1 <= o <= 13,
                    0 <= si <= 4,
                    d@.len() == (o - 1) * 4 + si,
                    forall|i: int| 0 <= i < d@.len() ==> #[trigger] d@[i] == standard_card(i),
                decreases 4 - si,
            {
                let c = Card { rank: Rank::from_ordinal(o), suit: Suit::from_index(si) };
                let ghost idx = d@.len() as int;
                d.push(c);
                proof {
                    assert(idx / 4 == o - 1 && idx % 4 == si) by (nonlinear_arith)
                        requires
                            idx == (o - 1) * 4 + si,
                            1 <= o <= 13,
                            0 <= si < 4,
                    ;
                    assert(d@[idx] == standard_card(idx));
                }
                si = si + 1;
            }
            o = o + 1;
        }
        proof {
            assert(d@.len() == 52);
            assert(d@ =~= standard_deck());
        }
        d
    }
}

impl DeckExt for Deck {
    fn shuffle(&mut self) {
        shuffle_cards(self);
    }

    fn draw_random(&mut self, draw_size: usize) -> (drawn: Result<Deck, CoreError>) {
        if draw_size > self.len() {
            return Err(CoreError::InsufficientCardsError);
        }
        self.shuffle();
        let ghost shuffled = self@;
        let drain_size = self.len() - draw_size;
        let drawn_cards = self.split_off(drain_size);
        proof {
            assert(self@ + drawn_cards@ =~= shuffled);
            lemma_multiset_commutative(self@, drawn_cards@);
        }
        Ok(drawn_cards)
    }
}

/// Drawing cards and then returning them to the deck preserves the whole as
/// a multiset: no card is duplicated or lost.
pub proof fn lemma_draw_round_trip(before: Seq<Card>, after: Seq<Card>, drawn: Seq<Card>)
    requires
        after.to_multiset().add(drawn.to_multiset()) == before.to_multiset(),
    ensures
        (after + drawn).to_multiset() == before.to_multiset(),
{
    lemma_multiset_commutative(after, drawn);
}

} // verus!
