//! A round: one attempt at beating a single blind, with hands and discards
//! counting down, a score accumulating, and cards flowing from the deck
//! through the hand into the history.

use vstd::prelude::*;

use crate::blind::Blind;
use crate::card::{card_rank_le_fn, Card, Sortable};
use crate::deck::DeckExt;
use crate::error::{ArithmeticError, CoreError, ScorerError};
use crate::scorer::{spec_chip_total, spec_score, Scorer};

verus! {

/// Properties that stay fixed across the hands played within a round.
#[derive(Clone, Copy, Debug, PartialEq, Eq, Structural, Hash)]
pub struct RoundProperties {
    /// Current ante of the round; the game ends after beating ante 8.
    pub ante: usize,
    /// Number of cards held in hand after a fresh deal.
    pub hand_size: usize,
    /// Current round number.
    pub round_number: usize,
}

impl Default for RoundProperties {
    /// A fresh round at the first ante with a ten-card hand.
    fn default() -> (p: RoundProperties)
        ensures
            p.ante == 1 && p.hand_size == 10 && p.round_number == 1,
    {
        RoundProperties { ante: 1, hand_size: 10, round_number: 1 }
    }
}

/// The outcome of a round at some instant: still in progress, won the
/// moment the score reaches the target, or lost once no hands remain
/// while the score falls short.
#[derive(Clone, Copy, Debug, PartialEq, Eq, Structural)]
pub enum RoundOutcome {
    /// Hands remain and the target has not been reached.
    InProgress,
    /// The score has reached the target.
    Won,
    /// No hands remain and the score falls short of the target.
    Lost,
}

/// The outcome of a round given its hands left, score and target.
pub open spec fn spec_round_outcome(hands_count: int, score: int, target: int) -> RoundOutcome {
    if score >= target {
        RoundOutcome::Won
    } else if hands_count == 0 {
        RoundOutcome::Lost
    } else {
        RoundOutcome::InProgress
    }
}

/// Decides the outcome of a round: the round is won the instant the score
/// reaches the target, regardless of remaining hands, and lost exactly
/// when no hands remain while the score falls short.
pub fn round_outcome(hands_count: usize, score: usize, target: usize) -> (o: RoundOutcome)
    ensures
        o == spec_round_outcome(hands_count as int, score as int, target as int),
        (o == RoundOutcome::Won) <==> score >= target,
        (o == RoundOutcome::Lost) <==> (hands_count == 0 && score < target),
{
    if score >= target {
        RoundOutcome::Won
    } else if hands_count == 0 {
        RoundOutcome::Lost
    } else {
        RoundOutcome::InProgress
    }
}

/// Whether an index selection is valid for a hand of the given length:
/// strictly ascending and in bounds.
pub open spec fn idxs_valid(len: int, idxs: Seq<usize>) -> bool {
    &&& forall|k: int| 0 <= k < idxs.len() ==> (#[trigger] idxs[k]) < len
    &&& forall|k1: int, k2: int|
        0 <= k1 < k2 < idxs.len() ==> (#[trigger] idxs[k1]) < (#[trigger] idxs[k2])
}

/// The cards of the hand at the selected indices, in selection order.
pub open spec fn select_seq(s: Seq<Card>, idxs: Seq<usize>) -> Seq<Card> {
    idxs.map_values(|i: usize| s[i as int])
}

/// The hand with the selected indices removed, processed from the highest
/// index down so that lower positions keep their meaning.
pub open spec fn remove_idxs(s: Seq<Card>, idxs: Seq<usize>) -> Seq<Card>
    decreases idxs.len(),
{
    if idxs.len() == 0 {
        s
    } else {
        remove_idxs(s.remove(idxs.last() as int), idxs.drop_last())
    }
}

/// In a strictly ascending index sequence, positions grow at least as fast
/// as their indices.
proof fn lemma_strict_incr_gap(idxs: Seq<usize>, a: int, b: int)
    requires
        forall|k1: int, k2: int|
            0 <= k1 < k2 < idxs.len() ==> (#[trigger] idxs[k1]) < (#[trigger] idxs[k2]),
        0 <= a <= b < idxs.len(),
    ensures
        idxs[b] >= idxs[a] + (b - a),
    decreases b - a,
{
    if a < b {
        lemma_strict_incr_gap(idxs, a, b - 1);
        assert(idxs[b - 1] < idxs[b]);
    }
}

/// Removing the selected indices splits the hand: what was selected and
/// what remains together are the original cards.
proof fn lemma_remove_idxs_split(s: Seq<Card>, idxs: Seq<usize>)
    requires
        idxs_valid(s.len() as int, idxs),
    ensures
        remove_idxs(s, idxs).len() == s.len() - idxs.len(),
        remove_idxs(s, idxs).to_multiset().add(select_seq(s, idxs).to_multiset())
            == s.to_multiset(),
    decreases idxs.len(),
{
    broadcast use vstd::seq_lib::group_to_multiset_ensures;
    broadcast use vstd::multiset::group_multiset_axioms;

    if idxs.len() == 0 {
        assert(select_seq(s, idxs) =~= Seq::<Card>::empty());
        assert(select_seq(s, idxs).to_multiset() =~= vstd::multiset::Multiset::<Card>::empty());
    } else {
        let i = idxs.last() as int;
        let s2 = s.remove(i);
        let idxs2 = idxs.drop_last();
        assert forall|k: int| 0 <= k < idxs2.len() implies (#[trigger] idxs2[k]) < s2.len() by {
            lemma_strict_incr_gap(idxs, k, idxs.len() - 1);
        }
        lemma_remove_idxs_split(s2, idxs2);
        assert(s.to_multiset() == s2.to_multiset().insert(s[i])) by {
            assert(s.remove(i).to_multiset() =~= s.to_multiset().remove(s[i]));
            assert(s.to_multiset().count(s[i]) > 0) by {
                assert(s.contains(s[i]));
            }
        }
        assert(select_seq(s, idxs) =~= select_seq(s2, idxs2).push(s[i])) by {
            assert forall|k: int| 0 <= k < idxs2.len() implies select_seq(s2, idxs2)[k]
                == select_seq(s, idxs)[k] by {
                lemma_strict_incr_gap(idxs, k, idxs.len() - 1);
                assert(idxs2[k] < i);
                assert(s2[idxs2[k] as int] == s[idxs2[k] as int]);
            }
        }
        assert(select_seq(s, idxs).to_multiset() == select_seq(s2, idxs2).to_multiset().insert(
            s[i],
        ));
    }
}

/// Splits a hand into the cards at the selected indices and the rest.
fn split_by_indices(hand: &Vec<Card>, idxs: &Vec<usize>) -> (res: (Vec<Card>, Vec<Card>))
    requires
        idxs_valid(hand@.len() as int, idxs@),
    ensures
        res.0@ == select_seq(hand@, idxs@),
        res.1@ == remove_idxs(hand@, idxs@),
        res.1@.len() == hand@.len() - idxs@.len(),
        res.1@.to_multiset().add(res.0@.to_multiset()) == hand@.to_multiset(),
{
    let mut selected: Vec<Card> = Vec::new();
    let mut n: usize = 0;
    while n < idxs.len()
        invariant
            idxs_valid(hand@.len() as int, idxs@),
            0 <= n <= idxs@.len(),
            selected@.len() == n,
            forall|k: int| 0 <= k < n ==> #[trigger] selected@[k] == hand@[idxs@[k] as int],
        decreases idxs@.len() - n,
    {
        let i = idxs[n];
        let c = hand[i];
        selected.push(c);
        n = n + 1;
    }
    proof {
        assert(selected@ =~= select_seq(hand@, idxs@));
    }
    let mut remaining = hand.clone();
    proof {
        assert(idxs@.take(idxs@.len() as int) =~= idxs@);
    }
    let mut k: usize = idxs.len();
    while k > 0
        invariant
            idxs_valid(hand@.len() as int, idxs@),
            0 <= k <= idxs@.len(),
            remaining@.len() == hand@.len() - (idxs@.len() - k),
            remove_idxs(remaining@, idxs@.take(k as int)) == remove_idxs(hand@, idxs@),
        decreases k,
    {
        k = k - 1;
        let i = idxs[k];
        proof {
            if k < idxs@.len() - 1 {
                lemma_strict_incr_gap(idxs@, k as int, idxs@.len() - 1);
            }
            assert(idxs@.take(k as int + 1).last() == idxs@[k as int]);
            assert(idxs@.take(k as int + 1).drop_last() =~= idxs@.take(k as int));
        }
        let _removed = remaining.remove(i);
    }
    proof {
        assert(idxs@.take(0) =~= Seq::<usize>::empty());
        assert(remove_idxs(remaining@, idxs@.take(0)) == remaining@);
        lemma_remove_idxs_split(hand@, idxs@);
    }
    (selected, remaining)
}

/// Checks that an index selection is strictly ascending and in bounds for
/// a hand of the given length.
fn check_indices(len: usize, idxs: &Vec<usize>) -> (ok: bool)
    ensures
        ok == idxs_valid(len as int, idxs@),
{
    let mut n: usize = 0;
    while n < idxs.len()
        invariant
            0 <= n <= idxs@.len(),
            forall|k: int| 0 <= k < n ==> (#[trigger] idxs@[k]) < len,
            forall|k1: int, k2: int|
                0 <= k1 < k2 < n ==> (#[trigger] idxs@[k1]) < (#[trigger] idxs@[k2]),
            forall|k1: int, k2: int|
                0 <= k1 < k2 < n ==> idxs@[k2] >= idxs@[k1],
        decreases idxs@.len() - n,
    {
        if idxs[n] >= len {
            return false;
        }
        if n > 0 && idxs[n - 1] >= idxs[n] {
            return false;
        }
        proof {
            assert forall|k1: int, k2: int| 0 <= k1 < k2 < n + 1 implies (#[trigger] idxs@[k1])
                < (#[trigger] idxs@[k2]) by {
                if k2 == n && k1 < n - 1 {
                    assert(idxs@[k1] < idxs@[n - 1]);
                }
            }
        }
        n = n + 1;
    }
    true
}

/// The running state of one round.  The deck is owned by the enclosing
/// run and lent to each call that draws from it.
#[derive(Clone, Debug)]
pub struct Round {
    /// Persistent properties for the round.
    pub properties: RoundProperties,
    /// The blind faced in this round.
    pub blind: Blind,
    /// Number of discards left in the round.
    pub discards_count: usize,
    /// Number of hands left to play in the round.
    pub hands_count: usize,
    /// Score accumulated in the round.
    pub score: usize,
    /// The cards currently held.
    pub hand: Vec<Card>,
    /// The cards played or discarded so far, in order.
    pub history: Vec<Card>,
}

impl Round {
    /// Starts the round: draws a fresh hand of `hand_size` cards from the
    /// deck and sorts it by rank.  Fails, changing nothing, when the deck
    /// holds fewer cards than the hand size.
    pub fn start(&mut self, deck: &mut Vec<Card>) -> (r: Result<(), CoreError>)
        ensures
            match r {
                Ok(()) => {
                    &&& old(self).properties.hand_size <= old(deck)@.len()
                    &&& final(self).hand@.len() == old(self).properties.hand_size
                    &&& final(self).hand@ == final(self).hand@.sort_by(card_rank_le_fn())
                    &&& final(deck)@.len() == old(deck)@.len() - old(self).properties.hand_size
                    &&& final(deck)@.to_multiset().add(final(self).hand@.to_multiset()) == old(
                        deck,
                    )@.to_multiset()
                    &&& final(self).properties == old(self).properties
                    &&& final(self).blind == old(self).blind
                    &&& final(self).discards_count == old(self).discards_count
                    &&& final(self).hands_count == old(self).hands_count
                    &&& final(self).score == old(self).score
                    &&& final(self).history == old(self).history
                },
                Err(e) => {
                    &&& e == CoreError::InsufficientCardsError
                    &&& old(self).properties.hand_size > old(deck)@.len()
                    &&& *final(self) == *old(self)
                    &&& final(deck)@ == old(deck)@
                },
            },
    {
        let drawn = match deck.draw_random(self.properties.hand_size) {
            Ok(d) => d,
            Err(e) => {
                return Err(e);
            },
        };
        self.hand = drawn;
        let ghost pre = self.hand@;
        self.hand.sort_by_rank();
        proof {
            broadcast use vstd::seq_lib::group_to_multiset_ensures;

            crate::card::lemma_card_rank_le_total();
            pre.lemma_sort_by_ensures(card_rank_le_fn());
            crate::card::lemma_sorted_rank_fixed(self.hand@);
            assert(self.hand@.len() == self.hand@.to_multiset().len());
            assert(pre.len() == pre.to_multiset().len());
        }
        Ok(())
    }

    /// Removes the selected cards from the hand, appends them to the
    /// history, draws as many replacements from the deck, and re-sorts the
    /// hand.  The caller has already validated the selection and checked
    /// the deck.
    fn deal_cards(&mut self, deck: &mut Vec<Card>, selected_indices: &Vec<usize>) -> (r: Result<
        (),
        CoreError,
    >)
        requires
            idxs_valid(old(self).hand@.len() as int, selected_indices@),
            selected_indices@.len() <= old(deck)@.len(),
        ensures
            r is Ok,
            final(self).hand@ == final(self).hand@.sort_by(card_rank_le_fn()),
            final(self).hand@.len() == old(self).hand@.len(),
            final(self).history@ == old(self).history@ + select_seq(
                old(self).hand@,
                selected_indices@,
            ),
            final(deck)@.len() == old(deck)@.len() - selected_indices@.len(),
            final(deck)@.to_multiset().add(final(self).hand@.to_multiset()) == old(
                deck,
            )@.to_multiset().add(
                remove_idxs(old(self).hand@, selected_indices@).to_multiset(),
            ),
            final(self).properties == old(self).properties,
            final(self).blind == old(self).blind,
            final(self).discards_count == old(self).discards_count,
            final(self).hands_count == old(self).hands_count,
            final(self).score == old(self).score,
    {
        let (mut selected, remaining) = split_by_indices(&self.hand, selected_indices);
        let ghost sel = selected@;
        let ghost rem = remaining@;
        let ghost deck0 = deck@;
        let mut new_cards = match deck.draw_random(selected_indices.len()) {
            Ok(d) => d,
            Err(_) => {
                proof {
                    assert(false);
                }
                return Err(CoreError::InsufficientCardsError);
            },
        };
        let ghost drawn = new_cards@;
        self.hand = remaining;
        self.hand.append(&mut new_cards);
        let ghost combined = self.hand@;
        self.hand.sort_by_rank();
        self.history.append(&mut selected);
        proof {
            crate::card::lemma_card_rank_le_total();
            broadcast use vstd::multiset::group_multiset_axioms;
            broadcast use vstd::seq_lib::group_to_multiset_ensures;

            combined.lemma_sort_by_ensures(card_rank_le_fn());
            assert(self.hand@.len() == self.hand@.to_multiset().len());
            assert(combined.len() == combined.to_multiset().len());
            crate::card::lemma_sorted_rank_fixed(self.hand@);
            assert(combined =~= rem + drawn);
            vstd::seq_lib::lemma_multiset_commutative(rem, drawn);
            assert(self.hand@.to_multiset() == rem.to_multiset().add(drawn.to_multiset()));
            assert(deck@.to_multiset().add(self.hand@.to_multiset()) =~= deck0.to_multiset().add(
                rem.to_multiset(),
            ));
        }
        Ok(())
    }

    /// Plays the selected cards: scores them, adds the result to the
    /// round's score, uses up one hand, moves the cards to the history and
    /// deals replacements.  With no hands left nothing changes and
    /// `HandsExhaustedError` is returned; an empty selection is a no-op.
    pub fn play_hand(&mut self, deck: &mut Vec<Card>, selected_indices: &Vec<usize>) -> (r: Result<
        (),
        CoreError,
    >)
        ensures
            ({
                let sel = select_seq(old(self).hand@, selected_indices@);
                let valid = idxs_valid(old(self).hand@.len() as int, selected_indices@);
                let deck_suffices = old(deck)@.len() >= selected_indices@.len();
                &&& match r {
                    Ok(()) => {
                        &&& old(self).hands_count > 0
                        &&& valid
                        &&& (selected_indices@.len() == 0 ==> *final(self) == *old(self) && final(deck)@ == old(deck)@)
                        &&& (selected_indices@.len() > 0 ==> {
                            &&& final(self).hands_count == old(self).hands_count - 1
                            &&& final(self).score == old(self).score + spec_score(sel)
                            &&& final(self).history@ == old(self).history@ + sel
                            &&& final(self).hand@.len() == old(self).hand@.len()
                            &&& final(self).hand@ == final(self).hand@.sort_by(card_rank_le_fn())
                            &&& final(deck)@.len() == old(deck)@.len() - selected_indices@.len()
                            &&& final(deck)@.to_multiset().add(final(self).hand@.to_multiset())
                                == old(deck)@.to_multiset().add(
                                remove_idxs(old(self).hand@, selected_indices@).to_multiset(),
                            )
                            &&& final(self).discards_count == old(self).discards_count
                            &&& final(self).properties == old(self).properties
                            &&& final(self).blind == old(self).blind
                        })
                    },
                    Err(e) => {
                        &&& *final(self) == *old(self)
                        &&& final(deck)@ == old(deck)@
                        &&& (e == CoreError::HandsExhaustedError <==> old(self).hands_count == 0)
                        &&& (old(self).hands_count > 0 && !valid ==> e
                            == CoreError::InvalidIndexError)
                        &&& (old(self).hands_count > 0 && valid && selected_indices@.len() > 0
                            && !deck_suffices ==> e == CoreError::InsufficientCardsError)
                        &&& (old(self).hands_count > 0 && valid && selected_indices@.len() > 0
                            && deck_suffices && (spec_chip_total(sel) > usize::MAX || spec_score(
                            sel,
                        ) > usize::MAX) ==> e == CoreError::ScorerError(
                            ScorerError::ArithmeticError(ArithmeticError::Overflow),
                        ))
                        &&& (old(self).hands_count > 0 && valid && selected_indices@.len() > 0
                            && deck_suffices && spec_chip_total(sel) <= usize::MAX && spec_score(
                            sel,
                        ) <= usize::MAX ==> e == CoreError::ArithmeticError(
                            ArithmeticError::Overflow,
                        ) && old(self).score + spec_score(sel) > usize::MAX)
                    },
                }
                &&& (old(self).hands_count > 0 && valid && (selected_indices@.len() == 0 || (
                deck_suffices && spec_chip_total(sel) <= usize::MAX && spec_score(sel)
                    <= usize::MAX && old(self).score + spec_score(sel) <= usize::MAX)) ==> r
                    is Ok)
            }),
    {
        if self.hands_count == 0 {
            return Err(CoreError::HandsExhaustedError);
        }
        if !check_indices(self.hand.len(), selected_indices) {
            return Err(CoreError::InvalidIndexError);
        }
        if selected_indices.len() == 0 {
            return Ok(());
        }
        if deck.len() < selected_indices.len() {
            return Err(CoreError::InsufficientCardsError);
        }
        let (selected, _) = split_by_indices(&self.hand, selected_indices);
        let hand_score = match Scorer::score_cards(&selected) {
            Ok(v) => v,
            Err(e) => {
                return Err(CoreError::ScorerError(e));
            },
        };
        let new_score = match self.score.checked_add(hand_score) {
            Some(v) => v,
            None => {
                return Err(CoreError::ArithmeticError(ArithmeticError::Overflow));
            },
        };
        match self.deal_cards(deck, selected_indices) {
            Ok(()) => {},
            Err(e) => {
                proof {
                    assert(false);
                }
                return Err(e);
            },
        }
        self.score = new_score;
        self.hands_count = self.hands_count - 1;
        Ok(())
    }

    /// Discards the selected cards and deals replacements, without
    /// scoring and without using up a hand.  With no discards left nothing
    /// changes and `DiscardsExhaustedError` is returned; an empty
    /// selection is a no-op.
    pub fn discard_hand(&mut self, deck: &mut Vec<Card>, selected_indices: &Vec<usize>) -> (r:
        Result<(), CoreError>)
        ensures
            ({
                let sel = select_seq(old(self).hand@, selected_indices@);
                let valid = idxs_valid(old(self).hand@.len() as int, selected_indices@);
                &&& (old(self).discards_count > 0 && valid && (selected_indices@.len() == 0 || old(
                    deck,
                )@.len() >= selected_indices@.len()) ==> r is Ok)
                &&& match r {
                    Ok(()) => {
                        &&& old(self).discards_count > 0
                        &&& idxs_valid(old(self).hand@.len() as int, selected_indices@)
                        &&& (selected_indices@.len() == 0 ==> *final(self) == *old(self) && final(deck)@ == old(deck)@)
                        &&& (selected_indices@.len() > 0 ==> {
                            &&& final(self).discards_count == old(self).discards_count - 1
                            &&& final(self).score == old(self).score
                            &&& final(self).hands_count == old(self).hands_count
                            &&& final(self).history@ == old(self).history@ + sel
                            &&& final(self).hand@.len() == old(self).hand@.len()
                            &&& final(self).hand@ == final(self).hand@.sort_by(card_rank_le_fn())
                            &&& final(deck)@.len() == old(deck)@.len() - selected_indices@.len()
                            &&& final(deck)@.to_multiset().add(final(self).hand@.to_multiset())
                                == old(deck)@.to_multiset().add(
                                remove_idxs(old(self).hand@, selected_indices@).to_multiset(),
                            )
                            &&& final(self).properties == old(self).properties
                            &&& final(self).blind == old(self).blind
                        })
                    },
                    Err(e) => {
                        &&& *final(self) == *old(self)
                        &&& final(deck)@ == old(deck)@
                        &&& (e == CoreError::DiscardsExhaustedError <==> old(self).discards_count
                            == 0)
                        &&& (old(self).discards_count > 0 && !idxs_valid(
                            old(self).hand@.len() as int,
                            selected_indices@,
                        ) ==> e == CoreError::InvalidIndexError)
                        &&& (old(self).discards_count > 0 && idxs_valid(
                            old(self).hand@.len() as int,
                            selected_indices@,
                        ) && selected_indices@.len() > 0 && old(deck)@.len()
                            < selected_indices@.len() ==> e == CoreError::InsufficientCardsError)
                    },
                }
            }),
    {
        if self.discards_count == 0 {
            return Err(CoreError::DiscardsExhaustedError);
        }
        if !check_indices(self.hand.len(), selected_indices) {
            return Err(CoreError::InvalidIndexError);
        }
        if selected_indices.len() == 0 {
            return Ok(());
        }
        if deck.len() < selected_indices.len() {
            return Err(CoreError::InsufficientCardsError);
        }
        match self.deal_cards(deck, selected_indices) {
            Ok(()) => {},
            Err(e) => {
                proof {
                    assert(false);
                }
                return Err(e);
            },
        }
        self.discards_count = self.discards_count - 1;
        Ok(())
    }
}

} // verus!
