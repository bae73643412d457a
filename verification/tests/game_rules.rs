//! Tests for the card model, scorer, deck, blinds, rounds and cursors.

use balatro_core::blind::{Blind, Bosses};
use balatro_core::card::{Card, Rank, Suit};
use balatro_core::card_list::{CardListWidgetState, SelectableList};
use balatro_core::cycle_cursor::CycleCursor;
use balatro_core::cycle_cursor_vec::CycleCursorVec;
use balatro_core::deck::{Deck, DeckConstExt, DeckExt};
use balatro_core::error::CoreError;
use balatro_core::round::{round_outcome, Round, RoundOutcome, RoundProperties};
use balatro_core::run::{Run, RunProperties, RunState};
use balatro_core::scorer::{Scorer, ScoringHand};

fn card(rank: Rank, suit: Suit) -> Card {
    Card { rank, suit }
}

#[test]
fn score_flush_five() {
    let test_cards = vec![
        card(Rank::Ten, Suit::Club),
        card(Rank::Ten, Suit::Club),
        card(Rank::Ten, Suit::Club),
        card(Rank::Ten, Suit::Club),
        card(Rank::Ten, Suit::Club),
    ];

    assert_eq!(
        Scorer::get_scoring_hand(&test_cards).unwrap().0.unwrap(),
        ScoringHand::FlushFive
    );
}

#[test]
fn scorer_score_flush_five() {
    let test_cards = vec![
        card(Rank::Ten, Suit::Club),
        card(Rank::Ten, Suit::Club),
        card(Rank::Ten, Suit::Club),
        card(Rank::Ten, Suit::Club),
        card(Rank::Ten, Suit::Club),
    ];

    assert_eq!(
        Scorer::get_scoring_hand(&test_cards).unwrap().0.unwrap(),
        ScoringHand::FlushFive
    );
}

#[test]
fn score_flush_house() {
    let test_cards = vec![
        card(Rank::Eight, Suit::Club),
        card(Rank::Eight, Suit::Club),
        card(Rank::Eight, Suit::Club),
        card(Rank::Three, Suit::Club),
        card(Rank::Three, Suit::Club),
    ];

    assert_eq!(
        Scorer::get_scoring_hand(&test_cards).unwrap().0.unwrap(),
        ScoringHand::FlushHouse
    );
}

#[test]
fn scorer_score_flush_house() {
    let test_cards = vec![
        card(Rank::Eight, Suit::Club),
        card(Rank::Eight, Suit::Club),
        card(Rank::Eight, Suit::Club),
        card(Rank::Three, Suit::Club),
        card(Rank::Three, Suit::Club),
    ];

    assert_eq!(
        Scorer::get_scoring_hand(&test_cards).unwrap().0.unwrap(),
        ScoringHand::FlushHouse
    );
}

#[test]
fn score_five_of_a_kind() {
    let test_cards = vec![
        card(Rank::Ten, Suit::Club),
        card(Rank::Ten, Suit::Heart),
        card(Rank::Ten, Suit::Diamond),
        card(Rank::Ten, Suit::Spade),
        card(Rank::Ten, Suit::Club),
    ];

    assert_eq!(
        Scorer::get_scoring_hand(&test_cards).unwrap().0.unwrap(),
        ScoringHand::FiveOfAKind
    );
}

#[test]
fn scorer_score_five_of_a_kind() {
    let test_cards = vec![
        card(Rank::Ten, Suit::Club),
        card(Rank::Ten, Suit::Heart),
        card(Rank::Ten, Suit::Diamond),
        card(Rank::Ten, Suit::Spade),
        card(Rank::Ten, Suit::Club),
    ];

    assert_eq!(
        Scorer::get_scoring_hand(&test_cards).unwrap().0.unwrap(),
        ScoringHand::FiveOfAKind
    );
}

#[test]
fn score_royal_flush() {
    let test_cards = vec![
        card(Rank::Queen, Suit::Club),
        card(Rank::Ten, Suit::Club),
        card(Rank::Ace, Suit::Club),
        card(Rank::Jack, Suit::Club),
        card(Rank::King, Suit::Club),
    ];

    assert_eq!(
        Scorer::get_scoring_hand(&test_cards).unwrap().0.unwrap(),
        ScoringHand::RoyalFlush
    );
}

#[test]
fn scorer_score_royal_flush() {
    let test_cards = vec![
        card(Rank::Queen, Suit::Club),
        card(Rank::Ten, Suit::Club),
        card(Rank::Ace, Suit::Club),
        card(Rank::Jack, Suit::Club),
        card(Rank::King, Suit::Club),
    ];

    assert_eq!(
        Scorer::get_scoring_hand(&test_cards).unwrap().0.unwrap(),
        ScoringHand::RoyalFlush
    );
}

#[test]
fn score_straight_flush() {
    let test_cards = vec![
        card(Rank::Eight, Suit::Club),
        card(Rank::Five, Suit::Club),
        card(Rank::Four, Suit::Club),
        card(Rank::Six, Suit::Club),
        card(Rank::Seven, Suit::Club),
    ];

    assert_eq!(
        Scorer::get_scoring_hand(&test_cards).unwrap().0.unwrap(),
        ScoringHand::StraightFlush
    );
}

#[test]
fn scorer_score_straight_flush() {
    let test_cards = vec![
        card(Rank::Eight, Suit::Club),
        card(Rank::Five, Suit::Club),
        card(Rank::Four, Suit::Club),
        card(Rank::Six, Suit::Club),
        card(Rank::Seven, Suit::Club),
    ];

    assert_eq!(
        Scorer::get_scoring_hand(&test_cards).unwrap().0.unwrap(),
        ScoringHand::StraightFlush
    );
}

#[test]
fn score_four_of_a_kind() {
    let test_cards = vec![
        card(Rank::Seven, Suit::Club),
        card(Rank::Seven, Suit::Heart),
        card(Rank::Seven, Suit::Diamond),
        card(Rank::Seven, Suit::Spade),
        card(Rank::Three, Suit::Club),
    ];

    assert_eq!(
        Scorer::get_scoring_hand(&test_cards).unwrap().0.unwrap(),
        ScoringHand::FourOfAKind
    );
}

#[test]
fn scorer_score_four_of_a_kind() {
    let test_cards = vec![
        card(Rank::Seven, Suit::Club),
        card(Rank::Seven, Suit::Heart),
        card(Rank::Seven, Suit::Diamond),
        card(Rank::Seven, Suit::Spade),
        card(Rank::Three, Suit::Club),
    ];

    assert_eq!(
        Scorer::get_scoring_hand(&test_cards).unwrap().0.unwrap(),
        ScoringHand::FourOfAKind
    );
}

#[test]
fn score_full_house() {
    let test_cards = vec![
        card(Rank::Eight, Suit::Club),
        card(Rank::Eight, Suit::Club),
        card(Rank::Eight, Suit::Club),
        card(Rank::Three, Suit::Diamond),
        card(Rank::Three, Suit::Diamond),
    ];

    assert_eq!(
        Scorer::get_scoring_hand(&test_cards).unwrap().0.unwrap(),
        ScoringHand::FullHouse
    );
}

#[test]
fn scorer_score_full_house() {
    let test_cards = vec![
        card(Rank::Eight, Suit::Club),
        card(Rank::Eight, Suit::Club),
        card(Rank::Eight, Suit::Club),
        card(Rank::Three, Suit::Diamond),
        card(Rank::Three, Suit::Diamond),
    ];

    assert_eq!(
        Scorer::get_scoring_hand(&test_cards).unwrap().0.unwrap(),
        ScoringHand::FullHouse
    );
}

#[test]
fn score_flush() {
    let test_cards = vec![
        card(Rank::Eight, Suit::Club),
        card(Rank::Five, Suit::Club),
        card(Rank::Jack, Suit::Club),
        card(Rank::Seven, Suit::Club),
        card(Rank::Three, Suit::Club),
    ];

    assert_eq!(
        Scorer::get_scoring_hand(&test_cards).unwrap().0.unwrap(),
        ScoringHand::Flush
    );
}

#[test]
fn scorer_score_flush() {
    let test_cards = vec![
        card(Rank::Eight, Suit::Club),
        card(Rank::Five, Suit::Club),
        card(Rank::Jack, Suit::Club),
        card(Rank::Seven, Suit::Club),
        card(Rank::Three, Suit::Club),
    ];

    assert_eq!(
        Scorer::get_scoring_hand(&test_cards).unwrap().0.unwrap(),
        ScoringHand::Flush
    );
}

#[test]
fn score_non_ace_straight() {
    let test_cards = vec![
        card(Rank::Eight, Suit::Diamond),
        card(Rank::Five, Suit::Club),
        card(Rank::Four, Suit::Spade),
        card(Rank::Six, Suit::Heart),
        card(Rank::Seven, Suit::Club),
    ];

    assert_eq!(
        Scorer::get_scoring_hand(&test_cards).unwrap().0.unwrap(),
        ScoringHand::Straight
    );
}

#[test]
fn scorer_score_non_ace_straight() {
    let test_cards = vec![
        card(Rank::Eight, Suit::Diamond),
        card(Rank::Five, Suit::Club),
        card(Rank::Four, Suit::Spade),
        card(Rank::Six, Suit::Heart),
        card(Rank::Seven, Suit::Club),
    ];

    assert_eq!(
        Scorer::get_scoring_hand(&test_cards).unwrap().0.unwrap(),
        ScoringHand::Straight
    );
}

#[test]
fn score_low_ace_straight() {
    let test_cards = vec![
        card(Rank::Four, Suit::Diamond),
        card(Rank::Three, Suit::Club),
        card(Rank::Ace, Suit::Spade),
        card(Rank::Two, Suit::Heart),
        card(Rank::Five, Suit::Club),
    ];

    assert_eq!(
        Scorer::get_scoring_hand(&test_cards).unwrap().0.unwrap(),
        ScoringHand::Straight
    );
}

#[test]
fn scorer_score_low_ace_straight() {
    let test_cards = vec![
        card(Rank::Four, Suit::Diamond),
        card(Rank::Three, Suit::Club),
        card(Rank::Ace, Suit::Spade),
        card(Rank::Two, Suit::Heart),
        card(Rank::Five, Suit::Club),
    ];

    assert_eq!(
        Scorer::get_scoring_hand(&test_cards).unwrap().0.unwrap(),
        ScoringHand::Straight
    );
}

#[test]
fn score_high_ace_straight() {
    let test_cards = vec![
        card(Rank::Ten, Suit::Diamond),
        card(Rank::Queen, Suit::Club),
        card(Rank::Ace, Suit::Spade),
        card(Rank::King, Suit::Heart),
        card(Rank::Jack, Suit::Club),
    ];

    assert_eq!(
        Scorer::get_scoring_hand(&test_cards).unwrap().0.unwrap(),
        ScoringHand::Straight
    );
}

#[test]
fn scorer_score_high_ace_straight() {
    let test_cards = vec![
        card(Rank::Ten, Suit::Diamond),
        card(Rank::Queen, Suit::Club),
        card(Rank::Ace, Suit::Spade),
        card(Rank::King, Suit::Heart),
        card(Rank::Jack, Suit::Club),
    ];

    assert_eq!(
        Scorer::get_scoring_hand(&test_cards).unwrap().0.unwrap(),
        ScoringHand::Straight
    );
}

#[test]
fn score_mid_ace_straight_false_positive() {
    let test_cards = vec![
        card(Rank::Two, Suit::Diamond),
        card(Rank::Ace, Suit::Club),
        card(Rank::Three, Suit::Spade),
        card(Rank::King, Suit::Heart),
        card(Rank::Queen, Suit::Club),
    ];

    assert_eq!(
        Scorer::get_scoring_hand(&test_cards).unwrap().0.unwrap(),
        ScoringHand::HighCard
    );
}

#[test]
fn scorer_score_mid_ace_straight_false_positive() {
    let test_cards = vec![
        card(Rank::Two, Suit::Diamond),
        card(Rank::Ace, Suit::Club),
        card(Rank::Three, Suit::Spade),
        card(Rank::King, Suit::Heart),
        card(Rank::Queen, Suit::Club),
    ];

    assert_eq!(
        Scorer::get_scoring_hand(&test_cards).unwrap().0.unwrap(),
        ScoringHand::HighCard
    );
}

#[test]
fn score_three_of_a_kind() {
    let test_cards = vec![
        card(Rank::Eight, Suit::Club),
        card(Rank::Eight, Suit::Diamond),
        card(Rank::Eight, Suit::Heart),
        card(Rank::Six, Suit::Spade),
        card(Rank::Three, Suit::Diamond),
    ];

    assert_eq!(
        Scorer::get_scoring_hand(&test_cards).unwrap().0.unwrap(),
        ScoringHand::ThreeOfAKind
    );
}

#[test]
fn scorer_score_three_of_a_kind() {
    let test_cards = vec![
        card(Rank::Eight, Suit::Club),
        card(Rank::Eight, Suit::Diamond),
        card(Rank::Eight, Suit::Heart),
        card(Rank::Six, Suit::Spade),
        card(Rank::Three, Suit::Diamond),
    ];

    assert_eq!(
        Scorer::get_scoring_hand(&test_cards).unwrap().0.unwrap(),
        ScoringHand::ThreeOfAKind
    );
}

#[test]
fn score_two_pair() {
    let test_cards = vec![
        card(Rank::Eight, Suit::Club),
        card(Rank::Eight, Suit::Diamond),
        card(Rank::Six, Suit::Heart),
        card(Rank::Six, Suit::Spade),
        card(Rank::Three, Suit::Diamond),
    ];

    assert_eq!(
        Scorer::get_scoring_hand(&test_cards).unwrap().0.unwrap(),
        ScoringHand::TwoPair
    );
}

#[test]
fn scorer_score_two_pair() {
    let test_cards = vec![
        card(Rank::Eight, Suit::Club),
        card(Rank::Eight, Suit::Diamond),
        card(Rank::Six, Suit::Heart),
        card(Rank::Six, Suit::Spade),
        card(Rank::Three, Suit::Diamond),
    ];

    assert_eq!(
        Scorer::get_scoring_hand(&test_cards).unwrap().0.unwrap(),
        ScoringHand::TwoPair
    );
}

#[test]
fn score_pair() {
    let test_cards = vec![
        card(Rank::Eight, Suit::Club),
        card(Rank::Eight, Suit::Diamond),
        card(Rank::Seven, Suit::Heart),
        card(Rank::Six, Suit::Spade),
        card(Rank::Three, Suit::Diamond),
    ];

    assert_eq!(
        Scorer::get_scoring_hand(&test_cards).unwrap().0.unwrap(),
        ScoringHand::Pair
    );
}

#[test]
fn scorer_score_pair() {
    let test_cards = vec![
        card(Rank::Eight, Suit::Club),
        card(Rank::Eight, Suit::Diamond),
        card(Rank::Seven, Suit::Heart),
        card(Rank::Six, Suit::Spade),
        card(Rank::Three, Suit::Diamond),
    ];

    assert_eq!(
        Scorer::get_scoring_hand(&test_cards).unwrap().0.unwrap(),
        ScoringHand::Pair
    );
}

#[test]
fn score_high_card() {
    let test_cards = vec![
        card(Rank::Jack, Suit::Club),
        card(Rank::Eight, Suit::Diamond),
        card(Rank::Seven, Suit::Heart),
        card(Rank::Six, Suit::Spade),
        card(Rank::Three, Suit::Diamond),
    ];

    assert_eq!(
        Scorer::get_scoring_hand(&test_cards).unwrap().0.unwrap(),
        ScoringHand::HighCard
    );
}

#[test]
fn scorer_score_high_card() {
    let test_cards = vec![
        card(Rank::Jack, Suit::Club),
        card(Rank::Eight, Suit::Diamond),
        card(Rank::Seven, Suit::Heart),
        card(Rank::Six, Suit::Spade),
        card(Rank::Three, Suit::Diamond),
    ];

    assert_eq!(
        Scorer::get_scoring_hand(&test_cards).unwrap().0.unwrap(),
        ScoringHand::HighCard
    );
}

#[test]
fn sort_ranks() {
    let mut unsorted_ranks = [Rank::Seven, Rank::King, Rank::Two, Rank::Ace];

    let sorted_ranks = [Rank::Ace, Rank::King, Rank::Seven, Rank::Two];

    unsorted_ranks.sort();
    unsorted_ranks.reverse();

    assert_eq!(unsorted_ranks, sorted_ranks);
}

#[test]
fn card_sort_ranks() {
    let mut unsorted_ranks = vec![Rank::Seven, Rank::King, Rank::Two, Rank::Ace];

    let sorted_ranks = vec![Rank::Ace, Rank::King, Rank::Seven, Rank::Two];

    unsorted_ranks.sort();
    unsorted_ranks.reverse();

    assert_eq!(unsorted_ranks, sorted_ranks);
}

#[test]
fn cursor_cycle_next() {
    let source = vec![1usize, 2, 3, 4];
    let mut cursor: CycleCursor<usize> = source.into();

    assert_eq!(cursor.pos, None);
    cursor.cycle_next();
    assert_eq!(cursor.inner[cursor.pos.unwrap()], 1);
    cursor.cycle_next();
    cursor.cycle_next();
    cursor.cycle_next();
    assert_eq!(cursor.inner[cursor.pos.unwrap()], 4);
    cursor.cycle_next();
    assert_eq!(cursor.inner[cursor.pos.unwrap()], 1);
}

#[test]
fn cursor_cycle_prev() {
    let source = vec![1usize, 2, 3, 4];
    let mut cursor: CycleCursor<usize> = source.into();

    assert_eq!(cursor.pos, None);
    cursor.cycle_prev();
    assert_eq!(cursor.inner[cursor.pos.unwrap()], 4);
    cursor.cycle_prev();
    cursor.cycle_prev();
    cursor.cycle_prev();
    assert_eq!(cursor.inner[cursor.pos.unwrap()], 1);
    cursor.cycle_prev();
    assert_eq!(cursor.inner[cursor.pos.unwrap()], 4);
}

#[test]
fn cycle_cursor_vec_cursor_cycle_next() {
    let source = vec![1usize, 2, 3, 4];
    let mut cursor: CycleCursorVec<usize> = source.into();

    assert_eq!(cursor.pos, None);
    cursor.cycle_next();
    assert_eq!(cursor.inner[cursor.pos.unwrap()], 1);
    cursor.cycle_next();
    cursor.cycle_next();
    cursor.cycle_next();
    assert_eq!(cursor.inner[cursor.pos.unwrap()], 4);
    cursor.cycle_next();
    assert_eq!(cursor.inner[cursor.pos.unwrap()], 1);
}

#[test]
fn cycle_cursor_vec_cursor_cycle_prev() {
    let source = vec![1usize, 2, 3, 4];
    let mut cursor: CycleCursorVec<usize> = source.into();

    assert_eq!(cursor.pos, None);
    cursor.cycle_prev();
    assert_eq!(cursor.inner[cursor.pos.unwrap()], 4);
    cursor.cycle_prev();
    cursor.cycle_prev();
    cursor.cycle_prev();
    assert_eq!(cursor.inner[cursor.pos.unwrap()], 1);
    cursor.cycle_prev();
    assert_eq!(cursor.inner[cursor.pos.unwrap()], 4);
}

#[test]
fn standard_deck_has_all_fifty_two_cards() {
    let deck = Deck::standard();
    assert_eq!(deck.len(), 52);
    for i in 0..deck.len() {
        for j in (i + 1)..deck.len() {
            assert_ne!(deck[i], deck[j]);
        }
    }
}

#[test]
fn draw_random_preserves_cards() {
    let mut deck = Deck::standard();
    let drawn = deck.draw_random(5).unwrap();
    assert_eq!(drawn.len(), 5);
    assert_eq!(deck.len(), 47);
    let mut all = deck.clone();
    all.extend(drawn);
    all.sort();
    let mut reference = Deck::standard();
    reference.sort();
    assert_eq!(all, reference);
}

#[test]
fn draw_random_rejects_overdraw() {
    let mut deck = vec![card(Rank::Two, Suit::Club)];
    assert_eq!(
        deck.draw_random(2),
        Err(CoreError::InsufficientCardsError)
    );
    assert_eq!(deck.len(), 1);
}

#[test]
fn classify_is_order_insensitive() {
    let sorted = vec![
        card(Rank::Ace, Suit::Club),
        card(Rank::King, Suit::Heart),
        card(Rank::Queen, Suit::Club),
        card(Rank::Jack, Suit::Club),
        card(Rank::Ten, Suit::Diamond),
    ];
    let shuffled = vec![
        card(Rank::Jack, Suit::Club),
        card(Rank::Ten, Suit::Diamond),
        card(Rank::Ace, Suit::Club),
        card(Rank::King, Suit::Heart),
        card(Rank::Queen, Suit::Club),
    ];
    assert_eq!(
        Scorer::get_scoring_hand(&sorted).unwrap().0,
        Scorer::get_scoring_hand(&shuffled).unwrap().0
    );
    assert_eq!(
        Scorer::score_cards(&sorted).unwrap(),
        Scorer::score_cards(&shuffled).unwrap()
    );
}

#[test]
fn score_flush_five_of_tens_totals_exactly() {
    let test_cards = vec![card(Rank::Ten, Suit::Club); 5];
    assert_eq!(Scorer::score_cards(&test_cards).unwrap(), (160 + 5 * 10) * 16);
    assert_eq!(Scorer::score_cards(&test_cards).unwrap(), 3360);
}

#[test]
fn score_five_aces_totals_exactly() {
    let test_cards = vec![
        card(Rank::Ace, Suit::Club),
        card(Rank::Ace, Suit::Diamond),
        card(Rank::Ace, Suit::Heart),
        card(Rank::Ace, Suit::Spade),
        card(Rank::Ace, Suit::Club),
    ];
    assert_eq!(
        Scorer::get_scoring_hand(&test_cards).unwrap().0.unwrap(),
        ScoringHand::FiveOfAKind
    );
    assert_eq!(Scorer::score_cards(&test_cards).unwrap(), (120 + 5 * 10) * 12);
}

#[test]
fn score_empty_hand_is_rejected() {
    let empty: Vec<Card> = Vec::new();
    assert!(Scorer::score_cards(&empty).is_err());
    let (hand, ranks) = Scorer::get_scoring_hand(&empty).unwrap();
    assert_eq!(hand, None);
    assert!(ranks.is_empty());
}

#[test]
fn target_score_small_blind_first_ante() {
    assert_eq!(Blind::Small.get_target_score(1).unwrap(), 25 * 2 * 2 * 3);
    assert_eq!(Blind::Small.get_target_score(1).unwrap(), 300);
}

#[test]
fn target_score_boss_exceptions() {
    assert_eq!(Blind::Boss(Bosses::Wall).get_target_score(2).unwrap(), 25 * 4 * 4 * 8);
    assert_eq!(Blind::Boss(Bosses::Needle).get_target_score(2).unwrap(), 25 * 4 * 1 * 8);
    assert_eq!(Blind::Boss(Bosses::Hook).get_target_score(2).unwrap(), 25 * 4 * 2 * 8);
    assert_eq!(Blind::Big.get_target_score(8).unwrap(), 25 * 3 * 2 * 500);
}

#[test]
fn target_score_rejects_ninth_ante() {
    assert!(Blind::Small.get_target_score(9).is_err());
}

#[test]
fn blind_rewards_and_colors() {
    assert_eq!(Blind::Small.get_reward(), 3);
    assert_eq!(Blind::Big.get_reward(), 4);
    assert_eq!(Blind::Boss(Bosses::Ox).get_reward(), 5);
    assert_eq!(Blind::Small.get_color(), "blue");
    assert_eq!(Blind::Big.get_color(), "green");
    assert_eq!(Blind::Boss(Bosses::Ox).get_color(), "red");
}

#[test]
fn rank_scores_follow_face_values() {
    assert_eq!(Rank::Two.get_score(), 2);
    assert_eq!(Rank::Nine.get_score(), 9);
    assert_eq!(Rank::Ten.get_score(), 10);
    assert_eq!(Rank::Jack.get_score(), 10);
    assert_eq!(Rank::Queen.get_score(), 10);
    assert_eq!(Rank::King.get_score(), 10);
    assert_eq!(Rank::Ace.get_score(), 10);
}

fn fresh_round() -> Round {
    Round {
        properties: RoundProperties::default(),
        blind: Blind::Small,
        discards_count: 3,
        hands_count: 3,
        score: 0,
        hand: Vec::new(),
        history: Vec::new(),
    }
}

#[test]
fn play_hand_with_no_hands_left_changes_nothing() {
    let mut deck = Deck::standard();
    let mut round = fresh_round();
    round.start(&mut deck).unwrap();
    round.hands_count = 0;
    let hand_before = round.hand.clone();
    let history_before = round.history.clone();
    let score_before = round.score;
    let r = round.play_hand(&mut deck, &vec![0, 1]);
    assert_eq!(r, Err(CoreError::HandsExhaustedError));
    assert_eq!(round.hand, hand_before);
    assert_eq!(round.history, history_before);
    assert_eq!(round.score, score_before);
}

#[test]
fn discard_hand_with_no_discards_left_is_rejected() {
    let mut deck = Deck::standard();
    let mut round = fresh_round();
    round.start(&mut deck).unwrap();
    round.discards_count = 0;
    assert_eq!(
        round.discard_hand(&mut deck, &vec![0]),
        Err(CoreError::DiscardsExhaustedError)
    );
}

#[test]
fn play_hand_rejects_bad_indices() {
    let mut deck = Deck::standard();
    let mut round = fresh_round();
    round.start(&mut deck).unwrap();
    assert_eq!(
        round.play_hand(&mut deck, &vec![99]),
        Err(CoreError::InvalidIndexError)
    );
    assert_eq!(
        round.play_hand(&mut deck, &vec![2, 1]),
        Err(CoreError::InvalidIndexError)
    );
}

#[test]
fn play_hand_scores_and_redeals() {
    let mut deck = Deck::standard();
    let mut round = fresh_round();
    round.start(&mut deck).unwrap();
    let hand_len = round.hand.len();
    let r = round.play_hand(&mut deck, &vec![0, 1, 2, 3, 4]);
    assert_eq!(r, Ok(()));
    assert_eq!(round.hands_count, 2);
    assert!(round.score > 0);
    assert_eq!(round.hand.len(), hand_len);
    assert_eq!(round.history.len(), 5);
}

#[test]
fn round_outcomes_follow_score_and_hands() {
    assert_eq!(round_outcome(0, 100, 300), RoundOutcome::Lost);
    assert_eq!(round_outcome(2, 100, 300), RoundOutcome::InProgress);
    assert_eq!(round_outcome(0, 300, 300), RoundOutcome::Won);
    assert_eq!(round_outcome(2, 400, 300), RoundOutcome::Won);
}

#[test]
fn run_finishes_lost_the_moment_a_round_is_lost() {
    let mut run = Run {
        properties: RunProperties::default(),
        run_state: RunState::Running,
        money: 10,
        deck: Deck::standard(),
        round: fresh_round(),
        upcoming_round_number: 1,
    };
    run.start().unwrap();
    run.round.hands_count = 0;
    run.round.score = 0;
    assert_eq!(run.evaluate_round(), Ok(RoundOutcome::Lost));
    assert_eq!(run.run_state, RunState::Finished(false));
}

#[test]
fn run_finishes_won_only_at_the_final_ante() {
    let mut run = Run {
        properties: RunProperties::default(),
        run_state: RunState::Running,
        money: 10,
        deck: Deck::standard(),
        round: fresh_round(),
        upcoming_round_number: 1,
    };
    run.round.score = 1000;
    assert_eq!(run.evaluate_round(), Ok(RoundOutcome::Won));
    assert_eq!(run.run_state, RunState::Running);
    run.round.properties.ante = 8;
    run.round.score = usize::MAX;
    assert_eq!(run.evaluate_round(), Ok(RoundOutcome::Won));
    assert_eq!(run.run_state, RunState::Finished(true));
}

#[test]
fn scoring_hand_labels() {
    assert_eq!(ScoringHand::FlushFive.label(), "Flush Five");
    assert_eq!(ScoringHand::HighCard.label(), "High Card");
    assert_eq!(Blind::Small.label(), "Small Blind");
}

#[test]
fn card_list_cursor_wraps_both_ways() {
    let cards = vec![
        Card { rank: Rank::Ace, suit: Suit::Club },
        Card { rank: Rank::Two, suit: Suit::Heart },
        Card { rank: Rank::Ten, suit: Suit::Diamond },
    ];
    let mut state = CardListWidgetState::new(cards);
    assert_eq!(state.pos, None);
    state.move_next().unwrap();
    assert_eq!(state.pos, Some(0));
    state.move_prev().unwrap();
    assert_eq!(state.pos, Some(2));
    state.move_next().unwrap();
    assert_eq!(state.pos, Some(0));
    state.move_next().unwrap();
    state.move_next().unwrap();
    state.move_next().unwrap();
    assert_eq!(state.pos, Some(0));
    state.blur();
    assert_eq!(state.pos, None);
}

#[test]
fn card_list_selection_respects_the_limit() {
    let cards = vec![Card { rank: Rank::Ace, suit: Suit::Club }; 4];
    let state = CardListWidgetState::new(cards);
    let mut state = state.selection_limit(Some(2)).unwrap();
    state.move_next().unwrap();
    assert!(state.select().unwrap());
    assert!(!state.select().unwrap());
    state.move_next().unwrap();
    assert!(state.select().unwrap());
    state.move_next().unwrap();
    assert!(!state.select().unwrap());
    assert_eq!(state.selected, vec![0, 1]);
    state.move_prev().unwrap();
    assert!(state.deselect().unwrap());
    assert!(!state.deselect().unwrap());
    assert_eq!(state.selected, vec![0]);
}

#[test]
fn card_list_limit_below_selection_is_refused() {
    let cards = vec![Card { rank: Rank::Ace, suit: Suit::Club }; 4];
    let mut state = CardListWidgetState::new(cards);
    state.move_next().unwrap();
    state.select().unwrap();
    state.move_next().unwrap();
    state.select().unwrap();
    assert!(state.selection_limit(Some(1)).is_err());
}
