//! Tests for parsing suits, ranks and cards from their textual forms.

use std::str::FromStr;

use balatro_core::card::{Card, Rank, Suit};
use balatro_core::deck::{Deck, DeckConstExt};

#[test]
fn suit_from_unicode() {
    let parsed_suits = ["♣", "♦", "♥", "♠"].map(|suit| Suit::from_str(suit).unwrap());

    let expected_suits = [Suit::Club, Suit::Diamond, Suit::Heart, Suit::Spade];

    assert_eq!(parsed_suits, expected_suits);
}

#[test]
fn suit_from_str() {
    let parsed_suits = ["C", "D", "H", "S"].map(|suit| Suit::from_str(suit).unwrap());

    let expected_suits = [Suit::Club, Suit::Diamond, Suit::Heart, Suit::Spade];

    assert_eq!(parsed_suits, expected_suits);
}

#[test]
fn rank_from_str() {
    let parsed_ranks = [
        "A", "2", "3", "4", "5", "6", "7", "8", "9", "10", "J", "Q", "K",
    ]
    .map(|rank| Rank::from_str(rank).unwrap());

    let expected_ranks = [
        Rank::Ace,
        Rank::Two,
        Rank::Three,
        Rank::Four,
        Rank::Five,
        Rank::Six,
        Rank::Seven,
        Rank::Eight,
        Rank::Nine,
        Rank::Ten,
        Rank::Jack,
        Rank::Queen,
        Rank::King,
    ];

    assert_eq!(parsed_ranks, expected_ranks);
}

#[test]
fn rank_from_repr() {
    let parsed_ranks = [
        "1", "2", "3", "4", "5", "6", "7", "8", "9", "10", "11", "12", "13",
    ]
    .map(|rank| Rank::from_str(rank).unwrap());

    let expected_ranks = [
        Rank::Ace,
        Rank::Two,
        Rank::Three,
        Rank::Four,
        Rank::Five,
        Rank::Six,
        Rank::Seven,
        Rank::Eight,
        Rank::Nine,
        Rank::Ten,
        Rank::Jack,
        Rank::Queen,
        Rank::King,
    ];

    assert_eq!(parsed_ranks, expected_ranks);
}

#[test]
fn card_from_repr_rank_str_suit() {
    let parsed_cards = [
        "1C", "2D", "3H", "4S", "5C", "6D", "7H", "8S", "9C", "10D", "11H", "12S", "13C",
    ]
    .map(|card| Card::from_str(card).unwrap());

    let expected_cards = [
        Card { rank: Rank::Ace, suit: Suit::Club },
        Card { rank: Rank::Two, suit: Suit::Diamond },
        Card { rank: Rank::Three, suit: Suit::Heart },
        Card { rank: Rank::Four, suit: Suit::Spade },
        Card { rank: Rank::Five, suit: Suit::Club },
        Card { rank: Rank::Six, suit: Suit::Diamond },
        Card { rank: Rank::Seven, suit: Suit::Heart },
        Card { rank: Rank::Eight, suit: Suit::Spade },
        Card { rank: Rank::Nine, suit: Suit::Club },
        Card { rank: Rank::Ten, suit: Suit::Diamond },
        Card { rank: Rank::Jack, suit: Suit::Heart },
        Card { rank: Rank::Queen, suit: Suit::Spade },
        Card { rank: Rank::King, suit: Suit::Club },
    ];

    assert_eq!(parsed_cards, expected_cards);
}

#[test]
fn card_from_repr_rank_unicode_suit() {
    let parsed_cards = [
        "1♣", "2♦", "3♥", "4♠", "5♣", "6♦", "7♥", "8♠", "9♣", "10♦", "11♥", "12♠", "13♣",
    ]
    .map(|card| Card::from_str(card).unwrap());

    let expected_cards = [
        Card { rank: Rank::Ace, suit: Suit::Club },
        Card { rank: Rank::Two, suit: Suit::Diamond },
        Card { rank: Rank::Three, suit: Suit::Heart },
        Card { rank: Rank::Four, suit: Suit::Spade },
        Card { rank: Rank::Five, suit: Suit::Club },
        Card { rank: Rank::Six, suit: Suit::Diamond },
        Card { rank: Rank::Seven, suit: Suit::Heart },
        Card { rank: Rank::Eight, suit: Suit::Spade },
        Card { rank: Rank::Nine, suit: Suit::Club },
        Card { rank: Rank::Ten, suit: Suit::Diamond },
        Card { rank: Rank::Jack, suit: Suit::Heart },
        Card { rank: Rank::Queen, suit: Suit::Spade },
        Card { rank: Rank::King, suit: Suit::Club },
    ];

    assert_eq!(parsed_cards, expected_cards);
}

#[test]
fn card_from_str_rank_and_str_suit() {
    let parsed_cards = ["AC", "JD", "QH", "KS"].map(|card| Card::from_str(card).unwrap());

    let expected_cards = [
        Card { rank: Rank::Ace, suit: Suit::Club },
        Card { rank: Rank::Jack, suit: Suit::Diamond },
        Card { rank: Rank::Queen, suit: Suit::Heart },
        Card { rank: Rank::King, suit: Suit::Spade },
    ];

    assert_eq!(parsed_cards, expected_cards);
}

#[test]
fn card_from_str_rank_and_unicode_suit() {
    let parsed_cards = ["A♣", "J♦", "Q♥", "K♠"].map(|card| Card::from_str(card).unwrap());

    let expected_cards = [
        Card { rank: Rank::Ace, suit: Suit::Club },
        Card { rank: Rank::Jack, suit: Suit::Diamond },
        Card { rank: Rank::Queen, suit: Suit::Heart },
        Card { rank: Rank::King, suit: Suit::Spade },
    ];

    assert_eq!(parsed_cards, expected_cards);
}

#[test]
fn malformed_cards_are_rejected() {
    assert!(Card::from_str("").is_err());
    assert!(Card::from_str("X").is_err());
    assert!(Card::from_str("14C").is_err());
    assert!(Card::from_str("0♥").is_err());
    assert!(Card::from_str("A").is_err());
    assert!(Card::from_str("♣A").is_err());
    assert!(Suit::from_str("♣♣").is_err());
    assert!(Rank::from_str("00").is_err());
}

#[test]
fn card_labels_follow_rank_and_suit() {
    assert_eq!(Card { rank: Rank::Ace, suit: Suit::Club }.label(), "A♣");
    assert_eq!(Card { rank: Rank::Ten, suit: Suit::Heart }.label(), "10♥");
    assert_eq!(Card { rank: Rank::Queen, suit: Suit::Spade }.label(), "Q♠");
    assert_eq!(Card { rank: Rank::Two, suit: Suit::Diamond }.label(), "2♦");
    assert_eq!(Rank::King.label(), "K");
    assert_eq!(Suit::Diamond.glyph(), "♦");
}

#[test]
fn card_labels_parse_back() {
    for card in Deck::standard() {
        assert_eq!(Card::from_str(&card.label()).unwrap(), card);
    }
}
