//! The scorer: classification of a played hand into its best-matching
//! poker category, and the chip/multiplier arithmetic built on it.
//!
//! Beyond the standard categories, the biased-deck hands Flush Five, Flush
//! House and Five of a Kind are classified and scored.

use vstd::prelude::*;

use crate::card::{
    card_rank_le_fn, count_rank, count_suit, has_rank, rank_ordinal, rank_score, rank_value,
    ranks_of, Card, Rank, Sortable,
};
use crate::error::{ArithmeticError, ScorerError};

verus! {

/// The kind of hand made by a set of played cards, in order of scoring
/// precedence (highest first).  Classification checks the categories in
/// exactly this order and returns the first match.
#[derive(Clone, Copy, Debug, PartialEq, Eq, Structural, Hash, PartialOrd, Ord)]
pub enum ScoringHand {
    /// Five cards of the same rank and the same suit.
    FlushFive,
    /// A full house (three of one rank, two of another) in a single suit.
    FlushHouse,
    /// Five cards of the same rank, in any suits.
    FiveOfAKind,
    /// A straight with a high ace, in a single suit.
    RoyalFlush,
    /// A straight in a single suit.
    StraightFlush,
    /// Four cards of the same rank.
    FourOfAKind,
    /// Three cards of one rank and two of another.
    FullHouse,
    /// Five cards of a single suit.
    Flush,
    /// Five consecutive ranks, the ace counting either high or low.
    Straight,
    /// Three cards of the same rank.
    ThreeOfAKind,
    /// Two cards of one rank and two of another.
    TwoPair,
    /// Two cards of the same rank.
    Pair,
    /// None of the other categories; only the highest card scores.
    HighCard,
}

/// The base chips of a scoring hand.
pub open spec fn spec_chips(h: ScoringHand) -> int {
    match h {
        ScoringHand::FlushFive => 160,
        ScoringHand::FlushHouse => 140,
        ScoringHand::FiveOfAKind => 120,
        ScoringHand::RoyalFlush => 100,
        ScoringHand::StraightFlush => 60,
        ScoringHand::FourOfAKind => 40,
        ScoringHand::FullHouse => 35,
        ScoringHand::Flush => 30,
        ScoringHand::Straight => 30,
        ScoringHand::ThreeOfAKind => 20,
        ScoringHand::TwoPair => 20,
        ScoringHand::Pair => 10,
        ScoringHand::HighCard => 5,
    }
}

/// The multiplier of a scoring hand.
pub open spec fn spec_multiplier(h: ScoringHand) -> int {
    match h {
        ScoringHand::FlushFive => 16,
        ScoringHand::FlushHouse => 14,
        ScoringHand::FiveOfAKind => 12,
        ScoringHand::RoyalFlush => 8,
        ScoringHand::StraightFlush => 7,
        ScoringHand::FourOfAKind => 4,
        ScoringHand::FullHouse => 4,
        ScoringHand::Flush => 4,
        ScoringHand::Straight => 3,
        ScoringHand::ThreeOfAKind => 2,
        ScoringHand::TwoPair => 2,
        ScoringHand::Pair => 2,
        ScoringHand::HighCard => 1,
    }
}

impl ScoringHand {
    /// Returns the display name of the scoring hand.
    pub fn label(&self) -> (c: String)
        ensures
            *self == ScoringHand::FlushFive ==> c@ == "Flush Five"@,
            *self == ScoringHand::FlushHouse ==> c@ == "Flush House"@,
            *self == ScoringHand::FiveOfAKind ==> c@ == "Five of a Kind"@,
            *self == ScoringHand::RoyalFlush ==> c@ == "Royal Flush"@,
            *self == ScoringHand::StraightFlush ==> c@ == "Straight Flush"@,
            *self == ScoringHand::FourOfAKind ==> c@ == "Four of a Kind"@,
            *self == ScoringHand::FullHouse ==> c@ == "Full House"@,
            *self == ScoringHand::Flush ==> c@ == "Flush"@,
            *self == ScoringHand::Straight ==> c@ == "Straight"@,
            *self == ScoringHand::ThreeOfAKind ==> c@ == "Three of a Kind"@,
            *self == ScoringHand::TwoPair ==> c@ == "Two Pair"@,
            *self == ScoringHand::Pair ==> c@ == "Pair"@,
            *self == ScoringHand::HighCard ==> c@ == "High Card"@,
    {
        match *self {
            ScoringHand::FlushFive => "Flush Five".to_owned(),
            ScoringHand::FlushHouse => "Flush House".to_owned(),
            ScoringHand::FiveOfAKind => "Five of a Kind".to_owned(),
            ScoringHand::RoyalFlush => "Royal Flush".to_owned(),
            ScoringHand::StraightFlush => "Straight Flush".to_owned(),
            ScoringHand::FourOfAKind => "Four of a Kind".to_owned(),
            ScoringHand::FullHouse => "Full House".to_owned(),
            ScoringHand::Flush => "Flush".to_owned(),
            ScoringHand::Straight => "Straight".to_owned(),
            ScoringHand::ThreeOfAKind => "Three of a Kind".to_owned(),
            ScoringHand::TwoPair => "Two Pair".to_owned(),
            ScoringHand::Pair => "Pair".to_owned(),
            ScoringHand::HighCard => "High Card".to_owned(),
        }
    }
}

/// Whether the most frequent rank occurs exactly `n` times.
pub open spec fn rank_max_is(s: Seq<Card>, n: nat) -> bool {
    &&& exists|r: Rank| #[trigger] count_rank(s, r) == n
    &&& forall|r: Rank| #[trigger] count_rank(s, r) <= n
}

/// Whether the most frequent suit occurs exactly `n` times.
pub open spec fn suit_max_is(s: Seq<Card>, n: nat) -> bool {
    &&& exists|su: crate::card::Suit| #[trigger] count_suit(s, su) == n
    &&& forall|su: crate::card::Suit| #[trigger] count_suit(s, su) <= n
}

/// The number of occurrences of the most frequent rank.
pub open spec fn max_rank_count(s: Seq<Card>) -> nat {
    choose|n: nat| rank_max_is(s, n)
}

/// Whether the two largest rank groups have exactly `c1` and `c2` cards:
/// some rank occurs `c1` times, every other rank at most `c2` times, and
/// some other rank exactly `c2` times.
pub open spec fn top_two_rank_counts_are(s: Seq<Card>, c1: nat, c2: nat) -> bool {
    exists|r1: Rank|
        {
            &&& #[trigger] count_rank(s, r1) == c1
            &&& forall|r: Rank| #[trigger] count_rank(s, r) <= c1
            &&& exists|r2: Rank| r2 != r1 && #[trigger] count_rank(s, r2) == c2
            &&& forall|r2: Rank| r2 != r1 ==> #[trigger] count_rank(s, r2) <= c2
        }
}

/// Whether the ranks present are exactly ace, ten, jack, queen and king:
/// the straight with the ace counted high.
pub open spec fn high_ace_straight(s: Seq<Card>) -> bool {
    forall|r: Rank|
        #[trigger] has_rank(s, r) <==> (r == Rank::Ace || r == Rank::Ten || r == Rank::Jack || r
            == Rank::Queen || r == Rank::King)
}

/// Whether the ranks present are exactly the five ordinals `lo` through
/// `lo + 4`; with `lo == 1` this is the straight with the ace counted low.
pub open spec fn straight_from(s: Seq<Card>, lo: int) -> bool {
    forall|r: Rank| #[trigger] has_rank(s, r) <==> lo <= rank_ordinal(r) <= lo + 4
}

/// The straight with the ace counted low: ace through five.
pub open spec fn low_ace_straight(s: Seq<Card>) -> bool {
    straight_from(s, 1)
}

/// Whether the ranks present form a straight: five consecutive ordinals,
/// or the high-ace run of ten through ace.
pub open spec fn is_straight(s: Seq<Card>) -> bool {
    ||| high_ace_straight(s)
    ||| exists|lo: int| 1 <= lo <= 9 && #[trigger] straight_from(s, lo)
}

/// The category of a hand, checked in scoring-precedence order; `None`
/// only for an empty hand.
#[verifier::opaque]
pub open spec fn spec_classify(s: Seq<Card>) -> Option<ScoringHand> {
    if s.len() == 0 {
        None
    } else if suit_max_is(s, 5) && rank_max_is(s, 5) {
        Some(ScoringHand::FlushFive)
    } else if suit_max_is(s, 5) && top_two_rank_counts_are(s, 3, 2) {
        Some(ScoringHand::FlushHouse)
    } else if rank_max_is(s, 5) {
        Some(ScoringHand::FiveOfAKind)
    } else if suit_max_is(s, 5) && high_ace_straight(s) {
        Some(ScoringHand::RoyalFlush)
    } else if suit_max_is(s, 5) && is_straight(s) {
        Some(ScoringHand::StraightFlush)
    } else if rank_max_is(s, 4) {
        Some(ScoringHand::FourOfAKind)
    } else if top_two_rank_counts_are(s, 3, 2) {
        Some(ScoringHand::FullHouse)
    } else if suit_max_is(s, 5) {
        Some(ScoringHand::Flush)
    } else if is_straight(s) {
        Some(ScoringHand::Straight)
    } else if rank_max_is(s, 3) {
        Some(ScoringHand::ThreeOfAKind)
    } else if top_two_rank_counts_are(s, 2, 2) {
        Some(ScoringHand::TwoPair)
    } else if rank_max_is(s, 2) {
        Some(ScoringHand::Pair)
    } else {
        Some(ScoringHand::HighCard)
    }
}

/// The rank occurring exactly `n` times whose gameplay value is greatest.
pub open spec fn best_rank_with_count(s: Seq<Card>, n: nat) -> Rank {
    choose|r: Rank|
        count_rank(s, r) == n && (forall|r2: Rank|
            #[trigger] count_rank(s, r2) == n ==> rank_value(r2) <= rank_value(r))
}

/// The rank other than `excl` occurring exactly `n` times whose gameplay
/// value is greatest.
pub open spec fn best_rank_with_count_excluding(s: Seq<Card>, n: nat, excl: Rank) -> Rank {
    choose|r: Rank|
        r != excl && count_rank(s, r) == n && (forall|r2: Rank|
            r2 != excl && #[trigger] count_rank(s, r2) == n ==> rank_value(r2) <= rank_value(r))
}

/// The ranks of the hand sorted by descending gameplay value.
pub open spec fn sorted_ranks(s: Seq<Card>) -> Seq<Rank> {
    ranks_of(s.sort_by(card_rank_le_fn()))
}

/// The ranks that count toward the chip bonus, per category: the matched
/// groups for the n-of-a-kind family, every card for flushes and
/// straights, and the single highest card otherwise.
#[verifier::opaque]
pub open spec fn spec_scored_ranks(s: Seq<Card>) -> Seq<Rank> {
    match spec_classify(s) {
        None => Seq::empty(),
        Some(h) => match h {
            ScoringHand::FlushFive | ScoringHand::FiveOfAKind => Seq::new(
                5,
                |i: int| best_rank_with_count(s, 5),
            ),
            ScoringHand::FlushHouse | ScoringHand::FullHouse => Seq::new(
                3,
                |i: int| best_rank_with_count(s, 3),
            ) + Seq::new(2, |i: int| best_rank_with_count_excluding(s, 2, best_rank_with_count(s, 3))),
            ScoringHand::RoyalFlush | ScoringHand::StraightFlush | ScoringHand::Straight => sorted_ranks(
                s,
            ),
            ScoringHand::FourOfAKind => Seq::new(4, |i: int| best_rank_with_count(s, 4)),
            ScoringHand::Flush => ranks_of(s),
            ScoringHand::ThreeOfAKind => Seq::new(3, |i: int| best_rank_with_count(s, 3)),
            ScoringHand::TwoPair => Seq::new(2, |i: int| best_rank_with_count(s, 2)) + Seq::new(
                2,
                |i: int| best_rank_with_count_excluding(s, 2, best_rank_with_count(s, 2)),
            ),
            ScoringHand::Pair => Seq::new(2, |i: int| best_rank_with_count(s, 2)),
            ScoringHand::HighCard => Seq::new(
                max_rank_count(s),
                |i: int| best_rank_with_count(s, max_rank_count(s)),
            ),
        },
    }
}

/// The total chip score of a sequence of ranks.
pub open spec fn rank_score_sum(rs: Seq<Rank>) -> int
    decreases rs.len(),
{
    if rs.len() == 0 {
        0
    } else {
        rank_score_sum(rs.drop_last()) + rank_score(rs.last())
    }
}

/// The chips accumulated by a hand before the multiplier: the category's
/// base chips plus the chip scores of the scored ranks.
pub open spec fn spec_chip_total(s: Seq<Card>) -> int {
    spec_chips(spec_classify(s)->Some_0) + rank_score_sum(spec_scored_ranks(s))
}

/// The final score of a hand: its chip total times its multiplier.
pub open spec fn spec_score(s: Seq<Card>) -> int {
    spec_chip_total(s) * spec_multiplier(spec_classify(s)->Some_0)
}

/// Holds information regarding a test for a straight in the played hand.
///
/// `high_ace` is `None` when no ace took part in the straight, `Some(true)`
/// when the straight used the ace as its highest rank, and `Some(false)`
/// when it used the ace below the two.
#[derive(Clone, Debug)]
pub struct StraightTestResult {
    /// Which ace interpretation, if any, the straight used.
    pub high_ace: Option<bool>,
    /// The ranks taking part, in the order of the cards given.
    pub scored_ranks: Vec<Rank>,
}

/// Whether a presence table over rank ordinals marks exactly the ordinals
/// `lo` through `lo + 4`.
pub open spec fn window_marked(pres: Seq<bool>, lo: int) -> bool {
    forall|o: int| 1 <= o <= 13 ==> ((#[trigger] pres[o]) <==> lo <= o <= lo + 4)
}

/// Whether a presence table marks exactly the high-ace run: the ace and
/// the ordinals ten through king.
pub open spec fn high_marked(pres: Seq<bool>) -> bool {
    forall|o: int| 1 <= o <= 13 ==> ((#[trigger] pres[o]) <==> (o == 1 || 10 <= o <= 13))
}

/// Whether a presence table agrees with the ranks of a hand.
pub open spec fn presence_matches(s: Seq<Card>, pres: Seq<bool>) -> bool {
    &&& pres.len() == 14
    &&& forall|r: Rank| #[trigger] has_rank(s, r) <==> pres[rank_ordinal(r)]
}

/// A presence table faithful to the hand marks a window exactly when the
/// hand is the corresponding straight.
proof fn lemma_window_iff(s: Seq<Card>, pres: Seq<bool>, lo: int)
    requires
        presence_matches(s, pres),
        1 <= lo <= 9,
    ensures
        window_marked(pres, lo) == straight_from(s, lo),
{
    if window_marked(pres, lo) {
        assert forall|r: Rank| #[trigger] has_rank(s, r) <==> lo <= rank_ordinal(r) <= lo + 4 by {
            assert(1 <= rank_ordinal(r) <= 13);
            assert(pres[rank_ordinal(r)] <==> lo <= rank_ordinal(r) <= lo + 4);
        }
    }
    if straight_from(s, lo) {
        assert forall|o: int| 1 <= o <= 13 implies ((#[trigger] pres[o]) <==> lo <= o <= lo + 4) by {
            let r = crate::card::rank_of_ordinal(o);
            assert(rank_ordinal(r) == o);
            assert(has_rank(s, r) <==> pres[o]);
            assert(has_rank(s, r) <==> lo <= o <= lo + 4);
        }
    }
}

/// A presence table faithful to the hand marks the high-ace run exactly
/// when the hand is the high-ace straight.
proof fn lemma_high_iff(s: Seq<Card>, pres: Seq<bool>)
    requires
        presence_matches(s, pres),
    ensures
        high_marked(pres) == high_ace_straight(s),
{
    if high_marked(pres) {
        assert forall|r: Rank| #[trigger] has_rank(s, r) <==> (r == Rank::Ace || r == Rank::Ten || r
            == Rank::Jack || r == Rank::Queen || r == Rank::King) by {
            assert(1 <= rank_ordinal(r) <= 13);
            assert(pres[rank_ordinal(r)] <==> (rank_ordinal(r) == 1 || 10 <= rank_ordinal(r)
                <= 13));
            assert((rank_ordinal(r) == 1 || 10 <= rank_ordinal(r) <= 13) <==> (r == Rank::Ace || r
                == Rank::Ten || r == Rank::Jack || r == Rank::Queen || r == Rank::King));
        }
    }
    if high_ace_straight(s) {
        assert forall|o: int| 1 <= o <= 13 implies ((#[trigger] pres[o]) <==> (o == 1 || 10 <= o
            <= 13)) by {
            let r = crate::card::rank_of_ordinal(o);
            assert(rank_ordinal(r) == o);
            assert(has_rank(s, r) <==> pres[o]);
            assert(has_rank(s, r) <==> (r == Rank::Ace || r == Rank::Ten || r == Rank::Jack || r
                == Rank::Queen || r == Rank::King));
        }
    }
}

/// Checks whether the presence table marks exactly the ordinals `lo`
/// through `lo + 4`.
fn matches_window(present: &Vec<bool>, lo: usize) -> (m: bool)
    requires
        present@.len() == 14,
        1 <= lo <= 9,
    ensures
        m == window_marked(present@, lo as int),
{
    let mut o: usize = 1;
    while o <= 13
        invariant
            1 <= o <= 14,
            present@.len() == 14,
            1 <= lo <= 9,
            forall|oo: int| 1 <= oo < o ==> ((#[trigger] present@[oo]) <==> lo <= oo <= lo + 4),
        decreases 14 - o,
    {
        let expected = lo <= o && o <= lo + 4;
        if present[o] != expected {
            proof {
                assert(!((present@[o as int]) <==> lo <= o <= lo + 4));
            }
            return false;
        }
        o = o + 1;
    }
    true
}

/// Checks whether the presence table marks exactly the high-ace run.
fn matches_high(present: &Vec<bool>) -> (m: bool)
    requires
        present@.len() == 14,
    ensures
        m == high_marked(present@),
{
    let mut o: usize = 1;
    while o <= 13
        invariant
            1 <= o <= 14,
            present@.len() == 14,
            forall|oo: int| 1 <= oo < o ==> ((#[trigger] present@[oo]) <==> (oo == 1 || 10 <= oo
                <= 13)),
        decreases 14 - o,
    {
        let expected = o == 1 || (10 <= o && o <= 13);
        if present[o] != expected {
            proof {
                assert(!((present@[o as int]) <==> (o == 1 || 10 <= o <= 13)));
            }
            return false;
        }
        o = o + 1;
    }
    true
}

/// Two values can each be the maximum rank count only if they are equal.
proof fn lemma_rank_max_unique(s: Seq<Card>, n1: nat, n2: nat)
    requires
        rank_max_is(s, n1),
        rank_max_is(s, n2),
    ensures
        n1 == n2,
{
}

/// `max_rank_count` denotes any value shown to be the maximum rank count.
proof fn lemma_max_rank_count_is(s: Seq<Card>, n: nat)
    requires
        rank_max_is(s, n),
    ensures
        max_rank_count(s) == n,
{
    assert(exists|m: nat| rank_max_is(s, m));
    let w = max_rank_count(s);
    assert(rank_max_is(s, w));
    lemma_rank_max_unique(s, w, n);
}

/// Two values can each be the maximum suit count only if they are equal.
proof fn lemma_suit_max_unique(s: Seq<Card>, n1: nat, n2: nat)
    requires
        suit_max_is(s, n1),
        suit_max_is(s, n2),
    ensures
        n1 == n2,
{
}

/// Hands with the same rank counts have the same straights.
proof fn lemma_straight_counts(s1: Seq<Card>, s2: Seq<Card>)
    requires
        forall|r: Rank| #[trigger] count_rank(s1, r) == count_rank(s2, r),
    ensures
        high_ace_straight(s1) == high_ace_straight(s2),
        forall|lo: int| #[trigger] straight_from(s1, lo) == straight_from(s2, lo),
        is_straight(s1) == is_straight(s2),
{
    assert forall|r: Rank| #[trigger] has_rank(s1, r) == has_rank(s2, r) by {
        assert(count_rank(s1, r) == count_rank(s2, r));
    }
    assert forall|lo: int| #[trigger] straight_from(s1, lo) == straight_from(s2, lo) by {
        if straight_from(s1, lo) {
            assert forall|r: Rank| #[trigger] has_rank(s2, r) <==> lo <= rank_ordinal(r) <= lo
                + 4 by {
                assert(has_rank(s1, r) == has_rank(s2, r));
            }
        }
        if straight_from(s2, lo) {
            assert forall|r: Rank| #[trigger] has_rank(s1, r) <==> lo <= rank_ordinal(r) <= lo
                + 4 by {
                assert(has_rank(s1, r) == has_rank(s2, r));
            }
        }
    }
    if high_ace_straight(s1) {
        assert forall|r: Rank| #[trigger] has_rank(s2, r) <==> (r == Rank::Ace || r == Rank::Ten
            || r == Rank::Jack || r == Rank::Queen || r == Rank::King) by {
            assert(has_rank(s1, r) == has_rank(s2, r));
        }
    }
    if high_ace_straight(s2) {
        assert forall|r: Rank| #[trigger] has_rank(s1, r) <==> (r == Rank::Ace || r == Rank::Ten
            || r == Rank::Jack || r == Rank::Queen || r == Rank::King) by {
            assert(has_rank(s1, r) == has_rank(s2, r));
        }
    }
    if is_straight(s1) && !high_ace_straight(s1) {
        let lo = choose|lo: int| 1 <= lo <= 9 && #[trigger] straight_from(s1, lo);
        assert(straight_from(s2, lo));
    }
    if is_straight(s2) && !high_ace_straight(s2) {
        let lo = choose|lo: int| 1 <= lo <= 9 && #[trigger] straight_from(s2, lo);
        assert(straight_from(s1, lo));
    }
}

/// In a hand sorted by the rank-first order, a rank whose first occurrence
/// comes earlier has the greater gameplay value.
proof fn lemma_sorted_value_order(ss: Seq<Card>, a: Rank, b: Rank)
    requires
        vstd::relations::sorted_by(ss, card_rank_le_fn()),
        has_rank(ss, a),
        has_rank(ss, b),
        a != b,
        crate::card::first_rank_index(ss, a) < crate::card::first_rank_index(ss, b),
    ensures
        rank_value(a) > rank_value(b),
{
    crate::card::lemma_first_rank_exists(ss, a);
    crate::card::lemma_first_rank_exists(ss, b);
    let fa = crate::card::first_rank_index(ss, a);
    let fb = crate::card::first_rank_index(ss, b);
    assert(card_rank_le_fn()(ss[fa], ss[fb]));
    assert(crate::card::rank_sort_key(ss[fa]) <= crate::card::rank_sort_key(ss[fb]));
    assert(0 <= crate::card::suit_index(ss[fa].suit) <= 3);
    assert(0 <= crate::card::suit_index(ss[fb].suit) <= 3);
    assert(rank_value(a) >= rank_value(b));
    assert(rank_value(a) != rank_value(b));
}

/// The rank and suit counts of the hand and its rank-sorted form agree,
/// and the grouping is empty exactly for the empty hand.
proof fn lemma_sorted_counts(s: Seq<Card>, ss: Seq<Card>)
    requires
        ss == s.sort_by(card_rank_le_fn()),
    ensures
        forall|r: Rank| #[trigger] count_rank(s, r) == count_rank(ss, r),
        forall|su: crate::card::Suit| #[trigger] count_suit(s, su) == count_suit(ss, su),
        s.len() == ss.len(),
        vstd::relations::sorted_by(ss, card_rank_le_fn()),
{
    broadcast use vstd::seq_lib::group_to_multiset_ensures;

    crate::card::lemma_card_rank_le_total();
    s.lemma_sort_by_ensures(card_rank_le_fn());
    assert(s.to_multiset() == ss.to_multiset());
    crate::card::lemma_counts_permutation(s, ss);
    assert(s.len() == s.to_multiset().len());
    assert(ss.len() == ss.to_multiset().len());
}

/// The grouping of the sorted hand is empty exactly when the hand is.
proof fn lemma_rank_groups_len(s: Seq<Card>, ss: Seq<Card>, g: Seq<(Rank, usize)>)
    requires
        ss == s.sort_by(card_rank_le_fn()),
        crate::card::rank_groups_ok(ss, g),
    ensures
        (g.len() == 0) == (s.len() == 0),
{
    broadcast use vstd::seq_lib::group_filter_ensures;

    lemma_sorted_counts(s, ss);
    if s.len() == 0 {
        if g.len() > 0 {
            assert(count_rank(ss, g[0].0) == g[0].1 && g[0].1 > 0);
            assert(ss.filter(crate::card::rank_pred(g[0].0)).len() <= ss.len());
            assert(false);
        }
    } else {
        crate::card::lemma_rank_at_index_present(ss, 0);
        assert(has_rank(ss, ss[0].rank));
        assert(g.len() > 0);
    }
}

/// The leading rank group realizes the maximum rank count, and its key is
/// the rank of greatest value among those of that count.
#[verifier::rlimit(60)]
proof fn lemma_rank_groups_top(s: Seq<Card>, ss: Seq<Card>, g: Seq<(Rank, usize)>)
    requires
        ss == s.sort_by(card_rank_le_fn()),
        crate::card::rank_groups_ok(ss, g),
        g.len() > 0,
    ensures
        rank_max_is(s, g[0].1 as nat),
        count_rank(s, g[0].0) == g[0].1 && g[0].1 > 0,
        g[0].0 == best_rank_with_count(s, g[0].1 as nat),
{
    lemma_sorted_counts(s, ss);
    let n0 = g[0].1 as nat;
    let r0 = g[0].0;
    assert(count_rank(ss, r0) == n0);
    assert(count_rank(s, r0) == n0);
    assert forall|r: Rank| #[trigger] count_rank(ss, r) <= n0 by {
        if count_rank(ss, r) > 0 {
            assert(has_rank(ss, r));
            let k = choose|k: int| 0 <= k < g.len() && (#[trigger] g[k]).0 == r;
            if k > 0 {
                assert(crate::card::rank_group_before(ss, g[0].0, g[k].0));
            }
        }
    }
    assert forall|r: Rank| #[trigger] count_rank(s, r) <= n0 by {
        assert(count_rank(s, r) == count_rank(ss, r));
    }
    assert(rank_max_is(s, n0));
    assert forall|r2: Rank| #[trigger] count_rank(s, r2) == n0 implies rank_value(r2)
        <= rank_value(r0) by {
        if r2 != r0 {
            assert(count_rank(ss, r2) == n0);
            assert(has_rank(ss, r2));
            let k = choose|k: int| 0 <= k < g.len() && (#[trigger] g[k]).0 == r2;
            assert(k > 0);
            assert(crate::card::rank_group_before(ss, r0, r2));
            assert(crate::card::first_rank_index(ss, r0) < crate::card::first_rank_index(ss, r2));
            lemma_sorted_value_order(ss, r0, r2);
        }
    }
    assert(exists|r: Rank|
        count_rank(s, r) == n0 && (forall|r2: Rank|
            #[trigger] count_rank(s, r2) == n0 ==> rank_value(r2) <= rank_value(r))) by {
        assert(count_rank(s, r0) == n0 && (forall|r2: Rank|
            #[trigger] count_rank(s, r2) == n0 ==> rank_value(r2) <= rank_value(r0)));
    }
    let w = best_rank_with_count(s, n0);
    assert(count_rank(s, w) == n0 && (forall|r2: Rank|
        #[trigger] count_rank(s, r2) == n0 ==> rank_value(r2) <= rank_value(w)));
    assert(rank_value(w) <= rank_value(r0) && rank_value(r0) <= rank_value(w));
    assert(w == r0);
}

/// A single rank group means no other rank occurs at all.
proof fn lemma_rank_groups_single(s: Seq<Card>, ss: Seq<Card>, g: Seq<(Rank, usize)>)
    requires
        ss == s.sort_by(card_rank_le_fn()),
        crate::card::rank_groups_ok(ss, g),
        g.len() == 1,
    ensures
        forall|r: Rank| r != g[0].0 ==> #[trigger] count_rank(s, r) == 0,
{
    lemma_sorted_counts(s, ss);
    assert forall|r: Rank| r != g[0].0 implies #[trigger] count_rank(s, r) == 0 by {
        assert(count_rank(s, r) == count_rank(ss, r));
        if count_rank(ss, r) > 0 {
            assert(has_rank(ss, r));
            let k = choose|k: int| 0 <= k < g.len() && (#[trigger] g[k]).0 == r;
            assert(k == 0);
        }
    }
}

/// The second rank group bounds every rank but the first.
#[verifier::rlimit(60)]
proof fn lemma_rank_groups_second_bound(s: Seq<Card>, ss: Seq<Card>, g: Seq<(Rank, usize)>)
    requires
        ss == s.sort_by(card_rank_le_fn()),
        crate::card::rank_groups_ok(ss, g),
        g.len() >= 2,
    ensures
        count_rank(s, g[1].0) == g[1].1 && g[1].1 > 0 && g[1].0 != g[0].0,
        forall|r: Rank| r != g[0].0 ==> #[trigger] count_rank(s, r) <= g[1].1,
{
    lemma_sorted_counts(s, ss);
    let r0 = g[0].0;
    let n1 = g[1].1 as nat;
    let r1 = g[1].0;
    assert(count_rank(ss, r1) == n1);
    assert(count_rank(s, r1) == n1);
    assert(crate::card::rank_group_before(ss, g[0].0, g[1].0));
    assert(r1 != r0) by {
        if r1 == r0 {
            assert(crate::card::rank_group_before(ss, r0, r0));
        }
    }
    assert forall|r: Rank| r != r0 implies #[trigger] count_rank(s, r) <= n1 by {
        assert(count_rank(s, r) == count_rank(ss, r));
        if count_rank(ss, r) > 0 {
            assert(has_rank(ss, r));
            let k = choose|k: int| 0 <= k < g.len() && (#[trigger] g[k]).0 == r;
            assert(k >= 1);
            if k > 1 {
                assert(crate::card::rank_group_before(ss, g[1].0, g[k].0));
            }
        }
    }
}

/// The second rank group's key is the best-valued rank of its count other
/// than the first group's key.
#[verifier::rlimit(60)]
proof fn lemma_rank_groups_second(s: Seq<Card>, ss: Seq<Card>, g: Seq<(Rank, usize)>)
    requires
        ss == s.sort_by(card_rank_le_fn()),
        crate::card::rank_groups_ok(ss, g),
        g.len() >= 2,
    ensures
        count_rank(s, g[1].0) == g[1].1 && g[1].1 > 0 && g[1].0 != g[0].0,
        forall|r: Rank| r != g[0].0 ==> #[trigger] count_rank(s, r) <= g[1].1,
        g[1].0 == best_rank_with_count_excluding(s, g[1].1 as nat, g[0].0),
{
    lemma_sorted_counts(s, ss);
    lemma_rank_groups_second_bound(s, ss, g);
    let r0 = g[0].0;
    let n1 = g[1].1 as nat;
    let r1 = g[1].0;
    assert forall|r2: Rank|
        r2 != r0 && #[trigger] count_rank(s, r2) == n1 implies rank_value(r2) <= rank_value(
        r1,
    ) by {
        if r2 != r1 {
            assert(count_rank(ss, r2) == n1);
            assert(has_rank(ss, r2));
            let k = choose|k: int| 0 <= k < g.len() && (#[trigger] g[k]).0 == r2;
            assert(k >= 1);
            assert(k != 1);
            assert(crate::card::rank_group_before(ss, r1, r2));
            assert(crate::card::first_rank_index(ss, r1) < crate::card::first_rank_index(ss, r2));
            lemma_sorted_value_order(ss, r1, r2);
        }
    }
    assert(exists|r: Rank|
        r != r0 && count_rank(s, r) == n1 && (forall|r2: Rank|
            r2 != r0 && #[trigger] count_rank(s, r2) == n1 ==> rank_value(r2) <= rank_value(
                r,
            ))) by {
        assert(r1 != r0 && count_rank(s, r1) == n1 && (forall|r2: Rank|
            r2 != r0 && #[trigger] count_rank(s, r2) == n1 ==> rank_value(r2) <= rank_value(
                r1,
            )));
    }
    let w = best_rank_with_count_excluding(s, n1, r0);
    assert(w != r0 && count_rank(s, w) == n1 && (forall|r2: Rank|
        r2 != r0 && #[trigger] count_rank(s, r2) == n1 ==> rank_value(r2) <= rank_value(w)));
    assert(rank_value(w) <= rank_value(r1) && rank_value(r1) <= rank_value(w));
    assert(w == r1);
}


/// The two leading rank groups have sizes `c1` and `c2` exactly when the
/// hand's rank counts satisfy `top_two_rank_counts_are`.
#[verifier::rlimit(60)]
proof fn lemma_top_two_iff(s: Seq<Card>, ss: Seq<Card>, g: Seq<(Rank, usize)>, c1: nat, c2: nat)
    requires
        ss == s.sort_by(card_rank_le_fn()),
        crate::card::rank_groups_ok(ss, g),
        g.len() > 0,
        0 < c2 <= c1,
    ensures
        top_two_rank_counts_are(s, c1, c2) == (g.len() >= 2 && g[0].1 == c1 && g[1].1 == c2),
{
    lemma_sorted_counts(s, ss);
    lemma_rank_groups_top(s, ss, g);
    if g.len() >= 2 {
        lemma_rank_groups_second(s, ss, g);
        if g[0].1 == c1 && g[1].1 == c2 {
            assert(count_rank(s, g[0].0) == c1);
            assert(g[1].0 != g[0].0 && count_rank(s, g[1].0) == c2);
            assert(exists|r2: Rank| r2 != g[0].0 && #[trigger] count_rank(s, r2) == c2);
            assert(top_two_rank_counts_are(s, c1, c2));
        }
    }
    if top_two_rank_counts_are(s, c1, c2) {
        let r1 = choose|r1: Rank|
            {
                &&& #[trigger] count_rank(s, r1) == c1
                &&& forall|r: Rank| #[trigger] count_rank(s, r) <= c1
                &&& exists|r2: Rank| r2 != r1 && #[trigger] count_rank(s, r2) == c2
                &&& forall|r2: Rank| r2 != r1 ==> #[trigger] count_rank(s, r2) <= c2
            };
        let r2 = choose|r2: Rank| r2 != r1 && #[trigger] count_rank(s, r2) == c2;
        assert(rank_max_is(s, c1));
        lemma_rank_max_unique(s, g[0].1 as nat, c1);
        assert(g[0].1 == c1);
        assert(count_rank(ss, r1) == c1 && count_rank(ss, r2) == c2);
        assert(has_rank(ss, r1) && has_rank(ss, r2));
        let k1 = choose|k: int| 0 <= k < g.len() && (#[trigger] g[k]).0 == r1;
        let k2 = choose|k: int| 0 <= k < g.len() && (#[trigger] g[k]).0 == r2;
        assert(k1 != k2) by {
            if k1 == k2 {
                assert(r1 == r2);
            }
        }
        assert(g.len() >= 2);
        lemma_rank_groups_second(s, ss, g);
        if r2 != g[0].0 {
            assert(count_rank(s, r2) <= g[1].1);
        } else {
            assert(count_rank(s, g[0].0) == c2 && count_rank(s, g[0].0) == c1);
            assert(r1 != g[0].0);
            assert(count_rank(s, r1) <= g[1].1);
        }
        assert(g[1].1 >= c2);
        if g[0].0 == r1 {
            assert(g[1].0 != r1);
            assert(count_rank(s, g[1].0) <= c2);
        } else {
            assert(count_rank(s, g[0].0) <= c2);
            assert(count_rank(s, g[0].0) == g[0].1);
            if g[1].0 == r1 {
                assert(count_rank(s, g[1].0) == c1);
            } else {
                assert(count_rank(s, g[1].0) <= c2);
            }
        }
        assert(g[1].1 <= c2);
    }
}

/// An empty hand classifies as nothing and scores no ranks.
proof fn lemma_classify_empty(s: Seq<Card>)
    requires
        s.len() == 0,
    ensures
        spec_classify(s) == None::<ScoringHand>,
        spec_scored_ranks(s) == Seq::<Rank>::empty(),
{
    reveal(spec_classify);
    reveal(spec_scored_ranks);
}

/// Each classification condition over the hand is equivalent to a shape
/// condition on the groups of its sorted form.
#[verifier::rlimit(100)]
proof fn lemma_cond_equivalences(s: Seq<Card>, ss: Seq<Card>, sg: Seq<(crate::card::Suit, usize)>, rg: Seq<(Rank, usize)>)
    requires
        ss == s.sort_by(card_rank_le_fn()),
        crate::card::rank_groups_ok(ss, rg),
        crate::card::suit_groups_ok(ss, sg),
        rg.len() > 0,
        sg.len() > 0,
    ensures
        s.len() > 0,
        suit_max_is(s, 5) == (sg[0].1 == 5),
        rank_max_is(s, 5) == (rg[0].1 == 5),
        rank_max_is(s, 4) == (rg[0].1 == 4),
        rank_max_is(s, 3) == (rg[0].1 == 3),
        rank_max_is(s, 2) == (rg[0].1 == 2),
        top_two_rank_counts_are(s, 3, 2) == (rg.len() >= 2 && rg[0].1 == 3 && rg[1].1 == 2),
        top_two_rank_counts_are(s, 2, 2) == (rg.len() >= 2 && rg[0].1 == 2 && rg[1].1 == 2),
{
    lemma_sorted_counts(s, ss);
    lemma_rank_groups_len(s, ss, rg);
    lemma_rank_groups_top(s, ss, rg);
    lemma_suit_group_facts(s, ss, sg);
    lemma_top_two_iff(s, ss, rg, 3, 2);
    lemma_top_two_iff(s, ss, rg, 2, 2);
    if rank_max_is(s, 5) {
        lemma_rank_max_unique(s, rg[0].1 as nat, 5);
    }
    if rank_max_is(s, 4) {
        lemma_rank_max_unique(s, rg[0].1 as nat, 4);
    }
    if rank_max_is(s, 3) {
        lemma_rank_max_unique(s, rg[0].1 as nat, 3);
    }
    if rank_max_is(s, 2) {
        lemma_rank_max_unique(s, rg[0].1 as nat, 2);
    }
    if suit_max_is(s, 5) {
        lemma_suit_max_unique(s, sg[0].1 as nat, 5);
    }
}

/// The hand classifies as this category under the given group shape.
#[verifier::rlimit(60)]
proof fn lemma_hand_flush_five(s: Seq<Card>, ss: Seq<Card>, sg: Seq<(crate::card::Suit, usize)>, rg: Seq<(Rank, usize)>, hs: bool, hh: bool)
    requires
        ss == s.sort_by(card_rank_le_fn()),
        crate::card::rank_groups_ok(ss, rg),
        crate::card::suit_groups_ok(ss, sg),
        rg.len() > 0,
        sg.len() > 0,
        hs == is_straight(s),
        hh == high_ace_straight(s),
        (sg[0].1 == 5 && rg[0].1 == 5),
    ensures
        spec_classify(s) == Some(ScoringHand::FlushFive),
        spec_scored_ranks(s).len() == 5,
        forall|i: int| 0 <= i < 5 ==> #[trigger] spec_scored_ranks(s)[i] == rg[0].0,

{
    reveal(spec_classify);
    reveal(spec_scored_ranks);
    lemma_cond_equivalences(s, ss, sg, rg);
    lemma_rank_groups_top(s, ss, rg);
    assert(spec_classify(s) == Some(ScoringHand::FlushFive));
}

/// The hand classifies as this category under the given group shape.
#[verifier::rlimit(60)]
proof fn lemma_hand_flush_house(s: Seq<Card>, ss: Seq<Card>, sg: Seq<(crate::card::Suit, usize)>, rg: Seq<(Rank, usize)>, hs: bool, hh: bool)
    requires
        ss == s.sort_by(card_rank_le_fn()),
        crate::card::rank_groups_ok(ss, rg),
        crate::card::suit_groups_ok(ss, sg),
        rg.len() > 0,
        sg.len() > 0,
        hs == is_straight(s),
        hh == high_ace_straight(s),
        !(sg[0].1 == 5 && rg[0].1 == 5),
        (rg.len() >= 2 && sg[0].1 == 5 && rg[0].1 == 3 && rg[1].1 == 2),
    ensures
        spec_classify(s) == Some(ScoringHand::FlushHouse),

{
    reveal(spec_classify);
    lemma_cond_equivalences(s, ss, sg, rg);
    assert(spec_classify(s) == Some(ScoringHand::FlushHouse));
}

/// The hand classifies as this category under the given group shape.
#[verifier::rlimit(60)]
proof fn lemma_hand_five_of_a_kind(s: Seq<Card>, ss: Seq<Card>, sg: Seq<(crate::card::Suit, usize)>, rg: Seq<(Rank, usize)>, hs: bool, hh: bool)
    requires
        ss == s.sort_by(card_rank_le_fn()),
        crate::card::rank_groups_ok(ss, rg),
        crate::card::suit_groups_ok(ss, sg),
        rg.len() > 0,
        sg.len() > 0,
        hs == is_straight(s),
        hh == high_ace_straight(s),
        !(sg[0].1 == 5 && rg[0].1 == 5),
        !(rg.len() >= 2 && sg[0].1 == 5 && rg[0].1 == 3 && rg[1].1 == 2),
        (rg[0].1 == 5),
    ensures
        spec_classify(s) == Some(ScoringHand::FiveOfAKind),
        spec_scored_ranks(s).len() == 5,
        forall|i: int| 0 <= i < 5 ==> #[trigger] spec_scored_ranks(s)[i] == rg[0].0,

{
    reveal(spec_classify);
    reveal(spec_scored_ranks);
    lemma_cond_equivalences(s, ss, sg, rg);
    lemma_rank_groups_top(s, ss, rg);
    assert(spec_classify(s) == Some(ScoringHand::FiveOfAKind));
}

/// The hand classifies as this category under the given group shape.
#[verifier::rlimit(60)]
proof fn lemma_hand_royal_flush(s: Seq<Card>, ss: Seq<Card>, sg: Seq<(crate::card::Suit, usize)>, rg: Seq<(Rank, usize)>, hs: bool, hh: bool)
    requires
        ss == s.sort_by(card_rank_le_fn()),
        crate::card::rank_groups_ok(ss, rg),
        crate::card::suit_groups_ok(ss, sg),
        rg.len() > 0,
        sg.len() > 0,
        hs == is_straight(s),
        hh == high_ace_straight(s),
        !(sg[0].1 == 5 && rg[0].1 == 5),
        !(rg.len() >= 2 && sg[0].1 == 5 && rg[0].1 == 3 && rg[1].1 == 2),
        !(rg[0].1 == 5),
        (sg[0].1 == 5 && hs && hh),
    ensures
        spec_classify(s) == Some(ScoringHand::RoyalFlush),
        spec_scored_ranks(s) == sorted_ranks(s),

{
    reveal(spec_classify);
    reveal(spec_scored_ranks);
    lemma_cond_equivalences(s, ss, sg, rg);
    lemma_rank_groups_top(s, ss, rg);
    assert(spec_classify(s) == Some(ScoringHand::RoyalFlush));
}

/// The hand classifies as this category under the given group shape.
#[verifier::rlimit(60)]
proof fn lemma_hand_straight_flush(s: Seq<Card>, ss: Seq<Card>, sg: Seq<(crate::card::Suit, usize)>, rg: Seq<(Rank, usize)>, hs: bool, hh: bool)
    requires
        ss == s.sort_by(card_rank_le_fn()),
        crate::card::rank_groups_ok(ss, rg),
        crate::card::suit_groups_ok(ss, sg),
        rg.len() > 0,
        sg.len() > 0,
        hs == is_straight(s),
        hh == high_ace_straight(s),
        !(sg[0].1 == 5 && rg[0].1 == 5),
        !(rg.len() >= 2 && sg[0].1 == 5 && rg[0].1 == 3 && rg[1].1 == 2),
        !(rg[0].1 == 5),
        ((sg[0].1 == 5 && hs) && !hh),
    ensures
        spec_classify(s) == Some(ScoringHand::StraightFlush),
        spec_scored_ranks(s) == sorted_ranks(s),

{
    reveal(spec_classify);
    reveal(spec_scored_ranks);
    lemma_cond_equivalences(s, ss, sg, rg);
    lemma_rank_groups_top(s, ss, rg);
    assert(spec_classify(s) == Some(ScoringHand::StraightFlush));
}

/// The hand classifies as this category under the given group shape.
#[verifier::rlimit(60)]
proof fn lemma_hand_four_of_a_kind(s: Seq<Card>, ss: Seq<Card>, sg: Seq<(crate::card::Suit, usize)>, rg: Seq<(Rank, usize)>, hs: bool, hh: bool)
    requires
        ss == s.sort_by(card_rank_le_fn()),
        crate::card::rank_groups_ok(ss, rg),
        crate::card::suit_groups_ok(ss, sg),
        rg.len() > 0,
        sg.len() > 0,
        hs == is_straight(s),
        hh == high_ace_straight(s),
        !(sg[0].1 == 5 && rg[0].1 == 5),
        !(rg.len() >= 2 && sg[0].1 == 5 && rg[0].1 == 3 && rg[1].1 == 2),
        !(rg[0].1 == 5),
        !(sg[0].1 == 5 && hs && hh),
        !(sg[0].1 == 5 && hs),
        (rg[0].1 == 4),
    ensures
        spec_classify(s) == Some(ScoringHand::FourOfAKind),
        spec_scored_ranks(s).len() == 4,
        forall|i: int| 0 <= i < 4 ==> #[trigger] spec_scored_ranks(s)[i] == rg[0].0,

{
    reveal(spec_classify);
    reveal(spec_scored_ranks);
    lemma_cond_equivalences(s, ss, sg, rg);
    lemma_rank_groups_top(s, ss, rg);
    assert(spec_classify(s) == Some(ScoringHand::FourOfAKind));
}

/// The hand classifies as this category under the given group shape.
#[verifier::rlimit(60)]
proof fn lemma_hand_full_house(s: Seq<Card>, ss: Seq<Card>, sg: Seq<(crate::card::Suit, usize)>, rg: Seq<(Rank, usize)>, hs: bool, hh: bool)
    requires
        ss == s.sort_by(card_rank_le_fn()),
        crate::card::rank_groups_ok(ss, rg),
        crate::card::suit_groups_ok(ss, sg),
        rg.len() > 0,
        sg.len() > 0,
        hs == is_straight(s),
        hh == high_ace_straight(s),
        !(sg[0].1 == 5 && rg[0].1 == 5),
        !(rg.len() >= 2 && sg[0].1 == 5 && rg[0].1 == 3 && rg[1].1 == 2),
        !(rg[0].1 == 5),
        !(sg[0].1 == 5 && hs && hh),
        !(sg[0].1 == 5 && hs),
        !(rg[0].1 == 4),
        (rg.len() >= 2 && rg[0].1 == 3 && rg[1].1 == 2),
    ensures
        spec_classify(s) == Some(ScoringHand::FullHouse),

{
    reveal(spec_classify);
    lemma_cond_equivalences(s, ss, sg, rg);
    assert(spec_classify(s) == Some(ScoringHand::FullHouse));
}

/// The hand classifies as this category under the given group shape.
#[verifier::rlimit(60)]
proof fn lemma_hand_flush(s: Seq<Card>, ss: Seq<Card>, sg: Seq<(crate::card::Suit, usize)>, rg: Seq<(Rank, usize)>, hs: bool, hh: bool)
    requires
        ss == s.sort_by(card_rank_le_fn()),
        crate::card::rank_groups_ok(ss, rg),
        crate::card::suit_groups_ok(ss, sg),
        rg.len() > 0,
        sg.len() > 0,
        hs == is_straight(s),
        hh == high_ace_straight(s),
        !(sg[0].1 == 5 && rg[0].1 == 5),
        !(rg.len() >= 2 && sg[0].1 == 5 && rg[0].1 == 3 && rg[1].1 == 2),
        !(rg[0].1 == 5),
        !(sg[0].1 == 5 && hs && hh),
        !(sg[0].1 == 5 && hs),
        !(rg[0].1 == 4),
        !(rg.len() >= 2 && rg[0].1 == 3 && rg[1].1 == 2),
        (sg[0].1 == 5),
    ensures
        spec_classify(s) == Some(ScoringHand::Flush),
        spec_scored_ranks(s) == ranks_of(s),

{
    reveal(spec_classify);
    reveal(spec_scored_ranks);
    lemma_cond_equivalences(s, ss, sg, rg);
    lemma_rank_groups_top(s, ss, rg);
    assert(spec_classify(s) == Some(ScoringHand::Flush));
}

/// The hand classifies as this category under the given group shape.
#[verifier::rlimit(60)]
proof fn lemma_hand_straight(s: Seq<Card>, ss: Seq<Card>, sg: Seq<(crate::card::Suit, usize)>, rg: Seq<(Rank, usize)>, hs: bool, hh: bool)
    requires
        ss == s.sort_by(card_rank_le_fn()),
        crate::card::rank_groups_ok(ss, rg),
        crate::card::suit_groups_ok(ss, sg),
        rg.len() > 0,
        sg.len() > 0,
        hs == is_straight(s),
        hh == high_ace_straight(s),
        !(sg[0].1 == 5 && rg[0].1 == 5),
        !(rg.len() >= 2 && sg[0].1 == 5 && rg[0].1 == 3 && rg[1].1 == 2),
        !(rg[0].1 == 5),
        !(sg[0].1 == 5 && hs && hh),
        !(sg[0].1 == 5 && hs),
        !(rg[0].1 == 4),
        !(rg.len() >= 2 && rg[0].1 == 3 && rg[1].1 == 2),
        !(sg[0].1 == 5),
        (hs),
    ensures
        spec_classify(s) == Some(ScoringHand::Straight),
        spec_scored_ranks(s) == sorted_ranks(s),

{
    reveal(spec_classify);
    reveal(spec_scored_ranks);
    lemma_cond_equivalences(s, ss, sg, rg);
    lemma_rank_groups_top(s, ss, rg);
    assert(spec_classify(s) == Some(ScoringHand::Straight));
}

/// The hand classifies as this category under the given group shape.
#[verifier::rlimit(60)]
proof fn lemma_hand_three_of_a_kind(s: Seq<Card>, ss: Seq<Card>, sg: Seq<(crate::card::Suit, usize)>, rg: Seq<(Rank, usize)>, hs: bool, hh: bool)
    requires
        ss == s.sort_by(card_rank_le_fn()),
        crate::card::rank_groups_ok(ss, rg),
        crate::card::suit_groups_ok(ss, sg),
        rg.len() > 0,
        sg.len() > 0,
        hs == is_straight(s),
        hh == high_ace_straight(s),
        !(sg[0].1 == 5 && rg[0].1 == 5),
        !(rg.len() >= 2 && sg[0].1 == 5 && rg[0].1 == 3 && rg[1].1 == 2),
        !(rg[0].1 == 5),
        !(sg[0].1 == 5 && hs && hh),
        !(sg[0].1 == 5 && hs),
        !(rg[0].1 == 4),
        !(rg.len() >= 2 && rg[0].1 == 3 && rg[1].1 == 2),
        !(sg[0].1 == 5),
        !(hs),
        (rg[0].1 == 3),
    ensures
        spec_classify(s) == Some(ScoringHand::ThreeOfAKind),
        spec_scored_ranks(s).len() == 3,
        forall|i: int| 0 <= i < 3 ==> #[trigger] spec_scored_ranks(s)[i] == rg[0].0,

{
    reveal(spec_classify);
    reveal(spec_scored_ranks);
    lemma_cond_equivalences(s, ss, sg, rg);
    lemma_rank_groups_top(s, ss, rg);
    assert(spec_classify(s) == Some(ScoringHand::ThreeOfAKind));
}

/// The hand classifies as this category under the given group shape.
#[verifier::rlimit(60)]
proof fn lemma_hand_two_pair(s: Seq<Card>, ss: Seq<Card>, sg: Seq<(crate::card::Suit, usize)>, rg: Seq<(Rank, usize)>, hs: bool, hh: bool)
    requires
        ss == s.sort_by(card_rank_le_fn()),
        crate::card::rank_groups_ok(ss, rg),
        crate::card::suit_groups_ok(ss, sg),
        rg.len() > 0,
        sg.len() > 0,
        hs == is_straight(s),
        hh == high_ace_straight(s),
        !(sg[0].1 == 5 && rg[0].1 == 5),
        !(rg.len() >= 2 && sg[0].1 == 5 && rg[0].1 == 3 && rg[1].1 == 2),
        !(rg[0].1 == 5),
        !(sg[0].1 == 5 && hs && hh),
        !(sg[0].1 == 5 && hs),
        !(rg[0].1 == 4),
        !(rg.len() >= 2 && rg[0].1 == 3 && rg[1].1 == 2),
        !(sg[0].1 == 5),
        !(hs),
        !(rg[0].1 == 3),
        (rg.len() >= 2 && rg[0].1 == 2 && rg[1].1 == 2),
    ensures
        spec_classify(s) == Some(ScoringHand::TwoPair),

{
    reveal(spec_classify);
    lemma_cond_equivalences(s, ss, sg, rg);
    assert(spec_classify(s) == Some(ScoringHand::TwoPair));
}

/// The hand classifies as this category under the given group shape.
#[verifier::rlimit(60)]
proof fn lemma_hand_pair(s: Seq<Card>, ss: Seq<Card>, sg: Seq<(crate::card::Suit, usize)>, rg: Seq<(Rank, usize)>, hs: bool, hh: bool)
    requires
        ss == s.sort_by(card_rank_le_fn()),
        crate::card::rank_groups_ok(ss, rg),
        crate::card::suit_groups_ok(ss, sg),
        rg.len() > 0,
        sg.len() > 0,
        hs == is_straight(s),
        hh == high_ace_straight(s),
        !(sg[0].1 == 5 && rg[0].1 == 5),
        !(rg.len() >= 2 && sg[0].1 == 5 && rg[0].1 == 3 && rg[1].1 == 2),
        !(rg[0].1 == 5),
        !(sg[0].1 == 5 && hs && hh),
        !(sg[0].1 == 5 && hs),
        !(rg[0].1 == 4),
        !(rg.len() >= 2 && rg[0].1 == 3 && rg[1].1 == 2),
        !(sg[0].1 == 5),
        !(hs),
        !(rg[0].1 == 3),
        !(rg.len() >= 2 && rg[0].1 == 2 && rg[1].1 == 2),
        (rg[0].1 == 2),
    ensures
        spec_classify(s) == Some(ScoringHand::Pair),
        spec_scored_ranks(s).len() == 2,
        forall|i: int| 0 <= i < 2 ==> #[trigger] spec_scored_ranks(s)[i] == rg[0].0,

{
    reveal(spec_classify);
    reveal(spec_scored_ranks);
    lemma_cond_equivalences(s, ss, sg, rg);
    lemma_rank_groups_top(s, ss, rg);
    assert(spec_classify(s) == Some(ScoringHand::Pair));
}

/// The hand classifies as this category under the given group shape.
#[verifier::rlimit(60)]
proof fn lemma_hand_high_card(s: Seq<Card>, ss: Seq<Card>, sg: Seq<(crate::card::Suit, usize)>, rg: Seq<(Rank, usize)>, hs: bool, hh: bool)
    requires
        ss == s.sort_by(card_rank_le_fn()),
        crate::card::rank_groups_ok(ss, rg),
        crate::card::suit_groups_ok(ss, sg),
        rg.len() > 0,
        sg.len() > 0,
        hs == is_straight(s),
        hh == high_ace_straight(s),
        !(sg[0].1 == 5 && rg[0].1 == 5),
        !(rg.len() >= 2 && sg[0].1 == 5 && rg[0].1 == 3 && rg[1].1 == 2),
        !(rg[0].1 == 5),
        !(sg[0].1 == 5 && hs && hh),
        !(sg[0].1 == 5 && hs),
        !(rg[0].1 == 4),
        !(rg.len() >= 2 && rg[0].1 == 3 && rg[1].1 == 2),
        !(sg[0].1 == 5),
        !(hs),
        !(rg[0].1 == 3),
        !(rg.len() >= 2 && rg[0].1 == 2 && rg[1].1 == 2),
        !(rg[0].1 == 2),
        true,
    ensures
        spec_classify(s) == Some(ScoringHand::HighCard),
        spec_scored_ranks(s).len() == rg[0].1,
        forall|i: int| 0 <= i < rg[0].1 ==> #[trigger] spec_scored_ranks(s)[i] == rg[0].0,

{
    reveal(spec_classify);
    reveal(spec_scored_ranks);
    lemma_cond_equivalences(s, ss, sg, rg);
    lemma_rank_groups_top(s, ss, rg);
    lemma_max_rank_count_is(s, rg[0].1 as nat);
    assert(spec_classify(s) == Some(ScoringHand::HighCard));
}

/// The pointwise shape of the scored ranks for the full-house family,
/// given the ranks of the two matched groups.
proof fn lemma_scored_full_house_pointwise(s: Seq<Card>, r0: Rank, r1: Rank)
    requires
        spec_classify(s) == Some(ScoringHand::FlushHouse) || spec_classify(s) == Some(
            ScoringHand::FullHouse,
        ),
        best_rank_with_count(s, 3) == r0,
        best_rank_with_count_excluding(s, 2, r0) == r1,
    ensures
        spec_scored_ranks(s).len() == 5,
        forall|i: int| 0 <= i < 3 ==> #[trigger] spec_scored_ranks(s)[i] == r0,
        forall|i: int| 3 <= i < 5 ==> #[trigger] spec_scored_ranks(s)[i] == r1,
{
    reveal(spec_scored_ranks);
}

/// The scored ranks of a full-house-shaped hand: three of the leading
/// group's rank, then two of the second group's.
proof fn lemma_scored_full_house_shape(s: Seq<Card>, ss: Seq<Card>, rg: Seq<(Rank, usize)>)
    requires
        ss == s.sort_by(card_rank_le_fn()),
        crate::card::rank_groups_ok(ss, rg),
        rg.len() >= 2,
        rg[0].1 == 3,
        rg[1].1 == 2,
        spec_classify(s) == Some(ScoringHand::FlushHouse) || spec_classify(s) == Some(
            ScoringHand::FullHouse,
        ),
    ensures
        spec_scored_ranks(s).len() == 5,
        forall|i: int| 0 <= i < 3 ==> #[trigger] spec_scored_ranks(s)[i] == rg[0].0,
        forall|i: int| 3 <= i < 5 ==> #[trigger] spec_scored_ranks(s)[i] == rg[1].0,
{
    lemma_rank_groups_top(s, ss, rg);
    lemma_rank_groups_second(s, ss, rg);
    lemma_scored_full_house_pointwise(s, rg[0].0, rg[1].0);
}

/// The pointwise shape of the scored ranks for a two-pair hand, given the
/// ranks of the two pairs.
proof fn lemma_scored_two_pair_pointwise(s: Seq<Card>, r0: Rank, r1: Rank)
    requires
        spec_classify(s) == Some(ScoringHand::TwoPair),
        best_rank_with_count(s, 2) == r0,
        best_rank_with_count_excluding(s, 2, r0) == r1,
    ensures
        spec_scored_ranks(s).len() == 4,
        forall|i: int| 0 <= i < 2 ==> #[trigger] spec_scored_ranks(s)[i] == r0,
        forall|i: int| 2 <= i < 4 ==> #[trigger] spec_scored_ranks(s)[i] == r1,
{
    reveal(spec_scored_ranks);
}

/// The scored ranks of a two-pair hand: the higher pair's rank twice, then
/// the lower pair's twice.
proof fn lemma_scored_two_pair_shape(s: Seq<Card>, ss: Seq<Card>, rg: Seq<(Rank, usize)>)
    requires
        ss == s.sort_by(card_rank_le_fn()),
        crate::card::rank_groups_ok(ss, rg),
        rg.len() >= 2,
        rg[0].1 == 2,
        rg[1].1 == 2,
        spec_classify(s) == Some(ScoringHand::TwoPair),
    ensures
        spec_scored_ranks(s).len() == 4,
        forall|i: int| 0 <= i < 2 ==> #[trigger] spec_scored_ranks(s)[i] == rg[0].0,
        forall|i: int| 2 <= i < 4 ==> #[trigger] spec_scored_ranks(s)[i] == rg[1].0,
{
    lemma_rank_groups_top(s, ss, rg);
    lemma_rank_groups_second(s, ss, rg);
    lemma_scored_two_pair_pointwise(s, rg[0].0, rg[1].0);
}

/// What the suit groups of the sorted hand say about the hand itself.
proof fn lemma_suit_group_facts(s: Seq<Card>, ss: Seq<Card>, g: Seq<(crate::card::Suit, usize)>)
    requires
        ss == s.sort_by(card_rank_le_fn()),
        crate::card::suit_groups_ok(ss, g),
    ensures
        forall|su: crate::card::Suit| #[trigger] count_suit(s, su) == count_suit(ss, su),
        (g.len() == 0) == (s.len() == 0),
        g.len() > 0 ==> suit_max_is(s, g[0].1 as nat),
        g.len() > 0 ==> count_suit(s, g[0].0) == g[0].1 && g[0].1 > 0,
{
    broadcast use vstd::seq_lib::group_to_multiset_ensures;
    broadcast use vstd::seq_lib::group_filter_ensures;

    crate::card::lemma_card_rank_le_total();
    s.lemma_sort_by_ensures(card_rank_le_fn());
    assert(s.to_multiset() == ss.to_multiset());
    crate::card::lemma_counts_permutation(s, ss);
    assert(s.len() == ss.len()) by {
        assert(s.len() == s.to_multiset().len());
        assert(ss.len() == ss.to_multiset().len());
    }
    if s.len() == 0 {
        if g.len() > 0 {
            assert(count_suit(ss, g[0].0) == g[0].1 && g[0].1 > 0);
            assert(ss.filter(crate::card::suit_pred(g[0].0)).len() <= ss.len());
            assert(false);
        }
    } else {
        crate::card::lemma_suit_at_index_present(ss, 0);
        assert(crate::card::has_suit(ss, ss[0].suit));
        assert(g.len() > 0);
    }
    if g.len() > 0 {
        let n0 = g[0].1 as nat;
        assert(count_suit(ss, g[0].0) == n0);
        assert(count_suit(s, g[0].0) == n0);
        assert forall|su: crate::card::Suit| #[trigger] count_suit(ss, su) <= n0 by {
            if count_suit(ss, su) > 0 {
                assert(crate::card::has_suit(ss, su));
                let k = choose|k: int| 0 <= k < g.len() && (#[trigger] g[k]).0 == su;
                if k > 0 {
                    assert(crate::card::suit_group_before(ss, g[0].0, g[k].0));
                }
            }
        }
        assert forall|su: crate::card::Suit| #[trigger] count_suit(s, su) <= n0 by {
            assert(count_suit(s, su) == count_suit(ss, su));
        }
        assert(suit_max_is(s, n0));
    }
}

/// A hand classifies as nothing exactly when it is empty.
pub proof fn lemma_classify_none_iff(s: Seq<Card>)
    ensures
        (spec_classify(s) is None) == (s.len() == 0),
{
    reveal(spec_classify);
}

/// Summing the scores of one more rank adds that rank's score.
proof fn lemma_rank_score_sum_take_step(rs: Seq<Rank>, n: int)
    requires
        0 <= n < rs.len(),
    ensures
        rank_score_sum(rs.take(n + 1)) == rank_score_sum(rs.take(n)) + rank_score(rs[n]),
{
    assert(rs.take(n + 1).drop_last() =~= rs.take(n));
    assert(rs.take(n + 1).last() == rs[n]);
}

/// A prefix of a rank sequence scores at most the whole sequence.
proof fn lemma_rank_score_sum_prefix(rs: Seq<Rank>, n: int)
    requires
        0 <= n <= rs.len(),
    ensures
        rank_score_sum(rs.take(n)) <= rank_score_sum(rs),
    decreases rs.len() - n,
{
    if n == rs.len() {
        assert(rs.take(n) =~= rs);
    } else {
        lemma_rank_score_sum_take_step(rs, n);
        lemma_rank_score_sum_prefix(rs, n + 1);
    }
}

/// Equal rank counts carry a maximum-count claim from one hand to the
/// other.
proof fn lemma_rank_max_transfer(s1: Seq<Card>, s2: Seq<Card>, n: nat)
    requires
        forall|r: Rank| #[trigger] count_rank(s1, r) == count_rank(s2, r),
        rank_max_is(s1, n),
    ensures
        rank_max_is(s2, n),
{
    let r = choose|r: Rank| #[trigger] count_rank(s1, r) == n;
    assert(count_rank(s2, r) == n);
    assert forall|r2: Rank| #[trigger] count_rank(s2, r2) <= n by {
        assert(count_rank(s1, r2) == count_rank(s2, r2));
    }
}

/// Equal suit counts carry a maximum-count claim from one hand to the
/// other.
proof fn lemma_suit_max_transfer(s1: Seq<Card>, s2: Seq<Card>, n: nat)
    requires
        forall|su: crate::card::Suit| #[trigger] count_suit(s1, su) == count_suit(s2, su),
        suit_max_is(s1, n),
    ensures
        suit_max_is(s2, n),
{
    let su = choose|su: crate::card::Suit| #[trigger] count_suit(s1, su) == n;
    assert(count_suit(s2, su) == n);
    assert forall|su2: crate::card::Suit| #[trigger] count_suit(s2, su2) <= n by {
        assert(count_suit(s1, su2) == count_suit(s2, su2));
    }
}

/// Equal rank counts carry a two-group shape claim from one hand to the
/// other.
proof fn lemma_top_two_transfer(s1: Seq<Card>, s2: Seq<Card>, c1: nat, c2: nat)
    requires
        forall|r: Rank| #[trigger] count_rank(s1, r) == count_rank(s2, r),
        top_two_rank_counts_are(s1, c1, c2),
    ensures
        top_two_rank_counts_are(s2, c1, c2),
{
    let r1 = choose|r1: Rank|
        {
            &&& #[trigger] count_rank(s1, r1) == c1
            &&& forall|r: Rank| #[trigger] count_rank(s1, r) <= c1
            &&& exists|r2: Rank| r2 != r1 && #[trigger] count_rank(s1, r2) == c2
            &&& forall|r2: Rank| r2 != r1 ==> #[trigger] count_rank(s1, r2) <= c2
        };
    let r2 = choose|r2: Rank| r2 != r1 && #[trigger] count_rank(s1, r2) == c2;
    assert(count_rank(s2, r1) == c1);
    assert(count_rank(s2, r2) == c2);
    assert forall|r: Rank| #[trigger] count_rank(s2, r) <= c1 by {
        assert(count_rank(s1, r) == count_rank(s2, r));
    }
    assert forall|rr: Rank| rr != r1 implies #[trigger] count_rank(s2, rr) <= c2 by {
        assert(count_rank(s1, rr) == count_rank(s2, rr));
    }
    assert(exists|rr: Rank| rr != r1 && #[trigger] count_rank(s2, rr) == c2);
}

/// Classification does not depend on the order of the played cards: two
/// hands holding the same cards as a multiset classify identically.
pub proof fn lemma_classify_permutation(s1: Seq<Card>, s2: Seq<Card>)
    requires
        s1.to_multiset() == s2.to_multiset(),
    ensures
        spec_classify(s1) == spec_classify(s2),
{
    reveal(spec_classify);
    broadcast use vstd::seq_lib::group_to_multiset_ensures;

    crate::card::lemma_counts_permutation(s1, s2);
    lemma_straight_counts(s1, s2);
    assert(s1.len() == s1.to_multiset().len());
    assert(s2.len() == s2.to_multiset().len());
    if rank_max_is(s1, 5) {
        lemma_rank_max_transfer(s1, s2, 5);
    }
    if rank_max_is(s2, 5) {
        lemma_rank_max_transfer(s2, s1, 5);
    }
    if rank_max_is(s1, 4) {
        lemma_rank_max_transfer(s1, s2, 4);
    }
    if rank_max_is(s2, 4) {
        lemma_rank_max_transfer(s2, s1, 4);
    }
    if rank_max_is(s1, 3) {
        lemma_rank_max_transfer(s1, s2, 3);
    }
    if rank_max_is(s2, 3) {
        lemma_rank_max_transfer(s2, s1, 3);
    }
    if rank_max_is(s1, 2) {
        lemma_rank_max_transfer(s1, s2, 2);
    }
    if rank_max_is(s2, 2) {
        lemma_rank_max_transfer(s2, s1, 2);
    }
    if suit_max_is(s1, 5) {
        lemma_suit_max_transfer(s1, s2, 5);
    }
    if suit_max_is(s2, 5) {
        lemma_suit_max_transfer(s2, s1, 5);
    }
    if top_two_rank_counts_are(s1, 3, 2) {
        lemma_top_two_transfer(s1, s2, 3, 2);
    }
    if top_two_rank_counts_are(s2, 3, 2) {
        lemma_top_two_transfer(s2, s1, 3, 2);
    }
    if top_two_rank_counts_are(s1, 2, 2) {
        lemma_top_two_transfer(s1, s2, 2, 2);
    }
    if top_two_rank_counts_are(s2, 2, 2) {
        lemma_top_two_transfer(s2, s1, 2, 2);
    }
}

/// Container for the scoring methods.
#[derive(Clone, Copy, Debug, Default, Ord, PartialOrd, Eq, Hash, PartialEq)]
pub struct Scorer;

impl Scorer {
    /// Returns the base chips and the multiplier of a scoring hand.
    pub fn get_chips_and_multiplier(scoring_hand: ScoringHand) -> (r: (usize, usize))
        ensures
            r.0 == spec_chips(scoring_hand),
            r.1 == spec_multiplier(scoring_hand),
    {
        match scoring_hand {
            ScoringHand::FlushFive => (160, 16),
            ScoringHand::FlushHouse => (140, 14),
            ScoringHand::FiveOfAKind => (120, 12),
            ScoringHand::RoyalFlush => (100, 8),
            ScoringHand::StraightFlush => (60, 7),
            ScoringHand::FourOfAKind => (40, 4),
            ScoringHand::FullHouse => (35, 4),
            ScoringHand::Flush => (30, 4),
            ScoringHand::Straight => (30, 3),
            ScoringHand::ThreeOfAKind => (20, 2),
            ScoringHand::TwoPair => (20, 2),
            ScoringHand::Pair => (10, 2),
            ScoringHand::HighCard => (5, 1),
        }
    }

    /// Tests for a straight among the ranks of the given cards.  Reports
    /// whether the straight used the ace, and as which end of the run.
    pub fn test_straight(cards: &Vec<Card>) -> (r: Option<StraightTestResult>)
        ensures
            match r {
                Some(res) => {
                    &&& is_straight(cards@)
                    &&& res.scored_ranks@ == ranks_of(cards@)
                    &&& res.high_ace == (if high_ace_straight(cards@) {
                        Some(true)
                    } else if low_ace_straight(cards@) {
                        Some(false)
                    } else {
                        None::<bool>
                    })
                },
                None => !is_straight(cards@),
            },
    {
        let ghost s = cards@;
        let mut present: Vec<bool> = vec![false; 14];
        let mut n: usize = 0;
        while n < cards.len()
            invariant
                present@.len() == 14,
                0 <= n <= cards@.len(),
                s == cards@,
                forall|o: int|
                    1 <= o <= 13 ==> ((#[trigger] present@[o]) <==> exists|j: int|
                        0 <= j < n && rank_ordinal((#[trigger] cards@[j]).rank) == o),
            decreases cards@.len() - n,
        {
            let o = cards[n].rank.ordinal();
            let ghost pres0 = present@;
            present[o] = true;
            proof {
                assert forall|oo: int| 1 <= oo <= 13 implies ((#[trigger] present@[oo])
                    <==> exists|j: int|
                    0 <= j < n + 1 && rank_ordinal((#[trigger] cards@[j]).rank) == oo) by {
                    if oo == o {
                        assert(rank_ordinal(cards@[n as int].rank) == oo);
                    } else {
                        assert(present@[oo] == pres0[oo]);
                        if exists|j: int|
                            0 <= j < n + 1 && rank_ordinal((#[trigger] cards@[j]).rank) == oo {
                            let j = choose|j: int|
                                0 <= j < n + 1 && rank_ordinal((#[trigger] cards@[j]).rank) == oo;
                            assert(j < n);
                        }
                    }
                }
            }
            n = n + 1;
        }
        proof {
            assert forall|r: Rank| #[trigger] has_rank(s, r) <==> present@[rank_ordinal(r)] by {
                assert(1 <= rank_ordinal(r) <= 13);
                if present@[rank_ordinal(r)] {
                    let j = choose|j: int|
                        0 <= j < s.len() && rank_ordinal((#[trigger] cards@[j]).rank)
                            == rank_ordinal(r);
                    assert(s[j].rank == r);
                    crate::card::lemma_rank_at_index_present(s, j);
                }
                if has_rank(s, r) {
                    crate::card::lemma_present_rank_has_index(s, r);
                    let i = choose|i: int| 0 <= i < s.len() && (#[trigger] s[i]).rank == r;
                    assert(rank_ordinal(cards@[i].rank) == rank_ordinal(r));
                }
            }
            assert(presence_matches(s, present@));
        }
        let is_high = matches_high(&present);
        proof {
            lemma_high_iff(s, present@);
        }
        let is_low = matches_window(&present, 1);
        proof {
            lemma_window_iff(s, present@, 1);
        }
        let mut lo: usize = 1;
        let mut found: bool = false;
        while lo <= 9
            invariant
                1 <= lo <= 10,
                present@.len() == 14,
                presence_matches(s, present@),
                s == cards@,
                found == exists|l: int| 1 <= l < lo && #[trigger] straight_from(s, l),
            decreases 10 - lo,
        {
            let w = matches_window(&present, lo);
            proof {
                lemma_window_iff(s, present@, lo as int);
                if w {
                    assert(straight_from(s, lo as int));
                }
            }
            found = found || w;
            lo = lo + 1;
        }
        if is_high || found {
            let mut ranks: Vec<Rank> = Vec::new();
            let mut n2: usize = 0;
            while n2 < cards.len()
                invariant
                    0 <= n2 <= cards@.len(),
                    ranks@.len() == n2,
                    forall|i: int| 0 <= i < n2 ==> #[trigger] ranks@[i] == cards@[i].rank,
                decreases cards@.len() - n2,
            {
                let rk = cards[n2].rank;
                ranks.push(rk);
                n2 = n2 + 1;
            }
            proof {
                assert(ranks@ =~= ranks_of(cards@));
            }
            let high_ace: Option<bool> = if is_high {
                Some(true)
            } else if is_low {
                Some(false)
            } else {
                None
            };
            Some(StraightTestResult { high_ace, scored_ranks: ranks })
        } else {
            None
        }
    }

    /// Returns the scoring hand of the played cards together with the
    /// ranks that count toward the chip bonus.  The hand is `None`, with
    /// no scored ranks, exactly for an empty input.
    #[verifier::rlimit(100)]
    pub fn get_scoring_hand(cards: &Vec<Card>) -> (r: Result<
        (Option<ScoringHand>, Vec<Rank>),
        ScorerError,
    >)
        ensures
            r matches Ok(p) && p.0 == spec_classify(cards@) && p.1@ == spec_scored_ranks(cards@),
    {
        let ghost s = cards@;
        let sorted_cards = cards.sorted_by_rank();
        let ghost ss = sorted_cards@;
        let suit_groups = sorted_cards.grouped_by_suit();
        let rank_groups = sorted_cards.grouped_by_rank();
        let straight_test_result = Scorer::test_straight(&sorted_cards);
        let ghost sg = suit_groups@;
        let ghost rg = rank_groups@;
        proof {
            lemma_sorted_counts(s, ss);
            lemma_rank_groups_len(s, ss, rg);
            lemma_suit_group_facts(s, ss, sg);
            lemma_straight_counts(s, ss);
        }
        if suit_groups.is_empty() || rank_groups.is_empty() {
            proof {
                lemma_classify_empty(s);
            }
            return Ok((None, Vec::new()));
        }
        let ghost hs = is_straight(s);
        let ghost hh = high_ace_straight(s);
        let sg0 = suit_groups[0];
        let rg0 = rank_groups[0];
        let has_straight = match &straight_test_result {
            Some(_) => true,
            None => false,
        };
        proof {
            assert(has_straight == hs);
        }
        if sg0.1 == 5 && rg0.1 == 5 {
            let ranks = vec![rg0.0; 5];
            proof {
                lemma_hand_flush_five(s, ss, sg, rg, hs, hh);
                assert(ranks@ =~= spec_scored_ranks(s));
            }
            return Ok((Some(ScoringHand::FlushFive), ranks));
        }
        if rank_groups.len() >= 2 && sg0.1 == 5 && rg0.1 == 3 && rank_groups[1].1 == 2 {
            let rg1 = rank_groups[1];
            let mut played_ranks = vec![rg0.0; 3];
            let mut second_ranks = vec![rg1.0; 2];
            played_ranks.append(&mut second_ranks);
            proof {
                lemma_hand_flush_house(s, ss, sg, rg, hs, hh);
                lemma_scored_full_house_shape(s, ss, rg);
                assert(played_ranks@ =~= spec_scored_ranks(s));
            }
            return Ok((Some(ScoringHand::FlushHouse), played_ranks));
        }
        if rg0.1 == 5 {
            let ranks = vec![rg0.0; 5];
            proof {
                lemma_hand_five_of_a_kind(s, ss, sg, rg, hs, hh);
                assert(ranks@ =~= spec_scored_ranks(s));
            }
            return Ok((Some(ScoringHand::FiveOfAKind), ranks));
        }
        if sg0.1 == 5 && has_straight {
            match &straight_test_result {
                Some(result) => {
                    let scored = result.scored_ranks.clone();
                    let is_royal = match result.high_ace {
                        Some(true) => true,
                        _ => false,
                    };
                    proof {
                        assert(is_royal == hh);
                        assert(scored@ == ranks_of(ss));
                        assert(scored@ == sorted_ranks(s));
                    }
                    if is_royal {
                        proof {
                            lemma_hand_royal_flush(s, ss, sg, rg, hs, hh);
                        }
                        return Ok((Some(ScoringHand::RoyalFlush), scored));
                    } else {
                        proof {
                            lemma_hand_straight_flush(s, ss, sg, rg, hs, hh);
                        }
                        return Ok((Some(ScoringHand::StraightFlush), scored));
                    }
                },
                None => {
                    proof {
                        assert(false);
                    }
                    return Ok((None, Vec::new()));
                },
            }
        }
        if rg0.1 == 4 {
            let ranks = vec![rg0.0; 4];
            proof {
                lemma_hand_four_of_a_kind(s, ss, sg, rg, hs, hh);
                assert(ranks@ =~= spec_scored_ranks(s));
            }
            return Ok((Some(ScoringHand::FourOfAKind), ranks));
        }
        if rank_groups.len() >= 2 && rg0.1 == 3 && rank_groups[1].1 == 2 {
            let rg1 = rank_groups[1];
            let mut played_ranks = vec![rg0.0; 3];
            let mut second_ranks = vec![rg1.0; 2];
            played_ranks.append(&mut second_ranks);
            proof {
                lemma_hand_full_house(s, ss, sg, rg, hs, hh);
                lemma_scored_full_house_shape(s, ss, rg);
                assert(played_ranks@ =~= spec_scored_ranks(s));
            }
            return Ok((Some(ScoringHand::FullHouse), played_ranks));
        }
        if sg0.1 == 5 {
            let mut flush_ranks: Vec<Rank> = Vec::new();
            let mut n: usize = 0;
            while n < cards.len()
                invariant
                    0 <= n <= cards@.len(),
                    flush_ranks@.len() == n,
                    forall|i: int| 0 <= i < n ==> #[trigger] flush_ranks@[i] == cards@[i].rank,
                decreases cards@.len() - n,
            {
                let rk = cards[n].rank;
                flush_ranks.push(rk);
                n = n + 1;
            }
            proof {
                lemma_hand_flush(s, ss, sg, rg, hs, hh);
                assert(flush_ranks@ =~= ranks_of(s));
                assert(flush_ranks@ == spec_scored_ranks(s));
            }
            return Ok((Some(ScoringHand::Flush), flush_ranks));
        }
        if has_straight {
            match &straight_test_result {
                Some(result) => {
                    let scored = result.scored_ranks.clone();
                    proof {
                        lemma_hand_straight(s, ss, sg, rg, hs, hh);
                        assert(scored@ == ranks_of(ss));
                        assert(scored@ == sorted_ranks(s));
                    }
                    return Ok((Some(ScoringHand::Straight), scored));
                },
                None => {
                    proof {
                        assert(false);
                    }
                    return Ok((None, Vec::new()));
                },
            }
        }
        if rg0.1 == 3 {
            let ranks = vec![rg0.0; 3];
            proof {
                lemma_hand_three_of_a_kind(s, ss, sg, rg, hs, hh);
                assert(ranks@ =~= spec_scored_ranks(s));
            }
            return Ok((Some(ScoringHand::ThreeOfAKind), ranks));
        }
        if rank_groups.len() >= 2 && rg0.1 == 2 && rank_groups[1].1 == 2 {
            let rg1 = rank_groups[1];
            let mut played_ranks = vec![rg0.0; 2];
            let mut second_ranks = vec![rg1.0; 2];
            played_ranks.append(&mut second_ranks);
            proof {
                lemma_hand_two_pair(s, ss, sg, rg, hs, hh);
                lemma_scored_two_pair_shape(s, ss, rg);
                assert(played_ranks@ =~= spec_scored_ranks(s));
            }
            return Ok((Some(ScoringHand::TwoPair), played_ranks));
        }
        if rg0.1 == 2 {
            let ranks = vec![rg0.0; 2];
            proof {
                lemma_hand_pair(s, ss, sg, rg, hs, hh);
                assert(ranks@ =~= spec_scored_ranks(s));
            }
            return Ok((Some(ScoringHand::Pair), ranks));
        }
        let ranks = vec![rg0.0; rg0.1];
        proof {
            lemma_hand_high_card(s, ss, sg, rg, hs, hh);
            assert(ranks@ =~= spec_scored_ranks(s));
        }
        Ok((Some(ScoringHand::HighCard), ranks))
    }

    /// Returns the total chip score of the given ranks, or an overflow
    /// error when their sum does not fit the machine word.
    pub fn score_chips_from_ranks(ranks: &Vec<Rank>) -> (r: Result<usize, ScorerError>)
        ensures
            match r {
                Ok(c) => c == rank_score_sum(ranks@) && rank_score_sum(ranks@) <= usize::MAX,
                Err(e) => e == ScorerError::ArithmeticError(ArithmeticError::Overflow)
                    && rank_score_sum(ranks@) > usize::MAX,
            },
    {
        let mut acc: usize = 0;
        let mut n: usize = 0;
        proof {
            assert(ranks@.take(0) =~= Seq::<Rank>::empty());
        }
        while n < ranks.len()
            invariant
                0 <= n <= ranks@.len(),
                acc == rank_score_sum(ranks@.take(n as int)),
            decreases ranks@.len() - n,
        {
            let sc = ranks[n].get_score();
            proof {
                lemma_rank_score_sum_take_step(ranks@, n as int);
            }
            acc = match acc.checked_add(sc) {
                Some(a) => a,
                None => {
                    proof {
                        lemma_rank_score_sum_prefix(ranks@, n as int + 1);
                    }
                    return Err(ScorerError::ArithmeticError(ArithmeticError::Overflow));
                },
            };
            n = n + 1;
        }
        proof {
            assert(ranks@.take(ranks@.len() as int) =~= ranks@);
        }
        Ok(acc)
    }

    /// Scores the played cards: classifies them, adds the scored ranks'
    /// chips to the hand's base chips, and applies the multiplier.  Fails
    /// on an empty hand, or when the arithmetic overflows the machine
    /// word.
    pub fn score_cards(cards: &Vec<Card>) -> (r: Result<usize, ScorerError>)
        ensures
            match r {
                Ok(v) => cards@.len() > 0 && spec_chip_total(cards@) <= usize::MAX
                    && spec_score(cards@) <= usize::MAX && v == spec_score(cards@),
                Err(e) => {
                    ||| (cards@.len() == 0 && e == ScorerError::EmptyHandScoredError)
                    ||| (cards@.len() > 0 && e == ScorerError::ArithmeticError(
                        ArithmeticError::Overflow,
                    ) && (spec_chip_total(cards@) > usize::MAX || spec_score(cards@)
                        > usize::MAX))
                },
            },
    {
        let ghost s = cards@;
        let pair = match Scorer::get_scoring_hand(cards) {
            Ok(p) => p,
            Err(_) => {
                proof {
                    assert(false);
                }
                return Err(ScorerError::EmptyHandScoredError);
            },
        };
        let (scoring_hand_opt, scored_ranks) = pair;
        let scoring_hand = match scoring_hand_opt {
            Some(h) => h,
            None => {
                proof {
                    lemma_classify_none_iff(s);
                }
                return Err(ScorerError::EmptyHandScoredError);
            },
        };
        proof {
            lemma_classify_none_iff(s);
        }
        let (base_chips, multiplier) = Scorer::get_chips_and_multiplier(scoring_hand);
        let chips_increment = match Scorer::score_chips_from_ranks(&scored_ranks) {
            Ok(c) => c,
            Err(e) => {
                proof {
                    assert(spec_chip_total(s) > usize::MAX);
                }
                return Err(e);
            },
        };
        let chips = match base_chips.checked_add(chips_increment) {
            Some(c) => c,
            None => {
                proof {
                    assert(spec_chip_total(s) > usize::MAX);
                }
                return Err(ScorerError::ArithmeticError(ArithmeticError::Overflow));
            },
        };
        match chips.checked_mul(multiplier) {
            Some(v) => {
                proof {
                    assert(v == spec_score(s));
                }
                Ok(v)
            },
            None => {
                proof {
                    assert(spec_score(s) > usize::MAX);
                }
                Err(ScorerError::ArithmeticError(ArithmeticError::Overflow))
            },
        }
    }
}

} // verus!
