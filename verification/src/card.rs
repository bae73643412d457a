//! The card model: suits, ranks, cards, and the sorting and grouping
//! primitives that hand classification builds on.

use vstd::prelude::*;
use vstd::relations::sorted_by;
use vstd::multiset::Multiset;
use vstd::seq_lib::*;
use vstd::string::StrSliceExecFns;

use core::str::FromStr;
use unicode_segmentation::UnicodeSegmentation;

use crate::error::CoreError;

verus! {

/// The suit of a card.
///
/// The declaration order is the fixed total order used as a tie-break when
/// sorting: clubs before diamonds before hearts before spades.
#[derive(Clone, Copy, Debug, PartialEq, Eq, Structural, Hash, PartialOrd, Ord)]
pub enum Suit {
    /// Club suit (♣ / C)
    Club,
    /// Diamond suit (♦ / D)
    Diamond,
    /// Heart suit (♥ / H)
    Heart,
    /// Spade suit (♠ / S)
    Spade,
}

/// The rank of a card.
///
/// The declaration order is the gameplay order: `Two` is the lowest rank and
/// `Ace` is the highest, strictly above `King`.  The derived comparison
/// therefore sorts hands "high" with the ace on top.  Straight detection
/// separately allows the ace to act as the rank below `Two`.
#[derive(Clone, Copy, Debug, PartialEq, Eq, Structural, Hash, PartialOrd, Ord)]
pub enum Rank {
    /// Two rank (2)
    Two,
    /// Three rank (3)
    Three,
    /// Four rank (4)
    Four,
    /// Five rank (5)
    Five,
    /// Six rank (6)
    Six,
    /// Seven rank (7)
    Seven,
    /// Eight rank (8)
    Eight,
    /// Nine rank (9)
    Nine,
    /// Ten rank (10)
    Ten,
    /// Jack rank (J / 11)
    Jack,
    /// Queen rank (Q / 12)
    Queen,
    /// King rank (K / 13)
    King,
    /// Ace rank (A / 1); the highest rank in gameplay order.
    Ace,
}

/// The ordinal of a rank: the index used in its numeral form, with the ace
/// at 1 and the king at 13.
pub open spec fn rank_ordinal(r: Rank) -> int {
    match r {
        Rank::Ace => 1,
        Rank::Two => 2,
        Rank::Three => 3,
        Rank::Four => 4,
        Rank::Five => 5,
        Rank::Six => 6,
        Rank::Seven => 7,
        Rank::Eight => 8,
        Rank::Nine => 9,
        Rank::Ten => 10,
        Rank::Jack => 11,
        Rank::Queen => 12,
        Rank::King => 13,
    }
}

/// The gameplay order of a rank: twos through kings in ordinal order, the
/// ace strictly above the king.
pub open spec fn rank_value(r: Rank) -> int {
    if r == Rank::Ace {
        14
    } else {
        rank_ordinal(r)
    }
}

/// The chip score of a rank: twos through tens score their face value, the
/// ace and the face cards score 10.
pub open spec fn rank_score(r: Rank) -> int {
    if rank_ordinal(r) >= 10 || r == Rank::Ace {
        10
    } else {
        rank_ordinal(r)
    }
}

/// The position of a suit in the fixed suit order.
pub open spec fn suit_index(s: Suit) -> int {
    match s {
        Suit::Club => 0,
        Suit::Diamond => 1,
        Suit::Heart => 2,
        Suit::Spade => 3,
    }
}

impl Rank {
    /// Returns the chip score for this rank, used when scoring a hand.
    pub fn get_score(&self) -> (score: usize)
        ensures
            score == rank_score(*self),
    {
        match *self {
            Rank::Two => 2,
            Rank::Three => 3,
            Rank::Four => 4,
            Rank::Five => 5,
            Rank::Six => 6,
            Rank::Seven => 7,
            Rank::Eight => 8,
            Rank::Nine => 9,
            _ => 10,
        }
    }

    /// Returns the ordinal of this rank, with the ace at 1 and the king
    /// at 13.
    pub fn ordinal(&self) -> (o: usize)
        ensures
            o == rank_ordinal(*self),
    {
        match *self {
            Rank::Ace => 1,
            Rank::Two => 2,
            Rank::Three => 3,
            Rank::Four => 4,
            Rank::Five => 5,
            Rank::Six => 6,
            Rank::Seven => 7,
            Rank::Eight => 8,
            Rank::Nine => 9,
            Rank::Ten => 10,
            Rank::Jack => 11,
            Rank::Queen => 12,
            Rank::King => 13,
        }
    }

    /// Returns the gameplay order of this rank, the ace counting above the
    /// king.
    pub fn value(&self) -> (v: usize)
        ensures
            v == rank_value(*self),
    {
        if *self == Rank::Ace {
            14
        } else {
            self.ordinal()
        }
    }
}

impl Suit {
    /// Returns the position of this suit in the fixed suit order.
    pub fn index(&self) -> (i: usize)
        ensures
            i == suit_index(*self),
    {
        match *self {
            Suit::Club => 0,
            Suit::Diamond => 1,
            Suit::Heart => 2,
            Suit::Spade => 3,
        }
    }
}

/// The position of a card in the rank-first sort: descending rank in
/// gameplay order, then ascending suit.  The key is injective, so cards with
/// equal keys are equal.
pub open spec fn rank_sort_key(c: Card) -> int {
    (14 - rank_value(c.rank)) * 4 + suit_index(c.suit)
}

/// The position of a card in the suit-first sort: ascending suit, then
/// descending rank in gameplay order.  The key is injective.
pub open spec fn suit_sort_key(c: Card) -> int {
    suit_index(c.suit) * 16 + (14 - rank_value(c.rank))
}

/// The total order of the rank-first sort.
pub open spec fn card_rank_le(a: Card, b: Card) -> bool {
    rank_sort_key(a) <= rank_sort_key(b)
}

/// The total order of the suit-first sort.
pub open spec fn card_suit_le(a: Card, b: Card) -> bool {
    suit_sort_key(a) <= suit_sort_key(b)
}

/// The rank-first order as a closure, for use with `Seq::sort_by`.
pub open spec fn card_rank_le_fn() -> spec_fn(Card, Card) -> bool {
    |a: Card, b: Card| card_rank_le(a, b)
}

/// The suit-first order as a closure, for use with `Seq::sort_by`.
pub open spec fn card_suit_le_fn() -> spec_fn(Card, Card) -> bool {
    |a: Card, b: Card| card_suit_le(a, b)
}

/// The rank-first order is a total order: cards with equal sort keys have
/// equal rank value and suit index, hence are equal.
pub proof fn lemma_card_rank_le_total()
    ensures
        vstd::relations::total_ordering(card_rank_le_fn()),
{
    let leq = card_rank_le_fn();
    assert forall|a: Card, b: Card| #[trigger] leq(a, b) && #[trigger] leq(b, a) implies a == b by {
        assert(rank_sort_key(a) == rank_sort_key(b));
        assert(rank_value(a.rank) == rank_value(b.rank) && suit_index(a.suit) == suit_index(b.suit));
    }
}

/// The suit-first order is a total order.
pub proof fn lemma_card_suit_le_total()
    ensures
        vstd::relations::total_ordering(card_suit_le_fn()),
{
    let leq = card_suit_le_fn();
    assert forall|a: Card, b: Card| #[trigger] leq(a, b) && #[trigger] leq(b, a) implies a == b by {
        assert(suit_sort_key(a) == suit_sort_key(b));
        assert(rank_value(a.rank) == rank_value(b.rank) && suit_index(a.suit) == suit_index(b.suit));
    }
}

/// A card: an immutable pair of a rank and a suit.
///
/// Cards are cheap value types, copied freely and never mutated in place.
/// The derived ordering is structural: rank first (in gameplay order), then
/// suit.
#[derive(Clone, Copy, Debug, PartialEq, Eq, Structural, Hash, PartialOrd, Ord)]
pub struct Card {
    /// Rank of the card.
    pub rank: Rank,
    /// Suit of the card.
    pub suit: Suit,
}

/// The rank that a given ordinal (1 for the ace through 13 for the king)
/// denotes.
pub open spec fn rank_of_ordinal(o: int) -> Rank {
    if o == 1 {
        Rank::Ace
    } else if o == 2 {
        Rank::Two
    } else if o == 3 {
        Rank::Three
    } else if o == 4 {
        Rank::Four
    } else if o == 5 {
        Rank::Five
    } else if o == 6 {
        Rank::Six
    } else if o == 7 {
        Rank::Seven
    } else if o == 8 {
        Rank::Eight
    } else if o == 9 {
        Rank::Nine
    } else if o == 10 {
        Rank::Ten
    } else if o == 11 {
        Rank::Jack
    } else if o == 12 {
        Rank::Queen
    } else {
        Rank::King
    }
}

/// The suit that a given position (0 through 3) in the fixed suit order
/// denotes.
pub open spec fn suit_of_index(i: int) -> Suit {
    if i == 0 {
        Suit::Club
    } else if i == 1 {
        Suit::Diamond
    } else if i == 2 {
        Suit::Heart
    } else {
        Suit::Spade
    }
}

impl Rank {
    /// Returns the rank denoted by an ordinal between 1 (ace) and 13 (king).
    pub fn from_ordinal(o: usize) -> (r: Rank)
        requires
            1 <= o <= 13,
        ensures
            r == rank_of_ordinal(o as int),
    {
        if o == 1 {
            Rank::Ace
        } else if o == 2 {
            Rank::Two
        } else if o == 3 {
            Rank::Three
        } else if o == 4 {
            Rank::Four
        } else if o == 5 {
            Rank::Five
        } else if o == 6 {
            Rank::Six
        } else if o == 7 {
            Rank::Seven
        } else if o == 8 {
            Rank::Eight
        } else if o == 9 {
            Rank::Nine
        } else if o == 10 {
            Rank::Ten
        } else if o == 11 {
            Rank::Jack
        } else if o == 12 {
            Rank::Queen
        } else {
            Rank::King
        }
    }
}

impl Suit {
    /// Returns the suit at a given position (0 through 3) of the fixed suit
    /// order.
    pub fn from_index(i: usize) -> (s: Suit)
        requires
            0 <= i <= 3,
        ensures
            s == suit_of_index(i as int),
    {
        if i == 0 {
            Suit::Club
        } else if i == 1 {
            Suit::Diamond
        } else if i == 2 {
            Suit::Heart
        } else {
            Suit::Spade
        }
    }
}

/// The predicate selecting cards of a given rank.
pub open spec fn rank_pred(r: Rank) -> spec_fn(Card) -> bool {
    |c: Card| c.rank == r
}

/// The predicate selecting cards of a given suit.
pub open spec fn suit_pred(su: Suit) -> spec_fn(Card) -> bool {
    |c: Card| c.suit == su
}

/// How many cards of a sequence carry the given rank.
pub open spec fn count_rank(s: Seq<Card>, r: Rank) -> nat {
    s.filter(rank_pred(r)).len()
}

/// How many cards of a sequence carry the given suit.
pub open spec fn count_suit(s: Seq<Card>, su: Suit) -> nat {
    s.filter(suit_pred(su)).len()
}

/// Whether any card of the sequence carries the given rank.
pub open spec fn has_rank(s: Seq<Card>, r: Rank) -> bool {
    count_rank(s, r) > 0
}

/// The ranks of the cards, in the same order.
pub open spec fn ranks_of(s: Seq<Card>) -> Seq<Rank> {
    s.map_values(|c: Card| c.rank)
}

/// Whether any card of the sequence carries the given suit.
pub open spec fn has_suit(s: Seq<Card>, su: Suit) -> bool {
    count_suit(s, su) > 0
}

/// Whether `i` is the least index of a card carrying the given rank.
pub open spec fn is_first_rank_occurrence(s: Seq<Card>, r: Rank, i: int) -> bool {
    &&& 0 <= i < s.len()
    &&& s[i].rank == r
    &&& forall|j: int| 0 <= j < i ==> (#[trigger] s[j]).rank != r
}

/// Whether `i` is the least index of a card carrying the given suit.
pub open spec fn is_first_suit_occurrence(s: Seq<Card>, su: Suit, i: int) -> bool {
    &&& 0 <= i < s.len()
    &&& s[i].suit == su
    &&& forall|j: int| 0 <= j < i ==> (#[trigger] s[j]).suit != su
}

/// The least index of a card carrying the given rank; meaningful only when
/// the rank is present.
pub open spec fn first_rank_index(s: Seq<Card>, r: Rank) -> int {
    choose|i: int| is_first_rank_occurrence(s, r, i)
}

/// The least index of a card carrying the given suit; meaningful only when
/// the suit is present.
pub open spec fn first_suit_index(s: Seq<Card>, su: Suit) -> int {
    choose|i: int| is_first_suit_occurrence(s, su, i)
}

/// The order in which rank groups are reported: larger groups first, groups
/// of equal size in order of first occurrence.
pub open spec fn rank_group_before(s: Seq<Card>, a: Rank, b: Rank) -> bool {
    ||| count_rank(s, a) > count_rank(s, b)
    ||| (count_rank(s, a) == count_rank(s, b) && first_rank_index(s, a) < first_rank_index(s, b))
}

/// The order in which suit groups are reported: larger groups first, groups
/// of equal size in order of first occurrence.
pub open spec fn suit_group_before(s: Seq<Card>, a: Suit, b: Suit) -> bool {
    ||| count_suit(s, a) > count_suit(s, b)
    ||| (count_suit(s, a) == count_suit(s, b) && first_suit_index(s, a) < first_suit_index(s, b))
}

/// What `grouped_by_rank` returns: every present rank exactly once with its
/// count, larger groups first, ties in order of first occurrence.  These
/// clauses determine the sequence uniquely.
pub open spec fn rank_groups_ok(s: Seq<Card>, g: Seq<(Rank, usize)>) -> bool {
    &&& forall|k: int|
        0 <= k < g.len() ==> count_rank(s, (#[trigger] g[k]).0) == g[k].1 && g[k].1 > 0
    &&& forall|r: Rank| #[trigger] has_rank(s, r) ==> exists|k: int| 0 <= k < g.len() && (#[trigger] g[k]).0 == r
    &&& forall|k1: int, k2: int|
        0 <= k1 < k2 < g.len() ==> rank_group_before(s, (#[trigger] g[k1]).0, (#[trigger] g[k2]).0)
}

/// What `grouped_by_suit` returns, in the same shape as `rank_groups_ok`.
pub open spec fn suit_groups_ok(s: Seq<Card>, g: Seq<(Suit, usize)>) -> bool {
    &&& forall|k: int|
        0 <= k < g.len() ==> count_suit(s, (#[trigger] g[k]).0) == g[k].1 && g[k].1 > 0
    &&& forall|su: Suit| #[trigger] has_suit(s, su) ==> exists|k: int| 0 <= k < g.len() && (#[trigger] g[k]).0 == su
    &&& forall|k1: int, k2: int|
        0 <= k1 < k2 < g.len() ==> suit_group_before(s, (#[trigger] g[k1]).0, (#[trigger] g[k2]).0)
}

/// Counting a rank over one more card adds one exactly when that card
/// carries the rank; the same holds for suits.
pub proof fn lemma_count_take_step(s: Seq<Card>, n: int)
    requires
        0 <= n < s.len(),
    ensures
        forall|r: Rank|
            #[trigger] count_rank(s.take(n + 1), r) == count_rank(s.take(n), r) + (if s[n].rank == r {
                1int
            } else {
                0int
            }),
        forall|su: Suit|
            #[trigger] count_suit(s.take(n + 1), su) == count_suit(s.take(n), su) + (if s[n].suit
                == su {
                1int
            } else {
                0int
            }),
{
    assert(s.take(n + 1).drop_last() =~= s.take(n));
    assert(s.take(n + 1).last() == s[n]);
    assert forall|r: Rank|
        #[trigger] count_rank(s.take(n + 1), r) == count_rank(s.take(n), r) + (if s[n].rank == r {
            1int
        } else {
            0int
        }) by {
        reveal_with_fuel(Seq::filter, 2);
    }
    assert forall|su: Suit|
        #[trigger] count_suit(s.take(n + 1), su) == count_suit(s.take(n), su) + (if s[n].suit == su {
            1int
        } else {
            0int
        }) by {
        reveal_with_fuel(Seq::filter, 2);
    }
}

/// The rank of any card of the hand is present in the hand.
pub proof fn lemma_rank_at_index_present(s: Seq<Card>, i: int)
    requires
        0 <= i < s.len(),
    ensures
        has_rank(s, s[i].rank),
    decreases s.len(),
{
    reveal_with_fuel(Seq::filter, 2);
    if i < s.len() - 1 {
        lemma_rank_at_index_present(s.drop_last(), i);
    }
}

/// The suit of any card of the hand is present in the hand.
pub proof fn lemma_suit_at_index_present(s: Seq<Card>, i: int)
    requires
        0 <= i < s.len(),
    ensures
        has_suit(s, s[i].suit),
    decreases s.len(),
{
    reveal_with_fuel(Seq::filter, 2);
    if i < s.len() - 1 {
        lemma_suit_at_index_present(s.drop_last(), i);
    }
}

/// A present rank occurs at some index; a present suit does too.
pub proof fn lemma_present_rank_has_index(s: Seq<Card>, r: Rank)
    requires
        has_rank(s, r),
    ensures
        exists|i: int| 0 <= i < s.len() && (#[trigger] s[i]).rank == r,
    decreases s.len(),
{
    reveal_with_fuel(Seq::filter, 2);
    if s.len() > 0 {
        if s.last().rank == r {
            assert(s[s.len() - 1].rank == r);
        } else {
            lemma_present_rank_has_index(s.drop_last(), r);
            let i = choose|i: int| 0 <= i < s.drop_last().len() && (#[trigger] s.drop_last()[i]).rank == r;
            assert(s[i].rank == r);
        }
    }
}

/// A present suit occurs at some index.
pub proof fn lemma_present_suit_has_index(s: Seq<Card>, su: Suit)
    requires
        has_suit(s, su),
    ensures
        exists|i: int| 0 <= i < s.len() && (#[trigger] s[i]).suit == su,
    decreases s.len(),
{
    reveal_with_fuel(Seq::filter, 2);
    if s.len() > 0 {
        if s.last().suit == su {
            assert(s[s.len() - 1].suit == su);
        } else {
            lemma_present_suit_has_index(s.drop_last(), su);
            let i = choose|i: int| 0 <= i < s.drop_last().len() && (#[trigger] s.drop_last()[i]).suit == su;
            assert(s[i].suit == su);
        }
    }
}

/// A present rank has a first occurrence, and `first_rank_index` denotes
/// it.
pub proof fn lemma_first_rank_exists(s: Seq<Card>, r: Rank)
    requires
        has_rank(s, r),
    ensures
        is_first_rank_occurrence(s, r, first_rank_index(s, r)),
    decreases s.len(),
{
    reveal_with_fuel(Seq::filter, 2);
    assert(s.len() > 0);
    let q = s.drop_last();
    assert(count_rank(s, r) == count_rank(q, r) + (if s.last().rank == r {
        1int
    } else {
        0int
    }));
    if count_rank(q, r) > 0 {
        lemma_first_rank_exists(q, r);
        let i = first_rank_index(q, r);
        assert(s[i] == q[i]);
        assert forall|j: int| 0 <= j < i implies (#[trigger] s[j]).rank != r by {
            assert(s[j] == q[j]);
        }
        assert(is_first_rank_occurrence(s, r, i));
    } else {
        assert(s.last().rank == r);
        assert forall|j: int| 0 <= j < s.len() - 1 implies (#[trigger] s[j]).rank != r by {
            if s[j].rank == r {
                assert(q[j].rank == r);
                lemma_rank_at_index_present(q, j);
            }
        }
        assert(is_first_rank_occurrence(s, r, s.len() - 1));
    }
    assert(exists|i: int| is_first_rank_occurrence(s, r, i));
    let w = first_rank_index(s, r);
    assert(is_first_rank_occurrence(s, r, w));
}

/// `first_rank_index` is the index witnessed by any minimal occurrence.
pub proof fn lemma_first_rank_index(s: Seq<Card>, r: Rank, i: int)
    requires
        is_first_rank_occurrence(s, r, i),
    ensures
        first_rank_index(s, r) == i,
{
    assert(exists|i2: int| is_first_rank_occurrence(s, r, i2));
    let w = first_rank_index(s, r);
    assert(is_first_rank_occurrence(s, r, w));
    if w < i {
        assert(s[w].rank != r);
    }
    if i < w {
        assert(s[i].rank != r);
    }
}

/// `first_suit_index` is the index witnessed by any minimal occurrence.
pub proof fn lemma_first_suit_index(s: Seq<Card>, su: Suit, i: int)
    requires
        is_first_suit_occurrence(s, su, i),
    ensures
        first_suit_index(s, su) == i,
{
    assert(exists|i2: int| is_first_suit_occurrence(s, su, i2));
    let w = first_suit_index(s, su);
    assert(is_first_suit_occurrence(s, su, w));
    if w < i {
        assert(s[w].suit != su);
    }
    if i < w {
        assert(s[i].suit != su);
    }
}

/// Counts how many cards of the slice carry the given rank.
pub fn count_cards_of_rank(cards: &Vec<Card>, r: Rank) -> (c: usize)
    ensures
        c == count_rank(cards@, r),
{
    let mut c: usize = 0;
    let mut n: usize = 0;
    proof {
        assert(cards@.take(0) =~= Seq::<Card>::empty());
        reveal_with_fuel(Seq::filter, 2);
    }
    while n < cards.len()
        invariant
            0 <= n <= cards@.len(),
            c <= n,
            c == count_rank(cards@.take(n as int), r),
        decreases cards@.len() - n,
    {
        proof {
            lemma_count_take_step(cards@, n as int);
        }
        if cards[n].rank == r {
            c = c + 1;
        }
        n = n + 1;
    }
    proof {
        assert(cards@.take(cards@.len() as int) =~= cards@);
    }
    c
}

/// Counts how many cards of the slice carry the given suit.
pub fn count_cards_of_suit(cards: &Vec<Card>, su: Suit) -> (c: usize)
    ensures
        c == count_suit(cards@, su),
{
    let mut c: usize = 0;
    let mut n: usize = 0;
    proof {
        assert(cards@.take(0) =~= Seq::<Card>::empty());
        reveal_with_fuel(Seq::filter, 2);
    }
    while n < cards.len()
        invariant
            0 <= n <= cards@.len(),
            c <= n,
            c == count_suit(cards@.take(n as int), su),
        decreases cards@.len() - n,
    {
        proof {
            lemma_count_take_step(cards@, n as int);
        }
        if cards[n].suit == su {
            c = c + 1;
        }
        n = n + 1;
    }
    proof {
        assert(cards@.take(cards@.len() as int) =~= cards@);
    }
    c
}

/// Finds the least index of a card carrying the given rank.
fn find_first_rank_index(cards: &Vec<Card>, r: Rank) -> (f: usize)
    requires
        has_rank(cards@, r),
    ensures
        is_first_rank_occurrence(cards@, r, f as int),
{
    let mut n: usize = 0;
    while n < cards.len()
        invariant
            0 <= n <= cards@.len(),
            forall|j: int| 0 <= j < n ==> (#[trigger] cards@[j]).rank != r,
        decreases cards@.len() - n,
    {
        if cards[n].rank == r {
            return n;
        }
        n = n + 1;
    }
    proof {
        lemma_present_rank_has_index(cards@, r);
    }
    0
}

/// Finds the least index of a card carrying the given suit.
fn find_first_suit_index(cards: &Vec<Card>, su: Suit) -> (f: usize)
    requires
        has_suit(cards@, su),
    ensures
        is_first_suit_occurrence(cards@, su, f as int),
{
    let mut n: usize = 0;
    while n < cards.len()
        invariant
            0 <= n <= cards@.len(),
            forall|j: int| 0 <= j < n ==> (#[trigger] cards@[j]).suit != su,
        decreases cards@.len() - n,
    {
        if cards[n].suit == su {
            return n;
        }
        n = n + 1;
    }
    proof {
        lemma_present_suit_has_index(cards@, su);
    }
    0
}

/// The rank-first sort key, executable form.
fn rank_key(c: &Card) -> (k: usize)
    ensures
        k == rank_sort_key(*c),
{
    (14 - c.rank.value()) * 4 + c.suit.index()
}

/// The suit-first sort key, executable form.
fn suit_key(c: &Card) -> (k: usize)
    ensures
        k == suit_sort_key(*c),
{
    c.suit.index() * 16 + (14 - c.rank.value())
}

/// In-place insertion sort of the cards by the rank-first order.
fn insertion_sort_by_rank(v: &mut Vec<Card>)
    ensures
        final(v)@ == old(v)@.sort_by(card_rank_le_fn()),
{
    let ghost orig = v@;
    let ghost leq = card_rank_le_fn();
    let mut i: usize = 1;
    while i < v.len()
        invariant
            1 <= i,
            v@.len() == orig.len(),
            v@.to_multiset() == orig.to_multiset(),
            forall|a: int, b: int|
                0 <= a < b < i && b < v@.len() ==> card_rank_le(#[trigger] v@[a], #[trigger] v@[b]),
        decreases v@.len() - i,
    {
        let mut j: usize = i;
        while j > 0 && rank_key(&v[j]) < rank_key(&v[j - 1])
            invariant
                0 <= j <= i < v@.len(),
                v@.len() == orig.len(),
                v@.to_multiset() == orig.to_multiset(),
                forall|a: int, b: int|
                    0 <= a < b <= i && b != j ==> card_rank_le(
                        #[trigger] v@[a],
                        #[trigger] v@[b],
                    ),
            decreases j,
        {
            let ghost before = v@;
            let x = v[j - 1];
            let y = v[j];
            v[j - 1] = y;
            v[j] = x;
            proof {
                broadcast use vstd::seq_lib::group_to_multiset_ensures;
                broadcast use vstd::seq_lib::to_multiset_update;
                broadcast use vstd::multiset::group_multiset_axioms;

                let v1 = before.update(j as int - 1, y);
                let v2 = v1.update(j as int, x);
                assert(v@ == v2);
                assert(before.contains(x) && before.contains(y));
                assert(before.to_multiset().count(x) > 0 && before.to_multiset().count(y) > 0);
                assert(v1.to_multiset() =~= before.to_multiset().insert(y).remove(x));
                assert(v2.to_multiset() =~= v1.to_multiset().insert(x).remove(y));
                assert(v@.to_multiset() =~= before.to_multiset());
            }
            j = j - 1;
        }
        proof {
            assert forall|a: int, b: int| 0 <= a < b <= i implies card_rank_le(
                #[trigger] v@[a],
                #[trigger] v@[b],
            ) by {
                if b == j {
                    if j > 0 {
                        assert(card_rank_le(v@[j as int - 1], v@[j as int]));
                        if a < j - 1 {
                            assert(card_rank_le(v@[a], v@[j as int - 1]));
                        }
                    }
                }
            }
        }
        i = i + 1;
    }
    proof {
        lemma_card_rank_le_total();
        orig.lemma_sort_by_ensures(leq);
        assert(sorted_by(v@, leq));
        lemma_sorted_unique(v@, orig.sort_by(leq), leq);
        assert(v@ == orig.sort_by(leq));
    }
}

/// In-place insertion sort of the cards by the suit-first order.
fn insertion_sort_by_suit(v: &mut Vec<Card>)
    ensures
        final(v)@ == old(v)@.sort_by(card_suit_le_fn()),
{
    let ghost orig = v@;
    let ghost leq = card_suit_le_fn();
    let mut i: usize = 1;
    while i < v.len()
        invariant
            1 <= i,
            v@.len() == orig.len(),
            v@.to_multiset() == orig.to_multiset(),
            forall|a: int, b: int|
                0 <= a < b < i && b < v@.len() ==> card_suit_le(#[trigger] v@[a], #[trigger] v@[b]),
        decreases v@.len() - i,
    {
        let mut j: usize = i;
        while j > 0 && suit_key(&v[j]) < suit_key(&v[j - 1])
            invariant
                0 <= j <= i < v@.len(),
                v@.len() == orig.len(),
                v@.to_multiset() == orig.to_multiset(),
                forall|a: int, b: int|
                    0 <= a < b <= i && b != j ==> card_suit_le(
                        #[trigger] v@[a],
                        #[trigger] v@[b],
                    ),
            decreases j,
        {
            let ghost before = v@;
            let x = v[j - 1];
            let y = v[j];
            v[j - 1] = y;
            v[j] = x;
            proof {
                broadcast use vstd::seq_lib::group_to_multiset_ensures;
                broadcast use vstd::seq_lib::to_multiset_update;
                broadcast use vstd::multiset::group_multiset_axioms;

                let v1 = before.update(j as int - 1, y);
                let v2 = v1.update(j as int, x);
                assert(v@ == v2);
                assert(before.contains(x) && before.contains(y));
                assert(before.to_multiset().count(x) > 0 && before.to_multiset().count(y) > 0);
                assert(v1.to_multiset() =~= before.to_multiset().insert(y).remove(x));
                assert(v2.to_multiset() =~= v1.to_multiset().insert(x).remove(y));
                assert(v@.to_multiset() =~= before.to_multiset());
            }
            j = j - 1;
        }
        proof {
            assert forall|a: int, b: int| 0 <= a < b <= i implies card_suit_le(
                #[trigger] v@[a],
                #[trigger] v@[b],
            ) by {
                if b == j {
                    if j > 0 {
                        assert(card_suit_le(v@[j as int - 1], v@[j as int]));
                        if a < j - 1 {
                            assert(card_suit_le(v@[a], v@[j as int - 1]));
                        }
                    }
                }
            }
        }
        i = i + 1;
    }
    proof {
        lemma_card_suit_le_total();
        orig.lemma_sort_by_ensures(leq);
        assert(sorted_by(v@, leq));
        lemma_sorted_unique(v@, orig.sort_by(leq), leq);
        assert(v@ == orig.sort_by(leq));
    }
}

/// A tally entry while grouping: a key (rank ordinal or suit position), the
/// count of cards with that key, and the least index of such a card.
pub open spec fn group_entry_le(a: (usize, usize, usize), b: (usize, usize, usize)) -> bool {
    ||| a.1 > b.1
    ||| (a.1 == b.1 && a.2 <= b.2)
}

/// The tally-entry order as a closure.
pub open spec fn group_entry_le_fn() -> spec_fn((usize, usize, usize), (usize, usize, usize)) -> bool {
    |a: (usize, usize, usize), b: (usize, usize, usize)| group_entry_le(a, b)
}

/// In-place insertion sort of tally entries: larger counts first, equal
/// counts by ascending first index.
fn sort_group_entries(v: &mut Vec<(usize, usize, usize)>)
    requires
        forall|k1: int, k2: int|
            0 <= k1 < k2 < old(v)@.len() ==> (#[trigger] old(v)@[k1]).2 != (#[trigger] old(v)@[k2]).2,
    ensures
        final(v)@.to_multiset() == old(v)@.to_multiset(),
        final(v)@.len() == old(v)@.len(),
        sorted_by(final(v)@, group_entry_le_fn()),
        forall|k1: int, k2: int|
            0 <= k1 < k2 < final(v)@.len() ==> (#[trigger] final(v)@[k1]).2 != (#[trigger] final(v)@[k2]).2,
{
    let ghost orig = v@;
    let mut i: usize = 1;
    while i < v.len()
        invariant
            1 <= i,
            v@.len() == orig.len(),
            v@.to_multiset() == orig.to_multiset(),
            forall|a: int, b: int|
                0 <= a < b < i && b < v@.len() ==> group_entry_le(
                    #[trigger] v@[a],
                    #[trigger] v@[b],
                ),
            forall|k1: int, k2: int|
                0 <= k1 < k2 < v@.len() ==> (#[trigger] v@[k1]).2 != (#[trigger] v@[k2]).2,
        decreases v@.len() - i,
    {
        let mut j: usize = i;
        while j > 0 && (v[j].1 > v[j - 1].1 || (v[j].1 == v[j - 1].1 && v[j].2 < v[j - 1].2))
            invariant
                0 <= j <= i < v@.len(),
                v@.len() == orig.len(),
                v@.to_multiset() == orig.to_multiset(),
                forall|a: int, b: int|
                    0 <= a < b <= i && b != j ==> group_entry_le(
                        #[trigger] v@[a],
                        #[trigger] v@[b],
                    ),
                forall|k1: int, k2: int|
                    0 <= k1 < k2 < v@.len() ==> (#[trigger] v@[k1]).2 != (#[trigger] v@[k2]).2,
            decreases j,
        {
            let ghost before = v@;
            let x = v[j - 1];
            let y = v[j];
            v[j - 1] = y;
            v[j] = x;
            proof {
                broadcast use vstd::seq_lib::group_to_multiset_ensures;
                broadcast use vstd::seq_lib::to_multiset_update;
                broadcast use vstd::multiset::group_multiset_axioms;

                let v1 = before.update(j as int - 1, y);
                let v2 = v1.update(j as int, x);
                assert(v@ == v2);
                assert(before.contains(x) && before.contains(y));
                assert(before.to_multiset().count(x) > 0 && before.to_multiset().count(y) > 0);
                assert(v1.to_multiset() =~= before.to_multiset().insert(y).remove(x));
                assert(v2.to_multiset() =~= v1.to_multiset().insert(x).remove(y));
                assert(v@.to_multiset() =~= before.to_multiset());
            }
            j = j - 1;
        }
        proof {
            assert forall|a: int, b: int| 0 <= a < b <= i implies group_entry_le(
                #[trigger] v@[a],
                #[trigger] v@[b],
            ) by {
                if b == j {
                    if j > 0 {
                        assert(group_entry_le(v@[j as int - 1], v@[j as int]));
                        if a < j - 1 {
                            assert(group_entry_le(v@[a], v@[j as int - 1]));
                        }
                    }
                }
            }
        }
        i = i + 1;
    }
}

/// Whether a tally entry correctly describes a rank group of `s`: the key
/// is the rank's ordinal, the count is its number of occurrences, and the
/// index is its first occurrence.
pub open spec fn rank_tally_ok(s: Seq<Card>, e: (usize, usize, usize)) -> bool {
    &&& 1 <= e.0 <= 13
    &&& count_rank(s, rank_of_ordinal(e.0 as int)) == e.1
    &&& e.1 > 0
    &&& is_first_rank_occurrence(s, rank_of_ordinal(e.0 as int), e.2 as int)
}

/// Whether a tally entry correctly describes a suit group of `s`.
pub open spec fn suit_tally_ok(s: Seq<Card>, e: (usize, usize, usize)) -> bool {
    &&& 0 <= e.0 <= 3
    &&& count_suit(s, suit_of_index(e.0 as int)) == e.1
    &&& e.1 > 0
    &&& is_first_suit_occurrence(s, suit_of_index(e.0 as int), e.2 as int)
}

/// Groups the cards by rank: every present rank exactly once with its
/// count, larger groups first, ties in order of first occurrence.
pub fn group_cards_by_rank(cards: &Vec<Card>) -> (g: Vec<(Rank, usize)>)
    ensures
        rank_groups_ok(cards@, g@),
{
    let ghost s = cards@;
    let mut tally: Vec<(usize, usize, usize)> = Vec::new();
    let mut o: usize = 1;
    while o <= 13
        invariant
            1 <= o <= 14,
            forall|k: int| 0 <= k < tally@.len() ==> rank_tally_ok(s, #[trigger] tally@[k]),
            forall|r: Rank|
                #[trigger] has_rank(s, r) && rank_ordinal(r) < o ==> exists|k: int|
                    0 <= k < tally@.len() && (#[trigger] tally@[k]).0 == rank_ordinal(r),
            forall|k: int| 0 <= k < tally@.len() ==> (#[trigger] tally@[k]).0 < o,
            forall|k1: int, k2: int|
                0 <= k1 < k2 < tally@.len() ==> (#[trigger] tally@[k1]).0 < (#[trigger] tally@[k2]).0,
            forall|k1: int, k2: int|
                0 <= k1 < k2 < tally@.len() ==> (#[trigger] tally@[k1]).2 != (#[trigger] tally@[k2]).2,
            s == cards@,
        decreases 14 - o,
    {
        let r = Rank::from_ordinal(o);
        let c = count_cards_of_rank(cards, r);
        if c > 0 {
            let f = find_first_rank_index(cards, r);
            let ghost t0 = tally@;
            tally.push((o, c, f));
            proof {
                assert(rank_of_ordinal(o as int) == r);
                assert forall|rr: Rank| #[trigger] has_rank(s, rr) && rank_ordinal(rr) < o + 1
                    implies exists|k: int|
                    0 <= k < tally@.len() && (#[trigger] tally@[k]).0 == rank_ordinal(rr) by {
                    if rank_ordinal(rr) == o {
                        assert(tally@[tally@.len() - 1].0 == rank_ordinal(rr));
                    } else {
                        let k = choose|k: int|
                            0 <= k < t0.len() && (#[trigger] t0[k]).0 == rank_ordinal(rr);
                        assert(tally@[k].0 == rank_ordinal(rr));
                    }
                }
            }
        } else {
            proof {
                assert forall|rr: Rank| #[trigger] has_rank(s, rr) && rank_ordinal(rr) < o + 1
                    implies exists|k: int|
                    0 <= k < tally@.len() && (#[trigger] tally@[k]).0 == rank_ordinal(rr) by {
                    if rank_ordinal(rr) == o {
                        assert(rr == rank_of_ordinal(o as int));
                        assert(count_rank(s, rr) == 0);
                        assert(false);
                    } else {
                        assert(rank_ordinal(rr) < o);
                    }
                }
            }
        }
        o = o + 1;
    }
    let ghost pre_tally = tally@;
    sort_group_entries(&mut tally);
    let ghost sorted_tally = tally@;
    proof {
        broadcast use vstd::seq_lib::group_to_multiset_ensures;
        broadcast use vstd::multiset::group_multiset_axioms;

        assert forall|k: int| 0 <= k < sorted_tally.len() implies rank_tally_ok(
            s,
            #[trigger] sorted_tally[k],
        ) by {
            assert(sorted_tally.contains(sorted_tally[k]));
            assert(sorted_tally.to_multiset().count(sorted_tally[k]) > 0);
            assert(pre_tally.to_multiset().count(sorted_tally[k]) > 0);
            assert(pre_tally.contains(sorted_tally[k]));
            let j = choose|j: int| 0 <= j < pre_tally.len() && pre_tally[j] == sorted_tally[k];
            assert(rank_tally_ok(s, pre_tally[j]));
        }
        assert forall|r: Rank| #[trigger] has_rank(s, r) implies exists|k: int|
            0 <= k < sorted_tally.len() && (#[trigger] sorted_tally[k]).0 == rank_ordinal(r) by {
            let j = choose|j: int|
                0 <= j < pre_tally.len() && (#[trigger] pre_tally[j]).0 == rank_ordinal(r);
            assert(pre_tally.contains(pre_tally[j]));
            assert(pre_tally.to_multiset().count(pre_tally[j]) > 0);
            assert(sorted_tally.to_multiset().count(pre_tally[j]) > 0);
            assert(sorted_tally.contains(pre_tally[j]));
            let k = choose|k: int| 0 <= k < sorted_tally.len() && sorted_tally[k] == pre_tally[j];
            assert(sorted_tally[k].0 == rank_ordinal(r));
        }
    }
    let mut g: Vec<(Rank, usize)> = Vec::new();
    let mut n: usize = 0;
    while n < tally.len()
        invariant
            0 <= n <= tally@.len(),
            tally@ == sorted_tally,
            forall|k: int| 0 <= k < sorted_tally.len() ==> rank_tally_ok(s, #[trigger] sorted_tally[k]),
            g@.len() == n,
            forall|k: int|
                0 <= k < n ==> (#[trigger] g@[k]).0 == rank_of_ordinal(tally@[k].0 as int) && g@[k].1
                    == tally@[k].1,
        decreases tally@.len() - n,
    {
        let e = tally[n];
        g.push((Rank::from_ordinal(e.0), e.1));
        n = n + 1;
    }
    proof {
        lemma_rank_groups_from_tally(s, sorted_tally, g@);
    }
    g
}

/// Groups the cards by suit, in the same shape as `group_cards_by_rank`.
pub fn group_cards_by_suit(cards: &Vec<Card>) -> (g: Vec<(Suit, usize)>)
    ensures
        suit_groups_ok(cards@, g@),
{
    let ghost s = cards@;
    let mut tally: Vec<(usize, usize, usize)> = Vec::new();
    let mut o: usize = 0;
    while o <= 3
        invariant
            0 <= o <= 4,
            forall|k: int| 0 <= k < tally@.len() ==> suit_tally_ok(s, #[trigger] tally@[k]),
            forall|su: Suit|
                #[trigger] has_suit(s, su) && suit_index(su) < o ==> exists|k: int|
                    0 <= k < tally@.len() && (#[trigger] tally@[k]).0 == suit_index(su),
            forall|k: int| 0 <= k < tally@.len() ==> (#[trigger] tally@[k]).0 < o,
            forall|k1: int, k2: int|
                0 <= k1 < k2 < tally@.len() ==> (#[trigger] tally@[k1]).0 < (#[trigger] tally@[k2]).0,
            forall|k1: int, k2: int|
                0 <= k1 < k2 < tally@.len() ==> (#[trigger] tally@[k1]).2 != (#[trigger] tally@[k2]).2,
            s == cards@,
        decreases 4 - o,
    {
        let su = Suit::from_index(o);
        let c = count_cards_of_suit(cards, su);
        if c > 0 {
            let f = find_first_suit_index(cards, su);
            let ghost t0 = tally@;
            tally.push((o, c, f));
            proof {
                assert(suit_of_index(o as int) == su);
                assert forall|ss: Suit| #[trigger] has_suit(s, ss) && suit_index(ss) < o + 1
                    implies exists|k: int|
                    0 <= k < tally@.len() && (#[trigger] tally@[k]).0 == suit_index(ss) by {
                    if suit_index(ss) == o {
                        assert(tally@[tally@.len() - 1].0 == suit_index(ss));
                    } else {
                        let k = choose|k: int|
                            0 <= k < t0.len() && (#[trigger] t0[k]).0 == suit_index(ss);
                        assert(tally@[k].0 == suit_index(ss));
                    }
                }
            }
        } else {
            proof {
                assert forall|ss: Suit| #[trigger] has_suit(s, ss) && suit_index(ss) < o + 1
                    implies exists|k: int|
                    0 <= k < tally@.len() && (#[trigger] tally@[k]).0 == suit_index(ss) by {
                    if suit_index(ss) == o {
                        assert(ss == suit_of_index(o as int));
                        assert(count_suit(s, ss) == 0);
                        assert(false);
                    } else {
                        assert(suit_index(ss) < o);
                    }
                }
            }
        }
        o = o + 1;
    }
    let ghost pre_tally = tally@;
    sort_group_entries(&mut tally);
    let ghost sorted_tally = tally@;
    proof {
        broadcast use vstd::seq_lib::group_to_multiset_ensures;
        broadcast use vstd::multiset::group_multiset_axioms;

        assert forall|k: int| 0 <= k < sorted_tally.len() implies suit_tally_ok(
            s,
            #[trigger] sorted_tally[k],
        ) by {
            assert(sorted_tally.contains(sorted_tally[k]));
            assert(sorted_tally.to_multiset().count(sorted_tally[k]) > 0);
            assert(pre_tally.to_multiset().count(sorted_tally[k]) > 0);
            assert(pre_tally.contains(sorted_tally[k]));
            let j = choose|j: int| 0 <= j < pre_tally.len() && pre_tally[j] == sorted_tally[k];
            assert(suit_tally_ok(s, pre_tally[j]));
        }
        assert forall|su: Suit| #[trigger] has_suit(s, su) implies exists|k: int|
            0 <= k < sorted_tally.len() && (#[trigger] sorted_tally[k]).0 == suit_index(su) by {
            let j = choose|j: int|
                0 <= j < pre_tally.len() && (#[trigger] pre_tally[j]).0 == suit_index(su);
            assert(pre_tally.contains(pre_tally[j]));
            assert(pre_tally.to_multiset().count(pre_tally[j]) > 0);
            assert(sorted_tally.to_multiset().count(pre_tally[j]) > 0);
            assert(sorted_tally.contains(pre_tally[j]));
            let k = choose|k: int| 0 <= k < sorted_tally.len() && sorted_tally[k] == pre_tally[j];
            assert(sorted_tally[k].0 == suit_index(su));
        }
    }
    let mut g: Vec<(Suit, usize)> = Vec::new();
    let mut n: usize = 0;
    while n < tally.len()
        invariant
            0 <= n <= tally@.len(),
            tally@ == sorted_tally,
            forall|k: int| 0 <= k < sorted_tally.len() ==> suit_tally_ok(s, #[trigger] sorted_tally[k]),
            g@.len() == n,
            forall|k: int|
                0 <= k < n ==> (#[trigger] g@[k]).0 == suit_of_index(tally@[k].0 as int) && g@[k].1
                    == tally@[k].1,
        decreases tally@.len() - n,
    {
        let e = tally[n];
        g.push((Suit::from_index(e.0), e.1));
        n = n + 1;
    }
    proof {
        lemma_suit_groups_from_tally(s, sorted_tally, g@);
    }
    g
}

/// A sorted, correct and covering tally yields a grouping that satisfies
/// `rank_groups_ok`.
proof fn lemma_rank_groups_from_tally(s: Seq<Card>, t: Seq<(usize, usize, usize)>, g: Seq<(Rank, usize)>)
    requires
        forall|k: int| 0 <= k < t.len() ==> rank_tally_ok(s, #[trigger] t[k]),
        forall|r: Rank|
            #[trigger] has_rank(s, r) ==> exists|k: int|
                0 <= k < t.len() && (#[trigger] t[k]).0 == rank_ordinal(r),
        sorted_by(t, group_entry_le_fn()),
        forall|k1: int, k2: int|
            0 <= k1 < k2 < t.len() ==> (#[trigger] t[k1]).2 != (#[trigger] t[k2]).2,
        g.len() == t.len(),
        forall|k: int|
            0 <= k < g.len() ==> (#[trigger] g[k]).0 == rank_of_ordinal(t[k].0 as int) && g[k].1
                == t[k].1,
    ensures
        rank_groups_ok(s, g),
{
    assert forall|r: Rank| rank_of_ordinal(rank_ordinal(r)) == r by {}
    assert forall|r: Rank| #[trigger] has_rank(s, r) implies exists|k: int|
        0 <= k < g.len() && (#[trigger] g[k]).0 == r by {
        let k = choose|k: int| 0 <= k < t.len() && (#[trigger] t[k]).0 == rank_ordinal(r);
        assert(g[k].0 == rank_of_ordinal(rank_ordinal(r)));
        assert(g[k].0 == r);
    }
    assert forall|k1: int, k2: int| 0 <= k1 < k2 < g.len() implies rank_group_before(
        s,
        (#[trigger] g[k1]).0,
        (#[trigger] g[k2]).0,
    ) by {
        assert(group_entry_le_fn()(t[k1], t[k2]));
        assert(group_entry_le(t[k1], t[k2]));
        lemma_first_rank_index(s, rank_of_ordinal(t[k1].0 as int), t[k1].2 as int);
        lemma_first_rank_index(s, rank_of_ordinal(t[k2].0 as int), t[k2].2 as int);
    }
}

/// A sorted, correct and covering tally yields a grouping that satisfies
/// `suit_groups_ok`.
proof fn lemma_suit_groups_from_tally(s: Seq<Card>, t: Seq<(usize, usize, usize)>, g: Seq<(Suit, usize)>)
    requires
        forall|k: int| 0 <= k < t.len() ==> suit_tally_ok(s, #[trigger] t[k]),
        forall|su: Suit|
            #[trigger] has_suit(s, su) ==> exists|k: int|
                0 <= k < t.len() && (#[trigger] t[k]).0 == suit_index(su),
        sorted_by(t, group_entry_le_fn()),
        forall|k1: int, k2: int|
            0 <= k1 < k2 < t.len() ==> (#[trigger] t[k1]).2 != (#[trigger] t[k2]).2,
        g.len() == t.len(),
        forall|k: int|
            0 <= k < g.len() ==> (#[trigger] g[k]).0 == suit_of_index(t[k].0 as int) && g[k].1
                == t[k].1,
    ensures
        suit_groups_ok(s, g),
{
    assert forall|su: Suit| suit_of_index(suit_index(su)) == su by {}
    assert forall|su: Suit| #[trigger] has_suit(s, su) implies exists|k: int|
        0 <= k < g.len() && (#[trigger] g[k]).0 == su by {
        let k = choose|k: int| 0 <= k < t.len() && (#[trigger] t[k]).0 == suit_index(su);
        assert(g[k].0 == suit_of_index(suit_index(su)));
        assert(g[k].0 == su);
    }
    assert forall|k1: int, k2: int| 0 <= k1 < k2 < g.len() implies suit_group_before(
        s,
        (#[trigger] g[k1]).0,
        (#[trigger] g[k2]).0,
    ) by {
        assert(group_entry_le_fn()(t[k1], t[k2]));
        assert(group_entry_le(t[k1], t[k2]));
        lemma_first_suit_index(s, suit_of_index(t[k1].0 as int), t[k1].2 as int);
        lemma_first_suit_index(s, suit_of_index(t[k2].0 as int), t[k2].2 as int);
    }
}

/// The rank count of a sequence equals the size of the matching part of
/// its multiset.
pub proof fn lemma_count_rank_as_multiset(s: Seq<Card>, r: Rank)
    ensures
        count_rank(s, r) == s.to_multiset().filter(rank_pred(r)).len(),
    decreases s.len(),
{
    broadcast use vstd::seq_lib::group_to_multiset_ensures;
    broadcast use vstd::multiset::group_multiset_axioms;
    broadcast use vstd::multiset::group_multiset_properties;

    let p = rank_pred(r);
    if s.len() == 0 {
        assert(count_rank(s, r) == 0) by {
            reveal_with_fuel(Seq::filter, 2);
        }
        assert forall|c: Card| s.to_multiset().count(c) == 0 by {
            assert(!s.contains(c));
        }
        assert(s.to_multiset().filter(p) =~= Multiset::<Card>::empty());
    } else {
        let q = s.drop_last();
        let x = s.last();
        lemma_count_rank_as_multiset(q, r);
        assert(q.push(x) =~= s);
        assert(s.to_multiset() == q.push(x).to_multiset());
        assert(q.push(x).to_multiset() == q.to_multiset().insert(x));
        assert(count_rank(s, r) == count_rank(q, r) + (if x.rank == r {
            1int
        } else {
            0int
        })) by {
            reveal_with_fuel(Seq::filter, 2);
        }
        if x.rank == r {
            assert(s.to_multiset().filter(p) =~= q.to_multiset().filter(p).insert(x));
        } else {
            assert(s.to_multiset().filter(p) =~= q.to_multiset().filter(p));
        }
    }
}

/// The suit count of a sequence equals the size of the matching part of
/// its multiset.
pub proof fn lemma_count_suit_as_multiset(s: Seq<Card>, su: Suit)
    ensures
        count_suit(s, su) == s.to_multiset().filter(suit_pred(su)).len(),
    decreases s.len(),
{
    broadcast use vstd::seq_lib::group_to_multiset_ensures;
    broadcast use vstd::multiset::group_multiset_axioms;
    broadcast use vstd::multiset::group_multiset_properties;

    let p = suit_pred(su);
    if s.len() == 0 {
        assert(count_suit(s, su) == 0) by {
            reveal_with_fuel(Seq::filter, 2);
        }
        assert forall|c: Card| s.to_multiset().count(c) == 0 by {
            assert(!s.contains(c));
        }
        assert(s.to_multiset().filter(p) =~= Multiset::<Card>::empty());
    } else {
        let q = s.drop_last();
        let x = s.last();
        lemma_count_suit_as_multiset(q, su);
        assert(q.push(x) =~= s);
        assert(s.to_multiset() == q.push(x).to_multiset());
        assert(q.push(x).to_multiset() == q.to_multiset().insert(x));
        assert(count_suit(s, su) == count_suit(q, su) + (if x.suit == su {
            1int
        } else {
            0int
        })) by {
            reveal_with_fuel(Seq::filter, 2);
        }
        if x.suit == su {
            assert(s.to_multiset().filter(p) =~= q.to_multiset().filter(p).insert(x));
        } else {
            assert(s.to_multiset().filter(p) =~= q.to_multiset().filter(p));
        }
    }
}

/// Two hands holding the same cards as a multiset have the same rank and
/// suit counts: the counts do not depend on the order of the cards.
pub proof fn lemma_counts_permutation(s1: Seq<Card>, s2: Seq<Card>)
    requires
        s1.to_multiset() == s2.to_multiset(),
    ensures
        forall|r: Rank| #[trigger] count_rank(s1, r) == count_rank(s2, r),
        forall|su: Suit| #[trigger] count_suit(s1, su) == count_suit(s2, su),
{
    assert forall|r: Rank| #[trigger] count_rank(s1, r) == count_rank(s2, r) by {
        lemma_count_rank_as_multiset(s1, r);
        lemma_count_rank_as_multiset(s2, r);
    }
    assert forall|su: Suit| #[trigger] count_suit(s1, su) == count_suit(s2, su) by {
        lemma_count_suit_as_multiset(s1, su);
        lemma_count_suit_as_multiset(s2, su);
    }
}

/// A hand already sorted by the rank-first order is its own sort.
pub proof fn lemma_sorted_rank_fixed(t: Seq<Card>)
    requires
        sorted_by(t, card_rank_le_fn()),
    ensures
        t.sort_by(card_rank_le_fn()) == t,
{
    lemma_card_rank_le_total();
    t.lemma_sort_by_ensures(card_rank_le_fn());
    lemma_sorted_unique(t, t.sort_by(card_rank_le_fn()), card_rank_le_fn());
}

/// Sorting and grouping methods for a hand of cards.
pub trait Sortable where Self: View<V = Seq<Card>> {
    /// In-place sorts the cards by suit first and then by descending rank.
    fn sort_by_suit(&mut self)
        ensures
            final(self)@ == old(self)@.sort_by(card_suit_le_fn()),
    ;

    /// In-place sorts the cards by descending rank first and then by suit.
    fn sort_by_rank(&mut self)
        ensures
            final(self)@ == old(self)@.sort_by(card_rank_le_fn()),
    ;

    /// Returns a new sorted hand, using the rules of
    /// [`Sortable::sort_by_suit`].
    fn sorted_by_suit(&self) -> (r: Vec<Card>)
        ensures
            r@ == self@.sort_by(card_suit_le_fn()),
    ;

    /// Returns a new sorted hand, using the rules of
    /// [`Sortable::sort_by_rank`].
    fn sorted_by_rank(&self) -> (r: Vec<Card>)
        ensures
            r@ == self@.sort_by(card_rank_le_fn()),
    ;

    /// Groups the cards by suit and returns each present suit with its
    /// count, larger groups first, ties in order of first occurrence.
    fn grouped_by_suit(&self) -> (r: Vec<(Suit, usize)>)
        ensures
            suit_groups_ok(self@, r@),
    ;

    /// Groups the cards by rank and returns each present rank with its
    /// count, larger groups first, ties in order of first occurrence.
    fn grouped_by_rank(&self) -> (r: Vec<(Rank, usize)>)
        ensures
            rank_groups_ok(self@, r@),
    ;
}

impl Sortable for Vec<Card> {
    fn sort_by_suit(&mut self) {
        insertion_sort_by_suit(self);
    }

    fn sort_by_rank(&mut self) {
        insertion_sort_by_rank(self);
    }

    fn sorted_by_suit(&self) -> (r: Vec<Card>) {
        let mut cards = self.clone();
        insertion_sort_by_suit(&mut cards);
        cards
    }

    fn sorted_by_rank(&self) -> (r: Vec<Card>) {
        let mut cards = self.clone();
        insertion_sort_by_rank(&mut cards);
        cards
    }

    fn grouped_by_suit(&self) -> (r: Vec<(Suit, usize)>) {
        group_cards_by_suit(self)
    }

    fn grouped_by_rank(&self) -> (r: Vec<(Rank, usize)>) {
        group_cards_by_rank(self)
    }
}

/// The last extended grapheme cluster of a string, as unicode-
/// segmentation's grapheme segmentation defines it; meaningful only for a
/// non-empty string.
pub uninterp spec fn last_grapheme(s: Seq<char>) -> Seq<char>;

/// Relies on `UnicodeSegmentation::grapheme_indices` (extended clusters):
/// the clusters partition the string in order, so the last one is a
/// non-empty suffix whose byte offset splits the string exactly, and the
/// iterator is empty exactly for the empty string.
#[verifier::external_body]
fn split_last_grapheme(s: &str) -> (r: Option<(String, String)>)
    ensures
        (r is None) == (s@.len() == 0),
        r matches Some(p) ==> p.0@ + p.1@ == s@ && p.1@ == last_grapheme(s@) && p.1@.len() >= 1,
{
    match s.grapheme_indices(true).next_back() {
        None => None,
        Some((i, last)) => Some((s[..i].to_string(), last.to_string())),
    }
}

/// The suit a single character denotes: a suit glyph or its ASCII letter.
pub open spec fn spec_suit_of_char(c: char) -> Option<Suit> {
    if c == '\u{2663}' || c == 'C' {
        Some(Suit::Club)
    } else if c == '\u{2666}' || c == 'D' {
        Some(Suit::Diamond)
    } else if c == '\u{2665}' || c == 'H' {
        Some(Suit::Heart)
    } else if c == '\u{2660}' || c == 'S' {
        Some(Suit::Spade)
    } else {
        None
    }
}

/// The suit a piece of text denotes: exactly one recognized character.
pub open spec fn spec_suit_of(s: Seq<char>) -> Option<Suit> {
    if s.len() == 1 {
        spec_suit_of_char(s[0])
    } else {
        None
    }
}

/// The rank a piece of text denotes: a letter code, a single digit, or a
/// two-digit ordinal; "A" and "1" both denote the ace.
pub open spec fn spec_rank_of(s: Seq<char>) -> Option<Rank> {
    if s.len() == 1 {
        if s[0] == 'A' || s[0] == '1' {
            Some(Rank::Ace)
        } else if s[0] == '2' {
            Some(Rank::Two)
        } else if s[0] == '3' {
            Some(Rank::Three)
        } else if s[0] == '4' {
            Some(Rank::Four)
        } else if s[0] == '5' {
            Some(Rank::Five)
        } else if s[0] == '6' {
            Some(Rank::Six)
        } else if s[0] == '7' {
            Some(Rank::Seven)
        } else if s[0] == '8' {
            Some(Rank::Eight)
        } else if s[0] == '9' {
            Some(Rank::Nine)
        } else if s[0] == 'J' {
            Some(Rank::Jack)
        } else if s[0] == 'Q' {
            Some(Rank::Queen)
        } else if s[0] == 'K' {
            Some(Rank::King)
        } else {
            None
        }
    } else if s.len() == 2 && s[0] == '1' {
        if s[1] == '0' {
            Some(Rank::Ten)
        } else if s[1] == '1' {
            Some(Rank::Jack)
        } else if s[1] == '2' {
            Some(Rank::Queen)
        } else if s[1] == '3' {
            Some(Rank::King)
        } else {
            None
        }
    } else {
        None
    }
}

/// The card a piece of text denotes: its last grapheme cluster must be a
/// recognized suit and the rest a recognized rank.
pub open spec fn spec_card_of(s: Seq<char>) -> Option<Card> {
    if s.len() == 0 {
        None
    } else {
        let tail = last_grapheme(s);
        let head = s.take(s.len() - tail.len());
        match (spec_rank_of(head), spec_suit_of(tail)) {
            (Some(rank), Some(suit)) => Some(Card { rank, suit }),
            _ => None,
        }
    }
}

/// Recognizes the textual form of a suit.
fn suit_from_text(s: &str) -> (r: Option<Suit>)
    ensures
        r == spec_suit_of(s@),
{
    let n = s.unicode_len();
    if n != 1 {
        return None;
    }
    let c = s.get_char(0);
    if c == '\u{2663}' || c == 'C' {
        Some(Suit::Club)
    } else if c == '\u{2666}' || c == 'D' {
        Some(Suit::Diamond)
    } else if c == '\u{2665}' || c == 'H' {
        Some(Suit::Heart)
    } else if c == '\u{2660}' || c == 'S' {
        Some(Suit::Spade)
    } else {
        None
    }
}

/// Recognizes the textual form of a rank.
fn rank_from_text(s: &str) -> (r: Option<Rank>)
    ensures
        r == spec_rank_of(s@),
{
    let n = s.unicode_len();
    if n == 1 {
        let c = s.get_char(0);
        if c == 'A' || c == '1' {
            Some(Rank::Ace)
        } else if c == '2' {
            Some(Rank::Two)
        } else if c == '3' {
            Some(Rank::Three)
        } else if c == '4' {
            Some(Rank::Four)
        } else if c == '5' {
            Some(Rank::Five)
        } else if c == '6' {
            Some(Rank::Six)
        } else if c == '7' {
            Some(Rank::Seven)
        } else if c == '8' {
            Some(Rank::Eight)
        } else if c == '9' {
            Some(Rank::Nine)
        } else if c == 'J' {
            Some(Rank::Jack)
        } else if c == 'Q' {
            Some(Rank::Queen)
        } else if c == 'K' {
            Some(Rank::King)
        } else {
            None
        }
    } else if n == 2 {
        let c0 = s.get_char(0);
        let c1 = s.get_char(1);
        if c0 != '1' {
            return None;
        }
        if c1 == '0' {
            Some(Rank::Ten)
        } else if c1 == '1' {
            Some(Rank::Jack)
        } else if c1 == '2' {
            Some(Rank::Queen)
        } else if c1 == '3' {
            Some(Rank::King)
        } else {
            None
        }
    } else {
        None
    }
}

impl Suit {
    /// Parses the textual form of a suit: a suit glyph or its ASCII
    /// letter.
    pub fn parse_text(s: &str) -> (r: Result<Suit, CoreError>)
        ensures
            match r {
                Ok(su) => spec_suit_of(s@) == Some(su),
                Err(e) => spec_suit_of(s@) is None && e == CoreError::MalformedCardError,
            },
    {
        match suit_from_text(s) {
            Some(su) => Ok(su),
            None => Err(CoreError::MalformedCardError),
        }
    }
}

impl FromStr for Suit {
    type Err = CoreError;

    fn from_str(s: &str) -> Result<Suit, CoreError> {
        Suit::parse_text(s)
    }
}

impl Rank {
    /// Parses the textual form of a rank: a letter code or an ordinal
    /// numeral.
    pub fn parse_text(s: &str) -> (r: Result<Rank, CoreError>)
        ensures
            match r {
                Ok(rk) => spec_rank_of(s@) == Some(rk),
                Err(e) => spec_rank_of(s@) is None && e == CoreError::MalformedCardError,
            },
    {
        match rank_from_text(s) {
            Some(rk) => Ok(rk),
            None => Err(CoreError::MalformedCardError),
        }
    }
}

impl FromStr for Rank {
    type Err = CoreError;

    fn from_str(s: &str) -> Result<Rank, CoreError> {
        Rank::parse_text(s)
    }
}

impl Card {
    /// Parses the textual form of a card: a rank numeral or letter code
    /// followed by a suit glyph or letter as the final grapheme cluster.
    pub fn parse_text(s: &str) -> (r: Result<Card, CoreError>)
        ensures
            match r {
                Ok(c) => spec_card_of(s@) == Some(c),
                Err(e) => spec_card_of(s@) is None && e == CoreError::MalformedCardError,
            },
    {
        let (head, tail) = match split_last_grapheme(s) {
            Some(p) => p,
            None => {
                return Err(CoreError::MalformedCardError);
            },
        };
        proof {
            assert(head@ =~= s@.take(s@.len() - last_grapheme(s@).len()));
        }
        let suit = match suit_from_text(tail.as_str()) {
            Some(su) => su,
            None => {
                return Err(CoreError::MalformedCardError);
            },
        };
        let rank = match rank_from_text(head.as_str()) {
            Some(rk) => rk,
            None => {
                return Err(CoreError::MalformedCardError);
            },
        };
        Ok(Card { rank, suit })
    }
}

impl FromStr for Card {
    type Err = CoreError;

    fn from_str(s: &str) -> Result<Card, CoreError> {
        Card::parse_text(s)
    }
}

/// The textual label of a rank: its letter code, or the numeral for the
/// ten.
pub open spec fn spec_rank_label(r: Rank) -> Seq<char> {
    match r {
        Rank::Ace => seq!['A'],
        Rank::Two => seq!['2'],
        Rank::Three => seq!['3'],
        Rank::Four => seq!['4'],
        Rank::Five => seq!['5'],
        Rank::Six => seq!['6'],
        Rank::Seven => seq!['7'],
        Rank::Eight => seq!['8'],
        Rank::Nine => seq!['9'],
        Rank::Ten => seq!['1', '0'],
        Rank::Jack => seq!['J'],
        Rank::Queen => seq!['Q'],
        Rank::King => seq!['K'],
    }
}

/// The glyph of a suit.
pub open spec fn spec_suit_glyph(su: Suit) -> Seq<char> {
    match su {
        Suit::Club => seq!['\u{2663}'],
        Suit::Diamond => seq!['\u{2666}'],
        Suit::Heart => seq!['\u{2665}'],
        Suit::Spade => seq!['\u{2660}'],
    }
}

/// A rank's label and a suit's glyph are recognized back by the parsing
/// specifications, so the textual form of a card reads back as its parts.
pub proof fn lemma_label_parse_inverse(r: Rank, su: Suit)
    ensures
        spec_rank_of(spec_rank_label(r)) == Some(r),
        spec_suit_of(spec_suit_glyph(su)) == Some(su),
{
}

impl Rank {
    /// Returns the textual label of this rank.
    pub fn label(&self) -> (c: String)
        ensures
            c@ == spec_rank_label(*self),
    {
        match *self {
            Rank::Ace => {
                proof {
                    reveal_strlit("A");
                    assert("A"@ =~= spec_rank_label(Rank::Ace));
                }
                "A".to_owned()
            },
            Rank::Two => {
                proof {
                    reveal_strlit("2");
                    assert("2"@ =~= spec_rank_label(Rank::Two));
                }
                "2".to_owned()
            },
            Rank::Three => {
                proof {
                    reveal_strlit("3");
                    assert("3"@ =~= spec_rank_label(Rank::Three));
                }
                "3".to_owned()
            },
            Rank::Four => {
                proof {
                    reveal_strlit("4");
                    assert("4"@ =~= spec_rank_label(Rank::Four));
                }
                "4".to_owned()
            },
            Rank::Five => {
                proof {
                    reveal_strlit("5");
                    assert("5"@ =~= spec_rank_label(Rank::Five));
                }
                "5".to_owned()
            },
            Rank::Six => {
                proof {
                    reveal_strlit("6");
                    assert("6"@ =~= spec_rank_label(Rank::Six));
                }
                "6".to_owned()
            },
            Rank::Seven => {
                proof {
                    reveal_strlit("7");
                    assert("7"@ =~= spec_rank_label(Rank::Seven));
                }
                "7".to_owned()
            },
            Rank::Eight => {
                proof {
                    reveal_strlit("8");
                    assert("8"@ =~= spec_rank_label(Rank::Eight));
                }
                "8".to_owned()
            },
            Rank::Nine => {
                proof {
                    reveal_strlit("9");
                    assert("9"@ =~= spec_rank_label(Rank::Nine));
                }
                "9".to_owned()
            },
            Rank::Ten => {
                proof {
                    reveal_strlit("10");
                    assert("10"@ =~= spec_rank_label(Rank::Ten));
                }
                "10".to_owned()
            },
            Rank::Jack => {
                proof {
                    reveal_strlit("J");
                    assert("J"@ =~= spec_rank_label(Rank::Jack));
                }
                "J".to_owned()
            },
            Rank::Queen => {
                proof {
                    reveal_strlit("Q");
                    assert("Q"@ =~= spec_rank_label(Rank::Queen));
                }
                "Q".to_owned()
            },
            Rank::King => {
                proof {
                    reveal_strlit("K");
                    assert("K"@ =~= spec_rank_label(Rank::King));
                }
                "K".to_owned()
            },
        }
    }
}

impl Suit {
    /// Returns the glyph of this suit.
    pub fn glyph(&self) -> (c: String)
        ensures
            c@ == spec_suit_glyph(*self),
    {
        match *self {
            Suit::Club => {
                proof {
                    reveal_strlit("\u{2663}");
                    assert("\u{2663}"@ =~= spec_suit_glyph(Suit::Club));
                }
                "\u{2663}".to_owned()
            },
            Suit::Diamond => {
                proof {
                    reveal_strlit("\u{2666}");
                    assert("\u{2666}"@ =~= spec_suit_glyph(Suit::Diamond));
                }
                "\u{2666}".to_owned()
            },
            Suit::Heart => {
                proof {
                    reveal_strlit("\u{2665}");
                    assert("\u{2665}"@ =~= spec_suit_glyph(Suit::Heart));
                }
                "\u{2665}".to_owned()
            },
            Suit::Spade => {
                proof {
                    reveal_strlit("\u{2660}");
                    assert("\u{2660}"@ =~= spec_suit_glyph(Suit::Spade));
                }
                "\u{2660}".to_owned()
            },
        }
    }
}

/// Relies on `String::push_str`: it appends the given slice to the end of
/// the string.
#[verifier::external_body]
fn string_append(s: &mut String, other: &str)
    ensures
        final(s)@ == old(s)@ + other@,
{
    s.push_str(other);
}

impl Card {
    /// Returns the textual form of the card: its rank label followed by
    /// its suit glyph.  The parsing specifications recognize both parts
    /// back (see `lemma_label_parse_inverse`).
    pub fn label(&self) -> (c: String)
        ensures
            c@ == spec_rank_label(self.rank) + spec_suit_glyph(self.suit),
    {
        let mut c = self.rank.label();
        let glyph = self.suit.glyph();
        string_append(&mut c, glyph.as_str());
        c
    }
}

} // verus!
