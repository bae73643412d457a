//! Blinds: the scoring obstacles of each round, their rewards, colors, and
//! the target-score formula.

use vstd::prelude::*;

use crate::error::ScorerError;

verus! {

/// Bosses are the named variants a boss blind can take.  Each has a unique
/// power that plays out during the boss round; in this core the powers are
/// inert and only the target-score exceptions of `Wall` and `Needle` apply.
#[derive(Clone, Copy, Debug, PartialEq, Eq, Structural, Hash, PartialOrd, Ord)]
pub enum Bosses {
    /// Discards 2 random cards from your hand, after each hand played
    Hook,
    /// Playing your most played hand this run sets money to $0
    Ox,
    /// First hand is drawn face down
    House,
    /// Extra large blind (2x base target)
    Wall,
    /// 1 in 7 cards get drawn face-down throughout the round
    Wheel,
    /// Decreases the level of the hand you play by 1
    Arm,
    /// All Club cards are debuffed
    Club,
    /// Cards are drawn face down after each hand played
    Fish,
    /// Must play 5 cards
    Psychic,
    /// All Spade cards are debuffed
    Goad,
    /// Start with 0 discards
    Water,
    /// All Diamond cards are debuffed
    Window,
    /// -1 hand size
    Manacle,
    /// Every hand played this round must be of a different type
    Eye,
    /// Only one hand type can be played this round
    Mouth,
    /// All face cards are debuffed
    Plant,
    /// After playing or discarding, you always draw 3 cards
    Serpent,
    /// Cards played previously this ante are debuffed
    Pillar,
    /// Play only 1 hand (0.5x base target)
    Needle,
    /// All Heart cards are debuffed
    Head,
    /// Lose $1 per card played
    Tooth,
    /// The base chips and multiplier for playing a poker hand are halved
    Flint,
    /// All face cards are drawn face down
    Mark,
}

/// A blind: either the small blind, the big blind, or a boss blind carrying
/// one of the [`Bosses`].
#[derive(Clone, Copy, Debug, PartialEq, Eq, Structural, Hash, PartialOrd, Ord)]
pub enum Blind {
    /// The first, optional blind of an ante.
    Small,
    /// The second, optional blind of an ante.
    Big,
    /// The mandatory boss blind of an ante.
    Boss(Bosses),
}

impl Default for Blind {
    /// The default blind is the small blind.
    fn default() -> (b: Blind)
        ensures
            b == Blind::Small,
    {
        Blind::Small
    }
}

/// The score multiplier of a blind tag: 2 for small, 3 for big, 4 for boss.
pub open spec fn blind_score_multiplier(b: Blind) -> int {
    match b {
        Blind::Small => 2,
        Blind::Big => 3,
        Blind::Boss(_) => 4,
    }
}

/// The boss multiplier: 2 by default, with the named exceptions of `Wall`
/// (4) and `Needle` (1).
pub open spec fn boss_multiplier(b: Blind) -> int {
    match b {
        Blind::Boss(Bosses::Wall) => 4,
        Blind::Boss(Bosses::Needle) => 1,
        _ => 2,
    }
}

/// The fixed base amount of an ante, for antes 1 through 8.
pub open spec fn blind_base_amount(ante: int) -> int {
    if ante == 1 {
        3
    } else if ante == 2 {
        8
    } else if ante == 3 {
        20
    } else if ante == 4 {
        50
    } else if ante == 5 {
        110
    } else if ante == 6 {
        200
    } else if ante == 7 {
        350
    } else {
        500
    }
}

/// The target score of a blind at an ante: a base of 25 chips, scaled by
/// the blind's score multiplier, the boss multiplier and the ante's base
/// amount.
pub open spec fn spec_target_score(b: Blind, ante: int) -> int {
    25 * blind_score_multiplier(b) * boss_multiplier(b) * blind_base_amount(ante)
}

/// The reward in money for defeating a blind: 3 for small, 4 for big, 5
/// for boss.
pub open spec fn blind_reward(b: Blind) -> int {
    match b {
        Blind::Small => 3,
        Blind::Big => 4,
        Blind::Boss(_) => 5,
    }
}

impl Blind {
    /// Returns the target score required to beat the round with this blind,
    /// or an error when the ante lies beyond the last defined ante of 8.
    pub fn get_target_score(&self, ante: usize) -> (r: Result<usize, ScorerError>)
        requires
            ante >= 1,
        ensures
            match r {
                Ok(v) => 1 <= ante <= 8 && v == spec_target_score(*self, ante as int),
                Err(e) => ante >= 9 && e == ScorerError::AnteExceeded(ante),
            },
    {
        if ante >= 9 {
            return Err(ScorerError::AnteExceeded(ante));
        }
        let blind_multiple: usize = match *self {
            Blind::Small => 2,
            Blind::Big => 3,
            Blind::Boss(_) => 4,
        };
        let boss_blind_multiplier: usize = match *self {
            Blind::Boss(Bosses::Wall) => 4,
            Blind::Boss(Bosses::Needle) => 1,
            _ => 2,
        };
        let base_amount: usize = if ante == 1 {
            3
        } else if ante == 2 {
            8
        } else if ante == 3 {
            20
        } else if ante == 4 {
            50
        } else if ante == 5 {
            110
        } else if ante == 6 {
            200
        } else if ante == 7 {
            350
        } else {
            500
        };
        Ok(25 * blind_multiple * boss_blind_multiplier * base_amount)
    }

    /// Returns the color tag used to represent the blind.
    pub fn get_color(&self) -> (c: String)
        ensures
            *self == Blind::Small ==> c@ == "blue"@,
            *self == Blind::Big ==> c@ == "green"@,
            (*self matches Blind::Boss(_)) ==> c@ == "red"@,
    {
        match *self {
            Blind::Small => "blue".to_owned(),
            Blind::Big => "green".to_owned(),
            Blind::Boss(_) => "red".to_owned(),
        }
    }

    /// Returns the reward in money obtained for defeating the blind.
    pub fn get_reward(&self) -> (r: usize)
        ensures
            r == blind_reward(*self),
    {
        match *self {
            Blind::Small => 3,
            Blind::Big => 4,
            Blind::Boss(_) => 5,
        }
    }

    /// Returns the display name of the blind tag.
    pub fn label(&self) -> (c: String)
        ensures
            *self == Blind::Small ==> c@ == "Small Blind"@,
            *self == Blind::Big ==> c@ == "Big Blind"@,
            (*self matches Blind::Boss(_)) ==> c@ == "Boss Blind"@,
    {
        match *self {
            Blind::Small => "Small Blind".to_owned(),
            Blind::Big => "Big Blind".to_owned(),
            Blind::Boss(_) => "Boss Blind".to_owned(),
        }
    }
}

} // verus!
