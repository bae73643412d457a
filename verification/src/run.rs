//! A run: a complete play-through across rounds until the game is won at
//! the final ante or any round is lost.

use vstd::prelude::*;

use crate::blind::spec_target_score;
use crate::card::Card;
use crate::error::{CoreError, ScorerError};
use crate::round::{spec_round_outcome, Round, RoundOutcome};

verus! {

/// The active state of a run.
#[derive(Clone, Copy, Debug, PartialEq, Eq, Structural)]
pub enum RunState {
    /// The run is ongoing.
    Running,
    /// The run is over: `true` when it was won, `false` when lost.
    Finished(bool),
}

impl Default for RunState {
    /// A run starts out running.
    fn default() -> (s: RunState)
        ensures
            s == RunState::Running,
    {
        RunState::Running
    }
}

/// Persistent details about a run, fixed at its creation.
#[derive(Clone, Debug)]
pub struct RunProperties {
    /// The number of cards dealt into the hand each round.
    pub hand_size: usize,
    /// Maximum discards available per round.
    pub max_discards: usize,
    /// Maximum hands that can be played per round.
    pub max_hands: usize,
    /// Random seed for the run; a hook for reproducibility.
    pub seed: String,
    /// The money the run starts with.
    pub starting_money: usize,
}

impl Default for RunProperties {
    /// Ten cards in hand, three hands and three discards per round, ten
    /// starting money, and an empty seed.
    fn default() -> (p: RunProperties)
        ensures
            p.hand_size == 10 && p.max_discards == 3 && p.max_hands == 3 && p.starting_money == 10
                && p.seed@ == Seq::<char>::empty(),
    {
        RunProperties {
            hand_size: 10,
            max_discards: 3,
            max_hands: 3,
            seed: String::new(),
            starting_money: 10,
        }
    }
}

/// The final ante: beating a round at this ante wins the run.
pub open spec fn final_ante() -> int {
    8
}

/// How the run state moves when the active round is evaluated: any lost
/// round finishes the run as lost, a round won at the final ante finishes
/// it as won, and anything else leaves the state alone.
pub open spec fn spec_run_state_after(state: RunState, outcome: RoundOutcome, ante: int) -> RunState {
    match outcome {
        RoundOutcome::Lost => RunState::Finished(false),
        RoundOutcome::Won => if ante == final_ante() {
            RunState::Finished(true)
        } else {
            state
        },
        RoundOutcome::InProgress => state,
    }
}

/// The working state of a run: its fixed properties, the deck it owns and
/// lends to the active round, the money held, and the single live round.
#[derive(Clone, Debug)]
pub struct Run {
    /// Persistent properties for the run.
    pub properties: RunProperties,
    /// The operational state of the run.
    pub run_state: RunState,
    /// Current money held; never negative.
    pub money: usize,
    /// The deck of cards shared across rounds.
    pub deck: Vec<Card>,
    /// The single live round.
    pub round: Round,
    /// The number the next round will carry.
    pub upcoming_round_number: usize,
}

impl Run {
    /// Starts the run by starting its round: a fresh hand is drawn from
    /// the deck.  Fails, changing nothing, when the deck is too small.
    pub fn start(&mut self) -> (r: Result<(), CoreError>)
        ensures
            match r {
                Ok(()) => {
                    &&& old(self).round.properties.hand_size <= old(self).deck@.len()
                    &&& final(self).round.hand@.len() == old(self).round.properties.hand_size
                    &&& final(self).round.hand@ == final(self).round.hand@.sort_by(
                        crate::card::card_rank_le_fn(),
                    )
                    &&& final(self).deck@.len() == old(self).deck@.len() - old(self).round.properties.hand_size
                    &&& final(self).deck@.to_multiset().add(final(self).round.hand@.to_multiset())
                        == old(self).deck@.to_multiset()
                    &&& final(self).round.properties == old(self).round.properties
                    &&& final(self).round.blind == old(self).round.blind
                    &&& final(self).round.discards_count == old(self).round.discards_count
                    &&& final(self).round.hands_count == old(self).round.hands_count
                    &&& final(self).round.score == old(self).round.score
                    &&& final(self).round.history == old(self).round.history
                    &&& final(self).run_state == old(self).run_state
                    &&& final(self).money == old(self).money
                    &&& final(self).properties == old(self).properties
                    &&& final(self).upcoming_round_number == old(self).upcoming_round_number
                },
                Err(e) => {
                    &&& e == CoreError::InsufficientCardsError
                    &&& old(self).round.properties.hand_size > old(self).deck@.len()
                    &&& final(self).round == old(self).round
                    &&& final(self).deck@ == old(self).deck@
                    &&& final(self).run_state == old(self).run_state
                    &&& final(self).money == old(self).money
                    &&& final(self).properties == old(self).properties
                    &&& final(self).upcoming_round_number == old(self).upcoming_round_number
                },
            },
    {
        self.round.start(&mut self.deck)
    }

    /// Evaluates the active round against its blind's target score and
    /// moves the run state: lost the moment a round is lost, won only
    /// when a round is won at the final ante.  Fails, changing nothing,
    /// when the ante lies beyond the last defined one.
    pub fn evaluate_round(&mut self) -> (r: Result<RoundOutcome, CoreError>)
        requires
            old(self).round.properties.ante >= 1,
        ensures
            match r {
                Ok(outcome) => {
                    &&& 1 <= old(self).round.properties.ante <= 8
                    &&& outcome == spec_round_outcome(
                        old(self).round.hands_count as int,
                        old(self).round.score as int,
                        spec_target_score(
                            old(self).round.blind,
                            old(self).round.properties.ante as int,
                        ),
                    )
                    &&& final(self).run_state == spec_run_state_after(
                        old(self).run_state,
                        outcome,
                        old(self).round.properties.ante as int,
                    )
                    &&& final(self).round == old(self).round
                    &&& final(self).deck == old(self).deck
                    &&& final(self).money == old(self).money
                    &&& final(self).properties == old(self).properties
                    &&& final(self).upcoming_round_number == old(self).upcoming_round_number
                },
                Err(e) => {
                    &&& old(self).round.properties.ante >= 9
                    &&& e == CoreError::ScorerError(
                        ScorerError::AnteExceeded(old(self).round.properties.ante),
                    )
                    &&& *final(self) == *old(self)
                },
            },
    {
        let target = match self.round.blind.get_target_score(self.round.properties.ante) {
            Ok(t) => t,
            Err(e) => {
                return Err(CoreError::ScorerError(e));
            },
        };
        let outcome = crate::round::round_outcome(self.round.hands_count, self.round.score, target);
        match outcome {
            RoundOutcome::Lost => {
                self.run_state = RunState::Finished(false);
            },
            RoundOutcome::Won => {
                if self.round.properties.ante == 8 {
                    self.run_state = RunState::Finished(true);
                }
            },
            RoundOutcome::InProgress => {},
        }
        Ok(outcome)
    }
}

} // verus!
