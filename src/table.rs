//! A table: the roster, the dealer button and the hand being played.
use vstd::prelude::*;

use crate::deck::{PokerDeck, DECK_SIZE};
use crate::error::PokerError;
use crate::hand::PokerHand;
use crate::state::{POKER_HAND_STATE_CHEATED, POKER_HAND_STATE_FINISHED, POKER_HAND_STATE_SHUFFLE};

verus! {

/// A table where hands are played one after another.
pub struct PokerTable {
    pub max_players: usize,
    pub max_rounds: usize,
    pub current_players: Vec<u32>,
    pub dealer_button: usize,
    pub current_hand: Option<PokerHand>,
}

/// A hand is over once it is finished or a cheat was found.
pub open spec fn hand_over(h: PokerHand) -> bool {
    h.current_state.current_state == POKER_HAND_STATE_FINISHED || h.current_state.current_state == POKER_HAND_STATE_CHEATED
}

impl PokerTable {
    /// An empty table; the first hand will be dealt from seat 0.
    pub fn new(max_players: usize, max_rounds: usize) -> (r: Self)
        ensures
            r.max_players == max_players,
            r.max_rounds == max_rounds,
            r.current_players@.len() == 0,
            r.dealer_button == 0,
            r.current_hand is None,
    {
        PokerTable { max_players, max_rounds, current_players: Vec::new(), dealer_button: 0, current_hand: None }
    }

    /// `player` takes the next seat.
    pub fn join(&mut self, player: u32)
        ensures
            final(self).current_players@ == old(self).current_players@.push(player),
            final(self).max_players == old(self).max_players,
            final(self).max_rounds == old(self).max_rounds,
            final(self).dealer_button == old(self).dealer_button,
            final(self).current_hand == old(self).current_hand,
    {
        self.current_players.push(player);
    }

    /// Starts a hand between the seated players, each with `initial_chips`.
    /// Refused while a hand is still being played, and where the seats, the
    /// rounds or the chips do not fit a hand: no player, more players than
    /// the deck can deal to, a dealer button off the table, or a pot that
    /// would not fit in 64 bits.
    pub fn start_hand(&mut self, initial_chips: u64, small_blind: u64, poker_deck: PokerDeck) -> (r: Result<(), PokerError>)
        requires
            poker_deck.wf(),
        ensures
            (old(self).current_hand matches Some(h) && !hand_over(h)) ==> r == Err::<(), PokerError>(PokerError::HandInProgress),
            r is Err ==> *final(self) == *old(self),
            r is Ok ==> {
                let n = old(self).current_players@.len();
                &&& old(self).current_hand matches Some(h) ==> hand_over(h)
                &&& final(self).current_players == old(self).current_players
                &&& final(self).current_hand matches Some(h) && h.wf()
                    && h.current_state.num_players == n
                    && h.current_state.max_rounds == old(self).max_rounds
                    && h.current_state.dealer_button == old(self).dealer_button
                    && h.current_state.current_player == old(self).dealer_button
                    && h.current_state.current_state == POKER_HAND_STATE_SHUFFLE
                    && h.betting_state@.chips == Seq::new(n, |i: int| initial_chips)
                    && h.betting_state@.pot == 0
                    && h.small_blind == small_blind
            },
            (!(old(self).current_hand matches Some(h) && !hand_over(h)) && 0 < old(self).current_players@.len()
                && old(self).dealer_button < old(self).current_players@.len() && 1 <= old(self).max_rounds
                && 2 * old(self).current_players@.len() + old(self).max_rounds + 1 <= DECK_SIZE
                && old(self).current_players@.len() * initial_chips <= u64::MAX && small_blind <= u64::MAX / 2) <==> r is Ok,
    {
        if let Some(h) = &self.current_hand {
            if h.current_state.current_state != POKER_HAND_STATE_FINISHED
                && h.current_state.current_state != POKER_HAND_STATE_CHEATED {
                return Err(PokerError::HandInProgress);
            }
        }
        let n = self.current_players.len();
        if n == 0 || self.dealer_button >= n || self.max_rounds < 1 || n > DECK_SIZE || self.max_rounds > DECK_SIZE
            || 2 * n + self.max_rounds + 1 > DECK_SIZE {
            return Err(PokerError::OutOfBounds);
        }
        if initial_chips > u64::MAX / (n as u64) || small_blind > u64::MAX / 2 {
            proof {
                if initial_chips > u64::MAX / (n as u64) {
                    assert(n * initial_chips > u64::MAX) by (nonlinear_arith)
                        requires initial_chips > u64::MAX / (n as u64), n > 0;
                }
            }
            return Err(PokerError::OutOfBounds);
        }
        assert(n * initial_chips <= u64::MAX) by (nonlinear_arith)
            requires initial_chips <= u64::MAX / (n as u64), n > 0;
        let hand = PokerHand::new(n, self.max_rounds, self.dealer_button, initial_chips, small_blind, poker_deck);
        self.current_hand = Some(hand);
        Ok(())
    }

    /// The hand being played, if any.
    pub fn get_current_hand(&self) -> (r: Option<&PokerHand>)
        ensures
            r matches Some(h) ==> self.current_hand == Some(*h),
            r is None ==> self.current_hand is None,
    {
        match &self.current_hand {
            Some(h) => Some(h),
            None => None,
        }
    }

    /// The hand being played, to submit to.
    pub fn get_current_hand_mut(&mut self) -> (r: Option<&mut PokerHand>)
        ensures
            r matches Some(h) ==> old(self).current_hand == Some(*h) && final(self).current_hand == Some(*final(h)),
            r is None ==> old(self).current_hand is None && *final(self) == *old(self),
            final(self).current_players == old(self).current_players,
            final(self).max_players == old(self).max_players,
            final(self).max_rounds == old(self).max_rounds,
            final(self).dealer_button == old(self).dealer_button,
    {
        self.current_hand.as_mut()
    }

    pub fn get_max_players(&self) -> (r: usize)
        ensures
            r == self.max_players,
    {
        self.max_players
    }

    pub fn get_max_rounds(&self) -> (r: usize)
        ensures
            r == self.max_rounds,
    {
        self.max_rounds
    }

    pub fn get_current_player_count(&self) -> (r: usize)
        ensures
            r == self.current_players@.len(),
    {
        self.current_players.len()
    }

    /// The id of the player in seat `player`, if the seat is taken.
    pub fn get_player(&self, player: usize) -> (r: Option<u32>)
        ensures
            player < self.current_players@.len() ==> r == Some(self.current_players@[player as int]),
            player >= self.current_players@.len() ==> r is None,
    {
        if player < self.current_players.len() {
            Some(self.current_players[player])
        } else {
            None
        }
    }
}

} // verus!
