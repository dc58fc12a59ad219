//! Phases of a hand and the rotation of the acting player.
use vstd::prelude::*;

use crate::error::PokerError;

verus! {

pub const POKER_HAND_STATE_SHUFFLE: u8 = 0;
pub const POKER_HAND_STATE_SMALL_BLIND: u8 = 1;
pub const POKER_HAND_STATE_BIG_BLIND: u8 = 2;
pub const POKER_HAND_STATE_BET: u8 = 3;
pub const POKER_HAND_STATE_UNMASK_HOLE_CARDS: u8 = 4;
pub const POKER_HAND_STATE_UNMASK_COMMUNITY_CARDS: u8 = 5;
pub const POKER_HAND_STATE_UNMASK_SHOWDOWN: u8 = 6;
pub const POKER_HAND_STATE_SUBMIT_PUBLIC_KEY: u8 = 7;
pub const POKER_HAND_STATE_FINISHED: u8 = 8;
pub const POKER_HAND_STATE_CHEATED: u8 = 9;

pub const POKER_HOLDEM_PREFLOP: usize = 0;
pub const POKER_HOLDEM_FLOP: usize = 1;
pub const POKER_HOLDEM_TURN: usize = 2;
pub const POKER_HOLDEM_RIVER: usize = 3;
pub const POKER_HOLDEM_ROUNDS: usize = 4;

/// The operation a hand waits for next, and who must perform it.
#[derive(Clone, Copy, Debug, PartialEq, Eq, Structural)]
pub enum PokerHandStateEnum {
    Shuffle { player: usize, is_dealer: bool },
    SmallBlind { player: usize },
    BigBlind { player: usize },
    Bet { round: usize, player: usize },
    UnmaskHoleCards { player: usize },
    UnmaskCommunityCards { round: usize, player: usize },
    UnmaskShowdown { player: usize },
    SubmitPublicKey { player: usize },
    Cheated { player: usize },
    Finished,
    Invalid,
}

/// Phase, street and acting player of a hand.
#[derive(Clone, Copy, Debug)]
pub struct PokerHandState {
    pub dealer_button: usize,
    pub num_players: usize,
    pub max_rounds: usize,
    pub current_player: usize,
    pub current_round: usize,
    pub current_state: u8,
}

/// The position `k` seats after `from` at a table of `n`, going round.
pub open spec fn seat_after(n: int, from: int, k: int) -> int {
    (from + k) % n
}

/// `k` is the smallest positive step from `start` (at most once round the
/// table) that reaches a seat whose `mask` entry is set.
pub open spec fn first_set_after(mask: Seq<bool>, n: int, start: int, k: int) -> bool {
    &&& 1 <= k <= n
    &&& mask[seat_after(n, start, k)]
    &&& forall|j: int| 1 <= j < k ==> !#[trigger] mask[seat_after(n, start, j)]
}

/// Going round the table from any seat reaches every seat within one round.
pub proof fn lemma_seat_reached(n: int, start: int, j: int)
    requires
        0 <= start < n,
        0 <= j < n,
    ensures
        exists|k: int| 1 <= k <= n && seat_after(n, start, k) == j,
{
    let k = if j > start { j - start } else { j - start + n };
    vstd::arithmetic::div_mod::lemma_mod_add_multiples_vanish(j, n);
    vstd::arithmetic::div_mod::lemma_small_mod(j as nat, n as nat);
    assert(seat_after(n, start, k) == j);
}

/// How many seats after the dealer the acting player sits.
pub open spec fn seat_offset(s: PokerHandState) -> int {
    (s.current_player + s.num_players - s.dealer_button) % (s.num_players as int)
}

/// `x % n` for `x` below `2n`.
pub proof fn lemma_mod_below_twice(x: int, n: int)
    requires
        0 < n,
        0 <= x < 2 * n,
    ensures
        x % n == if x < n { x } else { x - n },
{
    if x < n {
        vstd::arithmetic::div_mod::lemma_small_mod(x as nat, n as nat);
    } else {
        vstd::arithmetic::div_mod::lemma_mod_add_multiples_vanish(x - n, n);
        vstd::arithmetic::div_mod::lemma_small_mod((x - n) as nat, n as nat);
    }
}

/// Passing the turn on moves the offset from the dealer up by one, and
/// reaches the dealer exactly when the last seat has acted.
pub proof fn lemma_offset_step(s: PokerHandState)
    requires
        s.wf(),
    ensures
        ({
            let next = PokerHandState { current_player: ((s.current_player + 1) % (s.num_players as int)) as usize, ..s };
            &&& 0 <= seat_offset(s) < s.num_players
            &&& (s.dealer_button + seat_offset(s)) % (s.num_players as int) == s.current_player
            &&& next.current_player == s.dealer_button ==> seat_offset(s) == s.num_players - 1
            &&& next.current_player != s.dealer_button ==> seat_offset(next) == seat_offset(s) + 1
        }),
{
    let n = s.num_players as int;
    let c = s.current_player as int;
    let d = s.dealer_button as int;
    lemma_mod_below_twice(c + n - d, n);
    lemma_mod_below_twice(c + 1, n);
    let c2 = (c + 1) % n;
    lemma_mod_below_twice(c2 + n - d, n);
    let o = seat_offset(s);
    lemma_mod_below_twice(d + o, n);
}

/// Where [`PokerHandState::next_player_masked`] starts its search.
pub open spec fn rotation_start(s: PokerHandState, from_dealer: bool) -> int {
    if from_dealer { s.dealer_button as int } else { s.current_player as int }
}

impl PokerHandState {
    /// Positions lie on the table.
    pub open spec fn wf(&self) -> bool {
        &&& self.num_players > 0
        &&& self.dealer_button < self.num_players
        &&& self.current_player < self.num_players
    }


    /// The descriptor that [`PokerHandState::to_enum`] returns.
    pub open spec fn enum_of(&self) -> PokerHandStateEnum {
        let player = self.current_player;
        let s = self.current_state;
        if s == POKER_HAND_STATE_SHUFFLE {
            PokerHandStateEnum::Shuffle { player, is_dealer: player == self.dealer_button }
        } else if s == POKER_HAND_STATE_SMALL_BLIND {
            PokerHandStateEnum::SmallBlind { player }
        } else if s == POKER_HAND_STATE_BIG_BLIND {
            PokerHandStateEnum::BigBlind { player }
        } else if s == POKER_HAND_STATE_BET {
            PokerHandStateEnum::Bet { round: self.current_round, player }
        } else if s == POKER_HAND_STATE_UNMASK_HOLE_CARDS {
            PokerHandStateEnum::UnmaskHoleCards { player }
        } else if s == POKER_HAND_STATE_UNMASK_COMMUNITY_CARDS {
            PokerHandStateEnum::UnmaskCommunityCards { round: self.current_round, player }
        } else if s == POKER_HAND_STATE_UNMASK_SHOWDOWN {
            PokerHandStateEnum::UnmaskShowdown { player }
        } else if s == POKER_HAND_STATE_SUBMIT_PUBLIC_KEY {
            PokerHandStateEnum::SubmitPublicKey { player }
        } else if s == POKER_HAND_STATE_CHEATED {
            PokerHandStateEnum::Cheated { player }
        } else if s == POKER_HAND_STATE_FINISHED {
            PokerHandStateEnum::Finished
        } else {
            PokerHandStateEnum::Invalid
        }
    }

    /// A fresh hand: the dealer shuffles first, in the first round.
    pub fn new(num_players: usize, max_rounds: usize, dealer_button: usize) -> (r: Self)
        ensures
            r.num_players == num_players,
            r.max_rounds == max_rounds,
            r.dealer_button == dealer_button,
            r.current_player == dealer_button,
            r.current_round == 0,
            r.current_state == POKER_HAND_STATE_SHUFFLE,
    {
        PokerHandState {
            num_players,
            max_rounds,
            dealer_button,
            current_player: dealer_button,
            current_round: 0,
            current_state: POKER_HAND_STATE_SHUFFLE,
        }
    }

    pub fn is_dealer(&self, player: usize) -> (r: bool)
        ensures
            r == (self.dealer_button == player),
    {
        self.dealer_button == player
    }

    pub fn is_current_dealer(&self) -> (r: bool)
        ensures
            r == (self.dealer_button == self.current_player),
    {
        self.is_dealer(self.current_player)
    }

    pub fn is_finished(&self) -> (r: bool)
        ensures
            r == (self.current_state == POKER_HAND_STATE_FINISHED),
    {
        self.current_state == POKER_HAND_STATE_FINISHED
    }

    pub fn get_current_player(&self) -> (r: usize)
        ensures
            r == self.current_player,
    {
        self.current_player
    }

    /// Hands the turn back to the dealer.
    pub fn next_dealer(&mut self)
        ensures
            *final(self) == (PokerHandState { current_player: old(self).dealer_button, ..*old(self) }),
    {
        self.current_player = self.dealer_button;
    }

    /// Passes the turn to the next seat; true when it comes back to the dealer.
    pub fn next_player(&mut self) -> (wrapped: bool)
        requires
            old(self).wf(),
        ensures
            *final(self) == (PokerHandState {
                current_player: ((old(self).current_player + 1) % (old(self).num_players as int)) as usize,
                ..*old(self)
            }),
            wrapped == (final(self).current_player == old(self).dealer_button),
    {
        self.current_player = (self.current_player + 1) % self.num_players;
        self.current_player == self.dealer_button
    }

    /// Passes the turn to the next seat whose `mask` entry is set, starting
    /// from the dealer (who may act first) when `from_dealer`, else after the
    /// current player. True when no seat qualifies; the turn then stays where
    /// the search started.
    pub fn next_player_masked(&mut self, mask: &Vec<bool>, from_dealer: bool) -> (none_left: bool)
        requires
            old(self).wf(),
            mask@.len() == old(self).num_players,
        ensures
            final(self).wf(),
            *final(self) == (PokerHandState { current_player: final(self).current_player, ..*old(self) }),
            from_dealer && mask@[old(self).dealer_button as int] ==> !none_left
                && final(self).current_player == old(self).dealer_button,
            !(from_dealer && mask@[old(self).dealer_button as int]) ==> (none_left <==> forall|k: int|
                1 <= k <= old(self).num_players ==> !#[trigger] mask@[seat_after(
                    old(self).num_players as int, rotation_start(*old(self), from_dealer), k)]),
            !(from_dealer && mask@[old(self).dealer_button as int]) && !none_left ==> exists|k: int|
                #[trigger] first_set_after(mask@, old(self).num_players as int, rotation_start(*old(self), from_dealer), k)
                && final(self).current_player == seat_after(old(self).num_players as int, rotation_start(*old(self), from_dealer), k),
            none_left ==> final(self).current_player == rotation_start(*old(self), from_dealer),
    {
        let n = self.num_players;
        if from_dealer {
            self.next_dealer();
            if mask[self.current_player] {
                return false;
            }
        }
        let start = self.current_player;
        let mut steps: usize = 0;
        proof {
            vstd::arithmetic::div_mod::lemma_small_mod(start as nat, n as nat);
        }
        loop
            invariant
                self.wf(),
                *self == (PokerHandState { current_player: self.current_player, ..*old(self) }),
                n == self.num_players,
                mask@.len() == n,
                start < n,
                from_dealer ==> start == old(self).dealer_button && !mask@[start as int],
                !from_dealer ==> start == old(self).current_player,
                steps < n,
                self.current_player == seat_after(n as int, start as int, steps as int),
                forall|j: int| 1 <= j <= steps ==> !#[trigger] mask@[seat_after(n as int, start as int, j)],
            decreases n - steps,
        {
            self.next_player();
            steps = steps + 1;
            assert(self.current_player == seat_after(n as int, start as int, steps as int)) by {
                assert((start + steps - 1) % (n as int) + 1 == (start + steps) % (n as int)
                    || ((start + steps - 1) % (n as int) + 1 == n && (start + steps) % (n as int) == 0))
                    by (nonlinear_arith)
                    requires n > 0, start < n, steps <= n, steps >= 1;
                assert(((start + steps - 1) % (n as int) + 1) % (n as int) == (start + steps) % (n as int))
                    by (nonlinear_arith)
                    requires n > 0, start < n, steps <= n, steps >= 1;
            }
            if mask[self.current_player] {
                let ghost st = rotation_start(*old(self), from_dealer);
                assert(first_set_after(mask@, n as int, st, steps as int));
                return false;
            }
            assert forall|j: int| 1 <= j <= steps implies !#[trigger] mask@[seat_after(n as int, start as int, j)] by {
                if j == steps {
                    assert(self.current_player == seat_after(n as int, start as int, j));
                }
            }
            if self.current_player == start {
                assert(steps == n) by {
                    assert((start + steps) % (n as int) == start ==> steps == n)
                        by (nonlinear_arith)
                        requires n > 0, start < n, 1 <= steps <= n;
                }
                assert forall|k: int| 1 <= k <= n implies !#[trigger] mask@[seat_after(n as int, start as int, k)] by {}
                return true;
            }
            if steps == n {
                assert((start + n) % (n as int) == start) by (nonlinear_arith)
                    requires n > 0, start < n;
            }
        }
    }

    /// Moves to the next round; true when that was the last one.
    /// Refused once the rounds are used up.
    pub fn next_round(&mut self) -> (r: Result<bool, PokerError>)
        requires
            old(self).current_round < usize::MAX,
        ensures
            old(self).current_round + 1 > old(self).max_rounds ==> r == Err::<bool, PokerError>(PokerError::Invalid)
                && *final(self) == *old(self),
            old(self).current_round + 1 <= old(self).max_rounds ==> r == Ok::<bool, PokerError>(
                old(self).current_round + 1 == old(self).max_rounds)
                && *final(self) == (PokerHandState { current_round: (old(self).current_round + 1) as usize, ..*old(self) }),
    {
        let next_round = self.current_round + 1;
        if next_round > self.max_rounds {
            return Err(PokerError::Invalid);
        }
        self.current_round = next_round;
        Ok(next_round == self.max_rounds)
    }

    pub fn to_tuple(&self) -> (r: (usize, usize, u8))
        ensures
            r == (self.current_round, self.current_player, self.current_state),
    {
        (self.current_round, self.current_player, self.current_state)
    }

    /// The operation the hand waits for.
    pub fn to_enum(&self) -> (r: PokerHandStateEnum)
        ensures
            r == self.enum_of(),
    {
        let player = self.current_player;
        let s = self.current_state;
        if s == POKER_HAND_STATE_SHUFFLE {
            PokerHandStateEnum::Shuffle { player, is_dealer: self.is_current_dealer() }
        } else if s == POKER_HAND_STATE_SMALL_BLIND {
            PokerHandStateEnum::SmallBlind { player }
        } else if s == POKER_HAND_STATE_BIG_BLIND {
            PokerHandStateEnum::BigBlind { player }
        } else if s == POKER_HAND_STATE_BET {
            PokerHandStateEnum::Bet { round: self.current_round, player }
        } else if s == POKER_HAND_STATE_UNMASK_HOLE_CARDS {
            PokerHandStateEnum::UnmaskHoleCards { player }
        } else if s == POKER_HAND_STATE_UNMASK_COMMUNITY_CARDS {
            PokerHandStateEnum::UnmaskCommunityCards { round: self.current_round, player }
        } else if s == POKER_HAND_STATE_UNMASK_SHOWDOWN {
            PokerHandStateEnum::UnmaskShowdown { player }
        } else if s == POKER_HAND_STATE_SUBMIT_PUBLIC_KEY {
            PokerHandStateEnum::SubmitPublicKey { player }
        } else if s == POKER_HAND_STATE_CHEATED {
            PokerHandStateEnum::Cheated { player }
        } else if s == POKER_HAND_STATE_FINISHED {
            PokerHandStateEnum::Finished
        } else {
            PokerHandStateEnum::Invalid
        }
    }
}

} // verus!
