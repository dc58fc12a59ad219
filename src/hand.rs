//! One hand of hold'em: the state machine that takes each player's
//! submissions in turn, keeps the betting ledger and the audit records, and
//! at the end checks every shuffle and every peel.
use vstd::prelude::*;

use crate::audit::{
    audit_trail, audit_verdict, cards_view, keys_view, records_view, replay_unmasking, UnmaskRecord,
};
use crate::bets::PokerBettingState;
use crate::bls::PublicKey;
use crate::deck::{MaskedCards, PokerDeck, UnmaskedCards, DECK_SIZE};
use crate::error::PokerError;
use crate::shuffle::{points_view, traced_outcome, verify_shuffle_traced, ShuffleTrace};
use crate::state::{
    first_set_after, lemma_mod_below_twice, lemma_offset_step, seat_after, seat_offset,
    PokerHandState, POKER_HAND_STATE_BET, POKER_HAND_STATE_BIG_BLIND, POKER_HAND_STATE_CHEATED,
    POKER_HAND_STATE_FINISHED, POKER_HAND_STATE_SHUFFLE, POKER_HAND_STATE_SMALL_BLIND,
    POKER_HAND_STATE_SUBMIT_PUBLIC_KEY, POKER_HAND_STATE_UNMASK_COMMUNITY_CARDS,
    POKER_HAND_STATE_UNMASK_HOLE_CARDS, POKER_HAND_STATE_UNMASK_SHOWDOWN, POKER_HOLDEM_PREFLOP,
};

verus! {

/// The position of a phase in the order a hand goes through: shuffle,
/// blinds, hole-card peels, then per street a community peel (not before the
/// flop) and a betting round, then showdown, keys and the end.
pub open spec fn phase_rank(s: PokerHandState) -> int {
    let st = s.current_state;
    let m = s.max_rounds as int;
    let r = s.current_round as int;
    if st == POKER_HAND_STATE_SHUFFLE {
        0
    } else if st == POKER_HAND_STATE_SMALL_BLIND {
        1
    } else if st == POKER_HAND_STATE_BIG_BLIND {
        2
    } else if st == POKER_HAND_STATE_UNMASK_HOLE_CARDS {
        3
    } else if st == POKER_HAND_STATE_BET {
        4 + 2 * r
    } else if st == POKER_HAND_STATE_UNMASK_COMMUNITY_CARDS {
        3 + 2 * r
    } else if st == POKER_HAND_STATE_UNMASK_SHOWDOWN {
        2 * m + 4
    } else if st == POKER_HAND_STATE_SUBMIT_PUBLIC_KEY {
        2 * m + 5
    } else if st == POKER_HAND_STATE_FINISHED || st == POKER_HAND_STATE_CHEATED {
        2 * m + 6
    } else {
        2 * m + 7
    }
}

/// Cards dealt to a street before its community peel: three for the flop, one after.
pub open spec fn deal_count(round: int) -> int {
    if round == 0 { 3 } else { 1 }
}

/// Cards left in the working deck during street `round`, once the hole cards are out.
pub open spec fn cards_left(num_players: int, round: int) -> int {
    DECK_SIZE - 2 * num_players - if round == 0 { 0 } else { round + 2 }
}

/// Every entry of a history has the full deck.
pub open spec fn full_decks(history: Seq<MaskedCards>) -> bool {
    forall|i: int| 0 <= i < history.len() ==> (#[trigger] history[i]).cards_g1@.len() == DECK_SIZE
}

/// A hand of hold'em between `num_players` players.
pub struct PokerHand {
    pub poker_deck: PokerDeck,
    pub shuffled_deck: MaskedCards,
    pub shuffle_history: Vec<MaskedCards>,
    pub player_cards: Vec<UnmaskedCards>,
    pub player_keys: Vec<Option<PublicKey>>,
    pub community_cards: Vec<UnmaskedCards>,
    pub unmasking_sequence: Vec<UnmaskRecord>,
    pub current_state: PokerHandState,
    pub betting_state: PokerBettingState,
    pub small_blind: u64,
}

impl PokerHand {
    pub open spec fn num_players(&self) -> int {
        self.current_state.num_players as int
    }

    /// The hand is consistent: one entry per player everywhere, the deck
    /// holds what the phase needs, and the round fits the phase.
    pub open spec fn wf(&self) -> bool {
        let s = self.current_state;
        let n = s.num_players as int;
        let st = s.current_state;
        let r = s.current_round as int;
        let m = s.max_rounds as int;
        &&& s.wf()
        &&& self.betting_state.wf()
        &&& self.betting_state@.num_players() == n
        &&& self.poker_deck.wf()
        &&& self.player_cards@.len() == n
        &&& self.player_keys@.len() == n
        &&& self.community_cards@.len() == m
        &&& m >= 1
        &&& 2 * n + m + 1 <= DECK_SIZE
        &&& self.small_blind <= u64::MAX / 2
        &&& full_decks(self.shuffle_history@)
        &&& st == POKER_HAND_STATE_SHUFFLE ==> self.shuffle_history@.len() == seat_offset(s)
        &&& st != POKER_HAND_STATE_SHUFFLE && st != POKER_HAND_STATE_CHEATED ==> self.shuffle_history@.len() == n
        &&& st == POKER_HAND_STATE_SUBMIT_PUBLIC_KEY ==> forall|k: int|
            0 <= k < seat_offset(s) ==> (#[trigger] self.player_keys@[(s.dealer_button + k) % n]) is Some
        &&& st <= POKER_HAND_STATE_CHEATED
        &&& r <= m
        &&& (st == POKER_HAND_STATE_SHUFFLE || st == POKER_HAND_STATE_SMALL_BLIND || st
            == POKER_HAND_STATE_BIG_BLIND) ==> r == 0 && self.shuffled_deck.cards_g1@.len() == DECK_SIZE
        &&& st == POKER_HAND_STATE_UNMASK_HOLE_CARDS ==> r == 0
        &&& st == POKER_HAND_STATE_BET ==> r < m
        &&& st == POKER_HAND_STATE_UNMASK_COMMUNITY_CARDS ==> 1 <= r < m
        &&& (st == POKER_HAND_STATE_UNMASK_HOLE_CARDS || st == POKER_HAND_STATE_BET || st
            == POKER_HAND_STATE_UNMASK_COMMUNITY_CARDS) ==> self.shuffled_deck.cards_g1@.len() == cards_left(n, r)
    }

    /// A new hand: nobody has shuffled, everyone holds `initial_chips`, and
    /// the dealer acts first.
    pub fn new(
        num_players: usize,
        max_rounds: usize,
        dealer_button: usize,
        initial_chips: u64,
        small_blind: u64,
        poker_deck: PokerDeck,
    ) -> (r: Self)
        requires
            0 < num_players,
            dealer_button < num_players,
            1 <= max_rounds,
            2 * num_players + max_rounds + 1 <= DECK_SIZE,
            num_players * initial_chips <= u64::MAX,
            small_blind <= u64::MAX / 2,
            poker_deck.wf(),
        ensures
            r.wf(),
            r.current_state == (PokerHandState {
                num_players,
                max_rounds,
                dealer_button,
                current_player: dealer_button,
                current_round: 0,
                current_state: POKER_HAND_STATE_SHUFFLE,
            }),
            r.shuffled_deck.cards_g1@ == poker_deck.cards_g1@,
            r.shuffle_history@.len() == 0,
            r.unmasking_sequence@.len() == 0,
            r.betting_state@.chips == Seq::new(num_players as nat, |i: int| initial_chips),
            r.betting_state@.pot == 0,
            r.small_blind == small_blind,
            forall|i: int| 0 <= i < num_players ==> (#[trigger] r.player_keys@[i]) is None,
    {
        let shuffled_deck = poker_deck.masked_cards();
        let mut player_cards: Vec<UnmaskedCards> = Vec::new();
        let mut player_keys: Vec<Option<PublicKey>> = Vec::new();
        let mut i: usize = 0;
        while i < num_players
            invariant
                i <= num_players,
                player_cards@.len() == i,
                player_keys@.len() == i,
                forall|j: int| 0 <= j < i ==> (#[trigger] player_keys@[j]) is None,
            decreases num_players - i,
        {
            player_cards.push(UnmaskedCards::empty());
            player_keys.push(None);
            i = i + 1;
        }
        let mut community_cards: Vec<UnmaskedCards> = Vec::new();
        let mut k: usize = 0;
        while k < max_rounds
            invariant
                k <= max_rounds,
                community_cards@.len() == k,
            decreases max_rounds - k,
        {
            community_cards.push(UnmaskedCards::empty());
            k = k + 1;
        }
        proof {
            lemma_mod_below_twice(num_players as int, num_players as int);
        }
        PokerHand {
            poker_deck,
            shuffled_deck,
            shuffle_history: Vec::new(),
            player_cards,
            player_keys,
            community_cards,
            unmasking_sequence: Vec::new(),
            current_state: PokerHandState::new(num_players, max_rounds, dealer_button),
            betting_state: PokerBettingState::new(num_players, initial_chips),
            small_blind,
        }
    }

    /// Phase, round and acting player.
    pub fn get_current_state(&self) -> (r: &PokerHandState)
        ensures
            *r == self.current_state,
    {
        &self.current_state
    }

    /// The card dictionary, the same for every player.
    pub fn get_poker_deck(&self) -> (r: &PokerDeck)
        ensures
            *r == self.poker_deck,
    {
        &self.poker_deck
    }

    /// The deck the next shuffler starts from, or that cards are dealt from.
    pub fn get_shuffled_deck(&self) -> (r: &MaskedCards)
        ensures
            *r == self.shuffled_deck,
    {
        &self.shuffled_deck
    }

    /// The hole cards of every player, in their current state of peeling.
    pub fn get_player_cards(&self) -> (r: &Vec<UnmaskedCards>)
        ensures
            *r == self.player_cards,
    {
        &self.player_cards
    }

    /// The community cards dealt for `round` (1 for the flop); none before the flop.
    pub fn get_community_cards(&self, round: usize) -> (r: Option<&UnmaskedCards>)
        ensures
            (round == POKER_HOLDEM_PREFLOP || round > self.community_cards@.len()) ==> r is None,
            (round != POKER_HOLDEM_PREFLOP && round <= self.community_cards@.len()) ==> (r matches Some(c)
                && *c == self.community_cards@[round - 1]),
    {
        if round == POKER_HOLDEM_PREFLOP || round > self.community_cards.len() {
            return None;
        }
        Some(&self.community_cards[round - 1])
    }

    /// The betting ledger.
    pub fn get_betting_state(&self) -> (r: &PokerBettingState)
        ensures
            *r == self.betting_state,
    {
        &self.betting_state
    }

    /// The peel submissions in the order they were made.
    pub fn get_unmasking_sequence(&self) -> (r: &Vec<UnmaskRecord>)
        ensures
            *r == self.unmasking_sequence,
    {
        &self.unmasking_sequence
    }

    /// What `player` must put in to call (see [`PokerBettingState::call_amount_required`]).
    pub fn get_call_amount_required(&self, player: usize) -> (r: Result<u64, PokerError>)
        requires
            self.wf(),
            player < self.num_players(),
        ensures
            !self.betting_state@.active[player as int] ==> r == Err::<u64, PokerError>(PokerError::AlreadyFolded),
            self.betting_state@.active[player as int] ==> r == Ok::<u64, PokerError>(self.betting_state@.owed(player as int) as u64),
    {
        self.betting_state.call_amount_required(player)
    }

    /// The stack of `player`.
    pub fn get_chips_remaining(&self, player: usize) -> (r: u64)
        requires
            self.wf(),
            player < self.num_players(),
        ensures
            r == self.betting_state@.chips[player as int],
    {
        self.betting_state.chips_remaining(player)
    }

    pub fn get_small_blind(&self) -> (r: u64)
        ensures
            r == self.small_blind,
    {
        self.small_blind
    }

    /// Twice the small blind.
    pub fn get_big_blind(&self) -> (r: u64)
        requires
            self.wf(),
        ensures
            r == 2 * self.small_blind,
    {
        self.small_blind * 2
    }
}

impl PokerHand {
    /// At the end of a betting round the dealer acts first again and the
    /// hand moves on: to the community peel of the next street, after the
    /// next community cards are dealt, or after the last street to showdown.
    fn check_betting_round_complete(&mut self)
        requires
            old(self).wf(),
            old(self).current_state.current_state == POKER_HAND_STATE_BET,
        ensures
            final(self).wf(),
            phase_rank(final(self).current_state) >= phase_rank(old(self).current_state),
            final(self).betting_state == old(self).betting_state,
            final(self).shuffle_history == old(self).shuffle_history,
            final(self).unmasking_sequence == old(self).unmasking_sequence,
            final(self).player_cards == old(self).player_cards,
            final(self).player_keys == old(self).player_keys,
            final(self).poker_deck == old(self).poker_deck,
            final(self).small_blind == old(self).small_blind,
            final(self).current_state.num_players == old(self).current_state.num_players,
            final(self).current_state.dealer_button == old(self).current_state.dealer_button,
            final(self).current_state.max_rounds == old(self).current_state.max_rounds,
            final(self).community_cards@.len() == old(self).community_cards@.len(),
            forall|i: int| 0 <= i < old(self).community_cards@.len() && i != old(self).current_state.current_round
                ==> #[trigger] final(self).community_cards@[i] == old(self).community_cards@[i],
            !old(self).betting_state@.round_complete() ==> *final(self) == *old(self),
            old(self).betting_state@.round_complete() ==> {
                let r = old(self).current_state.current_round as int;
                &&& final(self).current_state.current_player == old(self).current_state.dealer_button
                &&& final(self).current_state.current_round == r + 1
                &&& r + 1 == old(self).current_state.max_rounds ==> final(self).current_state.current_state
                    == POKER_HAND_STATE_UNMASK_SHOWDOWN
                &&& r + 1 < old(self).current_state.max_rounds ==> {
                    &&& final(self).current_state.current_state == POKER_HAND_STATE_UNMASK_COMMUNITY_CARDS
                    &&& final(self).community_cards@ == old(self).community_cards@.update(r, final(self).community_cards@[r])
                    &&& final(self).community_cards@[r].cards_g1@ == old(self).shuffled_deck.cards_g1@.take(deal_count(r))
                    &&& final(self).shuffled_deck.cards_g1@ == old(self).shuffled_deck.cards_g1@.skip(deal_count(r))
                }
            },
    {
        if self.betting_state.is_betting_round_complete() {
            self.current_state.next_dealer();
            let round = self.current_state.current_round;
            match self.current_state.next_round() {
                Ok(true) => {
                    self.current_state.current_state = POKER_HAND_STATE_UNMASK_SHOWDOWN;
                },
                Ok(false) => {
                    let count: usize = if round == 0 { 3 } else { 1 };
                    let dealt = self.shuffled_deck.deal(count);
                    self.community_cards.set(round, dealt);
                    self.current_state.current_state = POKER_HAND_STATE_UNMASK_COMMUNITY_CARDS;
                },
                Err(_) => {
                    assert(false);
                },
            }
        }
    }

    /// The current shuffler hands in the deck it masked and permuted.
    /// After the last player (the one before the dealer) the blinds follow.
    pub fn submit_shuffled_deck(&mut self, player: usize, deck: MaskedCards) -> (r: Result<(), PokerError>)
        requires
            old(self).wf(),
        ensures
            final(self).wf(),
            old(self).current_state.current_state != POKER_HAND_STATE_SHUFFLE ==> r == Err::<(), PokerError>(PokerError::WrongPhase)
                && *final(self) == *old(self),
            old(self).current_state.current_state == POKER_HAND_STATE_SHUFFLE && player != old(self).current_state.current_player
                ==> r == Err::<(), PokerError>(PokerError::WrongTurn) && *final(self) == *old(self),
            old(self).current_state.current_state == POKER_HAND_STATE_SHUFFLE && player == old(self).current_state.current_player
                && deck.cards_g1@.len() != DECK_SIZE ==> r == Err::<(), PokerError>(PokerError::LengthMismatch) && *final(self) == *old(self),
            old(self).current_state.current_state == POKER_HAND_STATE_SHUFFLE && player == old(self).current_state.current_player
                && deck.cards_g1@.len() == DECK_SIZE ==> r is Ok,
            r is Ok ==> {
                &&& old(self).current_state.current_state == POKER_HAND_STATE_SHUFFLE
                &&& player == old(self).current_state.current_player
                &&& deck.cards_g1@.len() == DECK_SIZE
                &&& phase_rank(final(self).current_state) >= phase_rank(old(self).current_state)
                &&& final(self).shuffled_deck.cards_g1@ == deck.cards_g1@
                &&& final(self).shuffle_history@.len() == old(self).shuffle_history@.len() + 1
                &&& final(self).shuffle_history@.last().cards_g1@ == deck.cards_g1@
                &&& final(self).current_state.current_player == (player + 1) % (old(self).num_players())
                &&& final(self).current_state.current_state == if final(self).current_state.current_player
                    == old(self).current_state.dealer_button { POKER_HAND_STATE_SMALL_BLIND } else { POKER_HAND_STATE_SHUFFLE }
            },
    {
        if self.current_state.current_state != POKER_HAND_STATE_SHUFFLE {
            return Err(PokerError::WrongPhase);
        }
        if self.current_state.current_player != player {
            return Err(PokerError::WrongTurn);
        }
        if deck.len() != DECK_SIZE {
            return Err(PokerError::LengthMismatch);
        }
        proof {
            lemma_offset_step(self.current_state);
            vstd::arithmetic::div_mod::lemma_small_mod(self.current_state.dealer_button as nat, self.current_state.num_players as nat);
        }
        self.shuffle_history.push(MaskedCards::new(deck.cards()));
        self.shuffled_deck = deck;
        if self.current_state.next_player() {
            self.current_state.current_state = POKER_HAND_STATE_SMALL_BLIND;
        }
        assert(full_decks(self.shuffle_history@)) by {
            assert forall|i: int| 0 <= i < self.shuffle_history@.len() implies (#[trigger] self.shuffle_history@[i]).cards_g1@.len() == DECK_SIZE by {
                if i < old(self).shuffle_history@.len() {
                    assert(self.shuffle_history@[i] == old(self).shuffle_history@[i]);
                }
            }
        }
        Ok(())
    }

    /// The player after the dealer posts the small blind.
    pub fn submit_small_blind(&mut self, player: usize) -> (r: Result<(), PokerError>)
        requires
            old(self).wf(),
        ensures
            final(self).wf(),
            old(self).current_state.current_state != POKER_HAND_STATE_SMALL_BLIND ==> r == Err::<(), PokerError>(PokerError::WrongPhase)
                && *final(self) == *old(self),
            old(self).current_state.current_state == POKER_HAND_STATE_SMALL_BLIND && player != old(self).current_state.current_player
                ==> r == Err::<(), PokerError>(PokerError::WrongTurn) && *final(self) == *old(self),
            old(self).current_state.current_state == POKER_HAND_STATE_SMALL_BLIND && player == old(self).current_state.current_player
                ==> {
                let (outcome, ledger) = old(self).betting_state@.action(player as int, old(self).small_blind);
                &&& r == outcome
                &&& final(self).betting_state@ == ledger
                &&& r is Err ==> *final(self) == *old(self)
                &&& r is Ok ==> final(self).current_state.current_state == POKER_HAND_STATE_BIG_BLIND
                    && final(self).current_state.current_player == (player + 1) % (old(self).num_players())
                    && phase_rank(final(self).current_state) >= phase_rank(old(self).current_state)
            },
    {
        if self.current_state.current_state != POKER_HAND_STATE_SMALL_BLIND {
            return Err(PokerError::WrongPhase);
        }
        if self.current_state.current_player != player {
            return Err(PokerError::WrongTurn);
        }
        let amount = self.small_blind;
        match self.betting_state.process_action(player, amount) {
            Ok(()) => {},
            Err(e) => {
                return Err(e);
            },
        }
        self.current_state.next_player();
        self.current_state.current_state = POKER_HAND_STATE_BIG_BLIND;
        Ok(())
    }

    /// The next player posts the big blind; then two cards are dealt to
    /// every player and the dealer starts the hole-card peels.
    pub fn submit_big_blind(&mut self, player: usize) -> (r: Result<(), PokerError>)
        requires
            old(self).wf(),
        ensures
            final(self).wf(),
            old(self).current_state.current_state != POKER_HAND_STATE_BIG_BLIND ==> r == Err::<(), PokerError>(PokerError::WrongPhase)
                && *final(self) == *old(self),
            old(self).current_state.current_state == POKER_HAND_STATE_BIG_BLIND && player != old(self).current_state.current_player
                ==> r == Err::<(), PokerError>(PokerError::WrongTurn) && *final(self) == *old(self),
            old(self).current_state.current_state == POKER_HAND_STATE_BIG_BLIND && player == old(self).current_state.current_player
                ==> {
                let (outcome, ledger) = old(self).betting_state@.action(player as int, (2 * old(self).small_blind) as u64);
                &&& r == outcome
                &&& final(self).betting_state@ == ledger
                &&& r is Err ==> *final(self) == *old(self)
                &&& r is Ok ==> {
                    &&& final(self).current_state.current_state == POKER_HAND_STATE_UNMASK_HOLE_CARDS
                    &&& final(self).current_state.current_player == old(self).current_state.dealer_button
                    &&& phase_rank(final(self).current_state) >= phase_rank(old(self).current_state)
                    &&& forall|t: int| 0 <= t < old(self).num_players() ==> (#[trigger] final(self).player_cards@[t]).cards_g1@
                        == old(self).shuffled_deck.cards_g1@.subrange(2 * t, 2 * t + 2)
                    &&& final(self).shuffled_deck.cards_g1@ == old(self).shuffled_deck.cards_g1@.skip(2 * old(self).num_players())
                }
            },
    {
        if self.current_state.current_state != POKER_HAND_STATE_BIG_BLIND {
            return Err(PokerError::WrongPhase);
        }
        if self.current_state.current_player != player {
            return Err(PokerError::WrongTurn);
        }
        let amount = self.get_big_blind();
        match self.betting_state.process_action(player, amount) {
            Ok(()) => {},
            Err(e) => {
                return Err(e);
            },
        }
        let n = self.current_state.num_players;
        let ghost deck0 = self.shuffled_deck.cards_g1@;
        let ghost pre = *self;
        let mut t: usize = 0;
        while t < n
            invariant
                n == self.current_state.num_players,
                n == self.player_cards@.len(),
                2 * n + 2 <= DECK_SIZE,
                *self == (PokerHand { shuffled_deck: self.shuffled_deck, player_cards: self.player_cards, ..pre }),
                deck0.len() == DECK_SIZE,
                t <= n,
                self.shuffled_deck.cards_g1@ == deck0.skip(2 * t),
                forall|u: int| 0 <= u < t ==> (#[trigger] self.player_cards@[u]).cards_g1@ == deck0.subrange(2 * u, 2 * u + 2),
            decreases n - t,
        {
            let ghost before = self.shuffled_deck.cards_g1@;
            let dealt = self.shuffled_deck.deal(2);
            self.player_cards.set(t, dealt);
            assert(dealt.cards_g1@ =~= deck0.subrange(2 * t, 2 * t + 2));
            assert(self.shuffled_deck.cards_g1@ =~= deck0.skip(2 * t + 2));
            t = t + 1;
        }
        self.current_state.next_dealer();
        self.current_state.current_state = POKER_HAND_STATE_UNMASK_HOLE_CARDS;
        Ok(())
    }

    /// The acting player bets `amount` (nothing to check or fold); the turn
    /// passes to the next player still in the hand, and a finished betting
    /// round moves the hand on.
    pub fn submit_bet(&mut self, player: usize, amount: u64) -> (r: Result<(), PokerError>)
        requires
            old(self).wf(),
        ensures
            final(self).wf(),
            old(self).current_state.current_state != POKER_HAND_STATE_BET ==> r == Err::<(), PokerError>(PokerError::WrongPhase)
                && *final(self) == *old(self),
            old(self).current_state.current_state == POKER_HAND_STATE_BET && player != old(self).current_state.current_player
                ==> r == Err::<(), PokerError>(PokerError::WrongTurn) && *final(self) == *old(self),
            old(self).current_state.current_state == POKER_HAND_STATE_BET && player == old(self).current_state.current_player
                ==> {
                let (outcome, ledger) = old(self).betting_state@.action(player as int, amount);
                &&& r == outcome
                &&& final(self).betting_state@ == ledger
                &&& r is Err ==> *final(self) == *old(self)
                &&& r is Ok ==> phase_rank(final(self).current_state) >= phase_rank(old(self).current_state)
            },
            r is Ok && !final(self).betting_state@.round_complete() ==> {
                &&& final(self).current_state.current_state == POKER_HAND_STATE_BET
                &&& final(self).current_state.current_round == old(self).current_state.current_round
                &&& exists|k: int| #[trigger] first_set_after(final(self).betting_state@.active, old(self).num_players(), player as int, k)
                    && final(self).current_state.current_player == seat_after(old(self).num_players(), player as int, k)
            },
            r is Ok && final(self).betting_state@.round_complete() ==> final(self).current_state.current_player
                == old(self).current_state.dealer_button && final(self).current_state.current_round
                == old(self).current_state.current_round + 1,
    {
        if self.current_state.current_state != POKER_HAND_STATE_BET {
            return Err(PokerError::WrongPhase);
        }
        if self.current_state.current_player != player {
            return Err(PokerError::WrongTurn);
        }
        match self.betting_state.process_action(player, amount) {
            Ok(()) => {},
            Err(e) => {
                return Err(e);
            },
        }
        proof {
            if !self.betting_state@.round_complete() {
                crate::bets::lemma_count_true_witness(self.betting_state@.active);
                let j = choose|j: int| 0 <= j < self.betting_state@.active.len() && self.betting_state@.active[j];
                crate::state::lemma_seat_reached(self.num_players(), player as int, j);
                let k = choose|k: int| 1 <= k <= self.num_players() && seat_after(self.num_players(), player as int, k) == j;
                assert(self.betting_state@.active[seat_after(self.num_players(), player as int, k)]);
            }
        }
        let ghost n = self.num_players();
        self.current_state.next_player_masked(&self.betting_state.active_players, false);
        let ghost mid = *self;
        self.check_betting_round_complete();
        proof {
            if !self.betting_state@.round_complete() {
                assert(*self == mid);
                assert(n == old(self).num_players());
            }
        }
        Ok(())
    }
}

/// Chips are never created or lost: in every consistent state of a hand,
/// the terminal ones included, the pot plus all stacks equals the number of
/// players times the initial stack.
pub proof fn lemma_chips_conserved(h: PokerHand)
    requires
        h.wf(),
    ensures
        h.betting_state@.pot + crate::bets::sum_u64(h.betting_state@.chips) == h.num_players() * h.betting_state@.initial,
{
}

/// Copies a set of hands of cards.
fn copy_card_sets(v: &Vec<UnmaskedCards>) -> (r: Vec<UnmaskedCards>)
    ensures
        r@.len() == v@.len(),
        cards_view(r@) == cards_view(v@),
        forall|i: int| 0 <= i < v@.len() ==> (#[trigger] r@[i]).cards_g1@ == v@[i].cards_g1@,
{
    let mut r: Vec<UnmaskedCards> = Vec::new();
    let mut i: usize = 0;
    while i < v.len()
        invariant
            i <= v@.len(),
            r@.len() == i,
            forall|j: int| 0 <= j < i ==> (#[trigger] r@[j]).cards_g1@ == v@[j].cards_g1@,
        decreases v@.len() - i,
    {
        r.push(UnmaskedCards::new(v[i].cards()));
        i = i + 1;
    }
    assert(cards_view(r@) =~= cards_view(v@));
    r
}

/// Whether two sets of hands have the same number of hands of the same sizes.
fn same_shapes(a: &Vec<UnmaskedCards>, b: &Vec<UnmaskedCards>) -> (r: bool)
    ensures
        r == (a@.len() == b@.len() && forall|i: int| 0 <= i < a@.len() ==> (#[trigger] a@[i]).cards_g1@.len() == b@[i].cards_g1@.len()),
{
    if a.len() != b.len() {
        return false;
    }
    let mut i: usize = 0;
    while i < a.len()
        invariant
            a@.len() == b@.len(),
            i <= a@.len(),
            forall|j: int| 0 <= j < i ==> (#[trigger] a@[j]).cards_g1@.len() == b@[j].cards_g1@.len(),
        decreases a@.len() - i,
    {
        if a[i].cards_g1.len() != b[i].cards_g1.len() {
            return false;
        }
        i = i + 1;
    }
    true
}

/// Which shuffle of the dealer-relative order `player` made.
pub open spec fn shuffle_step(s: PokerHandState, player: int) -> int {
    (player + s.num_players - s.dealer_button) % (s.num_players as int)
}

/// The public keys, all of which are known.
pub open spec fn known_keys(keys: Seq<Option<PublicKey>>) -> Seq<Seq<u8>> {
    Seq::new(keys.len(), |i: int| keys[i].unwrap()@)
}

impl PokerHand {
    /// The decks before and after the shuffle that `player` made.
    pub open spec fn shuffle_decks(&self, player: int) -> (Seq<Seq<u8>>, Seq<Seq<u8>>) {
        let step = shuffle_step(self.current_state, player);
        let before = if step == 0 { self.poker_deck.cards_g1@ } else { self.shuffle_history@[step - 1].cards_g1@ };
        (points_view(before), points_view(self.shuffle_history@[step].cards_g1@))
    }

    /// The hole-card peel of the acting player, who hands in every player's
    /// cards with all but its own peeled by one layer. After the last player
    /// the preflop betting starts with the dealer (or the first player still
    /// in the hand after it).
    pub fn submit_player_cards(&mut self, player: usize, player_cards: Vec<UnmaskedCards>) -> (r: Result<(), PokerError>)
        requires
            old(self).wf(),
        ensures
            final(self).wf(),
            old(self).current_state.current_state != POKER_HAND_STATE_UNMASK_HOLE_CARDS ==> r == Err::<(), PokerError>(PokerError::WrongPhase)
                && *final(self) == *old(self),
            old(self).current_state.current_state == POKER_HAND_STATE_UNMASK_HOLE_CARDS && player != old(self).current_state.current_player
                ==> r == Err::<(), PokerError>(PokerError::WrongTurn) && *final(self) == *old(self),
            old(self).current_state.current_state == POKER_HAND_STATE_UNMASK_HOLE_CARDS && player == old(self).current_state.current_player
                && !(player_cards@.len() == old(self).player_cards@.len() && forall|i: int| 0 <= i < player_cards@.len()
                    ==> (#[trigger] player_cards@[i]).cards_g1@.len() == old(self).player_cards@[i].cards_g1@.len())
                ==> r == Err::<(), PokerError>(PokerError::LengthMismatch) && *final(self) == *old(self),
            old(self).current_state.current_state == POKER_HAND_STATE_UNMASK_HOLE_CARDS && player == old(self).current_state.current_player
                && player_cards@.len() == old(self).player_cards@.len() && (forall|i: int| 0 <= i < player_cards@.len()
                    ==> (#[trigger] player_cards@[i]).cards_g1@.len() == old(self).player_cards@[i].cards_g1@.len()) ==> r is Ok,
            r is Ok ==> {
                &&& old(self).current_state.current_state == POKER_HAND_STATE_UNMASK_HOLE_CARDS
                &&& player == old(self).current_state.current_player
                &&& phase_rank(final(self).current_state) >= phase_rank(old(self).current_state)
                &&& cards_view(final(self).player_cards@) == cards_view(player_cards@)
                &&& records_view(final(self).unmasking_sequence@) == records_view(old(self).unmasking_sequence@).push(
                    (player, POKER_HAND_STATE_UNMASK_HOLE_CARDS, cards_view(player_cards@)))
                &&& (player + 1) % old(self).num_players() != old(self).current_state.dealer_button ==> final(self).current_state
                    == (PokerHandState { current_player: ((player + 1) % old(self).num_players()) as usize, ..old(self).current_state })
                &&& (player + 1) % old(self).num_players() == old(self).current_state.dealer_button ==> final(self).current_state.current_state
                    != POKER_HAND_STATE_UNMASK_HOLE_CARDS
            },
    {
        if self.current_state.current_state != POKER_HAND_STATE_UNMASK_HOLE_CARDS {
            return Err(PokerError::WrongPhase);
        }
        if self.current_state.current_player != player {
            return Err(PokerError::WrongTurn);
        }
        if !same_shapes(&player_cards, &self.player_cards) {
            return Err(PokerError::LengthMismatch);
        }
        let rec = UnmaskRecord { player, kind: POKER_HAND_STATE_UNMASK_HOLE_CARDS, cards: copy_card_sets(&player_cards) };
        let ghost seq0 = self.unmasking_sequence@;
        self.unmasking_sequence.push(rec);
        assert(records_view(self.unmasking_sequence@) =~= records_view(seq0).push(rec@));
        self.player_cards = player_cards;
        if self.current_state.next_player() {
            self.current_state.next_player_masked(&self.betting_state.active_players, true);
            self.betting_state.next_street();
            self.current_state.current_state = POKER_HAND_STATE_BET;
            self.check_betting_round_complete();
        }
        Ok(())
    }

    /// The community peel of the acting player for `round` (1 for the flop):
    /// the street's cards, peeled by one more layer. After the last player
    /// the street's betting starts.
    pub fn submit_community_cards(&mut self, player: usize, round: usize, cards: UnmaskedCards) -> (r: Result<(), PokerError>)
        requires
            old(self).wf(),
        ensures
            final(self).wf(),
            (old(self).current_state.current_state != POKER_HAND_STATE_UNMASK_COMMUNITY_CARDS || round
                != old(self).current_state.current_round) ==> r == Err::<(), PokerError>(PokerError::WrongPhase) && *final(self) == *old(self),
            old(self).current_state.current_state == POKER_HAND_STATE_UNMASK_COMMUNITY_CARDS && round == old(self).current_state.current_round
                && player != old(self).current_state.current_player ==> r == Err::<(), PokerError>(PokerError::WrongTurn)
                && *final(self) == *old(self),
            old(self).current_state.current_state == POKER_HAND_STATE_UNMASK_COMMUNITY_CARDS && round == old(self).current_state.current_round
                && player == old(self).current_state.current_player && cards.cards_g1@.len() != old(self).community_cards@[round - 1].cards_g1@.len()
                ==> r == Err::<(), PokerError>(PokerError::LengthMismatch) && *final(self) == *old(self),
            old(self).current_state.current_state == POKER_HAND_STATE_UNMASK_COMMUNITY_CARDS && round == old(self).current_state.current_round
                && player == old(self).current_state.current_player && cards.cards_g1@.len() == old(self).community_cards@[round - 1].cards_g1@.len()
                ==> r is Ok,
            r is Ok ==> {
                &&& old(self).current_state.current_state == POKER_HAND_STATE_UNMASK_COMMUNITY_CARDS
                &&& round == old(self).current_state.current_round
                &&& player == old(self).current_state.current_player
                &&& phase_rank(final(self).current_state) >= phase_rank(old(self).current_state)
                &&& final(self).community_cards@[round - 1].cards_g1@ == cards.cards_g1@
                &&& records_view(final(self).unmasking_sequence@) == records_view(old(self).unmasking_sequence@).push(
                    (player, POKER_HAND_STATE_UNMASK_COMMUNITY_CARDS, seq![points_view(cards.cards_g1@)]))
                &&& (player + 1) % old(self).num_players() != old(self).current_state.dealer_button ==> final(self).current_state
                    == (PokerHandState { current_player: ((player + 1) % old(self).num_players()) as usize, ..old(self).current_state })
                &&& (player + 1) % old(self).num_players() == old(self).current_state.dealer_button ==> phase_rank(final(self).current_state)
                    > phase_rank(old(self).current_state)
            },
    {
        if self.current_state.current_state != POKER_HAND_STATE_UNMASK_COMMUNITY_CARDS || self.current_state.current_round != round {
            return Err(PokerError::WrongPhase);
        }
        if self.current_state.current_player != player {
            return Err(PokerError::WrongTurn);
        }
        if cards.cards_g1.len() != self.community_cards[round - 1].cards_g1.len() {
            return Err(PokerError::LengthMismatch);
        }
        let rec = UnmaskRecord {
            player,
            kind: POKER_HAND_STATE_UNMASK_COMMUNITY_CARDS,
            cards: vec![UnmaskedCards::new(cards.cards())],
        };
        let ghost seq0 = self.unmasking_sequence@;
        assert(cards_view(rec.cards@) =~= seq![points_view(cards.cards_g1@)]);
        self.unmasking_sequence.push(rec);
        assert(records_view(self.unmasking_sequence@) =~= records_view(seq0).push(rec@));
        let ghost cards_v = cards.cards_g1@;
        self.community_cards.set(round - 1, cards);
        assert(self.community_cards@[round - 1].cards_g1@ == cards_v);
        if self.current_state.next_player() {
            self.current_state.next_player_masked(&self.betting_state.active_players, true);
            self.betting_state.next_street();
            self.current_state.current_state = POKER_HAND_STATE_BET;
            assert(self.current_state.current_round == round);
            self.check_betting_round_complete();
            assert(self.community_cards@[round - 1].cards_g1@ == cards_v);
        }
        assert(records_view(self.unmasking_sequence@) == records_view(old(self).unmasking_sequence@).push(
                    (player, POKER_HAND_STATE_UNMASK_COMMUNITY_CARDS, seq![points_view(cards_v)])));
        Ok(())
    }

    /// The showdown peel: the acting player takes its own last layer off its
    /// hole cards. After the last player the keys are collected.
    pub fn submit_player_cards_showdown(&mut self, player: usize, player_cards: Vec<UnmaskedCards>) -> (r: Result<(), PokerError>)
        requires
            old(self).wf(),
        ensures
            final(self).wf(),
            old(self).current_state.current_state != POKER_HAND_STATE_UNMASK_SHOWDOWN ==> r == Err::<(), PokerError>(PokerError::WrongPhase)
                && *final(self) == *old(self),
            old(self).current_state.current_state == POKER_HAND_STATE_UNMASK_SHOWDOWN && player != old(self).current_state.current_player
                ==> r == Err::<(), PokerError>(PokerError::WrongTurn) && *final(self) == *old(self),
            old(self).current_state.current_state == POKER_HAND_STATE_UNMASK_SHOWDOWN && player == old(self).current_state.current_player
                && !(player_cards@.len() == old(self).player_cards@.len() && forall|i: int| 0 <= i < player_cards@.len()
                    ==> (#[trigger] player_cards@[i]).cards_g1@.len() == old(self).player_cards@[i].cards_g1@.len())
                ==> r == Err::<(), PokerError>(PokerError::LengthMismatch) && *final(self) == *old(self),
            old(self).current_state.current_state == POKER_HAND_STATE_UNMASK_SHOWDOWN && player == old(self).current_state.current_player
                && player_cards@.len() == old(self).player_cards@.len() && (forall|i: int| 0 <= i < player_cards@.len()
                    ==> (#[trigger] player_cards@[i]).cards_g1@.len() == old(self).player_cards@[i].cards_g1@.len()) ==> r is Ok,
            r is Ok ==> {
                &&& old(self).current_state.current_state == POKER_HAND_STATE_UNMASK_SHOWDOWN
                &&& player == old(self).current_state.current_player
                &&& phase_rank(final(self).current_state) >= phase_rank(old(self).current_state)
                &&& cards_view(final(self).player_cards@) == cards_view(player_cards@)
                &&& records_view(final(self).unmasking_sequence@) == records_view(old(self).unmasking_sequence@).push(
                    (player, POKER_HAND_STATE_UNMASK_SHOWDOWN, cards_view(player_cards@)))
                &&& final(self).current_state.current_state == if final(self).current_state.current_player
                    == old(self).current_state.dealer_button { POKER_HAND_STATE_SUBMIT_PUBLIC_KEY } else { POKER_HAND_STATE_UNMASK_SHOWDOWN }
            },
    {
        if self.current_state.current_state != POKER_HAND_STATE_UNMASK_SHOWDOWN {
            return Err(PokerError::WrongPhase);
        }
        if self.current_state.current_player != player {
            return Err(PokerError::WrongTurn);
        }
        if !same_shapes(&player_cards, &self.player_cards) {
            return Err(PokerError::LengthMismatch);
        }
        let rec = UnmaskRecord { player, kind: POKER_HAND_STATE_UNMASK_SHOWDOWN, cards: copy_card_sets(&player_cards) };
        let ghost seq0 = self.unmasking_sequence@;
        self.unmasking_sequence.push(rec);
        assert(records_view(self.unmasking_sequence@) =~= records_view(seq0).push(rec@));
        self.player_cards = player_cards;
        if self.current_state.next_player() {
            proof {
                lemma_mod_below_twice(self.num_players(), self.num_players());
            }
            self.current_state.current_state = POKER_HAND_STATE_SUBMIT_PUBLIC_KEY;
        }
        Ok(())
    }

    /// Checks the shuffle that `player` made against its trace and key.
    /// `Err(Invalid)` where that shuffle is not on record.
    pub fn verify_shuffle(&self, player: usize, pk: &PublicKey, traces: &Vec<ShuffleTrace>) -> (r: Result<bool, PokerError>)
        requires
            self.wf(),
            player < self.num_players(),
        ensures
            shuffle_step(self.current_state, player as int) >= self.shuffle_history@.len() ==> r == Err::<bool, PokerError>(PokerError::Invalid),
            shuffle_step(self.current_state, player as int) < self.shuffle_history@.len() ==> r == Ok::<bool, PokerError>(
                traced_outcome(self.shuffle_decks(player as int).0, self.shuffle_decks(player as int).1, pk@, traces@) is Ok),
    {
        let n = self.current_state.num_players;
        let dealer = self.current_state.dealer_button;
        let step = (player + n - dealer) % n;
        if step >= self.shuffle_history.len() {
            return Err(PokerError::Invalid);
        }
        let next_cards = self.shuffle_history[step].cards();
        let prev_cards = if step == 0 {
            self.poker_deck.cards()
        } else {
            self.shuffle_history[step - 1].cards()
        };
        Ok(verify_shuffle_traced(prev_cards.as_slice(), next_cards.as_slice(), pk, traces.as_slice()).is_ok())
    }

    /// Replays the whole peel history against the final shuffled deck and
    /// audits it with one batched pairing check (see [`audit_verdict`]);
    /// a named cheater moves the hand to `Cheated`. `Err(Invalid)` where no
    /// shuffle is on record or a key is missing.
    pub fn verify_unmasking(&mut self) -> (r: Result<Option<usize>, PokerError>)
        requires
            old(self).wf(),
        ensures
            final(self).wf(),
            old(self).shuffle_history@.len() == 0 ==> r == Err::<Option<usize>, PokerError>(PokerError::Invalid) && *final(self) == *old(self),
            old(self).shuffle_history@.len() > 0 && (exists|i: int| 0 <= i < old(self).player_keys@.len()
                && (#[trigger] old(self).player_keys@[i]) is None) ==> r == Err::<Option<usize>, PokerError>(PokerError::Invalid)
                && *final(self) == *old(self),
            r is Ok ==> {
                let verdict = audit_verdict(
                    points_view(old(self).shuffle_history@.last().cards_g1@),
                    records_view(old(self).unmasking_sequence@),
                    known_keys(old(self).player_keys@),
                    old(self).num_players(),
                    old(self).current_state.max_rounds - 1,
                );
                &&& r == Ok::<Option<usize>, PokerError>(verdict)
                &&& verdict is None ==> *final(self) == *old(self)
                &&& verdict is Some ==> *final(self) == (PokerHand {
                    current_state: PokerHandState { current_state: POKER_HAND_STATE_CHEATED, ..old(self).current_state },
                    ..*old(self)
                })
            },
            old(self).shuffle_history@.len() > 0 && (forall|i: int| 0 <= i < old(self).player_keys@.len()
                ==> (#[trigger] old(self).player_keys@[i]) is Some) ==> r is Ok,
    {
        let len = self.shuffle_history.len();
        if len == 0 {
            return Err(PokerError::Invalid);
        }
        let deck = self.shuffle_history[len - 1].cards();
        let n = self.current_state.num_players;
        let mut keys: Vec<PublicKey> = Vec::new();
        let mut i: usize = 0;
        while i < n
            invariant
                *self == *old(self),
                old(self).wf(),
                len == self.shuffle_history@.len(),
                n == self.player_keys@.len(),
                i <= n,
                keys@.len() == i,
                forall|j: int| 0 <= j < i ==> ((#[trigger] self.player_keys@[j]) matches Some(k) && keys@[j] == k),
            decreases n - i,
        {
            match self.player_keys[i] {
                Some(k) => keys.push(k),
                None => {
                    return Err(PokerError::Invalid);
                },
            }
            i = i + 1;
        }
        assert(keys_view(keys@) =~= known_keys(self.player_keys@));
        let rounds = self.current_state.max_rounds - 1;
        let ghost deck_v = points_view(deck@);
        let ghost recs = records_view(self.unmasking_sequence@);
        let verdict = match replay_unmasking(&deck, &self.unmasking_sequence, n, rounds) {
            Err(a) => Some(a),
            Ok(trail) => {
                proof {
                    crate::audit::lemma_replay_players(crate::audit::replay_start(deck_v, n as int, rounds as int), recs, n as int);
                    assert forall|j: int| 0 <= j < trail@.len() implies #[trigger] trail@[j].player < keys@.len() by {
                        assert(crate::audit::trail_view(trail@)[j].2 == trail@[j].player);
                    }
                }
                audit_trail(&trail, &keys)
            },
        };
        if verdict.is_some() {
            self.current_state.current_state = POKER_HAND_STATE_CHEATED;
        }
        Ok(verdict)
    }

    /// The acting player reveals its hand key and the trace of its shuffle,
    /// which is checked at once; a failed check ends the hand as `Cheated`.
    /// After the last key the whole peel history is audited: a fair hand is
    /// `Finished`, a detected cheat `Cheated` with the cheater named.
    pub fn submit_public_key(&mut self, player: usize, pk: PublicKey, traces: Vec<ShuffleTrace>) -> (r: Result<(), PokerError>)
        requires
            old(self).wf(),
        ensures
            final(self).wf(),
            old(self).current_state.current_state != POKER_HAND_STATE_SUBMIT_PUBLIC_KEY ==> r == Err::<(), PokerError>(PokerError::WrongPhase)
                && *final(self) == *old(self),
            old(self).current_state.current_state == POKER_HAND_STATE_SUBMIT_PUBLIC_KEY && player != old(self).current_state.current_player
                ==> r == Err::<(), PokerError>(PokerError::WrongTurn) && *final(self) == *old(self),
            old(self).current_state.current_state == POKER_HAND_STATE_SUBMIT_PUBLIC_KEY && player == old(self).current_state.current_player
                ==> {
                let keys = old(self).player_keys@.update(player as int, Some(pk));
                let decks = old(self).shuffle_decks(player as int);
                let next = (player + 1) % old(self).num_players();
                let verdict = audit_verdict(
                    points_view(old(self).shuffle_history@.last().cards_g1@),
                    records_view(old(self).unmasking_sequence@),
                    known_keys(keys),
                    old(self).num_players(),
                    old(self).current_state.max_rounds - 1,
                );
                &&& final(self).player_keys@ == keys
                &&& phase_rank(final(self).current_state) >= phase_rank(old(self).current_state)
                &&& traced_outcome(decks.0, decks.1, pk@, traces@) is Err ==> r == Err::<(), PokerError>(
                    PokerError::ShuffleForgery) && final(self).current_state.current_state == POKER_HAND_STATE_CHEATED
                &&& traced_outcome(decks.0, decks.1, pk@, traces@) is Ok ==> {
                    &&& final(self).current_state.current_player == next
                    &&& next != old(self).current_state.dealer_button ==> r is Ok
                        && final(self).current_state.current_state == POKER_HAND_STATE_SUBMIT_PUBLIC_KEY
                    &&& next == old(self).current_state.dealer_button ==> match verdict {
                        None => r is Ok && final(self).current_state.current_state == POKER_HAND_STATE_FINISHED,
                        Some(c) => r == Err::<(), PokerError>(PokerError::UnmaskForgery { player: c })
                            && final(self).current_state.current_state == POKER_HAND_STATE_CHEATED,
                    }
                }
            },
    {
        if self.current_state.current_state != POKER_HAND_STATE_SUBMIT_PUBLIC_KEY {
            return Err(PokerError::WrongPhase);
        }
        if self.current_state.current_player != player {
            return Err(PokerError::WrongTurn);
        }
        proof {
            lemma_offset_step(self.current_state);
        }
        let ghost keys0 = self.player_keys@;
        self.player_keys.set(player, Some(pk));
        let ghost o = seat_offset(self.current_state);
        assert forall|k: int| 0 <= k < o + 1 implies (#[trigger] self.player_keys@[(self.current_state.dealer_button + k) % (self.num_players())]) is Some by {
            if k < o {
                assert(keys0[(self.current_state.dealer_button + k) % (self.num_players())] is Some);
            }
        }
        proof {
            let n = self.num_players();
            lemma_mod_below_twice(player + n - self.current_state.dealer_button, n);
        }
        match self.verify_shuffle(player, &pk, &traces) {
            Err(e) => {
                return Err(e);
            },
            Ok(false) => {
                self.current_state.current_state = POKER_HAND_STATE_CHEATED;
                return Err(PokerError::ShuffleForgery);
            },
            Ok(true) => {},
        }
        if self.current_state.next_player() {
            proof {
                let n = self.num_players();
                let d = self.current_state.dealer_button as int;
                assert forall|i: int| 0 <= i < n implies (#[trigger] self.player_keys@[i]) is Some by {
                    crate::state::lemma_seat_reached(n, d, i);
                    let k = choose|k: int| 1 <= k <= n && seat_after(n, d, k) == i;
                    if k == n {
                        lemma_mod_below_twice(d + n, n);
                        lemma_mod_below_twice(d, n);
                        assert(self.player_keys@[(d + 0) % n] is Some);
                    } else {
                        assert(self.player_keys@[(d + k) % n] is Some);
                    }
                }
            }
            match self.verify_unmasking() {
                Ok(None) => {},
                Ok(Some(cheater)) => {
                    return Err(PokerError::UnmaskForgery { player: cheater });
                },
                Err(e) => {
                    return Err(e);
                },
            }
            self.current_state.current_state = POKER_HAND_STATE_FINISHED;
        }
        Ok(())
    }
}

} // verus!
