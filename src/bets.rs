//! The betting ledger of one hand: stacks, pot and the bets of the current street.
use vstd::prelude::*;

use crate::error::PokerError;

verus! {

/// Number of `true` entries.
pub open spec fn count_true(s: Seq<bool>) -> nat
    decreases s.len(),
{
    if s.len() == 0 {
        0
    } else {
        count_true(s.drop_last()) + if s.last() { 1nat } else { 0nat }
    }
}

/// Sum of the entries.
pub open spec fn sum_u64(s: Seq<u64>) -> int
    decreases s.len(),
{
    if s.len() == 0 {
        0
    } else {
        sum_u64(s.drop_last()) + s.last()
    }
}

/// A street bet, where "has not acted yet" counts as nothing put in.
pub open spec fn bet_or_zero(b: Option<u64>) -> int {
    match b {
        Some(v) => v as int,
        None => 0,
    }
}

/// The ledger as mathematical values.
pub struct BettingView {
    pub chips: Seq<u64>,
    pub bets: Seq<Option<u64>>,
    pub pot: u64,
    pub active: Seq<bool>,
    pub highest: u64,
    pub initial: u64,
}

impl BettingView {
    pub open spec fn num_players(self) -> nat {
        self.chips.len()
    }

    /// What `player` still has to put in to stay in the hand this street.
    pub open spec fn owed(self, player: int) -> int {
        self.highest - bet_or_zero(self.bets[player])
    }

    /// The outcome and the new ledger when `player` puts `amount` chips in:
    /// nothing while facing a bet folds, nothing while owing nothing checks,
    /// anything else calls or raises (or goes all-in with the whole stack).
    pub open spec fn action(self, player: int, amount: u64) -> (Result<(), PokerError>, BettingView) {
        let owed = self.owed(player);
        let new_bet = bet_or_zero(self.bets[player]) + amount;
        if !self.active[player] {
            (Err(PokerError::AlreadyFolded), self)
        } else if amount == 0 {
            if owed > 0 {
                (Ok(()), BettingView { active: self.active.update(player, false), ..self })
            } else {
                (Ok(()), BettingView { bets: self.bets.update(player, Some(0u64)), ..self })
            }
        } else if amount < owed && amount != self.chips[player] {
            (Err(PokerError::UnderCall), self)
        } else if self.chips[player] < amount {
            (Err(PokerError::InsufficientChips), self)
        } else {
            (
                Ok(()),
                BettingView {
                    chips: self.chips.update(player, (self.chips[player] - amount) as u64),
                    bets: self.bets.update(player, Some(new_bet as u64)),
                    pot: (self.pot + amount) as u64,
                    highest: if amount > owed { new_bet as u64 } else { self.highest },
                    ..self
                },
            )
        }
    }

    /// At most one player is left, or every active player has matched the highest bet.
    pub open spec fn round_complete(self) -> bool {
        count_true(self.active) <= 1 || forall|i: int|
            0 <= i < self.active.len() && #[trigger] self.active[i] ==> (self.bets[i] is Some
                && self.bets[i].unwrap() >= self.highest)
    }

    /// Chips in the pot and in the stacks together are what the players sat down with.
    pub open spec fn chips_conserved(self) -> bool {
        self.pot + sum_u64(self.chips) == self.num_players() * self.initial
    }
}

/// A positive count has a `true` entry.
pub proof fn lemma_count_true_witness(s: Seq<bool>)
    requires
        count_true(s) > 0,
    ensures
        exists|i: int| 0 <= i < s.len() && s[i],
    decreases s.len(),
{
    if !s.last() {
        lemma_count_true_witness(s.drop_last());
        let i = choose|i: int| 0 <= i < s.drop_last().len() && s.drop_last()[i];
        assert(s[i]);
    } else {
        assert(s[s.len() - 1]);
    }
}

proof fn lemma_sum_update(s: Seq<u64>, i: int, v: u64)
    requires
        0 <= i < s.len(),
    ensures
        sum_u64(s.update(i, v)) == sum_u64(s) - s[i] + v,
    decreases s.len(),
{
    if i < s.len() - 1 {
        lemma_sum_update(s.drop_last(), i, v);
        assert(s.update(i, v).drop_last() =~= s.drop_last().update(i, v));
    } else {
        assert(s.update(i, v).drop_last() =~= s.drop_last());
    }
}

proof fn lemma_elem_le_sum(s: Seq<u64>, i: int)
    requires
        0 <= i < s.len(),
    ensures
        s[i] <= sum_u64(s),
        0 <= sum_u64(s),
    decreases s.len(),
{
    lemma_sum_nonneg(s.drop_last());
    if i < s.len() - 1 {
        lemma_elem_le_sum(s.drop_last(), i);
    }
}

proof fn lemma_sum_nonneg(s: Seq<u64>)
    ensures
        0 <= sum_u64(s),
    decreases s.len(),
{
    if s.len() > 0 {
        lemma_sum_nonneg(s.drop_last());
    }
}

proof fn lemma_sum_const(n: nat, c: u64)
    ensures
        sum_u64(Seq::new(n, |i: int| c)) == n * c,
    decreases n,
{
    if n > 0 {
        lemma_sum_const((n - 1) as nat, c);
        let s = Seq::new(n, |i: int| c);
        assert(s.drop_last() =~= Seq::new((n - 1) as nat, |i: int| c));
        assert(s.last() == c);
        assert(sum_u64(s) == sum_u64(s.drop_last()) + c);
        assert(sum_u64(s.drop_last()) == ((n - 1) as nat) * c);
        assert(((n - 1) as nat) * c + c == n * c) by (nonlinear_arith)
            requires n > 0;
    } else {
        assert(Seq::new(n, |i: int| c).len() == 0);
    }
}

/// The chips, pot and street bets of one hand.
#[derive(Clone, Debug)]
pub struct PokerBettingState {
    pub player_chips: Vec<u64>,
    pub current_round_bets: Vec<Option<u64>>,
    pub pot: u64,
    pub active_players: Vec<bool>,
    pub current_highest_bet: u64,
    pub initial_chips: u64,
}

impl View for PokerBettingState {
    type V = BettingView;

    open spec fn view(&self) -> BettingView {
        BettingView {
            chips: self.player_chips@,
            bets: self.current_round_bets@,
            pot: self.pot,
            active: self.active_players@,
            highest: self.current_highest_bet,
            initial: self.initial_chips,
        }
    }
}

impl PokerBettingState {
    /// The ledger is consistent: one entry per player everywhere, chips are
    /// conserved, and no street bet exceeds the highest bet, which the pot covers.
    pub open spec fn wf(&self) -> bool {
        let v = self@;
        &&& v.bets.len() == v.num_players()
        &&& v.active.len() == v.num_players()
        &&& v.chips_conserved()
        &&& v.num_players() * v.initial <= u64::MAX
        &&& v.highest <= v.pot
        &&& forall|i: int| 0 <= i < v.num_players() ==> #[trigger] bet_or_zero(v.bets[i]) <= v.highest
    }

    pub fn new(num_players: usize, initial_chips: u64) -> (r: Self)
        requires
            num_players * initial_chips <= u64::MAX,
        ensures
            r.wf(),
            r@.chips == Seq::new(num_players as nat, |i: int| initial_chips),
            r@.bets == Seq::new(num_players as nat, |i: int| None::<u64>),
            r@.active == Seq::new(num_players as nat, |i: int| true),
            r@.pot == 0,
            r@.highest == 0,
            r@.initial == initial_chips,
    {
        let mut player_chips: Vec<u64> = Vec::new();
        let mut current_round_bets: Vec<Option<u64>> = Vec::new();
        let mut active_players: Vec<bool> = Vec::new();
        let mut i: usize = 0;
        while i < num_players
            invariant
                i <= num_players,
                player_chips@ == Seq::new(i as nat, |j: int| initial_chips),
                current_round_bets@ == Seq::new(i as nat, |j: int| None::<u64>),
                active_players@ == Seq::new(i as nat, |j: int| true),
            decreases num_players - i,
        {
            player_chips.push(initial_chips);
            current_round_bets.push(None);
            active_players.push(true);
            i = i + 1;
            assert(player_chips@ =~= Seq::new(i as nat, |j: int| initial_chips));
            assert(current_round_bets@ =~= Seq::new(i as nat, |j: int| None::<u64>));
            assert(active_players@ =~= Seq::new(i as nat, |j: int| true));
        }
        proof {
            lemma_sum_const(num_players as nat, initial_chips);
        }
        PokerBettingState {
            player_chips,
            current_round_bets,
            pot: 0,
            active_players,
            current_highest_bet: 0,
            initial_chips,
        }
    }

    /// What `player` must put in to call; refused once the player has folded.
    pub fn call_amount_required(&self, player: usize) -> (r: Result<u64, PokerError>)
        requires
            self.wf(),
            player < self@.num_players(),
        ensures
            !self@.active[player as int] ==> r == Err::<u64, PokerError>(PokerError::AlreadyFolded),
            self@.active[player as int] ==> r == Ok::<u64, PokerError>(self@.owed(player as int) as u64),
            r is Ok ==> r.unwrap() >= 0 && r.unwrap() == self@.owed(player as int),
    {
        if !self.active_players[player] {
            return Err(PokerError::AlreadyFolded);
        }
        let bet = match self.current_round_bets[player] {
            Some(b) => b,
            None => 0,
        };
        assert(bet_or_zero(self@.bets[player as int]) <= self@.highest);
        Ok(self.current_highest_bet - bet)
    }

    pub fn chips_remaining(&self, player: usize) -> (r: u64)
        requires
            player < self@.num_players(),
        ensures
            r == self@.chips[player as int],
    {
        self.player_chips[player]
    }

    pub fn get_active_players(&self) -> (r: &Vec<bool>)
        ensures
            r@ == self@.active,
    {
        &self.active_players
    }

    pub fn pot(&self) -> (r: u64)
        ensures
            r == self@.pot,
    {
        self.pot
    }

    pub fn highest_bet(&self) -> (r: u64)
        ensures
            r == self@.highest,
    {
        self.current_highest_bet
    }

    /// The street bet of `player`; `None` until the player has acted this street.
    pub fn current_round_bet(&self, player: usize) -> (r: Option<u64>)
        requires
            self.wf(),
            player < self@.num_players(),
        ensures
            r == self@.bets[player as int],
    {
        self.current_round_bets[player]
    }

    /// Applies `player` putting `amount` chips in (see [`BettingView::action`]).
    pub fn process_action(&mut self, player: usize, amount: u64) -> (r: Result<(), PokerError>)
        requires
            old(self).wf(),
            player < old(self)@.num_players(),
        ensures
            final(self).wf(),
            (r, final(self)@) == old(self)@.action(player as int, amount),
            r is Err ==> *final(self) == *old(self),
    {
        let ghost v = self@;
        if !self.active_players[player] {
            return Err(PokerError::AlreadyFolded);
        }
        let bet = match self.current_round_bets[player] {
            Some(b) => b,
            None => 0,
        };
        assert(bet_or_zero(v.bets[player as int]) <= v.highest);
        let owed = self.current_highest_bet - bet;
        if amount == 0 {
            if owed > 0 {
                self.active_players.set(player, false);
            } else {
                self.current_round_bets.set(player, Some(0));
            }
            assert(self@ == v.action(player as int, amount).1);
            return Ok(());
        }
        if amount < owed && amount != self.player_chips[player] {
            return Err(PokerError::UnderCall);
        }
        if self.player_chips[player] < amount {
            return Err(PokerError::InsufficientChips);
        }
        proof {
            lemma_elem_le_sum(v.chips, player as int);
            lemma_sum_update(v.chips, player as int, (v.chips[player as int] - amount) as u64);
        }
        let new_bet = bet + amount;
        self.player_chips.set(player, self.player_chips[player] - amount);
        self.current_round_bets.set(player, Some(new_bet));
        self.pot = self.pot + amount;
        if amount > owed {
            self.current_highest_bet = new_bet;
        }
        assert(self@ == v.action(player as int, amount).1);
        assert forall|i: int| 0 <= i < self@.num_players() implies #[trigger] bet_or_zero(self@.bets[i]) <= self@.highest by {
            if i != player as int {
                assert(bet_or_zero(v.bets[i]) <= v.highest);
            }
        }
        Ok(())
    }

    /// Whether the street's betting is over (see [`BettingView::round_complete`]).
    pub fn is_betting_round_complete(&self) -> (r: bool)
        requires
            self.wf(),
        ensures
            r == self@.round_complete(),
    {
        let n = self.active_players.len();
        let mut active_count: usize = 0;
        let mut i: usize = 0;
        while i < n
            invariant
                n == self@.active.len(),
                i <= n,
                active_count == count_true(self@.active.take(i as int)),
                active_count <= i,
            decreases n - i,
        {
            assert(self@.active.take(i + 1).drop_last() =~= self@.active.take(i as int));
            if self.active_players[i] {
                active_count = active_count + 1;
            }
            i = i + 1;
        }
        assert(self@.active.take(n as int) =~= self@.active);
        if active_count <= 1 {
            return true;
        }
        let mut j: usize = 0;
        while j < n
            invariant
                self.wf(),
                n == self@.active.len(),
                count_true(self@.active) > 1,
                j <= n,
                forall|k: int|
                    0 <= k < j && #[trigger] self@.active[k] ==> (self@.bets[k] is Some
                        && self@.bets[k].unwrap() >= self@.highest),
            decreases n - j,
        {
            if self.active_players[j] {
                match self.current_round_bets[j] {
                    None => {
                        return false;
                    },
                    Some(b) => {
                        if b < self.current_highest_bet {
                            return false;
                        }
                    },
                }
            }
            j = j + 1;
        }
        true
    }

    /// Starts a new street: nobody has acted and the highest bet is zero.
    pub fn next_street(&mut self)
        requires
            old(self).wf(),
        ensures
            final(self).wf(),
            final(self)@ == (BettingView {
                bets: Seq::new(old(self)@.num_players(), |i: int| None::<u64>),
                highest: 0,
                ..old(self)@
            }),
    {
        let n = self.current_round_bets.len();
        let mut i: usize = 0;
        while i < n
            invariant
                i <= n,
                n == self.current_round_bets@.len(),
                self.player_chips@ == old(self).player_chips@,
                self.active_players@ == old(self).active_players@,
                self.pot == old(self).pot,
                self.current_highest_bet == old(self).current_highest_bet,
                self.initial_chips == old(self).initial_chips,
                forall|k: int| 0 <= k < i ==> self.current_round_bets@[k] is None,
            decreases n - i,
        {
            self.current_round_bets.set(i, None);
            i = i + 1;
        }
        self.current_highest_bet = 0;
        assert(self.current_round_bets@ =~= Seq::new(old(self)@.num_players(), |i: int| None::<u64>));
    }
}

/// Chips are conserved by every betting action: after any action on a
/// consistent ledger, the pot plus all stacks still equals the number of
/// players times the initial stack.
pub proof fn lemma_betting_identity(s: PokerBettingState, player: int, amount: u64)
    requires
        s.wf(),
        0 <= player < s@.num_players(),
    ensures
        s@.action(player, amount).1.chips_conserved(),
        s@.action(player, amount).1.num_players() == s@.num_players(),
{
    let v = s@;
    if v.active[player] && amount != 0 && !(amount < v.owed(player) && amount != v.chips[player])
        && v.chips[player] >= amount {
        lemma_sum_update(v.chips, player, (v.chips[player] - amount) as u64);
        lemma_elem_le_sum(v.chips, player);
    }
}

} // verus!
