use crumble::bets::PokerBettingState;
use crumble::error::PokerError;

fn total(b: &PokerBettingState, n: usize) -> u64 {
    let mut t = b.pot();
    for p in 0..n {
        t += b.chips_remaining(p);
    }
    t
}

#[test]
fn new_ledger_is_fresh() {
    let b = PokerBettingState::new(3, 1000);
    for p in 0..3 {
        assert_eq!(b.chips_remaining(p), 1000);
        assert_eq!(b.current_round_bet(p), None);
        assert_eq!(b.call_amount_required(p), Ok(0));
    }
    assert_eq!(b.pot(), 0);
    assert_eq!(b.highest_bet(), 0);
    assert_eq!(b.get_active_players(), &vec![true, true, true]);
    assert!(!b.is_betting_round_complete());
}

#[test]
fn check_records_zero_bet() {
    let mut b = PokerBettingState::new(2, 100);
    assert_eq!(b.process_action(0, 0), Ok(()));
    assert_eq!(b.current_round_bet(0), Some(0));
    assert_eq!(b.get_active_players(), &vec![true, true]);
    assert_eq!(b.pot(), 0);
}

#[test]
fn zero_facing_a_bet_folds() {
    let mut b = PokerBettingState::new(2, 100);
    b.process_action(0, 10).unwrap();
    assert_eq!(b.call_amount_required(1), Ok(10));
    assert_eq!(b.process_action(1, 0), Ok(()));
    assert_eq!(b.get_active_players(), &vec![true, false]);
    assert_eq!(b.call_amount_required(1), Err(PokerError::AlreadyFolded));
    assert_eq!(b.process_action(1, 10), Err(PokerError::AlreadyFolded));
    assert!(b.is_betting_round_complete());
}

#[test]
fn raise_and_call_then_next_street() {
    let mut b = PokerBettingState::new(2, 1000);
    b.process_action(0, 40).unwrap();
    b.process_action(1, 40).unwrap();
    assert_eq!(b.highest_bet(), 40);
    assert_eq!(b.current_round_bet(0), Some(40));
    assert_eq!(b.current_round_bet(1), Some(40));
    assert_eq!(b.pot(), 80);
    assert!(b.is_betting_round_complete());
    b.next_street();
    assert_eq!(b.current_round_bet(0), None);
    assert_eq!(b.current_round_bet(1), None);
    assert_eq!(b.highest_bet(), 0);
    assert_eq!(b.pot(), 80);
}

#[test]
fn under_call_and_insufficient_chips() {
    let mut b = PokerBettingState::new(2, 50);
    b.process_action(0, 30).unwrap();
    assert_eq!(b.process_action(1, 20), Err(PokerError::UnderCall));
    assert_eq!(b.process_action(1, 60), Err(PokerError::InsufficientChips));
    assert_eq!(b.chips_remaining(1), 50);
    assert_eq!(b.pot(), 30);
}

#[test]
fn all_in_below_the_call_is_accepted() {
    let mut b = PokerBettingState::new(2, 10);
    b.process_action(0, 4).unwrap();
    b.next_street();
    b.process_action(1, 8).unwrap();
    assert_eq!(b.call_amount_required(0), Ok(8));
    assert_eq!(b.process_action(0, 5), Err(PokerError::UnderCall));
    assert_eq!(b.process_action(0, 6), Ok(()));
    assert_eq!(b.current_round_bet(0), Some(6));
    assert_eq!(b.chips_remaining(0), 0);
    assert_eq!(b.highest_bet(), 8);
    assert_eq!(b.pot(), 18);
}

#[test]
fn chips_are_conserved() {
    let mut b = PokerBettingState::new(4, 200);
    let moves = [(0, 10), (1, 20), (2, 0), (3, 50), (0, 40), (1, 0), (3, 0)];
    for (p, a) in moves {
        let _ = b.process_action(p, a);
        assert_eq!(total(&b, 4), 4 * 200);
    }
    assert_eq!(b.pot(), 120);
}

#[test]
fn round_complete_only_when_matched() {
    let mut b = PokerBettingState::new(3, 100);
    b.process_action(0, 10).unwrap();
    b.process_action(1, 10).unwrap();
    assert!(!b.is_betting_round_complete());
    b.process_action(2, 20).unwrap();
    assert!(!b.is_betting_round_complete());
    b.process_action(0, 10).unwrap();
    b.process_action(1, 10).unwrap();
    assert!(b.is_betting_round_complete());
}
