use crumble::error::PokerError;
use crumble::state::{
    PokerHandState, PokerHandStateEnum, POKER_HAND_STATE_BET, POKER_HAND_STATE_CHEATED,
    POKER_HAND_STATE_FINISHED, POKER_HOLDEM_ROUNDS,
};

#[test]
fn fresh_state_is_dealer_shuffle() {
    let s = PokerHandState::new(3, POKER_HOLDEM_ROUNDS, 1);
    assert_eq!(s.to_enum(), PokerHandStateEnum::Shuffle { player: 1, is_dealer: true });
    assert_eq!(s.to_tuple(), (0, 1, 0));
    assert!(s.is_dealer(1));
    assert!(!s.is_dealer(0));
    assert!(s.is_current_dealer());
    assert!(!s.is_finished());
    assert_eq!(s.get_current_player(), 1);
}

#[test]
fn next_player_wraps_at_dealer() {
    let mut s = PokerHandState::new(3, POKER_HOLDEM_ROUNDS, 1);
    assert!(!s.next_player());
    assert_eq!(s.get_current_player(), 2);
    assert!(!s.next_player());
    assert_eq!(s.get_current_player(), 0);
    assert!(s.next_player());
    assert_eq!(s.get_current_player(), 1);
}

#[test]
fn masked_rotation_skips_folded() {
    let mut s = PokerHandState::new(4, POKER_HOLDEM_ROUNDS, 0);
    let mask = vec![true, false, false, true];
    assert!(!s.next_player_masked(&mask, false));
    assert_eq!(s.get_current_player(), 3);
    assert!(!s.next_player_masked(&mask, false));
    assert_eq!(s.get_current_player(), 0);
    let dealer_out = vec![false, false, true, false];
    assert!(!s.next_player_masked(&dealer_out, true));
    assert_eq!(s.get_current_player(), 2);
    assert!(!s.next_player_masked(&dealer_out, false));
    assert_eq!(s.get_current_player(), 2);
    let none = vec![false, false, false, false];
    assert!(s.next_player_masked(&none, false));
    assert_eq!(s.get_current_player(), 2);
    assert!(s.next_player_masked(&none, true));
    assert_eq!(s.get_current_player(), 0);
}

#[test]
fn rounds_run_out() {
    let mut s = PokerHandState::new(2, 2, 0);
    assert_eq!(s.next_round(), Ok(false));
    assert_eq!(s.next_round(), Ok(true));
    assert_eq!(s.next_round(), Err(PokerError::Invalid));
    assert_eq!(s.to_tuple().0, 2);
}

#[test]
fn descriptor_follows_phase() {
    let mut s = PokerHandState::new(2, POKER_HOLDEM_ROUNDS, 0);
    s.current_state = POKER_HAND_STATE_BET;
    s.current_round = 2;
    s.current_player = 1;
    assert_eq!(s.to_enum(), PokerHandStateEnum::Bet { round: 2, player: 1 });
    s.current_state = POKER_HAND_STATE_CHEATED;
    assert_eq!(s.to_enum(), PokerHandStateEnum::Cheated { player: 1 });
    s.current_state = POKER_HAND_STATE_FINISHED;
    assert_eq!(s.to_enum(), PokerHandStateEnum::Finished);
    assert!(s.is_finished());
    s.current_state = 42;
    assert_eq!(s.to_enum(), PokerHandStateEnum::Invalid);
}
