use bls12_381::{G1Projective, Scalar};
use crumble::bls::{make_public_key_from_signing_key, G1Point, SigningKey};
use crumble::deck::{MaskedCards, PokerDeck};
use crumble::error::PokerError;
use crumble::hand::PokerHand;
use crumble::shuffle::ShuffleTrace;
use crumble::state::{PokerHandStateEnum, POKER_HOLDEM_ROUNDS};
use crumble::table::PokerTable;
use pairing::group::Curve;

fn key(seed: u64) -> SigningKey {
    let mut bytes = (Scalar::from(seed) * Scalar::from(0x2545_f491_4f6c_dd1du64)).to_bytes();
    bytes.reverse();
    SigningKey { bytes }
}

fn deck() -> PokerDeck {
    let pts: Vec<G1Point> = (0..52u64)
        .map(|i| G1Point { bytes: (G1Projective::generator() * Scalar::from(i + 1)).to_affine().to_compressed() })
        .collect();
    PokerDeck::new(pts).unwrap()
}

struct Seat {
    sk: SigningKey,
    traces: Vec<ShuffleTrace>,
}

fn seats(n: usize) -> Vec<Seat> {
    (0..n).map(|i| Seat { sk: key(100 + i as u64), traces: vec![] }).collect()
}

fn table(n: usize) -> PokerTable {
    let mut t = PokerTable::new(n, POKER_HOLDEM_ROUNDS);
    for i in 0..n {
        t.join(i as u32 + 1);
    }
    t.start_hand(1000, 10, deck()).unwrap();
    t
}

fn shuffle_all(hand: &mut PokerHand, seats: &mut [Seat]) {
    while let PokerHandStateEnum::Shuffle { player, is_dealer } = hand.get_current_state().to_enum() {
        let mut cards: MaskedCards =
            if is_dealer { hand.get_poker_deck().masked_cards() } else { hand.get_shuffled_deck().clone() };
        cards.mask(&seats[player].sk).unwrap();
        seats[player].traces = cards.shuffle();
        hand.submit_shuffled_deck(player, cards).unwrap();
    }
}

fn blinds_and_hole_peels(hand: &mut PokerHand, seats: &[Seat]) {
    let PokerHandStateEnum::SmallBlind { player } = hand.get_current_state().to_enum() else { panic!("no small blind") };
    hand.submit_small_blind(player).unwrap();
    let PokerHandStateEnum::BigBlind { player } = hand.get_current_state().to_enum() else { panic!("no big blind") };
    hand.submit_big_blind(player).unwrap();
    while let PokerHandStateEnum::UnmaskHoleCards { player } = hand.get_current_state().to_enum() {
        let mut cards = hand.get_player_cards().clone();
        for (i, c) in cards.iter_mut().enumerate() {
            if i != player {
                c.unmask(&seats[player].sk).unwrap();
            }
        }
        hand.submit_player_cards(player, cards).unwrap();
    }
}

/// Checks every street, peels the community cards honestly, and stops at the showdown.
fn check_down(hand: &mut PokerHand, seats: &[Seat]) -> usize {
    let mut community_peels = 0;
    loop {
        match hand.get_current_state().to_enum() {
            PokerHandStateEnum::Bet { player, .. } => hand.submit_bet(player, 0).unwrap(),
            PokerHandStateEnum::UnmaskCommunityCards { round, player } => {
                let mut cards = hand.get_community_cards(round).cloned().unwrap();
                cards.unmask(&seats[player].sk).unwrap();
                hand.submit_community_cards(player, round, cards).unwrap();
                community_peels += 1;
            }
            _ => return community_peels,
        }
    }
}

fn showdown_and_keys(hand: &mut PokerHand, seats: &[Seat]) -> Result<(), PokerError> {
    while let PokerHandStateEnum::UnmaskShowdown { player } = hand.get_current_state().to_enum() {
        let mut cards = hand.get_player_cards().clone();
        cards[player].unmask(&seats[player].sk).unwrap();
        hand.submit_player_cards_showdown(player, cards).unwrap();
    }
    let mut last = Ok(());
    while let PokerHandStateEnum::SubmitPublicKey { player } = hand.get_current_state().to_enum() {
        let pk = make_public_key_from_signing_key(&seats[player].sk).unwrap();
        last = hand.submit_public_key(player, pk, seats[player].traces.clone());
        if last.is_err() {
            break;
        }
    }
    last
}

#[test]
fn heads_up_honest_hand_finishes() {
    let mut t = table(2);
    let mut s = seats(2);
    let hand = t.get_current_hand_mut().unwrap();
    shuffle_all(hand, &mut s);
    blinds_and_hole_peels(hand, &s);
    assert_eq!(hand.get_current_state().to_enum(), PokerHandStateEnum::Bet { round: 0, player: 0 });
    assert_eq!(check_down(hand, &s), 6);
    assert_eq!(showdown_and_keys(hand, &s), Ok(()));
    assert_eq!(hand.get_current_state().to_enum(), PokerHandStateEnum::Finished);
    assert_eq!(hand.get_betting_state().pot(), 30);
    assert_eq!(hand.get_chips_remaining(0), 990);
    assert_eq!(hand.get_chips_remaining(1), 980);
    let dict = hand.get_poker_deck().clone();
    for c in hand.get_player_cards() {
        assert!(dict.unmasked_cards(c).iter().all(|x| x.is_some()));
    }
    for r in 1..4 {
        assert!(dict.unmasked_cards(hand.get_community_cards(r).unwrap()).iter().all(|x| x.is_some()));
    }
    assert!(t.get_current_hand().unwrap().get_current_state().is_finished());
}

#[test]
fn fold_preflop_finishes() {
    let mut t = table(2);
    let mut s = seats(2);
    let hand = t.get_current_hand_mut().unwrap();
    shuffle_all(hand, &mut s);
    blinds_and_hole_peels(hand, &s);
    hand.submit_bet(0, 0).unwrap();
    hand.submit_bet(1, 10).unwrap();
    assert_eq!(hand.get_call_amount_required(0), Ok(10));
    hand.submit_bet(0, 0).unwrap();
    assert_eq!(hand.get_betting_state().get_active_players(), &vec![false, true]);
    assert_eq!(hand.get_current_state().to_enum(), PokerHandStateEnum::UnmaskCommunityCards { round: 1, player: 0 });
    check_down(hand, &s);
    assert_eq!(showdown_and_keys(hand, &s), Ok(()));
    assert_eq!(hand.get_current_state().to_enum(), PokerHandStateEnum::Finished);
    assert_eq!(hand.get_betting_state().pot(), 40);
}

#[test]
fn raise_and_call_in_a_hand() {
    let mut t = table(2);
    let mut s = seats(2);
    let hand = t.get_current_hand_mut().unwrap();
    shuffle_all(hand, &mut s);
    blinds_and_hole_peels(hand, &s);
    hand.submit_bet(0, 40).unwrap();
    assert_eq!(hand.get_call_amount_required(1), Ok(40));
    hand.submit_bet(1, 40).unwrap();
    let b = hand.get_betting_state();
    assert_eq!(b.pot(), 110);
    assert_eq!(b.highest_bet(), 40);
    assert_eq!(b.current_round_bet(0), Some(40));
    assert_eq!(b.current_round_bet(1), Some(40));
    assert_eq!(hand.get_current_state().to_enum(), PokerHandStateEnum::UnmaskCommunityCards { round: 1, player: 0 });
}

#[test]
fn shuffle_forgery_is_caught() {
    let mut t = table(2);
    let mut s = seats(2);
    let hand = t.get_current_hand_mut().unwrap();
    let mut cards = hand.get_poker_deck().masked_cards();
    cards.mask(&s[0].sk).unwrap();
    s[0].traces = cards.shuffle();
    hand.submit_shuffled_deck(0, cards).unwrap();
    let mut cards = hand.get_shuffled_deck().clone();
    cards.mask(&s[1].sk).unwrap();
    s[1].traces = cards.shuffle();
    cards.cards_g1[5] = hand.get_poker_deck().cards()[0];
    hand.submit_shuffled_deck(1, cards).unwrap();
    blinds_and_hole_peels(hand, &s);
    check_down(hand, &s);
    assert_eq!(showdown_and_keys(hand, &s), Err(PokerError::ShuffleForgery));
    assert_eq!(hand.get_current_state().to_enum(), PokerHandStateEnum::Cheated { player: 1 });
}

#[test]
fn peel_forgery_names_the_cheater() {
    let mut t = table(2);
    let mut s = seats(2);
    let hand = t.get_current_hand_mut().unwrap();
    shuffle_all(hand, &mut s);
    hand.submit_small_blind(0).unwrap();
    hand.submit_big_blind(1).unwrap();
    let mut cards = hand.get_player_cards().clone();
    cards[1].unmask(&s[0].sk).unwrap();
    cards[1].cards_g1[0] = hand.get_poker_deck().cards()[7];
    hand.submit_player_cards(0, cards).unwrap();
    let mut cards = hand.get_player_cards().clone();
    cards[0].unmask(&s[1].sk).unwrap();
    hand.submit_player_cards(1, cards).unwrap();
    check_down(hand, &s);
    assert_eq!(showdown_and_keys(hand, &s), Err(PokerError::UnmaskForgery { player: 0 }));
    assert!(matches!(hand.get_current_state().to_enum(), PokerHandStateEnum::Cheated { .. }));
}

#[test]
fn out_of_turn_is_refused_without_change() {
    let mut t = table(3);
    let mut s = seats(3);
    let hand = t.get_current_hand_mut().unwrap();
    let cards = hand.get_poker_deck().masked_cards();
    assert_eq!(hand.submit_shuffled_deck(1, cards.clone()), Err(PokerError::WrongTurn));
    assert_eq!(hand.submit_small_blind(0), Err(PokerError::WrongPhase));
    assert_eq!(hand.submit_shuffled_deck(0, MaskedCards::new(vec![])), Err(PokerError::LengthMismatch));
    assert_eq!(hand.get_current_state().to_tuple(), (0, 0, 0));
    shuffle_all(hand, &mut s);
    assert_eq!(hand.submit_small_blind(2), Err(PokerError::WrongTurn));
    assert_eq!(hand.get_betting_state().pot(), 0);
    hand.submit_small_blind(0).unwrap();
    assert_eq!(hand.submit_big_blind(0), Err(PokerError::WrongTurn));
    hand.submit_big_blind(1).unwrap();
    let cards = hand.get_player_cards().clone();
    assert_eq!(hand.submit_player_cards(2, cards.clone()), Err(PokerError::WrongTurn));
    assert_eq!(hand.submit_player_cards(0, cards[..2].to_vec()), Err(PokerError::LengthMismatch));
    assert_eq!(hand.submit_bet(0, 0), Err(PokerError::WrongPhase));
    assert_eq!(hand.get_current_state().to_enum(), PokerHandStateEnum::UnmaskHoleCards { player: 0 });
}

#[test]
fn phases_never_go_back() {
    let mut t = table(2);
    let mut s = seats(2);
    let hand = t.get_current_hand_mut().unwrap();
    let rank = |e: PokerHandStateEnum| -> usize {
        match e {
            PokerHandStateEnum::Shuffle { .. } => 0,
            PokerHandStateEnum::SmallBlind { .. } => 1,
            PokerHandStateEnum::BigBlind { .. } => 2,
            PokerHandStateEnum::UnmaskHoleCards { .. } => 3,
            PokerHandStateEnum::Bet { round, .. } => 4 + 2 * round,
            PokerHandStateEnum::UnmaskCommunityCards { round, .. } => 3 + 2 * round,
            PokerHandStateEnum::UnmaskShowdown { .. } => 12,
            PokerHandStateEnum::SubmitPublicKey { .. } => 13,
            _ => 14,
        }
    };
    let mut seen = vec![rank(hand.get_current_state().to_enum())];
    shuffle_all(hand, &mut s);
    seen.push(rank(hand.get_current_state().to_enum()));
    blinds_and_hole_peels(hand, &s);
    seen.push(rank(hand.get_current_state().to_enum()));
    loop {
        let before = rank(hand.get_current_state().to_enum());
        match hand.get_current_state().to_enum() {
            PokerHandStateEnum::Bet { player, .. } => hand.submit_bet(player, 0).unwrap(),
            PokerHandStateEnum::UnmaskCommunityCards { round, player } => {
                let mut cards = hand.get_community_cards(round).cloned().unwrap();
                cards.unmask(&s[player].sk).unwrap();
                hand.submit_community_cards(player, round, cards).unwrap();
            }
            _ => break,
        }
        assert!(rank(hand.get_current_state().to_enum()) >= before);
    }
    assert!(seen.windows(2).all(|w| w[0] <= w[1]));
}

#[test]
fn table_refuses_second_hand_while_playing() {
    let mut t = table(2);
    assert_eq!(t.start_hand(1000, 10, deck()), Err(PokerError::HandInProgress));
    assert_eq!(t.get_current_player_count(), 2);
    assert_eq!(t.get_player(1), Some(2));
    assert_eq!(t.get_player(2), None);
    assert_eq!(t.get_max_players(), 2);
    assert_eq!(t.get_max_rounds(), POKER_HOLDEM_ROUNDS);
    let mut empty = PokerTable::new(4, POKER_HOLDEM_ROUNDS);
    assert_eq!(empty.start_hand(1000, 10, deck()), Err(PokerError::OutOfBounds));
    assert!(empty.get_current_hand().is_none());
    let mut crowded = PokerTable::new(30, POKER_HOLDEM_ROUNDS);
    for i in 0..24 {
        crowded.join(i);
    }
    assert_eq!(crowded.start_hand(1000, 10, deck()), Err(PokerError::OutOfBounds));
}

#[test]
fn six_handed_community_rounds() {
    let mut t = table(6);
    let mut s = seats(6);
    let hand = t.get_current_hand_mut().unwrap();
    shuffle_all(hand, &mut s);
    assert_eq!(hand.get_current_state().to_enum(), PokerHandStateEnum::SmallBlind { player: 0 });
    hand.submit_small_blind(0).unwrap();
    hand.submit_big_blind(1).unwrap();
    let mut peels = 0;
    while let PokerHandStateEnum::UnmaskHoleCards { player } = hand.get_current_state().to_enum() {
        let mut cards = hand.get_player_cards().clone();
        for (i, c) in cards.iter_mut().enumerate() {
            if i != player {
                c.unmask(&s[player].sk).unwrap();
            }
        }
        hand.submit_player_cards(player, cards).unwrap();
        peels += 1;
    }
    assert_eq!(peels, 6);
    hand.submit_bet(0, 0).unwrap();
    for p in 1..6 {
        assert_eq!(hand.get_current_state().to_enum(), PokerHandStateEnum::Bet { round: 0, player: p });
        hand.submit_bet(p, 0).unwrap();
    }
    for p in 0..6 {
        assert_eq!(hand.get_current_state().to_enum(), PokerHandStateEnum::UnmaskCommunityCards { round: 1, player: p });
        let mut cards = hand.get_community_cards(1).cloned().unwrap();
        cards.unmask(&s[p].sk).unwrap();
        hand.submit_community_cards(p, 1, cards).unwrap();
    }
    assert_eq!(hand.get_current_state().to_enum(), PokerHandStateEnum::Bet { round: 1, player: 0 });
    let dict = hand.get_poker_deck().clone();
    assert!(dict.unmasked_cards(hand.get_community_cards(1).unwrap()).iter().all(|x| x.is_some()));
}
