use alloy_primitives::Keccak256;
use bls12_381::hash_to_curve::{ExpandMsgXmd, HashToCurve};
use bls12_381::{G1Projective, Scalar};
use crumble::bls::{
    make_public_key_from_signing_key, mask, unmask, verify, verify_unmasking, G1Point, Signature,
    SigningKey,
};
use crumble::deck::{PokerCard, PokerDeck};
use crumble::lagrange::{combine, recover};
use crumble::state::{PokerHandStateEnum, POKER_HOLDEM_ROUNDS};
use crumble::table::PokerTable;
use ff::Field;
use pairing::group::Curve;

/// Keccak-256 widened to a 64-byte output, the hash the card points are derived with.
#[derive(Clone)]
struct Keccak256Hash(Keccak256);

impl digest::BlockInput for Keccak256Hash {
    type BlockSize = digest::generic_array::typenum::U64;
}

impl digest::Digest for Keccak256Hash {
    type OutputSize = digest::generic_array::typenum::U64;

    fn new() -> Self {
        Self(Keccak256::new())
    }

    fn output_size() -> usize {
        32
    }

    fn chain(mut self, data: impl AsRef<[u8]>) -> Self {
        self.0.update(data);
        self
    }

    fn update(&mut self, data: impl AsRef<[u8]>) {
        self.0.update(data);
    }

    fn finalize(self) -> digest::Output<Self> {
        let mut arr = digest::Output::<Self>::default();
        arr[..32].copy_from_slice(&self.0.finalize().0);
        arr
    }

    fn reset(&mut self) {
        self.0 = Keccak256::new();
    }

    fn digest(data: &[u8]) -> digest::Output<Self> {
        <Self as digest::Digest>::new().chain(data).finalize()
    }

    fn finalize_reset(&mut self) -> digest::Output<Self> {
        std::mem::replace(self, <Self as digest::Digest>::new()).finalize()
    }
}

fn hash_to_curve(message: &[u8]) -> G1Point {
    let cs = b"BLS_SIG_BLS12381G2_XMD:KECCAK-256_SSWU_RO_";
    let p = <G1Projective as HashToCurve<ExpandMsgXmd<Keccak256Hash>>>::hash_to_curve(message, cs);
    G1Point { bytes: p.to_affine().to_compressed() }
}

fn sign(data: &[u8], k: &SigningKey) -> Signature {
    mask(&hash_to_curve(data), k).unwrap()
}

fn random_key(rng: &mut rand::rngs::ThreadRng) -> SigningKey {
    let mut bytes = Scalar::random(rng).to_bytes();
    bytes.reverse();
    SigningKey { bytes }
}

fn hashed_deck() -> PokerDeck {
    let points = PokerDeck::card_names().iter().map(|c| hash_to_curve(&c.0)).collect();
    PokerDeck::new(points).unwrap()
}

fn names(cards: Vec<Option<PokerCard>>) -> String {
    cards.into_iter().map(|c| c.unwrap().to_string()).collect::<Vec<_>>().join(", ")
}

#[test]
fn test_lifecycle() {
    // --- 1. SETUP ---
    let mut rng = rand::thread_rng();

    // Player A (Dealer) and Player B (Player)
    let sk_a = random_key(&mut rng);
    let sk_b = random_key(&mut rng);

    let pk_a_g2 = make_public_key_from_signing_key(&sk_a).unwrap();
    let pk_b_g2 = make_public_key_from_signing_key(&sk_b).unwrap();

    // The "Ace of Spades" base point
    let card_base = hash_to_curve(b"AS");

    // --- 2. SHUFFLE (Commutative Masking) ---
    let masked_a = mask(&card_base, &sk_a).unwrap();
    let masked_b = mask(&masked_a, &sk_b).unwrap();

    // --- 3. BETTING (Threshold Consensus) ---
    let bet_message = b"Player B bets 10 USDC";
    let sig_a = sign(bet_message, &sk_a);
    let sig_b = sign(bet_message, &sk_b);

    let shares = vec![(1, sig_a), (2, sig_b)];
    let combined_bet_sig = combine(&shares).expect("Failed to combine signatures");

    let pub_shares = vec![(1, pk_a_g2), (2, pk_b_g2)];
    let master_pk = recover(&pub_shares).expect("Failed to recover master public key");

    assert!(
        verify(&hash_to_curve(bet_message), &master_pk, &combined_bet_sig),
        "Failed to verify bet message"
    );

    // --- 4. DEALING (The Stateless Audit) ---
    let unmasked_by_a = unmask(&masked_b, &sk_a).unwrap();

    let audit_passed = verify_unmasking(&masked_b, &unmasked_by_a, &pk_a_g2);
    assert!(audit_passed, "Player A's unmasking audit failed!");

    let final_card = unmask(&unmasked_by_a, &sk_b).unwrap();

    assert_eq!(final_card, card_base, "The final card point is corrupted!");

    println!("Sovereign Deal Complete: Bet signed and card audited successfully.");
}

#[test]
fn test_poker() {
    let mut rng = rand::thread_rng();

    let sk_1 = random_key(&mut rng);
    let sk_2 = random_key(&mut rng);

    let poker_deck = hashed_deck();
    let mut masked_deck = poker_deck.masked_cards();

    masked_deck.mask(&sk_1).unwrap();
    masked_deck.shuffle();

    masked_deck.mask(&sk_2).unwrap();
    masked_deck.shuffle();

    let deck_hash = masked_deck.hash();

    let sig_1 = sign(&deck_hash, &sk_1);
    let sig_2 = sign(&deck_hash, &sk_2);

    let bls_signature = combine(&vec![(1, sig_1), (2, sig_2)]).expect("Should combine");

    let pk_1 = make_public_key_from_signing_key(&sk_1).unwrap();
    let pk_2 = make_public_key_from_signing_key(&sk_2).unwrap();

    let master_pk = recover(&vec![(1, pk_1), (2, pk_2)]).expect("Failed to recover master key");

    assert!(
        verify(&hash_to_curve(&deck_hash), &master_pk, &bls_signature),
        "Failed to verify deck"
    );

    let blind_state = b"STATE_1: POT=15, P1=-5, P2=-10";

    let blind_sig_1 = sign(blind_state, &sk_1);
    let blind_sig_2 = sign(blind_state, &sk_2);

    let blinds_master_sig = combine(&vec![(1, blind_sig_1), (2, blind_sig_2)])
        .expect("Failed to combine blind signatures");

    assert!(
        verify(&hash_to_curve(blind_state), &master_pk, &blinds_master_sig),
        "Failed to verify blinds consensus"
    );

    let mut p1_dealt_cards = masked_deck.deal(2);
    let mut p2_dealt_cards = masked_deck.deal(2);
    let mut community_dealt_cards = masked_deck.deal(5);

    p1_dealt_cards.unmask(&sk_2).unwrap();
    p2_dealt_cards.unmask(&sk_1).unwrap();

    p1_dealt_cards.unmask(&sk_1).unwrap();
    p2_dealt_cards.unmask(&sk_2).unwrap();

    community_dealt_cards.unmask(&sk_1).unwrap();
    community_dealt_cards.unmask(&sk_2).unwrap();

    let p1_hole_cards = poker_deck.unmasked_cards(&p1_dealt_cards);
    let p2_hole_cards = poker_deck.unmasked_cards(&p2_dealt_cards);
    let community_cards = poker_deck.unmasked_cards(&community_dealt_cards);

    assert!(matches!(p1_hole_cards[0], Some(_)), "Player 1 Card 0 did not unmask correctly!");
    assert!(matches!(p1_hole_cards[1], Some(_)), "Player 1 Card 1 did not unmask correctly!");
    assert!(matches!(p2_hole_cards[0], Some(_)), "Player 2 Card 0 did not unmask correctly!");
    assert!(matches!(p2_hole_cards[1], Some(_)), "Player 2 Card 1 did not unmask correctly!");

    println!("Player 1's Hole Cards are: {}", names(p1_hole_cards));
    println!("Player 2's Hole Cards are: {}", names(p2_hole_cards));
    println!("Community Cards are: {}", names(community_cards));
}

#[test]
fn test_poker_table() {
    let mut rng = rand::thread_rng();

    let sk = [random_key(&mut rng), random_key(&mut rng)];
    let mut traces = vec![vec![], vec![]];

    let mut poker_table = PokerTable::new(2, POKER_HOLDEM_ROUNDS);
    poker_table.join(1);
    poker_table.join(2);
    poker_table.start_hand(1000, 10, hashed_deck()).unwrap();

    let hand = poker_table.get_current_hand_mut().unwrap();

    // Each player masks and shuffles in turn.
    for p in 0..2 {
        assert!(matches!(
            hand.get_current_state().to_enum(),
            PokerHandStateEnum::Shuffle { player, .. } if player == p
        ));
        let mut deck = if p == 0 { hand.get_poker_deck().masked_cards() } else { hand.get_shuffled_deck().clone() };
        deck.mask(&sk[p]).unwrap();
        traces[p] = deck.shuffle();
        println!("Player {} shuffles deck", p + 1);
        hand.submit_shuffled_deck(p, deck).unwrap();
    }

    assert!(matches!(hand.get_current_state().to_enum(), PokerHandStateEnum::SmallBlind { player: 0 }));
    println!("Player 1 posts small blind");
    hand.submit_small_blind(0).unwrap();

    assert!(matches!(hand.get_current_state().to_enum(), PokerHandStateEnum::BigBlind { player: 1 }));
    println!("Player 2 posts big blind");
    hand.submit_big_blind(1).unwrap();

    // Each player peels the other's hole cards.
    for p in 0..2 {
        assert!(matches!(
            hand.get_current_state().to_enum(),
            PokerHandStateEnum::UnmaskHoleCards { player } if player == p
        ));
        let mut cards = hand.get_player_cards().clone();
        cards[1 - p].unmask(&sk[p]).unwrap();
        println!("Player {} unmasks hole cards of Player {}", p + 1, 2 - p);
        hand.submit_player_cards(p, cards).unwrap();
    }

    // Each player sees its own cards, but not the other's, and checks.
    for p in 0..2 {
        assert!(matches!(
            hand.get_current_state().to_enum(),
            PokerHandStateEnum::Bet { round: 0, player } if player == p
        ));
        let mut cards = hand.get_player_cards().clone();
        cards[p].unmask(&sk[p]).unwrap();
        let own = hand.get_poker_deck().unmasked_cards(&cards[p]);
        let other = hand.get_poker_deck().unmasked_cards(&cards[1 - p]);
        assert!(other.iter().all(|c| c.is_none()));
        println!("Player {}'s Hole Cards are: {}", p + 1, names(own));
        hand.submit_bet(p, 0).unwrap();
    }

    for round in 1..4 {
        for p in 0..2 {
            assert!(matches!(
                hand.get_current_state().to_enum(),
                PokerHandStateEnum::UnmaskCommunityCards { round: r, player } if r == round && player == p
            ));
            let mut cards = hand.get_community_cards(round).cloned().unwrap();
            cards.unmask(&sk[p]).unwrap();
            if p == 0 {
                // community cards are also masked by player 2
                let community_cards = hand.get_poker_deck().unmasked_cards(&cards);
                assert!(community_cards.iter().all(|c| c.is_none()));
            }
            println!("Player {} unmasks community cards", p + 1);
            hand.submit_community_cards(p, round, cards).unwrap();
        }
        let cards = hand.get_community_cards(round).cloned().unwrap();
        println!("Community Cards are: {}", names(hand.get_poker_deck().unmasked_cards(&cards)));
        for p in 0..2 {
            assert!(matches!(
                hand.get_current_state().to_enum(),
                PokerHandStateEnum::Bet { round: r, player } if r == round && player == p
            ));
            println!("Player {} bets", p + 1);
            hand.submit_bet(p, 0).unwrap();
        }
    }

    for p in 0..2 {
        assert!(matches!(
            hand.get_current_state().to_enum(),
            PokerHandStateEnum::UnmaskShowdown { player } if player == p
        ));
        let mut cards = hand.get_player_cards().clone();
        cards[p].unmask(&sk[p]).unwrap();
        println!("Player {} unmasks their own cards for showdown", p + 1);
        hand.submit_player_cards_showdown(p, cards).unwrap();
    }

    for p in 0..2 {
        assert!(matches!(
            hand.get_current_state().to_enum(),
            PokerHandStateEnum::SubmitPublicKey { player } if player == p
        ));
        let pk = make_public_key_from_signing_key(&sk[p]).unwrap();
        println!("Player {} submits their ephemeral public key", p + 1);
        hand.submit_public_key(p, pk, traces[p].clone()).unwrap();
    }

    assert!(matches!(hand.get_current_state().to_enum(), PokerHandStateEnum::Finished));
    println!("Finished");
}

#[test]
fn hash_to_curve_is_deterministic_and_distinct() {
    let deck = hashed_deck();
    assert_eq!(hash_to_curve(b"As"), deck.cards()[48]);
    let cards = deck.cards();
    for i in 0..52 {
        for j in 0..i {
            assert_ne!(cards[i], cards[j]);
        }
    }
}
