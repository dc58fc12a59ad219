use bls12_381::{G1Affine, G1Projective, G2Affine, Scalar};
use crumble::bls::{
    invert, make_public_key_from_compressed_slice, make_public_key_from_signing_key,
    make_signature_from_compressed_slice, mask, unmask, verify, verify_unmasking, G1Point, G2Point,
    SigningKey,
};
use crumble::deck::{MaskedCards, PokerDeck, UnmaskedCards};
use crumble::error::PokerError;
use crumble::lagrange::{combine, recover, scalar_from_u64};
use crumble::shuffle::{verify_shuffle, verify_shuffle_traced, ShuffleTrace};
use pairing::group::Curve;

fn key(seed: u64) -> SigningKey {
    let mut bytes = (Scalar::from(seed) * Scalar::from(0x9e37_79b9_7f4a_7c15u64)).to_bytes();
    bytes.reverse();
    SigningKey { bytes }
}

fn point(seed: u64) -> G1Point {
    G1Point { bytes: (G1Projective::generator() * Scalar::from(seed + 1)).to_affine().to_compressed() }
}

fn points(n: u64) -> Vec<G1Point> {
    (0..n).map(point).collect()
}

fn pk(k: &SigningKey) -> G2Point {
    make_public_key_from_signing_key(k).unwrap()
}

#[test]
fn scalar_bytes_are_big_endian() {
    let k = scalar_from_u64(0x0102_0304_0506_0708);
    let mut expected = [0u8; 32];
    expected[24..].copy_from_slice(&[1, 2, 3, 4, 5, 6, 7, 8]);
    assert_eq!(k.bytes, expected);
    let mut le = Scalar::from(0x0102_0304_0506_0708u64).to_bytes();
    le.reverse();
    assert_eq!(k.bytes, le);
}

#[test]
fn mask_multiplies_by_the_key() {
    let p = point(7);
    let k = key(3);
    let masked = mask(&p, &k).unwrap();
    assert_ne!(masked, p);
    let expected = (G1Projective::generator() * Scalar::from(8u64) * (Scalar::from(3u64) * Scalar::from(0x9e37_79b9_7f4a_7c15u64))).to_affine().to_compressed();
    assert_eq!(masked.bytes, expected);
    assert_eq!(unmask(&masked, &k), Some(p));
}

#[test]
fn bad_encodings_are_refused() {
    let garbage = G1Point { bytes: [0x11; 48] };
    assert_eq!(mask(&garbage, &key(1)), None);
    let too_big = SigningKey { bytes: [0xff; 32] };
    assert_eq!(mask(&point(1), &too_big), None);
    assert!(invert(&SigningKey { bytes: [0; 32] }).is_none());
    let mut d = UnmaskedCards::new(points(2));
    assert_eq!(d.unmask(&SigningKey { bytes: [0; 32] }), Err(PokerError::InvalidEncoding));
    assert_eq!(d.cards(), points(2));
}

#[test]
fn commutative_unmask_any_order() {
    let card = point(11);
    let keys = [key(2), key(5), key(9)];
    let mut m = card;
    for k in &keys {
        m = mask(&m, k).unwrap();
    }
    for order in [[0, 1, 2], [2, 1, 0], [1, 2, 0], [0, 2, 1]] {
        let mut u = m;
        for i in order {
            u = unmask(&u, &keys[i]).unwrap();
        }
        assert_eq!(u, card);
    }
}

#[test]
fn unmask_audit_accepts_honest_peel_only() {
    let k = key(4);
    let masked = mask(&point(3), &key(8)).unwrap();
    let masked = mask(&masked, &k).unwrap();
    let peeled = unmask(&masked, &k).unwrap();
    assert!(verify_unmasking(&masked, &peeled, &pk(&k)));
    assert!(!verify_unmasking(&masked, &peeled, &pk(&key(5))));
    assert!(!verify_unmasking(&masked, &point(1), &pk(&k)));
}

#[test]
fn signature_checks_against_hashed_message() {
    let h = point(21);
    let k = key(6);
    let sig = mask(&h, &k).unwrap();
    assert!(verify(&h, &pk(&k), &sig));
    assert!(!verify(&point(22), &pk(&k), &sig));
    assert!(!verify(&h, &pk(&key(7)), &sig));
}

#[test]
fn compressed_slices_are_checked() {
    let p = pk(&key(2));
    assert_eq!(make_public_key_from_compressed_slice(&p.bytes), Ok(p));
    assert_eq!(make_public_key_from_compressed_slice(&p.bytes[..95]), Err(PokerError::LengthMismatch));
    assert_eq!(make_public_key_from_compressed_slice(&[0x11; 96]), Err(PokerError::InvalidEncoding));
    let s = point(4);
    assert_eq!(make_signature_from_compressed_slice(&s.bytes), Ok(s));
    assert_eq!(make_signature_from_compressed_slice(&[0u8; 47]), Err(PokerError::LengthMismatch));
    assert_eq!(make_signature_from_compressed_slice(&[0x11; 48]), Err(PokerError::InvalidEncoding));
    let expected = G2Affine::from(bls12_381::G2Projective::generator() * (Scalar::from(2u64) * Scalar::from(0x9e37_79b9_7f4a_7c15u64))).to_compressed();
    assert_eq!(p.bytes, expected);
}

fn masked_shuffle(before: &[G1Point], k: &SigningKey) -> (Vec<G1Point>, Vec<ShuffleTrace>) {
    let mut deck = MaskedCards::new(before.to_vec());
    deck.mask(k).unwrap();
    let traces = deck.shuffle();
    (deck.cards(), traces)
}

#[test]
fn traced_shuffle_verifies() {
    let before = points(8);
    let k = key(12);
    let (after, traces) = masked_shuffle(&before, &k);
    assert_eq!(verify_shuffle_traced(&before, &after, &pk(&k), &traces), Ok(()));
    assert_eq!(verify_shuffle(&before, &after, &pk(&k)), Ok(()));
}

#[test]
fn altered_point_breaks_shuffle() {
    let before = points(6);
    let k = key(13);
    let (mut after, traces) = masked_shuffle(&before, &k);
    after[3] = point(40);
    assert_eq!(verify_shuffle_traced(&before, &after, &pk(&k), &traces), Err(PokerError::ShuffleForgery));
    assert_eq!(verify_shuffle(&before, &after, &pk(&k)), Err(PokerError::ShuffleForgery));
    let (after, traces) = masked_shuffle(&before, &k);
    assert_eq!(verify_shuffle_traced(&before, &after, &pk(&key(14)), &traces), Err(PokerError::ShuffleForgery));
}

#[test]
fn cloned_card_is_detected() {
    let before = points(4);
    let k = key(15);
    let (mut after, mut traces) = masked_shuffle(&before, &k);
    after[1] = after[0];
    traces[1].claimed_before_index = traces[0].claimed_before_index;
    assert_eq!(verify_shuffle_traced(&before, &after, &pk(&k), &traces), Err(PokerError::ClonedCard));
}

#[test]
fn trace_bounds_and_lengths() {
    let before = points(3);
    let k = key(16);
    let (after, mut traces) = masked_shuffle(&before, &k);
    traces[2].after_index = 3;
    assert_eq!(verify_shuffle_traced(&before, &after, &pk(&k), &traces), Err(PokerError::TraceOutOfBounds));
    assert_eq!(verify_shuffle_traced(&before[..2], &after, &pk(&k), &[]), Err(PokerError::LengthMismatch));
    assert_eq!(verify_shuffle(&before[..2], &after, &pk(&k)), Err(PokerError::LengthMismatch));
}

#[test]
fn shuffle_with_follows_the_order() {
    let mut deck = MaskedCards::new(points(4));
    let traces = deck.shuffle_with(&vec![2, 0, 3, 1]);
    assert_eq!(deck.cards(), vec![point(2), point(0), point(3), point(1)]);
    assert_eq!(traces[0], ShuffleTrace { after_index: 0, claimed_before_index: 2 });
    assert_eq!(traces[3], ShuffleTrace { after_index: 3, claimed_before_index: 1 });
}

#[test]
fn deal_takes_from_the_front() {
    let mut deck = MaskedCards::new(points(5));
    let dealt = deck.deal(2);
    assert_eq!(dealt.cards(), points(2));
    assert_eq!(deck.cards(), points(5)[2..].to_vec());
    assert_eq!(deck.len(), 3);
}

#[test]
fn deck_hash_is_keccak_of_compressed_points() {
    let deck = MaskedCards::new(points(3));
    let mut data = Vec::new();
    for p in points(3) {
        data.extend_from_slice(&p.bytes);
    }
    assert_eq!(deck.hash(), alloy_primitives::keccak256(&data).0);
    assert_ne!(deck.hash(), MaskedCards::new(points(2)).hash());
}

#[test]
fn card_dictionary_lookup() {
    let names = PokerDeck::card_names();
    assert_eq!(names.len(), 52);
    assert_eq!(names[0].to_string(), "2s");
    assert_eq!(names[1].to_string(), "2h");
    assert_eq!(names[51].to_string(), "Ac");
    assert_eq!(PokerDeck::new(points(51)).err(), Some(PokerError::LengthMismatch));
    let deck = PokerDeck::new(points(52)).unwrap();
    assert_eq!(deck.find_card(&point(50)).unwrap().to_string(), "Ad");
    assert!(deck.find_card(&point(60)).is_none());
    let found = deck.unmasked_cards(&UnmaskedCards::new(vec![point(0), point(99), point(12)]));
    assert_eq!(found[0].as_ref().unwrap().to_string(), "2s");
    assert!(found[1].is_none());
    assert_eq!(found[2].as_ref().unwrap().to_string(), "5s");
}

#[test]
fn threshold_signature_round_trip() {
    let (k1, k2) = (key(31), key(32));
    let h = point(5);
    let s1 = mask(&h, &k1).unwrap();
    let s2 = mask(&h, &k2).unwrap();
    let sig = combine(&vec![(1, s1), (2, s2)]).unwrap();
    let master = recover(&vec![(1, pk(&k1)), (2, pk(&k2))]).unwrap();
    assert!(verify(&h, &master, &sig));
    assert!(!verify(&h, &pk(&k1), &sig));
    let one = combine(&vec![(7, s1)]).unwrap();
    assert_eq!(one, s1);
}

#[test]
fn duplicate_labels_are_refused() {
    let s = point(1);
    assert_eq!(combine(&vec![(1, s), (1, s)]), Err(PokerError::InvalidLabelSet));
    assert_eq!(recover(&vec![(3, pk(&key(1))), (4, pk(&key(2))), (3, pk(&key(1)))]), Err(PokerError::InvalidLabelSet));
    assert_eq!(combine(&vec![(1, G1Point { bytes: [0x11; 48] }), (2, s)]), Err(PokerError::InvalidEncoding));
    assert_eq!(combine(&vec![]), Ok(G1Point { bytes: G1Affine::identity().to_compressed() }));
}
