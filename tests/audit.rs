use bls12_381::{G1Projective, Scalar};
use crumble::audit::{audit_trail, replay_unmasking, AuditEntry, UnmaskRecord};
use crumble::bls::{make_public_key_from_signing_key, unmask, G1Point, SigningKey};
use crumble::deck::UnmaskedCards;
use crumble::state::{
    POKER_HAND_STATE_UNMASK_COMMUNITY_CARDS, POKER_HAND_STATE_UNMASK_HOLE_CARDS,
    POKER_HAND_STATE_UNMASK_SHOWDOWN,
};
use pairing::group::Curve;

fn point(seed: u64) -> G1Point {
    G1Point { bytes: (G1Projective::generator() * Scalar::from(seed + 1)).to_affine().to_compressed() }
}

fn key(seed: u64) -> SigningKey {
    let mut bytes = Scalar::from(seed * 7919 + 3).to_bytes();
    bytes.reverse();
    SigningKey { bytes }
}

fn community_record(player: usize, n: usize) -> UnmaskRecord {
    UnmaskRecord { player, kind: POKER_HAND_STATE_UNMASK_COMMUNITY_CARDS, cards: vec![UnmaskedCards::new(vec![point(90 + n as u64); n])] }
}

#[test]
fn six_players_advance_community_rounds() {
    let deck: Vec<G1Point> = (0..52).map(point).collect();
    let mut records = Vec::new();
    for (round, size) in [3usize, 1, 1].iter().enumerate() {
        for p in 0..6 {
            records.push(community_record(p, *size));
        }
        let trail = replay_unmasking(&deck, &records, 6, 3).unwrap();
        assert_eq!(trail.len(), 6 * [3, 4, 5][round]);
    }
    let trail = replay_unmasking(&deck, &records, 6, 3).unwrap();
    assert_eq!(trail[0].masked, deck[12]);
    assert_eq!(trail[18].masked, deck[15]);
    assert_eq!(trail[24].masked, deck[16]);
    // The rounds are used up: a further community peel has no cards to peel.
    records.push(community_record(2, 1));
    assert_eq!(replay_unmasking(&deck, &records, 6, 3).err(), Some(2));
}

#[test]
fn malformed_peel_names_its_author() {
    let deck: Vec<G1Point> = (0..52).map(point).collect();
    let hole = UnmaskRecord {
        player: 1,
        kind: POKER_HAND_STATE_UNMASK_HOLE_CARDS,
        cards: vec![UnmaskedCards::new(vec![point(70)]), UnmaskedCards::new(vec![point(71), point(72)])],
    };
    assert_eq!(replay_unmasking(&deck, &vec![hole], 2, 3).err(), Some(1));
    let flop = UnmaskRecord { player: 0, kind: POKER_HAND_STATE_UNMASK_COMMUNITY_CARDS, cards: vec![UnmaskedCards::new(vec![point(1)])] };
    assert_eq!(replay_unmasking(&deck, &vec![flop], 2, 3).err(), Some(0));
    let showdown = UnmaskRecord { player: 5, kind: POKER_HAND_STATE_UNMASK_SHOWDOWN, cards: vec![] };
    assert_eq!(replay_unmasking(&deck, &vec![showdown], 2, 3).err(), Some(5));
}

#[test]
fn hole_peels_track_each_pair() {
    let deck: Vec<G1Point> = (0..52).map(point).collect();
    let peeled = |a: u64, b: u64| UnmaskedCards::new(vec![point(a), point(b)]);
    let records = vec![
        UnmaskRecord { player: 0, kind: POKER_HAND_STATE_UNMASK_HOLE_CARDS, cards: vec![peeled(0, 1), peeled(60, 61)] },
        UnmaskRecord { player: 1, kind: POKER_HAND_STATE_UNMASK_HOLE_CARDS, cards: vec![peeled(62, 63), peeled(60, 61)] },
        UnmaskRecord { player: 1, kind: POKER_HAND_STATE_UNMASK_SHOWDOWN, cards: vec![peeled(62, 63), peeled(64, 65)] },
    ];
    let trail = replay_unmasking(&deck, &records, 2, 3).unwrap();
    let view: Vec<(G1Point, G1Point, usize)> = trail.iter().map(|e| (e.unmasked, e.masked, e.player)).collect();
    assert_eq!(view, vec![
        (point(60), point(2), 0),
        (point(61), point(3), 0),
        (point(62), point(0), 1),
        (point(63), point(1), 1),
        (point(64), point(60), 1),
        (point(65), point(61), 1),
    ]);
}

#[test]
fn batch_audit_and_fallback() {
    let keys = [key(1), key(2), key(3)];
    let pks: Vec<_> = keys.iter().map(|k| make_public_key_from_signing_key(k).unwrap()).collect();
    let mut trail = Vec::new();
    for i in 0..6u64 {
        let p = (i % 3) as usize;
        let masked = point(i);
        trail.push(AuditEntry { unmasked: unmask(&masked, &keys[p]).unwrap(), masked, player: p });
    }
    assert_eq!(audit_trail(&trail, &pks), None);
    trail[4].unmasked = point(33);
    assert_eq!(audit_trail(&trail, &pks), Some(1));
    trail[2].unmasked = point(34);
    assert_eq!(audit_trail(&trail, &pks), Some(2));
    assert_eq!(audit_trail(&vec![], &pks), None);
}
