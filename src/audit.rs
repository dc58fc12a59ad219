//! Replay of the unmasking history: every peel becomes a pairing claim, all
//! claims are checked in one batch, and a failed batch is searched claim by
//! claim for the first cheater.
use vstd::prelude::*;

use crate::bls::{claims_view, pairing_batch_holds, verify_claims, G1Point, PairingClaim, PublicKey};
use crate::deck::UnmaskedCards;
use crate::shuffle::{points_view, single_holds};
use crate::state::{
    POKER_HAND_STATE_UNMASK_COMMUNITY_CARDS, POKER_HAND_STATE_UNMASK_HOLE_CARDS,
    POKER_HAND_STATE_UNMASK_SHOWDOWN,
};

verus! {

/// One peel submission: who made it, in which phase, and the cards it left.
#[derive(Clone, Debug)]
pub struct UnmaskRecord {
    pub player: usize,
    pub kind: u8,
    pub cards: Vec<UnmaskedCards>,
}

pub open spec fn cards_view(cards: Seq<UnmaskedCards>) -> Seq<Seq<Seq<u8>>> {
    cards.map_values(|c: UnmaskedCards| points_view(c.cards_g1@))
}

impl View for UnmaskRecord {
    type V = (usize, u8, Seq<Seq<Seq<u8>>>);

    open spec fn view(&self) -> (usize, u8, Seq<Seq<Seq<u8>>>) {
        (self.player, self.kind, cards_view(self.cards@))
    }
}

pub open spec fn records_view(records: Seq<UnmaskRecord>) -> Seq<(usize, u8, Seq<Seq<Seq<u8>>>)> {
    records.map_values(|r: UnmaskRecord| r@)
}

/// One peeled point: `unmasked` should be `sk⁻¹ · masked` for the key of `player`.
#[derive(Clone, Copy, Debug)]
pub struct AuditEntry {
    pub unmasked: G1Point,
    pub masked: G1Point,
    pub player: usize,
}

impl View for AuditEntry {
    type V = (Seq<u8>, Seq<u8>, usize);

    open spec fn view(&self) -> (Seq<u8>, Seq<u8>, usize) {
        (self.unmasked@, self.masked@, self.player)
    }
}

pub open spec fn trail_view(trail: Seq<AuditEntry>) -> Seq<(Seq<u8>, Seq<u8>, usize)> {
    trail.map_values(|e: AuditEntry| e@)
}

/// Where community round `r` (0 for the flop) starts in the dealt deck:
/// after every player's two hole cards come three flop cards, then one card
/// for each later round.
pub open spec fn community_start(num_players: int, r: int) -> int {
    2 * num_players + if r == 0 { 0 } else { r + 2 }
}

pub open spec fn community_len(r: int) -> int {
    if r == 0 { 3 } else { 1 }
}

/// What the replay tracks: the current form of each hole pair and each
/// community slice, the community round being peeled, how many players have
/// peeled it, and the claims collected so far.
pub struct ReplayState {
    pub hole: Seq<Seq<Seq<u8>>>,
    pub community: Seq<Seq<Seq<u8>>>,
    pub round: int,
    pub count: int,
    pub trail: Seq<(Seq<u8>, Seq<u8>, usize)>,
}

/// The cards as dealt from the final shuffled deck.
pub open spec fn replay_start(deck: Seq<Seq<u8>>, num_players: int, community_rounds: int) -> ReplayState {
    ReplayState {
        hole: Seq::new(num_players as nat, |t: int| deck.subrange(2 * t, 2 * t + 2)),
        community: Seq::new(community_rounds as nat, |r: int|
            deck.subrange(community_start(num_players, r), community_start(num_players, r) + community_len(r))),
        round: 0,
        count: 0,
        trail: seq![],
    }
}

/// The claims that `actor` peeled `before` into `after`, point by point.
pub open spec fn peel_claims(before: Seq<Seq<u8>>, after: Seq<Seq<u8>>, actor: usize) -> Seq<(Seq<u8>, Seq<u8>, usize)> {
    Seq::new(before.len(), |k: int| (after[k], before[k], actor))
}

/// The claims of a hole-card peel by `actor` over targets `0..upto`, every
/// target but the actor.
pub open spec fn hole_claims(hole: Seq<Seq<Seq<u8>>>, cards: Seq<Seq<Seq<u8>>>, actor: usize, upto: int) -> Seq<(Seq<u8>, Seq<u8>, usize)>
    decreases upto,
{
    if upto <= 0 {
        seq![]
    } else if upto - 1 == actor {
        hole_claims(hole, cards, actor, upto - 1)
    } else {
        hole_claims(hole, cards, actor, upto - 1) + peel_claims(hole[upto - 1], cards[upto - 1], actor)
    }
}

/// One step of the replay. `Err(actor)` where the record has the wrong
/// shape for its phase: a peel that leaves a different number of points, or
/// a community peel after the last round.
pub open spec fn replay_step(st: ReplayState, rec: (usize, u8, Seq<Seq<Seq<u8>>>), num_players: int) -> Result<ReplayState, usize> {
    let (actor, kind, cards) = rec;
    if kind == POKER_HAND_STATE_UNMASK_HOLE_CARDS {
        if actor >= num_players || cards.len() != num_players
            || exists|t: int| 0 <= t < num_players && t != actor && #[trigger] cards[t].len() != st.hole[t].len() {
            Err(actor)
        } else {
            Ok(ReplayState {
                hole: Seq::new(num_players as nat, |t: int| if t == actor { st.hole[t] } else { cards[t] }),
                trail: st.trail + hole_claims(st.hole, cards, actor, num_players),
                ..st
            })
        }
    } else if kind == POKER_HAND_STATE_UNMASK_COMMUNITY_CARDS {
        if actor >= num_players || st.round >= st.community.len() || cards.len() == 0 || cards[0].len() != st.community[st.round].len() {
            Err(actor)
        } else {
            Ok(ReplayState {
                community: st.community.update(st.round, cards[0]),
                round: if st.count + 1 == num_players { st.round + 1 } else { st.round },
                count: if st.count + 1 == num_players { 0 } else { st.count + 1 },
                trail: st.trail + peel_claims(st.community[st.round], cards[0], actor),
                ..st
            })
        }
    } else if kind == POKER_HAND_STATE_UNMASK_SHOWDOWN {
        if actor >= num_players || cards.len() != num_players || cards[actor as int].len() != st.hole[actor as int].len() {
            Err(actor)
        } else {
            Ok(ReplayState {
                hole: st.hole.update(actor as int, cards[actor as int]),
                trail: st.trail + peel_claims(st.hole[actor as int], cards[actor as int], actor),
                ..st
            })
        }
    } else {
        Ok(st)
    }
}

/// The replay of a whole history, in order.
pub open spec fn replay(start: ReplayState, records: Seq<(usize, u8, Seq<Seq<Seq<u8>>>)>, num_players: int) -> Result<ReplayState, usize>
    decreases records.len(),
{
    if records.len() == 0 {
        Ok(start)
    } else {
        match replay(start, records.drop_last(), num_players) {
            Ok(st) => replay_step(st, records.last(), num_players),
            Err(a) => Err(a),
        }
    }
}

/// The pairing claims of a trail under the players' keys.
pub open spec fn trail_claims(trail: Seq<(Seq<u8>, Seq<u8>, usize)>, keys: Seq<Seq<u8>>) -> Seq<(Seq<u8>, Seq<u8>, Seq<u8>)> {
    Seq::new(trail.len(), |i: int| (trail[i].0, trail[i].1, keys[trail[i].2 as int]))
}

/// `i` is the first entry of the trail whose own pairing check fails.
pub open spec fn is_first_failure(trail: Seq<(Seq<u8>, Seq<u8>, usize)>, keys: Seq<Seq<u8>>, i: int) -> bool {
    &&& 0 <= i < trail.len()
    &&& !single_holds(trail[i].0, trail[i].1, keys[trail[i].2 as int])
    &&& forall|j: int| 0 <= j < i ==> #[trigger] single_holds(trail[j].0, trail[j].1, keys[trail[j].2 as int])
}

/// The verdict on a trail: `None` when the batch holds (or, failing that,
/// when no single claim fails), else the player of the first failing claim.
pub open spec fn trail_verdict(trail: Seq<(Seq<u8>, Seq<u8>, usize)>, keys: Seq<Seq<u8>>) -> Option<usize> {
    if pairing_batch_holds(trail_claims(trail, keys)) {
        None
    } else if exists|i: int| is_first_failure(trail, keys, i) {
        Some(trail[choose|i: int| is_first_failure(trail, keys, i)].2)
    } else {
        None
    }
}

/// The verdict on a whole history replayed from the dealt deck.
pub open spec fn audit_verdict(deck: Seq<Seq<u8>>, records: Seq<(usize, u8, Seq<Seq<Seq<u8>>>)>, keys: Seq<Seq<u8>>, num_players: int, community_rounds: int) -> Option<usize> {
    match replay(replay_start(deck, num_players, community_rounds), records, num_players) {
        Err(a) => Some(a),
        Ok(st) => trail_verdict(st.trail, keys),
    }
}

pub open spec fn keys_view(keys: Seq<PublicKey>) -> Seq<Seq<u8>> {
    keys.map_values(|k: PublicKey| k@)
}

pub open spec fn nested_view(v: Seq<Vec<G1Point>>) -> Seq<Seq<Seq<u8>>> {
    v.map_values(|x: Vec<G1Point>| points_view(x@))
}

pub open spec fn exec_state(
    hole: Seq<Vec<G1Point>>,
    community: Seq<Vec<G1Point>>,
    round: usize,
    count: usize,
    trail: Seq<AuditEntry>,
) -> ReplayState {
    ReplayState {
        hole: nested_view(hole),
        community: nested_view(community),
        round: round as int,
        count: count as int,
        trail: trail_view(trail),
    }
}

proof fn lemma_replay_err_sticks(start: ReplayState, records: Seq<(usize, u8, Seq<Seq<Seq<u8>>>)>, n: int, k: int, a: usize)
    requires
        0 <= k <= records.len(),
        replay(start, records.take(k), n) == Err::<ReplayState, usize>(a),
    ensures
        replay(start, records, n) == Err::<ReplayState, usize>(a),
    decreases records.len() - k,
{
    if k < records.len() {
        assert(records.take(k + 1).drop_last() =~= records.take(k));
        lemma_replay_err_sticks(start, records, n, k + 1, a);
    } else {
        assert(records.take(k) =~= records);
    }
}

fn copy_range(deck: &Vec<G1Point>, start: usize, end: usize) -> (r: Vec<G1Point>)
    requires
        start <= end <= deck@.len(),
    ensures
        r@ == deck@.subrange(start as int, end as int),
{
    let mut r: Vec<G1Point> = Vec::new();
    let mut i: usize = start;
    while i < end
        invariant
            start <= i <= end,
            end <= deck@.len(),
            r@ == deck@.subrange(start as int, i as int),
        decreases end - i,
    {
        r.push(deck[i]);
        i = i + 1;
        assert(r@ =~= deck@.subrange(start as int, i as int));
    }
    r
}

/// Appends the claims that `actor` peeled `before` into `after`.
fn push_peel(trail: &mut Vec<AuditEntry>, before: &Vec<G1Point>, after: &Vec<G1Point>, actor: usize)
    requires
        before@.len() == after@.len(),
    ensures
        trail_view(final(trail)@) == trail_view(old(trail)@) + peel_claims(points_view(before@), points_view(after@), actor),
{
    let ghost start = trail_view(trail@);
    let mut k: usize = 0;
    while k < before.len()
        invariant
            k <= before@.len(),
            before@.len() == after@.len(),
            trail_view(trail@) == start + peel_claims(points_view(before@).take(k as int), points_view(after@), actor),
        decreases before@.len() - k,
    {
        let ghost prev = trail@;
        let e = AuditEntry { unmasked: after[k], masked: before[k], player: actor };
        trail.push(e);
        assert(trail_view(trail@) =~= trail_view(prev).push(e@));
        assert(peel_claims(points_view(before@).take(k + 1), points_view(after@), actor) =~= peel_claims(
            points_view(before@).take(k as int), points_view(after@), actor).push(e@));
        k = k + 1;
    }
    assert(points_view(before@).take(k as int) =~= points_view(before@));
}

/// Whether every hole pair but the actor's keeps its length in `cards`.
fn hole_lengths_match(hole: &Vec<Vec<G1Point>>, cards: &Vec<UnmaskedCards>, actor: usize) -> (r: bool)
    requires
        cards@.len() == hole@.len(),
    ensures
        r == !exists|t: int| 0 <= t < hole@.len() && t != actor && #[trigger] cards_view(cards@)[t].len() != nested_view(hole@)[t].len(),
{
    let mut u: usize = 0;
    while u < hole.len()
        invariant
            cards@.len() == hole@.len(),
            u <= hole@.len(),
            forall|v: int| 0 <= v < u && v != actor ==> #[trigger] cards_view(cards@)[v].len() == nested_view(hole@)[v].len(),
        decreases hole@.len() - u,
    {
        if u != actor && cards[u].cards_g1.len() != hole[u].len() {
            assert(cards_view(cards@)[u as int].len() != nested_view(hole@)[u as int].len());
            return false;
        }
        u = u + 1;
    }
    true
}

/// The hole-card peel of `actor`: every other player's pair is replaced by
/// its form in `cards`, and the claims of those peels are appended.
fn peel_hole(hole: &mut Vec<Vec<G1Point>>, trail: &mut Vec<AuditEntry>, cards: &Vec<UnmaskedCards>, actor: usize)
    requires
        cards@.len() == old(hole)@.len(),
        forall|t: int| 0 <= t < old(hole)@.len() && t != actor ==> #[trigger] cards_view(cards@)[t].len() == nested_view(old(hole)@)[t].len(),
    ensures
        nested_view(final(hole)@) == Seq::new(old(hole)@.len(), |t: int|
            if t == actor { nested_view(old(hole)@)[t] } else { cards_view(cards@)[t] }),
        trail_view(final(trail)@) == trail_view(old(trail)@) + hole_claims(nested_view(old(hole)@), cards_view(cards@), actor, old(hole)@.len() as int),
{
    let n = hole.len();
    let ghost h0 = nested_view(hole@);
    let ghost cv = cards_view(cards@);
    let ghost t0 = trail_view(trail@);
    let mut u: usize = 0;
    while u < n
        invariant
            n == hole@.len(),
            n == cards@.len(),
            u <= n,
            h0.len() == n,
            cv == cards_view(cards@),
            forall|t: int| 0 <= t < n && t != actor ==> #[trigger] cv[t].len() == h0[t].len(),
            forall|v: int| 0 <= v < n ==> #[trigger] nested_view(hole@)[v] == if v < u && v != actor { cv[v] } else { h0[v] },
            trail_view(trail@) == t0 + hole_claims(h0, cv, actor, u as int),
        decreases n - u,
    {
        if u != actor {
            let after = cards[u].cards();
            assert(points_view(after@) == cv[u as int]);
            assert(points_view(hole@[u as int]@) == nested_view(hole@)[u as int]);
            let ghost h = hole@;
            push_peel(trail, &hole[u], &after, actor);
            hole.set(u, after);
            assert forall|v: int| 0 <= v < n implies #[trigger] nested_view(hole@)[v] == if v < u + 1 && v != actor { cv[v] } else { h0[v] } by {
                if v != u {
                    assert(hole@[v] == h[v]);
                    assert(nested_view(h)[v] == nested_view(hole@)[v]);
                }
            }
        }
        u = u + 1;
    }
    assert(nested_view(hole@) =~= Seq::new(n as nat, |t: int| if t == actor { h0[t] } else { cv[t] }));
}

/// Replays the peel history against the cards dealt from `deck`, collecting
/// one audit entry per peeled point; `Err(actor)` names the author of the
/// first record whose shape does not fit its phase.
pub fn replay_unmasking(
    deck: &Vec<G1Point>,
    records: &Vec<UnmaskRecord>,
    num_players: usize,
    community_rounds: usize,
) -> (r: Result<Vec<AuditEntry>, usize>)
    requires
        2 * num_players + community_rounds + 2 <= deck@.len(),
    ensures
        match replay(replay_start(points_view(deck@), num_players as int, community_rounds as int), records_view(records@), num_players as int) {
            Ok(st) => r matches Ok(trail) && trail_view(trail@) == st.trail,
            Err(a) => r == Err::<Vec<AuditEntry>, usize>(a),
        },
{
    let n = num_players;
    let dl = deck.len();
    let ghost start = replay_start(points_view(deck@), n as int, community_rounds as int);
    let ghost recs = records_view(records@);
    let mut hole: Vec<Vec<G1Point>> = Vec::new();
    let mut t: usize = 0;
    while t < n
        invariant
            t <= n,
            dl == deck@.len(),
            start == replay_start(points_view(deck@), n as int, community_rounds as int),
            2 * n + community_rounds + 2 <= deck@.len(),
            hole@.len() == t,
            nested_view(hole@) == start.hole.take(t as int),
        decreases n - t,
    {
        let pair = copy_range(deck, 2 * t, 2 * t + 2);
        let ghost prev = hole@;
        hole.push(pair);
        assert(points_view(pair@) =~= start.hole[t as int]);
        assert(nested_view(hole@) =~= nested_view(prev).push(points_view(pair@)));
        assert(start.hole.take(t + 1) =~= start.hole.take(t as int).push(start.hole[t as int]));
        t = t + 1;
    }
    let mut community: Vec<Vec<G1Point>> = Vec::new();
    let mut r: usize = 0;
    while r < community_rounds
        invariant
            r <= community_rounds,
            dl == deck@.len(),
            start == replay_start(points_view(deck@), n as int, community_rounds as int),
            2 * n + community_rounds + 2 <= deck@.len(),
            community@.len() == r,
            nested_view(community@) == start.community.take(r as int),
        decreases community_rounds - r,
    {
        let from = if r == 0 { 2 * n } else { 2 * n + r + 2 };
        let len: usize = if r == 0 { 3 } else { 1 };
        let slice = copy_range(deck, from, from + len);
        let ghost prev = community@;
        community.push(slice);
        assert(points_view(slice@) =~= start.community[r as int]);
        assert(nested_view(community@) =~= nested_view(prev).push(points_view(slice@)));
        assert(start.community.take(r + 1) =~= start.community.take(r as int).push(start.community[r as int]));
        r = r + 1;
    }
    let mut trail: Vec<AuditEntry> = Vec::new();
    let mut round: usize = 0;
    let mut count: usize = 0;
    assert(exec_state(hole@, community@, round, count, trail@) == start) by {
        assert(start.hole.take(n as int) =~= start.hole);
        assert(start.community.take(community_rounds as int) =~= start.community);
        assert(trail_view(trail@) =~= start.trail);
    }
    assert(recs.take(0) =~= seq![]);
    let mut i: usize = 0;
    while i < records.len()
        invariant
            i <= records@.len(),
            n == num_players,
            recs == records_view(records@),
            start == replay_start(points_view(deck@), n as int, community_rounds as int),
            hole@.len() == n,
            community@.len() == community_rounds,
            count <= i,
            replay(start, recs.take(i as int), n as int) == Ok::<ReplayState, usize>(exec_state(hole@, community@, round, count, trail@)),
        decreases records@.len() - i,
    {
        let rec = &records[i];
        let actor = rec.player;
        let ghost st = exec_state(hole@, community@, round, count, trail@);
        let ghost rv = recs[i as int];
        assert(rv == rec@);
        assert(recs.take(i + 1).drop_last() =~= recs.take(i as int));
        assert(recs.take(i + 1).last() == rv);
        if rec.kind == POKER_HAND_STATE_UNMASK_HOLE_CARDS {
            if actor >= n || rec.cards.len() != n {
                assert(replay_step(st, rv, n as int) == Err::<ReplayState, usize>(actor));
                assert(replay(start, recs.take(i + 1), n as int) == Err::<ReplayState, usize>(actor));
                proof { lemma_replay_err_sticks(start, recs, n as int, i + 1, actor); }
                return Err(actor);
            }
            if !hole_lengths_match(&hole, &rec.cards, actor) {
                assert(replay_step(st, rv, n as int) == Err::<ReplayState, usize>(actor));
                assert(replay(start, recs.take(i + 1), n as int) == Err::<ReplayState, usize>(actor));
                proof { lemma_replay_err_sticks(start, recs, n as int, i + 1, actor); }
                return Err(actor);
            }
            let ghost expected = replay_step(st, rv, n as int).unwrap();
            peel_hole(&mut hole, &mut trail, &rec.cards, actor);
            assert(nested_view(hole@) =~= expected.hole);
            assert(exec_state(hole@, community@, round, count, trail@) == expected);
        } else if rec.kind == POKER_HAND_STATE_UNMASK_COMMUNITY_CARDS {
            if actor >= n || round >= community_rounds || rec.cards.len() == 0 || rec.cards[0].cards_g1.len() != community[round].len() {
                proof {
                    if actor < n && round < community_rounds && rec.cards@.len() > 0 {
                        assert(points_view(community@[round as int]@).len() == community@[round as int]@.len());
                    }
                    assert(replay_step(st, rv, n as int) == Err::<ReplayState, usize>(actor));
                    assert(replay(start, recs.take(i + 1), n as int) == Err::<ReplayState, usize>(actor));
                    lemma_replay_err_sticks(start, recs, n as int, i + 1, actor);
                }
                return Err(actor);
            }
            let after = rec.cards[0].cards();
            assert(points_view(after@) == rv.2[0]);
            let ghost c = community@;
            push_peel(&mut trail, &community[round], &after, actor);
            community.set(round, after);
            if count + 1 == n {
                count = 0;
                round = round + 1;
            } else {
                count = count + 1;
            }
            assert(nested_view(community@) =~= st.community.update(st.round, rv.2[0]));
        } else if rec.kind == POKER_HAND_STATE_UNMASK_SHOWDOWN {
            if actor >= n || rec.cards.len() != n || rec.cards[actor].cards_g1.len() != hole[actor].len() {
                proof {
                    if actor < n && rec.cards@.len() == n {
                        assert(points_view(hole@[actor as int]@).len() == hole@[actor as int]@.len());
                    }
                    assert(replay_step(st, rv, n as int) == Err::<ReplayState, usize>(actor));
                    assert(replay(start, recs.take(i + 1), n as int) == Err::<ReplayState, usize>(actor));
                    lemma_replay_err_sticks(start, recs, n as int, i + 1, actor);
                }
                return Err(actor);
            }
            let after = rec.cards[actor].cards();
            assert(points_view(after@) == rv.2[actor as int]);
            push_peel(&mut trail, &hole[actor], &after, actor);
            hole.set(actor, after);
            assert(nested_view(hole@) =~= st.hole.update(actor as int, rv.2[actor as int]));
        }
        i = i + 1;
    }
    assert(recs.take(records@.len() as int) =~= recs);
    Ok(trail)
}

/// The verdict on a trail under the players' keys: `None` when the batched
/// check holds, else the player of the first entry whose own check fails.
pub fn audit_trail(trail: &Vec<AuditEntry>, keys: &Vec<PublicKey>) -> (r: Option<usize>)
    requires
        forall|i: int| 0 <= i < trail@.len() ==> #[trigger] trail@[i].player < keys@.len(),
    ensures
        r == trail_verdict(trail_view(trail@), keys_view(keys@)),
{
    let ghost tv = trail_view(trail@);
    let ghost kv = keys_view(keys@);
    let mut claims: Vec<PairingClaim> = Vec::new();
    let mut i: usize = 0;
    while i < trail.len()
        invariant
            i <= trail@.len(),
            tv == trail_view(trail@),
            kv == keys_view(keys@),
            forall|j: int| 0 <= j < trail@.len() ==> #[trigger] trail@[j].player < keys@.len(),
            claims_view(claims@) == trail_claims(tv.take(i as int), kv),
        decreases trail@.len() - i,
    {
        let e = trail[i];
        let c = PairingClaim { base: e.unmasked, scaled: e.masked, key: keys[e.player] };
        let ghost prev = claims@;
        claims.push(c);
        assert(claims_view(claims@) =~= claims_view(prev).push(c@));
        assert(trail_claims(tv.take(i + 1), kv) =~= trail_claims(tv.take(i as int), kv).push(c@));
        i = i + 1;
    }
    assert(tv.take(i as int) =~= tv);
    if verify_claims(&claims) {
        return None;
    }
    let mut k: usize = 0;
    while k < trail.len()
        invariant
            k <= trail@.len(),
            tv == trail_view(trail@),
            kv == keys_view(keys@),
            !pairing_batch_holds(trail_claims(tv, kv)),
            forall|j: int| 0 <= j < trail@.len() ==> #[trigger] trail@[j].player < keys@.len(),
            forall|j: int| 0 <= j < k ==> #[trigger] single_holds(tv[j].0, tv[j].1, kv[tv[j].2 as int]),
        decreases trail@.len() - k,
    {
        let e = trail[k];
        let one = vec![PairingClaim { base: e.unmasked, scaled: e.masked, key: keys[e.player] }];
        assert(claims_view(one@) =~= seq![(tv[k as int].0, tv[k as int].1, kv[tv[k as int].2 as int])]);
        if !verify_claims(&one) {
            assert(is_first_failure(tv, kv, k as int));
            proof {
                assert forall|x: int| is_first_failure(tv, kv, x) implies x == k by {
                    if x < k {
                    } else if x > k {
                        assert(single_holds(tv[k as int].0, tv[k as int].1, kv[tv[k as int].2 as int]));
                    }
                }
            }
            return Some(e.player);
        }
        k = k + 1;
    }
    assert forall|x: int| !is_first_failure(tv, kv, x) by {
        if is_first_failure(tv, kv, x) {
            assert(single_holds(tv[x].0, tv[x].1, kv[tv[x].2 as int]));
        }
    }
    None
}

proof fn lemma_hole_claims_players(hole: Seq<Seq<Seq<u8>>>, cards: Seq<Seq<Seq<u8>>>, actor: usize, upto: int)
    ensures
        forall|i: int| 0 <= i < hole_claims(hole, cards, actor, upto).len() ==> (#[trigger] hole_claims(hole, cards, actor, upto)[i]).2 == actor,
    decreases upto,
{
    if upto > 0 {
        lemma_hole_claims_players(hole, cards, actor, upto - 1);
        let prev = hole_claims(hole, cards, actor, upto - 1);
        if upto - 1 != actor {
            let p = peel_claims(hole[upto - 1], cards[upto - 1], actor);
            assert forall|i: int| 0 <= i < (prev + p).len() implies (#[trigger] (prev + p)[i]).2 == actor by {
                if i >= prev.len() {
                    assert((prev + p)[i] == p[i - prev.len()]);
                }
            }
        }
    }
}

/// Every claim of a successful replay names one of the players.
pub proof fn lemma_replay_players(start: ReplayState, records: Seq<(usize, u8, Seq<Seq<Seq<u8>>>)>, n: int)
    requires
        forall|i: int| 0 <= i < start.trail.len() ==> (#[trigger] start.trail[i]).2 < n,
    ensures
        replay(start, records, n) matches Ok(st) ==> forall|i: int| 0 <= i < st.trail.len() ==> (#[trigger] st.trail[i]).2 < n,
    decreases records.len(),
{
    if records.len() > 0 {
        lemma_replay_players(start, records.drop_last(), n);
        if let Ok(st) = replay(start, records.drop_last(), n) {
            let rec = records.last();
            lemma_hole_claims_players(st.hole, rec.2, rec.0, n);
        }
    }
}

/// When the batched check fails and exactly one peel fails its own check,
/// the fallback pass names the player who made that peel.
pub proof fn lemma_single_cheater_found(trail: Seq<(Seq<u8>, Seq<u8>, usize)>, keys: Seq<Seq<u8>>, i: int)
    requires
        0 <= i < trail.len(),
        !pairing_batch_holds(trail_claims(trail, keys)),
        !single_holds(trail[i].0, trail[i].1, keys[trail[i].2 as int]),
        forall|j: int| 0 <= j < trail.len() && j != i ==> #[trigger] single_holds(trail[j].0, trail[j].1, keys[trail[j].2 as int]),
    ensures
        trail_verdict(trail, keys) == Some(trail[i].2),
{
    assert(is_first_failure(trail, keys, i));
    let x = choose|x: int| is_first_failure(trail, keys, x);
    assert(x == i);
}

} // verus!
