//! Audit of a shuffle: the output deck must be the input deck masked by the
//! shuffler's key and permuted.
use vstd::prelude::*;

use crate::bls::{claims_view, pairing_batch_holds, verify_claims, G1Point, PairingClaim, PublicKey};
use crate::error::PokerError;

verus! {

/// Output position `after_index` claims to come from input position `claimed_before_index`.
#[derive(Clone, Copy, Debug, PartialEq, Eq, Structural)]
pub struct ShuffleTrace {
    pub after_index: usize,
    pub claimed_before_index: usize,
}

/// The encodings of a sequence of points.
pub open spec fn points_view(s: Seq<G1Point>) -> Seq<Seq<u8>> {
    s.map_values(|p: G1Point| p@)
}

/// The single-claim check that `after = sk · before` for the key behind `pk`.
pub open spec fn single_holds(before: Seq<u8>, after: Seq<u8>, pk: Seq<u8>) -> bool {
    pairing_batch_holds(seq![(before, after, pk)])
}

/// `j` is the first position of `avail` whose point `after` can come from.
pub open spec fn is_first_match(avail: Seq<Seq<u8>>, after: Seq<u8>, pk: Seq<u8>, j: int) -> bool {
    &&& 0 <= j < avail.len()
    &&& single_holds(avail[j], after, pk)
    &&& forall|k: int| 0 <= k < j ==> !#[trigger] single_holds(avail[k], after, pk)
}

/// Each output point, in order, is matched to the first still unused input
/// point that it can come from; true when every output point finds one.
pub open spec fn greedy_matches(avail: Seq<Seq<u8>>, after: Seq<Seq<u8>>, pk: Seq<u8>) -> bool
    decreases after.len(),
{
    if after.len() == 0 {
        true
    } else if exists|j: int| is_first_match(avail, after[0], pk, j) {
        let j = choose|j: int| is_first_match(avail, after[0], pk, j);
        greedy_matches(avail.remove(j), after.drop_first(), pk)
    } else {
        false
    }
}

/// What the quadratic shuffle check returns.
pub open spec fn shuffle_outcome(before: Seq<Seq<u8>>, after: Seq<Seq<u8>>, pk: Seq<u8>) -> Result<(), PokerError> {
    if before.len() < after.len() {
        Err(PokerError::LengthMismatch)
    } else if greedy_matches(before, after, pk) {
        Ok(())
    } else {
        Err(PokerError::ShuffleForgery)
    }
}

proof fn lemma_first_match_unique(avail: Seq<Seq<u8>>, after: Seq<u8>, pk: Seq<u8>, j: int, k: int)
    requires
        is_first_match(avail, after, pk, j),
        is_first_match(avail, after, pk, k),
    ensures
        j == k,
{
    if j < k {
        assert(!single_holds(avail[j], after, pk));
    } else if k < j {
        assert(!single_holds(avail[k], after, pk));
    }
}

/// The first point of `available` that `point_after` can come from.
fn find_first_match(available: &Vec<G1Point>, point_after: &G1Point, pk: &PublicKey) -> (r: Option<usize>)
    ensures
        r matches Some(j) ==> is_first_match(points_view(available@), point_after@, pk@, j as int),
        r is None ==> forall|j: int| !is_first_match(points_view(available@), point_after@, pk@, j),
{
    let ghost avail_v = points_view(available@);
    let mut k: usize = 0;
    while k < available.len()
        invariant
            k <= available@.len(),
            avail_v == points_view(available@),
            forall|m: int| 0 <= m < k ==> !#[trigger] single_holds(avail_v[m], point_after@, pk@),
        decreases available@.len() - k,
    {
        let claims = vec![PairingClaim { base: available[k], scaled: *point_after, key: *pk }];
        assert(claims_view(claims@) =~= seq![(avail_v[k as int], point_after@, pk@)]);
        if verify_claims(&claims) {
            return Some(k);
        }
        k = k + 1;
    }
    assert forall|j: int| !is_first_match(avail_v, point_after@, pk@, j) by {
        if is_first_match(avail_v, point_after@, pk@, j) {
            assert(!single_holds(avail_v[j], point_after@, pk@));
        }
    }
    None
}

/// Checks, without a trace, that `masked_after` is a masked permutation of
/// (part of) `masked_before`: each output point is matched, one pairing check
/// at a time, to the first unused input point it can come from.
pub fn verify_shuffle(masked_before: &[G1Point], masked_after: &[G1Point], pk: &PublicKey) -> (r: Result<(), PokerError>)
    ensures
        r == shuffle_outcome(points_view(masked_before@), points_view(masked_after@), pk@),
{
    if masked_before.len() < masked_after.len() {
        return Err(PokerError::LengthMismatch);
    }
    let ghost after_v = points_view(masked_after@);
    let mut available: Vec<G1Point> = Vec::new();
    let mut i: usize = 0;
    while i < masked_before.len()
        invariant
            i <= masked_before@.len(),
            available@ == masked_before@.take(i as int),
        decreases masked_before@.len() - i,
    {
        available.push(masked_before[i]);
        i = i + 1;
        assert(available@ =~= masked_before@.take(i as int));
    }
    assert(masked_before@.take(masked_before@.len() as int) =~= masked_before@);
    let mut t: usize = 0;
    assert(after_v.skip(0) =~= after_v);
    while t < masked_after.len()
        invariant
            t <= masked_after@.len(),
            masked_after@.len() <= masked_before@.len(),
            after_v == points_view(masked_after@),
            greedy_matches(points_view(masked_before@), after_v, pk@)
                == greedy_matches(points_view(available@), after_v.skip(t as int), pk@),
        decreases masked_after@.len() - t,
    {
        let point_after = masked_after[t];
        let ghost avail_v = points_view(available@);
        let ghost rest = after_v.skip(t as int);
        assert(rest[0] == point_after@);
        assert(rest.drop_first() =~= after_v.skip(t + 1));
        let matched = find_first_match(&available, &point_after, pk);
        match matched {
            Some(j) => {
                proof {
                    assert forall|x: int| is_first_match(avail_v, rest[0], pk@, x) implies x == j by {
                        lemma_first_match_unique(avail_v, rest[0], pk@, x, j as int);
                    }
                    assert(avail_v.remove(j as int) =~= points_view(available@.remove(j as int)));
                }
                available.remove(j);
            },
            None => {
                proof {
                    assert forall|x: int| !is_first_match(avail_v, rest[0], pk@, x) by {

                    }
                }
                assert(rest.len() > 0);
                assert(!greedy_matches(avail_v, rest, pk@));
                return Err(PokerError::ShuffleForgery);
            },
        }
        t = t + 1;
    }
    assert(after_v.skip(t as int).len() == 0);
    Ok(())
}

/// All entries before position `k` stay inside both decks and claim
/// pairwise different input positions.
pub open spec fn trace_prefix_ok(traces: Seq<ShuffleTrace>, k: int, before_len: nat, after_len: nat) -> bool {
    forall|i: int| 0 <= i < k ==> {
        &&& #[trigger] traces[i].after_index < after_len
        &&& traces[i].claimed_before_index < before_len
        &&& forall|j: int| 0 <= j < i ==> traces[j].claimed_before_index != traces[i].claimed_before_index
    }
}

pub open spec fn trace_in_bounds(t: ShuffleTrace, before_len: nat, after_len: nat) -> bool {
    t.after_index < after_len && t.claimed_before_index < before_len
}

/// Entry `i` claims an input position that an earlier entry already claimed.
pub open spec fn trace_repeats(traces: Seq<ShuffleTrace>, i: int) -> bool {
    exists|j: int| 0 <= j < i && traces[j].claimed_before_index == traces[i].claimed_before_index
}

/// The claims `after[a] = sk · before[b]` of every trace entry `(a, b)`.
pub open spec fn trace_claims(before: Seq<Seq<u8>>, after: Seq<Seq<u8>>, pk: Seq<u8>, traces: Seq<ShuffleTrace>) -> Seq<(Seq<u8>, Seq<u8>, Seq<u8>)> {
    Seq::new(traces.len(), |i: int| (before[traces[i].claimed_before_index as int], after[traces[i].after_index as int], pk))
}

/// What the traced shuffle check returns: the first malformed entry decides
/// the error; a well-formed trace is accepted when the batched pairing
/// check over all its claims holds.
pub open spec fn traced_outcome(before: Seq<Seq<u8>>, after: Seq<Seq<u8>>, pk: Seq<u8>, traces: Seq<ShuffleTrace>) -> Result<(), PokerError> {
    if before.len() < after.len() {
        Err(PokerError::LengthMismatch)
    } else if exists|i: int| 0 <= i < traces.len() && trace_prefix_ok(traces, i, before.len(), after.len())
        && !trace_in_bounds(#[trigger] traces[i], before.len(), after.len()) {
        Err(PokerError::TraceOutOfBounds)
    } else if exists|i: int| 0 <= i < traces.len() && trace_prefix_ok(traces, i, before.len(), after.len())
        && #[trigger] trace_repeats(traces, i) {
        Err(PokerError::ClonedCard)
    } else if pairing_batch_holds(trace_claims(before, after, pk, traces)) {
        Ok(())
    } else {
        Err(PokerError::ShuffleForgery)
    }
}

/// Checks a shuffle against its trace with a single batched pairing:
/// every entry must lie inside both decks, no two entries may claim the same
/// input card, and `after[a] = sk · before[b]` must hold for every entry.
pub fn verify_shuffle_traced(
    masked_before: &[G1Point],
    masked_after: &[G1Point],
    pk: &PublicKey,
    traces: &[ShuffleTrace],
) -> (r: Result<(), PokerError>)
    ensures
        r == traced_outcome(points_view(masked_before@), points_view(masked_after@), pk@, traces@),
{
    let ghost bv = points_view(masked_before@);
    let ghost av = points_view(masked_after@);
    if masked_before.len() < masked_after.len() {
        return Err(PokerError::LengthMismatch);
    }
    let nb = masked_before.len();
    let na = masked_after.len();
    let mut used: Vec<bool> = Vec::new();
    let mut i: usize = 0;
    while i < nb
        invariant
            i <= nb,
            used@ == Seq::new(i as nat, |x: int| false),
        decreases nb - i,
    {
        used.push(false);
        i = i + 1;
        assert(used@ =~= Seq::new(i as nat, |x: int| false));
    }
    let mut claims: Vec<PairingClaim> = Vec::new();
    let mut t: usize = 0;
    while t < traces.len()
        invariant
            t <= traces@.len(),
            nb == masked_before@.len(),
            na == masked_after@.len(),
            na <= nb,
            bv == points_view(masked_before@),
            av == points_view(masked_after@),
            used@.len() == nb,
            trace_prefix_ok(traces@, t as int, nb as nat, na as nat),
            forall|x: int| 0 <= x < nb ==> (#[trigger] used@[x] <==> exists|j: int|
                0 <= j < t && traces@[j].claimed_before_index == x),
            claims@.len() == t,
            claims_view(claims@) == trace_claims(bv, av, pk@, traces@.take(t as int)),
        decreases traces@.len() - t,
    {
        let trace = traces[t];
        if trace.after_index >= na || trace.claimed_before_index >= nb {
            assert(bv.len() == nb && av.len() == na);
            assert(0 <= t < traces@.len() && trace_prefix_ok(traces@, t as int, nb as nat, na as nat)
                && !trace_in_bounds(traces@[t as int], nb as nat, na as nat));
            return Err(PokerError::TraceOutOfBounds);
        }
        if used[trace.claimed_before_index] {
            assert(bv.len() == nb && av.len() == na);
            assert(used@[trace.claimed_before_index as int]);
            assert(trace_repeats(traces@, t as int));
            assert(0 <= t < traces@.len() && trace_prefix_ok(traces@, t as int, nb as nat, na as nat)
                && trace_repeats(traces@, t as int));
            assert(!(exists|i: int| 0 <= i < traces@.len() && trace_prefix_ok(traces@, i, nb as nat, na as nat)
                && !trace_in_bounds(#[trigger] traces@[i], nb as nat, na as nat))) by {
                assert forall|i: int| 0 <= i < traces@.len() && trace_prefix_ok(traces@, i, nb as nat, na as nat)
                    implies trace_in_bounds(#[trigger] traces@[i], nb as nat, na as nat) by {
                    if i < t {
                    } else if i > t {
                        assert(trace_repeats(traces@, t as int));
                        let j = choose|j: int| 0 <= j < t && traces@[j].claimed_before_index == traces@[t as int].claimed_before_index;
                        assert(traces@[j].claimed_before_index != traces@[t as int].claimed_before_index);
                    }
                }
            }
            return Err(PokerError::ClonedCard);
        }
        used.set(trace.claimed_before_index, true);
        let ghost prev = claims@;
        claims.push(PairingClaim {
            base: masked_before[trace.claimed_before_index],
            scaled: masked_after[trace.after_index],
            key: *pk,
        });
        t = t + 1;
        assert forall|k: int| 0 <= k < t implies #[trigger] claims_view(claims@)[k] == trace_claims(bv, av, pk@, traces@.take(t as int))[k] by {
            if k < t - 1 {
                assert(claims@[k] == prev[k]);
                assert(claims_view(prev)[k] == trace_claims(bv, av, pk@, traces@.take(t - 1))[k]);
            }
        }
        assert(claims_view(claims@) =~= trace_claims(bv, av, pk@, traces@.take(t as int)));
        assert forall|x: int| 0 <= x < nb implies (#[trigger] used@[x] <==> exists|j: int|
            0 <= j < t && traces@[j].claimed_before_index == x) by {
            if x == trace.claimed_before_index {
                assert(traces@[t - 1].claimed_before_index == x);
            }
        }
    }
    assert(traces@.take(t as int) =~= traces@);
    assert(!(exists|i: int| 0 <= i < traces@.len() && trace_prefix_ok(traces@, i, nb as nat, na as nat)
        && !trace_in_bounds(#[trigger] traces@[i], nb as nat, na as nat)));
    assert(!(exists|i: int| 0 <= i < traces@.len() && trace_prefix_ok(traces@, i, nb as nat, na as nat)
        && #[trigger] trace_repeats(traces@, i)));
    if verify_claims(&claims) {
        Ok(())
    } else {
        Err(PokerError::ShuffleForgery)
    }
}

proof fn lemma_first_repeat(traces: Seq<ShuffleTrace>, k: int, before_len: nat, after_len: nat)
    requires
        0 <= k <= traces.len(),
        !trace_prefix_ok(traces, k, before_len, after_len),
        forall|x: int| 0 <= x < traces.len() ==> trace_in_bounds(#[trigger] traces[x], before_len, after_len),
    ensures
        exists|m: int| 0 <= m < k && trace_prefix_ok(traces, m, before_len, after_len) && #[trigger] trace_repeats(traces, m),
    decreases k,
{
    if k > 0 && trace_prefix_ok(traces, k - 1, before_len, after_len) {
        let m = k - 1;
        assert(trace_in_bounds(traces[m], before_len, after_len));
        assert(trace_repeats(traces, m));
    } else if k > 0 {
        lemma_first_repeat(traces, k - 1, before_len, after_len);
    }
}

/// A trace in which two entries claim the same input card is refused as a
/// cloned card, provided every entry lies inside both decks (an earlier
/// out-of-bounds entry is reported first).
pub proof fn lemma_cloned_card_detected(
    before: Seq<Seq<u8>>,
    after: Seq<Seq<u8>>,
    pk: Seq<u8>,
    traces: Seq<ShuffleTrace>,
    i: int,
    j: int,
)
    requires
        before.len() >= after.len(),
        forall|x: int| 0 <= x < traces.len() ==> trace_in_bounds(#[trigger] traces[x], before.len(), after.len()),
        0 <= i < j < traces.len(),
        traces[i].claimed_before_index == traces[j].claimed_before_index,
    ensures
        traced_outcome(before, after, pk, traces) == Err::<(), PokerError>(PokerError::ClonedCard),
{
    assert(!trace_prefix_ok(traces, j + 1, before.len(), after.len())) by {
        if trace_prefix_ok(traces, j + 1, before.len(), after.len()) {
            assert(traces[j].after_index < after.len());
        }
    }
    lemma_first_repeat(traces, j + 1, before.len(), after.len());
    assert(!(exists|x: int| 0 <= x < traces.len() && trace_prefix_ok(traces, x, before.len(), after.len())
        && !trace_in_bounds(#[trigger] traces[x], before.len(), after.len())));
}

/// A trace of the form that [`crate::deck::MaskedCards::shuffle`] hands out
/// (one entry per position, in order, claiming pairwise different inputs)
/// never fails the structural checks: the traced check then accepts exactly
/// when the batched pairing check over its claims holds.
pub proof fn lemma_shuffle_trace_well_formed(
    before: Seq<Seq<u8>>,
    after: Seq<Seq<u8>>,
    pk: Seq<u8>,
    traces: Seq<ShuffleTrace>,
)
    requires
        before.len() == after.len(),
        traces.len() == after.len(),
        forall|i: int| 0 <= i < traces.len() ==> (#[trigger] traces[i]).after_index == i
            && traces[i].claimed_before_index < before.len(),
        forall|i: int, j: int| 0 <= i < j < traces.len() ==> traces[i].claimed_before_index != traces[j].claimed_before_index,
    ensures
        traced_outcome(before, after, pk, traces) == if pairing_batch_holds(trace_claims(before, after, pk, traces)) {
            Ok::<(), PokerError>(())
        } else {
            Err::<(), PokerError>(PokerError::ShuffleForgery)
        },
{
    assert forall|i: int| 0 <= i < traces.len() implies trace_in_bounds(#[trigger] traces[i], before.len(), after.len()) by {}
    assert forall|i: int| 0 <= i < traces.len() implies !#[trigger] trace_repeats(traces, i) by {
        if trace_repeats(traces, i) {
            let j = choose|j: int| 0 <= j < i && traces[j].claimed_before_index == traces[i].claimed_before_index;
            assert(traces[j].claimed_before_index != traces[i].claimed_before_index);
        }
    }
}

} // verus!
