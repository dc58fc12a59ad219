//! The 52-card dictionary, the masked working deck and dealt cards.
use vstd::prelude::*;

use crate::bls::{
    g1_mul, is_permutation, keccak256, keccak256_of, random_permutation, scalar_inverse, G1Point,
    SigningKey,
};
use crate::error::PokerError;
use crate::shuffle::{points_view, ShuffleTrace};

verus! {

pub const DECK_SIZE: usize = 52;

/// Ranks from two to ace, as ASCII.
pub const RANKS: [u8; 13] = [50, 51, 52, 53, 54, 55, 56, 57, 84, 74, 81, 75, 65];

/// Suits spades, hearts, diamonds, clubs, as ASCII.
pub const SUITS: [u8; 4] = [115, 104, 100, 99];

/// The two-byte name of card `i` of the canonical order: rank-major, suit-minor.
pub open spec fn card_name(i: int) -> Seq<u8> {
    seq![RANKS@[i / 4], SUITS@[i % 4]]
}

/// A card by its two ASCII bytes, rank then suit (`"As"`, `"Td"`).
#[derive(Clone, Debug, PartialEq, Eq)]
pub struct PokerCard(pub Vec<u8>);

impl View for PokerCard {
    type V = Seq<u8>;

    open spec fn view(&self) -> Seq<u8> {
        self.0@
    }
}

pub open spec fn ascii_chars(b: Seq<u8>) -> Seq<char> {
    b.map_values(|c: u8| c as char)
}

/// Relies on `String::from_utf8`, which accepts every ASCII byte string
/// and keeps its characters.
#[verifier::external_body]
fn ascii_string(b: &Vec<u8>) -> (r: String)
    requires
        forall|i: int| 0 <= i < b@.len() ==> #[trigger] b@[i] < 128,
    ensures
        r@ == ascii_chars(b@),
{
    String::from_utf8(b.clone()).unwrap()
}

impl PokerCard {
    /// The card's name as text.
    pub fn to_string(&self) -> (r: String)
        requires
            forall|i: int| 0 <= i < self@.len() ==> #[trigger] self@[i] < 128,
        ensures
            r@ == ascii_chars(self@),
    {
        ascii_string(&self.0)
    }
}

fn copy_points(v: &Vec<G1Point>) -> (r: Vec<G1Point>)
    ensures
        r@ == v@,
{
    let mut r: Vec<G1Point> = Vec::new();
    let mut i: usize = 0;
    while i < v.len()
        invariant
            i <= v@.len(),
            r@ == v@.take(i as int),
        decreases v@.len() - i,
    {
        r.push(v[i]);
        i = i + 1;
        assert(r@ =~= v@.take(i as int));
    }
    assert(v@.take(v@.len() as int) =~= v@);
    r
}

fn make_card(i: usize) -> (r: PokerCard)
    requires
        i < DECK_SIZE,
    ensures
        r@ == card_name(i as int),
{
    let mut name: Vec<u8> = Vec::new();
    name.push(RANKS[i / 4]);
    name.push(SUITS[i % 4]);
    assert(name@ =~= card_name(i as int));
    PokerCard(name)
}

/// The card dictionary: the 52 names and the G1 point each one hashes to.
#[derive(Clone, Debug)]
pub struct PokerDeck {
    pub poker_cards: Vec<PokerCard>,
    pub cards_g1: Vec<G1Point>,
}

impl PokerDeck {
    pub open spec fn wf(&self) -> bool {
        &&& self.poker_cards@.len() == DECK_SIZE
        &&& self.cards_g1@.len() == DECK_SIZE
        &&& forall|i: int| 0 <= i < DECK_SIZE ==> #[trigger] self.poker_cards@[i]@ == card_name(i)
    }

    /// The 52 card names in canonical order; hashing each to G1 gives the
    /// points that [`PokerDeck::new`] takes.
    pub fn card_names() -> (r: Vec<PokerCard>)
        ensures
            r@.len() == DECK_SIZE,
            forall|i: int| 0 <= i < DECK_SIZE ==> #[trigger] r@[i]@ == card_name(i),
    {
        let mut cards: Vec<PokerCard> = Vec::new();
        let mut i: usize = 0;
        while i < DECK_SIZE
            invariant
                i <= DECK_SIZE,
                cards@.len() == i,
                forall|j: int| 0 <= j < i ==> #[trigger] cards@[j]@ == card_name(j),
            decreases DECK_SIZE - i,
        {
            cards.push(make_card(i));
            i = i + 1;
        }
        cards
    }

    /// The dictionary for the given card points, one per name of
    /// [`PokerDeck::card_names`], in the same order.
    pub fn new(cards_g1: Vec<G1Point>) -> (r: Result<PokerDeck, PokerError>)
        ensures
            cards_g1@.len() != DECK_SIZE ==> r == Err::<PokerDeck, PokerError>(PokerError::LengthMismatch),
            cards_g1@.len() == DECK_SIZE ==> (r matches Ok(d) && d.wf() && d.cards_g1@ == cards_g1@),
    {
        if cards_g1.len() != DECK_SIZE {
            return Err(PokerError::LengthMismatch);
        }
        Ok(PokerDeck { poker_cards: Self::card_names(), cards_g1 })
    }

    /// The name of the card whose point is `revealed_point`, if any.
    pub fn find_card(&self, revealed_point: &G1Point) -> (r: Option<PokerCard>)
        requires
            self.wf(),
        ensures
            r matches Some(c) ==> exists|i: int| 0 <= i < DECK_SIZE && self.cards_g1@[i]@ == revealed_point@
                && c@ == card_name(i) && forall|j: int| 0 <= j < i ==> self.cards_g1@[j]@ != revealed_point@,
            r is None ==> forall|i: int| 0 <= i < DECK_SIZE ==> self.cards_g1@[i]@ != revealed_point@,
    {
        let mut i: usize = 0;
        while i < DECK_SIZE
            invariant
                self.wf(),
                i <= DECK_SIZE,
                forall|j: int| 0 <= j < i ==> self.cards_g1@[j]@ != revealed_point@,
            decreases DECK_SIZE - i,
        {
            if self.cards_g1[i] == *revealed_point {
                return Some(make_card(i));
            }
            i = i + 1;
        }
        None
    }

    /// The card points in canonical order.
    pub fn cards(&self) -> (r: Vec<G1Point>)
        ensures
            r@ == self.cards_g1@,
    {
        copy_points(&self.cards_g1)
    }

    /// A deck that no one has masked yet.
    pub fn masked_cards(&self) -> (r: MaskedCards)
        ensures
            r.cards_g1@ == self.cards_g1@,
    {
        MaskedCards::new(self.cards())
    }

    /// Looks up every point of `unmasked_cards`.
    pub fn unmasked_cards(&self, unmasked_cards: &UnmaskedCards) -> (r: Vec<Option<PokerCard>>)
        requires
            self.wf(),
        ensures
            r@.len() == unmasked_cards.cards_g1@.len(),
            forall|k: int| 0 <= k < r@.len() ==> (#[trigger] r@[k] is None <==> forall|i: int|
                0 <= i < DECK_SIZE ==> self.cards_g1@[i]@ != unmasked_cards.cards_g1@[k]@),
            forall|k: int| 0 <= k < r@.len() ==> (#[trigger] r@[k] matches Some(c) ==> exists|i: int|
                0 <= i < DECK_SIZE && self.cards_g1@[i]@ == unmasked_cards.cards_g1@[k]@ && c@ == card_name(i)),
    {
        let mut r: Vec<Option<PokerCard>> = Vec::new();
        let mut k: usize = 0;
        while k < unmasked_cards.cards_g1.len()
            invariant
                self.wf(),
                k <= unmasked_cards.cards_g1@.len(),
                r@.len() == k,
                forall|m: int| 0 <= m < k ==> (#[trigger] r@[m] is None <==> forall|i: int|
                    0 <= i < DECK_SIZE ==> self.cards_g1@[i]@ != unmasked_cards.cards_g1@[m]@),
                forall|m: int| 0 <= m < k ==> (#[trigger] r@[m] matches Some(c) ==> exists|i: int|
                    0 <= i < DECK_SIZE && self.cards_g1@[i]@ == unmasked_cards.cards_g1@[m]@ && c@ == card_name(i)),
            decreases unmasked_cards.cards_g1@.len() - k,
        {
            let found = self.find_card(&unmasked_cards.cards_g1[k]);
            r.push(found);
            k = k + 1;
        }
        r
    }
}

/// Concatenation of the compressed points, in order.
pub open spec fn concat_points(s: Seq<G1Point>) -> Seq<u8>
    decreases s.len(),
{
    if s.len() == 0 {
        seq![]
    } else {
        concat_points(s.drop_last()) + s.last()@
    }
}

/// The working deck: every point carries the masks of the players who
/// shuffled so far.
#[derive(Clone, Debug)]
pub struct MaskedCards {
    pub cards_g1: Vec<G1Point>,
}

impl MaskedCards {
    pub fn new(cards_g1: Vec<G1Point>) -> (r: Self)
        ensures
            r.cards_g1@ == cards_g1@,
    {
        MaskedCards { cards_g1 }
    }

    pub fn len(&self) -> (r: usize)
        ensures
            r == self.cards_g1@.len(),
    {
        self.cards_g1.len()
    }

    pub fn cards(&self) -> (r: Vec<G1Point>)
        ensures
            r@ == self.cards_g1@,
    {
        copy_points(&self.cards_g1)
    }

    /// Multiplies every point by `sk`. Refused, leaving the deck as it was,
    /// where a point or the key does not decode.
    pub fn mask(&mut self, sk: &SigningKey) -> (r: Result<(), PokerError>)
        ensures
            r is Ok <==> forall|i: int| 0 <= i < old(self).cards_g1@.len() ==> (#[trigger] g1_mul(old(self).cards_g1@[i]@, sk@)) is Some,
            r is Ok ==> final(self).cards_g1@.len() == old(self).cards_g1@.len()
                && forall|i: int| 0 <= i < old(self).cards_g1@.len() ==> #[trigger] g1_mul(old(self).cards_g1@[i]@, sk@) == Some(final(self).cards_g1@[i]@),
            r is Err ==> r == Err::<(), PokerError>(PokerError::InvalidEncoding) && final(self).cards_g1@ == old(self).cards_g1@,
    {
        match scale_all(&self.cards_g1, sk) {
            Some(v) => {
                self.cards_g1 = v;
                Ok(())
            },
            None => Err(PokerError::InvalidEncoding),
        }
    }

    /// Reorders the deck: position `i` receives the point at `order[i]`.
    /// The trace records, for each output position, where it came from.
    pub fn shuffle_with(&mut self, order: &Vec<usize>) -> (traces: Vec<ShuffleTrace>)
        requires
            is_permutation(order@, old(self).cards_g1@.len()),
        ensures
            final(self).cards_g1@.len() == old(self).cards_g1@.len(),
            traces@.len() == old(self).cards_g1@.len(),
            forall|i: int| 0 <= i < traces@.len() ==> (#[trigger] traces@[i]).after_index == i
                && traces@[i].claimed_before_index == order@[i]
                && final(self).cards_g1@[i] == old(self).cards_g1@[order@[i] as int],
    {
        let n = self.cards_g1.len();
        let mut out: Vec<G1Point> = Vec::new();
        let mut traces: Vec<ShuffleTrace> = Vec::new();
        let mut i: usize = 0;
        while i < n
            invariant
                n == self.cards_g1@.len(),
                self.cards_g1@ == old(self).cards_g1@,
                is_permutation(order@, n as nat),
                i <= n,
                out@.len() == i,
                traces@.len() == i,
                forall|j: int| 0 <= j < i ==> (#[trigger] traces@[j]).after_index == j
                    && traces@[j].claimed_before_index == order@[j]
                    && out@[j] == old(self).cards_g1@[order@[j] as int],
            decreases n - i,
        {
            let from = order[i];
            assert(order@[i as int] < n);
            out.push(self.cards_g1[from]);
            traces.push(ShuffleTrace { after_index: i, claimed_before_index: from });
            i = i + 1;
        }
        self.cards_g1 = out;
        traces
    }

    /// Reorders the deck at random (see [`MaskedCards::shuffle_with`]); the
    /// trace names the permutation that was used.
    pub fn shuffle(&mut self) -> (traces: Vec<ShuffleTrace>)
        ensures
            final(self).cards_g1@.len() == old(self).cards_g1@.len(),
            traces@.len() == old(self).cards_g1@.len(),
            forall|i: int, j: int| 0 <= i < j < traces@.len() ==> traces@[i].claimed_before_index != traces@[j].claimed_before_index,
            forall|i: int| 0 <= i < traces@.len() ==> (#[trigger] traces@[i]).after_index == i
                && traces@[i].claimed_before_index < traces@.len()
                && final(self).cards_g1@[i] == old(self).cards_g1@[traces@[i].claimed_before_index as int],
    {
        let order = random_permutation(self.cards_g1.len());
        let traces = self.shuffle_with(&order);
        assert forall|i: int, j: int| 0 <= i < j < traces@.len() implies traces@[i].claimed_before_index != traces@[j].claimed_before_index by {
            assert(traces@[i].claimed_before_index == order@[i]);
            assert(traces@[j].claimed_before_index == order@[j]);
        }
        assert forall|i: int| 0 <= i < traces@.len() implies (#[trigger] traces@[i]).claimed_before_index < traces@.len() by {
            assert(order@[i] < order@.len());
        }
        traces
    }

    /// Keccak-256 over the compressed points, in order.
    pub fn hash(&self) -> (r: [u8; 32])
        ensures
            r@ == keccak256_of(concat_points(self.cards_g1@)),
    {
        let mut data: Vec<u8> = Vec::new();
        let mut i: usize = 0;
        while i < self.cards_g1.len()
            invariant
                i <= self.cards_g1@.len(),
                data@ == concat_points(self.cards_g1@.take(i as int)),
            decreases self.cards_g1@.len() - i,
        {
            let bytes = self.cards_g1[i].bytes;
            let mut k: usize = 0;
            let ghost start = data@;
            while k < 48
                invariant
                    k <= 48,
                    bytes@.len() == 48,
                    data@ == start + bytes@.take(k as int),
                decreases 48 - k,
            {
                data.push(bytes[k]);
                k = k + 1;
                assert(data@ =~= start + bytes@.take(k as int));
            }
            assert(bytes@.take(48) =~= bytes@);
            assert(self.cards_g1@.take(i + 1).drop_last() =~= self.cards_g1@.take(i as int));
            i = i + 1;
        }
        assert(self.cards_g1@.take(self.cards_g1@.len() as int) =~= self.cards_g1@);
        keccak256(&data)
    }

    /// Takes the first `count` points off the deck.
    pub fn deal(&mut self, count: usize) -> (r: UnmaskedCards)
        requires
            count <= old(self).cards_g1@.len(),
        ensures
            r.cards_g1@ == old(self).cards_g1@.take(count as int),
            final(self).cards_g1@ == old(self).cards_g1@.skip(count as int),
    {
        let n = self.cards_g1.len();
        let mut dealt: Vec<G1Point> = Vec::new();
        let mut rest: Vec<G1Point> = Vec::new();
        let mut i: usize = 0;
        while i < n
            invariant
                n == self.cards_g1@.len(),
                count <= n,
                i <= n,
                i <= count ==> dealt@ == self.cards_g1@.take(i as int) && rest@.len() == 0,
                i > count ==> dealt@ == self.cards_g1@.take(count as int)
                    && rest@ == self.cards_g1@.subrange(count as int, i as int),
            decreases n - i,
        {
            if i < count {
                dealt.push(self.cards_g1[i]);
                assert(dealt@ =~= self.cards_g1@.take(i + 1));
            } else {
                rest.push(self.cards_g1[i]);
                assert(rest@ =~= self.cards_g1@.subrange(count as int, i + 1));
            }
            i = i + 1;
        }
        assert(rest@ =~= self.cards_g1@.skip(count as int));
        self.cards_g1 = rest;
        UnmaskedCards::new(dealt)
    }
}

/// `k · p` for every point, or `None` as soon as one fails to decode.
fn scale_all(points: &Vec<G1Point>, k: &SigningKey) -> (r: Option<Vec<G1Point>>)
    ensures
        r is Some <==> forall|i: int| 0 <= i < points@.len() ==> (#[trigger] g1_mul(points@[i]@, k@)) is Some,
        r matches Some(v) ==> v@.len() == points@.len()
            && forall|i: int| 0 <= i < points@.len() ==> #[trigger] g1_mul(points@[i]@, k@) == Some(v@[i]@),
{
    let mut out: Vec<G1Point> = Vec::new();
    let mut i: usize = 0;
    while i < points.len()
        invariant
            i <= points@.len(),
            out@.len() == i,
            forall|j: int| 0 <= j < i ==> #[trigger] g1_mul(points@[j]@, k@) == Some(out@[j]@),
        decreases points@.len() - i,
    {
        match crate::bls::mask(&points[i], k) {
            Some(p) => out.push(p),
            None => {
                return None;
            },
        }
        i = i + 1;
    }
    Some(out)
}

/// Dealt cards, one layer of mask lighter after each peel.
#[derive(Clone, Debug)]
pub struct UnmaskedCards {
    pub cards_g1: Vec<G1Point>,
}

impl UnmaskedCards {
    pub fn new(cards_g1: Vec<G1Point>) -> (r: Self)
        ensures
            r.cards_g1@ == cards_g1@,
    {
        UnmaskedCards { cards_g1 }
    }

    /// No cards.
    pub fn empty() -> (r: Self)
        ensures
            r.cards_g1@.len() == 0,
    {
        UnmaskedCards { cards_g1: Vec::new() }
    }

    pub fn cards(&self) -> (r: Vec<G1Point>)
        ensures
            r@ == self.cards_g1@,
    {
        copy_points(&self.cards_g1)
    }

    /// Peels the layer of `sk` off every point (multiplies by `sk⁻¹`).
    /// Refused, leaving the cards as they were, where the key has no inverse
    /// or a point does not decode.
    pub fn unmask(&mut self, sk: &SigningKey) -> (r: Result<(), PokerError>)
        ensures
            r is Ok <==> (scalar_inverse(sk@) matches Some(inv) && forall|i: int| 0 <= i < old(self).cards_g1@.len()
                ==> (#[trigger] g1_mul(old(self).cards_g1@[i]@, inv)) is Some),
            r is Ok ==> final(self).cards_g1@.len() == old(self).cards_g1@.len()
                && forall|i: int| 0 <= i < old(self).cards_g1@.len()
                ==> #[trigger] g1_mul(old(self).cards_g1@[i]@, scalar_inverse(sk@).unwrap()) == Some(final(self).cards_g1@[i]@),
            r is Err ==> r == Err::<(), PokerError>(PokerError::InvalidEncoding) && final(self).cards_g1@ == old(self).cards_g1@,
    {
        let inverse = match crate::bls::invert(sk) {
            Some(i) => i,
            None => {
                return Err(PokerError::InvalidEncoding);
            },
        };
        match scale_all(&self.cards_g1, &inverse) {
            Some(v) => {
                self.cards_g1 = v;
                Ok(())
            },
            None => Err(PokerError::InvalidEncoding),
        }
    }
}

} // verus!
