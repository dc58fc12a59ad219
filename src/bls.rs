//! BLS12-381 points and keys in their compressed wire form, the masking
//! operations on them, and the pairing checks that audit those operations.
//!
//! Curve arithmetic and pairings are done by the `bls12_381` crate; each call
//! stands behind a small trusted function below whose result is named by an
//! uninterpreted spec function of the bytes it takes.
use vstd::prelude::*;

use bls12_381::{multi_miller_loop, G1Affine, G2Affine, G2Prepared, Scalar};
use pairing::group::{Curve, Group};
use rand::seq::SliceRandom;

use crate::error::PokerError;

verus! {

pub const SIGNATURE_COMPRESSED_LEN: usize = 48;
pub const PUBLIC_KEY_COMPRESSED_LEN: usize = 96;
pub const SIGNING_KEY_LEN: usize = 32;

/// A point of G1 in its 48-byte compressed encoding.
#[derive(Clone, Copy, Debug)]
pub struct G1Point {
    pub bytes: [u8; 48],
}

/// A point of G2 in its 96-byte compressed encoding.
#[derive(Clone, Copy, Debug)]
pub struct G2Point {
    pub bytes: [u8; 96],
}

/// A scalar of the BLS12-381 group order, 32 bytes big-endian.
#[derive(Clone, Copy, Debug)]
pub struct SigningKey {
    pub bytes: [u8; 32],
}

/// A BLS signature is a point of G1.
pub type Signature = G1Point;

/// A public key is a point of G2.
pub type PublicKey = G2Point;

impl View for G1Point {
    type V = Seq<u8>;

    open spec fn view(&self) -> Seq<u8> {
        self.bytes@
    }
}

impl View for G2Point {
    type V = Seq<u8>;

    open spec fn view(&self) -> Seq<u8> {
        self.bytes@
    }
}

impl View for SigningKey {
    type V = Seq<u8>;

    open spec fn view(&self) -> Seq<u8> {
        self.bytes@
    }
}

fn bytes_equal(a: &[u8], b: &[u8]) -> (r: bool)
    ensures
        r == (a@ == b@),
{
    if a.len() != b.len() {
        return false;
    }
    let mut i: usize = 0;
    while i < a.len()
        invariant
            a@.len() == b@.len(),
            i <= a@.len(),
            forall|j: int| 0 <= j < i ==> a@[j] == b@[j],
        decreases a@.len() - i,
    {
        if a[i] != b[i] {
            return false;
        }
        i = i + 1;
    }
    assert(a@ =~= b@);
    true
}

impl PartialEq for G1Point {
    fn eq(&self, other: &G1Point) -> (r: bool) {
        bytes_equal(&self.bytes, &other.bytes)
    }
}

impl vstd::std_specs::cmp::PartialEqSpecImpl for G1Point {
    open spec fn obeys_eq_spec() -> bool {
        true
    }

    open spec fn eq_spec(&self, other: &G1Point) -> bool {
        self@ == other@
    }
}

impl PartialEq for G2Point {
    fn eq(&self, other: &G2Point) -> (r: bool) {
        bytes_equal(&self.bytes, &other.bytes)
    }
}

impl vstd::std_specs::cmp::PartialEqSpecImpl for G2Point {
    open spec fn obeys_eq_spec() -> bool {
        true
    }

    open spec fn eq_spec(&self, other: &G2Point) -> bool {
        self@ == other@
    }
}

/// The compressed form of `k · p`, or `None` where `point` is no compressed
/// G1 point or `scalar` no canonical scalar.
pub uninterp spec fn g1_mul(point: Seq<u8>, scalar: Seq<u8>) -> Option<Seq<u8>>;

/// The inverse of a scalar, or `None` where it is zero or not canonical.
pub uninterp spec fn scalar_inverse(scalar: Seq<u8>) -> Option<Seq<u8>>;

/// The compressed form of `k · G2_generator`, or `None` where `scalar` is not canonical.
pub uninterp spec fn public_key_of(scalar: Seq<u8>) -> Option<Seq<u8>>;

/// Whether every entry decodes and the product over all entries
/// `(base, scaled, key)` of `e(base, key) · e(scaled, -G2_generator)` is the
/// identity of the target group, computed with one final exponentiation.
pub uninterp spec fn pairing_batch_holds(claims: Seq<(Seq<u8>, Seq<u8>, Seq<u8>)>) -> bool;

/// Keccak-256 of a byte string.
pub uninterp spec fn keccak256_of(data: Seq<u8>) -> Seq<u8>;

/// Whether 48 bytes are the compressed encoding of a point of G1.
pub uninterp spec fn g1_decodes(bytes: Seq<u8>) -> bool;

/// Whether 96 bytes are the compressed encoding of a point of G2.
pub uninterp spec fn g2_decodes(bytes: Seq<u8>) -> bool;

/// A claim that `scaled = sk · base` for the `sk` behind `key = sk · G2_generator`.
#[derive(Clone, Copy, Debug)]
pub struct PairingClaim {
    pub base: G1Point,
    pub scaled: G1Point,
    pub key: G2Point,
}

impl View for PairingClaim {
    type V = (Seq<u8>, Seq<u8>, Seq<u8>);

    open spec fn view(&self) -> (Seq<u8>, Seq<u8>, Seq<u8>) {
        (self.base@, self.scaled@, self.key@)
    }
}

pub open spec fn claims_view(claims: Seq<PairingClaim>) -> Seq<(Seq<u8>, Seq<u8>, Seq<u8>)> {
    claims.map_values(|c: PairingClaim| c@)
}

/// Relies on `G1Affine::from_compressed`, `Scalar::from_bytes` (little-endian,
/// hence the reversal) and G1 scalar multiplication: `k · p`, compressed.
#[verifier::external_body]
fn g1_scale(p: &G1Point, k: &SigningKey) -> (r: Option<G1Point>)
    ensures
        r matches Some(q) ==> g1_mul(p@, k@) == Some(q@),
        r is None ==> g1_mul(p@, k@) is None,
{
    let mut le = k.bytes;
    le.reverse();
    let point: Option<G1Affine> = G1Affine::from_compressed(&p.bytes).into();
    let scalar: Option<Scalar> = Scalar::from_bytes(&le).into();
    Some(G1Point { bytes: (point? * scalar?).to_affine().to_compressed() })
}

/// Relies on `Scalar::invert`: the multiplicative inverse, `None` for zero.
#[verifier::external_body]
fn invert_scalar(k: &SigningKey) -> (r: Option<SigningKey>)
    ensures
        r matches Some(i) ==> scalar_inverse(k@) == Some(i@),
        r is None ==> scalar_inverse(k@) is None,
{
    let mut le = k.bytes;
    le.reverse();
    let scalar: Option<Scalar> = Scalar::from_bytes(&le).into();
    let inverse: Option<Scalar> = scalar?.invert().into();
    let mut bytes = inverse?.to_bytes();
    bytes.reverse();
    Some(SigningKey { bytes })
}

/// Relies on `G2Projective::generator` and G2 scalar multiplication: `k · G2_generator`.
#[verifier::external_body]
fn g2_generator_scale(k: &SigningKey) -> (r: Option<G2Point>)
    ensures
        r matches Some(q) ==> public_key_of(k@) == Some(q@),
        r is None ==> public_key_of(k@) is None,
{
    let mut le = k.bytes;
    le.reverse();
    let scalar: Option<Scalar> = Scalar::from_bytes(&le).into();
    let pk = (bls12_381::G2Projective::generator() * scalar?).to_affine();
    Some(G2Point { bytes: pk.to_compressed() })
}

/// Relies on `bls12_381::multi_miller_loop` over all claims, one
/// `final_exponentiation` and `is_identity`.
#[verifier::external_body]
fn pairing_check(claims: &Vec<PairingClaim>) -> (r: bool)
    ensures
        r == pairing_batch_holds(claims_view(claims@)),
{
    let neg = G2Prepared::from(-G2Affine::generator());
    let mut terms = Vec::new();
    for c in claims {
        let (Some(b), Some(s), Some(k)) = (
            G1Affine::from_compressed(&c.base.bytes).into_option(),
            G1Affine::from_compressed(&c.scaled.bytes).into_option(),
            G2Affine::from_compressed(&c.key.bytes).into_option(),
        ) else {
            return false;
        };
        terms.push((b, s, G2Prepared::from(k)));
    }
    let refs: Vec<_> = terms.iter().flat_map(|(b, s, k)| [(b, k), (s, &neg)]).collect();
    multi_miller_loop(&refs).final_exponentiation().is_identity().into()
}

/// Relies on `alloy_primitives::keccak256`.
#[verifier::external_body]
pub(crate) fn keccak256(data: &Vec<u8>) -> (r: [u8; 32])
    ensures
        r@ == keccak256_of(data@),
{
    alloy_primitives::keccak256(data).0
}

/// Relies on `G1Affine::from_compressed`: whether the bytes decode.
#[verifier::external_body]
fn g1_valid(bytes: &[u8; 48]) -> (r: bool)
    ensures
        r == g1_decodes(bytes@),
{
    G1Affine::from_compressed(bytes).is_some().into()
}

/// Relies on `G2Affine::from_compressed`: whether the bytes decode.
#[verifier::external_body]
fn g2_valid(bytes: &[u8; 96]) -> (r: bool)
    ensures
        r == g2_decodes(bytes@),
{
    G2Affine::from_compressed(bytes).is_some().into()
}

/// `s` lists each of `0..n` exactly once.
pub open spec fn is_permutation(s: Seq<usize>, n: nat) -> bool {
    &&& s.len() == n
    &&& forall|i: int| 0 <= i < n ==> #[trigger] s[i] < n
    &&& forall|i: int, j: int| 0 <= i < j < n ==> s[i] != s[j]
}

/// Relies on `rand::seq::SliceRandom::shuffle` with the thread-local generator:
/// some ordering of `0..n`; which one is left to chance.
#[verifier::external_body]
pub(crate) fn random_permutation(n: usize) -> (r: Vec<usize>)
    ensures
        is_permutation(r@, n as nat),
{
    let mut order: Vec<usize> = (0..n).collect();
    order.shuffle(&mut rand::thread_rng());
    order
}

/// The inverse of a scalar, `None` for zero or bytes that are no canonical scalar.
pub fn invert(k: &SigningKey) -> (r: Option<SigningKey>)
    ensures
        r matches Some(i) ==> scalar_inverse(k@) == Some(i@),
        r is None ==> scalar_inverse(k@) is None,
{
    invert_scalar(k)
}

/// `k · p`: adds the layer of mask `k` to a card.
pub fn mask(g1: &G1Point, k: &SigningKey) -> (r: Option<G1Point>)
    ensures
        r matches Some(q) ==> g1_mul(g1@, k@) == Some(q@),
        r is None ==> g1_mul(g1@, k@) is None,
{
    g1_scale(g1, k)
}

/// `k⁻¹ · p`: peels the layer of mask `k` off a card.
pub fn unmask(g1: &G1Point, k: &SigningKey) -> (r: Option<G1Point>)
    ensures
        r matches Some(q) ==> (scalar_inverse(k@) matches Some(i) && g1_mul(g1@, i) == Some(q@)),
        r is None ==> (scalar_inverse(k@) matches Some(i) ==> g1_mul(g1@, i) is None),
{
    match invert_scalar(k) {
        Some(inverse) => g1_scale(g1, &inverse),
        None => None,
    }
}

/// The public key `sk · G2_generator` of a signing key.
pub fn make_public_key_from_signing_key(sk: &SigningKey) -> (r: Option<PublicKey>)
    ensures
        r matches Some(q) ==> public_key_of(sk@) == Some(q@),
        r is None ==> public_key_of(sk@) is None,
{
    g2_generator_scale(sk)
}

/// Reads a public key from its compressed form; refused where the length is
/// not 96 or the bytes are no point of G2.
pub fn make_public_key_from_compressed_slice(data: &[u8]) -> (r: Result<PublicKey, PokerError>)
    ensures
        data@.len() != PUBLIC_KEY_COMPRESSED_LEN ==> r == Err::<PublicKey, PokerError>(PokerError::LengthMismatch),
        data@.len() == PUBLIC_KEY_COMPRESSED_LEN && !g2_decodes(data@) ==> r == Err::<PublicKey, PokerError>(PokerError::InvalidEncoding),
        data@.len() == PUBLIC_KEY_COMPRESSED_LEN && g2_decodes(data@) ==> (r matches Ok(pk) && pk@ == data@),
{
    if data.len() != PUBLIC_KEY_COMPRESSED_LEN {
        return Err(PokerError::LengthMismatch);
    }
    let mut bytes = [0u8; 96];
    let mut i: usize = 0;
    while i < 96
        invariant
            data@.len() == 96,
            i <= 96,
            forall|j: int| 0 <= j < i ==> bytes@[j] == data@[j],
        decreases 96 - i,
    {
        bytes[i] = data[i];
        i = i + 1;
    }
    assert(bytes@ =~= data@);
    if !g2_valid(&bytes) {
        return Err(PokerError::InvalidEncoding);
    }
    Ok(G2Point { bytes })
}

/// Reads a signature from its compressed form; refused where the length is
/// not 48 or the bytes are no point of G1.
pub fn make_signature_from_compressed_slice(data: &[u8]) -> (r: Result<Signature, PokerError>)
    ensures
        data@.len() != SIGNATURE_COMPRESSED_LEN ==> r == Err::<Signature, PokerError>(PokerError::LengthMismatch),
        data@.len() == SIGNATURE_COMPRESSED_LEN && !g1_decodes(data@) ==> r == Err::<Signature, PokerError>(PokerError::InvalidEncoding),
        data@.len() == SIGNATURE_COMPRESSED_LEN && g1_decodes(data@) ==> (r matches Ok(sig) && sig@ == data@),
{
    if data.len() != SIGNATURE_COMPRESSED_LEN {
        return Err(PokerError::LengthMismatch);
    }
    let mut bytes = [0u8; 48];
    let mut i: usize = 0;
    while i < 48
        invariant
            data@.len() == 48,
            i <= 48,
            forall|j: int| 0 <= j < i ==> bytes@[j] == data@[j],
        decreases 48 - i,
    {
        bytes[i] = data[i];
        i = i + 1;
    }
    assert(bytes@ =~= data@);
    if !g1_valid(&bytes) {
        return Err(PokerError::InvalidEncoding);
    }
    Ok(G1Point { bytes })
}

/// Checks a BLS signature on a message already hashed to G1:
/// `e(sig, G2_generator) = e(H(m), pk)`.
pub fn verify(hashed_message: &G1Point, pk: &PublicKey, sig: &Signature) -> (r: bool)
    ensures
        r == pairing_batch_holds(seq![(hashed_message@, sig@, pk@)]),
{
    let claims = vec![PairingClaim { base: *hashed_message, scaled: *sig, key: *pk }];
    assert(claims_view(claims@) =~= seq![(hashed_message@, sig@, pk@)]);
    pairing_check(&claims)
}

/// The atomic peel audit: whether `unmasked = sk⁻¹ · masked` for the `sk`
/// behind `pk`, i.e. `e(unmasked, pk) · e(masked, -G2_generator) = 1`.
pub fn verify_unmasking(masked: &G1Point, unmasked: &G1Point, pk: &PublicKey) -> (r: bool)
    ensures
        r == pairing_batch_holds(seq![(unmasked@, masked@, pk@)]),
{
    let claims = vec![PairingClaim { base: *unmasked, scaled: *masked, key: *pk }];
    assert(claims_view(claims@) =~= seq![(unmasked@, masked@, pk@)]);
    pairing_check(&claims)
}

/// Checks a batch of claims with one final exponentiation.
pub fn verify_claims(claims: &Vec<PairingClaim>) -> (r: bool)
    ensures
        r == pairing_batch_holds(claims_view(claims@)),
{
    pairing_check(claims)
}

} // verus!
