//! Lagrange interpolation at zero of threshold signature shares (in G1) and
//! of public key shares (in G2).
use vstd::prelude::*;

use bls12_381::{G1Affine, G2Affine, Scalar};
use pairing::group::Curve;

use crate::bls::{g1_mul, scalar_inverse, G1Point, G2Point, PublicKey, Signature, SigningKey};
use crate::error::PokerError;

verus! {

/// The compressed form of `p + q` in G1, or `None` where either does not decode.
pub uninterp spec fn g1_add(p: Seq<u8>, q: Seq<u8>) -> Option<Seq<u8>>;

/// The compressed form of `p + q` in G2, or `None` where either does not decode.
pub uninterp spec fn g2_add(p: Seq<u8>, q: Seq<u8>) -> Option<Seq<u8>>;

/// The compressed form of `k · p` in G2, or `None` where either does not decode.
pub uninterp spec fn g2_mul(point: Seq<u8>, scalar: Seq<u8>) -> Option<Seq<u8>>;

/// `a - b` in the scalar field, or `None` where either is not canonical.
pub uninterp spec fn scalar_sub(a: Seq<u8>, b: Seq<u8>) -> Option<Seq<u8>>;

/// `a · b` in the scalar field, or `None` where either is not canonical.
pub uninterp spec fn scalar_mul(a: Seq<u8>, b: Seq<u8>) -> Option<Seq<u8>>;

/// Relies on `G1Affine::from_compressed` and G1 addition.
#[verifier::external_body]
fn add_g1(p: &G1Point, q: &G1Point) -> (r: Option<G1Point>)
    ensures
        r matches Some(s) ==> g1_add(p@, q@) == Some(s@),
        r is None ==> g1_add(p@, q@) is None,
{
    let a: Option<G1Affine> = G1Affine::from_compressed(&p.bytes).into();
    let b: Option<G1Affine> = G1Affine::from_compressed(&q.bytes).into();
    Some(G1Point { bytes: (bls12_381::G1Projective::from(a?) + b?).to_affine().to_compressed() })
}

/// Relies on `G2Affine::from_compressed` and G2 addition.
#[verifier::external_body]
fn add_g2(p: &G2Point, q: &G2Point) -> (r: Option<G2Point>)
    ensures
        r matches Some(s) ==> g2_add(p@, q@) == Some(s@),
        r is None ==> g2_add(p@, q@) is None,
{
    let a: Option<G2Affine> = G2Affine::from_compressed(&p.bytes).into();
    let b: Option<G2Affine> = G2Affine::from_compressed(&q.bytes).into();
    Some(G2Point { bytes: (bls12_381::G2Projective::from(a?) + b?).to_affine().to_compressed() })
}

/// Relies on `G2Affine::from_compressed`, `Scalar::from_bytes` and G2 scalar multiplication.
#[verifier::external_body]
fn scale_g2(p: &G2Point, k: &SigningKey) -> (r: Option<G2Point>)
    ensures
        r matches Some(s) ==> g2_mul(p@, k@) == Some(s@),
        r is None ==> g2_mul(p@, k@) is None,
{
    let mut le = k.bytes;
    le.reverse();
    let point: Option<G2Affine> = G2Affine::from_compressed(&p.bytes).into();
    let scalar: Option<Scalar> = Scalar::from_bytes(&le).into();
    Some(G2Point { bytes: (point? * scalar?).to_affine().to_compressed() })
}

/// Relies on `Scalar::from_bytes` and scalar subtraction.
#[verifier::external_body]
fn sub_scalar(a: &SigningKey, b: &SigningKey) -> (r: Option<SigningKey>)
    ensures
        r matches Some(s) ==> scalar_sub(a@, b@) == Some(s@),
        r is None ==> scalar_sub(a@, b@) is None,
{
    let (mut x, mut y) = (a.bytes, b.bytes);
    x.reverse();
    y.reverse();
    let x: Option<Scalar> = Scalar::from_bytes(&x).into();
    let y: Option<Scalar> = Scalar::from_bytes(&y).into();
    let mut bytes = (x? - y?).to_bytes();
    bytes.reverse();
    Some(SigningKey { bytes })
}

/// Relies on `Scalar::from_bytes` and scalar multiplication.
#[verifier::external_body]
fn mul_scalar(a: &SigningKey, b: &SigningKey) -> (r: Option<SigningKey>)
    ensures
        r matches Some(s) ==> scalar_mul(a@, b@) == Some(s@),
        r is None ==> scalar_mul(a@, b@) is None,
{
    let (mut x, mut y) = (a.bytes, b.bytes);
    x.reverse();
    y.reverse();
    let x: Option<Scalar> = Scalar::from_bytes(&x).into();
    let y: Option<Scalar> = Scalar::from_bytes(&y).into();
    let mut bytes = (x? * y?).to_bytes();
    bytes.reverse();
    Some(SigningKey { bytes })
}

/// The 32 big-endian bytes of a 64-bit integer as a scalar.
pub open spec fn u64_scalar(x: u64) -> Seq<u8> {
    Seq::new(32, |i: int| if i < 24 { 0u8 } else { ((x as nat / pow256((31 - i) as nat)) % 256) as u8 })
}

pub open spec fn pow256(k: nat) -> nat
    decreases k,
{
    if k == 0 { 1 } else { 256 * pow256((k - 1) as nat) }
}

/// The scalar one.
pub open spec fn one_scalar() -> Seq<u8> {
    u64_scalar(1)
}

/// The compressed point at infinity: the compression and infinity flags, then zeros.
pub open spec fn identity_bytes(len: nat) -> Seq<u8> {
    Seq::new(len, |i: int| if i == 0 { 0xc0u8 } else { 0u8 })
}

/// The scalar with the value of a 64-bit integer.
pub fn scalar_from_u64(x: u64) -> (r: SigningKey)
    ensures
        r@ == u64_scalar(x),
{
    let mut bytes = [0u8; 32];
    let mut v: u64 = x;
    let mut k: usize = 0;
    assert(pow256(0) == 1);
    while k < 8
        invariant
            k <= 8,
            v as nat == x as nat / pow256(k as nat),
            forall|i: int| 0 <= i < 24 ==> bytes@[i] == 0u8,
            forall|i: int| 32 - k <= i < 32 ==> bytes@[i] == u64_scalar(x)[i],
            forall|i: int| 24 <= i < 32 - k ==> bytes@[i] == 0u8,
        decreases 8 - k,
    {
        bytes[31 - k] = (v % 256) as u8;
        proof {
            lemma_pow256_pos(k as nat);
            vstd::arithmetic::div_mod::lemma_div_denominator(x as int, pow256(k as nat) as int, 256);
            assert(pow256((k + 1) as nat) == 256 * pow256(k as nat));
            assert(pow256(k as nat) * 256 == pow256((k + 1) as nat)) by (nonlinear_arith)
                requires pow256((k + 1) as nat) == 256 * pow256(k as nat);
        }
        v = v / 256;
        k = k + 1;
    }
    assert(bytes@ =~= u64_scalar(x));
    SigningKey { bytes }
}

proof fn lemma_pow256_pos(k: nat)
    ensures
        pow256(k) > 0,
    decreases k,
{
    if k > 0 {
        lemma_pow256_pos((k - 1) as nat);
    }
}

/// Whether two shares carry the same label.
pub open spec fn has_duplicate_label(labels: Seq<u64>) -> bool {
    exists|i: int, j: int| 0 <= i < j < labels.len() && labels[i] == labels[j]
}

/// The Lagrange coefficient at zero of share `i` over the factors of the
/// shares before `upto`: the product of `x_j · (x_j − x_i)⁻¹` for `j ≠ i`.
pub open spec fn lagrange_coeff(labels: Seq<u64>, i: int, upto: int) -> Option<Seq<u8>>
    decreases upto,
{
    if upto <= 0 {
        Some(one_scalar())
    } else {
        match lagrange_coeff(labels, i, upto - 1) {
            None => None,
            Some(l) => if upto - 1 == i {
                Some(l)
            } else {
                let xj = u64_scalar(labels[upto - 1]);
                match scalar_sub(xj, u64_scalar(labels[i])) {
                    None => None,
                    Some(diff) => match scalar_inverse(diff) {
                        None => None,
                        Some(d) => match scalar_mul(xj, d) {
                            None => None,
                            Some(t) => scalar_mul(l, t),
                        },
                    },
                }
            },
        }
    }
}

/// `Σ l_i · s_i` over the first `upto` shares in G1, from the identity.
pub open spec fn combine_upto(labels: Seq<u64>, sigs: Seq<Seq<u8>>, upto: int) -> Option<Seq<u8>>
    decreases upto,
{
    if upto <= 0 {
        Some(identity_bytes(48))
    } else {
        match combine_upto(labels, sigs, upto - 1) {
            None => None,
            Some(acc) => match lagrange_coeff(labels, upto - 1, labels.len() as int) {
                None => None,
                Some(l) => match g1_mul(sigs[upto - 1], l) {
                    None => None,
                    Some(term) => g1_add(acc, term),
                },
            },
        }
    }
}

/// `Σ l_i · pk_i` over the first `upto` shares in G2, from the identity.
pub open spec fn recover_upto(labels: Seq<u64>, pks: Seq<Seq<u8>>, upto: int) -> Option<Seq<u8>>
    decreases upto,
{
    if upto <= 0 {
        Some(identity_bytes(96))
    } else {
        match recover_upto(labels, pks, upto - 1) {
            None => None,
            Some(acc) => match lagrange_coeff(labels, upto - 1, labels.len() as int) {
                None => None,
                Some(l) => match g2_mul(pks[upto - 1], l) {
                    None => None,
                    Some(term) => g2_add(acc, term),
                },
            },
        }
    }
}

fn find_duplicate_label(labels: &Vec<u64>) -> (r: bool)
    ensures
        r == has_duplicate_label(labels@),
{
    let n = labels.len();
    let mut i: usize = 0;
    while i < n
        invariant
            n == labels@.len(),
            i <= n,
            forall|a: int, b: int| 0 <= a < b < n && a < i ==> labels@[a] != labels@[b],
        decreases n - i,
    {
        let mut j: usize = i + 1;
        while j < n
            invariant
                n == labels@.len(),
                i < n,
                i + 1 <= j <= n,
                forall|a: int, b: int| 0 <= a < b < n && a < i ==> labels@[a] != labels@[b],
                forall|b: int| i < b < j ==> labels@[i as int] != labels@[b],
            decreases n - j,
        {
            if labels[i] == labels[j] {
                return true;
            }
            j = j + 1;
        }
        i = i + 1;
    }
    false
}

/// The coefficient of share `i` (see [`lagrange_coeff`]).
fn coefficient(labels: &Vec<u64>, i: usize) -> (r: Option<SigningKey>)
    requires
        i < labels@.len(),
    ensures
        r matches Some(l) ==> lagrange_coeff(labels@, i as int, labels@.len() as int) == Some(l@),
        r is None ==> lagrange_coeff(labels@, i as int, labels@.len() as int) is None,
{
    let x_i = scalar_from_u64(labels[i]);
    let mut l = scalar_from_u64(1);
    let mut j: usize = 0;
    while j < labels.len()
        invariant
            i < labels@.len(),
            j <= labels@.len(),
            x_i@ == u64_scalar(labels@[i as int]),
            lagrange_coeff(labels@, i as int, j as int) == Some(l@),
        decreases labels@.len() - j,
    {
        if i != j {
            let x_j = scalar_from_u64(labels[j]);
            let diff = match sub_scalar(&x_j, &x_i) {
                Some(d) => d,
                None => {
                    proof { lemma_coeff_none_sticks(labels@, i as int, j + 1); }
                    return None;
                },
            };
            let d = match invert_scalar_checked(&diff) {
                Some(d) => d,
                None => {
                    proof { lemma_coeff_none_sticks(labels@, i as int, j + 1); }
                    return None;
                },
            };
            let t = match mul_scalar(&x_j, &d) {
                Some(t) => t,
                None => {
                    proof { lemma_coeff_none_sticks(labels@, i as int, j + 1); }
                    return None;
                },
            };
            l = match mul_scalar(&l, &t) {
                Some(v) => v,
                None => {
                    proof { lemma_coeff_none_sticks(labels@, i as int, j + 1); }
                    return None;
                },
            };
        }
        j = j + 1;
    }
    Some(l)
}

fn invert_scalar_checked(k: &SigningKey) -> (r: Option<SigningKey>)
    ensures
        r matches Some(i) ==> scalar_inverse(k@) == Some(i@),
        r is None ==> scalar_inverse(k@) is None,
{
    crate::bls::invert(k)
}

proof fn lemma_coeff_none_sticks(labels: Seq<u64>, i: int, k: int)
    requires
        0 <= k <= labels.len(),
        lagrange_coeff(labels, i, k) is None,
    ensures
        lagrange_coeff(labels, i, labels.len() as int) is None,
    decreases labels.len() - k,
{
    if k < labels.len() {
        lemma_coeff_none_sticks(labels, i, k + 1);
    }
}

proof fn lemma_combine_none_sticks(labels: Seq<u64>, sigs: Seq<Seq<u8>>, k: int)
    requires
        0 <= k <= labels.len(),
        combine_upto(labels, sigs, k) is None,
    ensures
        combine_upto(labels, sigs, labels.len() as int) is None,
    decreases labels.len() - k,
{
    if k < labels.len() {
        lemma_combine_none_sticks(labels, sigs, k + 1);
    }
}

proof fn lemma_recover_none_sticks(labels: Seq<u64>, pks: Seq<Seq<u8>>, k: int)
    requires
        0 <= k <= labels.len(),
        recover_upto(labels, pks, k) is None,
    ensures
        recover_upto(labels, pks, labels.len() as int) is None,
    decreases labels.len() - k,
{
    if k < labels.len() {
        lemma_recover_none_sticks(labels, pks, k + 1);
    }
}

pub open spec fn share_labels<T>(shares: Seq<(u64, T)>) -> Seq<u64> {
    shares.map_values(|s: (u64, T)| s.0)
}

pub open spec fn share_sigs(shares: Seq<(u64, Signature)>) -> Seq<Seq<u8>> {
    shares.map_values(|s: (u64, Signature)| s.1@)
}

pub open spec fn share_keys(shares: Seq<(u64, PublicKey)>) -> Seq<Seq<u8>> {
    shares.map_values(|s: (u64, PublicKey)| s.1@)
}

fn labels_of<T>(shares: &Vec<(u64, T)>) -> (r: Vec<u64>)
    ensures
        r@ == share_labels(shares@),
{
    let mut r: Vec<u64> = Vec::new();
    let mut i: usize = 0;
    while i < shares.len()
        invariant
            i <= shares@.len(),
            r@ == share_labels(shares@).take(i as int),
        decreases shares@.len() - i,
    {
        r.push(shares[i].0);
        i = i + 1;
        assert(r@ =~= share_labels(shares@).take(i as int));
    }
    assert(share_labels(shares@).take(i as int) =~= share_labels(shares@));
    r
}

/// Combines signature shares `(label, share)` into the threshold signature
/// by Lagrange interpolation at zero. Refused with `InvalidLabelSet` where
/// two labels coincide, and with `InvalidEncoding` where a share does not
/// decode.
pub fn combine(shares: &Vec<(u64, Signature)>) -> (r: Result<Signature, PokerError>)
    ensures
        has_duplicate_label(share_labels(shares@)) ==> r == Err::<Signature, PokerError>(PokerError::InvalidLabelSet),
        !has_duplicate_label(share_labels(shares@)) ==> match combine_upto(share_labels(shares@), share_sigs(shares@), shares@.len() as int) {
            Some(v) => r matches Ok(sig) && sig@ == v,
            None => r == Err::<Signature, PokerError>(PokerError::InvalidEncoding),
        },
{
    let labels = labels_of(shares);
    if find_duplicate_label(&labels) {
        return Err(PokerError::InvalidLabelSet);
    }
    let ghost sigs = share_sigs(shares@);
    let mut combined = G1Point { bytes: [0u8; 48] };
    combined.bytes[0] = 0xc0;
    assert(combined@ =~= identity_bytes(48));
    let mut i: usize = 0;
    while i < shares.len()
        invariant
            i <= shares@.len(),
            labels@ == share_labels(shares@),
            !has_duplicate_label(labels@),
            sigs == share_sigs(shares@),
            combine_upto(labels@, sigs, i as int) == Some(combined@),
        decreases shares@.len() - i,
    {
        let l = match coefficient(&labels, i) {
            Some(l) => l,
            None => {
                proof { lemma_combine_none_sticks(labels@, sigs, i + 1); }
                return Err(PokerError::InvalidEncoding);
            },
        };
        assert(sigs[i as int] == shares@[i as int].1@);
        let term = match crate::bls::mask(&shares[i].1, &l) {
            Some(t) => t,
            None => {
                proof { lemma_combine_none_sticks(labels@, sigs, i + 1); }
                return Err(PokerError::InvalidEncoding);
            },
        };
        combined = match add_g1(&combined, &term) {
            Some(c) => c,
            None => {
                proof { lemma_combine_none_sticks(labels@, sigs, i + 1); }
                return Err(PokerError::InvalidEncoding);
            },
        };
        i = i + 1;
    }
    Ok(combined)
}

/// Recovers the threshold public key from key shares `(label, share)` by
/// Lagrange interpolation at zero; refused as [`combine`] is.
pub fn recover(shares: &Vec<(u64, PublicKey)>) -> (r: Result<PublicKey, PokerError>)
    ensures
        has_duplicate_label(share_labels(shares@)) ==> r == Err::<PublicKey, PokerError>(PokerError::InvalidLabelSet),
        !has_duplicate_label(share_labels(shares@)) ==> match recover_upto(share_labels(shares@), share_keys(shares@), shares@.len() as int) {
            Some(v) => r matches Ok(pk) && pk@ == v,
            None => r == Err::<PublicKey, PokerError>(PokerError::InvalidEncoding),
        },
{
    let labels = labels_of(shares);
    if find_duplicate_label(&labels) {
        return Err(PokerError::InvalidLabelSet);
    }
    let ghost pks = share_keys(shares@);
    let mut acc = G2Point { bytes: [0u8; 96] };
    acc.bytes[0] = 0xc0;
    assert(acc@ =~= identity_bytes(96));
    let mut i: usize = 0;
    while i < shares.len()
        invariant
            i <= shares@.len(),
            labels@ == share_labels(shares@),
            !has_duplicate_label(labels@),
            pks == share_keys(shares@),
            recover_upto(labels@, pks, i as int) == Some(acc@),
        decreases shares@.len() - i,
    {
        let l = match coefficient(&labels, i) {
            Some(l) => l,
            None => {
                proof { lemma_recover_none_sticks(labels@, pks, i + 1); }
                return Err(PokerError::InvalidEncoding);
            },
        };
        assert(pks[i as int] == shares@[i as int].1@);
        let term = match scale_g2(&shares[i].1, &l) {
            Some(t) => t,
            None => {
                proof { lemma_recover_none_sticks(labels@, pks, i + 1); }
                return Err(PokerError::InvalidEncoding);
            },
        };
        acc = match add_g2(&acc, &term) {
            Some(c) => c,
            None => {
                proof { lemma_recover_none_sticks(labels@, pks, i + 1); }
                return Err(PokerError::InvalidEncoding);
            },
        };
        i = i + 1;
    }
    Ok(acc)
}

} // verus!
