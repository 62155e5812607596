//! Points and scalars of P-256, held as their SEC1 byte encodings; the group
//! operations are those of the `p256` crate.
use vstd::prelude::*;
use p256::elliptic_curve::generic_array::GenericArray;
use p256::elliptic_curve::group::GroupEncoding;
use p256::elliptic_curve::sec1::ToEncodedPoint;
use p256::elliptic_curve::{Field, PrimeField};
use p256::{ProjectivePoint, Scalar};
use crate::bignat::BigNat;
use crate::commitment::P256Point;

verus! {

/// Value of big-endian bytes.
pub open spec fn be_val(b: Seq<u8>) -> nat
    decreases b.len(),
{
    if b.len() == 0 {
        0
    } else {
        (be_val(b.drop_last()) * 256 + b.last()) as nat
    }
}

/// The order of the group of P-256.
pub open spec fn p256_order() -> nat {
    0xffffffff00000000ffffffffffffffffbce6faada7179e84f3b9cac2fc632551nat
}

/// The encoding of the identity: 33 zero bytes.
pub open spec fn identity_bytes() -> Seq<u8> {
    Seq::new(33, |i: int| 0u8)
}

/// The compressed encoding of the generator: `0x03` (its y coordinate is
/// odd), then its x coordinate.
pub open spec fn generator_bytes() -> Seq<u8> {
    seq![
        0x03u8, 0x6b, 0x17, 0xd1, 0xf2, 0xe1, 0x2c, 0x42, 0x47, 0xf8, 0xbc, 0xe6, 0xe5, 0x63, 0xa4,
        0x40, 0xf2, 0x77, 0x03, 0x7d, 0x81, 0x2d, 0xeb, 0x33, 0xa0, 0xf4, 0xa1, 0x39, 0x45, 0xd8,
        0x98, 0xc2, 0x96,
    ]
}

/// Whether `b` decodes to a point of P-256 with `GroupEncoding::from_bytes`.
pub uninterp spec fn p256_encodes_point(b: Seq<u8>) -> bool;

/// The encoding of the point encoded by `p` times the scalar `s`.
pub uninterp spec fn p256_scalar_mul(p: Seq<u8>, s: Seq<u8>) -> Seq<u8>;

/// The encoding of the sum of the points encoded by `a` and `b`.
pub uninterp spec fn p256_point_add(a: Seq<u8>, b: Seq<u8>) -> Seq<u8>;

/// The uncompressed SEC1 encoding of the point encoded by `p`.
pub uninterp spec fn p256_uncompressed(p: Seq<u8>) -> Seq<u8>;

/// 33 bytes that encode a point.
pub open spec fn point_ok(b: Seq<u8>) -> bool {
    b.len() == 33 && p256_encodes_point(b)
}

/// 32 big-endian bytes of a value below the group order.
pub open spec fn scalar_ok(b: Seq<u8>) -> bool {
    b.len() == 32 && be_val(b) < p256_order()
}

/// `GroupEncoding::from_bytes` of `ProjectivePoint` on 33 bytes: the
/// contract claims that the result is whether they decode to a point.
#[verifier::external_body]
#[allow(deprecated)]
fn decodes_to_point(b: &Vec<u8>) -> (r: bool)
    requires
        b@.len() == 33,
    ensures
        r == p256_encodes_point(b@),
{
    bool::from(ProjectivePoint::from_bytes(GenericArray::from_slice(b)).is_some())
}

/// `ProjectivePoint::IDENTITY` written with `GroupEncoding::to_bytes`: the
/// one-byte SEC1 identity 0 padded with zeros to 33 bytes, which decodes
/// back to the identity.
#[verifier::external_body]
fn identity_encoding() -> (r: Vec<u8>)
    ensures
        r@ == identity_bytes(),
        p256_encodes_point(r@),
{
    ProjectivePoint::IDENTITY.to_bytes().to_vec()
}

/// `ProjectivePoint::GENERATOR` written with `GroupEncoding::to_bytes`: the
/// compressed encoding of the generator, which decodes back to it.
#[verifier::external_body]
fn generator_encoding() -> (r: Vec<u8>)
    ensures
        r@ == generator_bytes(),
        p256_encodes_point(r@),
{
    ProjectivePoint::GENERATOR.to_bytes().to_vec()
}

/// `ProjectivePoint * Scalar` on decoded operands, written with `to_bytes`:
/// the contract claims the named result, 33 bytes that decode to a point.
#[verifier::external_body]
#[allow(deprecated)]
fn mul_encoded(p: &Vec<u8>, s: &Vec<u8>) -> (r: Vec<u8>)
    requires
        point_ok(p@),
        scalar_ok(s@),
    ensures
        r@ == p256_scalar_mul(p@, s@),
        point_ok(r@),
{
    let point = ProjectivePoint::from_bytes(GenericArray::from_slice(p)).unwrap();
    let scalar = Scalar::from_repr(*GenericArray::from_slice(s)).unwrap();
    (point * scalar).to_bytes().to_vec()
}

/// `ProjectivePoint + ProjectivePoint` on decoded operands, written with
/// `to_bytes`: the contract claims the named result, 33 bytes that decode to
/// a point.
#[verifier::external_body]
#[allow(deprecated)]
fn add_encoded(a: &Vec<u8>, b: &Vec<u8>) -> (r: Vec<u8>)
    requires
        point_ok(a@),
        point_ok(b@),
    ensures
        r@ == p256_point_add(a@, b@),
        point_ok(r@),
{
    let x = ProjectivePoint::from_bytes(GenericArray::from_slice(a)).unwrap();
    let y = ProjectivePoint::from_bytes(GenericArray::from_slice(b)).unwrap();
    (x + y).to_bytes().to_vec()
}

/// `ToEncodedPoint::to_encoded_point(false)` on a decoded point other than
/// the identity: the contract claims the named result, 65 bytes (the tag,
/// then x and y, big-endian).
#[verifier::external_body]
#[allow(deprecated)]
fn uncompressed_encoding(p: &Vec<u8>) -> (r: Vec<u8>)
    requires
        point_ok(p@),
        p@ != identity_bytes(),
    ensures
        r@ == p256_uncompressed(p@),
        r@.len() == 65,
{
    let point = ProjectivePoint::from_bytes(GenericArray::from_slice(p)).unwrap();
    point.to_affine().to_encoded_point(false).as_bytes().to_vec()
}

/// `Scalar::from_repr` on 32 bytes: a scalar exactly when their big-endian
/// value is below the group order.
#[verifier::external_body]
#[allow(deprecated)]
fn is_canonical_scalar(b: &Vec<u8>) -> (r: bool)
    requires
        b@.len() == 32,
    ensures
        r == (be_val(b@) < p256_order()),
{
    bool::from(Scalar::from_repr(*GenericArray::from_slice(b)).is_some())
}

/// `Scalar::random(thread_rng())` written with `to_repr`: 32 big-endian bytes
/// of a value below the group order; which value is left unsaid.
#[verifier::external_body]
fn random_scalar_bytes() -> (r: Vec<u8>)
    ensures
        scalar_ok(r@),
{
    Scalar::random(rand::thread_rng()).to_repr().to_vec()
}

/// `Scalar::default()` written with `to_repr`: 32 zero bytes.
#[verifier::external_body]
fn zero_scalar_bytes() -> (r: Vec<u8>)
    ensures
        r@ == Seq::new(32, |i: int| 0u8),
{
    Scalar::default().to_repr().to_vec()
}

proof fn lemma_be_val_zeros(n: nat)
    ensures
        be_val(Seq::new(n, |i: int| 0u8)) == 0,
    decreases n,
{
    if n > 0 {
        assert(Seq::new(n, |i: int| 0u8).drop_last() =~= Seq::new((n - 1) as nat, |i: int| 0u8));
        lemma_be_val_zeros((n - 1) as nat);
    }
}

/// The value of big-endian bytes.
pub fn be_value(b: &Vec<u8>) -> (r: BigNat)
    ensures
        r@ == be_val(b@),
{
    let mut acc = BigNat::zero();
    let mut i: usize = 0;
    proof {
        assert(b@.take(0) =~= Seq::<u8>::empty());
    }
    while i < b.len()
        invariant
            i <= b@.len(),
            acc@ == be_val(b@.take(i as int)),
        decreases b@.len() - i,
    {
        let shifted = acc.shl(8);
        acc = shifted.add(&BigNat::from_u64(b[i] as u64));
        proof {
            vstd::arithmetic::power2::lemma2_to64();
            assert(b@.take(i + 1).drop_last() =~= b@.take(i as int));
            assert(b@.take(i + 1).last() == b@[i as int]);
        }
        i = i + 1;
    }
    proof {
        assert(b@.take(b@.len() as int) =~= b@);
    }
    acc
}

/// Elliptic curve point over P-256, held as its 33-byte compressed SEC1
/// encoding (33 zero bytes for the identity).
pub struct ECPoint {
    pub bytes: Vec<u8>,
}

/// Elliptic curve scalar over P-256, held as its 32 big-endian bytes.
pub struct P256Scalar {
    pub bytes: Vec<u8>,
}

impl ECPoint {
    /// The bytes encode a point.
    pub open spec fn wf(&self) -> bool {
        point_ok(self.bytes@)
    }

    /// The identity.
    pub fn default() -> (r: ECPoint)
        ensures
            r.wf(),
            r.bytes@ == identity_bytes(),
    {
        ECPoint { bytes: identity_encoding() }
    }

    /// The generator of the group.
    pub fn generator() -> (r: ECPoint)
        ensures
            r.wf(),
            r.bytes@ == generator_bytes(),
    {
        ECPoint { bytes: generator_encoding() }
    }

    /// `self` times `scalar`.
    pub fn mul(&self, scalar: &P256Scalar) -> (r: ECPoint)
        requires
            self.wf(),
            scalar.wf(),
        ensures
            r.wf(),
            r.bytes@ == p256_scalar_mul(self.bytes@, scalar.bytes@),
    {
        ECPoint { bytes: mul_encoded(&self.bytes, &scalar.bytes) }
    }

    /// `self` plus `other`.
    pub fn add(&self, other: &ECPoint) -> (r: ECPoint)
        requires
            self.wf(),
            other.wf(),
        ensures
            r.wf(),
            r.bytes@ == p256_point_add(self.bytes@, other.bytes@),
    {
        ECPoint { bytes: add_encoded(&self.bytes, &other.bytes) }
    }

    /// The point encoded by `bytes`, 33 bytes that encode a point (on other
    /// bytes decoding fails, and the caller tests them with [`ECPoint::decode`]
    /// first).
    pub fn deserialize(bytes: &Vec<u8>) -> (r: ECPoint)
        requires
            point_ok(bytes@),
        ensures
            r.bytes@ == bytes@,
    {
        ECPoint { bytes: bytes.clone() }
    }

    /// The point encoded by `bytes` where they are 33 bytes that encode a
    /// point; `None` otherwise.
    pub fn decode(bytes: &Vec<u8>) -> (r: Option<ECPoint>)
        ensures
            r is Some <==> point_ok(bytes@),
            r matches Some(p) ==> p.bytes@ == bytes@,
    {
        if bytes.len() == 33 && decodes_to_point(bytes) {
            Some(ECPoint::deserialize(bytes))
        } else {
            None
        }
    }

    /// Whether `self` is the identity.
    pub fn is_identity(&self) -> (r: bool)
        requires
            self.wf(),
        ensures
            r == (self.bytes@ == identity_bytes()),
    {
        let mut i: usize = 0;
        while i < 33
            invariant
                i <= 33,
                self.bytes@.len() == 33,
                forall|j: int| 0 <= j < i ==> self.bytes@[j] == 0u8,
            decreases 33 - i,
        {
            if self.bytes[i] != 0 {
                return false;
            }
            i = i + 1;
        }
        proof {
            assert(self.bytes@ =~= identity_bytes());
        }
        true
    }

    /// The affine coordinates of `self`; the identity has none and gives
    /// `(0, 0)` marked empty.
    pub fn affine(&self) -> (r: P256Point)
        requires
            self.wf(),
        ensures
            r.empty == (self.bytes@ == identity_bytes()),
            !r.empty ==> r.x@ == be_val(p256_uncompressed(self.bytes@).subrange(1, 33)) && r.y@
                == be_val(p256_uncompressed(self.bytes@).subrange(33, 65)),
            r.empty ==> r.x@ == 0 && r.y@ == 0,
    {
        if self.is_identity() {
            return P256Point { x: BigNat::zero(), y: BigNat::zero(), empty: true };
        }
        let u = uncompressed_encoding(&self.bytes);
        let mut xb: Vec<u8> = Vec::new();
        let mut yb: Vec<u8> = Vec::new();
        let mut i: usize = 1;
        while i < 33
            invariant
                1 <= i <= 33,
                u@.len() == 65,
                xb@ == u@.subrange(1, i as int),
                yb@ == u@.subrange(33, 32 + i as int),
            decreases 33 - i,
        {
            xb.push(u[i]);
            yb.push(u[i + 32]);
            i = i + 1;
            proof {
                assert(xb@ =~= u@.subrange(1, i as int));
                assert(yb@ =~= u@.subrange(33, 32 + i as int));
            }
        }
        P256Point { x: be_value(&xb), y: be_value(&yb), empty: false }
    }
}

impl P256Scalar {
    /// The bytes are a scalar below the group order.
    pub open spec fn wf(&self) -> bool {
        scalar_ok(self.bytes@)
    }

    /// Zero.
    pub fn default() -> (r: P256Scalar)
        ensures
            r.wf(),
            r.bytes@ == Seq::new(32, |i: int| 0u8),
    {
        let bytes = zero_scalar_bytes();
        proof {
            lemma_be_val_zeros(32);
        }
        P256Scalar { bytes }
    }

    /// A uniformly random scalar.
    pub fn random() -> (r: P256Scalar)
        ensures
            r.wf(),
    {
        P256Scalar { bytes: random_scalar_bytes() }
    }

    /// The scalar whose big-endian bytes are `bytes`, 32 bytes of a value
    /// below the group order (on other bytes decoding fails, and the caller
    /// tests them with [`P256Scalar::decode`] first).
    pub fn deserialize(bytes: &Vec<u8>) -> (r: P256Scalar)
        requires
            scalar_ok(bytes@),
        ensures
            r.bytes@ == bytes@,
    {
        P256Scalar { bytes: bytes.clone() }
    }

    /// The scalar whose big-endian bytes are `bytes` where they are 32 bytes
    /// of a value below the group order; `None` otherwise.
    pub fn decode(bytes: &Vec<u8>) -> (r: Option<P256Scalar>)
        ensures
            r is Some <==> scalar_ok(bytes@),
            r matches Some(s) ==> s.bytes@ == bytes@,
    {
        if bytes.len() == 32 && is_canonical_scalar(bytes) {
            Some(P256Scalar::deserialize(bytes))
        } else {
            None
        }
    }

    /// The value of the scalar.
    pub fn value(&self) -> (r: BigNat)
        ensures
            r@ == be_val(self.bytes@),
    {
        be_value(&self.bytes)
    }
}

/// Commitment to a P-256 point: `comm = base_point * v + point` with the
/// value of `v` as opening.
pub struct P256Commit {
    /// The value of `v`
    pub opening: BigNat,
    /// The committed point
    pub comm: ECPoint,
}

impl P256Commit {
    /// Commits to `point` with the scalar `v` and the base point `base_point`.
    pub fn new(point: &ECPoint, base_point: &ECPoint, v: &P256Scalar) -> (r: P256Commit)
        requires
            point.wf(),
            base_point.wf(),
            v.wf(),
        ensures
            r.opening@ == be_val(v.bytes@),
            r.comm.wf(),
            r.comm.bytes@ == p256_point_add(
                p256_scalar_mul(base_point.bytes@, v.bytes@),
                point.bytes@,
            ),
    {
        let masked = base_point.mul(v);
        P256Commit { opening: v.value(), comm: masked.add(point) }
    }
}

/// El-Gamal-like commitment to a P-256 point: `[pp0 * v, pp1 * v + point]`
/// with the scalar `v` as opening.
pub struct PointCommit {
    /// The scalar `v`
    pub opening: P256Scalar,
    /// The two committed points
    pub comm: [ECPoint; 2],
}

impl PointCommit {
    /// Commits to `point` with the scalar `v` and the public points `pp`.
    pub fn new(point: &ECPoint, pp: &[ECPoint; 2], v: P256Scalar) -> (r: PointCommit)
        requires
            point.wf(),
            pp[0].wf(),
            pp[1].wf(),
            v.wf(),
        ensures
            r.opening.bytes@ == v.bytes@,
            r.comm[0].wf() && r.comm[1].wf(),
            r.comm[0].bytes@ == p256_scalar_mul(pp[0].bytes@, v.bytes@),
            r.comm[1].bytes@ == p256_point_add(p256_scalar_mul(pp[1].bytes@, v.bytes@), point.bytes@),
    {
        let c0 = pp[0].mul(&v);
        let c1 = pp[1].mul(&v).add(point);
        PointCommit { opening: v, comm: [c0, c1] }
    }
}

} // verus!
