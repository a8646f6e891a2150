//! The Ristretto group and its scalars, as computed by `curve25519-dalek`.
//!
//! Scalars are held as their canonical 32-byte little-endian encoding.  Group
//! elements carry, next to the point itself, the point's canonical 32-byte
//! Ristretto encoding as a ghost value: since the encoding is injective, every
//! group operation is a function of the encodings of its operands.

use vstd::prelude::*;

use curve25519_dalek::constants::{RISTRETTO_BASEPOINT_COMPRESSED, RISTRETTO_BASEPOINT_POINT};
use curve25519_dalek::ristretto::RistrettoPoint;
use curve25519_dalek::scalar::Scalar;
use sha2::{Digest, Sha512};

use crate::encoding::le_nat;
use crate::hashing::spec_sha512;

verus! {

/// The order ℓ = 2^252 + 27742317777372353535851937790883648493 of the group.
pub open spec fn group_order() -> nat {
    7237005577332262213973186563042994240857116359379907606001950938285454250989nat
}

/// `s` is the canonical encoding of a scalar: 32 little-endian bytes of a value below ℓ.
pub open spec fn is_canonical_scalar(s: Seq<u8>) -> bool {
    s.len() == 32 && le_nat(s) < group_order()
}

/// The canonical encoding of the Ristretto basepoint `G`.
pub open spec fn ristretto_basepoint_encoding() -> Seq<u8> {
    seq![
        0xe2u8, 0xf2, 0xae, 0x0a, 0x6a, 0xbc, 0x4e, 0x71, 0xa8, 0x84, 0xa9, 0x61, 0xc5, 0x00, 0x51,
        0x5f, 0x58, 0xe3, 0x0b, 0x6a, 0xa5, 0x82, 0xdd, 0x8d, 0xb6, 0xa6, 0x59, 0x45, 0xe0, 0x8d,
        0x2d, 0x76,
    ]
}

/// Encoding of the point that `RistrettoPoint::hash_from_bytes::<Sha512>` maps `input` to.
pub uninterp spec fn spec_hash_to_group(input: Seq<u8>) -> Seq<u8>;

/// Encoding of `scalar · P`, where `point` encodes `P` and `scalar` is read mod ℓ.
pub uninterp spec fn spec_scalar_mul(scalar: Seq<u8>, point: Seq<u8>) -> Seq<u8>;

/// Encoding of `P + Q`, where `left` encodes `P` and `right` encodes `Q`.
pub uninterp spec fn spec_group_add(left: Seq<u8>, right: Seq<u8>) -> Seq<u8>;

#[verifier::external_type_specification]
#[verifier::external_body]
pub struct ExRistrettoPoint(RistrettoPoint);

/// An element of the Ristretto group; its view is its canonical encoding.
pub struct GroupElement {
    point: RistrettoPoint,
    encoding: Ghost<Seq<u8>>,
}

impl View for GroupElement {
    type V = Seq<u8>;

    closed spec fn view(&self) -> Seq<u8> {
        self.encoding@
    }
}

/// `Scalar::from(u64)` followed by `Scalar::to_bytes`: the scalar whose value is `v`.
#[verifier::external_body]
pub(crate) fn scalar_from_u64(v: u64) -> (res: [u8; 32])
    ensures
        le_nat(res@) == v,
{
    Scalar::from(v).to_bytes()
}

/// `Scalar::from_bytes_mod_order` followed by `Scalar::to_bytes`: the 256-bit
/// little-endian integer `bytes` reduced modulo ℓ.
#[verifier::external_body]
pub(crate) fn scalar_from_bytes_mod_order(bytes: &[u8; 32]) -> (res: [u8; 32])
    ensures
        le_nat(res@) == le_nat(bytes@) % group_order(),
{
    Scalar::from_bytes_mod_order(*bytes).to_bytes()
}

/// `Scalar::from_hash` of a SHA-512 hasher fed `first` and then `second`,
/// followed by `Scalar::to_bytes`: the 512-bit little-endian digest of the
/// two pieces, one after the other, reduced modulo ℓ
/// (`from_bytes_mod_order_wide` of the digest).
#[verifier::external_body]
pub(crate) fn scalar_from_sha512(first: &[u8], second: &[u8]) -> (res: [u8; 32])
    ensures
        le_nat(res@) == le_nat(spec_sha512(first@ + second@)) % group_order(),
{
    let mut hasher = Sha512::new();
    hasher.update(first);
    hasher.update(second);
    Scalar::from_hash(hasher).to_bytes()
}

/// `RistrettoPoint::hash_from_bytes::<Sha512>`: the point `input` hashes to, a
/// function of `input` alone.
#[verifier::external_body]
pub(crate) fn hash_to_group(input: &[u8]) -> (res: GroupElement)
    ensures
        res@ == spec_hash_to_group(input@),
{
    GroupElement {
        point: RistrettoPoint::hash_from_bytes::<sha2::Sha512>(input),
        encoding: Ghost(spec_hash_to_group(input@)),
    }
}

/// `RISTRETTO_BASEPOINT_POINT`: the basepoint `G`, whose encoding the crate
/// gives as `RISTRETTO_BASEPOINT_COMPRESSED`.
#[verifier::external_body]
pub(crate) fn basepoint() -> (res: GroupElement)
    ensures
        res@ == ristretto_basepoint_encoding(),
{
    GroupElement { point: RISTRETTO_BASEPOINT_POINT, encoding: Ghost(ristretto_basepoint_encoding()) }
}

/// `RISTRETTO_BASEPOINT_COMPRESSED`: the bytes of the basepoint's encoding.
#[verifier::external_body]
pub(crate) fn basepoint_compressed() -> (res: [u8; 32])
    ensures
        res@ == ristretto_basepoint_encoding(),
{
    RISTRETTO_BASEPOINT_COMPRESSED.to_bytes()
}

/// `Scalar * RistrettoPoint`: the multiple of `point` by the scalar `scalar`
/// (read modulo ℓ by `Scalar::from_bytes_mod_order`).
#[verifier::external_body]
pub(crate) fn scalar_mul(scalar: &[u8; 32], point: &GroupElement) -> (res: GroupElement)
    ensures
        res@ == spec_scalar_mul(scalar@, point@),
{
    GroupElement {
        point: Scalar::from_bytes_mod_order(*scalar) * point.point,
        encoding: Ghost(spec_scalar_mul(scalar@, point@)),
    }
}

/// `RistrettoPoint + RistrettoPoint`: the group sum.
#[verifier::external_body]
pub(crate) fn group_add(left: &GroupElement, right: &GroupElement) -> (res: GroupElement)
    ensures
        res@ == spec_group_add(left@, right@),
{
    GroupElement {
        point: left.point + right.point,
        encoding: Ghost(spec_group_add(left@, right@)),
    }
}

/// `RistrettoPoint::compress` followed by `CompressedRistretto::to_bytes`: the
/// canonical encoding of the point.
#[verifier::external_body]
pub(crate) fn compress(element: &GroupElement) -> (res: [u8; 32])
    ensures
        res@ == element@,
{
    element.point.compress().to_bytes()
}

impl GroupElement {
    /// The canonical 32-byte encoding of the element.
    pub fn to_bytes(&self) -> (b: [u8; 32])
        ensures
            b@ == self@,
    {
        compress(self)
    }
}

} // verus!
