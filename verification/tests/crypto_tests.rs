use curve25519_dalek::constants::{RISTRETTO_BASEPOINT_COMPRESSED, RISTRETTO_BASEPOINT_POINT};
use curve25519_dalek::ristretto::RistrettoPoint;
use curve25519_dalek::scalar::Scalar;
use sha2::{Digest, Sha512};

use sealed_auction::crypto::{
    baseline_nonce_to_scalar, baseline_verify, commit, commitment_hex, derive_scalar,
    get_h_basepoint, identity_verify, verify_commitment,
};

const PEER_ID: &str = "12D3KooWBenchmarkPeerIdentity";
const NONCE: [u8; 32] = [
    0xde, 0xad, 0xbe, 0xef, 0xca, 0xfe, 0xba, 0xbe, 0x01, 0x23, 0x45, 0x67, 0x89, 0xab, 0xcd, 0xef,
    0xfe, 0xdc, 0xba, 0x98, 0x76, 0x54, 0x32, 0x10, 0x11, 0x22, 0x33, 0x44, 0x55, 0x66, 0x77, 0x88,
];

fn reference_scalar(peer: &str, nonce: &[u8; 32]) -> Scalar {
    let mut hasher = Sha512::new();
    hasher.update(peer.as_bytes());
    hasher.update(nonce);
    Scalar::from_hash(hasher)
}

fn reference_commitment_hex(bid: u64, peer: &str, nonce: &[u8; 32]) -> String {
    let s = reference_scalar(peer, nonce);
    let h = RistrettoPoint::hash_from_bytes::<Sha512>(RISTRETTO_BASEPOINT_COMPRESSED.as_bytes());
    let c = (Scalar::from(bid) * RISTRETTO_BASEPOINT_POINT) + (s * h);
    hex::encode(c.compress().as_bytes())
}

#[test]
fn h_basepoint_is_hash_of_basepoint_encoding() {
    let h = get_h_basepoint();
    let expected =
        RistrettoPoint::hash_from_bytes::<Sha512>(RISTRETTO_BASEPOINT_COMPRESSED.as_bytes());
    assert_eq!(h.to_bytes(), expected.compress().to_bytes());
    assert_ne!(h.to_bytes(), RISTRETTO_BASEPOINT_COMPRESSED.to_bytes());
}

#[test]
fn derive_scalar_hashes_peer_and_nonce() {
    let s = derive_scalar(PEER_ID, &NONCE);
    assert_eq!(s, reference_scalar(PEER_ID, &NONCE).to_bytes());
    // the scalar is canonical: the top bits of the last byte are clear
    assert!(s[31] < 0x20);
}

#[test]
fn derive_scalar_depends_on_identity() {
    assert_ne!(derive_scalar("peer-a", &NONCE), derive_scalar("peer-b", &NONCE));
    let mut other = NONCE;
    other[0] ^= 1;
    assert_ne!(derive_scalar(PEER_ID, &NONCE), derive_scalar(PEER_ID, &other));
}

#[test]
fn commit_is_pedersen_commitment() {
    let s = derive_scalar(PEER_ID, &NONCE);
    let c = commit(250, &s);
    assert_eq!(hex::encode(c.to_bytes()), reference_commitment_hex(250, PEER_ID, &NONCE));
}

#[test]
fn commit_with_zero_bid_and_zero_scalar_is_identity() {
    let c = commit(0, &[0u8; 32]);
    assert_eq!(c.to_bytes(), [0u8; 32]);
}

#[test]
fn commitment_hex_is_lowercase_hex_of_encoding() {
    let text = commitment_hex(250, PEER_ID, &NONCE);
    assert_eq!(text.len(), 64);
    assert!(text.chars().all(|c| c.is_ascii_digit() || ('a'..='f').contains(&c)));
    assert_eq!(text, reference_commitment_hex(250, PEER_ID, &NONCE));
}

#[test]
fn honest_reveal_verifies() {
    let stored = commitment_hex(250, PEER_ID, &NONCE);
    let nonce_hex = hex::encode(NONCE);
    assert!(verify_commitment(&stored, 250, &nonce_hex, PEER_ID));
    assert!(identity_verify(&stored, 250, &NONCE, PEER_ID));
}

#[test]
fn reveal_accepts_uppercase_nonce_hex() {
    let stored = commitment_hex(7, PEER_ID, &NONCE);
    let nonce_hex = hex::encode_upper(NONCE);
    assert!(verify_commitment(&stored, 7, &nonce_hex, PEER_ID));
}

#[test]
fn reveal_with_other_bid_fails() {
    let stored = commitment_hex(250, PEER_ID, &NONCE);
    assert!(!verify_commitment(&stored, 251, &hex::encode(NONCE), PEER_ID));
}

#[test]
fn copied_commitment_fails_for_other_peer() {
    let stored = commitment_hex(250, PEER_ID, &NONCE);
    assert!(!verify_commitment(&stored, 250, &hex::encode(NONCE), "someone-else"));
}

#[test]
fn reveal_with_malformed_nonce_fails() {
    let stored = commitment_hex(250, PEER_ID, &NONCE);
    let good = hex::encode(NONCE);
    // odd length
    assert!(!verify_commitment(&stored, 250, &good[1..], PEER_ID));
    // not a hex digit
    let bad = format!("zz{}", &good[2..]);
    assert!(!verify_commitment(&stored, 250, &bad, PEER_ID));
    // 31 bytes
    assert!(!verify_commitment(&stored, 250, &good[2..], PEER_ID));
    // 33 bytes
    let long = format!("{}00", good);
    assert!(!verify_commitment(&stored, 250, &long, PEER_ID));
    // uppercase stored text does not match the lowercase recomputation
    assert!(!verify_commitment(&stored.to_uppercase(), 250, &good, PEER_ID));
}

#[test]
fn baseline_scalar_reduces_nonce() {
    let all_ones = [0xffu8; 32];
    let s = baseline_nonce_to_scalar(&all_ones);
    assert_eq!(s, Scalar::from_bytes_mod_order(all_ones).to_bytes());
    assert_ne!(s, all_ones);
    assert_eq!(baseline_nonce_to_scalar(&[0u8; 32]), [0u8; 32]);
}

#[test]
fn baseline_verify_accepts_own_commitment() {
    let s = baseline_nonce_to_scalar(&NONCE);
    let stored = hex::encode(commit(250, &s).to_bytes());
    assert!(baseline_verify(&stored, 250, &NONCE));
    assert!(!baseline_verify(&stored, 249, &NONCE));
}

#[test]
fn commitment_to_one_with_zero_blinding_is_basepoint() {
    let c = commit(1, &[0u8; 32]);
    assert_eq!(c.to_bytes(), RISTRETTO_BASEPOINT_COMPRESSED.to_bytes());
    let two = commit(2, &[0u8; 32]);
    assert_eq!(two.to_bytes(), (RISTRETTO_BASEPOINT_POINT + RISTRETTO_BASEPOINT_POINT).compress().to_bytes());
}

#[test]
fn blinding_by_one_adds_h() {
    let mut one = [0u8; 32];
    one[0] = 1;
    let c = commit(0, &one);
    assert_eq!(c.to_bytes(), get_h_basepoint().to_bytes());
}
