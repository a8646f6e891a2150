//! Identity-bound Pedersen commitments to bids.
//!
//! A bidder with peer id `pk` commits to the bid `v` with a 32-byte nonce `r`:
//! the blinding scalar is `s = SHA-512(pk ‖ r) mod ℓ` and the commitment is
//! `C = v·G + s·H`, where `G` is the Ristretto basepoint and `H` the point that
//! the encoding of `G` hashes to.  The commitment travels as the lowercase hex
//! text of `C`'s canonical encoding.

use vstd::prelude::*;
use vstd::string::StringSliceAdditionalSpecFns;

use crate::encoding::{
    ascii_bytes, hex_decode, hex_decoding, hex_encode, hex_encoding, hex_encoding_upper, is_hex_text,
    le_bytes, le_nat, lemma_hex_encoding_len, lemma_hex_round_trip, lemma_hex_upper_round_trip,
    lemma_le_nat_determines, lemma_le_nat_of_le_bytes, pow256,
};
use crate::hashing::spec_sha512;
use crate::ristretto::{
    basepoint, basepoint_compressed, compress, group_add, group_order, hash_to_group,
    ristretto_basepoint_encoding, scalar_from_bytes_mod_order, scalar_from_sha512,
    scalar_from_u64, scalar_mul, spec_group_add, spec_hash_to_group, spec_scalar_mul,
    GroupElement,
};

verus! {

/// Encoding of the second generator `H`: the encoding of `G`, hashed to the group.
pub open spec fn h_generator() -> Seq<u8> {
    spec_hash_to_group(ristretto_basepoint_encoding())
}

/// The canonical encoding of the scalar whose value is `v mod ℓ`.
pub open spec fn scalar_encoding(v: nat) -> Seq<u8> {
    le_bytes(v % group_order(), 32)
}

/// The identity-bound blinding scalar `SHA-512(peer ‖ nonce) mod ℓ`.
pub open spec fn blinding_scalar(peer: Seq<u8>, nonce: Seq<u8>) -> Seq<u8> {
    scalar_encoding(le_nat(spec_sha512(peer + nonce)))
}

/// Encoding of the Pedersen commitment `bid·G + s·H`.
pub open spec fn commitment_of(bid: u64, s: Seq<u8>) -> Seq<u8> {
    spec_group_add(
        spec_scalar_mul(le_bytes(bid as nat, 32), ristretto_basepoint_encoding()),
        spec_scalar_mul(s, h_generator()),
    )
}

/// Hex text of the commitment a bidder with `peer` makes to `bid` with `nonce`.
pub open spec fn commitment_text(bid: u64, peer: Seq<u8>, nonce: Seq<u8>) -> Seq<char> {
    hex_encoding(commitment_of(bid, blinding_scalar(peer, nonce)))
}

/// `stored` is the commitment text that (`bid`, the 32-byte nonce spelled by
/// the hex text `nonce_text`, `peer`) produce.
pub open spec fn commitment_opens(
    stored: Seq<char>,
    bid: u64,
    nonce_text: Seq<u8>,
    peer: Seq<u8>,
) -> bool {
    &&& is_hex_text(nonce_text)
    &&& hex_decoding(nonce_text).len() == 32
    &&& stored == commitment_text(bid, peer, hex_decoding(nonce_text))
}

/// Scalars whose value is below `2^256` are the digits of that value.
proof fn lemma_scalar_bytes(b: Seq<u8>, v: nat)
    requires
        b.len() == 32,
        le_nat(b) == v % group_order(),
    ensures
        b == scalar_encoding(v),
{
    lemma_le_nat_determines(b, v % group_order());
}

/// The second generator `H`: the Ristretto basepoint's compressed encoding,
/// hashed to the group with SHA-512.
pub fn get_h_basepoint() -> (h: GroupElement)
    ensures
        h@ == h_generator(),
{
    let g = basepoint_compressed();
    hash_to_group(g.as_slice())
}

/// The blinding scalar `SHA-512(peer_id ‖ nonce) mod ℓ`, as canonical bytes.
pub fn derive_scalar(peer_id: &str, nonce: &[u8; 32]) -> (s: [u8; 32])
    ensures
        s@ == blinding_scalar(peer_id.spec_bytes(), nonce@),
        le_nat(s@) == le_nat(spec_sha512(peer_id.spec_bytes() + nonce@)) % group_order(),
{
    let peer = peer_id.as_bytes();
    let s = scalar_from_sha512(peer, nonce.as_slice());
    proof {
        lemma_scalar_bytes(s@, le_nat(spec_sha512(peer_id.spec_bytes() + nonce@)));
    }
    s
}

/// The Pedersen commitment `bid·G + s·H`.
pub fn commit(bid_value: u64, s: &[u8; 32]) -> (c: GroupElement)
    ensures
        c@ == commitment_of(bid_value, s@),
{
    let v_scalar = scalar_from_u64(bid_value);
    proof {
        lemma_le_nat_determines(v_scalar@, bid_value as nat);
    }
    let h = get_h_basepoint();
    let g = basepoint();
    let vg = scalar_mul(&v_scalar, &g);
    let sh = scalar_mul(s, &h);
    group_add(&vg, &sh)
}

/// Hex text of the commitment to `bid` that `peer_id` makes with `nonce`.
pub fn commitment_hex(bid: u64, peer_id: &str, nonce: &[u8; 32]) -> (text: String)
    ensures
        text@ == commitment_text(bid, peer_id.spec_bytes(), nonce@),
        text@.len() == 64,
{
    let s = derive_scalar(peer_id, nonce);
    let c = commit(bid, &s);
    let bytes = compress(&c);
    proof {
        lemma_hex_encoding_len(bytes@);
    }
    hex_encode(bytes.as_slice())
}

/// Checks a revealed (bid, nonce bytes, peer id) against the stored
/// commitment text by recomputing the commitment.
pub fn identity_verify(stored_hex: &str, bid: u64, nonce: &[u8; 32], peer_id: &str) -> (ok: bool)
    ensures
        ok == (stored_hex@ == commitment_text(bid, peer_id.spec_bytes(), nonce@)),
{
    let expected = commitment_hex(bid, peer_id, nonce);
    let stored = stored_hex.to_owned();
    expected == stored
}

/// Checks a reveal against a stored commitment: the nonce arrives as hex text
/// and must spell exactly 32 bytes; otherwise the reveal is rejected.
pub fn verify_commitment(stored_commitment_hex: &str, bid: u64, nonce_hex: &str, peer_id: &str) -> (ok: bool)
    ensures
        ok == commitment_opens(
            stored_commitment_hex@,
            bid,
            nonce_hex.spec_bytes(),
            peer_id.spec_bytes(),
        ),
{
    match hex_decode(nonce_hex) {
        Ok(nonce_bytes) => {
            if nonce_bytes.len() == 32 {
                let mut nonce = [0u8; 32];
                let mut i: usize = 0;
                while i < 32
                    invariant
                        nonce_bytes@.len() == 32,
                        i <= 32,
                        forall|k: int| 0 <= k < i ==> nonce@[k] == nonce_bytes@[k],
                    decreases 32 - i,
                {
                    nonce[i] = nonce_bytes[i];
                    i = i + 1;
                }
                assert(nonce@ =~= nonce_bytes@);
                identity_verify(stored_commitment_hex, bid, &nonce, peer_id)
            } else {
                false
            }
        },
        Err(_) => false,
    }
}

/// The blinding scalar is the value of the SHA-512 digest of all the peer
/// id's bytes followed by all the nonce's bytes, reduced modulo ℓ, as 32
/// canonical bytes; this holds for peer ids and nonces of every length.
pub proof fn law_blinding_scalar_value(peer: Seq<u8>, nonce: Seq<u8>)
    ensures
        blinding_scalar(peer, nonce).len() == 32,
        le_nat(blinding_scalar(peer, nonce)) == le_nat(spec_sha512(peer + nonce)) % group_order(),
{
    let v = le_nat(spec_sha512(peer + nonce)) % group_order();
    assert(group_order() < pow256(32)) by {
        assert(pow256(0) == 1nat);
        assert(pow256(1) == 256nat);
        assert(pow256(2) == 65536nat);
        assert(pow256(3) == 16777216nat);
        assert(pow256(4) == 4294967296nat);
        assert(pow256(5) == 1099511627776nat);
        assert(pow256(6) == 281474976710656nat);
        assert(pow256(7) == 72057594037927936nat);
        assert(pow256(8) == 18446744073709551616nat);
        assert(pow256(9) == 4722366482869645213696nat);
        assert(pow256(10) == 1208925819614629174706176nat);
        assert(pow256(11) == 309485009821345068724781056nat);
        assert(pow256(12) == 79228162514264337593543950336nat);
        assert(pow256(13) == 20282409603651670423947251286016nat);
        assert(pow256(14) == 5192296858534827628530496329220096nat);
        assert(pow256(15) == 1329227995784915872903807060280344576nat);
        assert(pow256(16) == 340282366920938463463374607431768211456nat);
        assert(pow256(17) == 87112285931760246646623899502532662132736nat);
        assert(pow256(18) == 22300745198530623141535718272648361505980416nat);
        assert(pow256(19) == 5708990770823839524233143877797980545530986496nat);
        assert(pow256(20) == 1461501637330902918203684832716283019655932542976nat);
        assert(pow256(21) == 374144419156711147060143317175368453031918731001856nat);
        assert(pow256(22) == 95780971304118053647396689196894323976171195136475136nat);
        assert(pow256(23) == 24519928653854221733733552434404946937899825954937634816nat);
        assert(pow256(24) == 6277101735386680763835789423207666416102355444464034512896nat);
        assert(pow256(25) == 1606938044258990275541962092341162602522202993782792835301376nat);
        assert(pow256(26) == 411376139330301510538742295639337626245683966408394965837152256nat);
        assert(pow256(27) == 105312291668557186697918027683670432318895095400549111254310977536nat);
        assert(pow256(28) == 26959946667150639794667015087019630673637144422540572481103610249216nat);
        assert(pow256(29) == 6901746346790563787434755862277025452451108972170386555162524223799296nat);
        assert(pow256(30) == 1766847064778384329583297500742918515827483896875618958121606201292619776nat);
        assert(pow256(31) == 452312848583266388373324160190187140051835877600158453279131187530910662656nat);
        assert(pow256(32) == 115792089237316195423570985008687907853269984665640564039457584007913129639936nat);
    }
    lemma_le_nat_of_le_bytes(v, 32);
}

/// The blinding scalar depends on the peer id and the nonce only through
/// their concatenation: no byte of either is dropped or moved.
pub proof fn law_blinding_scalar_of_concatenation(p1: Seq<u8>, n1: Seq<u8>, p2: Seq<u8>, n2: Seq<u8>)
    requires
        p1 + n1 == p2 + n2,
    ensures
        blinding_scalar(p1, n1) == blinding_scalar(p2, n2),
{
}

/// A commitment made by `peer` to `bid` with a 32-byte `nonce` opens with the
/// hex text of that nonce: honest reveals are always accepted.
pub proof fn law_honest_reveal_opens(bid: u64, peer: Seq<u8>, nonce: Seq<u8>)
    requires
        nonce.len() == 32,
    ensures
        commitment_opens(
            commitment_text(bid, peer, nonce),
            bid,
            ascii_bytes(hex_encoding(nonce)),
            peer,
        ),
{
    lemma_hex_round_trip(nonce);
}

/// The nonce's hex text may as well be written in uppercase: a commitment
/// made by `peer` to `bid` with a 32-byte `nonce` opens with the uppercase
/// hex text of that nonce too.
pub proof fn law_uppercase_reveal_opens(bid: u64, peer: Seq<u8>, nonce: Seq<u8>)
    requires
        nonce.len() == 32,
    ensures
        commitment_opens(
            commitment_text(bid, peer, nonce),
            bid,
            ascii_bytes(hex_encoding_upper(nonce)),
            peer,
        ),
{
    lemma_hex_upper_round_trip(nonce);
}

/// A reveal opens a stored commitment only if that commitment is exactly the
/// one recomputed from the revealed values.
pub proof fn law_opening_recomputes(stored: Seq<char>, bid: u64, nonce_text: Seq<u8>, peer: Seq<u8>)
    requires
        commitment_opens(stored, bid, nonce_text, peer),
    ensures
        stored == hex_encoding(commitment_of(bid, blinding_scalar(peer, hex_decoding(nonce_text)))),
{
}

// Reference scheme without identity binding: the nonce itself, reduced
// modulo ℓ, is the blinding scalar.

/// Blinding scalar of the reference scheme: the nonce read as a 256-bit
/// little-endian integer, reduced modulo ℓ.
pub fn baseline_nonce_to_scalar(nonce: &[u8; 32]) -> (s: [u8; 32])
    ensures
        s@ == scalar_encoding(le_nat(nonce@)),
{
    let s = scalar_from_bytes_mod_order(nonce);
    proof {
        lemma_scalar_bytes(s@, le_nat(nonce@));
    }
    s
}

/// Verification in the reference scheme: recompute `v·G + r·H` and compare
/// hex texts.
pub fn baseline_verify(stored_hex: &str, v: u64, nonce: &[u8; 32]) -> (ok: bool)
    ensures
        ok == (stored_hex@ == hex_encoding(commitment_of(v, scalar_encoding(le_nat(nonce@))))),
{
    let s = baseline_nonce_to_scalar(nonce);
    let c = commit(v, &s);
    let bytes = compress(&c);
    let expected = hex_encode(bytes.as_slice());
    let stored = stored_hex.to_owned();
    expected == stored
}

} // verus!
