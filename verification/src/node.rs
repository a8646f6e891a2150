//! A bidder's node: its identity and the secrets of its current bid.

use vstd::prelude::*;
use vstd::string::StringSliceAdditionalSpecFns;

use crate::crypto::{
    commitment_hex, commitment_opens, commitment_text, law_honest_reveal_opens, verify_commitment,
};
use crate::encoding::{ascii_bytes, hex_encode, hex_encoding, lemma_hex_round_trip};
use crate::platform::{fill_random, thread_rng};

use libp2p::identity::{Keypair, PublicKey};
use libp2p::PeerId;

verus! {

#[verifier::external_type_specification]
#[verifier::external_body]
pub struct ExKeypair(Keypair);

#[verifier::external_type_specification]
#[verifier::external_body]
pub struct ExPublicKey(PublicKey);

#[verifier::external_type_specification]
#[verifier::external_body]
pub struct ExPeerId(PeerId);

/// The bytes (`PeerId::to_bytes`) of the peer id that
/// `PeerId::from_public_key` builds from the public key whose protobuf
/// encoding is `public_key_protobuf`.
pub uninterp spec fn spec_peer_id_bytes(public_key_protobuf: Seq<u8>) -> Seq<u8>;

/// The text (`PeerId`'s `to_string`, the base58 text of its bytes) of the
/// peer id whose bytes are `peer_id_bytes`.
pub uninterp spec fn spec_peer_id_text(peer_id_bytes: Seq<u8>) -> Seq<char>;

/// `b` is the protobuf encoding of an Ed25519 public key: the key type field
/// (`08 01`), then the data field's tag and length (`12 20`), then the 32
/// bytes of the key.
pub open spec fn is_ed25519_public_key_protobuf(b: Seq<u8>) -> bool {
    &&& b.len() == 36
    &&& b[0] == 0x08u8
    &&& b[1] == 0x01u8
    &&& b[2] == 0x12u8
    &&& b[3] == 0x20u8
}

/// An identity keypair; its view is the protobuf encoding of its public key.
struct IdentityKeypair {
    keypair: Keypair,
    public_protobuf: Ghost<Seq<u8>>,
}

impl View for IdentityKeypair {
    type V = Seq<u8>;

    closed spec fn view(&self) -> Seq<u8> {
        self.public_protobuf@
    }
}

/// A public key; its view is its protobuf encoding.
struct IdentityPublicKey {
    key: PublicKey,
    protobuf: Ghost<Seq<u8>>,
}

impl View for IdentityPublicKey {
    type V = Seq<u8>;

    closed spec fn view(&self) -> Seq<u8> {
        self.protobuf@
    }
}

/// A peer id; its view is its bytes.
struct IdentityPeerId {
    peer_id: PeerId,
    bytes: Ghost<Seq<u8>>,
}

impl View for IdentityPeerId {
    type V = Seq<u8>;

    closed spec fn view(&self) -> Seq<u8> {
        self.bytes@
    }
}

/// `Keypair::generate_ed25519`: a fresh random Ed25519 keypair.  The key is
/// random; its public key's protobuf encoding (a `proto::PublicKey` with the
/// type `Ed25519` and the key's 32 bytes as data) has the Ed25519 shape.
#[verifier::external_body]
fn generate_ed25519() -> (res: IdentityKeypair)
    ensures
        is_ed25519_public_key_protobuf(res@),
{
    IdentityKeypair {
        keypair: Keypair::generate_ed25519(),
        public_protobuf: Ghost(vstd::pervasive::arbitrary()),
    }
}

/// `Keypair::public`: the keypair's public key.
#[verifier::external_body]
fn keypair_public(keypair: &IdentityKeypair) -> (res: IdentityPublicKey)
    ensures
        res@ == keypair@,
{
    IdentityPublicKey { key: keypair.keypair.public(), protobuf: Ghost(keypair@) }
}

/// `PublicKey::encode_protobuf`: the public key's protobuf encoding.
#[verifier::external_body]
fn public_key_protobuf(public: &IdentityPublicKey) -> (res: Vec<u8>)
    ensures
        res@ == public@,
{
    public.key.encode_protobuf()
}

/// `PublicKey::to_peer_id`: the peer id built from the key's protobuf
/// encoding alone (`PeerId::from_public_key`).
#[verifier::external_body]
fn public_key_peer_id(public: &IdentityPublicKey) -> (res: IdentityPeerId)
    ensures
        res@ == spec_peer_id_bytes(public@),
{
    IdentityPeerId { peer_id: public.key.to_peer_id(), bytes: Ghost(spec_peer_id_bytes(public@)) }
}

/// `PeerId`'s `to_string`: the base58 text of the peer id's bytes.
#[verifier::external_body]
fn peer_id_text(peer_id: &IdentityPeerId) -> (res: String)
    ensures
        res@ == spec_peer_id_text(peer_id@),
{
    peer_id.peer_id.to_string()
}

/// A bidder's node: its public key and peer id (both as text) and, once it
/// has committed, the bid and the nonce it committed with.
pub struct BrowserNode {
    pub_key_str: String,
    peer_id_str: String,
    secret_nonce: Option<[u8; 32]>,
    secret_bid: Option<u64>,
}

impl BrowserNode {
    /// A node with a fresh random Ed25519 identity: its public key as the hex
    /// text of the key's protobuf encoding and its peer id as the text of the
    /// peer id of that same key, with no bid yet.
    pub fn new() -> (node: Self)
        ensures
            exists|key: Seq<u8>|
                #![trigger hex_encoding(key)]
                is_ed25519_public_key_protobuf(key) && node.pub_key()@ == hex_encoding(key)
                    && node.peer_id()@ == spec_peer_id_text(spec_peer_id_bytes(key)),
            node.secret_nonce() is None,
            node.secret_bid() is None,
    {
        let local_key = generate_ed25519();
        let public = keypair_public(&local_key);
        let local_peer_id = public_key_peer_id(&public);
        let key_bytes = public_key_protobuf(&public);
        let pub_key_str = hex_encode(key_bytes.as_slice());
        let peer_id_str = peer_id_text(&local_peer_id);
        assert(is_ed25519_public_key_protobuf(key_bytes@) && pub_key_str@ == hex_encoding(key_bytes@)
            && peer_id_str@ == spec_peer_id_text(spec_peer_id_bytes(key_bytes@)));
        BrowserNode::with_identity(pub_key_str, peer_id_str)
    }

    /// A node for the identity whose public key and peer id are given as
    /// text, with no bid yet.
    pub fn with_identity(pub_key_str: String, peer_id_str: String) -> (node: Self)
        ensures
            node.pub_key()@ == pub_key_str@,
            node.peer_id()@ == peer_id_str@,
            node.secret_nonce() is None,
            node.secret_bid() is None,
    {
        BrowserNode { pub_key_str, peer_id_str, secret_nonce: None, secret_bid: None }
    }

    /// The node's public key text.
    pub closed spec fn pub_key(&self) -> String {
        self.pub_key_str
    }

    /// The node's peer id text.
    pub closed spec fn peer_id(&self) -> String {
        self.peer_id_str
    }

    /// The nonce of the node's current commitment.
    pub closed spec fn secret_nonce(&self) -> Option<[u8; 32]> {
        self.secret_nonce
    }

    /// The bid of the node's current commitment.
    pub closed spec fn secret_bid(&self) -> Option<u64> {
        self.secret_bid
    }

    /// The node's peer id.
    pub fn get_peer_id(&self) -> (id: String)
        ensures
            id@ == self.peer_id()@,
    {
        self.peer_id_str.clone()
    }

    /// The node's public key.
    pub fn get_pub_key(&self) -> (key: String)
        ensures
            key@ == self.pub_key()@,
    {
        self.pub_key_str.clone()
    }

    /// Commits to `bid_amount` with `nonce`: remembers both for the reveal and
    /// returns the commitment's hex text, bound to this node's peer id.
    pub fn commit_with_nonce(&mut self, bid_amount: u64, nonce: [u8; 32]) -> (payload: String)
        ensures
            payload@ == commitment_text(bid_amount, vstd::utf8::encode_utf8(final(self).peer_id()@), nonce@),
            payload@.len() == 64,
            final(self).secret_bid() == Some(bid_amount),
            final(self).secret_nonce() == Some(nonce),
            final(self).peer_id() == old(self).peer_id(),
            final(self).pub_key() == old(self).pub_key(),
    {
        self.secret_bid = Some(bid_amount);
        self.secret_nonce = Some(nonce);
        commitment_hex(bid_amount, self.peer_id_str.as_str(), &nonce)
    }

    /// Commits to `bid_amount` with a fresh random 256-bit nonce; see
    /// `commit_with_nonce`.
    pub fn generate_commit_payload(&mut self, bid_amount: u64) -> (payload: String)
        ensures
            final(self).secret_bid() == Some(bid_amount),
            final(self).secret_nonce() matches Some(nonce) && payload@ == commitment_text(
                bid_amount,
                vstd::utf8::encode_utf8(final(self).peer_id()@),
                nonce@,
            ),
            payload@.len() == 64,
            final(self).peer_id() == old(self).peer_id(),
            final(self).pub_key() == old(self).pub_key(),
    {
        let mut rng = thread_rng();
        let mut nonce = [0u8; 32];
        fill_random(&mut rng, &mut nonce);
        self.commit_with_nonce(bid_amount, nonce)
    }

    /// The hex text of the committed nonce, or `ERROR_NO_NONCE` before any commitment.
    pub fn get_reveal_nonce_hex(&self) -> (text: String)
        ensures
            self.secret_nonce() matches Some(n) ==> text@ == hex_encoding(n@),
            self.secret_nonce() is None ==> text@ == "ERROR_NO_NONCE"@,
    {
        match &self.secret_nonce {
            Some(nonce) => hex_encode(nonce.as_slice()),
            None => "ERROR_NO_NONCE".to_owned(),
        }
    }

    /// Checks another peer's reveal against its stored commitment.
    pub fn verify_commitment(&self, stored_commitment_hex: &str, bid: u64, nonce_hex: &str, peer_id: &str) -> (ok: bool)
        ensures
            ok == commitment_opens(
                stored_commitment_hex@,
                bid,
                nonce_hex.spec_bytes(),
                peer_id.spec_bytes(),
            ),
    {
        verify_commitment(stored_commitment_hex, bid, nonce_hex, peer_id)
    }
}

/// A node's own reveal opens the commitment it made: the payload returned by
/// a commitment, the bid, the nonce text returned by `get_reveal_nonce_hex`
/// and the node's peer id pass `verify_commitment`.
pub proof fn law_own_reveal_opens(node: BrowserNode, bid: u64, payload: Seq<char>, reveal: Seq<char>)
    requires
        node.secret_nonce() is Some,
        payload == commitment_text(
            bid,
            vstd::utf8::encode_utf8(node.peer_id()@),
            node.secret_nonce().unwrap()@,
        ),
        reveal == hex_encoding(node.secret_nonce().unwrap()@),
    ensures
        commitment_opens(
            payload,
            bid,
            vstd::utf8::encode_utf8(reveal),
            vstd::utf8::encode_utf8(node.peer_id()@),
        ),
{
    let nonce = node.secret_nonce().unwrap()@;
    lemma_hex_round_trip(nonce);
    vstd::utf8::is_ascii_chars_encode_utf8(reveal);
    assert(vstd::utf8::encode_utf8(reveal) =~= ascii_bytes(reveal));
    law_honest_reveal_opens(bid, vstd::utf8::encode_utf8(node.peer_id()@), nonce);
}

} // verus!
