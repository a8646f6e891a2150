use sealed_auction::crypto::{commitment_hex, verify_commitment};
use sealed_auction::node::BrowserNode;

fn node() -> BrowserNode {
    BrowserNode::with_identity("08011220abcd".to_string(), "12D3KooWPeer".to_string())
}

#[test]
fn new_node_has_no_nonce() {
    let n = node();
    assert_eq!(n.get_peer_id(), "12D3KooWPeer");
    assert_eq!(n.get_pub_key(), "08011220abcd");
    assert_eq!(n.get_reveal_nonce_hex(), "ERROR_NO_NONCE");
}

#[test]
fn commitment_with_given_nonce() {
    let mut n = node();
    let mut nonce = [0u8; 32];
    for (i, b) in nonce.iter_mut().enumerate() {
        *b = i as u8;
    }
    let payload = n.commit_with_nonce(300, nonce);
    assert_eq!(payload, commitment_hex(300, "12D3KooWPeer", &nonce));
    assert_eq!(
        n.get_reveal_nonce_hex(),
        "000102030405060708090a0b0c0d0e0f101112131415161718191a1b1c1d1e1f"
    );
}

#[test]
fn own_reveal_verifies() {
    let mut n = node();
    let payload = n.generate_commit_payload(1234);
    let reveal = n.get_reveal_nonce_hex();
    assert_eq!(reveal.len(), 64);
    assert!(n.verify_commitment(&payload, 1234, &reveal, "12D3KooWPeer"));
    assert!(verify_commitment(&payload, 1234, &reveal, "12D3KooWPeer"));
    assert!(!n.verify_commitment(&payload, 1235, &reveal, "12D3KooWPeer"));
}

#[test]
fn fresh_nonces_differ() {
    let mut n = node();
    let p1 = n.generate_commit_payload(1);
    let r1 = n.get_reveal_nonce_hex();
    let p2 = n.generate_commit_payload(1);
    let r2 = n.get_reveal_nonce_hex();
    assert_ne!(r1, r2);
    assert_ne!(p1, p2);
}

#[test]
fn random_identity_is_well_formed() {
    let a = BrowserNode::new();
    let b = BrowserNode::new();
    let key = a.get_pub_key();
    assert!(!key.is_empty());
    assert!(hex::decode(&key).is_ok());
    assert!(a.get_peer_id().starts_with("12D3KooW"));
    assert_ne!(a.get_peer_id(), b.get_peer_id());
    assert_eq!(a.get_reveal_nonce_hex(), "ERROR_NO_NONCE");
}

#[test]
fn peer_id_belongs_to_the_public_key() {
    let node = BrowserNode::new();
    let bytes = hex::decode(node.get_pub_key()).unwrap();
    assert_eq!(bytes.len(), 36);
    assert_eq!(&bytes[..4], &[0x08, 0x01, 0x12, 0x20]);
    let public = libp2p::identity::PublicKey::try_decode_protobuf(&bytes).unwrap();
    assert_eq!(public.to_peer_id().to_string(), node.get_peer_id());
}

#[test]
fn commitment_payload_is_64_lowercase_hex_digits() {
    let mut node = BrowserNode::new();
    for bid in [0u64, 1, 500, u64::MAX] {
        let payload = node.generate_commit_payload(bid);
        assert_eq!(payload.len(), 64);
        assert!(payload.chars().all(|c| c.is_ascii_digit() || ('a'..='f').contains(&c)));
    }
}

#[test]
fn uppercase_reveal_also_verifies() {
    let mut n = node();
    let payload = n.generate_commit_payload(77);
    let upper = n.get_reveal_nonce_hex().to_uppercase();
    assert!(n.verify_commitment(&payload, 77, &upper, "12D3KooWPeer"));
    assert!(!n.verify_commitment(&payload, 78, &upper, "12D3KooWPeer"));
}
