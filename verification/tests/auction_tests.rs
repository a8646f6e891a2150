use sha2::{Digest, Sha256};

use sealed_auction::auction::{start_time_from_id, Auction, MarketplaceState};
use sealed_auction::idmap::IdMap;

fn auction(reserve: u64) -> Auction {
    Auction::new("auction_1700000000".to_string(), "seller".to_string(), 42, reserve).unwrap()
}

fn tie_score(nonce: &[u8; 32], combined: &[u8; 32]) -> u64 {
    let mut hasher = Sha256::new();
    hasher.update(nonce);
    hasher.update(combined);
    let digest = hasher.finalize();
    u64::from_le_bytes(digest[..8].try_into().unwrap())
}

#[test]
fn new_auction_takes_start_time_from_id() {
    let a = auction(10);
    assert_eq!(a.auction_id, "auction_1700000000");
    assert_eq!(a.seller_id, "seller");
    assert_eq!(a.token_id, 42);
    assert_eq!(a.reserve_price, 10);
    assert_eq!(a.commit_deadline, 1700000240);
    assert_eq!(a.reveal_deadline, 1700000300);
    assert!(!a.resolved && !a.failed && !a.verdict_received);
    assert!(a.winner_id.is_none() && a.validator_id.is_none());
    assert_eq!(a.clearing_price, 0);
    assert!(a.slash_list.is_empty());
    assert_eq!(a.received_commitments.len(), 0);
    assert_eq!(a.verified_bids.len(), 0);
    assert_eq!(a.verified_nonces.len(), 0);
}

#[test]
fn new_auction_without_time_in_id_uses_clock() {
    let a = Auction::new("no-time-here".to_string(), "s".to_string(), 1, 1).unwrap();
    assert_eq!(a.reveal_deadline - a.commit_deadline, 60);
    assert!(a.commit_deadline > 1_600_000_000);
    let b = Auction::new("a_b_5".to_string(), "s".to_string(), 1, 1).unwrap();
    assert!(b.commit_deadline > 1_600_000_000);
}

#[test]
fn new_auction_with_deadlines_past_u64_is_none() {
    assert!(Auction::new("x_18446744073709551615".to_string(), "s".to_string(), 1, 1).is_none());
    assert!(Auction::new("x_18446744073709551316".to_string(), "s".to_string(), 1, 1).is_none());
    let a = Auction::new("x_18446744073709551315".to_string(), "s".to_string(), 1, 1).unwrap();
    assert_eq!(a.reveal_deadline, u64::MAX);
}

#[test]
fn start_time_parsing() {
    assert_eq!(start_time_from_id("auction_1700000000"), Some(1700000000));
    assert_eq!(start_time_from_id("_5"), Some(5));
    assert_eq!(start_time_from_id("x_+5"), Some(5));
    assert_eq!(start_time_from_id("x_007"), Some(7));
    assert_eq!(start_time_from_id("x_"), None);
    assert_eq!(start_time_from_id("x_+"), None);
    assert_eq!(start_time_from_id("x_-5"), None);
    assert_eq!(start_time_from_id("x_5x"), None);
    assert_eq!(start_time_from_id("x_ 5"), None);
    assert_eq!(start_time_from_id("x_99999999999999999999"), None);
    assert_eq!(start_time_from_id("x_18446744073709551615"), Some(u64::MAX));
    assert_eq!(start_time_from_id("a_b_5"), None);
    assert_eq!(start_time_from_id("12345"), None);
    assert_eq!(start_time_from_id("é_12"), Some(12));
}

#[test]
fn single_bidder_pays_reserve() {
    let mut a = auction(50);
    a.verified_bids.insert("alice".to_string(), 80);
    a.resolve();
    assert!(a.resolved && !a.failed);
    assert_eq!(a.winner_id.as_deref(), Some("alice"));
    assert_eq!(a.clearing_price, 50);
}

#[test]
fn winner_pays_second_highest_valid_bid() {
    let mut a = auction(50);
    a.verified_bids.insert("carol".to_string(), 60);
    a.verified_bids.insert("alice".to_string(), 100);
    a.verified_bids.insert("bob".to_string(), 80);
    a.verified_bids.insert("dave".to_string(), 40);
    a.resolve();
    assert_eq!(a.winner_id.as_deref(), Some("alice"));
    assert_eq!(a.clearing_price, 80);
    assert!(!a.failed);
}

#[test]
fn bids_below_reserve_do_not_set_the_price() {
    let mut a = auction(50);
    a.verified_bids.insert("alice".to_string(), 100);
    a.verified_bids.insert("bob".to_string(), 49);
    a.resolve();
    assert_eq!(a.winner_id.as_deref(), Some("alice"));
    assert_eq!(a.clearing_price, 50);
}

#[test]
fn bid_equal_to_reserve_is_valid() {
    let mut a = auction(50);
    a.verified_bids.insert("alice".to_string(), 50);
    a.resolve();
    assert_eq!(a.winner_id.as_deref(), Some("alice"));
    assert_eq!(a.clearing_price, 50);
}

#[test]
fn no_valid_bid_fails() {
    let mut a = auction(50);
    a.verified_bids.insert("alice".to_string(), 10);
    a.resolve();
    assert!(a.resolved && a.failed);
    assert!(a.winner_id.is_none());
    assert_eq!(a.clearing_price, 0);

    let mut empty = auction(0);
    empty.resolve();
    assert!(empty.failed);
}

#[test]
fn unrevealed_commitments_are_slashed() {
    let mut a = auction(50);
    a.received_commitments.insert("alice".to_string(), "c1".to_string());
    a.received_commitments.insert("mallory".to_string(), "c2".to_string());
    a.received_commitments.insert("bob".to_string(), "c3".to_string());
    a.received_commitments.insert("trent".to_string(), "c4".to_string());
    a.verified_bids.insert("alice".to_string(), 70);
    a.verified_bids.insert("bob".to_string(), 60);
    a.resolve();
    assert_eq!(a.slash_list, vec!["mallory".to_string(), "trent".to_string()]);
    assert_eq!(a.winner_id.as_deref(), Some("alice"));
    assert_eq!(a.clearing_price, 60);
}

#[test]
fn resolving_twice_changes_nothing() {
    let mut a = auction(50);
    a.received_commitments.insert("mallory".to_string(), "c".to_string());
    a.verified_bids.insert("alice".to_string(), 70);
    a.resolve();
    a.verified_bids.insert("bob".to_string(), 90);
    a.resolve();
    assert_eq!(a.winner_id.as_deref(), Some("alice"));
    assert_eq!(a.clearing_price, 50);
    assert_eq!(a.slash_list, vec!["mallory".to_string()]);
}

#[test]
fn tie_is_broken_by_nonce_hashes_and_pays_top_bid() {
    let alice_nonce = [1u8; 32];
    let bob_nonce = [2u8; 32];
    let mut a = auction(50);
    a.verified_bids.insert("alice".to_string(), 100);
    a.verified_bids.insert("bob".to_string(), 100);
    a.verified_bids.insert("carol".to_string(), 70);
    a.verified_nonces.insert("alice".to_string(), alice_nonce);
    a.verified_nonces.insert("bob".to_string(), bob_nonce);
    a.resolve();
    let combined = [3u8; 32];
    let sa = tie_score(&alice_nonce, &combined);
    let sb = tie_score(&bob_nonce, &combined);
    let expected = if sb > sa { "bob" } else { "alice" };
    assert_eq!(a.winner_id.as_deref(), Some(expected));
    assert_eq!(a.clearing_price, 100);
}

#[test]
fn tie_without_nonces_scores_zero_nonces() {
    let mut a = auction(0);
    a.verified_bids.insert("x".to_string(), 5);
    a.verified_bids.insert("y".to_string(), 5);
    a.resolve();
    // both score the same, so the first tied bidder stays the pick
    assert_eq!(a.winner_id.as_deref(), Some("x"));
    assert_eq!(a.clearing_price, 5);
}

#[test]
fn id_map_replaces_in_place() {
    let mut m: IdMap<u64> = IdMap::new();
    m.insert("a".to_string(), 1);
    m.insert("b".to_string(), 2);
    m.insert("a".to_string(), 3);
    assert_eq!(m.len(), 2);
    assert_eq!(m.get(&"a".to_string()), Some(&3));
    assert_eq!(m.get(&"b".to_string()), Some(&2));
    assert_eq!(m.get(&"c".to_string()), None);
    assert!(m.contains_key(&"b".to_string()));
    assert!(!m.contains_key(&"c".to_string()));
    assert_eq!(m.key_at(0), "a");
    assert_eq!(*m.value_at(0), 3);
}

#[test]
fn marketplace_starts_with_three_art_tokens() {
    let m = MarketplaceState::new();
    assert_eq!(m.my_credits, 1000);
    assert_eq!(m.my_locked_credits, 0);
    assert_eq!(m.my_art_vault.len(), 3);
    assert!(m.my_art_vault.iter().all(|t| (100000..=999999).contains(t)));
    assert!(m.escrowed_art.is_empty());
    assert_eq!(m.active_auctions.len(), 0);
    assert!(m.current_joined_auction.is_none());
    assert!(m.my_secret_bid.is_none() && m.my_secret_nonce.is_none());
}

#[test]
fn new_at_takes_the_start_from_the_id_first_then_the_clock() {
    let a = Auction::new_at("auction".to_string(), "s".to_string(), 7, 9, Some(1000)).unwrap();
    assert_eq!(a.commit_deadline, 1240);
    assert_eq!(a.reveal_deadline, 1300);
    assert_eq!(a.token_id, 7);
    assert_eq!(a.reserve_price, 9);
    let b = Auction::new_at("a_b_100".to_string(), "s".to_string(), 1, 1, Some(50)).unwrap();
    assert_eq!(b.commit_deadline, 290);
    let c = Auction::new_at("a_x".to_string(), "s".to_string(), 1, 1, Some(60)).unwrap();
    assert_eq!(c.reveal_deadline, 360);
    let d = Auction::new_at("a_500".to_string(), "s".to_string(), 1, 1, Some(60)).unwrap();
    assert_eq!(d.commit_deadline, 740);
    let e = Auction::new_at("a_500".to_string(), "s".to_string(), 1, 1, None).unwrap();
    assert_eq!(e.reveal_deadline, 800);
}

#[test]
fn new_at_without_any_start_or_past_the_limit_is_none() {
    assert!(Auction::new_at("auction".to_string(), "s".to_string(), 1, 1, None).is_none());
    assert!(Auction::new_at("auction".to_string(), "s".to_string(), 1, 1, Some(u64::MAX - 299)).is_none());
    let a = Auction::new_at("auction".to_string(), "s".to_string(), 1, 1, Some(u64::MAX - 300)).unwrap();
    assert_eq!(a.reveal_deadline, u64::MAX);
}
