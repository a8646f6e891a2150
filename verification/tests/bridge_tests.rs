use sealed_auction::bridge::{
    message_from_mesh, process_auction_message, BridgeMessage, CachedAuction, MeshMessage, MessageBody,
};

fn announce(id: &str) -> BridgeMessage {
    BridgeMessage::AnnounceAuction {
        auction_id: id.to_string(),
        announcement: format!("{{\"auction_id\":\"{}\"}}", id),
        is_object: true,
    }
}

fn commit(id: &str, bidder: &str, c: &str) -> BridgeMessage {
    BridgeMessage::Commit {
        auction_id: id.to_string(),
        bidder_id: bidder.to_string(),
        commitment: c.to_string(),
    }
}

fn reveal_msg(id: &str, bidder: &str, text: &str) -> BridgeMessage {
    BridgeMessage::Reveal {
        auction_id: id.to_string(),
        bidder_id: bidder.to_string(),
        reveal: text.to_string(),
    }
}

fn ids(list: &Vec<CachedAuction>) -> Vec<String> {
    list.iter().map(|a| a.auction_id.clone()).collect()
}

#[test]
fn announcement_caches_fresh_auction() {
    let mut list = Vec::new();
    process_auction_message(&mut list, &announce("a1"));
    assert_eq!(ids(&list), vec!["a1"]);
    let a = &list[0];
    assert!(a.is_object);
    assert_eq!(a.announcement, "{\"auction_id\":\"a1\"}");
    assert_eq!(a.commitments.len(), 0);
    assert!(a.bids.is_empty());
    assert!(a.validator_id.is_none() && a.verdict.is_none());
}

#[test]
fn reannouncement_replaces_and_moves_to_end() {
    let mut list = Vec::new();
    process_auction_message(&mut list, &announce("a1"));
    process_auction_message(&mut list, &announce("a2"));
    process_auction_message(&mut list, &commit("a1", "alice", "c1"));
    process_auction_message(&mut list, &announce("a1"));
    assert_eq!(ids(&list), vec!["a2", "a1"]);
    assert_eq!(list[1].commitments.len(), 0);
}

#[test]
fn commitments_are_kept_per_bidder() {
    let mut list = Vec::new();
    process_auction_message(&mut list, &announce("a1"));
    process_auction_message(&mut list, &commit("a1", "alice", "c1"));
    process_auction_message(&mut list, &commit("a1", "bob", "c2"));
    process_auction_message(&mut list, &commit("a1", "alice", "c3"));
    process_auction_message(&mut list, &commit("zz", "carol", "c4"));
    let c = &list[0].commitments;
    assert_eq!(c.len(), 2);
    assert_eq!(c.get(&"alice".to_string()).map(|s| s.as_str()), Some("c3"));
    assert_eq!(c.get(&"bob".to_string()).map(|s| s.as_str()), Some("c2"));
}

#[test]
fn latest_reveal_of_a_bidder_wins() {
    let mut list = Vec::new();
    process_auction_message(&mut list, &announce("a1"));
    process_auction_message(&mut list, &reveal_msg("a1", "alice", "r1"));
    process_auction_message(&mut list, &reveal_msg("a1", "bob", "r2"));
    process_auction_message(&mut list, &reveal_msg("a1", "alice", "r3"));
    let bids: Vec<(String, String)> =
        list[0].bids.iter().map(|b| (b.bidder_id.clone(), b.reveal.clone())).collect();
    assert_eq!(
        bids,
        vec![("bob".to_string(), "r2".to_string()), ("alice".to_string(), "r3".to_string())]
    );
}

#[test]
fn first_validator_stays() {
    let mut list = Vec::new();
    process_auction_message(&mut list, &announce("a1"));
    process_auction_message(
        &mut list,
        &BridgeMessage::IntentToValidate { auction_id: "a1".to_string(), validator_id: None },
    );
    assert!(list[0].validator_id.is_none());
    process_auction_message(
        &mut list,
        &BridgeMessage::IntentToValidate {
            auction_id: "a1".to_string(),
            validator_id: Some("\"v1\"".to_string()),
        },
    );
    process_auction_message(
        &mut list,
        &BridgeMessage::IntentToValidate {
            auction_id: "a1".to_string(),
            validator_id: Some("\"v2\"".to_string()),
        },
    );
    assert_eq!(list[0].validator_id.as_deref(), Some("\"v1\""));
}

#[test]
fn latest_verdict_is_attached() {
    let mut list = Vec::new();
    process_auction_message(&mut list, &announce("a1"));
    for v in ["{\"ok\":1}", "{\"ok\":2}"] {
        process_auction_message(
            &mut list,
            &BridgeMessage::Verdict { auction_id: "a1".to_string(), verdict: v.to_string() },
        );
    }
    assert_eq!(list[0].verdict.as_deref(), Some("{\"ok\":2}"));
}

#[test]
fn non_object_announcement_is_never_updated() {
    let mut list = Vec::new();
    process_auction_message(
        &mut list,
        &BridgeMessage::AnnounceAuction {
            auction_id: String::new(),
            announcement: "5".to_string(),
            is_object: false,
        },
    );
    process_auction_message(&mut list, &commit("", "alice", "c1"));
    process_auction_message(&mut list, &reveal_msg("", "alice", "r1"));
    process_auction_message(
        &mut list,
        &BridgeMessage::Verdict { auction_id: String::new(), verdict: "{}".to_string() },
    );
    assert_eq!(list.len(), 1);
    assert_eq!(list[0].commitments.len(), 0);
    assert!(list[0].bids.is_empty());
    assert!(list[0].verdict.is_none());
}

#[test]
fn other_messages_change_nothing() {
    let mut list = Vec::new();
    process_auction_message(&mut list, &announce("a1"));
    process_auction_message(&mut list, &BridgeMessage::Other);
    assert_eq!(ids(&list), vec!["a1"]);
}

#[test]
fn repeated_commitment_is_stored_once() {
    let mut list = Vec::new();
    process_auction_message(&mut list, &announce("a1"));
    process_auction_message(&mut list, &commit("a1", "alice", "c1"));
    process_auction_message(&mut list, &commit("a1", "alice", "c1"));
    assert_eq!(list[0].commitments.len(), 1);
    assert_eq!(list[0].commitments.get(&"alice".to_string()).map(|s| s.as_str()), Some("c1"));
}

fn snapshot(list: &Vec<CachedAuction>) -> Vec<String> {
    list.iter()
        .map(|a| {
            let commitments: Vec<String> = (0..a.commitments.len())
                .map(|i| format!("{}={}", a.commitments.key_at(i), a.commitments.value_at(i)))
                .collect();
            let bids: Vec<String> =
                a.bids.iter().map(|b| format!("{}={}", b.bidder_id, b.reveal)).collect();
            format!(
                "{}|{}|{}|{:?}|{:?}|{:?}|{:?}",
                a.auction_id, a.announcement, a.is_object, commitments, bids, a.validator_id, a.verdict
            )
        })
        .collect()
}

#[test]
fn every_message_delivered_twice_acts_once() {
    let mut list = Vec::new();
    process_auction_message(&mut list, &announce("a0"));
    process_auction_message(&mut list, &announce("a1"));
    process_auction_message(&mut list, &commit("a1", "bob", "c0"));
    process_auction_message(&mut list, &reveal_msg("a1", "bob", "r0"));
    let messages = vec![
        announce("a1"),
        commit("a1", "alice", "c1"),
        reveal_msg("a1", "alice", "r1"),
        BridgeMessage::IntentToValidate {
            auction_id: "a1".to_string(),
            validator_id: Some("\"v1\"".to_string()),
        },
        BridgeMessage::IntentToValidate { auction_id: "a0".to_string(), validator_id: None },
        BridgeMessage::Verdict { auction_id: "a1".to_string(), verdict: "{\"ok\":1}".to_string() },
        BridgeMessage::Other,
    ];
    for m in messages.iter() {
        process_auction_message(&mut list, m);
        let once = snapshot(&list);
        process_auction_message(&mut list, m);
        assert_eq!(snapshot(&list), once);
    }
    assert_eq!(ids(&list), vec!["a0", "a1"]);
    assert_eq!(list[1].bids.len(), 1);
    assert_eq!(list[1].validator_id.as_deref(), Some("\"v1\""));
}

fn body(id: Option<&str>, json: &str) -> MessageBody {
    MessageBody {
        auction_id: id.map(|s| s.to_string()),
        bidder_id: Some("alice".to_string()),
        commitment: None,
        json_text: json.to_string(),
        is_object: true,
        validator_id: None,
    }
}

#[test]
fn first_message_kind_present_wins() {
    let m = message_from_mesh(MeshMessage {
        announce: None,
        commit: Some(body(Some("a1"), "{}")),
        reveal: Some(body(Some("a2"), "{}")),
        intent: None,
        verdict: Some(body(Some("a3"), "{}")),
    });
    match m {
        BridgeMessage::Commit { auction_id, bidder_id, commitment } => {
            assert_eq!(auction_id, "a1");
            assert_eq!(bidder_id, "alice");
            assert_eq!(commitment, "");
        }
        _ => panic!("expected a commitment"),
    }
    let v = message_from_mesh(MeshMessage {
        announce: None,
        commit: None,
        reveal: None,
        intent: None,
        verdict: Some(body(None, "{\"ok\":1}")),
    });
    match v {
        BridgeMessage::Verdict { auction_id, verdict } => {
            assert_eq!(auction_id, "");
            assert_eq!(verdict, "{\"ok\":1}");
        }
        _ => panic!("expected a verdict"),
    }
    let o = message_from_mesh(MeshMessage {
        announce: None,
        commit: None,
        reveal: None,
        intent: None,
        verdict: None,
    });
    assert!(matches!(o, BridgeMessage::Other));
}
