//! The gateway's cache of auctions seen on the gossip mesh.
//!
//! Five kinds of messages reach the gateway: an auction announcement, a bid
//! commitment, a bid reveal, a validator's intent to validate and a verdict.
//! The cache keeps, per announced auction, the announcement itself, the
//! commitments by bidder, the latest reveal of each bidder, the first
//! validator and the latest verdict.  Announcements and message payloads are
//! kept as JSON text; an announcement that is not a JSON object is cached
//! as it came and never updated.

use vstd::prelude::*;

use crate::idmap::{insert_entry, key_index, lemma_key_index, IdMap};

verus! {

/// A message from the mesh, with the fields the cache reads.  Absent text
/// fields read as the empty string.
pub enum BridgeMessage {
    /// A new auction; `announcement` is its JSON text.
    AnnounceAuction { auction_id: String, announcement: String, is_object: bool },
    /// `bidder_id` committed to a bid with the hex text `commitment`.
    Commit { auction_id: String, bidder_id: String, commitment: String },
    /// `bidder_id` revealed its bid; `reveal` is the reveal's JSON text.
    Reveal { auction_id: String, bidder_id: String, reveal: String },
    /// A validator announces itself; `validator_id` is the JSON text of the
    /// validator field, `None` when it is absent or null.
    IntentToValidate { auction_id: String, validator_id: Option<String> },
    /// The verdict on an auction; `verdict` is the verdict's JSON text.
    Verdict { auction_id: String, verdict: String },
    /// Anything else.
    Other,
}

/// The body of one message kind as read from the mesh: its text fields
/// (`None` when absent or not text), its JSON text and whether it is a JSON
/// object, and the JSON text of its validator field (`None` when absent or
/// null).
pub struct MessageBody {
    pub auction_id: Option<String>,
    pub bidder_id: Option<String>,
    pub commitment: Option<String>,
    pub json_text: String,
    pub is_object: bool,
    pub validator_id: Option<String>,
}

/// A message from the mesh as read: the body under each known kind's key,
/// when that key is present.
pub struct MeshMessage {
    pub announce: Option<MessageBody>,
    pub commit: Option<MessageBody>,
    pub reveal: Option<MessageBody>,
    pub intent: Option<MessageBody>,
    pub verdict: Option<MessageBody>,
}

/// An optional text, with absence read as the empty text.
pub open spec fn text_or_empty(o: Option<String>) -> Seq<char> {
    match o {
        Some(t) => t@,
        None => Seq::empty(),
    }
}

/// What the cache reads of a message from the body of its kind.
pub open spec fn message_of_body(kind: int, b: MessageBody) -> MessageView {
    if kind == 0 {
        MessageView::AnnounceAuction {
            auction_id: text_or_empty(b.auction_id),
            announcement: b.json_text@,
            is_object: b.is_object,
        }
    } else if kind == 1 {
        MessageView::Commit {
            auction_id: text_or_empty(b.auction_id),
            bidder_id: text_or_empty(b.bidder_id),
            commitment: text_or_empty(b.commitment),
        }
    } else if kind == 2 {
        MessageView::Reveal {
            auction_id: text_or_empty(b.auction_id),
            bidder_id: text_or_empty(b.bidder_id),
            reveal: b.json_text@,
        }
    } else if kind == 3 {
        MessageView::IntentToValidate {
            auction_id: text_or_empty(b.auction_id),
            validator_id: opt_text(b.validator_id),
        }
    } else {
        MessageView::Verdict { auction_id: text_or_empty(b.auction_id), verdict: b.json_text@ }
    }
}

/// What the cache reads of a message: the first kind present, in the order
/// announcement, commitment, reveal, intent, verdict, wins; a message with
/// none of them is `Other`.
pub open spec fn message_of(m: MeshMessage) -> MessageView {
    match m.announce {
        Some(b) => message_of_body(0, b),
        None => match m.commit {
            Some(b) => message_of_body(1, b),
            None => match m.reveal {
                Some(b) => message_of_body(2, b),
                None => match m.intent {
                    Some(b) => message_of_body(3, b),
                    None => match m.verdict {
                        Some(b) => message_of_body(4, b),
                        None => MessageView::Other,
                    },
                },
            },
        },
    }
}

/// An optional text, with absence read as the empty text.
fn take_text(o: Option<String>) -> (t: String)
    ensures
        t@ == text_or_empty(o),
{
    match o {
        Some(t) => t,
        None => String::new(),
    }
}

/// Reads a message from the mesh (see `message_of`).
pub fn message_from_mesh(m: MeshMessage) -> (msg: BridgeMessage)
    ensures
        msg@ == message_of(m),
{
    let MeshMessage { announce, commit, reveal, intent, verdict } = m;
    if let Some(b) = announce {
        BridgeMessage::AnnounceAuction {
            auction_id: take_text(b.auction_id),
            announcement: b.json_text,
            is_object: b.is_object,
        }
    } else if let Some(b) = commit {
        BridgeMessage::Commit {
            auction_id: take_text(b.auction_id),
            bidder_id: take_text(b.bidder_id),
            commitment: take_text(b.commitment),
        }
    } else if let Some(b) = reveal {
        BridgeMessage::Reveal {
            auction_id: take_text(b.auction_id),
            bidder_id: take_text(b.bidder_id),
            reveal: b.json_text,
        }
    } else if let Some(b) = intent {
        BridgeMessage::IntentToValidate {
            auction_id: take_text(b.auction_id),
            validator_id: b.validator_id,
        }
    } else if let Some(b) = verdict {
        BridgeMessage::Verdict { auction_id: take_text(b.auction_id), verdict: b.json_text }
    } else {
        BridgeMessage::Other
    }
}

/// The latest reveal of one bidder.
pub struct RevealedBid {
    pub bidder_id: String,
    pub reveal: String,
}

/// One cached auction.
pub struct CachedAuction {
    pub auction_id: String,
    pub announcement: String,
    pub is_object: bool,
    pub commitments: IdMap<String>,
    pub bids: Vec<RevealedBid>,
    pub validator_id: Option<String>,
    pub verdict: Option<String>,
}

/// A message, as text.
pub enum MessageView {
    AnnounceAuction { auction_id: Seq<char>, announcement: Seq<char>, is_object: bool },
    Commit { auction_id: Seq<char>, bidder_id: Seq<char>, commitment: Seq<char> },
    Reveal { auction_id: Seq<char>, bidder_id: Seq<char>, reveal: Seq<char> },
    IntentToValidate { auction_id: Seq<char>, validator_id: Option<Seq<char>> },
    Verdict { auction_id: Seq<char>, verdict: Seq<char> },
    Other,
}

/// A cached auction, as text.
pub struct CachedAuctionView {
    pub auction_id: Seq<char>,
    pub announcement: Seq<char>,
    pub is_object: bool,
    pub commitments: Seq<(Seq<char>, Seq<char>)>,
    pub bids: Seq<(Seq<char>, Seq<char>)>,
    pub validator_id: Option<Seq<char>>,
    pub verdict: Option<Seq<char>>,
}

/// The text of an optional string.
pub open spec fn opt_text(s: Option<String>) -> Option<Seq<char>> {
    match s {
        Some(t) => Some(t@),
        None => None,
    }
}

impl View for BridgeMessage {
    type V = MessageView;

    open spec fn view(&self) -> MessageView {
        match self {
            BridgeMessage::AnnounceAuction { auction_id, announcement, is_object } => {
                MessageView::AnnounceAuction {
                    auction_id: auction_id@,
                    announcement: announcement@,
                    is_object: *is_object,
                }
            },
            BridgeMessage::Commit { auction_id, bidder_id, commitment } => MessageView::Commit {
                auction_id: auction_id@,
                bidder_id: bidder_id@,
                commitment: commitment@,
            },
            BridgeMessage::Reveal { auction_id, bidder_id, reveal } => MessageView::Reveal {
                auction_id: auction_id@,
                bidder_id: bidder_id@,
                reveal: reveal@,
            },
            BridgeMessage::IntentToValidate { auction_id, validator_id } => {
                MessageView::IntentToValidate {
                    auction_id: auction_id@,
                    validator_id: opt_text(*validator_id),
                }
            },
            BridgeMessage::Verdict { auction_id, verdict } => MessageView::Verdict {
                auction_id: auction_id@,
                verdict: verdict@,
            },
            BridgeMessage::Other => MessageView::Other,
        }
    }
}

/// The texts of stored commitments.
pub open spec fn commitment_texts(s: Seq<(Seq<char>, String)>) -> Seq<(Seq<char>, Seq<char>)> {
    s.map_values(|e: (Seq<char>, String)| (e.0, e.1@))
}

/// The texts of revealed bids.
pub open spec fn bid_texts(s: Seq<RevealedBid>) -> Seq<(Seq<char>, Seq<char>)> {
    s.map_values(|b: RevealedBid| (b.bidder_id@, b.reveal@))
}

impl View for CachedAuction {
    type V = CachedAuctionView;

    open spec fn view(&self) -> CachedAuctionView {
        CachedAuctionView {
            auction_id: self.auction_id@,
            announcement: self.announcement@,
            is_object: self.is_object,
            commitments: commitment_texts(self.commitments@),
            bids: bid_texts(self.bids@),
            validator_id: opt_text(self.validator_id),
            verdict: opt_text(self.verdict),
        }
    }
}

/// The views of the cached auctions.
pub open spec fn cache_view(list: Seq<CachedAuction>) -> Seq<CachedAuctionView> {
    list.map_values(|c: CachedAuction| c@)
}

/// The cache without the auctions with id `id`.
pub open spec fn without_auction(list: Seq<CachedAuctionView>, id: Seq<char>) -> Seq<CachedAuctionView>
    decreases list.len(),
{
    if list.len() == 0 {
        list
    } else {
        let r = without_auction(list.drop_last(), id);
        if list.last().auction_id == id {
            r
        } else {
            r.push(list.last())
        }
    }
}

/// The reveals without those of `bidder`.
pub open spec fn without_bidder(bids: Seq<(Seq<char>, Seq<char>)>, bidder: Seq<char>) -> Seq<(Seq<char>, Seq<char>)>
    decreases bids.len(),
{
    if bids.len() == 0 {
        bids
    } else {
        let r = without_bidder(bids.drop_last(), bidder);
        if bids.last().0 == bidder {
            r
        } else {
            r.push(bids.last())
        }
    }
}

/// A freshly announced auction: nothing committed, revealed or validated yet.
pub open spec fn announced(id: Seq<char>, announcement: Seq<char>, is_object: bool) -> CachedAuctionView {
    CachedAuctionView {
        auction_id: id,
        announcement,
        is_object,
        commitments: Seq::empty(),
        bids: Seq::empty(),
        validator_id: None,
        verdict: None,
    }
}

/// Whether a message about auction `id` applies to the cached auction `e`:
/// the ids match and the announcement is a JSON object.
pub open spec fn addresses(e: CachedAuctionView, id: Seq<char>) -> bool {
    e.auction_id == id && e.is_object
}

/// What a commitment, reveal, intent or verdict does to one cached auction.
pub open spec fn update_entry(e: CachedAuctionView, msg: MessageView) -> CachedAuctionView {
    match msg {
        MessageView::Commit { auction_id, bidder_id, commitment } => if addresses(e, auction_id) {
            CachedAuctionView { commitments: insert_entry(e.commitments, bidder_id, commitment), ..e }
        } else {
            e
        },
        MessageView::Reveal { auction_id, bidder_id, reveal } => if addresses(e, auction_id) {
            CachedAuctionView { bids: without_bidder(e.bids, bidder_id).push((bidder_id, reveal)), ..e }
        } else {
            e
        },
        MessageView::IntentToValidate { auction_id, validator_id } => if addresses(e, auction_id)
            && e.validator_id is None {
            CachedAuctionView { validator_id, ..e }
        } else {
            e
        },
        MessageView::Verdict { auction_id, verdict } => if addresses(e, auction_id) {
            CachedAuctionView { verdict: Some(verdict), ..e }
        } else {
            e
        },
        _ => e,
    }
}

/// The cache after a message: an announcement replaces any auction with its
/// id by a fresh one at the end; other messages update the auctions they
/// address, in place.
pub open spec fn apply_message(list: Seq<CachedAuctionView>, msg: MessageView) -> Seq<CachedAuctionView> {
    match msg {
        MessageView::AnnounceAuction { auction_id, announcement, is_object } => without_auction(
            list,
            auction_id,
        ).push(announced(auction_id, announcement, is_object)),
        MessageView::Other => list,
        _ => list.map_values(|e: CachedAuctionView| update_entry(e, msg)),
    }
}

/// Mapping stored strings to their texts keeps the keys where they were.
proof fn lemma_commitment_texts_key_index(s: Seq<(Seq<char>, String)>, k: Seq<char>)
    ensures
        key_index(commitment_texts(s), k) == key_index(s, k),
    decreases s.len(),
{
    if s.len() > 0 {
        assert(commitment_texts(s).drop_first() == commitment_texts(s.drop_first()));
        lemma_commitment_texts_key_index(s.drop_first(), k);
    }
}

/// Storing a commitment and then reading texts is reading texts and then
/// storing the commitment's text.
proof fn lemma_commitment_texts_insert(s: Seq<(Seq<char>, String)>, k: Seq<char>, v: String)
    ensures
        commitment_texts(insert_entry(s, k, v)) == insert_entry(commitment_texts(s), k, v@),
{
    lemma_commitment_texts_key_index(s, k);
    lemma_key_index(s, k);
    let t = commitment_texts(s);
    if key_index(s, k) < s.len() {
        assert(commitment_texts(s.update(key_index(s, k), (k, v))) =~= t.update(
            key_index(t, k),
            (k, v@),
        ));
    } else {
        assert(commitment_texts(s.push((k, v))) =~= t.push((k, v@)));
    }
}

/// Drops the reveals of `bidder`.
fn drop_bidder(bids: &mut Vec<RevealedBid>, bidder: &String)
    ensures
        bid_texts(final(bids)@) == without_bidder(bid_texts(old(bids)@), bidder@),
{
    let mut rest: Vec<RevealedBid> = Vec::new();
    std::mem::swap(&mut rest, bids);
    let ghost orig = rest@;
    let n = rest.len();
    let mut i: usize = 0;
    while i < n
        invariant
            n == orig.len(),
            i <= n,
            rest@ == orig.skip(i as int),
            bid_texts(bids@) == without_bidder(bid_texts(orig.take(i as int)), bidder@),
        decreases n - i,
    {
        assert(bid_texts(orig.take(i + 1)).drop_last() == bid_texts(orig.take(i as int)));
        assert(bid_texts(orig.take(i + 1)).last() == (orig[i as int].bidder_id@, orig[i as int].reveal@));
        let b = rest.remove(0);
        assert(rest@ =~= orig.skip(i + 1));
        if !(b.bidder_id == *bidder) {
            let ghost before = bid_texts(bids@);
            bids.push(b);
            assert(bid_texts(bids@) =~= before.push((orig[i as int].bidder_id@, orig[i as int].reveal@)));
        }
        i = i + 1;
    }
    assert(orig.take(n as int) == orig);
}

/// Applies a commitment, reveal, intent or verdict to one cached auction.
fn update_cached(entry: &mut CachedAuction, message: &BridgeMessage)
    ensures
        final(entry)@ == update_entry(old(entry)@, message@),
{
    match message {
        BridgeMessage::Commit { auction_id, bidder_id, commitment } => {
            if entry.auction_id == *auction_id && entry.is_object {
                proof {
                    lemma_commitment_texts_insert(entry.commitments@, bidder_id@, *commitment);
                }
                entry.commitments.insert(bidder_id.clone(), commitment.clone());
            }
        },
        BridgeMessage::Reveal { auction_id, bidder_id, reveal } => {
            if entry.auction_id == *auction_id && entry.is_object {
                drop_bidder(&mut entry.bids, bidder_id);
                let ghost kept = bid_texts(entry.bids@);
                entry.bids.push(RevealedBid { bidder_id: bidder_id.clone(), reveal: reveal.clone() });
                assert(bid_texts(entry.bids@) =~= kept.push((bidder_id@, reveal@)));
            }
        },
        BridgeMessage::IntentToValidate { auction_id, validator_id } => {
            if entry.auction_id == *auction_id && entry.is_object && entry.validator_id.is_none() {
                entry.validator_id = match validator_id {
                    Some(v) => Some(v.clone()),
                    None => None,
                };
            }
        },
        BridgeMessage::Verdict { auction_id, verdict } => {
            if entry.auction_id == *auction_id && entry.is_object {
                entry.verdict = Some(verdict.clone());
            }
        },
        _ => {},
    }
}

/// Drops the cached auctions with id `id`, keeping the others in order.
fn drop_auction(list: &mut Vec<CachedAuction>, id: &String)
    ensures
        cache_view(final(list)@) == without_auction(cache_view(old(list)@), id@),
{
    let mut rest: Vec<CachedAuction> = Vec::new();
    std::mem::swap(&mut rest, list);
    let ghost orig = rest@;
    let n = rest.len();
    let mut i: usize = 0;
    while i < n
        invariant
            n == orig.len(),
            i <= n,
            rest@ == orig.skip(i as int),
            cache_view(list@) == without_auction(cache_view(orig.take(i as int)), id@),
        decreases n - i,
    {
        assert(cache_view(orig.take(i + 1)).drop_last() == cache_view(orig.take(i as int)));
        assert(cache_view(orig.take(i + 1)).last() == orig[i as int]@);
        let c = rest.remove(0);
        assert(rest@ =~= orig.skip(i + 1));
        if !(c.auction_id == *id) {
            let ghost before = cache_view(list@);
            list.push(c);
            assert(cache_view(list@) =~= before.push(orig[i as int]@));
        }
        i = i + 1;
    }
    assert(orig.take(n as int) == orig);
}

/// Applies a commitment, reveal, intent or verdict to every cached auction.
fn update_all(list: &mut Vec<CachedAuction>, message: &BridgeMessage)
    ensures
        cache_view(final(list)@) == cache_view(old(list)@).map_values(
            |e: CachedAuctionView| update_entry(e, message@),
        ),
{
    let mut rest: Vec<CachedAuction> = Vec::new();
    std::mem::swap(&mut rest, list);
    let ghost orig = rest@;
    let n = rest.len();
    let mut i: usize = 0;
    while i < n
        invariant
            n == orig.len(),
            i <= n,
            rest@ == orig.skip(i as int),
            cache_view(list@) == cache_view(orig.take(i as int)).map_values(
                |e: CachedAuctionView| update_entry(e, message@),
            ),
        decreases n - i,
    {
        let mut c = rest.remove(0);
        assert(rest@ =~= orig.skip(i + 1));
        assert(c == orig[i as int]);
        update_cached(&mut c, message);
        let ghost before = cache_view(list@);
        let ghost cv = c@;
        assert(cv == update_entry(orig[i as int]@, message@));
        list.push(c);
        assert(cache_view(list@) =~= before.push(cv));
        assert(cache_view(orig.take(i + 1)) =~= cache_view(orig.take(i as int)).push(orig[i as int]@));
        assert(cache_view(orig.take(i + 1)).map_values(
            |e: CachedAuctionView| update_entry(e, message@),
        ) =~= before.push(cv));
        i = i + 1;
    }
    assert(orig.take(n as int) == orig);
}

/// Applies one message from the mesh to the cache (see `apply_message`).
pub fn process_auction_message(active_auctions: &mut Vec<CachedAuction>, message: &BridgeMessage)
    ensures
        cache_view(final(active_auctions)@) == apply_message(cache_view(old(active_auctions)@), message@),
{
    match message {
        BridgeMessage::AnnounceAuction { auction_id, announcement, is_object } => {
            drop_auction(active_auctions, auction_id);
            let fresh = CachedAuction {
                auction_id: auction_id.clone(),
                announcement: announcement.clone(),
                is_object: *is_object,
                commitments: IdMap::new(),
                bids: Vec::new(),
                validator_id: None,
                verdict: None,
            };
            let ghost before = cache_view(active_auctions@);
            active_auctions.push(fresh);
            assert(fresh@.commitments =~= Seq::<(Seq<char>, Seq<char>)>::empty());
            assert(fresh@.bids =~= Seq::<(Seq<char>, Seq<char>)>::empty());
            assert(fresh@ == announced(auction_id@, announcement@, *is_object));
            assert(cache_view(active_auctions@) =~= before.push(fresh@));
        },
        BridgeMessage::Other => {},
        _ => {
            update_all(active_auctions, message);
        },
    }
}

/// No two cached auctions share an id.
pub open spec fn distinct_auction_ids(list: Seq<CachedAuctionView>) -> bool {
    forall|i: int, j: int| 0 <= i < j < list.len() ==> list[i].auction_id != list[j].auction_id
}

/// Dropping the auctions with an id keeps the others, in order, and no
/// auction with that id remains.
proof fn lemma_without_auction(list: Seq<CachedAuctionView>, id: Seq<char>)
    ensures
        forall|k: int|
            0 <= k < without_auction(list, id).len() ==> #[trigger] without_auction(list, id)[k].auction_id
                != id && list.contains(without_auction(list, id)[k]),
        distinct_auction_ids(list) ==> distinct_auction_ids(without_auction(list, id)),
    decreases list.len(),
{
    if list.len() > 0 {
        let d = list.drop_last();
        lemma_without_auction(d, id);
        let r0 = without_auction(d, id);
        let r = without_auction(list, id);
        assert forall|k: int| 0 <= k < r.len() implies #[trigger] r[k].auction_id != id && list.contains(
            r[k],
        ) by {
            if k < r0.len() {
                assert(r[k] == r0[k]);
                assert(r0[k].auction_id != id);
                let m = choose|m: int| 0 <= m < d.len() && d[m] == r0[k];
                assert(list[m] == d[m]);
            } else {
                assert(r[k] == list[list.len() - 1]);
            }
        }
        if distinct_auction_ids(list) && list.last().auction_id != id {
            assert forall|x: int, y: int| 0 <= x < y < r.len() implies r[x].auction_id != r[y].auction_id by {
                if y == r.len() - 1 {
                    assert(r[x] == r0[x]);
                    assert(r0[x].auction_id != id);
                    let m = choose|m: int| 0 <= m < d.len() && d[m] == r0[x];
                    assert(list[m] == d[m]);
                } else {
                    assert(r[x] == r0[x] && r[y] == r0[y]);
                }
            }
        }
    }
}

/// Cached auction ids stay distinct whatever message arrives.
pub proof fn law_auction_ids_stay_distinct(list: Seq<CachedAuctionView>, msg: MessageView)
    requires
        distinct_auction_ids(list),
    ensures
        distinct_auction_ids(apply_message(list, msg)),
{
    match msg {
        MessageView::AnnounceAuction { auction_id, announcement, is_object } => {
            lemma_without_auction(list, auction_id);
            let r = without_auction(list, auction_id);
            let n = apply_message(list, msg);
            assert forall|x: int, y: int| 0 <= x < y < n.len() implies n[x].auction_id != n[y].auction_id by {
                if y == n.len() - 1 {
                    assert(n[x] == r[x]);
                    assert(r[x].auction_id != auction_id);
                } else {
                    assert(n[x] == r[x] && n[y] == r[y]);
                }
            }
        },
        MessageView::Other => {},
        _ => {
            let n = apply_message(list, msg);
            assert forall|x: int, y: int| 0 <= x < y < n.len() implies n[x].auction_id != n[y].auction_id by {
                assert(n[x].auction_id == list[x].auction_id);
                assert(n[y].auction_id == list[y].auction_id);
            }
        },
    }
}

/// After an announcement, the announced auction is the last one cached, it is
/// fresh, and no other cached auction has its id.
pub proof fn law_announcement_replaces(
    list: Seq<CachedAuctionView>,
    id: Seq<char>,
    announcement: Seq<char>,
    is_object: bool,
)
    ensures
        ({
            let n = apply_message(
                list,
                MessageView::AnnounceAuction { auction_id: id, announcement, is_object },
            );
            &&& n.last() == announced(id, announcement, is_object)
            &&& forall|k: int| 0 <= k < n.len() - 1 ==> #[trigger] n[k].auction_id != id
        }),
{
    lemma_without_auction(list, id);
    let r = without_auction(list, id);
    let n = apply_message(list, MessageView::AnnounceAuction { auction_id: id, announcement, is_object });
    assert forall|k: int| 0 <= k < n.len() - 1 implies #[trigger] n[k].auction_id != id by {
        assert(n[k] == r[k]);
    }
}

/// Commitments, reveals, intents and verdicts keep the cached auctions, their
/// ids and their order.
pub proof fn law_updates_keep_auctions(list: Seq<CachedAuctionView>, msg: MessageView)
    requires
        !(msg is AnnounceAuction),
    ensures
        apply_message(list, msg).len() == list.len(),
        forall|i: int|
            0 <= i < list.len() ==> (#[trigger] apply_message(list, msg)[i]).auction_id
                == list[i].auction_id && apply_message(list, msg)[i].announcement
                == list[i].announcement,
{
}

/// Dropping a bidder's reveals leaves none of that bidder.
proof fn lemma_without_bidder(bids: Seq<(Seq<char>, Seq<char>)>, bidder: Seq<char>)
    ensures
        forall|k: int|
            0 <= k < without_bidder(bids, bidder).len() ==> (#[trigger] without_bidder(
                bids,
                bidder,
            )[k]).0 != bidder,
    decreases bids.len(),
{
    if bids.len() > 0 {
        lemma_without_bidder(bids.drop_last(), bidder);
        let r0 = without_bidder(bids.drop_last(), bidder);
        let r = without_bidder(bids, bidder);
        assert forall|k: int| 0 <= k < r.len() implies (#[trigger] r[k]).0 != bidder by {
            if k < r0.len() {
                assert(r[k] == r0[k]);
            }
        }
    }
}

/// After a reveal reaches an auction it addresses, the auction keeps exactly
/// one reveal of that bidder: the latest, at the end.
pub proof fn law_latest_reveal_kept(e: CachedAuctionView, id: Seq<char>, bidder: Seq<char>, reveal: Seq<char>)
    requires
        addresses(e, id),
    ensures
        ({
            let b = update_entry(
                e,
                MessageView::Reveal { auction_id: id, bidder_id: bidder, reveal },
            ).bids;
            &&& b.last() == (bidder, reveal)
            &&& forall|k: int| 0 <= k < b.len() - 1 ==> (#[trigger] b[k]).0 != bidder
        }),
{
    lemma_without_bidder(e.bids, bidder);
    let r = without_bidder(e.bids, bidder);
    let b = r.push((bidder, reveal));
    assert forall|k: int| 0 <= k < b.len() - 1 implies (#[trigger] b[k]).0 != bidder by {
        assert(b[k] == r[k]);
    }
}

/// The first validator stays: an intent reaching an auction that already
/// has a validator changes nothing.
pub proof fn law_first_validator_stays(e: CachedAuctionView, id: Seq<char>, validator: Option<Seq<char>>)
    requires
        e.validator_id is Some,
    ensures
        update_entry(e, MessageView::IntentToValidate { auction_id: id, validator_id: validator }) == e,
{
}

/// Delivering the same commitment twice has the effect of delivering it once.
pub proof fn law_commit_idempotent(e: CachedAuctionView, id: Seq<char>, bidder: Seq<char>, commitment: Seq<char>)
    ensures
        ({
            let m = MessageView::Commit { auction_id: id, bidder_id: bidder, commitment };
            update_entry(update_entry(e, m), m) == update_entry(e, m)
        }),
{
    let m = MessageView::Commit { auction_id: id, bidder_id: bidder, commitment };
    if addresses(e, id) {
        let c = e.commitments;
        lemma_key_index(c, bidder);
        let c1 = insert_entry(c, bidder, commitment);
        lemma_key_index(c1, bidder);
        if key_index(c, bidder) < c.len() {
            assert(c1[key_index(c, bidder)].0 == bidder);
            assert forall|j: int| 0 <= j < key_index(c, bidder) implies c1[j].0 != bidder by {
                assert(c1[j] == c[j]);
            }
            assert(key_index(c1, bidder) == key_index(c, bidder));
            assert(insert_entry(c1, bidder, commitment) =~= c1);
        } else {
            assert(c1[c.len() as int].0 == bidder);
            assert forall|j: int| 0 <= j < c.len() implies c1[j].0 != bidder by {
                assert(c1[j] == c[j]);
            }
            assert(key_index(c1, bidder) == c.len()) by {
                if key_index(c1, bidder) < c.len() {
                    assert(c1[key_index(c1, bidder)].0 == bidder);
                }
            }
            assert(insert_entry(c1, bidder, commitment) =~= c1);
        }
    }
}


/// Dropping the auctions with an id that no cached auction has changes nothing.
proof fn lemma_without_auction_absent(list: Seq<CachedAuctionView>, id: Seq<char>)
    requires
        forall|k: int| 0 <= k < list.len() ==> (#[trigger] list[k]).auction_id != id,
    ensures
        without_auction(list, id) == list,
    decreases list.len(),
{
    if list.len() > 0 {
        let d = list.drop_last();
        assert forall|k: int| 0 <= k < d.len() implies (#[trigger] d[k]).auction_id != id by {
            assert(d[k] == list[k]);
        }
        lemma_without_auction_absent(d, id);
        assert(list.last() == list[list.len() - 1]);
        assert(d.push(list.last()) =~= list);
    }
}

/// Dropping the reveals of a bidder who has none changes nothing.
proof fn lemma_without_bidder_absent(bids: Seq<(Seq<char>, Seq<char>)>, bidder: Seq<char>)
    requires
        forall|k: int| 0 <= k < bids.len() ==> (#[trigger] bids[k]).0 != bidder,
    ensures
        without_bidder(bids, bidder) == bids,
    decreases bids.len(),
{
    if bids.len() > 0 {
        let d = bids.drop_last();
        assert forall|k: int| 0 <= k < d.len() implies (#[trigger] d[k]).0 != bidder by {
            assert(d[k] == bids[k]);
        }
        lemma_without_bidder_absent(d, bidder);
        assert(bids.last() == bids[bids.len() - 1]);
        assert(d.push(bids.last()) =~= bids);
    }
}

/// A commitment, reveal, intent or verdict applied twice to one cached
/// auction has the effect of applying it once.
proof fn lemma_update_entry_idempotent(e: CachedAuctionView, msg: MessageView)
    ensures
        update_entry(update_entry(e, msg), msg) == update_entry(e, msg),
{
    match msg {
        MessageView::Commit { auction_id, bidder_id, commitment } => {
            law_commit_idempotent(e, auction_id, bidder_id, commitment);
        },
        MessageView::Reveal { auction_id, bidder_id, reveal } => {
            if addresses(e, auction_id) {
                let r = without_bidder(e.bids, bidder_id);
                let b1 = r.push((bidder_id, reveal));
                lemma_without_bidder(e.bids, bidder_id);
                lemma_without_bidder_absent(r, bidder_id);
                assert(b1.drop_last() =~= r);
                assert(without_bidder(b1, bidder_id) == r);
            }
        },
        _ => {},
    }
}

/// Delivering any message twice leaves the cache as delivering it once: a
/// message that the mesh repeats changes nothing more.
pub proof fn law_message_idempotent(list: Seq<CachedAuctionView>, msg: MessageView)
    ensures
        apply_message(apply_message(list, msg), msg) == apply_message(list, msg),
{
    match msg {
        MessageView::AnnounceAuction { auction_id, announcement, is_object } => {
            let r = without_auction(list, auction_id);
            let n = r.push(announced(auction_id, announcement, is_object));
            lemma_without_auction(list, auction_id);
            lemma_without_auction_absent(r, auction_id);
            assert(n.drop_last() =~= r);
            assert(without_auction(n, auction_id) == r);
        },
        MessageView::Other => {},
        _ => {
            let once = apply_message(list, msg);
            let twice = apply_message(once, msg);
            assert forall|i: int| 0 <= i < list.len() implies #[trigger] twice[i] == once[i] by {
                lemma_update_entry_idempotent(list[i], msg);
            }
            assert(twice =~= once);
        },
    }
}

/// The auction a commitment, reveal, intent or verdict names (empty for
/// other messages).
pub open spec fn named_auction(msg: MessageView) -> Seq<char> {
    match msg {
        MessageView::AnnounceAuction { auction_id, .. } => auction_id,
        MessageView::Commit { auction_id, .. } => auction_id,
        MessageView::Reveal { auction_id, .. } => auction_id,
        MessageView::IntentToValidate { auction_id, .. } => auction_id,
        MessageView::Verdict { auction_id, .. } => auction_id,
        MessageView::Other => Seq::empty(),
    }
}

/// A commitment, reveal, intent or verdict that names auction `X` leaves
/// every cached auction whose id is not `X` exactly as it was.
pub proof fn law_update_touches_only_named_auction(list: Seq<CachedAuctionView>, msg: MessageView)
    requires
        !(msg is AnnounceAuction),
    ensures
        apply_message(list, msg).len() == list.len(),
        forall|i: int|
            0 <= i < list.len() && list[i].auction_id != named_auction(msg) ==> #[trigger] apply_message(
                list,
                msg,
            )[i] == list[i],
{
}

} // verus!
