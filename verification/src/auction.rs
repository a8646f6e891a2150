//! Sealed-bid auctions: state, the second-price resolution rule and the
//! hash-based tie-breaker.

use vstd::prelude::*;
use vstd::bytes::{spec_u64_from_le_bytes, u64_from_le_bytes};
use vstd::slice::slice_subrange;

use vstd::string::StrSliceExecFns;

use crate::hashing::{sha256_digest, spec_sha256};
use crate::platform::{fill_random, gen_range_inclusive, thread_rng, unix_time_secs};
use crate::idmap::{has_key, key_index, keys_distinct, lemma_key_index, lookup, IdMap};

verus! {

/// The texts of a sequence of strings.
pub open spec fn texts(v: Seq<String>) -> Seq<Seq<char>> {
    v.map_values(|s: String| s@)
}

/// Peers that committed but did not reveal a verified bid, in commitment order.
pub open spec fn unrevealed<V, W>(commitments: Seq<(Seq<char>, V)>, bids: Seq<(Seq<char>, W)>) -> Seq<Seq<char>>
    decreases commitments.len(),
{
    if commitments.len() == 0 {
        Seq::empty()
    } else {
        let r = unrevealed(commitments.drop_last(), bids);
        if has_key(bids, commitments.last().0) {
            r
        } else {
            r.push(commitments.last().0)
        }
    }
}

/// The bids that meet the reserve price, in order.
pub open spec fn valid_bids(bids: Seq<(Seq<char>, u64)>, reserve: u64) -> Seq<(Seq<char>, u64)>
    decreases bids.len(),
{
    if bids.len() == 0 {
        bids
    } else {
        let r = valid_bids(bids.drop_last(), reserve);
        if bids.last().1 >= reserve {
            r.push(bids.last())
        } else {
            r
        }
    }
}

/// The highest bid (0 when there is none).
pub open spec fn max_bid(bids: Seq<(Seq<char>, u64)>) -> u64
    decreases bids.len(),
{
    if bids.len() == 0 {
        0
    } else {
        let m = max_bid(bids.drop_last());
        if bids.last().1 > m {
            bids.last().1
        } else {
            m
        }
    }
}

/// The ids that bid exactly `amount`, in order.
pub open spec fn ids_bidding(bids: Seq<(Seq<char>, u64)>, amount: u64) -> Seq<Seq<char>>
    decreases bids.len(),
{
    if bids.len() == 0 {
        Seq::empty()
    } else {
        let r = ids_bidding(bids.drop_last(), amount);
        if bids.last().1 == amount {
            r.push(bids.last().0)
        } else {
            r
        }
    }
}

/// The highest bid of anyone but `id`, if anyone else bid.
pub open spec fn max_bid_excluding(bids: Seq<(Seq<char>, u64)>, id: Seq<char>) -> Option<u64>
    decreases bids.len(),
{
    if bids.len() == 0 {
        None
    } else {
        let m = max_bid_excluding(bids.drop_last(), id);
        if bids.last().0 == id {
            m
        } else {
            match m {
                None => Some(bids.last().1),
                Some(x) => Some(
                    if bids.last().1 > x {
                        bids.last().1
                    } else {
                        x
                    },
                ),
            }
        }
    }
}

/// Thirty-two zero bytes.
pub open spec fn zero_nonce() -> Seq<u8> {
    Seq::new(32, |i: int| 0u8)
}

/// Bytewise exclusive or.
pub open spec fn xor_bytes(a: Seq<u8>, b: Seq<u8>) -> Seq<u8> {
    Seq::new(a.len(), |i: int| a[i] ^ b[i])
}

/// Exclusive or of the revealed nonces of `ids` (ids without a nonce add nothing).
pub open spec fn xor_nonces(ids: Seq<Seq<char>>, nonces: Seq<(Seq<char>, [u8; 32])>) -> Seq<u8>
    decreases ids.len(),
{
    if ids.len() == 0 {
        zero_nonce()
    } else {
        let acc = xor_nonces(ids.drop_last(), nonces);
        match lookup(nonces, ids.last()) {
            Some(n) => xor_bytes(acc, n@),
            None => acc,
        }
    }
}

/// The revealed nonce of `id`, or zeros.
pub open spec fn nonce_or_zero(nonces: Seq<(Seq<char>, [u8; 32])>, id: Seq<char>) -> Seq<u8> {
    match lookup(nonces, id) {
        Some(n) => n@,
        None => zero_nonce(),
    }
}

/// Tie-break score: the first eight bytes of `SHA-256(nonce ‖ combined)`, little-endian.
pub open spec fn tie_score(nonce: Seq<u8>, combined: Seq<u8>) -> u64 {
    spec_u64_from_le_bytes(spec_sha256(nonce + combined).subrange(0, 8))
}

/// Scanning `ids` in order from the pair (`first`, 0): an id replaces the
/// current pick when its score is strictly higher than the best score so far.
pub open spec fn tie_break(
    first: Seq<char>,
    ids: Seq<Seq<char>>,
    nonces: Seq<(Seq<char>, [u8; 32])>,
    combined: Seq<u8>,
) -> (Seq<char>, u64)
    decreases ids.len(),
{
    if ids.len() == 0 {
        (first, 0)
    } else {
        let (best, high) = tie_break(first, ids.drop_last(), nonces, combined);
        let score = tie_score(nonce_or_zero(nonces, ids.last()), combined);
        if score > high {
            (ids.last(), score)
        } else {
            (best, high)
        }
    }
}

/// The winner among the bidders tied at the highest bid.
pub open spec fn tie_winner(tied: Seq<Seq<char>>, nonces: Seq<(Seq<char>, [u8; 32])>) -> Seq<char> {
    if tied.len() == 1 {
        tied[0]
    } else {
        tie_break(tied[0], tied, nonces, xor_nonces(tied, nonces)).0
    }
}

/// Outcome of an auction: `None` when no bid meets the reserve, otherwise
/// the winner and the clearing price, which is the highest bid of anyone else
/// who met the reserve, or the reserve price when nobody else did.
pub open spec fn resolution(
    bids: Seq<(Seq<char>, u64)>,
    nonces: Seq<(Seq<char>, [u8; 32])>,
    reserve: u64,
) -> Option<(Seq<char>, u64)> {
    let valid = valid_bids(bids, reserve);
    if valid.len() == 0 {
        None
    } else {
        let winner = tie_winner(ids_bidding(valid, max_bid(valid)), nonces);
        let price = match max_bid_excluding(valid, winner) {
            Some(p) => p,
            None => reserve,
        };
        Some((winner, price))
    }
}

/// An auction as one peer sees it.
pub struct Auction {
    pub auction_id: String,
    pub seller_id: String,
    pub token_id: u64,
    pub reserve_price: u64,
    pub commit_deadline: u64,
    pub reveal_deadline: u64,
    pub received_commitments: IdMap<String>,
    pub verified_bids: IdMap<u64>,
    pub verified_nonces: IdMap<[u8; 32]>,
    pub resolved: bool,
    pub failed: bool,
    pub winner_id: Option<String>,
    pub clearing_price: u64,
    pub slash_list: Vec<String>,
    pub validator_id: Option<String>,
    pub verdict_received: bool,
}

/// `after` is `before` resolved: what `Auction::resolve` does to an
/// unresolved auction.
pub open spec fn resolved_from(before: Auction, after: Auction) -> bool {
    &&& after.auction_id == before.auction_id
    &&& after.seller_id == before.seller_id
    &&& after.token_id == before.token_id
    &&& after.reserve_price == before.reserve_price
    &&& after.commit_deadline == before.commit_deadline
    &&& after.reveal_deadline == before.reveal_deadline
    &&& after.received_commitments == before.received_commitments
    &&& after.verified_bids == before.verified_bids
    &&& after.verified_nonces == before.verified_nonces
    &&& after.validator_id == before.validator_id
    &&& after.verdict_received == before.verdict_received
    &&& after.resolved
    &&& texts(after.slash_list@) == texts(before.slash_list@) + unrevealed(
        before.received_commitments@,
        before.verified_bids@,
    )
    &&& match resolution(before.verified_bids@, before.verified_nonces@, before.reserve_price) {
        None => {
            &&& after.failed
            &&& after.winner_id == before.winner_id
            &&& after.clearing_price == before.clearing_price
        },
        Some((winner, price)) => {
            &&& after.failed == before.failed
            &&& after.winner_id matches Some(w) && w@ == winner
            &&& after.clearing_price == price
        },
    }
}

/// Appends to `out` the committed peers without a verified bid.
fn push_unrevealed(commitments: &IdMap<String>, bids: &IdMap<u64>, out: &mut Vec<String>)
    ensures
        texts(final(out)@) == texts(old(out)@) + unrevealed(commitments@, bids@),
{
    let n = commitments.len();
    let ghost start = texts(out@);
    let mut i: usize = 0;
    while i < n
        invariant
            n == commitments@.len(),
            i <= n,
            texts(out@) == start + unrevealed(commitments@.take(i as int), bids@),
        decreases n - i,
    {
        assert(commitments@.take(i + 1).drop_last() == commitments@.take(i as int));
        let ghost pre = commitments@.take(i + 1);
        assert(pre.last() == commitments@[i as int]);
        let peer = commitments.key_at(i);
        if !bids.contains_key(peer) {
            let ghost before = texts(out@);
            let p = peer.clone();
            out.push(p);
            assert(texts(out@) =~= before.push(peer@));
        }
        i = i + 1;
    }
    assert(commitments@.take(n as int) == commitments@);
}

/// Whether any bid meets the reserve, and the highest such bid.
fn highest_valid_bid(bids: &IdMap<u64>, reserve: u64) -> (res: (bool, u64))
    ensures
        res.0 == (valid_bids(bids@, reserve).len() > 0),
        res.1 == max_bid(valid_bids(bids@, reserve)),
{
    let n = bids.len();
    let mut any = false;
    let mut high: u64 = 0;
    let mut i: usize = 0;
    while i < n
        invariant
            n == bids@.len(),
            i <= n,
            any == (valid_bids(bids@.take(i as int), reserve).len() > 0),
            high == max_bid(valid_bids(bids@.take(i as int), reserve)),
        decreases n - i,
    {
        assert(bids@.take(i + 1).drop_last() == bids@.take(i as int));
        assert(bids@.take(i + 1).last() == bids@[i as int]);
        proof {
            lemma_valid_bids_step(bids@, reserve, i as int);
        }
        let b = *bids.value_at(i);
        if b >= reserve {
            any = true;
            if b > high {
                high = b;
            }
        }
        i = i + 1;
    }
    assert(bids@.take(n as int) == bids@);
    (any, high)
}

/// The ids whose bid meets the reserve and equals `amount`, in order.
fn bidders_at(bids: &IdMap<u64>, reserve: u64, amount: u64) -> (ids: Vec<String>)
    ensures
        texts(ids@) == ids_bidding(valid_bids(bids@, reserve), amount),
{
    let n = bids.len();
    let mut ids: Vec<String> = Vec::new();
    let mut i: usize = 0;
    while i < n
        invariant
            n == bids@.len(),
            i <= n,
            texts(ids@) == ids_bidding(valid_bids(bids@.take(i as int), reserve), amount),
        decreases n - i,
    {
        assert(bids@.take(i + 1).drop_last() == bids@.take(i as int));
        assert(bids@.take(i + 1).last() == bids@[i as int]);
        proof {
            lemma_valid_bids_step(bids@, reserve, i as int);
        }
        let b = *bids.value_at(i);
        let ghost before = texts(ids@);
        if b >= reserve && b == amount {
            let id = bids.key_at(i).clone();
            ids.push(id);
            assert(texts(ids@) =~= before.push(bids@[i as int].0));
        }
        i = i + 1;
    }
    assert(bids@.take(n as int) == bids@);
    ids
}

/// The highest bid meeting the reserve from anyone but `id`.
fn highest_bid_excluding(bids: &IdMap<u64>, reserve: u64, id: &String) -> (res: Option<u64>)
    ensures
        res == max_bid_excluding(valid_bids(bids@, reserve), id@),
{
    let n = bids.len();
    let mut best: Option<u64> = None;
    let mut i: usize = 0;
    while i < n
        invariant
            n == bids@.len(),
            i <= n,
            best == max_bid_excluding(valid_bids(bids@.take(i as int), reserve), id@),
        decreases n - i,
    {
        assert(bids@.take(i + 1).drop_last() == bids@.take(i as int));
        assert(bids@.take(i + 1).last() == bids@[i as int]);
        proof {
            lemma_valid_bids_step(bids@, reserve, i as int);
        }
        let b = *bids.value_at(i);
        if b >= reserve && !(*bids.key_at(i) == *id) {
            best = match best {
                None => Some(b),
                Some(x) => Some(if b > x { b } else { x }),
            };
        }
        i = i + 1;
    }
    assert(bids@.take(n as int) == bids@);
    best
}

/// Exclusive or of the revealed nonces of the tied bidders.
fn combined_nonce(tied: &Vec<String>, nonces: &IdMap<[u8; 32]>) -> (x: [u8; 32])
    ensures
        x@ == xor_nonces(texts(tied@), nonces@),
{
    let mut x = [0u8; 32];
    assert(x@ =~= zero_nonce());
    let mut i: usize = 0;
    while i < tied.len()
        invariant
            i <= tied@.len(),
            x@ == xor_nonces(texts(tied@).take(i as int), nonces@),
        decreases tied@.len() - i,
    {
        assert(texts(tied@).take(i + 1).drop_last() == texts(tied@).take(i as int));
        match nonces.get(&tied[i]) {
            Some(nonce) => {
                let ghost before = x@;
                let mut j: usize = 0;
                while j < 32
                    invariant
                        j <= 32,
                        before.len() == 32,
                        forall|k: int| 0 <= k < j ==> x@[k] == before[k] ^ nonce@[k],
                        forall|k: int| j <= k < 32 ==> x@[k] == before[k],
                    decreases 32 - j,
                {
                    x[j] = x[j] ^ nonce[j];
                    j = j + 1;
                }
                assert(x@ =~= xor_bytes(before, nonce@));
            },
            None => {},
        }
        i = i + 1;
    }
    assert(texts(tied@).take(tied@.len() as int) == texts(tied@));
    x
}

/// The tie-break score of a nonce against the combined nonce.
fn score(nonce: &[u8; 32], combined: &[u8; 32]) -> (s: u64)
    ensures
        s == tie_score(nonce@, combined@),
{
    let mut data: Vec<u8> = Vec::new();
    let mut i: usize = 0;
    while i < 32
        invariant
            i <= 32,
            data@ == nonce@.take(i as int),
        decreases 32 - i,
    {
        data.push(nonce[i]);
        i = i + 1;
        assert(data@ =~= nonce@.take(i as int));
    }
    let mut j: usize = 0;
    while j < 32
        invariant
            j <= 32,
            data@ == nonce@ + combined@.take(j as int),
        decreases 32 - j,
    {
        data.push(combined[j]);
        j = j + 1;
        assert(data@ =~= nonce@ + combined@.take(j as int));
    }
    assert(nonce@.take(32) =~= nonce@);
    assert(combined@.take(32) =~= combined@);
    let digest = sha256_digest(data.as_slice());
    let head = slice_subrange(digest.as_slice(), 0, 8);
    u64_from_le_bytes(head)
}

/// Index of the tie winner among `tied`: scanning in order from the first
/// bidder with score 0, a bidder wins over the current pick when its score is
/// strictly higher.
fn pick_tie_winner(tied: &Vec<String>, nonces: &IdMap<[u8; 32]>, combined: &[u8; 32]) -> (w: usize)
    requires
        tied@.len() > 0,
    ensures
        w < tied@.len(),
        tied@[w as int]@ == tie_break(texts(tied@)[0], texts(tied@), nonces@, combined@).0,
{
    let ghost ids = texts(tied@);
    let mut best: usize = 0;
    let mut high: u64 = 0;
    let mut i: usize = 0;
    while i < tied.len()
        invariant
            ids == texts(tied@),
            tied@.len() > 0,
            i <= tied@.len(),
            best < tied@.len(),
            (ids[best as int], high) == tie_break(ids[0], ids.take(i as int), nonces@, combined@),
        decreases tied@.len() - i,
    {
        assert(ids.take(i + 1).drop_last() == ids.take(i as int));
        let nonce: [u8; 32] = match nonces.get(&tied[i]) {
            Some(n) => *n,
            None => [0u8; 32],
        };
        assert(nonce@ == nonce_or_zero(nonces@, ids[i as int])) by {
            if lookup(nonces@, ids[i as int]) is None {
                assert(nonce@ =~= zero_nonce());
            }
        }
        let s = score(&nonce, combined);
        if s > high {
            high = s;
            best = i;
        }
        i = i + 1;
    }
    assert(ids.take(tied@.len() as int) == ids);
    best
}

/// One more bid either extends the valid bids by itself or leaves them alone.
proof fn lemma_valid_bids_step(bids: Seq<(Seq<char>, u64)>, reserve: u64, i: int)
    requires
        0 <= i < bids.len(),
    ensures
        bids[i].1 >= reserve ==> valid_bids(bids.take(i + 1), reserve) == valid_bids(
            bids.take(i),
            reserve,
        ).push(bids[i]),
        bids[i].1 >= reserve ==> valid_bids(bids.take(i + 1), reserve).drop_last() == valid_bids(
            bids.take(i),
            reserve,
        ),
        bids[i].1 < reserve ==> valid_bids(bids.take(i + 1), reserve) == valid_bids(
            bids.take(i),
            reserve,
        ),
{
    assert(bids.take(i + 1).drop_last() == bids.take(i));
    assert(bids.take(i + 1).last() == bids[i]);
    if bids[i].1 >= reserve {
        let v0 = valid_bids(bids.take(i), reserve);
        assert(v0.push(bids[i]).drop_last() == v0);
    }
}

/// A non-empty sequence of bids attains its highest bid.
proof fn lemma_max_bid_attained(bids: Seq<(Seq<char>, u64)>)
    requires
        bids.len() > 0,
    ensures
        ids_bidding(bids, max_bid(bids)).len() > 0,
    decreases bids.len(),
{
    let m = max_bid(bids.drop_last());
    if bids.len() == 1 {
        assert(bids.drop_last().len() == 0);
        assert(m == 0);
        assert(max_bid(bids) == bids.last().1);
    } else if bids.last().1 <= m {
        lemma_max_bid_attained(bids.drop_last());
        lemma_ids_bidding_prefix(bids, m);
    }
}

/// Bidders at an amount in a prefix are still there in the whole sequence.
proof fn lemma_ids_bidding_prefix(bids: Seq<(Seq<char>, u64)>, amount: u64)
    requires
        bids.len() > 0,
    ensures
        ids_bidding(bids, amount).len() >= ids_bidding(bids.drop_last(), amount).len(),
{
}

/// Every valid bid is one of the bids and meets the reserve; every bid that
/// meets the reserve is valid.
proof fn lemma_valid_bids_members(bids: Seq<(Seq<char>, u64)>, reserve: u64)
    ensures
        forall|k: int|
            0 <= k < valid_bids(bids, reserve).len() ==> #[trigger] valid_bids(bids, reserve)[k].1
                >= reserve && bids.contains(valid_bids(bids, reserve)[k]),
        forall|i: int|
            0 <= i < bids.len() && #[trigger] bids[i].1 >= reserve ==> valid_bids(
                bids,
                reserve,
            ).contains(bids[i]),
    decreases bids.len(),
{
    if bids.len() > 0 {
        let d = bids.drop_last();
        lemma_valid_bids_members(d, reserve);
        let v = valid_bids(bids, reserve);
        let v0 = valid_bids(d, reserve);
        assert forall|k: int| 0 <= k < v.len() implies #[trigger] v[k].1 >= reserve && bids.contains(
            v[k],
        ) by {
            if k < v0.len() {
                assert(v[k] == v0[k]);
                assert(v0[k].1 >= reserve);
                let j = choose|j: int| 0 <= j < d.len() && d[j] == v0[k];
                assert(bids[j] == d[j]);
            } else {
                assert(v[k] == bids[bids.len() - 1]);
            }
        }
        assert forall|i: int| 0 <= i < bids.len() && #[trigger] bids[i].1 >= reserve implies v.contains(
            bids[i],
        ) by {
            if i < bids.len() - 1 {
                assert(d[i] == bids[i]);
                assert(d[i].1 >= reserve);
                let k = choose|k: int| 0 <= k < v0.len() && v0[k] == d[i];
                if bids.last().1 >= reserve {
                    assert(v[k] == v0[k]);
                }
            } else {
                assert(v[v.len() - 1] == bids[i]);
            }
        }
    }
}

/// No valid bid is above the highest one, and a non-empty sequence attains it.
proof fn lemma_max_bid_bounds(bids: Seq<(Seq<char>, u64)>)
    ensures
        forall|k: int| 0 <= k < bids.len() ==> #[trigger] bids[k].1 <= max_bid(bids),
        bids.len() > 0 ==> exists|k: int| 0 <= k < bids.len() && #[trigger] bids[k].1 == max_bid(bids),
    decreases bids.len(),
{
    if bids.len() > 0 {
        let d = bids.drop_last();
        lemma_max_bid_bounds(d);
        assert forall|k: int| 0 <= k < bids.len() implies #[trigger] bids[k].1 <= max_bid(bids) by {
            if k < d.len() {
                assert(bids[k] == d[k]);
            }
        }
        if bids.last().1 > max_bid(d) || d.len() == 0 {
            assert(bids[bids.len() - 1].1 == max_bid(bids));
        } else {
            let k = choose|k: int| 0 <= k < d.len() && #[trigger] d[k].1 == max_bid(d);
            assert(bids[k] == d[k]);
        }
    }
}

/// Ids bidding an amount are the ids of entries with that bid.
proof fn lemma_ids_bidding_members(bids: Seq<(Seq<char>, u64)>, amount: u64)
    ensures
        forall|k: int|
            0 <= k < ids_bidding(bids, amount).len() ==> exists|i: int|
                0 <= i < bids.len() && bids[i].0 == #[trigger] ids_bidding(bids, amount)[k]
                    && bids[i].1 == amount,
    decreases bids.len(),
{
    if bids.len() > 0 {
        let d = bids.drop_last();
        lemma_ids_bidding_members(d, amount);
        let t = ids_bidding(bids, amount);
        let t0 = ids_bidding(d, amount);
        assert forall|k: int| 0 <= k < t.len() implies exists|i: int|
            0 <= i < bids.len() && bids[i].0 == #[trigger] t[k] && bids[i].1 == amount by {
            if k < t0.len() {
                assert(t[k] == t0[k]);
                let i = choose|i: int| 0 <= i < d.len() && d[i].0 == t0[k] && d[i].1 == amount;
                assert(bids[i] == d[i]);
            } else {
                assert(bids[bids.len() - 1].0 == t[k]);
            }
        }
    }
}

/// The keys of distinct entries stay distinct among the valid bids, and the
/// ids bidding one amount are then distinct too.
proof fn lemma_distinct_ids(bids: Seq<(Seq<char>, u64)>, reserve: u64, amount: u64)
    requires
        keys_distinct(bids),
    ensures
        keys_distinct(valid_bids(bids, reserve)),
        forall|x: int, y: int|
            0 <= x < y < ids_bidding(valid_bids(bids, reserve), amount).len() ==> ids_bidding(
                valid_bids(bids, reserve),
                amount,
            )[x] != ids_bidding(valid_bids(bids, reserve), amount)[y],
    decreases bids.len(),
{
    lemma_distinct_valid(bids, reserve);
    lemma_distinct_bidding(valid_bids(bids, reserve), amount);
}

proof fn lemma_distinct_valid(bids: Seq<(Seq<char>, u64)>, reserve: u64)
    requires
        keys_distinct(bids),
    ensures
        keys_distinct(valid_bids(bids, reserve)),
    decreases bids.len(),
{
    if bids.len() > 0 {
        let d = bids.drop_last();
        assert(keys_distinct(d));
        lemma_distinct_valid(d, reserve);
        lemma_valid_bids_members(d, reserve);
        let v0 = valid_bids(d, reserve);
        if bids.last().1 >= reserve {
            let v = valid_bids(bids, reserve);
            assert forall|i: int, j: int| 0 <= i < j < v.len() implies v[i].0 != v[j].0 by {
                if j == v.len() - 1 {
                    assert(v[i] == v0[i]);
                    assert(v0[i].1 >= reserve);
                    assert(d.contains(v0[i]));
                    let m = choose|m: int| 0 <= m < d.len() && d[m] == v0[i];
                    assert(bids[m] == d[m]);
                } else {
                    assert(v[i] == v0[i] && v[j] == v0[j]);
                }
            }
        }
    }
}

proof fn lemma_distinct_bidding(bids: Seq<(Seq<char>, u64)>, amount: u64)
    requires
        keys_distinct(bids),
    ensures
        forall|x: int, y: int|
            0 <= x < y < ids_bidding(bids, amount).len() ==> ids_bidding(bids, amount)[x]
                != ids_bidding(bids, amount)[y],
    decreases bids.len(),
{
    if bids.len() > 0 {
        let d = bids.drop_last();
        assert(keys_distinct(d));
        lemma_distinct_bidding(d, amount);
        lemma_ids_bidding_members(d, amount);
        let t0 = ids_bidding(d, amount);
        let t = ids_bidding(bids, amount);
        if bids.last().1 == amount {
            assert forall|x: int, y: int| 0 <= x < y < t.len() implies t[x] != t[y] by {
                if y == t.len() - 1 {
                    assert(t[x] == t0[x]);
                    let m = choose|m: int| 0 <= m < d.len() && d[m].0 == t0[x] && d[m].1 == amount;
                    assert(bids[m] == d[m]);
                } else {
                    assert(t[x] == t0[x] && t[y] == t0[y]);
                }
            }
        }
    }
}

/// The tie-break pick is the starting id or one of the scanned ids.
proof fn lemma_tie_break_member(
    first: Seq<char>,
    ids: Seq<Seq<char>>,
    nonces: Seq<(Seq<char>, [u8; 32])>,
    combined: Seq<u8>,
)
    ensures
        tie_break(first, ids, nonces, combined).0 == first || ids.contains(
            tie_break(first, ids, nonces, combined).0,
        ),
    decreases ids.len(),
{
    if ids.len() > 0 {
        let d = ids.drop_last();
        lemma_tie_break_member(first, d, nonces, combined);
        let w = tie_break(first, d, nonces, combined).0;
        if d.contains(w) {
            let k = choose|k: int| 0 <= k < d.len() && d[k] == w;
            assert(ids[k] == d[k]);
        }
        assert(ids[ids.len() - 1] == ids.last());
    }
}

/// The highest bid excluding `id` is the bid of an entry with another id, and
/// it is at least the bid of every entry with another id.
proof fn lemma_max_bid_excluding(bids: Seq<(Seq<char>, u64)>, id: Seq<char>)
    ensures
        max_bid_excluding(bids, id) matches Some(p) ==> exists|i: int|
            0 <= i < bids.len() && bids[i].0 != id && #[trigger] bids[i].1 == p,
        forall|i: int|
            0 <= i < bids.len() && bids[i].0 != id ==> (max_bid_excluding(bids, id) matches Some(
                p,
            ) && #[trigger] bids[i].1 <= p),
    decreases bids.len(),
{
    if bids.len() > 0 {
        let d = bids.drop_last();
        lemma_max_bid_excluding(d, id);
        let m = max_bid_excluding(d, id);
        let r = max_bid_excluding(bids, id);
        if let Some(p) = r {
            if bids.last().0 != id && (m is None || bids.last().1 > m->0) {
                assert(bids[bids.len() - 1].1 == p);
            } else {
                let i = choose|i: int| 0 <= i < d.len() && d[i].0 != id && #[trigger] d[i].1 == m->0;
                assert(bids[i] == d[i]);
            }
        }
        assert forall|i: int| 0 <= i < bids.len() && bids[i].0 != id implies (max_bid_excluding(
            bids,
            id,
        ) matches Some(p) && #[trigger] bids[i].1 <= p) by {
            if i < d.len() {
                assert(bids[i] == d[i]);
                assert(d[i].1 == bids[i].1);
            }
        }
    }
}

/// The bid at position `i` meets the reserve and no bid meeting the reserve
/// is higher.
pub open spec fn is_top_valid_bid(bids: Seq<(Seq<char>, u64)>, reserve: u64, i: int) -> bool {
    &&& 0 <= i < bids.len()
    &&& bids[i].1 >= reserve
    &&& forall|j: int| 0 <= j < bids.len() && bids[j].1 >= reserve ==> bids[j].1 <= bids[i].1
}

/// The winner is among the bidders tied at the highest valid bid.
proof fn lemma_winner_tied(bids: Seq<(Seq<char>, u64)>, nonces: Seq<(Seq<char>, [u8; 32])>, reserve: u64)
    requires
        valid_bids(bids, reserve).len() > 0,
    ensures
        ids_bidding(valid_bids(bids, reserve), max_bid(valid_bids(bids, reserve))).contains(
            tie_winner(
                ids_bidding(valid_bids(bids, reserve), max_bid(valid_bids(bids, reserve))),
                nonces,
            ),
        ),
{
    let valid = valid_bids(bids, reserve);
    let tied = ids_bidding(valid, max_bid(valid));
    lemma_max_bid_attained(valid);
    if tied.len() == 1 {
        assert(tied[0] == tied[0]);
    } else {
        lemma_tie_break_member(tied[0], tied, nonces, xor_nonces(tied, nonces));
    }
}

/// An auction fails exactly when no bid meets the reserve price.
pub proof fn law_no_valid_bid_iff_failure(
    bids: Seq<(Seq<char>, u64)>,
    nonces: Seq<(Seq<char>, [u8; 32])>,
    reserve: u64,
)
    ensures
        resolution(bids, nonces, reserve) is None <==> forall|i: int|
            0 <= i < bids.len() ==> #[trigger] bids[i].1 < reserve,
{
    lemma_valid_bids_members(bids, reserve);
    let valid = valid_bids(bids, reserve);
    if valid.len() > 0 {
        assert(valid[0].1 >= reserve);
        assert(bids.contains(valid[0]));
    }
}

/// The winner placed a bid that meets the reserve, and no bid meeting the
/// reserve is higher than the winner's.
pub proof fn law_winner_has_top_bid(
    bids: Seq<(Seq<char>, u64)>,
    nonces: Seq<(Seq<char>, [u8; 32])>,
    reserve: u64,
)
    requires
        resolution(bids, nonces, reserve) is Some,
    ensures
        exists|i: int|
            is_top_valid_bid(bids, reserve, i) && bids[i].0 == resolution(
                bids,
                nonces,
                reserve,
            ).unwrap().0,
{
    let valid = valid_bids(bids, reserve);
    let high = max_bid(valid);
    let tied = ids_bidding(valid, high);
    let w = resolution(bids, nonces, reserve).unwrap().0;
    lemma_winner_tied(bids, nonces, reserve);
    lemma_ids_bidding_members(valid, high);
    lemma_valid_bids_members(bids, reserve);
    lemma_max_bid_bounds(valid);
    let k = choose|k: int| 0 <= k < tied.len() && tied[k] == w;
    let m = choose|m: int| 0 <= m < valid.len() && valid[m].0 == tied[k] && valid[m].1 == high;
    assert(valid[m].1 >= reserve);
    let i = choose|i: int| 0 <= i < bids.len() && bids[i] == valid[m];
    assert forall|j: int| 0 <= j < bids.len() && bids[j].1 >= reserve implies bids[j].1 <= bids[i].1 by {
        let n = choose|n: int| 0 <= n < valid.len() && valid[n] == bids[j];
        assert(valid[n].1 <= high);
    }
    assert(is_top_valid_bid(bids, reserve, i));
}

/// Second-price rule: the clearing price is at least the reserve and at most
/// the winning (highest valid) bid.
pub proof fn law_price_between_reserve_and_top_bid(
    bids: Seq<(Seq<char>, u64)>,
    nonces: Seq<(Seq<char>, [u8; 32])>,
    reserve: u64,
)
    requires
        resolution(bids, nonces, reserve) is Some,
    ensures
        reserve <= resolution(bids, nonces, reserve).unwrap().1 <= max_bid(valid_bids(bids, reserve)),
{
    let valid = valid_bids(bids, reserve);
    let w = resolution(bids, nonces, reserve).unwrap().0;
    lemma_valid_bids_members(bids, reserve);
    lemma_max_bid_bounds(valid);
    lemma_max_bid_excluding(valid, w);
    if max_bid_excluding(valid, w) is None {
        let k = choose|k: int| 0 <= k < valid.len() && #[trigger] valid[k].1 == max_bid(valid);
        assert(valid[k].1 >= reserve);
    }
}

/// When two or more bidders tie at the highest valid bid, the winner pays
/// that bid.
pub proof fn law_tie_pays_top_bid(
    bids: Seq<(Seq<char>, u64)>,
    nonces: Seq<(Seq<char>, [u8; 32])>,
    reserve: u64,
)
    requires
        keys_distinct(bids),
        ids_bidding(valid_bids(bids, reserve), max_bid(valid_bids(bids, reserve))).len() >= 2,
    ensures
        resolution(bids, nonces, reserve) matches Some((_, price)) && price == max_bid(
            valid_bids(bids, reserve),
        ),
{
    let valid = valid_bids(bids, reserve);
    let high = max_bid(valid);
    let tied = ids_bidding(valid, high);
    let w = tie_winner(tied, nonces);
    lemma_winner_tied(bids, nonces, reserve);
    lemma_distinct_ids(bids, reserve, high);
    lemma_ids_bidding_members(valid, high);
    lemma_max_bid_bounds(valid);
    lemma_max_bid_excluding(valid, w);
    let t = if tied[0] != w {
        tied[0]
    } else {
        tied[1]
    };
    assert(t != w);
    assert(tied.contains(t)) by {
        if tied[0] != w {
            assert(tied[0] == t);
        } else {
            assert(tied[1] == t);
        }
    }
    let k = choose|k: int| 0 <= k < tied.len() && tied[k] == t;
    let m = choose|m: int| 0 <= m < valid.len() && valid[m].0 == tied[k] && valid[m].1 == high;
    assert(valid[m].0 != w);
    let p = max_bid_excluding(valid, w)->0;
    let q = choose|q: int| 0 <= q < valid.len() && valid[q].0 != w && #[trigger] valid[q].1 == p;
    assert(valid[q].1 <= high);
}

/// Second-price rule over all inputs: the clearing price is the highest bid
/// meeting the reserve among everyone but the winner, or the reserve price
/// when no one else met it.
pub proof fn law_price_is_best_other_valid_bid(
    bids: Seq<(Seq<char>, u64)>,
    nonces: Seq<(Seq<char>, [u8; 32])>,
    reserve: u64,
)
    requires
        resolution(bids, nonces, reserve) is Some,
    ensures
        ({
            let (w, price) = resolution(bids, nonces, reserve).unwrap();
            &&& forall|j: int|
                0 <= j < bids.len() && bids[j].0 != w && #[trigger] bids[j].1 >= reserve ==> bids[j].1
                    <= price
            &&& (exists|j: int|
                0 <= j < bids.len() && bids[j].0 != w && bids[j].1 >= reserve && #[trigger] bids[j].1
                    == price) || (price == reserve && forall|j: int|
                0 <= j < bids.len() && bids[j].0 != w ==> #[trigger] bids[j].1 < reserve)
        }),
{
    let valid = valid_bids(bids, reserve);
    let w = resolution(bids, nonces, reserve).unwrap().0;
    let price = resolution(bids, nonces, reserve).unwrap().1;
    lemma_valid_bids_members(bids, reserve);
    lemma_max_bid_excluding(valid, w);
    assert forall|j: int|
        0 <= j < bids.len() && bids[j].0 != w && #[trigger] bids[j].1 >= reserve implies bids[j].1
            <= price by {
        let k = choose|k: int| 0 <= k < valid.len() && valid[k] == bids[j];
        assert(valid[k].0 != w);
    }
    match max_bid_excluding(valid, w) {
        Some(p) => {
            let k = choose|k: int| 0 <= k < valid.len() && valid[k].0 != w && #[trigger] valid[k].1 == p;
            assert(valid[k].1 >= reserve);
            let j = choose|j: int| 0 <= j < bids.len() && bids[j] == valid[k];
            assert(bids[j].0 != w && bids[j].1 >= reserve && bids[j].1 == price);
        },
        None => {
            assert forall|j: int| 0 <= j < bids.len() && bids[j].0 != w implies #[trigger] bids[j].1
                < reserve by {
                if bids[j].1 >= reserve {
                    let k = choose|k: int| 0 <= k < valid.len() && valid[k] == bids[j];
                    assert(valid[k].0 != w);
                }
            }
        },
    }
}

/// Every entry bidding an amount has its id among the ids bidding it.
proof fn lemma_ids_bidding_complete(bids: Seq<(Seq<char>, u64)>, amount: u64)
    ensures
        forall|i: int|
            0 <= i < bids.len() && #[trigger] bids[i].1 == amount ==> ids_bidding(bids, amount).contains(
                bids[i].0,
            ),
    decreases bids.len(),
{
    if bids.len() > 0 {
        let d = bids.drop_last();
        lemma_ids_bidding_complete(d, amount);
        let t = ids_bidding(bids, amount);
        let t0 = ids_bidding(d, amount);
        assert forall|i: int| 0 <= i < bids.len() && #[trigger] bids[i].1 == amount implies t.contains(
            bids[i].0,
        ) by {
            if i < d.len() {
                assert(d[i] == bids[i]);
                assert(d[i].1 == amount);
                let k = choose|k: int| 0 <= k < t0.len() && t0[k] == d[i].0;
                if bids.last().1 == amount {
                    assert(t[k] == t0[k]);
                }
            } else {
                assert(t[t.len() - 1] == bids[i].0);
            }
        }
    }
}

/// Scanning for the highest tie score: every scanned id scores at most the
/// best score, and the pick is the starting id with best score 0 or a scanned
/// id scoring exactly the best score.
proof fn lemma_tie_break_is_max(
    first: Seq<char>,
    ids: Seq<Seq<char>>,
    nonces: Seq<(Seq<char>, [u8; 32])>,
    combined: Seq<u8>,
)
    ensures
        forall|k: int|
            0 <= k < ids.len() ==> #[trigger] tie_score(nonce_or_zero(nonces, ids[k]), combined)
                <= tie_break(first, ids, nonces, combined).1,
        ({
            let (b, h) = tie_break(first, ids, nonces, combined);
            (b == first && h == 0) || tie_score(nonce_or_zero(nonces, b), combined) == h
        }),
    decreases ids.len(),
{
    if ids.len() > 0 {
        let d = ids.drop_last();
        lemma_tie_break_is_max(first, d, nonces, combined);
        assert forall|k: int| 0 <= k < ids.len() implies #[trigger] tie_score(
            nonce_or_zero(nonces, ids[k]),
            combined,
        ) <= tie_break(first, ids, nonces, combined).1 by {
            if k < d.len() {
                assert(ids[k] == d[k]);
            } else {
                assert(ids[k] == ids.last());
            }
        }
    }
}

/// When two or more bidders tie at the highest bid meeting the reserve, the
/// winner's tie score (the first eight bytes, little-endian, of
/// `SHA-256(nonce ‖ combined)`, where `combined` is the exclusive or of the
/// tied bidders' nonces) is at least every tied bidder's.  So a tied bidder
/// scoring strictly higher than all the others wins, whatever the order in
/// which the bids arrived.
pub proof fn law_tie_winner_has_top_score(
    bids: Seq<(Seq<char>, u64)>,
    nonces: Seq<(Seq<char>, [u8; 32])>,
    reserve: u64,
)
    requires
        ids_bidding(valid_bids(bids, reserve), max_bid(valid_bids(bids, reserve))).len() >= 2,
    ensures
        ({
            let tied = ids_bidding(valid_bids(bids, reserve), max_bid(valid_bids(bids, reserve)));
            let combined = xor_nonces(tied, nonces);
            let w = resolution(bids, nonces, reserve).unwrap().0;
            &&& resolution(bids, nonces, reserve) is Some
            &&& tied.contains(w)
            &&& forall|i: int|
                is_top_valid_bid(bids, reserve, i) ==> #[trigger] tie_score(
                    nonce_or_zero(nonces, bids[i].0),
                    combined,
                ) <= tie_score(nonce_or_zero(nonces, w), combined)
        }),
{
    let valid = valid_bids(bids, reserve);
    let high = max_bid(valid);
    let tied = ids_bidding(valid, high);
    let combined = xor_nonces(tied, nonces);
    lemma_ids_bidding_members(valid, high);
    assert(valid.len() > 0) by {
        let m = choose|m: int| 0 <= m < valid.len() && valid[m].0 == tied[0] && valid[m].1 == high;
    }
    lemma_winner_tied(bids, nonces, reserve);
    lemma_valid_bids_members(bids, reserve);
    lemma_max_bid_bounds(valid);
    lemma_tie_break_is_max(tied[0], tied, nonces, combined);
    lemma_ids_bidding_complete(valid, high);
    let w = tie_break(tied[0], tied, nonces, combined).0;
    assert(tie_score(nonce_or_zero(nonces, w), combined) == tie_break(tied[0], tied, nonces, combined).1)
        by {
        assert(tie_score(nonce_or_zero(nonces, tied[0]), combined) <= tie_break(
            tied[0],
            tied,
            nonces,
            combined,
        ).1);
    }
    assert forall|i: int| is_top_valid_bid(bids, reserve, i) implies #[trigger] tie_score(
        nonce_or_zero(nonces, bids[i].0),
        combined,
    ) <= tie_score(nonce_or_zero(nonces, w), combined) by {
        let k = choose|k: int| 0 <= k < valid.len() && valid[k] == bids[i];
        let m = choose|m: int| 0 <= m < valid.len() && #[trigger] valid[m].1 == high;
        assert(valid[m].1 >= reserve);
        let mi = choose|mi: int| 0 <= mi < bids.len() && bids[mi] == valid[m];
        assert(bids[i].1 >= bids[mi].1);
        assert(valid[k].1 == high);
        assert(valid[k].1 == high && tied.contains(valid[k].0));
        let t = choose|t: int| 0 <= t < tied.len() && tied[t] == bids[i].0;
        assert(tie_score(nonce_or_zero(nonces, tied[t]), combined) <= tie_break(
            tied[0],
            tied,
            nonces,
            combined,
        ).1);
    }
}

/// The slash list receives exactly the peers that committed without a
/// verified reveal.
pub proof fn law_unrevealed_peers<V, W>(commitments: Seq<(Seq<char>, V)>, bids: Seq<(Seq<char>, W)>, peer: Seq<char>)
    ensures
        unrevealed(commitments, bids).contains(peer) <==> (has_key(commitments, peer) && !has_key(
            bids,
            peer,
        )),
    decreases commitments.len(),
{
    lemma_key_index(commitments, peer);
    if commitments.len() > 0 {
        let d = commitments.drop_last();
        law_unrevealed_peers(d, bids, peer);
        lemma_key_index(d, peer);
        let u = unrevealed(commitments, bids);
        let u0 = unrevealed(d, bids);
        if u0.contains(peer) {
            let k = choose|k: int| 0 <= k < u0.len() && u0[k] == peer;
            if !has_key(bids, commitments.last().0) {
                assert(u[k] == u0[k]);
            }
        }
        if u.contains(peer) && !u0.contains(peer) {
            let k = choose|k: int| 0 <= k < u.len() && u[k] == peer;
            if has_key(bids, commitments.last().0) {
                assert(u == u0);
            }
            assert(commitments[commitments.len() - 1].0 == peer);
        }
        if has_key(commitments, peer) && !has_key(bids, peer) && !has_key(d, peer) {
            let i = key_index(commitments, peer);
            assert(i == commitments.len() - 1) by {
                if i < d.len() {
                    assert(d[i] == commitments[i]);
                    lemma_key_index(d, peer);
                }
            }
            assert(u[u.len() - 1] == peer);
        }
        if has_key(d, peer) {
            let i = key_index(d, peer);
            assert(commitments[i] == d[i]);
        }
    }
}

/// Number of occurrences of `c` in `s`.
pub open spec fn count_char(s: Seq<char>, c: char) -> nat
    decreases s.len(),
{
    if s.len() == 0 {
        0
    } else {
        count_char(s.drop_last(), c) + if s.last() == c {
            1nat
        } else {
            0nat
        }
    }
}

/// Position of the first `c` in `s`, or `s.len()` when there is none.
pub open spec fn first_index_of(s: Seq<char>, c: char) -> int
    decreases s.len(),
{
    if s.len() == 0 {
        0
    } else if s[0] == c {
        0
    } else {
        1 + first_index_of(s.drop_first(), c)
    }
}

/// `c` is one of `0` to `9`.
pub open spec fn is_decimal_digit(c: char) -> bool {
    '0' <= c <= '9'
}

/// Value of a string of decimal digits.
pub open spec fn decimal_value(d: Seq<char>) -> nat
    decreases d.len(),
{
    if d.len() == 0 {
        0
    } else {
        decimal_value(d.drop_last()) * 10 + ((d.last() as int) - 48) as nat
    }
}

/// The digits of an unsigned number's text: the text without one leading `+`.
pub open spec fn unsigned_digits(t: Seq<char>) -> Seq<char> {
    if t.len() > 0 && t[0] == '+' {
        t.drop_first()
    } else {
        t
    }
}

/// Every character of `d` is a decimal digit.
pub open spec fn all_decimal_digits(d: Seq<char>) -> bool {
    forall|i: int| 0 <= i < d.len() ==> is_decimal_digit(#[trigger] d[i])
}

/// `u64`'s `from_str`: an optional `+` followed by at least one decimal digit,
/// nothing else, and a value that fits in 64 bits.
pub open spec fn parse_u64_text(t: Seq<char>) -> Option<u64> {
    let digits = unsigned_digits(t);
    if digits.len() > 0 && all_decimal_digits(digits) && decimal_value(digits) <= u64::MAX {
        Some(decimal_value(digits) as u64)
    } else {
        None
    }
}

/// The start time an auction id announces: ids of the form `name_seconds`
/// (exactly one underscore) carry it after the underscore.
pub open spec fn start_time_in_id(id: Seq<char>) -> Option<u64> {
    if count_char(id, '_') == 1 {
        parse_u64_text(id.skip(first_index_of(id, '_') + 1))
    } else {
        None
    }
}

/// The start time of an auction with id `id` when the wall clock reads
/// `now`: the one the id carries, else `now`.
pub open spec fn auction_start(id: Seq<char>, now: Option<u64>) -> Option<u64> {
    match start_time_in_id(id) {
        Some(t) => Some(t),
        None => now,
    }
}

/// `a` is a fresh auction with the given parameters, opened at `start`:
/// commits close 240 s and reveals 300 s after the start.
pub open spec fn is_fresh_auction(
    a: Auction,
    id: Seq<char>,
    seller: Seq<char>,
    token_id: u64,
    reserve_price: u64,
    start: u64,
) -> bool {
    &&& a.auction_id@ == id
    &&& a.seller_id@ == seller
    &&& a.token_id == token_id
    &&& a.reserve_price == reserve_price
    &&& a.commit_deadline == start + 240
    &&& a.reveal_deadline == start + 300
    &&& a.received_commitments@.len() == 0
    &&& a.verified_bids@.len() == 0
    &&& a.verified_nonces@.len() == 0
    &&& !a.resolved
    &&& !a.failed
    &&& a.winner_id is None
    &&& a.clearing_price == 0
    &&& a.slash_list@.len() == 0
    &&& a.validator_id is None
    &&& !a.verdict_received
}

/// A decimal value of a prefix never exceeds that of the whole.
proof fn lemma_decimal_value_prefix(d: Seq<char>, k: int)
    requires
        0 <= k <= d.len(),
    ensures
        decimal_value(d.take(k)) <= decimal_value(d),
    decreases d.len(),
{
    if k < d.len() {
        assert(d.drop_last().take(k) == d.take(k));
        lemma_decimal_value_prefix(d.drop_last(), k);
    } else {
        assert(d.take(k) == d);
    }
}

/// The value of the decimal digits `s[from..]`, accepting an optional leading `+`.
fn parse_u64_from(s: &str, from: usize) -> (r: Option<u64>)
    requires
        from <= s@.len(),
    ensures
        r == parse_u64_text(s@.skip(from as int)),
{
    let n = s.unicode_len();
    let ghost t = s@.skip(from as int);
    let mut start = from;
    if start < n && s.get_char(start) == '+' {
        start = start + 1;
    }
    let ghost digits = s@.skip(start as int);
    assert(digits == unsigned_digits(t));
    if start == n {
        return None;
    }
    let mut acc: u64 = 0;
    let mut i = start;
    while i < n
        invariant
            n == s@.len(),
            start <= i <= n,
            digits == s@.skip(start as int),
            t == s@.skip(from as int),
            digits == unsigned_digits(t),
            forall|k: int| 0 <= k < i - start ==> is_decimal_digit(#[trigger] digits[k]),
            acc == decimal_value(digits.take(i - start)),
        decreases n - i,
    {
        let c = s.get_char(i);
        assert(digits[i - start] == c);
        assert(digits.take(i - start + 1).drop_last() == digits.take(i - start));
        if c < '0' || c > '9' {
            assert(!is_decimal_digit(digits[i - start]));
            assert(!all_decimal_digits(digits));
            return None;
        }
        let dv: u64 = (c as u64) - 48;
        assert(digits.take(i - start + 1).last() == c);
        assert(dv == (c as int) - 48);
        if acc > (u64::MAX - dv) / 10 {
            assert(acc * 10 + dv > u64::MAX) by (nonlinear_arith)
                requires
                    acc > (u64::MAX - dv) / 10,
                    dv <= 9,
            ;
            proof {
                assert(decimal_value(digits.take(i - start + 1)) == acc * 10 + dv);
                lemma_decimal_value_prefix(digits, i - start + 1);
            }
            return None;
        }
        assert(acc * 10 + dv <= u64::MAX) by (nonlinear_arith)
            requires
                acc <= (u64::MAX - dv) / 10,
                dv <= 9,
        ;
        acc = acc * 10 + dv;
        i = i + 1;
    }
    assert(digits.take(n - start) == digits);
    Some(acc)
}

/// The start time carried by an auction id of the form `name_seconds`.
pub fn start_time_from_id(auction_id: &str) -> (t: Option<u64>)
    ensures
        t == start_time_in_id(auction_id@),
{
    let n = auction_id.unicode_len();
    let ghost id = auction_id@;
    let mut count: usize = 0;
    let mut first: usize = 0;
    let mut i: usize = 0;
    while i < n
        invariant
            id == auction_id@,
            n == id.len(),
            i <= n,
            count == count_char(id.take(i as int), '_'),
            count <= i,
            count == 0 ==> forall|k: int| 0 <= k < i ==> id[k] != '_',
            count > 0 ==> first < i && id[first as int] == '_' && forall|k: int|
                0 <= k < first ==> id[k] != '_',
        decreases n - i,
    {
        assert(id.take(i + 1).drop_last() == id.take(i as int));
        assert(id.take(i + 1).last() == id[i as int]);
        let c = auction_id.get_char(i);
        if c == '_' {
            if count == 0 {
                first = i;
            }
            count = count + 1;
        }
        i = i + 1;
    }
    assert(id.take(n as int) == id);
    if count != 1 {
        return None;
    }
    proof {
        lemma_first_index_of(id, '_', first as int);
    }
    parse_u64_from(auction_id, first + 1)
}

/// `first_index_of` finds the first occurrence.
proof fn lemma_first_index_of(s: Seq<char>, c: char, i: int)
    requires
        0 <= i < s.len(),
        s[i] == c,
        forall|k: int| 0 <= k < i ==> s[k] != c,
    ensures
        first_index_of(s, c) == i,
    decreases i,
{
    if i > 0 {
        lemma_first_index_of(s.drop_first(), c, i - 1);
    }
}

impl Auction {
    /// A fresh auction opened at `start_time`.
    pub fn starting_at(
        auction_id: String,
        seller_id: String,
        token_id: u64,
        reserve_price: u64,
        start_time: u64,
    ) -> (a: Auction)
        requires
            start_time <= u64::MAX - 300,
        ensures
            is_fresh_auction(a, auction_id@, seller_id@, token_id, reserve_price, start_time),
    {
        Auction {
            auction_id,
            seller_id,
            token_id,
            reserve_price,
            commit_deadline: start_time + 240,
            reveal_deadline: start_time + 300,
            received_commitments: IdMap::new(),
            verified_bids: IdMap::new(),
            verified_nonces: IdMap::new(),
            resolved: false,
            failed: false,
            winner_id: None,
            clearing_price: 0,
            slash_list: Vec::new(),
            validator_id: None,
            verdict_received: false,
        }
    }

    /// A fresh auction, given the wall-clock reading `now` (whole seconds
    /// since the Unix epoch, `None` when the clock reads earlier than the
    /// epoch).  The start time is the one carried by an id of the form
    /// `name_seconds`; for other ids it is `now`.  `None` when there is no
    /// start time or when the deadlines would not fit in 64 bits.
    pub fn new_at(
        auction_id: String,
        seller_id: String,
        token_id: u64,
        reserve_price: u64,
        now: Option<u64>,
    ) -> (r: Option<Auction>)
        ensures
            match auction_start(auction_id@, now) {
                None => r is None,
                Some(t) => if t <= u64::MAX - 300 {
                    r matches Some(a) && is_fresh_auction(
                        a,
                        auction_id@,
                        seller_id@,
                        token_id,
                        reserve_price,
                        t,
                    )
                } else {
                    r is None
                },
            },
    {
        let start = match start_time_from_id(auction_id.as_str()) {
            Some(t) => t,
            None => match now {
                Some(t) => t,
                None => return None,
            },
        };
        if start > u64::MAX - 300 {
            return None;
        }
        Some(Auction::starting_at(auction_id, seller_id, token_id, reserve_price, start))
    }

    /// A fresh auction.  Its start time is the one carried by an id of the
    /// form `name_seconds`; for other ids it is the wall clock, read only
    /// then (see `new_at`).  `None` when the deadlines would not fit in 64
    /// bits, or when the clock reads earlier than the Unix epoch.
    pub fn new(auction_id: String, seller_id: String, token_id: u64, reserve_price: u64) -> (r: Option<Auction>)
        ensures
            start_time_in_id(auction_id@) matches Some(t) ==> (r is Some <==> t <= u64::MAX - 300),
            r matches Some(a) ==> exists|t: u64|
                #![trigger is_fresh_auction(a, auction_id@, seller_id@, token_id, reserve_price, t)]
                is_fresh_auction(a, auction_id@, seller_id@, token_id, reserve_price, t)
                    && (start_time_in_id(auction_id@) matches Some(s) ==> t == s),
    {
        let now = match start_time_from_id(auction_id.as_str()) {
            Some(_) => None,
            None => unix_time_secs(),
        };
        let r = Auction::new_at(auction_id, seller_id, token_id, reserve_price, now);
        proof {
            if let Some(t) = auction_start(auction_id@, now) {
                assert(r matches Some(a) ==> is_fresh_auction(
                    a,
                    auction_id@,
                    seller_id@,
                    token_id,
                    reserve_price,
                    t,
                ));
            }
        }
        r
    }

    /// Resolves the auction once: records peers that committed without a
    /// verified reveal for slashing, then picks the highest bid meeting the
    /// reserve price.  A single highest bidder pays the next highest valid bid
    /// (or the reserve); bidders tied at the top are separated by hashing each
    /// one's nonce with the exclusive or of all their nonces, and the winner
    /// pays the tied amount.  With no valid bid the auction fails.  Resolving
    /// a resolved auction changes nothing.
    pub fn resolve(&mut self)
        ensures
            old(self).resolved ==> *final(self) == *old(self),
            !old(self).resolved ==> resolved_from(*old(self), *final(self)),
    {
        if self.resolved {
            return;
        }
        self.resolved = true;
        push_unrevealed(&self.received_commitments, &self.verified_bids, &mut self.slash_list);
        let (any, high) = highest_valid_bid(&self.verified_bids, self.reserve_price);
        if !any {
            self.failed = true;
            return;
        }
        let tied = bidders_at(&self.verified_bids, self.reserve_price, high);
        proof {
            lemma_max_bid_attained(valid_bids(self.verified_bids@, self.reserve_price));
        }
        let winner: String = if tied.len() == 1 {
            tied[0].clone()
        } else {
            let combined = combined_nonce(&tied, &self.verified_nonces);
            let w = pick_tie_winner(&tied, &self.verified_nonces, &combined);
            tied[w].clone()
        };
        let price = match highest_bid_excluding(&self.verified_bids, self.reserve_price, &winner) {
            Some(p) => p,
            None => self.reserve_price,
        };
        self.winner_id = Some(winner);
        self.clearing_price = price;
    }
}

/// This peer's side of the marketplace: its credits, its art tokens, the
/// auctions it knows of and the secrets of its own pending bid.
pub struct MarketplaceState {
    pub my_credits: u64,
    pub my_locked_credits: u64,
    pub my_art_vault: Vec<u64>,
    pub escrowed_art: Vec<u64>,
    pub active_auctions: IdMap<Auction>,
    pub current_joined_auction: Option<String>,
    pub my_secret_bid: Option<u64>,
    pub my_secret_nonce: Option<[u8; 32]>,
}

impl MarketplaceState {
    /// A peer's starting state: 1000 credits, none locked, three freshly
    /// minted art tokens with random six-digit ids, nothing in escrow, no
    /// auctions and no pending bid.
    pub fn new() -> (m: Self)
        ensures
            m.my_credits == 1000,
            m.my_locked_credits == 0,
            m.my_art_vault@.len() == 3,
            forall|i: int| 0 <= i < 3 ==> 100000 <= #[trigger] m.my_art_vault@[i] <= 999999,
            m.escrowed_art@.len() == 0,
            m.active_auctions@.len() == 0,
            m.current_joined_auction is None,
            m.my_secret_bid is None,
            m.my_secret_nonce is None,
    {
        let mut rng = thread_rng();
        let a = gen_range_inclusive(&mut rng, 100000, 999999);
        let b = gen_range_inclusive(&mut rng, 100000, 999999);
        let c = gen_range_inclusive(&mut rng, 100000, 999999);
        let starting_art = vec![a, b, c];
        MarketplaceState {
            my_credits: 1000,
            my_locked_credits: 0,
            my_art_vault: starting_art,
            escrowed_art: Vec::new(),
            active_auctions: IdMap::new(),
            current_joined_auction: None,
            my_secret_bid: None,
            my_secret_nonce: None,
        }
    }
}

} // verus!
