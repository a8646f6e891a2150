//! Sealed-bid auctions with Pedersen commitments over the Ristretto group.
//!
//! Bidders publish a commitment `C = v·G + s·H` to their bid `v`, where the
//! blinding scalar `s = SHA-512(peer_id ‖ nonce) mod ℓ` binds the commitment to
//! the bidder's identity.  After the reveal phase an auction is resolved with a
//! second-price rule and a hash-based tie-breaker.

pub mod auction;
pub mod bridge;
pub mod crypto;
pub mod encoding;
pub mod hashing;
pub mod idmap;
pub mod node;
pub mod platform;
pub mod ristretto;
pub mod stats;
