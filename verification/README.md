# sealed_auction

Sealed-bid auctions with identity-bound Pedersen commitments over the
Ristretto group, verified with Verus.

- `src/crypto.rs` — blinding scalars `SHA-512(peer ‖ nonce) mod ℓ`,
  commitments `v·G + s·H`, and the check of a reveal against a commitment.
- `src/auction.rs` — auction state, resolution (second price, hash-based
  tie-break, slashing of unrevealed commitments) and its laws.
- `src/bridge.rs` — the gateway's cache of auctions seen on the mesh.
- `src/node.rs` — a bidder's node: identity and the secrets of its bid.
- `src/stats.rs` — integer square root and timing statistics.
- `src/idmap.rs` — an insertion-ordered map keyed by ids.
- `src/encoding.rs`, `src/hashing.rs`, `src/ristretto.rs`,
  `src/platform.rs` — hex text, SHA-2, the Ristretto group, clock and
  randomness, each behind a small stated interface.
- `app/` — the commitment benchmark program, the browser glue and the JSON
  side of the gateway cache.
