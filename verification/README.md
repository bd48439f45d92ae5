# beacon_availability

The decisions of a beacon node around data availability, written and proved in
Verus: which blocks wait for which data columns, how missing columns are fetched,
which gossiped sidecars are accepted, in which order blocks are imported, and which
duties validators are told.

- `src/` is the library. Each function states what it returns in its contract; the
  public proof functions state what holds across functions.
  - `availability`: holds blocks back until every required column has arrived.
  - `columns`: requests for columns, the tracker of fetches, and the fetch of one
    block's columns from peer to peer.
  - `gossip`: the rules for gossiped sidecars, the parameters of the gossip protocol
    and the ids of its messages.
  - `chain`: importing blocks with those that waited for them, and the status told
    to peers.
  - `duties`: proposer, attester and sync committee duties.
  - `beacon`, `bytes`, `merkle`, `network`, `peer`, `root_map`, `text`: the types and
    helpers below these.
- `tests/` runs the library on concrete values.
- `app/` is ordinary Rust around the library: the store behind a lock, the network,
  the HTTP endpoints and the wire format of requests.

A step that needs the store, the network or cryptography is not taken by the library.
It names what it needs to know, and is told the answer as a plain value.

Functions marked `external_body` call other crates (`alloy-primitives`, `libp2p`,
`sha2`, `ssz_types`, `tree_hash`). Their contracts are taken on trust; the comment
above each says what is claimed.
