# rustbits

A Verus library of small components with proved contracts, and the programs
around them.

- `src/page.rs`, `src/engine.rs`, `src/codec.rs`: a slotted-page user store.
  Data pages hold user records that grow down from the end of the page and a
  slot directory that grows up after a 5-byte header; a dictionary page names
  the data page that takes new records. The engine's insert and lookup are
  steps that a caller holding the page file runs in a loop.
- `src/strsplit.rs`: splitting text at a delimiter.
- `src/flatten.rs`: a cursor over the items of nested vectors.
- `src/vecmac.rs`: building vectors.
- `src/summary.rs`: a trait for items that summarise themselves.
- `src/kvtext.rs`: the `{key:value,...}` record format and a user record in it.
- `src/signaling.rs`: the WebRTC signaling protocol's decisions.
- `src/sfu.rs`: the room bookkeeping of an SFU media server.
- `src/counter.rs`: the counter program's state change.
- `src/guessing.rs`, `src/hello.rs`, `src/text.rs`: the guessing game's secret
  and input, a greeting, and string helpers.

`app/` holds the programs: the page file on disk, the WebSocket servers, the
browser client, the Solana entry point and the terminal game.
