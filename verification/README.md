# hybrid_events

A coordinator that makes one ordered stream of chain events out of two sources:
a durable historical one, which pages through the past, and a live one, which is
fast but may fall away.

While the historical source catches up, live batches wait in a bounded buffer.
The first of them sets a fence. Once a historical delivery that reaches the fence
has been acknowledged, the buffer is drained without what was already delivered,
and the live source takes over. When it is lost, or can no longer be explained
from the retained history, the historical source takes over again.

Every delivery carries a token and a checkpoint. The checkpoint holds the state
that acknowledging the delivery leads to, so that a restart resumes exactly
behind the last acknowledged delivery.

## Layout

- `src/` is the library, verified with Verus. Decisions are functions of the
  coordinator's state and of an event; they say what the caller has to do next.
  - words, blocks, identities, owners: `words`, `model`, `owners`, `identities`
  - who is owed an input: `audience`, `filter`
  - the checkpoint: `checkpoint`, `wire`, `rlp`, `encode`, `decode`, `limits`,
    `codec`, `validate`
  - digests: `transcript`, `records`, `intent`, `header`, `token`
  - what a source hands in: `ingress`, `overlap`, `plan`, `history`
  - what goes out, and its acknowledgement: `delivery`, `commit`, `fit`, `flow`
  - room for a delivery under every topology: `config`, `probe`, `capacity`
  - changes of what is subscribed, and taking them back: `topology`, `lifecycle`,
    `steps`, `rollback`, `barrier`
  - restarts: `restore`
  - the whole: `state`, `subscriber`, `error`, `message`
  - what holds of all of it: `laws` and the other modules whose names end so
- `app/` runs the library against asynchronous sources.
- `tests/` runs it on concrete values.

## What is taken on trust

RLP items are read and written by `alloy-rlp`, checksums computed by `crc32fast`,
digests by `alloy-primitives`, and JSON is parsed and quoted by `serde_json`. The
standard library checks UTF-8 and shows a name in a message. The functions that
make these calls state what is relied on. The rules of the canonical sequence
itself are the caller's: their verdicts are arguments.
