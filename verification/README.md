# watchtower

Watchtower support for a Lightning node built on LDK: the core is verified with Verus.

Every time a channel monitor is persisted, the counterparty commitments that it shows are captured
(phase 1), and justice transactions are signed for those whose revocation secret has come in the
meantime (phase 2). What is signed becomes a justice blob, ready to be encrypted and pushed to an
LND tower.

## Layout

- `src/persister.rs`: `WatchtowerPersister`, what is done at each persist call.
- `src/state.rs`: the pending commitments and the ready blobs, capturing and signing.
- `src/pending.rs`: the map that the pending commitments stand in.
- `src/commitment.rs`: a counterparty commitment and the request to sign its justice transaction.
- `src/csv.rs`: the relative lock time behind a to-local output.
- `src/to_remote.rs`: the output that pays our side, and its key.
- `src/blob.rs`: the justice blob.
- `src/monitors.rs`: listing and exporting channel monitors.
- `src/text.rs`, `src/bytes.rs`: identifiers as text, byte strings.
- `src/ldk.rs`: the calls into `lightning` and `bitcoin`, with what is believed of them.
- `src/laws.rs`: what holds of the watchtower as a whole.
- `app/`: the persister in a node, which talks to the channel monitors and holds the lock.

A channel monitor itself is not a value that the library can hold, so signing is handed in as a
function: the library says what to sign, and `app/` has the monitor sign it. For the same reason
`app/` reads off the monitor which key a commitment pays our side with, and the library checks that
an output of the commitment does.
