# besynx

besynx syncs browser history and cookies between browsers and devices with
no cloud service: a local daemon talks to the browser extensions over
WebSockets and to paired devices with a mutual Ed25519 handshake.

This crate is the daemon's core, verified with Verus.

- `src/hexcodec.rs`: hex encoding and decoding (the `hex` crate), with the
  round-trip law.
- `src/crypto.rs`: device identities, signatures and signature checks
  (`ed25519-dalek`), and the message signed for a challenge.
- `src/pairing.rs`: one-time pairing challenges, dropped once they are five
  minutes old when the next challenge is handed out, and the pairing
  decision.
- `src/peer.rs`: the peer session as a state machine, with the laws that a
  peer is authenticated only by a signature that its stored key accepts.
- `src/extension.rs`: which extension connections are admitted, how a
  visit is recorded, which connections hear a cookie change.
- `src/dashboard.rs`: the dashboard's log window, daemon control and labels.
- `src/protocol.rs`: the exchanged records and the configuration directory.

`app/` is the daemon program around it: HTTP routes, WebSockets, SQLite,
files, and the desktop dashboard shell.
