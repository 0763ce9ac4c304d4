# lamco_rdp_server

The decision-making core of an RDP server for Linux desktops, verified with Verus:
planar bitmap coding, clipboard and file transfer, socket activation and proxy
secrets, metrics, health sensors, video statistics, and the life of the server
process as a control panel sees it.

## Layout

- `src/` is the library. Its functions carry contracts and are proved, but
  for thin wrappers around calls into outside crates, each marked
  `#[verifier::external_body]` with a comment that says what is claimed of the call.
- `src/server/` encodes bitmaps with the planar codec and reads them back; the
  encoder is proved lossless against a decoder that is stated on its own, as which
  the decoder in use is taken to read the encoder's streams.
- `src/clipboard/` converts text, images and file lists between Windows and Linux,
  and decides what to do with each clipboard message.
- `src/transport/` validates passed sockets and proxy secrets.
- `src/runtime/` names and places the PID file, and keeps metrics.
- `src/health/` holds the sensors and assembles performance snapshots.
- `src/egfx/`, `src/mutter/` and `src/gui/` hold the rest of the session's and the
  control panel's decisions.
- `app/` performs what the library decides: files, sockets, signals, D-Bus, locks
  and floating-point summaries.
- `tests/` runs the library against concrete values, with the outside crates linked.

Functions take the time, the environment and the answers of the outside world as
arguments, so each contract holds for every such answer.
