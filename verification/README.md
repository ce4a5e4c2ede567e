# robocol

The FTC Robocol protocol (Driver Station <-> Robot Controller, UDP port
20884), as a Verus-verified library.

- `src/` — the verified library: the packet codecs (`packets`, `wire`,
  `base64`), the command vocabulary (`cmd`), the client session as a state
  machine (`client`), camera-stream parsing and frame cutting (`video`),
  packet-capture reading and the capture report (`capture`: the per-packet
  listing, and the end-of-run report that names every command, OpMode field
  and flavor, and peer version the crate does not already know), and a
  stand-in Robot Controller for testing without hardware (`fake_rc`, a state
  machine, with its test-frame drawing and JPEG encoding). `chunked` models
  a reader of a chunked HTTP body built on `video::Chunked`'s steps and
  proves that it reads back the body that was encoded. Each public function
  states its result in its contract, over byte-level and state-machine
  models; the round trips, the session's rules and the report's ordering
  are stated and proved as laws.
- `app/` — ordinary Rust around it: the UDP socket and worker thread that run
  the session, JSON payloads through serde, camera streams over TCP, the
  capture decoder's command line and file reading (`capture::run_decoder`),
  the stand-in's socket loop, clock and test-frame colours
  (`fake_rc::run_fake_rc`), the interactive console for a real Control Hub
  (`ds_cli::run_ds_cli`), and the floating-point views of telemetry and
  capture timestamps.
- `tests/` — tests of the library on concrete values.
