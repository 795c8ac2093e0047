# broker

A TCP broker for Teltonika GPS trackers. Devices connect, announce their
IMEI, stream Codec 8 Extended AVL frames and answer Codec 12 commands; the
broker acknowledges frames, publishes decoded data to NATS JetStream, and
relays commands queued in Redis.

## Layout

- `src/` — the library, verified with Verus:
  - `units/utils.rs`: a byte cursor with big-endian reads;
  - `units/teltonika/data_parser.rs`: the Codec 8 Extended decoder, specified
    by `spec_parse_frame`;
  - `units/teltonika/codec12.rs`: CRC-16/IBM, command frames and response
    decoding, with a round-trip law;
  - `units/teltonika/mod.rs`: framing of the byte stream, what each frame
    calls for, and the per-connection `Session`;
  - `units/teltonika/validations.rs`: the future-timestamp window;
  - `commands.rs`, `nats.rs`, `rfid.rs`, `db.rs`: subjects, keys, limits,
    RFID scan selection and unit makes;
  - `text.rs`, `bigendian.rs`, `error.rs`: shared specifications and errors.
- `app/` — the program: sockets, NATS, Redis, PostgreSQL, Sentry, serde
  forms of the message types, and the connection loop that drives `Session`.
- `tests/` — tests of the library.
