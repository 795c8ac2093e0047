//! Verified core of a telematics broker: the Teltonika wire formats
//! (Codec 8 Extended AVL frames and Codec 12 command frames), the framing of
//! a device's byte stream, and the small text protocols (NATS subjects,
//! Redis keys, environment limits) that the broker speaks.
pub mod error;
pub mod bigendian;
pub mod units;
pub mod text;
pub mod db;
pub mod commands;
pub mod nats;
pub mod rfid;
