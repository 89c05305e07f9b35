//! Wire schema, codec, and exchange state machines for an edge sensing
//! client that ships camera frames to a compute server over a strict
//! request/reply channel.
//!
//! The crate is organised leaves first: `messages` holds the two wire
//! records, `wire` the byte-level encoders and parsers, `codec` the
//! public encode/decode surface with its round-trip laws, `session` the
//! client-side cycle state machine, `server` the server-side handling,
//! and `byte_io` small byte sink/source adapters.

pub mod byte_io;
pub mod codec;
pub mod messages;
pub mod server;
pub mod session;
pub mod wire;

pub use messages::CameraDirection;
pub use messages::CameraImage;
pub use messages::VmecRequestFields;
pub use messages::VmecResponseFields;
