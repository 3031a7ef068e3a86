//! gRPC framing, status propagation and call-shape state machines, with the
//! transport and the message types left to the caller.
//!
//! - `codec`: one frame (flag, big-endian length, payload) to and from bytes.
//! - `decoder` / `encoder`: whole message streams, pulled one item at a time.
//! - `status`: the canonical status and its trailer metadata.
//! - `server` / `client`: the two ends of a call, per call shape.
//! - `message`: text messages serialized with prost.
pub mod bin_header;
pub mod client;
pub mod codec;
pub mod decoder;
pub mod encoder;
pub mod message;
pub mod server;
pub mod status;
