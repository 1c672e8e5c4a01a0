//! Codec for the witness message of a proof-system interchange format.
//!
//! The crate converts between an owned, buffer-independent witness value
//! ([`witness::WitnessOwned`]) and a self-describing binary envelope: values
//! are written bottom-up into an append-only arena ([`builder::Builder`]),
//! the envelope carries a `message_type` tag, and a 4-byte length prefix
//! ([`frame`]) delimits messages on a stream.  Decoding copies every byte out
//! of the input buffer, so the result does not borrow from it.

pub mod builder;
pub mod decode;
pub mod frame;
pub mod laws;
pub mod variables;
pub mod witness;
pub mod wire;

pub use decode::decode;
pub use decode::DecodeError;
pub use frame::read_framed;
pub use frame::write_framed;
pub use variables::VariablesOwned;
pub use witness::encode;
pub use witness::try_encode;
pub use witness::WitnessOwned;
