//! The message primitive: the self-describing value, its byte codec, the
//! cross-process envelope, and the handle sink/store.

pub mod bytes;
pub mod error;
pub mod laws;
pub mod schema;
pub mod value;
pub(crate) mod cursor;
pub mod decode;
pub mod envelope;
pub mod wire;
