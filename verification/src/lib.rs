//! AbyssBSD core logic: the message primitive, the capability body, the
//! broker's manifests, catalogue and authority graph, and the small
//! supporting vocabularies around them.

pub mod bootstrap;
pub mod broker;
pub mod bundle;
pub mod cap;
pub mod log;
pub mod looper;
pub mod msg;
pub mod render;
pub mod text;
