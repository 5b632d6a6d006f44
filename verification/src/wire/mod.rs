//! The wire protocol: how frames and the messages inside them are laid out
//! in bytes, and how they are read back.

pub mod decode;
pub mod encode;
pub mod fields;
pub mod laws;
pub mod schema;
pub mod varint;
