//! Byte containers and in-memory stream endpoints.

pub mod data;
pub mod sink;
pub mod source;

pub use crate::bytes::data::Data;
pub use crate::bytes::sink::Sink;
pub use crate::bytes::source::Source;
