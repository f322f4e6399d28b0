//! Shared utility types.

pub mod rcvec;

pub use crate::utils::rcvec::{RcVec, RcVecExt, RcVecU8Ext};
