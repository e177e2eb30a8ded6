//! Reading, editing and writing PNG-style chunked files, with the chunk
//! envelope (length, type, payload, CRC-32) decoded and encoded under
//! verified contracts.
use vstd::prelude::*;

pub mod bytes;
pub mod chunk;
pub mod chunk_type;
pub mod commands;
pub mod error;
pub mod png;
