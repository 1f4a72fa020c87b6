//! Wire-level core of an Avro-style codec: zigzag variable-length integers,
//! a guard on lengths read from untrusted input, and an object container
//! writer that frames schema-tagged, compressed blocks of encoded records.

pub mod error;
pub mod zigzag;
pub mod allocation;
pub mod bytes;
pub mod codec;
pub mod writer;
pub mod map_helper;
