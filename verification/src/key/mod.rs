//! Keys identifying endpoints and types: hashes of a path together with a schema.
pub mod hash;
