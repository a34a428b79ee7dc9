//! A small content-addressed version-control core: object framing and
//! identity, tree and commit payloads, delta reconstruction, packfile
//! decoding and the smart-HTTP ref advertisement, all as functions on bytes.

pub mod error;
pub mod ident;
pub mod backend;
pub mod bytes;
pub mod delta;
pub mod object;
pub mod commit;
pub mod pack;
pub mod refs;
pub mod repo;
pub mod tree;
