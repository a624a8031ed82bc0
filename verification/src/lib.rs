//! A certified, versioned asset store.
//!
//! Assets are byte payloads kept under path-like keys, each in one or more
//! content encodings. The store derives a Merkle root over everything it can
//! serve, hands out witnesses that tie a response (or the absence of a path)
//! to that root, streams large bodies through stateless continuation tokens,
//! gates every mutation by a permission registry, and crosses a restart only
//! as an explicit snapshot.

pub mod api;
pub mod asset;
pub mod bytes;
pub mod certification;
pub mod chunks;
pub mod encoding;
pub mod error;
pub mod frontend;
pub mod hash;
pub mod headers;
pub mod http;
pub mod laws;
pub mod ledger;
pub mod ordered;
pub mod ownership;
pub mod path;
pub mod permissions;
pub mod scaffold;
pub mod snapshot;
pub mod state;
pub mod stores;
pub mod text;
pub mod tree;
pub mod types;
