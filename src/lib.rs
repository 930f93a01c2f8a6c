//! In-memory directory index and path resolution for PK2 pack archives.
//!
//! A pack archive stores a virtual file tree as chains of fixed-size,
//! Blowfish-encrypted blocks. [`loader::ChainLoader`] discovers and decodes
//! every directory chain reachable from the root; [`manager::BlockManager`]
//! answers path queries against the finished index.
pub mod cipher;
pub mod decode;
pub mod entry;
pub mod error;
pub mod chain_map;
pub mod laws;
pub mod loader;
pub mod manager;
