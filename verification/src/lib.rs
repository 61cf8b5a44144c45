//! A model of hardware cache memory: address decomposition into tag, line and
//! word fields, a direct-mapped cache, a fully associative cache with random
//! replacement, and a two-level memory that reads through a cache and writes
//! straight to its backing store.

pub mod error;
pub mod address;
pub mod access;
pub mod direct;
pub mod ram;
pub mod associative;
pub mod tiered;

pub use crate::access::Accessable;
pub use crate::access::CacheMemory;
pub use crate::direct::CacheDirect;
pub use crate::error::MemoryError;
pub use crate::ram::RAM;
pub use crate::tiered::Memory;
pub use crate::associative::CacheAssociative;
