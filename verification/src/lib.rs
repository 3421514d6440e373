//! A tenant-scoped API-key service core.
//!
//! The library issues, lists, revokes, regenerates and resolves opaque
//! API-key secrets on behalf of tenants. Every operation is parameterized
//! by a tenant identifier, and no operation can observe or mutate keys
//! outside the caller's own tenant partition. The pieces are:
//!
//! - [`key`]: the key records and the mathematical model of a tenant's
//!   key partition;
//! - [`storage`]: the contract every storage backend must meet;
//! - [`memory`]: the in-memory backend;
//! - [`generator`]: the secret generator contract and its UUID-backed
//!   implementation;
//! - [`manager`]: the key lifecycle manager that ties them together;
//! - [`laws`]: proofs of the isolation and lifecycle guarantees.

pub mod generator;
pub mod key;
pub mod laws;
pub mod manager;
pub mod memory;
pub mod storage;
