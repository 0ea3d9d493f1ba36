//! A registry core for federated software-forge spidering.
//!
//! Forge instances (identified by a normalized `scheme://host` hostname),
//! their users and repositories are kept in a persistence layer whose
//! referential invariants are verified.  Before an instance may be
//! registered, its administrator proves control of the hostname through a
//! DNS TXT challenge whose lookup key is a deterministic function of a
//! shared secret and the hostname, which makes repeated requests replay
//! safe.  Persisted state can be mirrored into an export tree and bundled
//! for consumption by peer registries.

pub mod db;
pub mod errors;
pub mod federate;
pub mod models;
pub mod verify;
