//! Layer stack management for a programmable keyboard remapper.
//!
//! Layers map physical key codes to actions; the manager keeps a merged
//! view in which every key resolves to the action of the highest active
//! layer that defines it, honouring per-key and global locks.

pub mod actions;
pub mod keys;
pub mod laws;
pub mod layer;
pub mod layers;
pub mod notify;
