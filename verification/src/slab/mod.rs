//! Slab layout: the header prefix, arena bounds and the pinned catalog chains.

pub mod error;
pub mod header;
pub mod layout;
pub mod pin;
pub mod chain;
pub mod primary;
pub mod stats;
pub mod register;
pub mod chain_laws;
pub mod segment;
