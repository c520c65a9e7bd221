//! Pinned catalog blobs in the primary slab arena.
//!
//! Both tables share one wire shape ([`wire::Catalog`]); they differ only by row type and tag.

pub mod metatype;
pub mod objects;
pub mod type_catalog;
pub mod wire;
