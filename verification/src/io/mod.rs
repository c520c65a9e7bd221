//! Storage I/O: storage kinds, open state and modes, backing metadata and the backend traits.

pub mod access;
pub mod info;
pub mod kind;
pub mod mapping;
pub mod resize;
pub mod slab;
pub mod state;

pub use access::{HasAccess, OpenMode};
pub use info::{HasInfo, Info};
pub use kind::{HasKind, Kind, KindMismatch};
pub use mapping::HasMapping;
pub use resize::HasResize;
pub use slab::{HasArenaClaim, HasSlab, SlabError};
pub use state::{HasState, State};
