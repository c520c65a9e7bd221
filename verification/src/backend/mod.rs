//! Memory backends (`ram` / `shm` / `file`) and the factory from a [`Kind`](crate::io::Kind).

pub mod factory;
pub mod file;
pub mod ram;
pub mod shm;

pub use factory::{Slab, UnknownScheme};
pub use file::File;
pub use ram::Ram;
pub use shm::Shm;
