//! The memory manager: slab locators, the registry of registrations, the table of
//! segments, usage rows and the manager's errors.

pub mod data;
pub mod error;
pub mod locator;

pub use data::{MemEntry, Registered};
pub use error::ManagerError;
pub use locator::{Locator, LocatorRef};
pub mod registry;
pub mod usage;
pub mod memory;
