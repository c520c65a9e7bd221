//! Shared-memory slab layout, catalog wire formats and typed slab objects.

pub mod codec;
pub mod chars;
pub mod url;
pub mod paths;
pub mod tags;
pub mod text;
pub mod ids;
pub mod types;
pub mod catalog;
pub mod defaults;
pub mod slab;
pub mod io;
pub mod backend;
pub mod manager;
pub mod diagnostics;

use vstd::prelude::*;

verus! {

} // verus!
