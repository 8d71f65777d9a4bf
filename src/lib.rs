//! Host-side runtime for sandboxed extension modules.
//!
//! The library holds the verified logic of the runtime: bounds-checked access
//! to a module's linear memory, the wire codec shared with guest builds, the
//! component and resource registries, the entity store that modules read and
//! extend, the host entrypoints that modules call, the module loader and the
//! phase scheduler.

pub mod codec;
pub mod host;
pub mod loader;
pub mod memory;
pub mod registry;
pub mod store;
pub mod system;
