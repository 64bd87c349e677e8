//! A marshaling ABI between a sandboxed guest module and its host.
//!
//! Host and guest share no data structures. All that crosses the boundary
//! between them is a pointer into the guest's memory or a plain scalar, so
//! both sides must agree, byte for byte, on what stands behind a pointer and
//! on who owns it.
//!
//! - [`arena`] is the guest memory: regions are created, owned and released.
//! - [`buffer`] lays a binary payload out behind a pointer.
//! - [`text`] lays text out behind a pointer.
//! - [`capability`] holds the operations that the guest offers to the host.
//! - [`host`] holds what the guest asks of the host in return.

pub mod arena;
pub mod buffer;
pub mod capability;
pub mod host;
pub mod text;

pub use arena::{allocate, deallocate, Arena, Pointer};
pub use buffer::{bytes_from_ptr, ptr_from_bytes};
pub use capability::{hello, reverse, sum, workspace_write, WorkspaceFiles};
pub use host::callback;
pub use text::{get_string_size, ptr_from_string, string_from_ptr};
