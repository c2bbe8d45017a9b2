//! Host-side capability substrate for a sandboxed guest session.
//!
//! A session owns a [`table::ResourceTable`] that hands the guest opaque
//! integer handles to host-owned values (bucket names, byte buffers, incoming
//! payloads, capability errors, stream adapters).  The dispatch layer
//! ([`dispatch`]) turns guest operations into calls against pluggable
//! capability handlers ([`handler`]) and folds handler failures into
//! guest-visible capability errors stored in the table.  Invocation routing
//! ([`bus`]) resolves an abstract call target from binding/namespace or
//! interface metadata, and the legacy compatibility shim ([`shim`]) translates
//! a single-envelope binary call encoding ([`codec`]) into native capability
//! calls.

pub mod buffer;
pub mod bus;
pub mod codec;
pub mod dispatch;
pub mod handler;
pub mod laws;
pub mod mem;
pub mod shim;
pub mod table;
