//! Registry-driven binding generation and marshalling arithmetic for a
//! versioned, extensible native graphics API.
//!
//! The generation phase (registry model, extension resolver, binding
//! emitter, platform selector) is a deterministic pure transformation;
//! the marshalling layer computes the exact byte layouts that native
//! calls require. Both are specified and verified here; the native
//! calls themselves live outside the library.

pub mod emit;
pub mod error;
pub mod laws;
pub mod loader;
pub mod marshal;
pub mod order;
pub mod platform;
pub mod registry;
pub mod resolver;
