//! Lazy binding to dynamic shared libraries.
//!
//! Declared foreign functions are organised into binding groups, one per
//! library identity. Each group owns a cache that is initialised on first use:
//! the library is opened once, every declared symbol is resolved once, and
//! calls are then dispatched through the cached addresses.

pub mod attribute;
pub mod config;
pub mod decl;
pub mod declare;
pub mod engine;
pub mod error;
pub mod expand;
pub mod group;
pub mod identity;
pub mod key;
pub mod protocol;
pub mod syntax;

pub use crate::expand::lazylink;
