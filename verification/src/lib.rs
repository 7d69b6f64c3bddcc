//! A small manager for locally installed language runtimes.
//!
//! The library keeps a registry of runtime installations, each tagged with
//! the capabilities it provides, and models the single symbolic link that
//! selects the active runtime.  The registry is persisted through a
//! canonical textual encoding whose round trip is proved.

pub mod codec;
pub mod detector;
pub mod errors;
pub mod registry;
pub mod str_util;
pub mod switcher;
