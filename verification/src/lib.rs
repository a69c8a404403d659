//! Extension bookkeeping core of an editor.
//!
//! The crate discovers installed extensions in a directory tree, builds an
//! aggregate manifest of the content they provide (grammars, languages,
//! themes, language servers), keeps language and theme registries in step
//! with that manifest across startup, reload, install and uninstall, and
//! persists the manifest so that a warm restart avoids re-scanning an
//! unchanged installation.
pub mod order;
pub mod nmap;
pub mod text;
pub mod manifest;
pub mod vfs;
pub mod scan;
pub mod diff;
pub mod registry;
pub mod sched;
pub mod store;
