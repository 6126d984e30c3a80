//! Management of copy-on-write snapshots of a running system's root volume.
//!
//! The crate is built around five pieces: a codec that parses and formats
//! snapshot names (`codec`), a catalog of the snapshots found in a subvolume
//! directory (`catalog`), a resolver that picks the latest snapshot carrying
//! a tag (`resolver`), a rollback state machine that swaps the live root for
//! a chosen snapshot (`rollback`), and a mount-table guard consulted before
//! any mutating operation (`mount`).
//!
//! All storage and mount state reaches the crate as plain values: the text
//! that the storage tools print, split and checked here, never trusted.

pub mod catalog;
pub mod codec;
pub mod errors;
pub mod mount;
pub mod resolver;
pub mod rollback;
pub mod text;
