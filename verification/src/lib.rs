//! Project and task bookkeeping with verified identity assignment and a
//! verified JSON wire format.
//!
//! The library models a tree of projects containing tasks. Every entity is
//! held in an [`helper::AutoIncrementalMap`], which hands out stable integer
//! keys, and the whole tree can be rendered to and re-read from a JSON
//! document whose shape is pinned down by specification functions. Where the
//! data travels (a local file or a remote endpoint) is described by a
//! destination descriptor; the I/O itself is left to an embedding
//! application.
//!
//! The wire format is canonical: the renderer emits exactly one spelling of
//! each document, and the parser accepts exactly that spelling — the
//! renderer's field order, no insignificant whitespace, and quote and
//! backslash as the only string escapes. Map keys may come in any order,
//! and timestamps in any RFC 3339 spelling. Every other document — however
//! it fails to be canonical — is rejected as a decoding error, never read
//! partially or filled with defaults.

pub mod config;
pub mod data;
pub mod error;
pub mod helper;
pub mod jsontext;
mod milston;
mod project;
mod task;
pub mod timefmt;

pub use crate::error::Error;
pub use crate::milston::{Milston, MilstonModel};
