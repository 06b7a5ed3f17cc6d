//! # lxir — Loxone config model
//!
//! A library for working with Loxone Miniserver configuration documents
//! (`.Loxone` XML) as *source code*: a lossless XML layer, the anatomy of
//! Loxone UUIDs, a semantic read layer, port-direction knowledge, the
//! lockfile, and the textual intermediate representation.
use vstd::prelude::*;

pub mod connectors;
pub mod diff;
pub mod doc;
pub mod entities;
pub mod ir;
pub mod error;
pub mod lock;
pub mod lossless;
pub mod project;
pub mod status;
pub mod strmap;
pub mod text;
pub mod uuid;
pub mod xml;

pub use doc::LoxoneDoc;
pub use error::{Error, Result};
pub use lock::Lockfile;
pub use project::Project;
pub use uuid::LoxUuid;
pub use xml::XmlDocument;

verus! {
}
