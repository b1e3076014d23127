//! A self-describing, tree-structured serialization engine.
//!
//! An object tree of named nodes, each carrying a sequence of typed fields,
//! is persisted to either a compact binary stream or a human-readable text
//! stream, and reconstructed from either encoding into a [`visitor::Visitor`]
//! whose nodes live in a generational [`pool::Pool`].

pub mod ascii;
pub mod binary;
pub mod cursor;
pub mod error;
pub mod field;
pub mod numeric;
pub mod pool;
pub mod reader;
pub mod trusted;
pub mod visitor;
pub mod writer;

pub use ascii::AsciiReader;
pub use binary::BinaryReader;
pub use cursor::ByteReader;
pub use error::{VisitError, VisitResult};
pub use reader::Reader;
pub use visitor::{Visitor, VisitorNode};
pub use field::{Field, FieldKind};
pub use pool::{Handle, Pool, PoolError};
