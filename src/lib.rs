//! Safe handling of hierarchical registry keys: path encoding, the
//! translation of store status codes into errors, the enumeration cursor
//! and the typed value codec. The native store primitives are called by
//! the embedding program, which hands their status codes to this library.

pub mod error;
pub mod path;
pub mod sec;
pub mod key;
pub mod iter;
pub mod value;
