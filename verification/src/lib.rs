//! Uniform eXchange Format (UXF): a plain text, human readable, optionally
//! typed storage format that supports custom types. This library holds
//! the UXF data model, its checks, and its text form.
pub mod error;
pub mod text;
pub mod util;
pub mod check;
pub mod consts;
pub mod field;
pub mod tclass;
pub mod event;
pub mod format;
pub mod datetime;
pub mod key;
pub mod value;
pub mod list;
pub mod map;
pub mod table;
pub mod order;
pub mod ordering;
pub mod tclasses;
pub mod imports;
pub mod visit;
pub mod token;
pub mod header;
pub mod numbers;
pub mod lexer;
pub mod naturalize;
pub mod realtext;
pub mod parser;
pub mod uxf;
