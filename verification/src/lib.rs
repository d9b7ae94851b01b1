//! Decoding of `multipart/form-data` fields into a structured document and,
//! from there, into a value of a declared shape.
//!
//! The fields come from a transport that this crate never touches. Each
//! field is classified ([`field`]): one that carries a file name becomes a
//! [`File`] of all its chunks, any other is a scalar whose first chunk is
//! coerced into a typed [`Value`] ([`scalar`]). The values are merged into a
//! [`Document`] ([`document`]), where a name that ends in `[]` appends to a
//! sequence and any other name overwrites. The [`driver`] does this field by
//! field, either as a machine that says what to pull next or over fields
//! that are already in memory, and [`schema`] converts the finished document
//! into a target shape or says which field does not fit. [`encode`] and
//! [`transport`] hold what is proved of the whole: that a document written
//! down as fields decodes to itself, and that the machine, driven against a
//! transport, decodes the fields that the transport yields.

pub mod document;
pub mod driver;
pub mod encode;
pub mod error;
pub mod extract;
pub mod field;
pub mod file;
pub mod scalar;
pub mod schema;
pub mod transport;
pub mod value;

pub use document::{Document, DocumentView};
pub use driver::{decode, parse, Decoder, Event, FieldSegment, Request, Step};
pub use error::DecodeError;
pub use extract::Multipart;
pub use field::FieldMeta;
pub use file::{File, FileView};
pub use schema::{convert, FieldSpec, FieldType, Kind, Policy, Shape, ValidationError};
pub use value::{Value, ValueView};
