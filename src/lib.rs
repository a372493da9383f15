//! Structural codec between application records and the typed attribute-value
//! model of a key-value store: a scalar and collection codec, schema
//! directives with their validation, record encoding and decoding, key
//! projection and internally tagged unions.

pub mod decode;
pub mod encode;
pub mod error;
pub mod ident;
pub mod key;
pub mod laws;
pub mod number;
pub mod page;
pub mod retry;
pub mod schema;
pub mod semantics;
pub mod text;
pub mod time;
pub mod types;
pub mod value;

pub use decode::{decode, decode_from, from_attributes};
pub use encode::{encode, encode_into, into_attributes};
pub use error::{AttributeError, SchemaError};
pub use number::NumKind;
pub use retry::{Counter, Policy};
pub use schema::{parse_directive, FieldDirective};
pub use types::{EntitySchema, FieldSchema, SkipRule, UnionSchema, Value, ValueType, VariantSchema};
pub use value::{AttributeValue, Attributes};
