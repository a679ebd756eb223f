//! A schema-free Protocol Buffers wire-format encoder.
//!
//! The encoder turns a dynamically typed tree of key/value pairs into
//! protobuf binary wire format. No compiled `.proto` descriptor is involved:
//! each mapping key is an annotated key of the form `"<kind>/<field_number>"`,
//! and the wire type of the field is inferred from its `kind` part.

pub mod encode;
pub mod error;
pub mod key;
pub mod scalar;
pub mod tag;
pub mod value;
pub mod varint;

pub use encode::{encode_object, ProtoSerializer};
pub use error::EncodeError;
pub use key::{parse_key, FieldKind};
pub use value::Value;
