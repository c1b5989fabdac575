//! A type-directed value encoder: given a read-only registry of type
//! descriptors and a dynamically-typed value tree, it produces the dense
//! binary encoding that a statically-typed implementation of the same type
//! would produce, by dispatching on the descriptor's kind at run time.

pub mod codec;
pub mod decimal;
pub mod encode;
pub mod error;
pub mod laws;
pub mod registry;
pub mod value;

pub use encode::{encode_value, EncodeValue, MAX_DEPTH};
pub use error::{EncodeError, ErrorKind};
pub use registry::{Field, PrimitiveKind, Registry, TypeDescriptor, VariantCase};
pub use value::Value;
