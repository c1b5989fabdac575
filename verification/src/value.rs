//! The dynamic value tree handed to the encoder: a closed set of loosely
//! typed nodes produced upstream from human-authored input.

use vstd::prelude::*;

verus! {

/// A dynamically typed value to be encoded against a type descriptor.
///
/// `Tuple` and `Record` each may carry an identifier naming a variant case;
/// `Record` holds ordered named entries, `List` an ordered homogeneous
/// collection, and `Bytes` a raw byte string (a fast path distinct from a
/// `List` of small integers).
#[derive(Debug)]
pub enum Value {
    Bool(bool),
    UInt(u128),
    Str(String),
    Bytes(Vec<u8>),
    List(Vec<Value>),
    Tuple(Option<String>, Vec<Value>),
    Record(Option<String>, Vec<(String, Value)>),
}

} // verus!
