//! The type registry: a read-only table of type descriptors, keyed by
//! positive non-zero type identifiers. Identifier `i` names the descriptor
//! stored at position `i - 1`; `0` never resolves.

use vstd::prelude::*;

verus! {

/// The primitive kinds a descriptor can name. The signed kinds and `Char`
/// are recognized but the encoding rejects them explicitly.
#[derive(Debug, Clone, Copy, PartialEq, Eq, Structural)]
pub enum PrimitiveKind {
    Bool,
    Char,
    Str,
    U8,
    U16,
    U32,
    U64,
    U128,
    I8,
    I16,
    I32,
    I64,
    I128,
}

/// One field of a composite or of a variant case: an optional name and the
/// identifier of the field's type, resolved through the registry on demand.
#[derive(Debug)]
pub struct Field {
    pub name: Option<String>,
    pub type_id: u32,
}

/// One case of a variant type: its name and its ordered fields.
#[derive(Debug)]
pub struct VariantCase {
    pub name: String,
    pub fields: Vec<Field>,
}

/// A type descriptor: the shape of one type in the registry.
#[derive(Debug)]
pub enum TypeDescriptor {
    /// A primitive type.
    Primitive(PrimitiveKind),
    /// An ordered set of fields; empty is a unit type, a single field is a
    /// transparent wrapper, all-unnamed is tuple-like, all-named struct-like.
    Composite(Vec<Field>),
    /// A tagged union of named cases, encoded as a one-byte case index
    /// followed by the matched case's fields.
    Variant(Vec<VariantCase>),
    /// A fixed-length collection: the element type identifier and the
    /// declared length. The length is implied by the type and never encoded.
    Array(u32, u32),
    /// A variable-length collection of the given element type; the element
    /// count is encoded before the elements.
    Sequence(u32),
}

/// A read-only registry of type descriptors. Identifier `i` (one-based)
/// names `types[i - 1]`.
pub struct Registry {
    pub types: Vec<TypeDescriptor>,
}

impl Registry {
    /// What `resolve` returns: the descriptor a type identifier names,
    /// or `None` when the identifier is zero or out of range.
    pub open spec fn spec_resolve(&self, id: u32) -> Option<TypeDescriptor> {
        if 1 <= id && id <= self.types@.len() {
            Some(self.types@[id - 1])
        } else {
            None
        }
    }

    /// Builds a registry from the descriptor table.
    pub fn new(types: Vec<TypeDescriptor>) -> (r: Registry)
        ensures
            r.types@ == types@,
    {
        Registry { types }
    }

    /// Resolves a type identifier to its descriptor; fails exactly when the
    /// identifier is absent from the registry.
    pub fn resolve(&self, id: u32) -> (r: Option<&TypeDescriptor>)
        ensures
            match self.spec_resolve(id) {
                Some(d) => r matches Some(rd) && *rd == d,
                None => r is None,
            },
    {
        if 1 <= id && (id as usize) <= self.types.len() {
            Some(&self.types[(id - 1) as usize])
        } else {
            None
        }
    }
}

} // verus!
