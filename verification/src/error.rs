//! The encoder's error surface: a structured kind plus a path of type
//! identifiers accumulated while the failure unwinds, so a caller can see
//! which nested type was being encoded when the failure arose.

use vstd::prelude::*;

verus! {

/// The reasons an encode call fails. All are terminal for the call.
#[derive(Debug, PartialEq, Eq)]
pub enum ErrorKind {
    /// The type identifier is absent from the registry.
    UnknownType(u32),
    /// The value's kind is incompatible with the descriptor expected here.
    ShapeMismatch,
    /// A tuple or record was supplied for a variant type without a case name.
    MissingVariantIdentifier,
    /// The named case is not among the declared cases.
    UnknownVariantCase(String),
    /// The matched case's declaration index does not fit in one byte.
    VariantIndexOverflow,
    /// Declared fields and supplied values have different lengths.
    FieldArityIssue,
    /// The descriptor names a shape the encoding explicitly rejects:
    /// `Char`, the signed primitives, mixed named and unnamed fields, or a
    /// record payload for a variant case.
    UnsupportedKind,
    /// A literal does not fit the target width, a count does not fit the
    /// count prefix, or a decimal string fails to parse.
    NumericConversion,
    /// The nesting of type resolutions exceeded the hard depth limit.
    RecursionLimitExceeded,
}

/// The mathematical model of an [`EncodeError`]: the same kind, with the
/// context path as a sequence.
pub struct SpecError {
    pub path: Seq<u32>,
    pub kind: ErrorKind,
}

/// An encoding failure: the kind of the failure and the path of type
/// identifiers it was wrapped with on the way out, outermost first.
#[derive(Debug, PartialEq, Eq)]
pub struct EncodeError {
    pub path: Vec<u32>,
    pub kind: ErrorKind,
}

impl View for EncodeError {
    type V = SpecError;

    open spec fn view(&self) -> SpecError {
        SpecError { path: self.path@, kind: self.kind }
    }
}

impl EncodeError {
    /// A fresh error with an empty context path.
    pub fn new(kind: ErrorKind) -> (r: EncodeError)
        ensures
            r@ == (SpecError { path: Seq::<u32>::empty(), kind }),
    {
        let r = EncodeError { path: Vec::new(), kind };
        proof {
            assert(r.path@ =~= Seq::<u32>::empty());
        }
        r
    }

    /// Wraps the error with the identifier of the type that was being
    /// encoded when it arose, keeping the original cause.
    pub fn wrap(self, id: u32) -> (r: EncodeError)
        ensures
            r@ == (SpecError { path: self@.path.insert(0, id), kind: self@.kind }),
    {
        let EncodeError { mut path, kind } = self;
        path.insert(0, id);
        EncodeError { path, kind }
    }
}

} // verus!
