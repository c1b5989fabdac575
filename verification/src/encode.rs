//! The value encoder: a recursive, type-dispatching procedure that resolves
//! a type identifier through the registry, dispatches on the descriptor's
//! kind, and appends the value's encoding to an append-only byte buffer.
//!
//! The whole encoding is stated first as a family of spec functions
//! (`spec_encode_value` and friends); every executable function is proved
//! to append exactly the bytes the model gives, and to fail with exactly
//! the error the model gives. A failure also fixes the buffer exactly:
//! the model pairs each error with the bytes appended before it arose
//! (they are not rolled back, and a validation failure appends nothing);
//! the caller must still treat the buffer as invalidated.

use vstd::prelude::*;
use vstd::utf8::encode_utf8;
use crate::codec::{
    bool_bytes, compact_u32_bytes, le_bytes, scale_compact_u32, scale_encode_bool,
    scale_encode_str, scale_encode_u128, scale_encode_u16, scale_encode_u32, scale_encode_u64,
    scale_encode_u8, str_bytes, utf8_len,
};
use crate::decimal::{parse_decimal_str, spec_parse_decimal, strip_separators};
use crate::error::{EncodeError, ErrorKind, SpecError};
use crate::registry::{Field, PrimitiveKind, Registry, TypeDescriptor, VariantCase};
use crate::value::Value;

verus! {

broadcast use vstd::prelude::Seq::add_empty_right;

/// The hard bound on the nesting of type resolutions: deeper (for example
/// cyclic) type graphs fail with `RecursionLimitExceeded` instead of
/// exhausting the call stack.
pub const MAX_DEPTH: u32 = 64;

/// What one encoding step yields: on success the bytes it appends; on
/// failure the error together with the bytes it had already appended when
/// the failure arose (they are not rolled back).
pub type SpecOutcome = Result<Seq<u8>, (SpecError, Seq<u8>)>;

/// An error with an empty context path.
pub open spec fn base_err(kind: ErrorKind) -> SpecError {
    SpecError { path: Seq::empty(), kind }
}

/// A failure that appends nothing: every validation error precedes the
/// first write of the step that raises it.
pub open spec fn err_nothing(kind: ErrorKind) -> SpecOutcome {
    Err((base_err(kind), Seq::empty()))
}

/// Every field carries a name.
pub open spec fn all_named(fields: Seq<Field>) -> bool {
    forall|i: int| 0 <= i < fields.len() ==> (#[trigger] fields[i].name) is Some
}

/// No field carries a name.
pub open spec fn all_unnamed(fields: Seq<Field>) -> bool {
    forall|i: int| 0 <= i < fields.len() ==> (#[trigger] fields[i].name) is None
}

/// The zero-based declaration index of the first case named `name`.
pub open spec fn spec_case_index(cases: Seq<VariantCase>, name: Seq<char>) -> Option<nat>
    decreases cases.len(),
{
    if cases.len() == 0 {
        None
    } else if cases[0].name@ == name {
        Some(0nat)
    } else {
        match spec_case_index(cases.drop_first(), name) {
            None => None,
            Some(k) => Some(k + 1),
        }
    }
}

/// What [`spec_case_index`] means: when it yields an index, that index is
/// in range, names the case asked for, and no earlier case does; when it
/// yields nothing, no case carries the name.
pub proof fn lemma_case_index(cases: Seq<VariantCase>, name: Seq<char>)
    ensures
        match spec_case_index(cases, name) {
            Some(k) => k < cases.len() && cases[k as int].name@ == name && (forall|j: int|
                0 <= j < k ==> (#[trigger] cases[j].name@) != name),
            None => forall|j: int| 0 <= j < cases.len() ==> (#[trigger] cases[j].name@) != name,
        },
    decreases cases.len(),
{
    if cases.len() > 0 && cases[0].name@ != name {
        lemma_case_index(cases.drop_first(), name);
        let rest = cases.drop_first();
        match spec_case_index(rest, name) {
            Some(k) => {
                assert(cases[k + 1 as int].name@ == name);
                assert forall|j: int| 0 <= j < k + 1 implies (#[trigger] cases[j].name@)
                    != name by {
                    if j > 0 {
                        assert(cases[j] == rest[j - 1]);
                    }
                }
            },
            None => {
                assert forall|j: int| 0 <= j < cases.len() implies (#[trigger] cases[j].name@)
                    != name by {
                    if j > 0 {
                        assert(cases[j] == rest[j - 1]);
                    }
                }
            },
        }
    }
}

/// The values of a record's entries, in entry order.
pub open spec fn entry_values(entries: Seq<(String, Value)>) -> Seq<Value> {
    entries.map_values(|p: (String, Value)| p.1)
}

/// The model of the encoder's entry point: resolve the identifier, encode
/// against the descriptor, and wrap any nested failure with the identifier
/// of the failing type. A zero depth budget fails instead of recursing.
pub open spec fn spec_encode_value(reg: Registry, id: u32, v: Value, depth: nat) -> SpecOutcome
    decreases depth, 0nat, 0nat,
{
    if depth == 0 {
        err_nothing(ErrorKind::RecursionLimitExceeded)
    } else {
        match reg.spec_resolve(id) {
            None => err_nothing(ErrorKind::UnknownType(id)),
            Some(desc) => match spec_encode_with_descriptor(reg, desc, v, (depth - 1) as nat) {
                Ok(b) => Ok(b),
                Err((e, p)) => Err(
                    (SpecError { path: e.path.insert(0, id), kind: e.kind }, p),
                ),
            },
        }
    }
}

/// Dispatch on the descriptor's kind.
pub open spec fn spec_encode_with_descriptor(
    reg: Registry,
    desc: TypeDescriptor,
    v: Value,
    depth: nat,
) -> SpecOutcome
    decreases depth, 3nat, 0nat,
{
    match desc {
        TypeDescriptor::Primitive(p) => spec_encode_primitive(p, v),
        TypeDescriptor::Composite(fields) => spec_encode_composite(reg, fields@, v, depth),
        TypeDescriptor::Variant(cases) => spec_encode_variant(reg, cases@, v, depth),
        TypeDescriptor::Array(elem, _len) => spec_encode_seq(reg, elem, v, false, depth),
        TypeDescriptor::Sequence(elem) => spec_encode_seq(reg, elem, v, true, depth),
    }
}

/// Composite encoding: a record's entry values or a tuple's values are
/// zipped against the declared fields in order; a bare value stands for
/// the single field of a transparent one-field composite. Mixed named and
/// unnamed fields are rejected.
pub open spec fn spec_encode_composite(
    reg: Registry,
    fields: Seq<Field>,
    v: Value,
    depth: nat,
) -> SpecOutcome
    decreases depth, 2nat, 0nat,
{
    if fields.len() > 0 && !all_named(fields) && !all_unnamed(fields) {
        err_nothing(ErrorKind::UnsupportedKind)
    } else {
        match v {
            Value::Record(_, entries) => spec_encode_fields(
                reg,
                fields,
                entry_values(entries@),
                depth,
            ),
            Value::Tuple(_, items) => {
                if fields.len() == 0 {
                    Ok(Seq::empty())
                } else if all_unnamed(fields) {
                    spec_encode_fields(reg, fields, items@, depth)
                } else {
                    err_nothing(ErrorKind::ShapeMismatch)
                }
            },
            _ => {
                if fields.len() == 1 {
                    spec_encode_value(reg, fields[0].type_id, v, depth)
                } else {
                    err_nothing(ErrorKind::ShapeMismatch)
                }
            },
        }
    }
}

/// Fields and values are paired positionally; unequal lengths are a hard
/// arity error, never silent truncation.
pub open spec fn spec_encode_fields(
    reg: Registry,
    fields: Seq<Field>,
    values: Seq<Value>,
    depth: nat,
) -> SpecOutcome
    decreases depth, 1nat, fields.len(),
{
    if fields.len() != values.len() {
        err_nothing(ErrorKind::FieldArityIssue)
    } else if fields.len() == 0 {
        Ok(Seq::empty())
    } else {
        match spec_encode_value(reg, fields[0].type_id, values[0], depth) {
            Ok(b) => match spec_encode_fields(reg, fields.drop_first(), values.drop_first(),
                depth) {
                Ok(rest) => Ok(b + rest),
                Err((e, p)) => Err((e, b + p)),
            },
            Err((e, p)) => Err((e, p)),
        }
    }
}

/// Variant encoding: the value's identifier names a case; the matched
/// case's zero-based declaration index is emitted as one byte, then the
/// case's fields are encoded against a tuple payload. Record payloads
/// (named-field cases) are explicitly rejected rather than mis-encoded.
pub open spec fn spec_encode_variant(
    reg: Registry,
    cases: Seq<VariantCase>,
    v: Value,
    depth: nat,
) -> SpecOutcome
    decreases depth, 2nat, 0nat,
{
    match v {
        Value::Tuple(oid, items) => match oid {
            None => err_nothing(ErrorKind::MissingVariantIdentifier),
            Some(name) => match spec_case_index(cases, name@) {
                None => err_nothing(ErrorKind::UnknownVariantCase(name)),
                Some(k) => if k > 255 {
                    err_nothing(ErrorKind::VariantIndexOverflow)
                } else {
                    match spec_encode_fields(reg, cases[k as int].fields@, items@, depth) {
                        Ok(b) => Ok(seq![k as u8] + b),
                        Err((e, p)) => Err((e, seq![k as u8] + p)),
                    }
                },
            },
        },
        Value::Record(oid, _) => match oid {
            None => err_nothing(ErrorKind::MissingVariantIdentifier),
            Some(name) => match spec_case_index(cases, name@) {
                None => err_nothing(ErrorKind::UnknownVariantCase(name)),
                Some(k) => if k > 255 {
                    err_nothing(ErrorKind::VariantIndexOverflow)
                } else {
                    err_nothing(ErrorKind::UnsupportedKind)
                },
            },
        },
        _ => err_nothing(ErrorKind::ShapeMismatch),
    }
}

/// Array and sequence encoding share one rule: the element type must
/// resolve; a list value encodes its elements in order, a bytes value
/// appends its bytes directly; only a sequence (`emit_len`) prefixes the
/// element count, compact-encoded, and a count that does not fit the
/// 32-bit count prefix is rejected.
pub open spec fn spec_encode_seq(
    reg: Registry,
    elem_id: u32,
    v: Value,
    emit_len: bool,
    depth: nat,
) -> SpecOutcome
    decreases depth, 2nat, 0nat,
{
    match reg.spec_resolve(elem_id) {
        None => err_nothing(ErrorKind::UnknownType(elem_id)),
        Some(_) => match v {
            Value::List(items) => {
                if emit_len && items@.len() > u32::MAX {
                    err_nothing(ErrorKind::NumericConversion)
                } else {
                    let prefix = if emit_len {
                        compact_u32_bytes(items@.len() as u32)
                    } else {
                        Seq::empty()
                    };
                    match spec_encode_elems(reg, elem_id, items@, depth) {
                        Ok(b) => Ok(prefix + b),
                        Err((e, p)) => Err((e, prefix + p)),
                    }
                }
            },
            Value::Bytes(bs) => {
                if emit_len && bs@.len() > u32::MAX {
                    err_nothing(ErrorKind::NumericConversion)
                } else {
                    let prefix = if emit_len {
                        compact_u32_bytes(bs@.len() as u32)
                    } else {
                        Seq::empty()
                    };
                    Ok(prefix + bs@)
                }
            },
            _ => err_nothing(ErrorKind::ShapeMismatch),
        },
    }
}

/// Each element is encoded against the element type, in order.
pub open spec fn spec_encode_elems(
    reg: Registry,
    elem_id: u32,
    items: Seq<Value>,
    depth: nat,
) -> SpecOutcome
    decreases depth, 1nat, items.len(),
{
    if items.len() == 0 {
        Ok(Seq::empty())
    } else {
        match spec_encode_value(reg, elem_id, items[0], depth) {
            Ok(b) => match spec_encode_elems(reg, elem_id, items.drop_first(), depth) {
                Ok(rest) => Ok(b + rest),
                Err((e, p)) => Err((e, b + p)),
            },
            Err((e, p)) => Err((e, p)),
        }
    }
}

/// Primitive encoding: booleans as one byte; strings length-prefixed;
/// the unsigned widths as fit-checked little-endian bytes, with `U64` and
/// `U128` also accepting a decimal string (grouping separators stripped);
/// `Char` and the signed widths explicitly rejected.
pub open spec fn spec_encode_primitive(p: PrimitiveKind, v: Value) -> SpecOutcome {
    match p {
        PrimitiveKind::Bool => match v {
            Value::Bool(b) => Ok(bool_bytes(b)),
            _ => err_nothing(ErrorKind::ShapeMismatch),
        },
        PrimitiveKind::Char => err_nothing(ErrorKind::UnsupportedKind),
        PrimitiveKind::Str => match v {
            Value::Str(s) => if encode_utf8(s@).len() <= u32::MAX {
                Ok(str_bytes(s@))
            } else {
                err_nothing(ErrorKind::NumericConversion)
            },
            _ => err_nothing(ErrorKind::ShapeMismatch),
        },
        PrimitiveKind::U8 => match v {
            Value::UInt(i) => if i <= u8::MAX {
                Ok(le_bytes(i, 1))
            } else {
                err_nothing(ErrorKind::NumericConversion)
            },
            _ => err_nothing(ErrorKind::ShapeMismatch),
        },
        PrimitiveKind::U16 => match v {
            Value::UInt(i) => if i <= u16::MAX {
                Ok(le_bytes(i, 2))
            } else {
                err_nothing(ErrorKind::NumericConversion)
            },
            _ => err_nothing(ErrorKind::ShapeMismatch),
        },
        PrimitiveKind::U32 => match v {
            Value::UInt(i) => if i <= u32::MAX {
                Ok(le_bytes(i, 4))
            } else {
                err_nothing(ErrorKind::NumericConversion)
            },
            _ => err_nothing(ErrorKind::ShapeMismatch),
        },
        PrimitiveKind::U64 => match v {
            Value::UInt(i) => if i <= u64::MAX {
                Ok(le_bytes(i, 8))
            } else {
                err_nothing(ErrorKind::NumericConversion)
            },
            Value::Str(s) => match spec_parse_decimal(strip_separators(s@)) {
                Some(n) => if n <= u64::MAX {
                    Ok(le_bytes(n as u128, 8))
                } else {
                    err_nothing(ErrorKind::NumericConversion)
                },
                None => err_nothing(ErrorKind::NumericConversion),
            },
            _ => err_nothing(ErrorKind::ShapeMismatch),
        },
        PrimitiveKind::U128 => match v {
            Value::UInt(i) => Ok(le_bytes(i, 16)),
            Value::Str(s) => match spec_parse_decimal(strip_separators(s@)) {
                Some(n) => if n <= u128::MAX {
                    Ok(le_bytes(n as u128, 16))
                } else {
                    err_nothing(ErrorKind::NumericConversion)
                },
                None => err_nothing(ErrorKind::NumericConversion),
            },
            _ => err_nothing(ErrorKind::ShapeMismatch),
        },
        _ => err_nothing(ErrorKind::UnsupportedKind),
    }
}

/// How an executable result relates to the model's: on success exactly the
/// model's bytes are appended; on failure the returned error and the bytes
/// appended before the failure are exactly the model's.
pub open spec fn encode_result_matches(
    r: Result<(), EncodeError>,
    sr: SpecOutcome,
    pre: Seq<u8>,
    post: Seq<u8>,
) -> bool {
    match sr {
        Ok(bytes) => r is Ok && post == pre + bytes,
        Err((e, partial)) => (r matches Err(err) && err@ == e) && post == pre + partial,
    }
}

/// Whether every field of `fields` is named.
fn check_all_named(fields: &Vec<Field>) -> (r: bool)
    ensures
        r == all_named(fields@),
{
    let mut i: usize = 0;
    while i < fields.len()
        invariant
            0 <= i <= fields@.len(),
            forall|j: int| 0 <= j < i ==> (#[trigger] fields@[j].name) is Some,
        decreases fields@.len() - i,
    {
        if fields[i].name.is_none() {
            return false;
        }
        i = i + 1;
    }
    true
}

/// Whether no field of `fields` is named.
fn check_all_unnamed(fields: &Vec<Field>) -> (r: bool)
    ensures
        r == all_unnamed(fields@),
{
    let mut i: usize = 0;
    while i < fields.len()
        invariant
            0 <= i <= fields@.len(),
            forall|j: int| 0 <= j < i ==> (#[trigger] fields@[j].name) is None,
        decreases fields@.len() - i,
    {
        if fields[i].name.is_some() {
            return false;
        }
        i = i + 1;
    }
    true
}

/// The declaration index of the first case named `name`, searching from
/// position `i`.
fn find_case(cases: &Vec<VariantCase>, i: usize, name: &String) -> (r: Option<usize>)
    requires
        i <= cases@.len(),
    ensures
        match spec_case_index(cases@.skip(i as int), name@) {
            None => r is None,
            Some(k) => r == Some((i + k) as usize),
        },
    decreases cases@.len() - i,
{
    if i == cases.len() {
        proof {
            assert(cases@.skip(i as int) =~= Seq::<VariantCase>::empty());
        }
        return None;
    }
    proof {
        assert(cases@.skip(i as int)[0] == cases@[i as int]);
        assert(cases@.skip(i as int).drop_first() =~= cases@.skip(i + 1));
    }
    if cases[i].name.eq(name) {
        Some(i)
    } else {
        find_case(cases, i + 1, name)
    }
}

/// Encodes `values[i..]` against `fields[i..]`, pairing positionally.
fn encode_fields_at(
    reg: &Registry,
    fields: &Vec<Field>,
    values: &Vec<Value>,
    i: usize,
    out: &mut Vec<u8>,
    depth: u32,
) -> (r: Result<(), EncodeError>)
    requires
        i <= fields@.len(),
        i <= values@.len(),
    ensures
        encode_result_matches(
            r,
            spec_encode_fields(*reg, fields@.skip(i as int), values@.skip(i as int), depth as nat),
            old(out)@,
            final(out)@,
        ),
    decreases depth, 1nat, fields@.len() - i,
{
    let ghost pre = out@;
    let ghost sfields = fields@.skip(i as int);
    let ghost svalues = values@.skip(i as int);
    if fields.len() != values.len() {
        return Err(EncodeError::new(ErrorKind::FieldArityIssue));
    }
    if i == fields.len() {
        proof {
            assert(sfields.len() == 0);
            assert(pre + Seq::<u8>::empty() =~= pre);
        }
        return Ok(());
    }
    proof {
        assert(sfields[0] == fields@[i as int]);
        assert(svalues[0] == values@[i as int]);
        assert(sfields.drop_first() =~= fields@.skip(i + 1));
        assert(svalues.drop_first() =~= values@.skip(i + 1));
    }
    match encode_value_at(reg, fields[i].type_id, &values[i], out, depth) {
        Ok(()) => {
            let ghost mid = out@;
            let ghost b = spec_encode_value(*reg, fields@[i as int].type_id, values@[i as int],
                depth as nat)->Ok_0;
            match encode_fields_at(reg, fields, values, i + 1, out, depth) {
                Ok(()) => {
                    proof {
                        let rest = spec_encode_fields(*reg, fields@.skip(i + 1),
                            values@.skip(i + 1), depth as nat)->Ok_0;
                        assert((pre + b) + rest =~= pre + (b + rest));
                    }
                    Ok(())
                },
                Err(e) => {
                    proof {
                        let p = (spec_encode_fields(*reg, fields@.skip(i + 1),
                            values@.skip(i + 1), depth as nat)->Err_0).1;
                        assert((pre + b) + p =~= pre + (b + p));
                    }
                    Err(e)
                },
            }
        },
        Err(e) => Err(e),
    }
}

/// Encodes the values of `entries[i..]` against `fields[i..]`, pairing
/// positionally; entry names do not take part in the pairing.
fn encode_record_fields_at(
    reg: &Registry,
    fields: &Vec<Field>,
    entries: &Vec<(String, Value)>,
    i: usize,
    out: &mut Vec<u8>,
    depth: u32,
) -> (r: Result<(), EncodeError>)
    requires
        i <= fields@.len(),
        i <= entries@.len(),
    ensures
        encode_result_matches(
            r,
            spec_encode_fields(
                *reg,
                fields@.skip(i as int),
                entry_values(entries@).skip(i as int),
                depth as nat,
            ),
            old(out)@,
            final(out)@,
        ),
    decreases depth, 1nat, fields@.len() - i,
{
    let ghost pre = out@;
    let ghost sfields = fields@.skip(i as int);
    let ghost svalues = entry_values(entries@).skip(i as int);
    if fields.len() != entries.len() {
        return Err(EncodeError::new(ErrorKind::FieldArityIssue));
    }
    if i == fields.len() {
        proof {
            assert(sfields.len() == 0);
            assert(pre + Seq::<u8>::empty() =~= pre);
        }
        return Ok(());
    }
    proof {
        assert(sfields[0] == fields@[i as int]);
        assert(svalues[0] == entries@[i as int].1);
        assert(sfields.drop_first() =~= fields@.skip(i + 1));
        assert(svalues.drop_first() =~= entry_values(entries@).skip(i + 1));
    }
    match encode_value_at(reg, fields[i].type_id, &entries[i].1, out, depth) {
        Ok(()) => {
            let ghost mid = out@;
            let ghost b = spec_encode_value(*reg, fields@[i as int].type_id, entries@[i as int].1,
                depth as nat)->Ok_0;
            match encode_record_fields_at(reg, fields, entries, i + 1, out, depth) {
                Ok(()) => {
                    proof {
                        let rest = spec_encode_fields(*reg, fields@.skip(i + 1),
                            entry_values(entries@).skip(i + 1), depth as nat)->Ok_0;
                        assert((pre + b) + rest =~= pre + (b + rest));
                    }
                    Ok(())
                },
                Err(e) => {
                    proof {
                        let p = (spec_encode_fields(*reg, fields@.skip(i + 1),
                            entry_values(entries@).skip(i + 1), depth as nat)->Err_0).1;
                        assert((pre + b) + p =~= pre + (b + p));
                    }
                    Err(e)
                },
            }
        },
        Err(e) => Err(e),
    }
}

/// Encodes `items[i..]` against the element type.
fn encode_elems_at(
    reg: &Registry,
    elem_id: u32,
    items: &Vec<Value>,
    i: usize,
    out: &mut Vec<u8>,
    depth: u32,
) -> (r: Result<(), EncodeError>)
    requires
        i <= items@.len(),
    ensures
        encode_result_matches(
            r,
            spec_encode_elems(*reg, elem_id, items@.skip(i as int), depth as nat),
            old(out)@,
            final(out)@,
        ),
    decreases depth, 1nat, items@.len() - i,
{
    let ghost pre = out@;
    let ghost sitems = items@.skip(i as int);
    if i == items.len() {
        proof {
            assert(sitems.len() == 0);
            assert(pre + Seq::<u8>::empty() =~= pre);
        }
        return Ok(());
    }
    proof {
        assert(sitems[0] == items@[i as int]);
        assert(sitems.drop_first() =~= items@.skip(i + 1));
    }
    match encode_value_at(reg, elem_id, &items[i], out, depth) {
        Ok(()) => {
            let ghost mid = out@;
            let ghost b = spec_encode_value(*reg, elem_id, items@[i as int], depth as nat)->Ok_0;
            match encode_elems_at(reg, elem_id, items, i + 1, out, depth) {
                Ok(()) => {
                    proof {
                        let rest = spec_encode_elems(*reg, elem_id, items@.skip(i + 1),
                            depth as nat)->Ok_0;
                        assert((pre + b) + rest =~= pre + (b + rest));
                    }
                    Ok(())
                },
                Err(e) => {
                    proof {
                        let p = (spec_encode_elems(*reg, elem_id, items@.skip(i + 1),
                            depth as nat)->Err_0).1;
                        assert((pre + b) + p =~= pre + (b + p));
                    }
                    Err(e)
                },
            }
        },
        Err(e) => Err(e),
    }
}

/// Encodes a value against a primitive kind.
fn encode_primitive(p: &PrimitiveKind, v: &Value, out: &mut Vec<u8>) -> (r: Result<
    (),
    EncodeError,
>)
    ensures
        encode_result_matches(r, spec_encode_primitive(*p, *v), old(out)@, final(out)@),
{
    match p {
        PrimitiveKind::Bool => match v {
            Value::Bool(b) => {
                let mut bytes = scale_encode_bool(*b);
                out.append(&mut bytes);
                Ok(())
            },
            _ => Err(EncodeError::new(ErrorKind::ShapeMismatch)),
        },
        PrimitiveKind::Char => Err(EncodeError::new(ErrorKind::UnsupportedKind)),
        PrimitiveKind::Str => match v {
            Value::Str(s) => {
                if utf8_len(s) <= u32::MAX as usize {
                    let mut bytes = scale_encode_str(s);
                    out.append(&mut bytes);
                    Ok(())
                } else {
                    Err(EncodeError::new(ErrorKind::NumericConversion))
                }
            },
            _ => Err(EncodeError::new(ErrorKind::ShapeMismatch)),
        },
        PrimitiveKind::U8 => match v {
            Value::UInt(i) => {
                if *i <= u8::MAX as u128 {
                    let mut bytes = scale_encode_u8(*i as u8);
                    out.append(&mut bytes);
                    Ok(())
                } else {
                    Err(EncodeError::new(ErrorKind::NumericConversion))
                }
            },
            _ => Err(EncodeError::new(ErrorKind::ShapeMismatch)),
        },
        PrimitiveKind::U16 => match v {
            Value::UInt(i) => {
                if *i <= u16::MAX as u128 {
                    let mut bytes = scale_encode_u16(*i as u16);
                    out.append(&mut bytes);
                    Ok(())
                } else {
                    Err(EncodeError::new(ErrorKind::NumericConversion))
                }
            },
            _ => Err(EncodeError::new(ErrorKind::ShapeMismatch)),
        },
        PrimitiveKind::U32 => match v {
            Value::UInt(i) => {
                if *i <= u32::MAX as u128 {
                    let mut bytes = scale_encode_u32(*i as u32);
                    out.append(&mut bytes);
                    Ok(())
                } else {
                    Err(EncodeError::new(ErrorKind::NumericConversion))
                }
            },
            _ => Err(EncodeError::new(ErrorKind::ShapeMismatch)),
        },
        PrimitiveKind::U64 => match v {
            Value::UInt(i) => {
                if *i <= u64::MAX as u128 {
                    let mut bytes = scale_encode_u64(*i as u64);
                    out.append(&mut bytes);
                    Ok(())
                } else {
                    Err(EncodeError::new(ErrorKind::NumericConversion))
                }
            },
            Value::Str(s) => match parse_decimal_str(s) {
                Some(u) => {
                    if u <= u64::MAX as u128 {
                        let mut bytes = scale_encode_u64(u as u64);
                        out.append(&mut bytes);
                        Ok(())
                    } else {
                        Err(EncodeError::new(ErrorKind::NumericConversion))
                    }
                },
                None => Err(EncodeError::new(ErrorKind::NumericConversion)),
            },
            _ => Err(EncodeError::new(ErrorKind::ShapeMismatch)),
        },
        PrimitiveKind::U128 => match v {
            Value::UInt(i) => {
                let mut bytes = scale_encode_u128(*i);
                out.append(&mut bytes);
                Ok(())
            },
            Value::Str(s) => match parse_decimal_str(s) {
                Some(u) => {
                    let mut bytes = scale_encode_u128(u);
                    out.append(&mut bytes);
                    Ok(())
                },
                None => Err(EncodeError::new(ErrorKind::NumericConversion)),
            },
            _ => Err(EncodeError::new(ErrorKind::ShapeMismatch)),
        },
        _ => Err(EncodeError::new(ErrorKind::UnsupportedKind)),
    }
}

/// Encodes a value against a composite's fields.
fn encode_composite(
    reg: &Registry,
    fields: &Vec<Field>,
    v: &Value,
    out: &mut Vec<u8>,
    depth: u32,
) -> (r: Result<(), EncodeError>)
    ensures
        encode_result_matches(
            r,
            spec_encode_composite(*reg, fields@, *v, depth as nat),
            old(out)@,
            final(out)@,
        ),
    decreases depth, 2nat, 0nat,
{
    let named = check_all_named(fields);
    let unnamed = check_all_unnamed(fields);
    if fields.len() > 0 && !named && !unnamed {
        return Err(EncodeError::new(ErrorKind::UnsupportedKind));
    }
    proof {
        assert(fields@.skip(0) =~= fields@);
    }
    match v {
        Value::Record(_, entries) => {
            if fields.len() != entries.len() {
                return Err(EncodeError::new(ErrorKind::FieldArityIssue));
            }
            proof {
                assert(entry_values(entries@).skip(0) =~= entry_values(entries@));
            }
            encode_record_fields_at(reg, fields, entries, 0, out, depth)
        },
        Value::Tuple(_, items) => {
            if fields.len() == 0 {
                proof {
                    assert(old(out)@ + Seq::<u8>::empty() =~= old(out)@);
                }
                Ok(())
            } else if unnamed {
                proof {
                    assert(items@.skip(0) =~= items@);
                }
                encode_fields_at(reg, fields, items, 0, out, depth)
            } else {
                Err(EncodeError::new(ErrorKind::ShapeMismatch))
            }
        },
        _ => {
            if fields.len() == 1 {
                encode_value_at(reg, fields[0].type_id, v, out, depth)
            } else {
                Err(EncodeError::new(ErrorKind::ShapeMismatch))
            }
        },
    }
}

/// Encodes a value against a variant's cases.
fn encode_variant(
    reg: &Registry,
    cases: &Vec<VariantCase>,
    v: &Value,
    out: &mut Vec<u8>,
    depth: u32,
) -> (r: Result<(), EncodeError>)
    ensures
        encode_result_matches(
            r,
            spec_encode_variant(*reg, cases@, *v, depth as nat),
            old(out)@,
            final(out)@,
        ),
    decreases depth, 2nat, 0nat,
{
    let ghost pre = out@;
    let n_cases = cases.len();
    proof {
        assert(cases@.skip(0) =~= cases@);
        assert(cases@.len() == n_cases);
    }
    match v {
        Value::Tuple(oid, items) => match oid {
            None => Err(EncodeError::new(ErrorKind::MissingVariantIdentifier)),
            Some(name) => match find_case(cases, 0, name) {
                None => Err(EncodeError::new(ErrorKind::UnknownVariantCase(name.clone()))),
                Some(k) => {
                    proof {
                        lemma_case_index(cases@, name@);
                    }
                    if k > 255 {
                        Err(EncodeError::new(ErrorKind::VariantIndexOverflow))
                    } else {
                        out.push(k as u8);
                        proof {
                            assert(out@ =~= pre + seq![k as u8]);
                            assert(items@.skip(0) =~= items@);
                            assert(cases@[k as int].fields@.skip(0) =~= cases@[k as int].fields@);
                        }
                        let ghost mid = out@;
                        match encode_fields_at(reg, &cases[k].fields, items, 0, out, depth) {
                            Ok(()) => {
                                proof {
                                    let b = spec_encode_fields(*reg, cases@[k as int].fields@,
                                        items@, depth as nat)->Ok_0;
                                    assert((pre + seq![k as u8]) + b =~= pre + (seq![k as u8] + b));
                                }
                                Ok(())
                            },
                            Err(e) => {
                                proof {
                                    let p = (spec_encode_fields(*reg, cases@[k as int].fields@,
                                        items@, depth as nat)->Err_0).1;
                                    assert((pre + seq![k as u8]) + p =~= pre + (
                                    seq![k as u8] + p));
                                }
                                Err(e)
                            },
                        }
                    }
                },
            },
        },
        Value::Record(oid, _) => match oid {
            None => Err(EncodeError::new(ErrorKind::MissingVariantIdentifier)),
            Some(name) => match find_case(cases, 0, name) {
                None => Err(EncodeError::new(ErrorKind::UnknownVariantCase(name.clone()))),
                Some(k) => {
                    proof {
                        lemma_case_index(cases@, name@);
                    }
                    if k > 255 {
                        Err(EncodeError::new(ErrorKind::VariantIndexOverflow))
                    } else {
                        Err(EncodeError::new(ErrorKind::UnsupportedKind))
                    }
                },
            },
        },
        _ => Err(EncodeError::new(ErrorKind::ShapeMismatch)),
    }
}

/// Encodes a value against an array or sequence of `elem_id` elements,
/// prefixing the compact-encoded element count only for a sequence.
fn encode_seq(
    reg: &Registry,
    elem_id: u32,
    v: &Value,
    emit_len: bool,
    out: &mut Vec<u8>,
    depth: u32,
) -> (r: Result<(), EncodeError>)
    ensures
        encode_result_matches(
            r,
            spec_encode_seq(*reg, elem_id, *v, emit_len, depth as nat),
            old(out)@,
            final(out)@,
        ),
    decreases depth, 2nat, 0nat,
{
    let ghost pre = out@;
    if reg.resolve(elem_id).is_none() {
        return Err(EncodeError::new(ErrorKind::UnknownType(elem_id)));
    }
    match v {
        Value::List(items) => {
            if emit_len {
                if items.len() > u32::MAX as usize {
                    return Err(EncodeError::new(ErrorKind::NumericConversion));
                }
                let mut prefix = scale_compact_u32(items.len() as u32);
                out.append(&mut prefix);
            }
            let ghost prefix_bytes = if emit_len {
                compact_u32_bytes(items@.len() as u32)
            } else {
                Seq::<u8>::empty()
            };
            proof {
                assert(out@ =~= pre + prefix_bytes);
                assert(items@.skip(0) =~= items@);
            }
            let ghost mid = out@;
            match encode_elems_at(reg, elem_id, items, 0, out, depth) {
                Ok(()) => {
                    proof {
                        let b = spec_encode_elems(*reg, elem_id, items@, depth as nat)->Ok_0;
                        assert((pre + prefix_bytes) + b =~= pre + (prefix_bytes + b));
                    }
                    Ok(())
                },
                Err(e) => {
                    proof {
                        let p = (spec_encode_elems(*reg, elem_id, items@, depth as nat)->Err_0).1;
                        assert((pre + prefix_bytes) + p =~= pre + (prefix_bytes + p));
                    }
                    Err(e)
                },
            }
        },
        Value::Bytes(bs) => {
            if emit_len {
                if bs.len() > u32::MAX as usize {
                    return Err(EncodeError::new(ErrorKind::NumericConversion));
                }
                let mut prefix = scale_compact_u32(bs.len() as u32);
                out.append(&mut prefix);
            }
            let ghost prefix_bytes = if emit_len {
                compact_u32_bytes(bs@.len() as u32)
            } else {
                Seq::<u8>::empty()
            };
            proof {
                assert(out@ =~= pre + prefix_bytes);
            }
            let mut i: usize = 0;
            while i < bs.len()
                invariant
                    0 <= i <= bs@.len(),
                    out@ == pre + prefix_bytes + bs@.take(i as int),
                decreases bs@.len() - i,
            {
                out.push(bs[i]);
                proof {
                    assert(bs@.take(i as int).push(bs@[i as int]) =~= bs@.take(i + 1));
                    assert((pre + prefix_bytes + bs@.take(i as int)).push(bs@[i as int]) =~= pre
                        + prefix_bytes + bs@.take(i + 1));
                }
                i = i + 1;
            }
            proof {
                assert(bs@.take(bs@.len() as int) =~= bs@);
                assert(pre + prefix_bytes + bs@ =~= pre + (prefix_bytes + bs@));
            }
            Ok(())
        },
        _ => Err(EncodeError::new(ErrorKind::ShapeMismatch)),
    }
}

/// Dispatches a value against a resolved descriptor.
fn encode_with_descriptor(
    reg: &Registry,
    desc: &TypeDescriptor,
    v: &Value,
    out: &mut Vec<u8>,
    depth: u32,
) -> (r: Result<(), EncodeError>)
    ensures
        encode_result_matches(
            r,
            spec_encode_with_descriptor(*reg, *desc, *v, depth as nat),
            old(out)@,
            final(out)@,
        ),
    decreases depth, 3nat, 0nat,
{
    match desc {
        TypeDescriptor::Primitive(p) => encode_primitive(p, v, out),
        TypeDescriptor::Composite(fields) => encode_composite(reg, fields, v, out, depth),
        TypeDescriptor::Variant(cases) => encode_variant(reg, cases, v, out, depth),
        TypeDescriptor::Array(elem, _len) => encode_seq(reg, *elem, v, false, out, depth),
        TypeDescriptor::Sequence(elem) => encode_seq(reg, *elem, v, true, out, depth),
    }
}

/// Resolves `id` and encodes `v` against the resolved descriptor with the
/// given depth budget, wrapping any nested failure with `id`.
fn encode_value_at(reg: &Registry, id: u32, v: &Value, out: &mut Vec<u8>, depth: u32) -> (r: Result<
    (),
    EncodeError,
>)
    ensures
        encode_result_matches(
            r,
            spec_encode_value(*reg, id, *v, depth as nat),
            old(out)@,
            final(out)@,
        ),
    decreases depth, 0nat, 0nat,
{
    if depth == 0 {
        return Err(EncodeError::new(ErrorKind::RecursionLimitExceeded));
    }
    match reg.resolve(id) {
        None => Err(EncodeError::new(ErrorKind::UnknownType(id))),
        Some(desc) => match encode_with_descriptor(reg, desc, v, out, depth - 1) {
            Ok(()) => Ok(()),
            Err(e) => Err(e.wrap(id)),
        },
    }
}

/// Encodes `value` against the type named by `type_id`, appending the
/// encoding to `output`. On failure, the returned error chains the
/// identifiers of the types that were being encoded; exactly the bytes
/// already appended before the failure stay in the buffer, and a failure
/// raised before the first write leaves the buffer untouched.
pub fn encode_value(
    registry: &Registry,
    type_id: u32,
    value: &Value,
    output: &mut Vec<u8>,
) -> (r: Result<(), EncodeError>)
    ensures
        encode_result_matches(
            r,
            spec_encode_value(*registry, type_id, *value, MAX_DEPTH as nat),
            old(output)@,
            final(output)@,
        ),
{
    encode_value_at(registry, type_id, value, output, MAX_DEPTH)
}

/// Something a value can be encoded against: in this library, a resolved
/// type descriptor.
pub trait EncodeValue {
    /// The model of what `encode_value_to` appends or why it fails.
    spec fn spec_encode(&self, registry: Registry, value: Value, depth: nat) -> SpecOutcome;

    /// Encodes `value` against `self`, appending to `output`.
    fn encode_value_to(&self, registry: &Registry, value: &Value, output: &mut Vec<u8>) -> (r:
        Result<(), EncodeError>)
        ensures
            encode_result_matches(
                r,
                self.spec_encode(*registry, *value, MAX_DEPTH as nat),
                old(output)@,
                final(output)@,
            ),
    ;
}

impl EncodeValue for TypeDescriptor {
    open spec fn spec_encode(&self, registry: Registry, value: Value, depth: nat) -> SpecOutcome {
        spec_encode_with_descriptor(registry, *self, value, depth)
    }

    fn encode_value_to(&self, registry: &Registry, value: &Value, output: &mut Vec<u8>) -> (r:
        Result<(), EncodeError>)
    {
        encode_with_descriptor(registry, self, value, output, MAX_DEPTH)
    }
}

} // verus!
