//! General properties of the encoding, stated over the spec model and
//! proved once for all inputs.

use vstd::prelude::*;
use crate::codec::{compact_u32_bytes, le_bytes};
use crate::encode::{
    lemma_case_index, spec_case_index, spec_encode_composite, spec_encode_elems,
    spec_encode_fields, spec_encode_seq, spec_encode_value, spec_encode_variant,
};
use crate::error::SpecError;
use crate::registry::{Field, PrimitiveKind, Registry, TypeDescriptor, VariantCase};
use crate::value::Value;

verus! {

/// A list whose entries are the unsigned values of the bytes of `bs`,
/// element for element.
pub open spec fn mirrors_bytes(items: Seq<Value>, bs: Seq<u8>) -> bool {
    &&& items.len() == bs.len()
    &&& forall|i: int| 0 <= i < items.len() ==> items[i] == Value::UInt(#[trigger] bs[i] as u128)
}

/// Encoding byte values one by one against a `U8` element type yields
/// exactly those bytes.
proof fn lemma_u8_elems(reg: Registry, elem: u32, items: Seq<Value>, bs: Seq<u8>, depth: nat)
    requires
        reg.spec_resolve(elem) == Some(TypeDescriptor::Primitive(PrimitiveKind::U8)),
        depth >= 1,
        mirrors_bytes(items, bs),
    ensures
        spec_encode_elems(reg, elem, items, depth) == Ok::<Seq<u8>, (SpecError, Seq<u8>)>(bs),
    decreases items.len(),
{
    if items.len() == 0 {
        assert(bs =~= Seq::<u8>::empty());
    } else {
        let b0 = bs[0];
        assert(items[0] == Value::UInt(b0 as u128));
        assert(le_bytes(b0 as u128 / 256, 0) =~= Seq::<u8>::empty());
        assert(le_bytes(b0 as u128, 1) =~= seq![b0]);
        assert(spec_encode_value(reg, elem, items[0], depth) == Ok::<
            Seq<u8>,
            (SpecError, Seq<u8>),
        >(seq![b0]));
        assert(mirrors_bytes(items.drop_first(), bs.drop_first())) by {
            assert forall|i: int| 0 <= i < items.drop_first().len() implies items.drop_first()[i]
                == Value::UInt(#[trigger] bs.drop_first()[i] as u128) by {
                assert(items.drop_first()[i] == items[i + 1]);
                assert(bs.drop_first()[i] == bs[i + 1]);
            }
        }
        lemma_u8_elems(reg, elem, items.drop_first(), bs.drop_first(), depth);
        assert(seq![b0] + bs.drop_first() =~= bs);
    }
}

/// Bytes/list equivalence: against the same array or sequence of `U8`
/// elements, a bytes value and the list that spells out the same bytes as
/// unsigned values encode to identical output.
pub proof fn lemma_bytes_list_equivalence(
    reg: Registry,
    elem: u32,
    vb: Value,
    vl: Value,
    emit_len: bool,
    depth: nat,
)
    requires
        reg.spec_resolve(elem) == Some(TypeDescriptor::Primitive(PrimitiveKind::U8)),
        depth >= 1,
        vb matches Value::Bytes(bs) && vl matches Value::List(items) && mirrors_bytes(
            items@,
            bs@,
        ),
    ensures
        spec_encode_seq(reg, elem, vl, emit_len, depth) == spec_encode_seq(
            reg,
            elem,
            vb,
            emit_len,
            depth,
        ),
{
    let bs = vb->Bytes_0;
    let items = vl->List_0;
    lemma_u8_elems(reg, elem, items@, bs@, depth);
    if !(emit_len && items@.len() > u32::MAX) {
        let prefix = if emit_len {
            compact_u32_bytes(items@.len() as u32)
        } else {
            Seq::<u8>::empty()
        };
        assert(spec_encode_seq(reg, elem, vl, emit_len, depth) == Ok::<
            Seq<u8>,
            (SpecError, Seq<u8>),
        >(prefix + bs@));
    }
}

/// Variant index determinism: when a tuple value names the case declared
/// at zero-based position `k`, and no earlier case shares that name, the
/// encoding is the one byte `k` followed by the encoding of the case's
/// fields against the tuple's values, whatever the rest of the value
/// holds; and when the fields fail, the whole fails with that error, the
/// tag byte and the fields' partial bytes left behind.
pub proof fn lemma_variant_index_determinism(
    reg: Registry,
    cases: Seq<VariantCase>,
    v: Value,
    k: int,
    depth: nat,
)
    requires
        0 <= k < cases.len(),
        k <= 255,
        v matches Value::Tuple(oid, _) && oid matches Some(name) && cases[k].name@ == name@ && (
        forall|j: int| 0 <= j < k ==> (#[trigger] cases[j].name@) != name@),
    ensures
        v matches Value::Tuple(_, items) ==> spec_encode_variant(reg, cases, v, depth) == (
        match spec_encode_fields(reg, cases[k].fields@, items@, depth) {
            Ok(b) => Ok::<Seq<u8>, (SpecError, Seq<u8>)>(seq![k as u8] + b),
            Err((e, p)) => Err::<Seq<u8>, (SpecError, Seq<u8>)>((e, seq![k as u8] + p)),
        }),
{
    let name = v->Tuple_0->0;
    lemma_case_index(cases, name@);
    match spec_case_index(cases, name@) {
        Some(k2) => {
            if k2 < k {
                assert(cases[k2 as int].name@ == name@);
                assert(false);
            } else if k2 > k {
                assert(cases[k].name@ != name@);
                assert(false);
            }
        },
        None => {
            assert(cases[k].name@ != name@);
            assert(false);
        },
    }
    assert(spec_case_index(cases, name@) == Some(k as nat));
}

/// Array/sequence prefixing: for a list value whose length fits the count
/// prefix, the sequence encoding is exactly the compact-encoded element
/// count followed by the array encoding of the same value; when an
/// element fails, both fail with the same error, the sequence keeping the
/// count prefix ahead of the same partial bytes. An unresolvable element
/// type fails both alike, before anything is written.
pub proof fn lemma_array_vs_sequence(reg: Registry, elem: u32, v: Value, depth: nat)
    requires
        v matches Value::List(items) && items@.len() <= u32::MAX,
    ensures
        reg.spec_resolve(elem) is None ==> spec_encode_seq(reg, elem, v, true, depth)
            == spec_encode_seq(reg, elem, v, false, depth),
        reg.spec_resolve(elem) is Some ==> (v matches Value::List(items) ==> spec_encode_seq(
            reg,
            elem,
            v,
            true,
            depth,
        ) == (match spec_encode_seq(reg, elem, v, false, depth) {
            Ok(b) => Ok::<Seq<u8>, (SpecError, Seq<u8>)>(
                compact_u32_bytes(items@.len() as u32) + b,
            ),
            Err((e, p)) => Err::<Seq<u8>, (SpecError, Seq<u8>)>(
                (e, compact_u32_bytes(items@.len() as u32) + p),
            ),
        })),
{
    let items = v->List_0;
    match reg.spec_resolve(elem) {
        None => {},
        Some(_) => {
            match spec_encode_elems(reg, elem, items@, depth) {
                Ok(b) => {
                    assert(Seq::<u8>::empty() + b =~= b);
                },
                Err((_, p)) => {
                    assert(Seq::<u8>::empty() + p =~= p);
                },
            }
        },
    }
}

/// Transparent single-field composite: against a one-field composite, a
/// value that is neither a record nor a tuple encodes exactly as it does
/// against the field's own type.
pub proof fn lemma_transparent_single_field(
    reg: Registry,
    fields: Seq<Field>,
    v: Value,
    depth: nat,
)
    requires
        fields.len() == 1,
        !(v is Record),
        !(v is Tuple),
    ensures
        spec_encode_composite(reg, fields, v, depth) == spec_encode_value(
            reg,
            fields[0].type_id,
            v,
            depth,
        ),
{
    if fields[0].name is Some {
        assert(crate::encode::all_named(fields));
    } else {
        assert(crate::encode::all_unnamed(fields));
    }
}

/// Primitive encodings do not depend on the depth budget, as long as one
/// resolution step is available.
pub proof fn lemma_primitive_depth_insensitive(
    reg: Registry,
    id: u32,
    v: Value,
    d1: nat,
    d2: nat,
)
    requires
        reg.spec_resolve(id) matches Some(desc) && desc is Primitive,
        d1 >= 1,
        d2 >= 1,
    ensures
        spec_encode_value(reg, id, v, d1) == spec_encode_value(reg, id, v, d2),
{
}

} // verus!
