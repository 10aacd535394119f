//! The laws the codec obeys.
//!
//! The central guarantee is the round-trip law: decoding a table the
//! encoder produced yields the original value, for every well-formed
//! shape and fitting value whose resolved keys do not collide (see
//! [`round_trip_safe`]).  Alongside it stand the guarantees that a
//! unit-like struct encodes to the empty table and decodes from any
//! table, that an untagged enum rejects an empty table, and that a key
//! naming no declared variant is rejected as unknown.

use vstd::prelude::*;

use crate::case::snake_of;
use crate::decode::{
    lemma_decode_fields_all_present, lemma_dispatch_skip, spec_decode, spec_decode_enum,
    spec_decode_fields, spec_select_pair, ErrModel,
};
use crate::encode::{spec_encode, spec_encode_case, spec_encode_fields, spec_encode_struct};
use crate::shape::{
    max_index, typed_model, FieldSpec, ShapeKind, TypeShape, TypedModel, TypedValue, VariantSpec,
};
use crate::value::{
    lemma_spec_set, spec_get, spec_set, val_model, vals_model, KeyModel, LuaValue, ValModel,
};

verus! {

/// No two fields of a struct resolve to the same table key.
pub open spec fn record_keys_distinct(fields: Seq<FieldSpec>) -> bool {
    forall|i: int, j: int|
        #![trigger fields[i].spec_key(i), fields[j].spec_key(j)]
        0 <= i < j < fields.len() ==> fields[i].spec_key(i) != fields[j].spec_key(j)
}

/// A struct encoding round-trips when its resolved keys collide
/// neither with each other nor with the `"n"` length marker.
pub open spec fn record_round_trip_safe(fields: Seq<FieldSpec>) -> bool {
    &&& record_keys_distinct(fields)
    &&& (max_index(fields) > 0 ==> forall|i: int|
        0 <= i < fields.len() ==> (#[trigger] fields[i].spec_key(i)) != KeyModel::Str("n"@))
}

/// An enum encoding round-trips when no earlier variant's snake_cased
/// name shadows the encoded variant's, and the tag key differs from
/// the key the payload is stored under.
pub open spec fn case_round_trip_safe(
    variant: int,
    variants: Seq<VariantSpec>,
    tag: Option<String>,
    content: Option<String>,
) -> bool {
    let vsnake = snake_of(variants[variant].name@);
    let ckey = match content {
        Some(c) => c@,
        None => vsnake,
    };
    &&& forall|j: int| 0 <= j < variant ==> snake_of((#[trigger] variants[j]).name@) != vsnake
    &&& (tag matches Some(tg) ==> tg@ != ckey)
}

/// The key-collision freedom under which encoding is invertible.
pub open spec fn round_trip_safe(v: TypedValue, shape: TypeShape) -> bool {
    match (shape.kind, v) {
        (ShapeKind::Struct { fields }, TypedValue::Record { field_values }) => {
            record_round_trip_safe(fields@)
        },
        (ShapeKind::Enum { variants, tag, content }, TypedValue::Case { variant, payload }) => {
            case_round_trip_safe(variant as int, variants@, tag, content)
        },
        _ => false,
    }
}

/// Each field's value can be read back from the encoded entries, as
/// long as no later field overwrites its key.
proof fn lemma_encode_fields_get(vals: Seq<LuaValue>, fields: Seq<FieldSpec>, i: int)
    requires
        vals.len() == fields.len(),
        0 <= i < fields.len(),
        forall|j: int|
            i < j < fields.len() ==> (#[trigger] fields[j].spec_key(j)) != fields[i].spec_key(i),
    ensures
        spec_get(spec_encode_fields(vals, fields), fields[i].spec_key(i)) == Some(
            val_model(vals[i]),
        ),
    decreases fields.len(),
{
    let n = fields.len();
    let t0 = spec_encode_fields(vals.drop_last(), fields.drop_last());
    let klast = fields.last().spec_key(n - 1);
    assert(fields.last() == fields[n - 1]);
    if i == n - 1 {
        lemma_spec_set(t0, klast, val_model(vals.last()));
    } else {
        assert(fields.drop_last()[i] == fields[i]);
        assert(vals.drop_last()[i] == vals[i]);
        assert forall|j: int|
            i < j < fields.drop_last().len() implies (#[trigger] fields.drop_last()[j].spec_key(j))
            != fields.drop_last()[i].spec_key(i) by {
            assert(fields.drop_last()[j] == fields[j]);
        }
        lemma_encode_fields_get(vals.drop_last(), fields.drop_last(), i);
        lemma_spec_set(t0, klast, val_model(vals.last()));
    }
}

/// The struct direction of the round-trip law.
proof fn lemma_record_round_trip(field_values: Seq<LuaValue>, fields: Seq<FieldSpec>)
    requires
        field_values.len() == fields.len(),
        record_round_trip_safe(fields),
    ensures
        spec_decode_fields(spec_encode_struct(field_values, fields), fields, 0) == Ok::<
            Seq<ValModel>,
            ErrModel,
        >(vals_model(field_values)),
{
    let tenc = spec_encode_fields(field_values, fields);
    let tfull = spec_encode_struct(field_values, fields);
    assert forall|i: int|
        0 <= i < fields.len() implies spec_get(tfull, (#[trigger] fields[i]).spec_key(0 + i))
        == Some(val_model(field_values[i])) by {
        lemma_encode_fields_get(field_values, fields, i);
        if max_index(fields) > 0 {
            lemma_spec_set(tenc, KeyModel::Str("n"@), ValModel::Int(max_index(fields)));
        }
    }
    lemma_decode_fields_all_present(tfull, fields, 0);
    assert forall|j: int|
        0 <= j < fields.len() implies spec_decode_fields(tfull, fields, 0)->Ok_0[j] == vals_model(
        field_values,
    )[j] by {
        assert(spec_get(tfull, fields[j].spec_key(0 + j)) == Some(val_model(field_values[j])));
        assert(vals_model(field_values)[j] == val_model(field_values[j]));
    }
    assert(spec_decode_fields(tfull, fields, 0)->Ok_0 =~= vals_model(field_values));
    assert(spec_decode_fields(tfull, fields, 0) == Ok::<Seq<ValModel>, ErrModel>(
        vals_model(field_values),
    ));
}

/// The enum direction of the round-trip law.
proof fn lemma_case_round_trip(
    variant: int,
    payload: LuaValue,
    variants: Seq<VariantSpec>,
    tag: Option<String>,
    content: Option<String>,
)
    requires
        0 <= variant < variants.len(),
        content is Some ==> tag is Some,
        case_round_trip_safe(variant, variants, tag, content),
    ensures
        spec_decode_enum(
            spec_encode_case(variant, payload, variants, tag, content),
            variants,
            tag,
            content,
        ) == Ok::<TypedModel, ErrModel>(TypedModel::Case(variant, val_model(payload))),
{
    let vsnake = snake_of(variants[variant].name@);
    let ckey = match content {
        Some(c) => c@,
        None => vsnake,
    };
    let pm = val_model(payload);
    let t1 = spec_set(Seq::empty(), KeyModel::Str(ckey), pm);
    lemma_spec_set(Seq::empty(), KeyModel::Str(ckey), pm);
    let tenc = spec_encode_case(variant, payload, variants, tag, content);
    match tag {
        Some(tg) => {
            lemma_spec_set(t1, KeyModel::Str(tg@), ValModel::Str(vsnake));
            assert(spec_get(tenc, KeyModel::Str(tg@)) == Some(ValModel::Str(vsnake)));
            assert(spec_get(tenc, KeyModel::Str(ckey)) == Some(pm));
            assert(spec_select_pair(tenc, tag, content) == Ok::<(Seq<char>, ValModel), ErrModel>(
                (vsnake, pm),
            ));
        },
        None => {
            assert(tenc == t1);
            assert(t1 =~= seq![(KeyModel::Str(ckey), pm)]);
            assert(spec_select_pair(tenc, tag, content) == Ok::<(Seq<char>, ValModel), ErrModel>(
                (vsnake, pm),
            ));
        },
    }
    lemma_dispatch_skip(vsnake, pm, variants, 0, variant);
}

/// Round-trip law: for every well-formed shape and every fitting
/// value, when the shape's resolved keys are collision-free for that
/// value, decoding the encoder's table yields the value back.
pub proof fn lemma_round_trip(v: TypedValue, shape: TypeShape)
    requires
        shape.wf(),
        shape.fits(v),
    ensures
        round_trip_safe(v, shape) ==> spec_decode(ValModel::Tbl(spec_encode(v, shape)), shape)
            == Ok::<TypedModel, ErrModel>(typed_model(v)),
{
    if round_trip_safe(v, shape) {
        match (shape.kind, v) {
            (ShapeKind::Struct { fields }, TypedValue::Record { field_values }) => {
                lemma_record_round_trip(field_values@, fields@);
            },
            (ShapeKind::Enum { variants, tag, content }, TypedValue::Case { variant, payload }) => {
                lemma_case_round_trip(variant as int, payload, variants@, tag, content);
            },
            _ => {},
        }
    }
}

/// A unit-like struct encodes to the empty table, whatever else the
/// shape or value hold.
pub proof fn lemma_unit_struct_encodes_empty(v: TypedValue, shape: TypeShape)
    requires
        shape.fits(v),
        shape.kind matches ShapeKind::Struct { fields } && fields@.len() == 0,
    ensures
        spec_encode(v, shape) == Seq::<(KeyModel, ValModel)>::empty(),
{
}

/// Decoding any table against a unit-like struct succeeds and ignores
/// the table's contents.
pub proof fn lemma_unit_struct_decodes_any(t: Seq<(KeyModel, ValModel)>, shape: TypeShape)
    requires
        shape.kind matches ShapeKind::Struct { fields } && fields@.len() == 0,
    ensures
        spec_decode(ValModel::Tbl(t), shape) == Ok::<TypedModel, ErrModel>(
            TypedModel::Record(Seq::empty()),
        ),
{
}

/// Decoding an empty table against an untagged enum fails with the
/// empty-table error.
pub proof fn lemma_untagged_empty_table(shape: TypeShape)
    requires
        shape.kind matches ShapeKind::Enum { variants, tag, content } && tag is None,
    ensures
        spec_decode(ValModel::Tbl(Seq::empty()), shape) == Err::<TypedModel, ErrModel>(
            ErrModel::EmptyTable,
        ),
{
}

/// A selected key that names no declared variant fails with the
/// unknown-variant error carrying that key.
pub proof fn lemma_unknown_variant(
    t: Seq<(KeyModel, ValModel)>,
    variants: Seq<VariantSpec>,
    tag: Option<String>,
    content: Option<String>,
    key: Seq<char>,
    payload: ValModel,
)
    ensures
        (spec_select_pair(t, tag, content) == Ok::<(Seq<char>, ValModel), ErrModel>((key, payload))
            && (forall|j: int|
            0 <= j < variants.len() ==> snake_of((#[trigger] variants[j]).name@) != key))
            ==> spec_decode_enum(t, variants, tag, content) == Err::<TypedModel, ErrModel>(
            ErrModel::UnknownVariant(key),
        ),
{
    if spec_select_pair(t, tag, content) == Ok::<(Seq<char>, ValModel), ErrModel>((key, payload))
        && (forall|j: int|
        0 <= j < variants.len() ==> snake_of((#[trigger] variants[j]).name@) != key) {
        lemma_dispatch_skip(key, payload, variants, 0, variants.len() as int);
    }
}

} // verus!
