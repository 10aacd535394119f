//! The encoder: typed value to table.
//!
//! A struct instance stores each field value under its resolved key, in
//! declaration order, last write winning on key collisions.  When some
//! field declared an explicit `index`, the largest declared index is
//! additionally recorded under the string key `"n"`, so that a sparse
//! positional table still reports its intended length.  An enum
//! instance stores its payload under the resolved content key and, when
//! a `tag` key is configured, the snake_cased variant name under the
//! tag key.  A unit-like struct encodes to an empty table.

use vstd::prelude::*;

use crate::case::{snake_of, to_snake_case};
use crate::shape::{max_index, resolved_key, FieldSpec, ShapeKind, TypeShape, TypedValue, VariantSpec};
use crate::value::{clone_value, spec_set, val_model, KeyModel, LuaValue, Table, TableKey, ValModel};

verus! {

/// The table holding each of `vals` under its field's resolved key,
/// set in declaration order.
pub open spec fn spec_encode_fields(vals: Seq<LuaValue>, fields: Seq<FieldSpec>) -> Seq<
    (KeyModel, ValModel),
>
    decreases fields.len(),
{
    if fields.len() == 0 {
        Seq::empty()
    } else {
        spec_set(
            spec_encode_fields(vals.drop_last(), fields.drop_last()),
            fields.last().spec_key(fields.len() - 1),
            val_model(vals.last()),
        )
    }
}

/// A struct encoding: the field entries, plus the `"n"` length marker
/// when some field declared an explicit index.
pub open spec fn spec_encode_struct(vals: Seq<LuaValue>, fields: Seq<FieldSpec>) -> Seq<
    (KeyModel, ValModel),
> {
    let t = spec_encode_fields(vals, fields);
    if max_index(fields) > 0 {
        spec_set(t, KeyModel::Str("n"@), ValModel::Int(max_index(fields)))
    } else {
        t
    }
}

/// An enum encoding: the payload under the resolved content key, then,
/// when a tag is configured, the snake_cased variant name under it.
pub open spec fn spec_encode_case(
    variant: int,
    payload: LuaValue,
    variants: Seq<VariantSpec>,
    tag: Option<String>,
    content: Option<String>,
) -> Seq<(KeyModel, ValModel)> {
    let vname = variants[variant].name@;
    let ckey = match content {
        Some(c) => c@,
        None => snake_of(vname),
    };
    let t = spec_set(Seq::empty(), KeyModel::Str(ckey), val_model(payload));
    match tag {
        Some(tg) => spec_set(t, KeyModel::Str(tg@), ValModel::Str(snake_of(vname))),
        None => t,
    }
}

/// What `encode` produces for a fitting value of the given shape.
pub open spec fn spec_encode(v: TypedValue, shape: TypeShape) -> Seq<(KeyModel, ValModel)> {
    match (shape.kind, v) {
        (ShapeKind::Struct { fields }, TypedValue::Record { field_values }) => spec_encode_struct(
            field_values@,
            fields@,
        ),
        (
            ShapeKind::Enum { variants, tag, content },
            TypedValue::Case { variant, payload },
        ) => spec_encode_case(variant as int, payload, variants@, tag, content),
        _ => Seq::empty(),
    }
}

/// Encode a typed value of the given shape as a table.
pub fn encode(value: TypedValue, shape: &TypeShape) -> (t: Table)
    requires
        shape.wf(),
        shape.fits(value),
    ensures
        t@ == spec_encode(value, *shape),
{
    match (&shape.kind, &value) {
        (ShapeKind::Struct { fields }, TypedValue::Record { field_values }) => {
            encode_record(field_values, fields)
        },
        (ShapeKind::Enum { variants, tag, content }, TypedValue::Case { variant, payload }) => {
            encode_case(*variant, payload, variants, tag, content)
        },
        _ => {
            // excluded by `fits`
            proof {
                assert(false);
            }
            Table::new()
        },
    }
}

/// Encode a struct instance: each field value under its resolved key,
/// then the `"n"` marker when an explicit index was declared.
fn encode_record(field_values: &Vec<LuaValue>, fields: &Vec<FieldSpec>) -> (t: Table)
    requires
        field_values@.len() == fields@.len(),
        forall|i: int| 0 <= i < fields@.len() ==> (#[trigger] fields@[i]).wf(),
    ensures
        t@ == spec_encode_struct(field_values@, fields@),
{
    let n = fields.len();
    let mut t = Table::new();
    let mut max: u64 = 0;
    let mut i: usize = 0;
    while i < n
        invariant
            n == fields@.len(),
            n == field_values@.len(),
            i <= n,
            forall|j: int| 0 <= j < n ==> (#[trigger] fields@[j]).wf(),
            t@ == spec_encode_fields(field_values@.take(i as int), fields@.take(i as int)),
            max == max_index(fields@.take(i as int)),
            max <= 0x7fff_ffff_ffff_ffff,
        decreases n - i,
    {
        let ghost pre = t@;
        let k = resolved_key(&fields[i], i);
        let v = clone_value(&field_values[i]);
        if let Some(ix) = fields[i].index {
            if ix > max {
                max = ix;
            }
        }
        t.set(k, v);
        proof {
            let fs1 = fields@.take(i + 1int);
            let vs1 = field_values@.take(i + 1int);
            assert(fs1.drop_last() =~= fields@.take(i as int));
            assert(vs1.drop_last() =~= field_values@.take(i as int));
            assert(fs1.last() == fields@[i as int]);
            assert(vs1.last() == field_values@[i as int]);
            assert(t@ == spec_encode_fields(vs1, fs1));
        }
        i = i + 1;
    }
    proof {
        assert(fields@.take(n as int) =~= fields@);
        assert(field_values@.take(n as int) =~= field_values@);
    }
    if max > 0 {
        let marker = TableKey::Str(String::from_str("n"));
        t.set(marker, LuaValue::Int(max as i64));
    }
    t
}

/// Encode an enum instance: payload under the content key, then the
/// snake_cased variant name under the tag key when one is configured.
fn encode_case(
    variant: usize,
    payload: &LuaValue,
    variants: &Vec<VariantSpec>,
    tag: &Option<String>,
    content: &Option<String>,
) -> (t: Table)
    requires
        variant < variants@.len(),
    ensures
        t@ == spec_encode_case(variant as int, *payload, variants@, *tag, *content),
{
    let vname = &variants[variant].name;
    let content_key = match content {
        Some(c) => c.clone(),
        None => to_snake_case(vname.as_str()),
    };
    let mut t = Table::new();
    t.set(TableKey::Str(content_key), clone_value(payload));
    if let Some(tg) = tag {
        t.set(TableKey::Str(tg.clone()), LuaValue::Str(to_snake_case(vname.as_str())));
    }
    t
}

} // verus!
