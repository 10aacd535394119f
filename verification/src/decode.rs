//! The decoder: table back to typed value.
//!
//! A non-table input fails with [`ConversionError::NotATable`].  A
//! struct is read field by field under the same resolved keys the
//! encoder uses; the first absent key fails the whole call, and a
//! unit-like struct accepts any table.  For an enum, the variant key
//! and payload are selected by the configured `tag`/`content` keys (or,
//! untagged, from the table's first entry), and the key is dispatched
//! against the snake_cased variant names in declaration order.

use vstd::prelude::*;

use crate::case::{snake_of, to_snake_case};
use crate::shape::{
    resolved_key, typed_model, FieldSpec, ShapeKind, TypeShape, TypedModel, TypedValue, VariantSpec,
};
use crate::value::{
    clone_key, clone_value, spec_get, KeyModel, LuaValue, Table, TableKey, ValModel,
    vals_model,
};

verus! {

/// A per-call conversion failure, identifying the offending key or the
/// target type where applicable.
#[derive(Debug)]
pub enum ConversionError {
    /// The input value is not a table; carries the target type's name.
    NotATable { target: String },
    /// An untagged enum was decoded from a table with no entries.
    EmptyTable,
    /// The selected key names no declared variant.
    UnknownVariant { key: String },
    /// A required key is absent from the table.
    MissingValue(TableKey),
    /// A variant key was found but its value is not a string.
    NotAString(TableKey),
}

/// The mathematical model of a [`ConversionError`].
pub enum ErrModel {
    NotATable(Seq<char>),
    EmptyTable,
    UnknownVariant(Seq<char>),
    MissingValue(KeyModel),
    NotAString(KeyModel),
}

impl View for ConversionError {
    type V = ErrModel;

    open spec fn view(&self) -> ErrModel {
        match self {
            ConversionError::NotATable { target } => ErrModel::NotATable(target@),
            ConversionError::EmptyTable => ErrModel::EmptyTable,
            ConversionError::UnknownVariant { key } => ErrModel::UnknownVariant(key@),
            ConversionError::MissingValue(key) => ErrModel::MissingValue(key@),
            ConversionError::NotAString(key) => ErrModel::NotAString(key@),
        }
    }
}

/// Reading the fields at positions `pos`, `pos + 1`, ... of a struct
/// from table `t`: each resolved key must be present, and the first
/// absent one fails the whole decode.
pub open spec fn spec_decode_fields(
    t: Seq<(KeyModel, ValModel)>,
    fields: Seq<FieldSpec>,
    pos: int,
) -> Result<Seq<ValModel>, ErrModel>
    decreases fields.len(),
{
    if fields.len() == 0 {
        Ok(Seq::empty())
    } else {
        let k = fields[0].spec_key(pos);
        match spec_get(t, k) {
            None => Err(ErrModel::MissingValue(k)),
            Some(v) => match spec_decode_fields(t, fields.skip(1), pos + 1) {
                Ok(rest) => Ok(seq![v] + rest),
                Err(e) => Err(e),
            },
        }
    }
}

/// Selecting the variant key and the payload of an enum from table
/// `t`.  With `tag` and `content` both set, the tag's value (a string)
/// is the key and the content entry the payload.  With `tag` alone,
/// the tag's value is itself the key the payload is read under.  With
/// neither, the table's first entry is taken, and an empty table fails.
pub open spec fn spec_select_pair(
    t: Seq<(KeyModel, ValModel)>,
    tag: Option<String>,
    content: Option<String>,
) -> Result<(Seq<char>, ValModel), ErrModel> {
    match tag {
        Some(tg) => match spec_get(t, KeyModel::Str(tg@)) {
            None => Err(ErrModel::MissingValue(KeyModel::Str(tg@))),
            Some(ValModel::Str(kstr)) => match content {
                Some(c) => match spec_get(t, KeyModel::Str(c@)) {
                    None => Err(ErrModel::MissingValue(KeyModel::Str(c@))),
                    Some(v) => Ok((kstr, v)),
                },
                None => match spec_get(t, KeyModel::Str(kstr)) {
                    None => Err(ErrModel::MissingValue(KeyModel::Str(kstr))),
                    Some(v) => Ok((kstr, v)),
                },
            },
            Some(_) => Err(ErrModel::NotAString(KeyModel::Str(tg@))),
        },
        None => if t.len() == 0 {
            Err(ErrModel::EmptyTable)
        } else {
            match t[0].0 {
                KeyModel::Str(kstr) => Ok((kstr, t[0].1)),
                KeyModel::Num(_) => Err(ErrModel::NotAString(t[0].0)),
            }
        },
    }
}

/// Dispatching a selected key against the variants from position `i`
/// on: the first variant whose snake_cased name equals the key wins.
pub open spec fn spec_dispatch(
    key: Seq<char>,
    payload: ValModel,
    variants: Seq<VariantSpec>,
    i: int,
) -> Result<TypedModel, ErrModel>
    decreases variants.len() - i,
{
    if i < 0 || i >= variants.len() {
        Err(ErrModel::UnknownVariant(key))
    } else if snake_of(variants[i].name@) == key {
        Ok(TypedModel::Case(i, payload))
    } else {
        spec_dispatch(key, payload, variants, i + 1)
    }
}

/// What decoding an enum from table `t` yields.
pub open spec fn spec_decode_enum(
    t: Seq<(KeyModel, ValModel)>,
    variants: Seq<VariantSpec>,
    tag: Option<String>,
    content: Option<String>,
) -> Result<TypedModel, ErrModel> {
    match spec_select_pair(t, tag, content) {
        Ok((key, payload)) => spec_dispatch(key, payload, variants, 0),
        Err(e) => Err(e),
    }
}

/// What `decode` yields for a value modelled by `m` against `shape`.
pub open spec fn spec_decode(m: ValModel, shape: TypeShape) -> Result<TypedModel, ErrModel> {
    match m {
        ValModel::Tbl(t) => match shape.kind {
            ShapeKind::Struct { fields } => match spec_decode_fields(t, fields@, 0) {
                Ok(vs) => Ok(TypedModel::Record(vs)),
                Err(e) => Err(e),
            },
            ShapeKind::Enum { variants, tag, content } => spec_decode_enum(
                t,
                variants@,
                tag,
                content,
            ),
        },
        _ => Err(ErrModel::NotATable(shape.name@)),
    }
}

/// When every field's key is present in `t`, decoding yields exactly
/// the stored values, in field order.
pub proof fn lemma_decode_fields_all_present(
    t: Seq<(KeyModel, ValModel)>,
    fields: Seq<FieldSpec>,
    pos: int,
)
    requires
        forall|j: int|
            0 <= j < fields.len() ==> spec_get(t, (#[trigger] fields[j]).spec_key(pos + j)) is Some,
    ensures
        spec_decode_fields(t, fields, pos) is Ok,
        spec_decode_fields(t, fields, pos)->Ok_0.len() == fields.len(),
        forall|j: int|
            0 <= j < fields.len() ==> spec_decode_fields(t, fields, pos)->Ok_0[j] == spec_get(
                t,
                (#[trigger] fields[j]).spec_key(pos + j),
            )->0,
    decreases fields.len(),
{
    if fields.len() > 0 {
        assert forall|j: int|
            0 <= j < fields.skip(1).len() implies spec_get(
            t,
            (#[trigger] fields.skip(1)[j]).spec_key(pos + 1 + j),
        ) is Some by {
            assert(fields.skip(1)[j] == fields[j + 1]);
        }
        lemma_decode_fields_all_present(t, fields.skip(1), pos + 1);
        let rest = spec_decode_fields(t, fields.skip(1), pos + 1)->Ok_0;
        assert forall|j: int|
            0 <= j < fields.len() implies spec_decode_fields(t, fields, pos)->Ok_0[j] == spec_get(
            t,
            (#[trigger] fields[j]).spec_key(pos + j),
        )->0 by {
            if j > 0 {
                assert(rest[j - 1] == spec_get(t, fields.skip(1)[j - 1].spec_key(pos + j))->0);
                assert(fields.skip(1)[j - 1] == fields[j]);
            }
        }
    }
}

/// When the fields before `i` are all present and field `i`'s key is
/// absent, decoding fails with that key's missing-value error.
pub proof fn lemma_decode_fields_missing(
    t: Seq<(KeyModel, ValModel)>,
    fields: Seq<FieldSpec>,
    pos: int,
    i: int,
)
    requires
        0 <= i < fields.len(),
        forall|j: int|
            0 <= j < i ==> spec_get(t, (#[trigger] fields[j]).spec_key(pos + j)) is Some,
        spec_get(t, fields[i].spec_key(pos + i)) is None,
    ensures
        spec_decode_fields(t, fields, pos) == Err::<Seq<ValModel>, ErrModel>(
            ErrModel::MissingValue(fields[i].spec_key(pos + i)),
        ),
    decreases i,
{
    if i > 0 {
        assert forall|j: int|
            0 <= j < i - 1 implies spec_get(
            t,
            (#[trigger] fields.skip(1)[j]).spec_key(pos + 1 + j),
        ) is Some by {
            assert(fields.skip(1)[j] == fields[j + 1]);
        }
        assert(fields.skip(1)[i - 1] == fields[i]);
        lemma_decode_fields_missing(t, fields.skip(1), pos + 1, i - 1);
    }
}

/// Dispatch is unchanged by skipping variants that do not match.
pub proof fn lemma_dispatch_skip(
    key: Seq<char>,
    payload: ValModel,
    variants: Seq<VariantSpec>,
    s: int,
    i: int,
)
    requires
        0 <= s <= i <= variants.len(),
        forall|j: int| s <= j < i ==> snake_of((#[trigger] variants[j]).name@) != key,
    ensures
        spec_dispatch(key, payload, variants, s) == spec_dispatch(key, payload, variants, i),
    decreases i - s,
{
    if s < i {
        lemma_dispatch_skip(key, payload, variants, s + 1, i);
    }
}

/// Find the first variant whose snake_cased name equals `key`.
fn find_variant(variants: &Vec<VariantSpec>, key: &String) -> (r: Option<usize>)
    ensures
        match r {
            Some(i) => i < variants@.len() && snake_of(variants@[i as int].name@) == key@
                && forall|j: int|
                0 <= j < i ==> snake_of((#[trigger] variants@[j]).name@) != key@,
            None => forall|j: int|
                0 <= j < variants@.len() ==> snake_of((#[trigger] variants@[j]).name@) != key@,
        },
{
    let n = variants.len();
    let mut i: usize = 0;
    while i < n
        invariant
            n == variants@.len(),
            i <= n,
            forall|j: int| 0 <= j < i ==> snake_of((#[trigger] variants@[j]).name@) != key@,
        decreases n - i,
    {
        let sn = to_snake_case(variants[i].name.as_str());
        if sn == *key {
            return Some(i);
        }
        i = i + 1;
    }
    None
}

/// Decode the field values of a struct from `t`.
fn decode_record(t: &Table, fields: &Vec<FieldSpec>) -> (r: Result<Vec<LuaValue>, ConversionError>)
    ensures
        match r {
            Ok(vals) => spec_decode_fields(t@, fields@, 0) == Ok::<Seq<ValModel>, ErrModel>(
                vals_model(vals@),
            ),
            Err(e) => spec_decode_fields(t@, fields@, 0) == Err::<Seq<ValModel>, ErrModel>(e@),
        },
{
    let n = fields.len();
    let mut out: Vec<LuaValue> = Vec::new();
    let mut i: usize = 0;
    while i < n
        invariant
            n == fields@.len(),
            i <= n,
            out@.len() == i,
            forall|j: int|
                0 <= j < i ==> spec_get(t@, (#[trigger] fields@[j]).spec_key(j)) is Some,
            forall|j: int|
                0 <= j < i ==> (#[trigger] out@[j])@ == spec_get(t@, fields@[j].spec_key(j))->0,
        decreases n - i,
    {
        let k = resolved_key(&fields[i], i);
        match t.get(&k) {
            None => {
                proof {
                    lemma_decode_fields_missing(t@, fields@, 0, i as int);
                }
                return Err(ConversionError::MissingValue(k));
            },
            Some(v) => {
                let cv = clone_value(v);
                out.push(cv);
            },
        }
        i = i + 1;
    }
    proof {
        lemma_decode_fields_all_present(t@, fields@, 0);
        let r = spec_decode_fields(t@, fields@, 0);
        assert(r->Ok_0 =~= vals_model(out@));
        assert(r == Ok::<Seq<ValModel>, ErrModel>(vals_model(out@)));
    }
    Ok(out)
}

/// Decode an enum from `t`: select the variant key and payload, then
/// dispatch against the declared variants.
fn decode_case(
    t: &Table,
    variants: &Vec<VariantSpec>,
    tag: &Option<String>,
    content: &Option<String>,
) -> (r: Result<TypedValue, ConversionError>)
    ensures
        match r {
            Ok(tv) => spec_decode_enum(t@, variants@, *tag, *content) == Ok::<
                TypedModel,
                ErrModel,
            >(typed_model(tv)),
            Err(e) => spec_decode_enum(t@, variants@, *tag, *content) == Err::<
                TypedModel,
                ErrModel,
            >(e@),
        },
{
    let selected: (String, LuaValue) = match tag {
        Some(tg) => {
            let tk = TableKey::Str(tg.clone());
            let key_string: String = match t.get(&tk) {
                None => {
                    return Err(ConversionError::MissingValue(tk));
                },
                Some(LuaValue::Str(s)) => s.clone(),
                Some(_) => {
                    return Err(ConversionError::NotAString(tk));
                },
            };
            match content {
                Some(c) => {
                    let ck = TableKey::Str(c.clone());
                    match t.get(&ck) {
                        None => {
                            return Err(ConversionError::MissingValue(ck));
                        },
                        Some(v) => (key_string, clone_value(v)),
                    }
                },
                None => {
                    let ck = TableKey::Str(key_string.clone());
                    match t.get(&ck) {
                        None => {
                            return Err(ConversionError::MissingValue(ck));
                        },
                        Some(v) => (key_string, clone_value(v)),
                    }
                },
            }
        },
        None => {
            if t.len() == 0 {
                return Err(ConversionError::EmptyTable);
            }
            let e = t.entry_at(0);
            match &e.key {
                TableKey::Str(s) => (s.clone(), clone_value(&e.val)),
                TableKey::Num(_) => {
                    return Err(ConversionError::NotAString(clone_key(&e.key)));
                },
            }
        },
    };
    let (key_string, payload) = selected;
    match find_variant(variants, &key_string) {
        Some(i) => {
            proof {
                lemma_dispatch_skip(key_string@, payload@, variants@, 0, i as int);
            }
            Ok(TypedValue::Case { variant: i, payload })
        },
        None => {
            proof {
                lemma_dispatch_skip(key_string@, payload@, variants@, 0, variants@.len() as int);
            }
            Err(ConversionError::UnknownVariant { key: key_string })
        },
    }
}

/// Decode a value against a shape.  A struct yields its field values
/// in declaration order (a unit-like struct accepts any table); an
/// enum yields the selected variant and its payload.
pub fn decode(v: &LuaValue, shape: &TypeShape) -> (r: Result<TypedValue, ConversionError>)
    requires
        shape.wf(),
    ensures
        match r {
            Ok(tv) => spec_decode(v@, *shape) == Ok::<TypedModel, ErrModel>(typed_model(tv)),
            Err(e) => spec_decode(v@, *shape) == Err::<TypedModel, ErrModel>(e@),
        },
{
    let t = match v {
        LuaValue::Tbl(t) => t,
        _ => {
            return Err(ConversionError::NotATable { target: shape.name.clone() });
        },
    };
    match &shape.kind {
        ShapeKind::Struct { fields } => match decode_record(t, fields) {
            Ok(vals) => Ok(TypedValue::Record { field_values: vals }),
            Err(e) => Err(e),
        },
        ShapeKind::Enum { variants, tag, content } => decode_case(t, variants, tag, content),
    }
}

} // verus!
