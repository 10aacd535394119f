//! Resolved type descriptors.
//!
//! A [`TypeShape`] is the immutable structural description of one struct
//! or enum, produced once by the attribute resolver and consumed
//! identically by the encoder and the decoder.  Field keys are resolved
//! by [`FieldSpec::spec_key`]: an explicit `key` or `index` override
//! wins, a named field uses its name, and a positional field uses its
//! 1-based position.

use vstd::prelude::*;

use crate::value::{val_model, vals_model, KeyModel, LuaValue, TableKey, ValModel};

verus! {

/// One struct field: its declared name (absent for positional fields)
/// and its optional explicit table-key or 1-based slot override.
#[derive(Debug)]
pub struct FieldSpec {
    pub name: Option<String>,
    pub key: Option<String>,
    pub index: Option<u64>,
}

/// One enum variant, holding exactly one payload value.
#[derive(Debug)]
pub struct VariantSpec {
    pub name: String,
}

/// The structural kind of a type: a struct with ordered fields, or an
/// enum with ordered variants and optional tag/content keys.
#[derive(Debug)]
pub enum ShapeKind {
    Struct { fields: Vec<FieldSpec> },
    Enum { variants: Vec<VariantSpec>, tag: Option<String>, content: Option<String> },
}

/// The resolved, immutable description of one struct or enum type.
#[derive(Debug)]
pub struct TypeShape {
    pub name: String,
    pub kind: ShapeKind,
}

/// A typed value to convert: a struct instance carries its field values
/// in declaration order, an enum instance its variant's position and
/// single payload.  Leaf values are already in interchange form; their
/// conversion is the host environment's business.
#[derive(Debug)]
pub enum TypedValue {
    Record { field_values: Vec<LuaValue> },
    Case { variant: usize, payload: LuaValue },
}

/// The mathematical model of a [`TypedValue`].
pub enum TypedModel {
    Record(Seq<ValModel>),
    Case(int, ValModel),
}

/// The model of a typed value.
pub open spec fn typed_model(v: TypedValue) -> TypedModel {
    match v {
        TypedValue::Record { field_values } => TypedModel::Record(vals_model(field_values@)),
        TypedValue::Case { variant, payload } => TypedModel::Case(variant as int, val_model(payload)),
    }
}

impl FieldSpec {
    /// A field may not override both `key` and `index`, and explicit
    /// slots are 1-based and fit the host's signed 64-bit integers.
    pub open spec fn wf(&self) -> bool {
        &&& !(self.key is Some && self.index is Some)
        &&& (self.index matches Some(i) ==> 1 <= i <= 0x7fff_ffff_ffff_ffff)
    }

    /// The table key under which the field at 0-based position `pos` is
    /// stored: the explicit `key`, else the explicit `index`, else the
    /// field's name, else the 1-based position.
    pub open spec fn spec_key(&self, pos: int) -> KeyModel {
        if self.key is Some {
            KeyModel::Str(self.key->0@)
        } else if self.index is Some {
            KeyModel::Num(self.index->0 as int)
        } else if self.name is Some {
            KeyModel::Str(self.name->0@)
        } else {
            KeyModel::Num(pos + 1)
        }
    }
}

impl TypeShape {
    /// Validity of a resolved shape: every field is well formed, and a
    /// `content` key never appears without a `tag` key.
    pub open spec fn wf(&self) -> bool {
        match self.kind {
            ShapeKind::Struct { fields } => forall|i: int|
                0 <= i < fields@.len() ==> (#[trigger] fields@[i]).wf(),
            ShapeKind::Enum { variants, tag, content } => content is Some ==> tag is Some,
        }
    }

    /// Whether a typed value has this shape: a record with one value per
    /// field, or a case naming a declared variant.
    pub open spec fn fits(&self, v: TypedValue) -> bool {
        match (self.kind, v) {
            (ShapeKind::Struct { fields }, TypedValue::Record { field_values }) => field_values@.len()
                == fields@.len(),
            (ShapeKind::Enum { variants, tag, content }, TypedValue::Case { variant, payload }) => variant
                < variants@.len(),
            _ => false,
        }
    }
}

/// The largest explicit `index` override among `fields`, `0` when none
/// declares one.
pub open spec fn max_index(fields: Seq<FieldSpec>) -> int
    decreases fields.len(),
{
    if fields.len() == 0 {
        0
    } else {
        let rest = max_index(fields.drop_last());
        let last = if fields.last().index is Some {
            fields.last().index->0 as int
        } else {
            0
        };
        if last > rest {
            last
        } else {
            rest
        }
    }
}

/// The resolved table key of `f` at position `pos`, as executable code.
pub fn resolved_key(f: &FieldSpec, pos: usize) -> (k: TableKey)
    requires
        pos < usize::MAX,
    ensures
        k@ == f.spec_key(pos as int),
{
    match &f.key {
        Some(s) => TableKey::Str(s.clone()),
        None => match f.index {
            Some(i) => TableKey::Num(i),
            None => match &f.name {
                Some(n) => TableKey::Str(n.clone()),
                None => TableKey::Num((pos as u64) + 1),
            },
        },
    }
}

} // verus!
