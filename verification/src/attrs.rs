//! The attribute resolver.
//!
//! A type declares its layout through a small attribute grammar:
//! `tag = "<string>"` and `content = "<string>"` on an enum, an `array`
//! flag on a struct, and `key = "<string>"` or `index = <integer>` on a
//! field.  [`resolve`] validates a declared type against that grammar
//! and produces the immutable [`TypeShape`] both codec directions
//! consume, or fails with a [`ConfigError`].  The checks run in
//! priority order: an ambiguous field mapping first, then array-mode
//! violations, then duplicated attributes, then unrecognized or
//! malformed attributes, and, for an enum, the one-payload rule last.

use vstd::prelude::*;

use crate::shape::{FieldSpec, ShapeKind, TypeShape, VariantSpec};

verus! {

/// The value of one declared attribute: a quoted string, an unsigned
/// integer, or a bare flag.
#[derive(Debug)]
pub enum AttrValue {
    Str(String),
    Int(u64),
    Flag,
}

/// One declared attribute, as `name` or `name = value`.
#[derive(Debug)]
pub struct RawAttr {
    pub name: String,
    pub value: AttrValue,
}

/// One declared struct field: its name, when the field is named, and
/// its attributes.
#[derive(Debug)]
pub struct RawField {
    pub name: Option<String>,
    pub attrs: Vec<RawAttr>,
}

/// One declared enum variant: its name and how many payload fields it
/// holds (exactly one is supported).
#[derive(Debug)]
pub struct RawVariant {
    pub name: String,
    pub payload_arity: u64,
}

/// The declared kind of a type.
#[derive(Debug)]
pub enum RawKind {
    Struct { fields: Vec<RawField> },
    Enum { variants: Vec<RawVariant> },
    Union,
}

/// A declared type: its name, its container attributes, and its kind.
#[derive(Debug)]
pub struct RawTypeDef {
    pub name: String,
    pub attrs: Vec<RawAttr>,
    pub kind: RawKind,
}

/// The per-enum container attributes: the optional tag key and the
/// optional content key.
#[derive(Debug)]
pub struct EnumContainerAttrs {
    pub tag: Option<String>,
    pub content: Option<String>,
}

/// A configuration error, detected once per type before any value is
/// converted.
#[derive(Clone, Copy, Debug, PartialEq, Eq, Structural)]
pub enum ConfigError {
    /// A field declares both `key` and `index`.
    AmbiguousFieldMapping,
    /// Array mode requires purely positional fields.
    ArrayModeNamedField,
    /// `content` was declared without `tag`.
    ContentWithoutTag,
    /// A container or field attribute was declared more than once.
    DuplicateAttribute,
    /// An unrecognized attribute key, or a malformed attribute value.
    InvalidAttribute,
    /// An enum variant does not hold exactly one payload value.
    VariantPayloadArity,
    /// Union types are unsupported.
    UnionUnsupported,
}

/// How many attributes of `attrs` are named `name`.
pub open spec fn count_attr(attrs: Seq<RawAttr>, name: Seq<char>) -> int
    decreases attrs.len(),
{
    if attrs.len() == 0 {
        0
    } else {
        (if attrs[0].name@ == name {
            1int
        } else {
            0
        }) + count_attr(attrs.skip(1), name)
    }
}

/// Whether some attribute of `attrs` is named `name`.
pub open spec fn has_attr(attrs: Seq<RawAttr>, name: Seq<char>) -> bool {
    count_attr(attrs, name) > 0
}

/// The string value of the first attribute named `name` that carries
/// one.
pub open spec fn attr_str(attrs: Seq<RawAttr>, name: Seq<char>) -> Option<Seq<char>>
    decreases attrs.len(),
{
    if attrs.len() == 0 {
        None
    } else if attrs[0].name@ == name && attrs[0].value is Str {
        match attrs[0].value {
            AttrValue::Str(s) => Some(s@),
            _ => None,
        }
    } else {
        attr_str(attrs.skip(1), name)
    }
}

/// The integer value of the first attribute named `name` that carries
/// one.
pub open spec fn attr_int(attrs: Seq<RawAttr>, name: Seq<char>) -> Option<u64>
    decreases attrs.len(),
{
    if attrs.len() == 0 {
        None
    } else if attrs[0].name@ == name && attrs[0].value is Int {
        match attrs[0].value {
            AttrValue::Int(i) => Some(i),
            _ => None,
        }
    } else {
        attr_int(attrs.skip(1), name)
    }
}

/// The views of an optional string.
pub open spec fn opt_str_view(o: Option<String>) -> Option<Seq<char>> {
    match o {
        Some(s) => Some(s@),
        None => None,
    }
}

/// A recognized, well-formed container attribute of a struct: the bare
/// `array` flag.
pub open spec fn struct_attr_ok(a: RawAttr) -> bool {
    a.name@ == "array"@ && a.value is Flag
}

/// A recognized, well-formed container attribute of an enum: `tag` or
/// `content`, each with a string value.
pub open spec fn enum_attr_ok(a: RawAttr) -> bool {
    (a.name@ == "tag"@ || a.name@ == "content"@) && a.value is Str
}

/// A recognized, well-formed field attribute: `key` with a string
/// value, or `index` with a 1-based integer slot that fits the host's
/// signed 64-bit integers.
pub open spec fn field_attr_ok(a: RawAttr) -> bool {
    ||| (a.name@ == "key"@ && a.value is Str)
    ||| (a.name@ == "index"@ && (a.value matches AttrValue::Int(i) && 1 <= i
        <= 0x7fff_ffff_ffff_ffff))
}

/// A field declaring both `key` and `index`.
pub open spec fn field_ambiguous(f: RawField) -> bool {
    has_attr(f.attrs@, "key"@) && has_attr(f.attrs@, "index"@)
}

/// A field that cannot resolve to a positional key: it declares an
/// explicit string `key`, or it is named and declares no `index`.
pub open spec fn field_array_violation(f: RawField) -> bool {
    has_attr(f.attrs@, "key"@) || (f.name is Some && !has_attr(f.attrs@, "index"@))
}

/// A field declaring `key` or `index` more than once.
pub open spec fn field_dup(f: RawField) -> bool {
    count_attr(f.attrs@, "key"@) > 1 || count_attr(f.attrs@, "index"@) > 1
}

/// Every attribute of the field is recognized and well formed.
pub open spec fn field_grammar_ok(f: RawField) -> bool {
    forall|i: int| 0 <= i < f.attrs@.len() ==> field_attr_ok(#[trigger] f.attrs@[i])
}

/// The configuration error of a declared struct, if any, in priority
/// order.
pub open spec fn spec_struct_error(attrs: Seq<RawAttr>, fields: Seq<RawField>) -> Option<
    ConfigError,
> {
    if exists|i: int| 0 <= i < fields.len() && field_ambiguous(#[trigger] fields[i]) {
        Some(ConfigError::AmbiguousFieldMapping)
    } else if has_attr(attrs, "array"@) && exists|i: int|
        0 <= i < fields.len() && field_array_violation(#[trigger] fields[i]) {
        Some(ConfigError::ArrayModeNamedField)
    } else if count_attr(attrs, "array"@) > 1 || exists|i: int|
        0 <= i < fields.len() && field_dup(#[trigger] fields[i]) {
        Some(ConfigError::DuplicateAttribute)
    } else if (exists|i: int| 0 <= i < attrs.len() && !struct_attr_ok(#[trigger] attrs[i]))
        || (exists|i: int| 0 <= i < fields.len() && !field_grammar_ok(#[trigger] fields[i])) {
        Some(ConfigError::InvalidAttribute)
    } else {
        None
    }
}

/// The configuration error of an enum's container attributes, if any,
/// in priority order.
pub open spec fn spec_enum_attrs_error(attrs: Seq<RawAttr>) -> Option<ConfigError> {
    if has_attr(attrs, "content"@) && !has_attr(attrs, "tag"@) {
        Some(ConfigError::ContentWithoutTag)
    } else if count_attr(attrs, "tag"@) > 1 || count_attr(attrs, "content"@) > 1 {
        Some(ConfigError::DuplicateAttribute)
    } else if exists|i: int| 0 <= i < attrs.len() && !enum_attr_ok(#[trigger] attrs[i]) {
        Some(ConfigError::InvalidAttribute)
    } else {
        None
    }
}

/// The configuration error of a declared enum, if any: attribute
/// errors first, then the one-payload rule on every variant.
pub open spec fn spec_enum_error(attrs: Seq<RawAttr>, variants: Seq<RawVariant>) -> Option<
    ConfigError,
> {
    match spec_enum_attrs_error(attrs) {
        Some(e) => Some(e),
        None => if exists|i: int|
            0 <= i < variants.len() && (#[trigger] variants[i]).payload_arity != 1 {
            Some(ConfigError::VariantPayloadArity)
        } else {
            None
        },
    }
}

/// The configuration error of a declared type, if any.
pub open spec fn spec_config_error(def: RawTypeDef) -> Option<ConfigError> {
    match def.kind {
        RawKind::Union => Some(ConfigError::UnionUnsupported),
        RawKind::Struct { fields } => spec_struct_error(def.attrs@, fields@),
        RawKind::Enum { variants } => spec_enum_error(def.attrs@, variants@),
    }
}

/// A resolved field reproduces the declared field: the same name, the
/// declared `key` and `index` overrides.
pub open spec fn field_corresponds(rf: RawField, f: FieldSpec) -> bool {
    &&& opt_str_view(f.name) == opt_str_view(rf.name)
    &&& opt_str_view(f.key) == attr_str(rf.attrs@, "key"@)
    &&& f.index == attr_int(rf.attrs@, "index"@)
}

/// A resolved shape reproduces the declared type.
pub open spec fn shape_corresponds(def: RawTypeDef, shape: TypeShape) -> bool {
    &&& shape.name@ == def.name@
    &&& match def.kind {
        RawKind::Struct { fields } => shape.kind matches ShapeKind::Struct { fields: fs }
            && fs@.len() == fields@.len() && forall|i: int|
            0 <= i < fields@.len() ==> field_corresponds(#[trigger] fields@[i], fs@[i]),
        RawKind::Enum { variants } => shape.kind matches ShapeKind::Enum {
            variants: vs,
            tag,
            content,
        } && vs@.len() == variants@.len() && (forall|i: int|
            0 <= i < variants@.len() ==> (#[trigger] vs@[i]).name@ == variants@[i].name@)
            && opt_str_view(tag) == attr_str(def.attrs@, "tag"@) && opt_str_view(content)
            == attr_str(def.attrs@, "content"@),
        RawKind::Union => false,
    }
}

/// Whether this attribute's name is `name`.
fn name_is(a: &RawAttr, name: &str) -> (r: bool)
    ensures
        r == (a.name@ == name@),
{
    let n = String::from_str(name);
    a.name == n
}

/// Count the attributes named `name`.
fn count_named(attrs: &Vec<RawAttr>, name: &str) -> (c: usize)
    ensures
        c == count_attr(attrs@, name@),
{
    let n = attrs.len();
    let mut c: usize = 0;
    let mut i: usize = 0;
    proof {
        assert(attrs@.skip(0) =~= attrs@);
    }
    while i < n
        invariant
            n == attrs@.len(),
            i <= n,
            c <= i,
            count_attr(attrs@, name@) == c + count_attr(attrs@.skip(i as int), name@),
        decreases n - i,
    {
        proof {
            assert(attrs@.skip(i as int)[0] == attrs@[i as int]);
            assert(attrs@.skip(i as int).skip(1) =~= attrs@.skip(i as int + 1));
        }
        if name_is(&attrs[i], name) {
            c = c + 1;
        }
        i = i + 1;
    }
    c
}

/// Find the string value of the first attribute named `name` carrying
/// one.
fn find_str_value(attrs: &Vec<RawAttr>, name: &str) -> (r: Option<String>)
    ensures
        opt_str_view(r) == attr_str(attrs@, name@),
{
    let n = attrs.len();
    let mut i: usize = 0;
    proof {
        assert(attrs@.skip(0) =~= attrs@);
    }
    while i < n
        invariant
            n == attrs@.len(),
            i <= n,
            attr_str(attrs@, name@) == attr_str(attrs@.skip(i as int), name@),
        decreases n - i,
    {
        proof {
            assert(attrs@.skip(i as int)[0] == attrs@[i as int]);
            assert(attrs@.skip(i as int).skip(1) =~= attrs@.skip(i as int + 1));
        }
        if name_is(&attrs[i], name) {
            if let AttrValue::Str(s) = &attrs[i].value {
                return Some(s.clone());
            }
        }
        i = i + 1;
    }
    None
}

/// Find the integer value of the first attribute named `name` carrying
/// one.
fn find_int_value(attrs: &Vec<RawAttr>, name: &str) -> (r: Option<u64>)
    ensures
        r == attr_int(attrs@, name@),
{
    let n = attrs.len();
    let mut i: usize = 0;
    proof {
        assert(attrs@.skip(0) =~= attrs@);
    }
    while i < n
        invariant
            n == attrs@.len(),
            i <= n,
            attr_int(attrs@, name@) == attr_int(attrs@.skip(i as int), name@),
        decreases n - i,
    {
        proof {
            assert(attrs@.skip(i as int)[0] == attrs@[i as int]);
            assert(attrs@.skip(i as int).skip(1) =~= attrs@.skip(i as int + 1));
        }
        if name_is(&attrs[i], name) {
            if let AttrValue::Int(v) = attrs[i].value {
                return Some(v);
            }
        }
        i = i + 1;
    }
    None
}

/// A found string value implies the attribute name occurs.
proof fn lemma_attr_str_has(attrs: Seq<RawAttr>, name: Seq<char>)
    ensures
        attr_str(attrs, name) is Some ==> has_attr(attrs, name),
    decreases attrs.len(),
{
    if attrs.len() > 0 {
        lemma_attr_str_has(attrs.skip(1), name);
        lemma_count_attr_nonneg(attrs.skip(1), name);
    }
}

/// A found integer value implies the attribute name occurs.
proof fn lemma_attr_int_has(attrs: Seq<RawAttr>, name: Seq<char>)
    ensures
        attr_int(attrs, name) is Some ==> has_attr(attrs, name),
    decreases attrs.len(),
{
    if attrs.len() > 0 {
        lemma_attr_int_has(attrs.skip(1), name);
        lemma_count_attr_nonneg(attrs.skip(1), name);
    }
}

/// An attribute count is never negative.
proof fn lemma_count_attr_nonneg(attrs: Seq<RawAttr>, name: Seq<char>)
    ensures
        count_attr(attrs, name) >= 0,
    decreases attrs.len(),
{
    if attrs.len() > 0 {
        lemma_count_attr_nonneg(attrs.skip(1), name);
    }
}

/// Under a valid field grammar, a declared index is 1-based and fits
/// the host's signed 64-bit integers.
proof fn lemma_index_range(attrs: Seq<RawAttr>)
    requires
        forall|i: int| 0 <= i < attrs.len() ==> field_attr_ok(#[trigger] attrs[i]),
    ensures
        attr_int(attrs, "index"@) matches Some(v) ==> 1 <= v <= 0x7fff_ffff_ffff_ffff,
    decreases attrs.len(),
{
    if attrs.len() > 0 {
        assert forall|i: int| 0 <= i < attrs.skip(1).len() implies field_attr_ok(
            #[trigger] attrs.skip(1)[i],
        ) by {
            assert(attrs.skip(1)[i] == attrs[i + 1]);
        }
        lemma_index_range(attrs.skip(1));
    }
}

/// Under a valid enum grammar, an attribute name that occurs carries a
/// string value, so its first value is found.
proof fn lemma_enum_attr_found(attrs: Seq<RawAttr>, name: Seq<char>)
    requires
        forall|i: int| 0 <= i < attrs.len() ==> enum_attr_ok(#[trigger] attrs[i]),
    ensures
        has_attr(attrs, name) ==> attr_str(attrs, name) is Some,
    decreases attrs.len(),
{
    if attrs.len() > 0 {
        assert forall|i: int| 0 <= i < attrs.skip(1).len() implies enum_attr_ok(
            #[trigger] attrs.skip(1)[i],
        ) by {
            assert(attrs.skip(1)[i] == attrs[i + 1]);
        }
        lemma_enum_attr_found(attrs.skip(1), name);
        lemma_count_attr_nonneg(attrs.skip(1), name);
    }
}

/// Check that every container attribute of a struct is recognized and
/// well formed.
fn struct_attrs_ok_exec(attrs: &Vec<RawAttr>) -> (r: bool)
    ensures
        r == (forall|i: int| 0 <= i < attrs@.len() ==> struct_attr_ok(#[trigger] attrs@[i])),
{
    let n = attrs.len();
    let mut i: usize = 0;
    while i < n
        invariant
            n == attrs@.len(),
            i <= n,
            forall|j: int| 0 <= j < i ==> struct_attr_ok(#[trigger] attrs@[j]),
        decreases n - i,
    {
        let a = &attrs[i];
        let good = name_is(a, "array") && matches!(a.value, AttrValue::Flag);
        if !good {
            return false;
        }
        i = i + 1;
    }
    true
}

/// Check that every container attribute of an enum is recognized and
/// well formed.
fn enum_attrs_ok_exec(attrs: &Vec<RawAttr>) -> (r: bool)
    ensures
        r == (forall|i: int| 0 <= i < attrs@.len() ==> enum_attr_ok(#[trigger] attrs@[i])),
{
    let n = attrs.len();
    let mut i: usize = 0;
    while i < n
        invariant
            n == attrs@.len(),
            i <= n,
            forall|j: int| 0 <= j < i ==> enum_attr_ok(#[trigger] attrs@[j]),
        decreases n - i,
    {
        let a = &attrs[i];
        let good = (name_is(a, "tag") || name_is(a, "content")) && matches!(
            a.value,
            AttrValue::Str(_),
        );
        if !good {
            return false;
        }
        i = i + 1;
    }
    true
}

/// Check that every attribute of a field is recognized and well
/// formed.
fn field_attrs_ok_exec(f: &RawField) -> (r: bool)
    ensures
        r == field_grammar_ok(*f),
{
    let n = f.attrs.len();
    let mut i: usize = 0;
    while i < n
        invariant
            n == f.attrs@.len(),
            i <= n,
            forall|j: int| 0 <= j < i ==> field_attr_ok(#[trigger] f.attrs@[j]),
        decreases n - i,
    {
        let a = &f.attrs[i];
        let good_key = name_is(a, "key") && matches!(a.value, AttrValue::Str(_));
        let good_index = name_is(a, "index") && match a.value {
            AttrValue::Int(v) => 1 <= v && v <= 0x7fff_ffff_ffff_ffff,
            _ => false,
        };
        if !(good_key || good_index) {
            return false;
        }
        i = i + 1;
    }
    true
}

/// Parse an enum's container attributes: at most one `tag` and one
/// `content`, each a string, `content` only together with `tag`, and
/// nothing else; the checks run in priority order.
pub fn parse_enum_container_attrs(attrs: &Vec<RawAttr>) -> (r: Result<
    EnumContainerAttrs,
    ConfigError,
>)
    ensures
        match r {
            Ok(a) => spec_enum_attrs_error(attrs@) is None && opt_str_view(a.tag) == attr_str(
                attrs@,
                "tag"@,
            ) && opt_str_view(a.content) == attr_str(attrs@, "content"@),
            Err(e) => spec_enum_attrs_error(attrs@) == Some(e),
        },
{
    let tag_count = count_named(attrs, "tag");
    let content_count = count_named(attrs, "content");
    if content_count > 0 && tag_count == 0 {
        return Err(ConfigError::ContentWithoutTag);
    }
    if tag_count > 1 || content_count > 1 {
        return Err(ConfigError::DuplicateAttribute);
    }
    if !enum_attrs_ok_exec(attrs) {
        return Err(ConfigError::InvalidAttribute);
    }
    proof {
        lemma_count_attr_nonneg(attrs@, "tag"@);
        lemma_count_attr_nonneg(attrs@, "content"@);
    }
    Ok(
        EnumContainerAttrs {
            tag: find_str_value(attrs, "tag"),
            content: find_str_value(attrs, "content"),
        },
    )
}

/// Resolve a declared struct into its shape.
fn resolve_struct(tname: &String, attrs: &Vec<RawAttr>, fields: &Vec<RawField>) -> (r: Result<
    TypeShape,
    ConfigError,
>)
    ensures
        match r {
            Ok(shape) => spec_struct_error(attrs@, fields@) is None && shape.name@ == tname@ && (
            shape.kind matches ShapeKind::Struct { fields: fs } && fs@.len() == fields@.len()
                && forall|i: int|
                0 <= i < fields@.len() ==> field_corresponds(#[trigger] fields@[i], fs@[i]))
                && shape.wf(),
            Err(e) => spec_struct_error(attrs@, fields@) == Some(e),
        },
{
    let n = fields.len();
    let mut i: usize = 0;
    while i < n
        invariant
            n == fields@.len(),
            i <= n,
            forall|j: int| 0 <= j < i ==> !field_ambiguous(#[trigger] fields@[j]),
        decreases n - i,
    {
        proof {
            lemma_count_attr_nonneg(fields@[i as int].attrs@, "key"@);
            lemma_count_attr_nonneg(fields@[i as int].attrs@, "index"@);
        }
        if count_named(&fields[i].attrs, "key") > 0 && count_named(&fields[i].attrs, "index")
            > 0 {
            return Err(ConfigError::AmbiguousFieldMapping);
        }
        i = i + 1;
    }
    let array_count = count_named(attrs, "array");
    proof {
        lemma_count_attr_nonneg(attrs@, "array"@);
    }
    if array_count > 0 {
        let mut i: usize = 0;
        while i < n
            invariant
                n == fields@.len(),
                i <= n,
                forall|j: int| 0 <= j < n ==> !field_ambiguous(#[trigger] fields@[j]),
                has_attr(attrs@, "array"@),
                forall|j: int| 0 <= j < i ==> !field_array_violation(#[trigger] fields@[j]),
            decreases n - i,
        {
            let f = &fields[i];
            proof {
                lemma_count_attr_nonneg(f.attrs@, "key"@);
                lemma_count_attr_nonneg(f.attrs@, "index"@);
            }
            let viol = count_named(&f.attrs, "key") > 0 || (f.name.is_some() && count_named(
                &f.attrs,
                "index",
            ) == 0);
            if viol {
                return Err(ConfigError::ArrayModeNamedField);
            }
            i = i + 1;
        }
    }
    if array_count > 1 {
        return Err(ConfigError::DuplicateAttribute);
    }
    let mut i: usize = 0;
    while i < n
        invariant
            n == fields@.len(),
            i <= n,
            forall|j: int| 0 <= j < n ==> !field_ambiguous(#[trigger] fields@[j]),
            has_attr(attrs@, "array"@) ==> forall|j: int|
                0 <= j < n ==> !field_array_violation(#[trigger] fields@[j]),
            count_attr(attrs@, "array"@) <= 1,
            forall|j: int| 0 <= j < i ==> !field_dup(#[trigger] fields@[j]),
        decreases n - i,
    {
        let f = &fields[i];
        if count_named(&f.attrs, "key") > 1 || count_named(&f.attrs, "index") > 1 {
            return Err(ConfigError::DuplicateAttribute);
        }
        i = i + 1;
    }
    if !struct_attrs_ok_exec(attrs) {
        return Err(ConfigError::InvalidAttribute);
    }
    let mut i: usize = 0;
    while i < n
        invariant
            n == fields@.len(),
            i <= n,
            forall|j: int| 0 <= j < n ==> !field_ambiguous(#[trigger] fields@[j]),
            has_attr(attrs@, "array"@) ==> forall|j: int|
                0 <= j < n ==> !field_array_violation(#[trigger] fields@[j]),
            count_attr(attrs@, "array"@) <= 1,
            forall|j: int| 0 <= j < n ==> !field_dup(#[trigger] fields@[j]),
            forall|j: int| 0 <= j < attrs@.len() ==> struct_attr_ok(#[trigger] attrs@[j]),
            forall|j: int| 0 <= j < i ==> field_grammar_ok(#[trigger] fields@[j]),
        decreases n - i,
    {
        if !field_attrs_ok_exec(&fields[i]) {
            return Err(ConfigError::InvalidAttribute);
        }
        i = i + 1;
    }
    let mut fs: Vec<FieldSpec> = Vec::new();
    let mut i: usize = 0;
    while i < n
        invariant
            n == fields@.len(),
            i <= n,
            fs@.len() == i,
            forall|j: int| 0 <= j < n ==> !field_ambiguous(#[trigger] fields@[j]),
            forall|j: int| 0 <= j < n ==> field_grammar_ok(#[trigger] fields@[j]),
            forall|j: int| 0 <= j < i ==> field_corresponds(#[trigger] fields@[j], fs@[j]),
            forall|j: int| 0 <= j < i ==> (#[trigger] fs@[j]).wf(),
        decreases n - i,
    {
        let f = &fields[i];
        let key = find_str_value(&f.attrs, "key");
        let index = find_int_value(&f.attrs, "index");
        let name = match &f.name {
            Some(s) => Some(s.clone()),
            None => None,
        };
        proof {
            lemma_attr_str_has(f.attrs@, "key"@);
            lemma_attr_int_has(f.attrs@, "index"@);
            lemma_index_range(f.attrs@);
        }
        fs.push(FieldSpec { name, key, index });
        i = i + 1;
    }
    Ok(TypeShape { name: tname.clone(), kind: ShapeKind::Struct { fields: fs } })
}

/// Resolve a declared enum into its shape.
fn resolve_enum(tname: &String, attrs: &Vec<RawAttr>, variants: &Vec<RawVariant>) -> (r: Result<
    TypeShape,
    ConfigError,
>)
    ensures
        match r {
            Ok(shape) => spec_enum_error(attrs@, variants@) is None && shape.name@ == tname@ && (
            shape.kind matches ShapeKind::Enum { variants: vs, tag, content } && vs@.len()
                == variants@.len() && (forall|i: int|
                0 <= i < variants@.len() ==> (#[trigger] vs@[i]).name@ == variants@[i].name@)
                && opt_str_view(tag) == attr_str(attrs@, "tag"@) && opt_str_view(content)
                == attr_str(attrs@, "content"@)) && shape.wf(),
            Err(e) => spec_enum_error(attrs@, variants@) == Some(e),
        },
{
    let ca = match parse_enum_container_attrs(attrs) {
        Ok(a) => a,
        Err(e) => {
            return Err(e);
        },
    };
    let n = variants.len();
    let mut i: usize = 0;
    while i < n
        invariant
            n == variants@.len(),
            i <= n,
            spec_enum_attrs_error(attrs@) is None,
            forall|j: int| 0 <= j < i ==> (#[trigger] variants@[j]).payload_arity == 1,
        decreases n - i,
    {
        if variants[i].payload_arity != 1 {
            return Err(ConfigError::VariantPayloadArity);
        }
        i = i + 1;
    }
    let mut vs: Vec<VariantSpec> = Vec::new();
    let mut i: usize = 0;
    while i < n
        invariant
            n == variants@.len(),
            i <= n,
            vs@.len() == i,
            forall|j: int| 0 <= j < i ==> (#[trigger] vs@[j]).name@ == variants@[j].name@,
        decreases n - i,
    {
        vs.push(VariantSpec { name: variants[i].name.clone() });
        i = i + 1;
    }
    proof {
        lemma_attr_str_has(attrs@, "content"@);
        lemma_enum_attr_found(attrs@, "tag"@);
    }
    Ok(
        TypeShape {
            name: tname.clone(),
            kind: ShapeKind::Enum { variants: vs, tag: ca.tag, content: ca.content },
        },
    )
}

/// Resolve a declared type against the attribute grammar, producing
/// the validated shape both codec directions consume, or the first
/// configuration error in priority order.
pub fn resolve(def: &RawTypeDef) -> (r: Result<TypeShape, ConfigError>)
    ensures
        match r {
            Ok(shape) => spec_config_error(*def) is None && shape_corresponds(*def, shape)
                && shape.wf(),
            Err(e) => spec_config_error(*def) == Some(e),
        },
{
    match &def.kind {
        RawKind::Union => Err(ConfigError::UnionUnsupported),
        RawKind::Struct { fields } => resolve_struct(&def.name, &def.attrs, fields),
        RawKind::Enum { variants } => resolve_enum(&def.name, &def.attrs, variants),
    }
}

} // verus!
