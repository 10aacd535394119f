use lua_codec::attrs::{
    parse_enum_container_attrs, resolve, AttrValue, ConfigError, RawAttr, RawField, RawKind,
    RawTypeDef, RawVariant,
};
use lua_codec::shape::ShapeKind;

fn str_attr(name: &str, v: &str) -> RawAttr {
    RawAttr {
        name: name.to_string(),
        value: AttrValue::Str(v.to_string()),
    }
}

fn int_attr(name: &str, v: u64) -> RawAttr {
    RawAttr {
        name: name.to_string(),
        value: AttrValue::Int(v),
    }
}

fn flag_attr(name: &str) -> RawAttr {
    RawAttr {
        name: name.to_string(),
        value: AttrValue::Flag,
    }
}

fn field(name: Option<&str>, attrs: Vec<RawAttr>) -> RawField {
    RawField {
        name: name.map(|n| n.to_string()),
        attrs,
    }
}

fn variant(name: &str, payload_arity: u64) -> RawVariant {
    RawVariant {
        name: name.to_string(),
        payload_arity,
    }
}

fn struct_def(attrs: Vec<RawAttr>, fields: Vec<RawField>) -> RawTypeDef {
    RawTypeDef {
        name: "T".to_string(),
        attrs,
        kind: RawKind::Struct { fields },
    }
}

fn enum_def(attrs: Vec<RawAttr>, variants: Vec<RawVariant>) -> RawTypeDef {
    RawTypeDef {
        name: "E".to_string(),
        attrs,
        kind: RawKind::Enum { variants },
    }
}

#[test]
fn resolves_named_struct() {
    let def = struct_def(Vec::new(), vec![field(Some("alpha"), Vec::new())]);
    let shape = resolve(&def).unwrap();
    assert_eq!(shape.name, "T");
    match shape.kind {
        ShapeKind::Struct { fields } => {
            assert_eq!(fields.len(), 1);
            assert_eq!(fields[0].name.as_deref(), Some("alpha"));
            assert!(fields[0].key.is_none());
            assert!(fields[0].index.is_none());
        }
        _ => panic!("expected a struct shape"),
    }
}

#[test]
fn resolves_enum_with_tag_and_content() {
    let def = enum_def(
        vec![str_attr("tag", "type"), str_attr("content", "val")],
        vec![variant("Num", 1), variant("Str", 1)],
    );
    let shape = resolve(&def).unwrap();
    match shape.kind {
        ShapeKind::Enum {
            variants,
            tag,
            content,
        } => {
            assert_eq!(variants.len(), 2);
            assert_eq!(variants[0].name, "Num");
            assert_eq!(tag.as_deref(), Some("type"));
            assert_eq!(content.as_deref(), Some("val"));
        }
        _ => panic!("expected an enum shape"),
    }
}

#[test]
fn parses_container_attrs() {
    let attrs = vec![str_attr("tag", "type"), str_attr("content", "val")];
    let parsed = parse_enum_container_attrs(&attrs).unwrap();
    assert_eq!(parsed.tag.as_deref(), Some("type"));
    assert_eq!(parsed.content.as_deref(), Some("val"));

    let parsed = parse_enum_container_attrs(&Vec::new()).unwrap();
    assert!(parsed.tag.is_none());
    assert!(parsed.content.is_none());
}

#[test]
fn rejects_key_and_index_together() {
    let def = struct_def(
        Vec::new(),
        vec![field(None, vec![str_attr("key", "k"), int_attr("index", 1)])],
    );
    assert_eq!(resolve(&def).unwrap_err(), ConfigError::AmbiguousFieldMapping);
}

#[test]
fn rejects_array_mode_with_named_field() {
    let def = struct_def(
        vec![flag_attr("array")],
        vec![field(Some("foo"), Vec::new())],
    );
    assert_eq!(resolve(&def).unwrap_err(), ConfigError::ArrayModeNamedField);

    // a named field with an explicit index is positional and accepted
    let def = struct_def(
        vec![flag_attr("array")],
        vec![field(Some("foo"), vec![int_attr("index", 2)])],
    );
    assert!(resolve(&def).is_ok());
}

#[test]
fn rejects_content_without_tag() {
    let def = enum_def(vec![str_attr("content", "val")], vec![variant("Num", 1)]);
    assert_eq!(resolve(&def).unwrap_err(), ConfigError::ContentWithoutTag);
}

#[test]
fn rejects_duplicate_attributes() {
    let def = enum_def(
        vec![str_attr("tag", "a"), str_attr("tag", "b")],
        vec![variant("Num", 1)],
    );
    assert_eq!(resolve(&def).unwrap_err(), ConfigError::DuplicateAttribute);

    let def = struct_def(
        Vec::new(),
        vec![field(None, vec![int_attr("index", 1), int_attr("index", 2)])],
    );
    assert_eq!(resolve(&def).unwrap_err(), ConfigError::DuplicateAttribute);
}

#[test]
fn rejects_invalid_attributes() {
    // an unrecognized attribute key
    let def = enum_def(vec![str_attr("colour", "red")], vec![variant("Num", 1)]);
    assert_eq!(resolve(&def).unwrap_err(), ConfigError::InvalidAttribute);

    // tag takes a string, not an integer
    let def = enum_def(vec![int_attr("tag", 3)], vec![variant("Num", 1)]);
    assert_eq!(resolve(&def).unwrap_err(), ConfigError::InvalidAttribute);

    // explicit slots are 1-based, so index 0 is malformed
    let def = struct_def(Vec::new(), vec![field(None, vec![int_attr("index", 0)])]);
    assert_eq!(resolve(&def).unwrap_err(), ConfigError::InvalidAttribute);
}

#[test]
fn rejects_wrong_payload_arity() {
    let def = enum_def(Vec::new(), vec![variant("Num", 0)]);
    assert_eq!(resolve(&def).unwrap_err(), ConfigError::VariantPayloadArity);

    let def = enum_def(Vec::new(), vec![variant("Num", 2)]);
    assert_eq!(resolve(&def).unwrap_err(), ConfigError::VariantPayloadArity);
}

#[test]
fn rejects_unions() {
    let def = RawTypeDef {
        name: "U".to_string(),
        attrs: Vec::new(),
        kind: RawKind::Union,
    };
    assert_eq!(resolve(&def).unwrap_err(), ConfigError::UnionUnsupported);
}

#[test]
fn ambiguity_wins_over_grammar_errors() {
    // both `key` and `index` on one field, and an unknown attribute on
    // another: the ambiguous mapping is reported first
    let def = struct_def(
        Vec::new(),
        vec![
            field(None, vec![str_attr("bogus", "x")]),
            field(None, vec![str_attr("key", "k"), int_attr("index", 1)]),
        ],
    );
    assert_eq!(resolve(&def).unwrap_err(), ConfigError::AmbiguousFieldMapping);
}
