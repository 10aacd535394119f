use lua_codec::attrs::{resolve, AttrValue, RawAttr, RawField, RawKind, RawTypeDef, RawVariant};
use lua_codec::decode::decode;
use lua_codec::encode::encode;
use lua_codec::shape::{TypeShape, TypedValue};
use lua_codec::value::{value_eq, LuaValue, Table, TableKey};

fn unnamed_field() -> RawField {
    RawField {
        name: None,
        attrs: Vec::new(),
    }
}

fn named_field(name: &str) -> RawField {
    RawField {
        name: Some(name.to_string()),
        attrs: Vec::new(),
    }
}

fn str_attr(name: &str, v: &str) -> RawAttr {
    RawAttr {
        name: name.to_string(),
        value: AttrValue::Str(v.to_string()),
    }
}

fn variant(name: &str) -> RawVariant {
    RawVariant {
        name: name.to_string(),
        payload_arity: 1,
    }
}

fn struct_shape(name: &str, fields: Vec<RawField>) -> TypeShape {
    let def = RawTypeDef {
        name: name.to_string(),
        attrs: Vec::new(),
        kind: RawKind::Struct { fields },
    };
    resolve(&def).unwrap()
}

fn enum_shape(name: &str, attrs: Vec<RawAttr>, variants: Vec<RawVariant>) -> TypeShape {
    let def = RawTypeDef {
        name: name.to_string(),
        attrs,
        kind: RawKind::Enum { variants },
    };
    resolve(&def).unwrap()
}

/// The shape of `enum NumOrStr { Num(u64), Str(String) }`, untagged.
fn num_or_str() -> TypeShape {
    enum_shape("NumOrStr", Vec::new(), vec![variant("Num"), variant("Str")])
}

/// The same enum with `tag = "type"` and `content = "val"`.
fn tagged_content_num_or_str() -> TypeShape {
    enum_shape(
        "TaggedContentNumOrStr",
        vec![str_attr("tag", "type"), str_attr("content", "val")],
        vec![variant("Num"), variant("Str")],
    )
}

fn record(values: Vec<LuaValue>) -> TypedValue {
    TypedValue::Record {
        field_values: values,
    }
}

fn case(variant: usize, payload: LuaValue) -> TypedValue {
    TypedValue::Case { variant, payload }
}

fn typed_eq(a: &TypedValue, b: &TypedValue) -> bool {
    match (a, b) {
        (
            TypedValue::Record { field_values: x },
            TypedValue::Record { field_values: y },
        ) => x.len() == y.len() && (0..x.len()).all(|i| value_eq(&x[i], &y[i])),
        (
            TypedValue::Case {
                variant: i,
                payload: p,
            },
            TypedValue::Case {
                variant: j,
                payload: q,
            },
        ) => i == j && value_eq(p, q),
        _ => false,
    }
}

fn get<'a>(t: &'a Table, k: &str) -> Option<&'a LuaValue> {
    t.get(&TableKey::Str(k.to_string()))
}

#[test]
fn basic_unnamed() {
    let shape = struct_shape("Unnamed", vec![unnamed_field(), unnamed_field()]);

    let table = record(vec![LuaValue::Int(1), LuaValue::Str("2".to_string())]);

    let lt = encode(
        record(vec![LuaValue::Int(1), LuaValue::Str("2".to_string())]),
        &shape,
    );
    let round_trip_table = decode(&LuaValue::Tbl(lt), &shape).unwrap();

    assert!(typed_eq(&table, &round_trip_table));
}

#[test]
fn basic_unit() {
    let shape = struct_shape("Unit", Vec::new());

    let table = record(Vec::new());

    let lt = encode(record(Vec::new()), &shape);
    let round_trip_table = decode(&LuaValue::Tbl(lt), &shape).unwrap();

    assert!(typed_eq(&table, &round_trip_table));
}

#[test]
fn basic_enum_to() {
    let shape = num_or_str();

    let nos = case(0, LuaValue::Int(37));
    let encoded = encode(nos, &shape);

    assert!(matches!(get(&encoded, "num"), Some(LuaValue::Int(37))));
}

#[test]
fn basic_enum_from() {
    let shape = num_or_str();

    let mut t = Table::new();
    t.set(TableKey::Str("num".to_string()), LuaValue::Int(63));

    let nos = decode(&LuaValue::Tbl(t), &shape).unwrap();
    assert!(typed_eq(&nos, &case(0, LuaValue::Int(63))));
}

#[test]
fn tagged_content_enum_to() {
    let shape = tagged_content_num_or_str();

    let tnos = case(0, LuaValue::Int(37));
    let encoded = encode(tnos, &shape);

    let tag_value = get(&encoded, "type");
    assert!(tag_value.is_some(), "type not specified");
    match tag_value {
        Some(LuaValue::Str(s)) => assert_eq!(s, "num", "type not correct"),
        _ => panic!("type not a string"),
    }
    let content_value = get(&encoded, "val");
    assert!(content_value.is_some(), "value not found");
    assert!(
        matches!(content_value, Some(LuaValue::Int(37))),
        "value in not found"
    );
}

#[test]
fn tagged_content_enum_from() {
    let shape = tagged_content_num_or_str();

    let mut t = Table::new();
    t.set(
        TableKey::Str("type".to_string()),
        LuaValue::Str("num".to_string()),
    );
    t.set(TableKey::Str("val".to_string()), LuaValue::Int(63));

    let nos = decode(&LuaValue::Tbl(t), &shape).unwrap();
    assert!(typed_eq(&nos, &case(0, LuaValue::Int(63))));
}

#[test]
fn understand_stuff() {
    let shape = struct_shape("Unit", Vec::new());

    let t = Table::new();
    let unit = decode(&LuaValue::Tbl(t), &shape).unwrap();

    assert!(typed_eq(&unit, &record(Vec::new())));
}
