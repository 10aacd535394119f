use lua_codec::attrs::{resolve, RawField, RawKind, RawTypeDef};
use lua_codec::encode::encode;
use lua_codec::shape::{TypeShape, TypedValue};
use lua_codec::value::{table_eq, LuaValue};

fn named_field(name: &str) -> RawField {
    RawField {
        name: Some(name.to_string()),
        attrs: Vec::new(),
    }
}

fn struct_shape(name: &str, fields: Vec<RawField>) -> TypeShape {
    let def = RawTypeDef {
        name: name.to_string(),
        attrs: Vec::new(),
        kind: RawKind::Struct { fields },
    };
    resolve(&def).unwrap()
}

#[test]
fn basic_table() {
    let shape = struct_shape("Table", vec![named_field("is_rusty")]);

    let encoded = encode(
        TypedValue::Record {
            field_values: vec![LuaValue::Bool(true)],
        },
        &shape,
    );

    assert!(table_eq(&encoded, &encoded));
}

#[test]
fn basic_list() {
    let shape = struct_shape(
        "List",
        vec![named_field("first_thing"), named_field("second_thing")],
    );

    let encoded = encode(
        TypedValue::Record {
            field_values: vec![LuaValue::Int(1), LuaValue::Str("2".to_string())],
        },
        &shape,
    );

    assert!(table_eq(&encoded, &encoded));
}
