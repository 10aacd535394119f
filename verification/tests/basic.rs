use lua_codec::attrs::{resolve, AttrValue, RawAttr, RawField, RawKind, RawTypeDef};
use lua_codec::decode::decode;
use lua_codec::encode::encode;
use lua_codec::shape::{TypeShape, TypedValue};
use lua_codec::value::{value_eq, LuaValue, Table, TableKey};

fn plain_field(name: Option<&str>) -> RawField {
    RawField {
        name: name.map(|n| n.to_string()),
        attrs: Vec::new(),
    }
}

fn field_with(name: Option<&str>, attrs: Vec<RawAttr>) -> RawField {
    RawField {
        name: name.map(|n| n.to_string()),
        attrs,
    }
}

fn index_attr(i: u64) -> RawAttr {
    RawAttr {
        name: "index".to_string(),
        value: AttrValue::Int(i),
    }
}

fn key_attr(k: &str) -> RawAttr {
    RawAttr {
        name: "key".to_string(),
        value: AttrValue::Str(k.to_string()),
    }
}

fn flag_attr(name: &str) -> RawAttr {
    RawAttr {
        name: name.to_string(),
        value: AttrValue::Flag,
    }
}

fn struct_shape(name: &str, attrs: Vec<RawAttr>, fields: Vec<RawField>) -> TypeShape {
    let def = RawTypeDef {
        name: name.to_string(),
        attrs,
        kind: RawKind::Struct { fields },
    };
    resolve(&def).unwrap()
}

fn record(values: Vec<LuaValue>) -> TypedValue {
    TypedValue::Record {
        field_values: values,
    }
}

fn record_values(v: &TypedValue) -> &Vec<LuaValue> {
    match v {
        TypedValue::Record { field_values } => field_values,
        _ => panic!("expected a record"),
    }
}

fn records_equal(a: &TypedValue, b: &TypedValue) -> bool {
    let x = record_values(a);
    let y = record_values(b);
    x.len() == y.len() && (0..x.len()).all(|i| value_eq(&x[i], &y[i]))
}

fn get<'a>(t: &'a Table, k: TableKey) -> Option<&'a LuaValue> {
    t.get(&k)
}

#[test]
fn basic_named_table_test() {
    let shape = struct_shape("NamedTable", Vec::new(), vec![plain_field(Some("foo"))]);

    let val = record(vec![LuaValue::Bool(true)]);
    let encoded = encode(record(vec![LuaValue::Bool(true)]), &shape);

    let extracted_val = get(&encoded, TableKey::Str("foo".to_string()));
    assert!(matches!(extracted_val, Some(LuaValue::Bool(true))));

    let round_trip_val = decode(&LuaValue::Tbl(encoded), &shape).unwrap();
    assert!(records_equal(&round_trip_val, &val));
}

#[test]
fn basic_named_array_test() {
    let shape = struct_shape(
        "NamedArray",
        vec![flag_attr("array")],
        vec![field_with(Some("foo"), vec![index_attr(2)])],
    );

    let val = record(vec![LuaValue::Bool(true)]);
    let encoded = encode(record(vec![LuaValue::Bool(true)]), &shape);

    let extracted_val = get(&encoded, TableKey::Num(2));
    assert!(matches!(extracted_val, Some(LuaValue::Bool(true))));

    let round_trip_val = decode(&LuaValue::Tbl(encoded), &shape).unwrap();
    assert!(records_equal(&round_trip_val, &val));
}

#[test]
fn basic_unnamed_array_test() {
    let shape = struct_shape(
        "UnnamedArray",
        Vec::new(),
        vec![plain_field(None), plain_field(None), plain_field(None)],
    );

    let val = record(vec![
        LuaValue::Int(1),
        LuaValue::Int(2),
        LuaValue::Int(3),
    ]);
    let encoded = encode(
        record(vec![LuaValue::Int(1), LuaValue::Int(2), LuaValue::Int(3)]),
        &shape,
    );

    let extracted_val = get(&encoded, TableKey::Num(2));
    assert!(matches!(extracted_val, Some(LuaValue::Int(2))));

    let round_trip_val = decode(&LuaValue::Tbl(encoded), &shape).unwrap();
    assert!(records_equal(&round_trip_val, &val));
}

#[test]
fn basic_unnamed_table_test() {
    let shape = struct_shape(
        "UnnamedTable",
        Vec::new(),
        vec![field_with(None, vec![key_attr("foo")])],
    );

    let val = record(vec![LuaValue::Int(37)]);
    let encoded = encode(record(vec![LuaValue::Int(37)]), &shape);

    let extracted_val = get(&encoded, TableKey::Str("foo".to_string()));
    assert!(matches!(extracted_val, Some(LuaValue::Int(37))));

    let round_trip_val = decode(&LuaValue::Tbl(encoded), &shape).unwrap();
    assert!(records_equal(&round_trip_val, &val));
}
