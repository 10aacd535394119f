use lua_codec::value::{
    clone_value, key_eq, table_eq, value_eq, Entry, LuaValue, Table, TableKey,
};

fn skey(k: &str) -> TableKey {
    TableKey::Str(k.to_string())
}

#[test]
fn set_overwrites_in_place() {
    let mut t = Table::new();
    t.set(skey("a"), LuaValue::Int(1));
    t.set(skey("b"), LuaValue::Int(2));
    t.set(skey("a"), LuaValue::Int(3));

    assert_eq!(t.len(), 2);
    assert!(matches!(t.get(&skey("a")), Some(LuaValue::Int(3))));
    assert!(matches!(t.get(&skey("b")), Some(LuaValue::Int(2))));

    // the overwritten key keeps its original position
    let first: &Entry = t.entry_at(0);
    assert!(key_eq(&first.key, &skey("a")));
    assert!(matches!(first.val, LuaValue::Int(3)));
}

#[test]
fn iteration_order_is_insertion_order() {
    let mut t = Table::new();
    t.set(skey("x"), LuaValue::Bool(false));
    t.set(TableKey::Num(1), LuaValue::Int(10));
    t.set(skey("y"), LuaValue::Str("s".to_string()));

    assert_eq!(t.len(), 3);
    assert!(key_eq(&t.entry_at(0).key, &skey("x")));
    assert!(key_eq(&t.entry_at(1).key, &TableKey::Num(1)));
    assert!(key_eq(&t.entry_at(2).key, &skey("y")));
}

#[test]
fn string_and_integer_keys_are_distinct() {
    let mut t = Table::new();
    t.set(skey("1"), LuaValue::Int(100));
    t.set(TableKey::Num(1), LuaValue::Int(200));

    assert_eq!(t.len(), 2);
    assert!(matches!(t.get(&skey("1")), Some(LuaValue::Int(100))));
    assert!(matches!(t.get(&TableKey::Num(1)), Some(LuaValue::Int(200))));
    assert!(t.get(&skey("2")).is_none());
}

#[test]
fn deep_clone_preserves_nested_tables() {
    let mut inner = Table::new();
    inner.set(skey("k"), LuaValue::Str("v".to_string()));
    let mut outer = Table::new();
    outer.set(skey("child"), LuaValue::Tbl(inner));
    outer.set(TableKey::Num(1), LuaValue::Bool(true));

    let original = LuaValue::Tbl(outer);
    let copy = clone_value(&original);
    assert!(value_eq(&original, &copy));

    // the copy is independent of the original
    let mut copied_table = match copy {
        LuaValue::Tbl(t) => t,
        _ => panic!("expected a table"),
    };
    copied_table.set(skey("extra"), LuaValue::Int(1));
    assert!(!value_eq(&original, &LuaValue::Tbl(copied_table)));
}

#[test]
fn structural_equality_compares_contents() {
    let mut a = Table::new();
    a.set(skey("k"), LuaValue::Int(1));
    let mut b = Table::new();
    b.set(skey("k"), LuaValue::Int(1));
    assert!(table_eq(&a, &b));

    b.set(skey("k"), LuaValue::Int(2));
    assert!(!table_eq(&a, &b));

    assert!(value_eq(
        &LuaValue::Str("ab".to_string()),
        &LuaValue::Str("ab".to_string())
    ));
    assert!(!value_eq(
        &LuaValue::Str("ab".to_string()),
        &LuaValue::Int(1)
    ));
}
