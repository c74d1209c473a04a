use text_hook::constants::{
    const_ident, const_item, const_value, merge_config, scalar_value, ConfigEntry, ConstError, ConstScalar,
    ConstValue, JsonValue,
};

fn text(s: &str) -> JsonValue {
    JsonValue::Text(s.to_string())
}

fn complex(ty: &str, value: Option<JsonValue>) -> ConfigEntry {
    ConfigEntry::Complex { ty: ty.to_string(), value, encode_to_u16: false, optional: false, expr: false }
}

#[test]
fn scalars_of_each_kind() {
    match scalar_value(&text("ab"), true, false) {
        Ok(ConstScalar::Utf16(u)) => assert_eq!(u, vec![0x61u16, 0x62]),
        _ => panic!("expected UTF-16 units"),
    }
    match scalar_value(&text("1 + 2"), true, true) {
        Ok(ConstScalar::Expr(e)) => assert_eq!(e, "1 + 2"),
        _ => panic!("expected an expression"),
    }
    match scalar_value(&text("hi"), false, false) {
        Ok(ConstScalar::Text(t)) => assert_eq!(t, "hi"),
        _ => panic!("expected a string"),
    }
    match scalar_value(&JsonValue::Number("42".to_string()), false, false) {
        Ok(ConstScalar::Number(n)) => assert_eq!(n, "42"),
        _ => panic!("expected a number"),
    }
    match scalar_value(&JsonValue::Bool(true), false, false) {
        Ok(ConstScalar::Bool(b)) => assert!(b),
        _ => panic!("expected a boolean"),
    }
    assert!(matches!(scalar_value(&JsonValue::Null, false, false), Err(ConstError::NullValue)));
    assert!(matches!(scalar_value(&JsonValue::Object, false, false), Err(ConstError::NotScalar)));
}

#[test]
fn arrays_become_slices() {
    let arr = JsonValue::Array(vec![JsonValue::Bool(false), text("x")]);
    match const_value(&arr, false, false) {
        Ok(ConstValue::Slice(s)) => {
            assert_eq!(s.len(), 2);
            assert!(matches!(s[0], ConstScalar::Bool(false)));
            assert!(matches!(&s[1], ConstScalar::Text(t) if t == "x"));
        }
        _ => panic!("expected a slice"),
    }
    let nested = JsonValue::Array(vec![text("a"), JsonValue::Array(vec![])]);
    assert!(matches!(const_value(&nested, false, false), Err(ConstError::NotScalar)));
    let with_null = JsonValue::Array(vec![JsonValue::Null]);
    assert!(matches!(const_value(&with_null, false, false), Err(ConstError::NullValue)));
}

#[test]
fn identifiers_replace_other_characters() {
    assert_eq!(const_ident("font-name.v2"), "font_name_v2");
    assert_eq!(const_ident("Ab9"), "Ab9");
}

#[test]
fn items_without_values() {
    assert!(matches!(const_item("k", "u32", None, false, false, false), Ok(None)));
    assert!(matches!(const_item("k", "u32", Some(&JsonValue::Null), false, false, false), Ok(None)));
    match const_item("my key", "&str", None, false, true, false) {
        Ok(Some(item)) => {
            assert_eq!(item.ident, "my_key");
            assert_eq!(item.ty, "&str");
            assert!(item.optional);
            assert!(item.value.is_none());
        }
        _ => panic!("expected an optional constant"),
    }
    match const_item("n", "u8", Some(&JsonValue::Number("7".to_string())), false, true, false) {
        Ok(Some(item)) => {
            assert!(item.optional);
            assert!(matches!(&item.value, Some(ConstValue::Scalar(ConstScalar::Number(n))) if n == "7"));
        }
        _ => panic!("expected a constant"),
    }
}

#[test]
fn user_values_override_defaults() {
    let base = vec![("A".to_string(), complex("u32", Some(JsonValue::Number("1".to_string()))))];
    let user = vec![
        ("A".to_string(), ConfigEntry::Simple(JsonValue::Number("5".to_string()))),
        ("B".to_string(), complex("bool", Some(JsonValue::Bool(true)))),
    ];
    let merged = merge_config(vec![base, user]).ok().expect("merge succeeds");
    assert_eq!(merged.len(), 2);
    assert_eq!(merged[0].0, "A");
    match &merged[0].1 {
        ConfigEntry::Complex { ty, value: Some(JsonValue::Number(n)), .. } => {
            assert_eq!(ty, "u32");
            assert_eq!(n, "5");
        }
        _ => panic!("expected the overridden default"),
    }
    assert_eq!(merged[1].0, "B");
    assert!(matches!(&merged[1].1, ConfigEntry::Complex { value: Some(JsonValue::Bool(true)), .. }));
}

#[test]
fn simple_values_before_their_definition_are_absorbed() {
    let first = vec![("app_name".to_string(), ConfigEntry::Simple(text("Early")))];
    let second = vec![("app_name".to_string(), ConfigEntry::Simple(text("OverrideApp")))];
    let third = vec![("app_name".to_string(), complex("&str", None))];
    let merged = merge_config(vec![first, second, third]).ok().expect("merge succeeds");
    assert_eq!(merged.len(), 1);
    assert!(matches!(&merged[0].1, ConfigEntry::Complex { value: Some(JsonValue::Text(t)), .. } if t == "OverrideApp"));
    // A definition with its own value keeps it: it comes last.
    let merged = merge_config(vec![
        vec![("k".to_string(), ConfigEntry::Simple(text("early")))],
        vec![("k".to_string(), complex("&str", Some(text("own"))))],
    ])
    .ok()
    .expect("merge succeeds");
    assert!(matches!(&merged[0].1, ConfigEntry::Complex { value: Some(JsonValue::Text(t)), .. } if t == "own"));
    // The documented example: a base definition overridden by a simple value.
    let merged = merge_config(vec![
        vec![("app_name".to_string(), complex("&str", Some(text("MyApp"))))],
        vec![("app_name".to_string(), ConfigEntry::Simple(text("OverrideApp")))],
    ])
    .ok()
    .expect("merge succeeds");
    assert!(matches!(&merged[0].1, ConfigEntry::Complex { value: Some(JsonValue::Text(t)), .. } if t == "OverrideApp"));
}

#[test]
fn refused_merges() {
    let r = merge_config(vec![
        vec![("A".to_string(), complex("u32", None))],
        vec![("B".to_string(), ConfigEntry::Simple(JsonValue::Bool(true))), ("A".to_string(), complex("u64", None))],
    ]);
    assert!(matches!(r, Err(ConstError::DuplicateComplex { file: 1, entry: 1 })));
    let r = merge_config(vec![
        vec![("A".to_string(), complex("u32", None))],
        vec![("S".to_string(), ConfigEntry::Simple(JsonValue::Bool(false)))],
    ]);
    assert!(matches!(r, Err(ConstError::NotComplex { index: 1 })));
    let kept = merge_config(vec![vec![("A".to_string(), complex("u32", None))]]).ok().expect("one file");
    assert_eq!(kept.len(), 1);
    assert!(merge_config(Vec::new()).ok().expect("no files").is_empty());
}
