use dfq::value::Value;

#[test]
fn scalars_render_as_plain_text() {
    assert_eq!(Value::Null.render_scalar(), Some(String::new()));
    assert_eq!(Value::Bool(true).render_scalar(), Some("true".to_string()));
    assert_eq!(Value::Bool(false).render_scalar(), Some("false".to_string()));
    assert_eq!(Value::Number(-42).render_scalar(), Some("-42".to_string()));
    assert_eq!(
        Value::String("hi".to_string()).render_scalar(),
        Some("hi".to_string())
    );
    assert_eq!(Value::Array(vec![]).render_scalar(), None);
    assert_eq!(Value::Object(vec![]).render_scalar(), None);
}

#[test]
fn scalar_array_renders_items_in_order() {
    let arr = Value::Array(vec![
        Value::String("a".to_string()),
        Value::Number(7),
        Value::Null,
    ]);
    assert_eq!(
        arr.render_scalar_array(),
        Some(vec!["a".to_string(), "7".to_string(), String::new()])
    );

    let nested = Value::Array(vec![Value::Array(vec![])]);
    assert_eq!(nested.render_scalar_array(), None);
    assert_eq!(Value::Number(1).render_scalar_array(), None);
}

#[test]
fn kind_labels_each_shape() {
    assert_eq!(Value::Null.kind(), "null");
    assert_eq!(Value::Bool(true).kind(), "boolean");
    assert_eq!(Value::Number(0).kind(), "number");
    assert_eq!(Value::String(String::new()).kind(), "string");
    assert_eq!(Value::Array(vec![]).kind(), "array");
    assert_eq!(Value::Object(vec![]).kind(), "object");
    assert!(Value::Number(1).is_scalar());
    assert!(!Value::Array(vec![]).is_scalar());
}

#[test]
fn json_escapes_and_nesting() {
    let v = Value::Array(vec![
        Value::String("a\"b\\c\nd\te\r\u{8}\u{c}\u{1}".to_string()),
        Value::Number(i64::MIN),
        Value::Bool(false),
        Value::Null,
    ]);
    assert_eq!(
        v.to_json_string(),
        "[\"a\\\"b\\\\c\\nd\\te\\r\\b\\f\\u0001\",-9223372036854775808,false,null]"
    );
}

#[test]
fn json_object_renders_in_key_order() {
    let obj = Value::Object(vec![
        ("alpha".to_string(), Value::Number(1)),
        ("beta".to_string(), Value::Object(vec![])),
    ]);
    assert_eq!(obj.to_json_string(), "{\"alpha\":1,\"beta\":{}}");
}
