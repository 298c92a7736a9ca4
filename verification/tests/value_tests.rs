use juniper::scalar::DefaultScalarValue;
use juniper::value::{Object, Value};

fn object_of(pairs: Vec<(&str, Value<DefaultScalarValue>)>) -> Object<DefaultScalarValue> {
    Object::from_fields(pairs.into_iter().map(|(k, v)| (k.to_string(), v)).collect())
}

#[test]
fn value_macro_string() {
    let s: Value<DefaultScalarValue> = Value::from("test");
    assert_eq!(s, Value::scalar("test"));
}

#[test]
fn value_macro_int() {
    let s: Value<DefaultScalarValue> = Value::from(123);
    assert_eq!(s, Value::scalar(123));
}

#[test]
fn value_macro_boolean() {
    let s: Value<DefaultScalarValue> = Value::from(false);
    assert_eq!(s, Value::scalar(false));
}

#[test]
fn value_macro_option() {
    let s: Value<DefaultScalarValue> = Value::from(Some("test"));
    assert_eq!(s, Value::scalar("test"));
    let s: Value<DefaultScalarValue> = Value::null();
    assert_eq!(s, Value::null());
    let s: Value<DefaultScalarValue> = Value::from(None);
    assert_eq!(s, Value::null());
}

#[test]
fn value_macro_list() {
    let s: Value<DefaultScalarValue> = Value::list(vec![
        Value::from(123),
        Value::from("Test"),
        Value::from(false),
    ]);
    assert_eq!(
        s,
        Value::list(vec![
            Value::scalar(123),
            Value::scalar("Test"),
            Value::scalar(false),
        ])
    );
    let s: Value<DefaultScalarValue> = Value::list(vec![
        Value::from(123),
        Value::list(vec![Value::from(456)]),
        Value::from(789),
    ]);
    assert_eq!(
        s,
        Value::list(vec![
            Value::scalar(123),
            Value::list(vec![Value::scalar(456)]),
            Value::scalar(789),
        ])
    );
}

#[test]
fn value_macro_object() {
    let s: Value<DefaultScalarValue> = Value::object(object_of(vec![
        ("key", Value::from(123)),
        ("next", Value::from(true)),
    ]));
    assert_eq!(
        s,
        Value::object(object_of(vec![
            ("key", Value::scalar(123)),
            ("next", Value::scalar(true)),
        ]))
    );
}

#[test]
fn display_null() {
    let s: Value<DefaultScalarValue> = Value::null();
    assert_eq!("null", s.render());
}

#[test]
fn display_int() {
    let s: Value<DefaultScalarValue> = Value::from(123);
    assert_eq!("123", s.render());
}

#[test]
fn display_string() {
    let s: Value<DefaultScalarValue> = Value::from("foo");
    assert_eq!("\"foo\"", s.render());
}

#[test]
fn display_bool() {
    let s: Value<DefaultScalarValue> = Value::from(false);
    assert_eq!("false", s.render());

    let s: Value<DefaultScalarValue> = Value::from(true);
    assert_eq!("true", s.render());
}

#[test]
fn display_list() {
    let s: Value<DefaultScalarValue> =
        Value::list(vec![Value::from(1), Value::null(), Value::from("foo")]);
    assert_eq!("[1, null, \"foo\"]", s.render());
}

#[test]
fn display_list_one_element() {
    let s: Value<DefaultScalarValue> = Value::list(vec![Value::from(1)]);
    assert_eq!("[1]", s.render());
}

#[test]
fn display_list_empty() {
    let s: Value<DefaultScalarValue> = Value::list(vec![]);
    assert_eq!("[]", s.render());
}

#[test]
fn display_object() {
    let s: Value<DefaultScalarValue> = Value::object(object_of(vec![
        ("int", Value::from(1)),
        ("null", Value::null()),
        ("string", Value::from("foo")),
    ]));
    assert_eq!(
        r#"{"int": 1, "null": null, "string": "foo"}"#,
        s.render()
    );
}

#[test]
fn display_object_one_field() {
    let s: Value<DefaultScalarValue> = Value::object(object_of(vec![("int", Value::from(1))]));
    assert_eq!(r#"{"int": 1}"#, s.render());
}

#[test]
fn display_object_empty() {
    let s = Value::<DefaultScalarValue>::object(Object::with_capacity(0));
    assert_eq!(r#"{}"#, s.render());
}

#[test]
fn display_negative_and_extreme_integers() {
    let s: Value<DefaultScalarValue> = Value::from(-45);
    assert_eq!("-45", s.render());
    let s: Value<DefaultScalarValue> = Value::from(i32::MIN);
    assert_eq!("-2147483648", s.render());
    let s: Value<DefaultScalarValue> = Value::from(0);
    assert_eq!("0", s.render());
    assert_eq!("-9223372036854775808", juniper::scalar::render_long(i64::MIN));
    assert_eq!("9223372036854775807", juniper::scalar::render_long(i64::MAX));
}

#[test]
fn add_field_overwrites_in_place() {
    let mut o: Object<DefaultScalarValue> = Object::with_capacity(2);
    assert_eq!(o.add_field("a", Value::scalar(1)), None);
    assert_eq!(o.add_field("b", Value::scalar(2)), None);
    assert_eq!(o.add_field("a", Value::scalar(3)), Some(Value::scalar(1)));
    assert_eq!(o.field_count(), 2);
    assert!(o.contains_field("a"));
    assert!(!o.contains_field("c"));
    assert_eq!(o.get_field_value("a"), Some(&Value::scalar(3)));
    assert_eq!(o.get_field_value("c"), None);
    assert_eq!(Value::object(o).render(), r#"{"a": 3, "b": 2}"#);
}

#[test]
fn object_fields_in_insertion_order() {
    let o = object_of(vec![("x", Value::scalar(1)), ("y", Value::scalar(2)), ("x", Value::scalar(9))]);
    assert_eq!(o.field_count(), 2);
    let first = o.field_at(0).unwrap();
    assert_eq!(first.0, "x");
    assert_eq!(first.1, &Value::scalar(9));
    assert!(o.field_at(2).is_none());
    let fields = o.into_fields();
    assert_eq!(fields.len(), 2);
    assert_eq!(fields[1].0, "y");
}

#[test]
fn discriminators_and_views() {
    let n: Value<DefaultScalarValue> = Value::null();
    assert!(n.is_null());
    assert!(n.as_scalar().is_none());
    let i: Value<DefaultScalarValue> = Value::integer(7);
    assert!(!i.is_null());
    assert_eq!(i.as_scalar_value::<i32>(), Some(&7));
    assert_eq!(i.as_scalar_value::<bool>(), None);
    assert_eq!(i.as_scalar_value::<String>(), None);
    assert_eq!(i.as_scalar(), Some(&DefaultScalarValue::Int(7)));
    let s: Value<DefaultScalarValue> = Value::string("hi");
    assert_eq!(s.as_string_value(), Some("hi"));
    assert_eq!(i.as_string_value(), None);
    let b: Value<DefaultScalarValue> = Value::boolean(true);
    assert_eq!(b.as_scalar_value::<bool>(), Some(&true));
    let l: Value<DefaultScalarValue> = Value::list(vec![Value::scalar(1)]);
    assert_eq!(l.as_list_value().map(|v| v.len()), Some(1));
    assert!(l.as_object_value().is_none());
    let mut o: Value<DefaultScalarValue> = Value::object(Object::with_capacity(1));
    assert!(o.as_object_value().is_some());
    assert!(o.as_list_value().is_none());
    o.as_mut_object_value().unwrap().add_field("k", Value::scalar(1));
    assert_eq!(o.render(), r#"{"k": 1}"#);
    assert_eq!(o.into_object().map(|x| x.field_count()), Some(1));
    assert!(Value::<DefaultScalarValue>::null().into_object().is_none());
}

#[test]
fn scalar_round_trip_for_each_kind() {
    let v: Value<DefaultScalarValue> = Value::scalar(i32::MAX);
    assert_eq!(v.as_scalar_value::<i32>(), Some(&i32::MAX));
    let v: Value<DefaultScalarValue> = Value::scalar(String::from("text"));
    assert_eq!(v.as_scalar_value::<String>(), Some(&String::from("text")));
    let v: Value<DefaultScalarValue> = Value::scalar(true);
    assert_eq!(v.as_scalar_value::<bool>(), Some(&true));
}

#[test]
fn map_scalar_value_to_same_representation_changes_nothing() {
    let make = || -> Value<DefaultScalarValue> {
        Value::list(vec![
            Value::scalar(1),
            Value::null(),
            Value::object(object_of(vec![("a", Value::scalar("x")), ("b", Value::scalar(false))])),
        ])
    };
    let mapped: Value<DefaultScalarValue> = make().map_scalar_value();
    assert_eq!(mapped, make());
}

#[test]
fn default_representation_takes_wide_integers() {
    let small: Value<DefaultScalarValue> = Value::scalar(5i64);
    assert_eq!(small, Value::scalar(5));
    let wide: Value<DefaultScalarValue> = Value::scalar(2147483648i64);
    assert_eq!(wide, Value::scalar("2147483648"));
}
