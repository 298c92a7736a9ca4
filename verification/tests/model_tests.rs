use juniper::codegen::{all_variants_different, attr_path, Mode};
use juniper::custom_scalars::{
    long_from_input_value, long_from_parsed, long_from_str, long_resolve, uuid_from_str,
    uuid_resolve, ParseError, ScalarToken,
};
use juniper::input::{copy_scalar, find_named, InputValue};
use juniper::instance::{
    concrete_type_name, downcast_candidate, find_candidate, first_match, Candidate,
};
use juniper::scalar::{into_another, DefaultScalarValue, LongScalarValue, ScalarValue};
use juniper::schema::{
    Argument, Arguments, Built, FieldMeta, GraphQLType, MetaType, Registry, Type,
};
use juniper::settle::{
    complete_field, copy_path, merge_fields, merge_key_into, settle, ExecutionError, FieldError,
    Resolved, SourcePosition,
};
use juniper::value::{Object, Value};
use uuid::Uuid;

type V = Value<DefaultScalarValue>;

fn at(line: usize, col: usize) -> SourcePosition {
    SourcePosition { index: 0, line, col }
}

fn ok_field(key: &str, non_null: bool, value: V) -> Resolved<DefaultScalarValue> {
    Resolved::Field { key: key.to_string(), position: at(1, 1), non_null, result: Ok(value) }
}

fn failed_field(key: &str, non_null: bool, position: SourcePosition) -> Resolved<DefaultScalarValue> {
    Resolved::Field {
        key: key.to_string(),
        position,
        non_null,
        result: Err(FieldError { message: format!("{} broke", key) }),
    }
}

fn object_of(pairs: Vec<(&str, V)>) -> Object<DefaultScalarValue> {
    Object::from_fields(pairs.into_iter().map(|(k, v)| (k.to_string(), v)).collect())
}

#[test]
fn uuid_from_input_value() {
    let raw = "123e4567-e89b-12d3-a456-426655440000";
    let input: InputValue<DefaultScalarValue> = InputValue::string(raw.to_string());

    let parsed: u128 = juniper::custom_scalars::uuid_from_input_value(&input).unwrap();
    let id = Uuid::parse_str(raw).unwrap();

    assert_eq!(Uuid::from_u128(parsed), id);
    assert_eq!(parsed, 0x123e4567e89b12d3a456426655440000u128);
}

#[test]
fn uuid_scalar_rejects_and_resolves() {
    let not_text: InputValue<DefaultScalarValue> = InputValue::Scalar(DefaultScalarValue::Int(3));
    assert_eq!(juniper::custom_scalars::uuid_from_input_value(&not_text), None);
    let bad: InputValue<DefaultScalarValue> = InputValue::string("nope".to_string());
    assert_eq!(juniper::custom_scalars::uuid_from_input_value(&bad), None);
    let v: V = uuid_resolve(0x123e4567e89b12d3a456426655440000u128);
    assert_eq!(v, Value::scalar("123e4567-e89b-12d3-a456-426655440000"));
    let parsed: Result<DefaultScalarValue, ParseError> = uuid_from_str(ScalarToken::String("abc"));
    assert_eq!(parsed, Ok(DefaultScalarValue::String("abc".to_string())));
    let refused: Result<DefaultScalarValue, ParseError> = uuid_from_str(ScalarToken::Int("12"));
    assert_eq!(refused, Err(ParseError::UnexpectedToken(ScalarToken::Int("12"))));
}

#[test]
fn long_scalar_triple() {
    let parsed: Result<LongScalarValue, ParseError> = long_from_str(ScalarToken::Int("2147483650"));
    assert_eq!(parsed, Ok(LongScalarValue::Long(2147483650)));
    let negative: Result<LongScalarValue, ParseError> = long_from_str(ScalarToken::Int("-7"));
    assert_eq!(negative, Ok(LongScalarValue::Long(-7)));
    let too_big: Result<LongScalarValue, ParseError> =
        long_from_str(ScalarToken::Int("9223372036854775808"));
    assert_eq!(
        too_big,
        Err(ParseError::UnexpectedToken(ScalarToken::Int("9223372036854775808")))
    );
    let wrong_kind: Result<LongScalarValue, ParseError> = long_from_str(ScalarToken::String("7"));
    assert_eq!(wrong_kind, Err(ParseError::UnexpectedToken(ScalarToken::String("7"))));
    let float_kind: Result<LongScalarValue, ParseError> = long_from_str(ScalarToken::Float("7.5"));
    assert_eq!(float_kind, Err(ParseError::UnexpectedToken(ScalarToken::Float("7.5"))));
    let given: Result<LongScalarValue, ParseError> = long_from_parsed(ScalarToken::Int("x"), Some(5));
    assert_eq!(given, Ok(LongScalarValue::Long(5)));
    let none: Result<LongScalarValue, ParseError> = long_from_parsed(ScalarToken::Int("x"), None);
    assert_eq!(none, Err(ParseError::UnexpectedToken(ScalarToken::Int("x"))));

    let input = InputValue::Scalar(LongScalarValue::Long(77));
    assert_eq!(long_from_input_value(&input), Some(77));
    let int_input = InputValue::Scalar(LongScalarValue::Int(77));
    assert_eq!(long_from_input_value(&int_input), None);
    let resolved: Value<LongScalarValue> = long_resolve(1 << 40);
    assert_eq!(resolved, Value::Scalar(LongScalarValue::Long(1 << 40)));
}

#[test]
fn long_representation_from_unsigned() {
    assert_eq!(LongScalarValue::from_u32(5), LongScalarValue::Int(5));
    assert_eq!(LongScalarValue::from_u32(2147483647), LongScalarValue::Int(2147483647));
    assert_eq!(LongScalarValue::from_u32(2147483648), LongScalarValue::Long(2147483648));
    assert_eq!(
        LongScalarValue::from_u64(9223372036854775807),
        Some(LongScalarValue::Long(9223372036854775807))
    );
    assert_eq!(LongScalarValue::from_u64(9223372036854775808), None);
    let round: Value<LongScalarValue> = Value::scalar(1i64 << 40);
    assert_eq!(round.as_scalar_value::<i64>(), Some(&(1i64 << 40)));
    assert_eq!(round.as_scalar_value::<i32>(), None);
}

#[test]
fn scalars_convert_between_representations() {
    let wide: DefaultScalarValue = into_another(LongScalarValue::Long(1 << 40));
    assert_eq!(wide, DefaultScalarValue::String("1099511627776".to_string()));
    let narrow: DefaultScalarValue = into_another(LongScalarValue::Long(-12));
    assert_eq!(narrow, DefaultScalarValue::Int(-12));
    let text: LongScalarValue = into_another(DefaultScalarValue::String("t".to_string()));
    assert_eq!(text, LongScalarValue::String("t".to_string()));
    let flag: LongScalarValue = into_another(DefaultScalarValue::Boolean(true));
    assert_eq!(flag, LongScalarValue::Boolean(true));
    assert_eq!(copy_scalar(&LongScalarValue::Long(9)), LongScalarValue::Long(9));
    assert_eq!(DefaultScalarValue::from_int(4), DefaultScalarValue::Int(4));

    let tree: Value<LongScalarValue> = Value::list(vec![
        Value::scalar(3i64 << 33),
        Value::object(Object::from_fields(vec![("k".to_string(), Value::scalar(1))])),
    ]);
    let mapped: V = tree.map_scalar_value();
    assert_eq!(mapped.render(), r#"["25769803776", {"k": 1}]"#);
}

#[test]
fn first_declared_candidate_wins() {
    let both = vec![
        Candidate { name: "X".to_string(), present: true },
        Candidate { name: "Y".to_string(), present: true },
    ];
    assert_eq!(concrete_type_name(&both), "X");
    assert_eq!(first_match(&both), Some(0));
    let second = vec![
        Candidate { name: "X".to_string(), present: false },
        Candidate { name: "Y".to_string(), present: true },
    ];
    assert_eq!(concrete_type_name(&second), "Y");
    let none = vec![Candidate { name: "X".to_string(), present: false }];
    assert_eq!(first_match(&none), None);
    assert_eq!(first_match(&vec![]), None);
    assert_eq!(find_candidate(&second, "Y"), Some(1));
    assert_eq!(find_candidate(&second, "Z"), None);
    assert_eq!(downcast_candidate(&second, "X"), &second[0]);
}

#[test]
fn settle_merges_in_declaration_order() {
    let mut errors = vec![];
    let units = vec![
        ok_field("a", false, Value::scalar(1)),
        Resolved::TypeName { key: "__typename".to_string(), name: "T".to_string() },
        Resolved::Nested { value: Value::object(object_of(vec![("b", Value::scalar(2)), ("a", Value::scalar(3))])) },
        Resolved::Downcast { position: at(4, 1), result: Ok(Value::object(object_of(vec![("c", Value::null())]))) },
        Resolved::Downcast { position: at(5, 1), result: Ok(Value::scalar(9)) },
        Resolved::Nested { value: Value::scalar(9) },
    ];
    let value = settle(units, &vec![], &mut errors);
    assert_eq!(value.render(), r#"{"a": 3, "__typename": "T", "b": 2, "c": null}"#);
    assert!(errors.is_empty());
}

#[test]
fn settle_records_failures_and_collapses() {
    let path = vec!["hero".to_string()];
    let mut errors = vec![ExecutionError { location: at(0, 0), path: vec![], message: "old".to_string() }];
    let units = vec![
        ok_field("a", false, Value::scalar(1)),
        failed_field("b", false, at(2, 2)),
        Resolved::Downcast { position: at(3, 3), result: Err(FieldError { message: "cast".to_string() }) },
    ];
    let value = settle(units, &path, &mut errors);
    assert_eq!(value.render(), r#"{"a": 1, "b": null}"#);
    assert_eq!(errors.len(), 3);
    assert_eq!(errors[0].message, "old");
    assert_eq!(
        errors[1],
        ExecutionError { location: at(2, 2), path: vec!["hero".to_string(), "b".to_string()], message: "b broke".to_string() }
    );
    assert_eq!(
        errors[2],
        ExecutionError { location: at(3, 3), path: vec!["hero".to_string()], message: "cast".to_string() }
    );

    let mut errors = vec![];
    let collapsed = settle(
        vec![ok_field("a", false, Value::scalar(1)), failed_field("b", true, at(2, 2)), failed_field("c", false, at(3, 3))],
        &vec![],
        &mut errors,
    );
    assert_eq!(collapsed, Value::null());
    assert_eq!(errors.len(), 2);

    let mut errors = vec![];
    let null_under_non_null = settle(vec![ok_field("a", true, Value::null())], &vec![], &mut errors);
    assert_eq!(null_under_non_null, Value::null());
    assert!(errors.is_empty());
    let null_under_nullable = settle(vec![ok_field("a", false, Value::null())], &vec![], &mut errors);
    assert_eq!(null_under_nullable.render(), r#"{"a": null}"#);
    let nested_null: V = settle(vec![Resolved::Nested { value: Value::null() }], &vec![], &mut errors);
    assert_eq!(nested_null, Value::null());
    let empty: V = settle(vec![], &vec![], &mut errors);
    assert_eq!(empty.render(), "{}");
}

#[test]
fn complete_field_follows_the_declared_type() {
    let mut errors = vec![];
    let path = vec!["p".to_string()];
    let kept: Option<V> = complete_field(Ok(Value::scalar(1)), true, at(1, 1), &path, "k", &mut errors);
    assert_eq!(kept, Some(Value::scalar(1)));
    let null_ok: Option<V> = complete_field(Ok(Value::null()), false, at(1, 1), &path, "k", &mut errors);
    assert_eq!(null_ok, Some(Value::null()));
    let null_bad: Option<V> = complete_field(Ok(Value::null()), true, at(1, 1), &path, "k", &mut errors);
    assert_eq!(null_bad, None);
    assert!(errors.is_empty());
    let failed: Option<V> = complete_field(
        Err(FieldError { message: "m".to_string() }),
        false,
        at(7, 8),
        &path,
        "k",
        &mut errors,
    );
    assert_eq!(failed, Some(Value::null()));
    let failed_hard: Option<V> = complete_field(
        Err(FieldError { message: "n".to_string() }),
        true,
        at(9, 9),
        &path,
        "k",
        &mut errors,
    );
    assert_eq!(failed_hard, None);
    assert_eq!(errors.len(), 2);
    assert_eq!(
        errors[0],
        ExecutionError { location: at(7, 8), path: vec!["p".to_string(), "k".to_string()], message: "m".to_string() }
    );
    assert_eq!(copy_path(&path), path);
}

#[test]
fn merging_keeps_first_place_and_last_value() {
    let mut o = object_of(vec![("a", Value::scalar(1)), ("b", Value::scalar(2))]);
    merge_key_into(&mut o, "a", Value::scalar(5));
    merge_key_into(&mut o, "c", Value::scalar(6));
    merge_fields(&mut o, object_of(vec![("d", Value::scalar(7)), ("b", Value::scalar(8))]));
    assert_eq!(Value::object(o).render(), r#"{"a": 5, "b": 8, "c": 6, "d": 7}"#);
}

#[test]
fn arguments_take_variables_and_defaults() {
    let written = vec![
        ("a".to_string(), InputValue::Variable("x".to_string())),
        ("b".to_string(), InputValue::Null),
        ("c".to_string(), InputValue::Variable("missing".to_string())),
        ("a".to_string(), InputValue::Scalar(DefaultScalarValue::Int(2))),
    ];
    let vars = vec![("x".to_string(), InputValue::Scalar(DefaultScalarValue::Int(1)))];
    let declared = vec![
        Argument { name: "b".to_string(), arg_type: Type::Named("Int".to_string()), default_value: Some(InputValue::Scalar(DefaultScalarValue::Int(10))) },
        Argument { name: "c".to_string(), arg_type: Type::Named("Int".to_string()), default_value: None },
        Argument { name: "d".to_string(), arg_type: Type::Named("Int".to_string()), default_value: Some(InputValue::Enum("E".to_string())) },
        Argument { name: "a".to_string(), arg_type: Type::Named("Int".to_string()), default_value: Some(InputValue::Scalar(DefaultScalarValue::Int(99))) },
    ];
    let args = Arguments::new(&written, &vars, &declared);
    assert_eq!(args.get("a"), Some(&InputValue::Scalar(DefaultScalarValue::Int(2))));
    assert_eq!(args.get("b"), Some(&InputValue::Scalar(DefaultScalarValue::Int(10))));
    assert_eq!(args.get("c"), Some(&InputValue::Null));
    assert_eq!(args.get("d"), Some(&InputValue::Enum("E".to_string())));
    assert_eq!(args.get("e"), None);
    assert_eq!(args.args.len(), 4);
    assert_eq!(args.args[0].0, "a");
    assert_eq!(find_named(&args.args, "d"), 3);
    assert_eq!(find_named(&args.args, "zz"), 4);
}

#[test]
fn input_values_resolve_variables() {
    let vars = vec![
        ("x".to_string(), InputValue::Scalar(DefaultScalarValue::Int(1))),
        ("y".to_string(), InputValue::List(vec![InputValue::Variable("x".to_string())])),
    ];
    let written = InputValue::Object(vec![
        ("k".to_string(), InputValue::List(vec![InputValue::Variable("x".to_string()), InputValue::Variable("none".to_string())])),
        ("l".to_string(), InputValue::Variable("y".to_string())),
        ("m".to_string(), InputValue::Enum("E".to_string())),
    ]);
    let resolved = written.into_const(&vars);
    assert_eq!(
        resolved,
        InputValue::Object(vec![
            ("k".to_string(), InputValue::List(vec![InputValue::Scalar(DefaultScalarValue::Int(1)), InputValue::Null])),
            ("l".to_string(), InputValue::List(vec![InputValue::Variable("x".to_string())])),
            ("m".to_string(), InputValue::Enum("E".to_string())),
        ])
    );
    assert_eq!(written.duplicate(), written);
    assert_eq!(InputValue::Scalar(DefaultScalarValue::Boolean(true)).as_boolean(), Some(true));
    assert_eq!(InputValue::Scalar(DefaultScalarValue::Int(1)).as_boolean(), None);
    assert_eq!(InputValue::<DefaultScalarValue>::Null.as_boolean(), None);
    assert_eq!(InputValue::<DefaultScalarValue>::string("s".to_string()).as_string_value(), Some("s"));
}

#[test]
fn values_become_input_values() {
    let v: V = Value::list(vec![
        Value::null(),
        Value::scalar("s"),
        Value::object(object_of(vec![("a", Value::scalar(1))])),
    ]);
    assert_eq!(
        v.to_input_value(),
        InputValue::List(vec![
            InputValue::Null,
            InputValue::Scalar(DefaultScalarValue::String("s".to_string())),
            InputValue::Object(vec![("a".to_string(), InputValue::Scalar(DefaultScalarValue::Int(1)))]),
        ])
    );
}

#[test]
fn registry_holds_one_descriptor_per_name() {
    let meta = |name: &str, field: &str| MetaType::<DefaultScalarValue> {
        name: name.to_string(),
        fields: vec![FieldMeta {
            name: field.to_string(),
            field_type: Type::NonNullList(Box::new(Type::Named("Int".to_string()))),
            arguments: vec![],
            deprecation_reason: None,
        }],
        possible_types: vec![],
    };
    let mut registry = Registry::new();
    assert!(registry.register(meta("A", "x")).is_ok());
    assert!(registry.register(meta("B", "y")).is_ok());
    let rejected = registry.register(meta("A", "z"));
    assert_eq!(rejected, Err(meta("A", "z")));
    let a = registry.concrete_type_by_name("A").unwrap();
    assert!(a.field_by_name("x").is_some());
    assert!(a.field_by_name("z").is_none());
    assert!(a.field_by_name("x").unwrap().field_type.is_non_null());
    assert!(registry.concrete_type_by_name("C").is_none());
    assert!(!Type::Named("Int".to_string()).is_non_null());
    assert!(!Type::List(Box::new(Type::NonNullNamed("Int".to_string()))).is_non_null());
    assert!(Type::NonNullNamed("Int".to_string()).is_non_null());
}

#[test]
fn union_attribute_decisions() {
    assert_eq!(attr_path(Mode::Public), "graphql_union");
    assert_eq!(attr_path(Mode::Internal), "graphql_union_internal");
    let names = |v: &[&str]| v.iter().map(|s| s.to_string()).collect::<Vec<_>>();
    assert!(all_variants_different(&names(&["A", "B", "A"])));
    assert!(!all_variants_different(&names(&["A", "B", "B"])));
    assert!(all_variants_different(&names(&[])));
    assert!(all_variants_different(&names(&["A"])));
}

struct Named;
struct Anonymous;
struct Impostor;

fn described(name: &str) -> MetaType<DefaultScalarValue> {
    MetaType { name: name.to_string(), fields: vec![], possible_types: vec![] }
}

impl GraphQLType<DefaultScalarValue> for Named {
    type TypeInfo = String;

    fn name(info: &String) -> Option<String> {
        Some(info.clone())
    }

    fn meta(info: &String) -> MetaType<DefaultScalarValue> {
        described(info)
    }
}

impl GraphQLType<DefaultScalarValue> for Anonymous {
    type TypeInfo = ();

    fn name(_info: &()) -> Option<String> {
        None
    }

    fn meta(_info: &()) -> MetaType<DefaultScalarValue> {
        described("unused")
    }
}

impl GraphQLType<DefaultScalarValue> for Impostor {
    type TypeInfo = ();

    fn name(_info: &()) -> Option<String> {
        Some("Impostor".to_string())
    }

    fn meta(_info: &()) -> MetaType<DefaultScalarValue> {
        described("A")
    }
}

#[test]
fn types_are_built_once() {
    let mut registry: Registry<DefaultScalarValue> = Registry::new();
    assert_eq!(registry.get_type::<Named>(&"A".to_string()), Built::Added);
    assert_eq!(registry.get_type::<Named>(&"A".to_string()), Built::Kept);
    assert_eq!(registry.get_type::<Box<Named>>(&"B".to_string()), Built::Added);
    assert_eq!(registry.get_type::<std::sync::Arc<Named>>(&"B".to_string()), Built::Kept);
    assert_eq!(registry.get_type::<&Named>(&"C".to_string()), Built::Added);
    assert_eq!(registry.get_type::<Anonymous>(&()), Built::Kept);
    assert_eq!(registry.get_type::<Impostor>(&()), Built::Rejected(described("A")));
    assert!(registry.concrete_type_by_name("A").is_some());
    assert!(registry.concrete_type_by_name("B").is_some());
    assert!(registry.concrete_type_by_name("C").is_some());
    assert!(registry.concrete_type_by_name("Impostor").is_none());
    assert!(registry.concrete_type_by_name("unused").is_none());
    assert_eq!(<Box<Named> as GraphQLType<DefaultScalarValue>>::name(&"x".to_string()), Some("x".to_string()));
    assert_eq!(<std::sync::Arc<Named> as GraphQLType<DefaultScalarValue>>::meta(&"y".to_string()), described("y"));
}
