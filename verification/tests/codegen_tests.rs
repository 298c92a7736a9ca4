use juniper::codegen::{
    parse_trait_method_input_args, parse_trait_method_output_type, unparenthesize, Culprit,
    GenericArgument, MethodShape, Receiver, TypeShape,
};

fn named(name: &str) -> TypeShape {
    TypeShape::Path { qualified: false, last: name.to_string(), arguments: None }
}

fn shared(elem: TypeShape) -> TypeShape {
    TypeShape::Reference { mutable: false, elem: Box::new(elem) }
}

fn exclusive(elem: TypeShape) -> TypeShape {
    TypeShape::Reference { mutable: true, elem: Box::new(elem) }
}

fn paren(inner: TypeShape) -> TypeShape {
    TypeShape::Paren(Box::new(inner))
}

fn option_of(arguments: Vec<GenericArgument>) -> TypeShape {
    TypeShape::Path { qualified: false, last: "Option".to_string(), arguments: Some(arguments) }
}

fn method(receiver: Receiver, inputs: usize, second: Option<TypeShape>, output: Option<TypeShape>) -> MethodShape {
    MethodShape { receiver, inputs, second, output }
}

#[test]
fn method_inputs_are_read() {
    let m = |r, n, s| method(r, n, s, None);
    assert_eq!(parse_trait_method_input_args(&m(Receiver::Shared, 1, None)), Ok(false));
    assert_eq!(parse_trait_method_input_args(&m(Receiver::Shared, 2, Some(shared(named("Ctx"))))), Ok(true));
    assert_eq!(
        parse_trait_method_input_args(&m(Receiver::Shared, 2, Some(paren(paren(shared(named("Ctx"))))))),
        Ok(true)
    );
    assert_eq!(parse_trait_method_input_args(&m(Receiver::Missing, 1, None)), Err(Culprit::Signature));
    assert_eq!(parse_trait_method_input_args(&m(Receiver::ByValue, 1, None)), Err(Culprit::Receiver));
    assert_eq!(parse_trait_method_input_args(&m(Receiver::Mutable, 1, None)), Err(Culprit::Receiver));
    assert_eq!(
        parse_trait_method_input_args(&m(Receiver::Shared, 3, Some(shared(named("Ctx"))))),
        Err(Culprit::Inputs)
    );
    assert_eq!(parse_trait_method_input_args(&m(Receiver::Shared, 2, None)), Err(Culprit::Inputs));
    assert_eq!(
        parse_trait_method_input_args(&m(Receiver::Shared, 2, Some(exclusive(named("Ctx"))))),
        Err(Culprit::SecondInput)
    );
    assert_eq!(
        parse_trait_method_input_args(&m(Receiver::Shared, 2, Some(named("Ctx")))),
        Err(Culprit::SecondInput)
    );
}

#[test]
fn method_output_is_read() {
    let m = |o| method(Receiver::Shared, 1, None, o);
    let good = m(Some(option_of(vec![GenericArgument::Type(shared(paren(named("Human"))))])));
    assert_eq!(parse_trait_method_output_type(&good), Ok(&named("Human")));
    let wrapped = m(Some(paren(option_of(vec![GenericArgument::Type(paren(shared(named("Droid"))))]))));
    assert_eq!(parse_trait_method_output_type(&wrapped), Ok(&named("Droid")));
    assert_eq!(parse_trait_method_output_type(&m(None)), Err(Culprit::Signature));
    assert_eq!(parse_trait_method_output_type(&m(Some(TypeShape::Other))), Err(Culprit::ReturnType));
    assert_eq!(parse_trait_method_output_type(&m(Some(named("Option")))), Err(Culprit::ReturnType));
    let result = TypeShape::Path {
        qualified: false,
        last: "Result".to_string(),
        arguments: Some(vec![GenericArgument::Type(shared(named("Human")))]),
    };
    assert_eq!(parse_trait_method_output_type(&m(Some(result))), Err(Culprit::ReturnType));
    let qualified = TypeShape::Path {
        qualified: true,
        last: "Option".to_string(),
        arguments: Some(vec![GenericArgument::Type(shared(named("Human")))]),
    };
    assert_eq!(parse_trait_method_output_type(&m(Some(qualified))), Err(Culprit::ReturnType));
    assert_eq!(parse_trait_method_output_type(&m(Some(option_of(vec![])))), Err(Culprit::ReturnType));
    assert_eq!(
        parse_trait_method_output_type(&m(Some(option_of(vec![
            GenericArgument::Type(shared(named("A"))),
            GenericArgument::Type(shared(named("B"))),
        ])))),
        Err(Culprit::ReturnType)
    );
    assert_eq!(
        parse_trait_method_output_type(&m(Some(option_of(vec![GenericArgument::Other])))),
        Err(Culprit::ReturnType)
    );
    assert_eq!(
        parse_trait_method_output_type(&m(Some(option_of(vec![GenericArgument::Type(named("Human"))])))),
        Err(Culprit::ReturnType)
    );
    assert_eq!(
        parse_trait_method_output_type(&m(Some(option_of(vec![GenericArgument::Type(exclusive(named("Human")))])))),
        Err(Culprit::VariantType)
    );
    assert_eq!(unparenthesize(&paren(paren(named("X")))), &named("X"));
    assert_eq!(unparenthesize(&TypeShape::Other), &TypeShape::Other);
}
