use genartifacts::Abi;
use genartifacts::AbiError;
use genartifacts::AbiParameter;
use genartifacts::AbiReturnType;
use genartifacts::AbiType;
use genartifacts::AbiVisibility;
use genartifacts::InputValue;
use genartifacts::SchemaError;
use genartifacts::ValueShape;

fn param(name: &str, typ: AbiType, visibility: AbiVisibility) -> AbiParameter {
    AbiParameter { name: name.to_string(), typ, visibility }
}

fn entry(name: &str, value: InputValue) -> (String, InputValue) {
    (name.to_string(), value)
}

#[test]
fn determinism_identical_inputs_encode_identically() {
    let abi1 = Abi {
        parameters: vec![
            param("a", AbiType::Field, AbiVisibility::Public),
            param("b", AbiType::Boolean, AbiVisibility::Public),
        ],
        return_type: None,
    };
    let abi2 = Abi {
        parameters: vec![
            param("a", AbiType::Field, AbiVisibility::Public),
            param("b", AbiType::Boolean, AbiVisibility::Public),
        ],
        return_type: None,
    };
    let values1 = vec![entry("a", InputValue::Field(7)), entry("b", InputValue::Boolean(true))];
    let values2 = vec![entry("a", InputValue::Field(7)), entry("b", InputValue::Boolean(true))];
    let first = abi1.encode(&values1, None).unwrap();
    let second = abi2.encode(&values2, None).unwrap();
    assert_eq!(first, second);
    assert_eq!(first, vec![7, 1]);
}

#[test]
fn order_follows_declaration_not_value_order() {
    let abi = Abi {
        parameters: vec![
            param("a", AbiType::Field, AbiVisibility::Public),
            param("b", AbiType::Boolean, AbiVisibility::Public),
        ],
        return_type: None,
    };
    let values = vec![entry("b", InputValue::Boolean(true)), entry("a", InputValue::Field(7))];
    let fields = abi.encode(&values, None).unwrap();
    assert_eq!(fields, vec![7, 1]);
}

#[test]
fn missing_input_is_rejected_by_name() {
    let abi = Abi {
        parameters: vec![
            param("a", AbiType::Field, AbiVisibility::Public),
            param("b", AbiType::Field, AbiVisibility::Public),
        ],
        return_type: None,
    };
    let values = vec![entry("a", InputValue::Field(7))];
    let err = abi.encode(&values, None).unwrap_err();
    assert_eq!(err, AbiError::MissingInput { name: "b".to_string() });
}

#[test]
fn public_view_keeps_only_public_parameters() {
    let abi = Abi {
        parameters: vec![
            param("a", AbiType::Field, AbiVisibility::Public),
            param("b", AbiType::Field, AbiVisibility::Private),
        ],
        return_type: None,
    };
    let view = abi.public_abi().unwrap();
    assert_eq!(view.parameters.len(), 1);
    assert_eq!(view.parameters[0].name, "a");
    assert!(matches!(view.parameters[0].visibility, AbiVisibility::Public));
    assert!(view.return_type.is_none());
}

#[test]
fn encoding_never_inspects_values_outside_the_view() {
    let abi = Abi {
        parameters: vec![
            param("a", AbiType::Field, AbiVisibility::Public),
            param("b", AbiType::Field, AbiVisibility::Private),
        ],
        return_type: None,
    };
    let view = abi.public_abi().unwrap();
    // A value for the private parameter rides along, with a shape that
    // would never encode at its declared type; the encoding ignores it.
    let values = vec![
        entry("a", InputValue::Field(7)),
        entry("b", InputValue::Array(vec![InputValue::Boolean(false)])),
    ];
    let fields = view.encode(&values, None).unwrap();
    assert_eq!(fields, vec![7]);
}

#[test]
fn public_view_keeps_declaration_order() {
    let abi = Abi {
        parameters: vec![
            param("a", AbiType::Field, AbiVisibility::Public),
            param("b", AbiType::Field, AbiVisibility::Private),
            param("c", AbiType::Boolean, AbiVisibility::Public),
        ],
        return_type: None,
    };
    let view = abi.public_abi().unwrap();
    let names: Vec<&str> = view.parameters.iter().map(|p| p.name.as_str()).collect();
    assert_eq!(names, vec!["a", "c"]);
    let values = vec![entry("c", InputValue::Boolean(true)), entry("a", InputValue::Field(4))];
    let fields = view.encode(&values, None).unwrap();
    assert_eq!(fields, vec![4, 1]);
}

#[test]
fn private_return_slot_is_dropped_from_the_view() {
    let abi = Abi {
        parameters: vec![param("a", AbiType::Field, AbiVisibility::Public)],
        return_type: Some(AbiReturnType {
            abi_type: AbiType::Field,
            visibility: AbiVisibility::Private,
        }),
    };
    let view = abi.public_abi().unwrap();
    assert!(view.return_type.is_none());
}

#[test]
fn duplicate_parameter_names_are_rejected() {
    let abi = Abi {
        parameters: vec![
            param("a", AbiType::Field, AbiVisibility::Public),
            param("a", AbiType::Boolean, AbiVisibility::Private),
        ],
        return_type: None,
    };
    let err = abi.public_abi().unwrap_err();
    assert_eq!(err, SchemaError::DuplicateParameter { name: "a".to_string() });
}

#[test]
fn type_mismatch_reports_name_expected_and_shape() {
    let abi = Abi {
        parameters: vec![param("a", AbiType::Field, AbiVisibility::Public)],
        return_type: None,
    };
    let values = vec![entry("a", InputValue::Boolean(true))];
    let err = abi.encode(&values, None).unwrap_err();
    assert_eq!(
        err,
        AbiError::TypeMismatch {
            name: "a".to_string(),
            expected: AbiType::Field,
            actual: ValueShape::Boolean,
        }
    );
}

#[test]
fn booleans_encode_to_one_and_zero() {
    let abi = Abi {
        parameters: vec![
            param("t", AbiType::Boolean, AbiVisibility::Public),
            param("f", AbiType::Boolean, AbiVisibility::Public),
        ],
        return_type: None,
    };
    let values = vec![entry("t", InputValue::Boolean(true)), entry("f", InputValue::Boolean(false))];
    let fields = abi.encode(&values, None).unwrap();
    assert_eq!(fields, vec![1, 0]);
}

#[test]
fn arrays_flatten_one_element_per_leaf_in_order() {
    let abi = Abi {
        parameters: vec![param(
            "xs",
            AbiType::Array { length: 3, element: Box::new(AbiType::Field) },
            AbiVisibility::Public,
        )],
        return_type: None,
    };
    let values = vec![entry(
        "xs",
        InputValue::Array(vec![
            InputValue::Field(10),
            InputValue::Field(20),
            InputValue::Field(30),
        ]),
    )];
    let fields = abi.encode(&values, None).unwrap();
    assert_eq!(fields, vec![10, 20, 30]);
}

#[test]
fn nested_arrays_flatten_in_traversal_order() {
    let inner = AbiType::Array { length: 2, element: Box::new(AbiType::Boolean) };
    let abi = Abi {
        parameters: vec![param(
            "grid",
            AbiType::Array { length: 2, element: Box::new(inner) },
            AbiVisibility::Public,
        )],
        return_type: None,
    };
    let values = vec![entry(
        "grid",
        InputValue::Array(vec![
            InputValue::Array(vec![InputValue::Boolean(true), InputValue::Boolean(false)]),
            InputValue::Array(vec![InputValue::Boolean(false), InputValue::Boolean(true)]),
        ]),
    )];
    let fields = abi.encode(&values, None).unwrap();
    assert_eq!(fields, vec![1, 0, 0, 1]);
}

#[test]
fn wrong_array_length_is_a_type_mismatch() {
    let abi = Abi {
        parameters: vec![param(
            "xs",
            AbiType::Array { length: 2, element: Box::new(AbiType::Field) },
            AbiVisibility::Public,
        )],
        return_type: None,
    };
    let values = vec![entry("xs", InputValue::Array(vec![InputValue::Field(1)]))];
    let err = abi.encode(&values, None).unwrap_err();
    assert!(matches!(err, AbiError::TypeMismatch { .. }));
}

#[test]
fn public_return_value_is_encoded_last() {
    let abi = Abi {
        parameters: vec![param("a", AbiType::Field, AbiVisibility::Public)],
        return_type: Some(AbiReturnType {
            abi_type: AbiType::Field,
            visibility: AbiVisibility::Public,
        }),
    };
    let values = vec![entry("a", InputValue::Field(5))];
    let fields = abi.encode(&values, Some(InputValue::Field(9))).unwrap();
    assert_eq!(fields, vec![5, 9]);
}

#[test]
fn missing_return_value_is_rejected() {
    let abi = Abi {
        parameters: vec![],
        return_type: Some(AbiReturnType {
            abi_type: AbiType::Field,
            visibility: AbiVisibility::Public,
        }),
    };
    let err = abi.encode(&vec![], None).unwrap_err();
    assert_eq!(err, AbiError::MissingReturn);
}

#[test]
fn return_value_with_wrong_shape_is_rejected() {
    let abi = Abi {
        parameters: vec![],
        return_type: Some(AbiReturnType {
            abi_type: AbiType::Boolean,
            visibility: AbiVisibility::Public,
        }),
    };
    let err = abi.encode(&vec![], Some(InputValue::Field(1))).unwrap_err();
    assert_eq!(
        err,
        AbiError::ReturnTypeMismatch { expected: AbiType::Boolean, actual: ValueShape::Field }
    );
}

#[test]
fn unsolicited_return_value_is_ignored() {
    let abi = Abi {
        parameters: vec![param("a", AbiType::Field, AbiVisibility::Public)],
        return_type: None,
    };
    let values = vec![entry("a", InputValue::Field(3))];
    let fields = abi.encode(&values, Some(InputValue::Field(8))).unwrap();
    assert_eq!(fields, vec![3]);
}

#[test]
fn empty_view_encodes_to_empty_sequence() {
    let abi = Abi { parameters: vec![], return_type: None };
    let fields = abi.encode(&vec![], None).unwrap();
    assert_eq!(fields, Vec::<u128>::new());
}

#[test]
fn first_missing_parameter_in_declaration_order_is_reported() {
    let abi = Abi {
        parameters: vec![
            param("a", AbiType::Field, AbiVisibility::Public),
            param("b", AbiType::Field, AbiVisibility::Public),
            param("c", AbiType::Field, AbiVisibility::Public),
        ],
        return_type: None,
    };
    let values = vec![entry("c", InputValue::Field(1))];
    let err = abi.encode(&values, None).unwrap_err();
    assert_eq!(err, AbiError::MissingInput { name: "a".to_string() });
}
