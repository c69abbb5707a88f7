use json_diff::arrays;
use json_diff::objects;
use json_diff::values;
use json_diff::ArrayDifference;
use json_diff::Difference;
use json_diff::DumbMap;
use json_diff::EntryDifference;
use json_diff::Number;
use json_diff::ScalarDifference;
use json_diff::Type;
use json_diff::TypeDifference;
use json_diff::Value;

fn text(x: &str) -> Value {
    Value::String(String::from(x))
}

fn whole(x: u64) -> Value {
    Value::Number(Number::PosInt(x))
}

fn kitchen_sink_value() -> Value {
    Value::Object(vec![
        (String::from("null"), Value::Null),
        (String::from("flag"), Value::Bool(true)),
        (String::from("small"), Value::Number(Number::NegInt(-3))),
        (String::from("big"), whole(17)),
        (String::from("half"), Value::Number(Number::Float(0.5f64.to_bits()))),
        (String::from("name"), text("x")),
        (
            String::from("list"),
            Value::Array(vec![whole(1), text("two"), Value::Array(vec![])]),
        ),
        (
            String::from("inner"),
            Value::Object(vec![(String::from("k"), Value::Bool(false))]),
        ),
    ])
}

#[test]
fn reflexive_value_yields_nothing() {
    let a = kitchen_sink_value();
    let b = kitchen_sink_value();
    assert!(values(a, b).is_none());
}

#[test]
fn identical_objects_and_arrays_yield_nothing() {
    let entries = || {
        vec![
            (String::from("a"), whole(1)),
            (String::from("b"), Value::Array(vec![Value::Null])),
        ]
    };
    assert!(objects(entries(), entries()).is_none());

    let elems = || vec![whole(1), text("x"), Value::Object(vec![])];
    assert!(arrays(elems(), elems()).is_none());

    assert!(arrays(vec![], vec![]).is_none());
    assert!(objects(vec![], vec![]).is_none());
}

#[test]
fn scalar_examples() {
    let diff = values(whole(1), whole(2));
    let expected = Some(Difference::Scalar(ScalarDifference::Number {
        source: Number::PosInt(1),
        target: Number::PosInt(2),
    }));
    assert_eq!(diff, expected);

    assert!(values(text("a"), text("a")).is_none());

    let diff = values(Value::Bool(true), Value::Bool(false));
    let expected = Some(Difference::Scalar(ScalarDifference::Bool {
        source: true,
        target: false,
    }));
    assert_eq!(diff, expected);
}

#[test]
fn number_forms_are_compared_exactly() {
    let half = || Value::Number(Number::Float(0.5f64.to_bits()));
    let quarter = || Value::Number(Number::Float(0.25f64.to_bits()));
    assert!(values(half(), half()).is_none());

    let diff = values(half(), quarter());
    let expected = Some(Difference::Scalar(ScalarDifference::Number {
        source: Number::Float(0.5f64.to_bits()),
        target: Number::Float(0.25f64.to_bits()),
    }));
    assert_eq!(diff, expected);

    let diff = values(
        Value::Number(Number::NegInt(-1)),
        Value::Number(Number::PosInt(1)),
    );
    let expected = Some(Difference::Scalar(ScalarDifference::Number {
        source: Number::NegInt(-1),
        target: Number::PosInt(1),
    }));
    assert_eq!(diff, expected);
}

#[test]
fn type_mismatch_example_and_swap() {
    let diff = values(Value::Null, Value::Bool(true));
    let expected = Some(Difference::Type(TypeDifference {
        source_type: Type::Null,
        target_type: Type::Bool,
        target_value: Value::Bool(true),
    }));
    assert_eq!(diff, expected);

    let diff = values(Value::Bool(true), Value::Null);
    let expected = Some(Difference::Type(TypeDifference {
        source_type: Type::Bool,
        target_type: Type::Null,
        target_value: Value::Null,
    }));
    assert_eq!(diff, expected);

    let diff = values(Value::Array(vec![]), Value::Object(vec![]));
    let expected = Some(Difference::Type(TypeDifference {
        source_type: Type::Array,
        target_type: Type::Object,
        target_value: Value::Object(vec![]),
    }));
    assert_eq!(diff, expected);
}

#[test]
fn array_examples() {
    let diff = arrays(vec![], vec![Value::Bool(true)]);
    let expected = Some(ArrayDifference::Longer {
        different_pairs: None,
        missing_elements: 1,
    });
    assert_eq!(diff, expected);

    let diff = arrays(vec![Value::Bool(true)], vec![]);
    let expected = Some(ArrayDifference::Shorter {
        different_pairs: None,
        extra_elements: vec![Value::Bool(true)],
    });
    assert_eq!(diff, expected);

    let diff = arrays(vec![Value::Bool(true)], vec![Value::Bool(false)]);
    let expected = Some(ArrayDifference::PairsOnly {
        different_pairs: DumbMap(vec![(
            0,
            Difference::Scalar(ScalarDifference::Bool { source: true, target: false }),
        )]),
    });
    assert_eq!(diff, expected);
}

#[test]
fn array_length_dominates_prefix_differences() {
    let diff = arrays(
        vec![whole(1), whole(9), whole(3), whole(4)],
        vec![whole(1), whole(2), whole(3)],
    );
    let expected = Some(ArrayDifference::Shorter {
        different_pairs: Some(DumbMap(vec![(
            1,
            Difference::Scalar(ScalarDifference::Number {
                source: Number::PosInt(9),
                target: Number::PosInt(2),
            }),
        )])),
        extra_elements: vec![whole(4)],
    });
    assert_eq!(diff, expected);

    let diff = arrays(vec![whole(9)], vec![whole(2), whole(3), whole(4)]);
    let expected = Some(ArrayDifference::Longer {
        different_pairs: Some(DumbMap(vec![(
            0,
            Difference::Scalar(ScalarDifference::Number {
                source: Number::PosInt(9),
                target: Number::PosInt(2),
            }),
        )])),
        missing_elements: 2,
    });
    assert_eq!(diff, expected);
}

#[test]
fn object_example() {
    let source = vec![
        (String::from("a"), Value::Bool(false)),
        (String::from("c"), whole(1)),
    ];
    let target = vec![
        (String::from("b"), Value::Bool(false)),
        (String::from("c"), whole(2)),
    ];
    let diff = objects(source, target);
    let expected = Some(DumbMap(vec![
        (String::from("a"), EntryDifference::Missing),
        (
            String::from("c"),
            EntryDifference::Deep {
                diff: Difference::Scalar(ScalarDifference::Number {
                    source: Number::PosInt(1),
                    target: Number::PosInt(2),
                }),
            },
        ),
        (
            String::from("b"),
            EntryDifference::Extra { value: Value::Bool(false) },
        ),
    ]));
    assert_eq!(diff, expected);
}

#[test]
fn nested_differences_are_reported_in_place() {
    let source = Value::Object(vec![(
        String::from("outer"),
        Value::Array(vec![Value::Object(vec![(String::from("k"), whole(1))])]),
    )]);
    let target = Value::Object(vec![(
        String::from("outer"),
        Value::Array(vec![Value::Object(vec![(String::from("k"), whole(2))])]),
    )]);
    let diff = values(source, target);
    let expected = Some(Difference::Object(DumbMap(vec![(
        String::from("outer"),
        EntryDifference::Deep {
            diff: Difference::Array(ArrayDifference::PairsOnly {
                different_pairs: DumbMap(vec![(
                    0,
                    Difference::Object(DumbMap(vec![(
                        String::from("k"),
                        EntryDifference::Deep {
                            diff: Difference::Scalar(ScalarDifference::Number {
                                source: Number::PosInt(1),
                                target: Number::PosInt(2),
                            }),
                        },
                    )])),
                )]),
            }),
        },
    )])));
    assert_eq!(diff, expected);
}

#[test]
fn type_of_value() {
    assert_eq!(Type::from(Value::Null), Type::Null);
    assert_eq!(Type::from(Value::Bool(false)), Type::Bool);
    assert_eq!(Type::from(whole(3)), Type::Number);
    assert_eq!(Type::from(text("s")), Type::String);
    assert_eq!(Type::from(Value::Array(vec![])), Type::Array);
    assert_eq!(Type::from(Value::Object(vec![])), Type::Object);
}
