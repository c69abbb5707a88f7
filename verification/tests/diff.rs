use json_diff::ArrayDifference;
use json_diff::Difference;
use json_diff::DumbMap;
use json_diff::EntryDifference;
use json_diff::Number;
use json_diff::ScalarDifference;
use json_diff::Type;
use json_diff::TypeDifference;
use json_diff::Value;

fn text(x: &str) -> Value {
    Value::String(String::from(x))
}

fn whole(x: u64) -> Value {
    Value::Number(Number::PosInt(x))
}

#[test]
fn diff_kitchen_sink() {
    let a = vec![
        (String::from("A"), text("a")),
        (String::from("B"), text("a")),
        (String::from("D"), whole(1)),
        (String::from("E"), whole(1)),
        (String::from("F"), Value::Array(vec![])),
        (String::from("G"), Value::Array(vec![text("a"), text("a")])),
    ];
    let b = vec![
        (String::from("A"), text("a")),
        (String::from("C"), text("b")),
        (String::from("D"), whole(2)),
        (String::from("E"), text("1")),
        (String::from("F"), Value::Array(vec![Value::Bool(true)])),
        (String::from("G"), Value::Array(vec![text("a"), text("ab")])),
    ];

    let diff = json_diff::objects(a, b);

    let expected = Some(DumbMap(vec![
        (String::from("B"), EntryDifference::Missing),
        (
            String::from("D"),
            EntryDifference::Deep {
                diff: Difference::Scalar(ScalarDifference::Number {
                    source: Number::PosInt(1),
                    target: Number::PosInt(2),
                }),
            },
        ),
        (
            String::from("E"),
            EntryDifference::Deep {
                diff: Difference::Type(TypeDifference {
                    source_type: Type::Number,
                    target_type: Type::String,
                    target_value: text("1"),
                }),
            },
        ),
        (
            String::from("F"),
            EntryDifference::Deep {
                diff: Difference::Array(ArrayDifference::Longer {
                    different_pairs: None,
                    missing_elements: 1,
                }),
            },
        ),
        (
            String::from("G"),
            EntryDifference::Deep {
                diff: Difference::Array(ArrayDifference::PairsOnly {
                    different_pairs: DumbMap(vec![(
                        1,
                        Difference::Scalar(ScalarDifference::String {
                            source: String::from("a"),
                            target: String::from("ab"),
                        }),
                    )]),
                }),
            },
        ),
        (
            String::from("C"),
            EntryDifference::Extra { value: text("b") },
        ),
    ]));

    assert_eq!(diff, expected);
}

#[test]
fn types() {
    let left = text("a");
    let right = Value::Bool(true);

    let diff = json_diff::values(left, right);

    let expected = Some(Difference::Type(TypeDifference {
        source_type: Type::String,
        target_type: Type::Bool,
        target_value: Value::Bool(true),
    }));
    assert_eq!(diff, expected);
}

#[test]
fn entries() {
    let left = vec![
        (String::from("a"), Value::Bool(false)),
        (String::from("c"), whole(1)),
    ];
    let right = vec![
        (String::from("b"), Value::Bool(false)),
        (String::from("c"), whole(2)),
    ];

    let diff = json_diff::objects(left, right);

    let expected = Some(DumbMap(vec![
        (String::from("a"), EntryDifference::Missing),
        (
            String::from("c"),
            EntryDifference::Deep {
                diff: Difference::Scalar(ScalarDifference::Number {
                    source: Number::PosInt(1),
                    target: Number::PosInt(2),
                }),
            },
        ),
        (
            String::from("b"),
            EntryDifference::Extra { value: Value::Bool(false) },
        ),
    ]));
    assert_eq!(diff, expected);
}

#[test]
fn arrays() {
    let source = vec![];
    let target = vec![Value::Bool(true)];

    let diff = json_diff::arrays(source, target);

    assert!(matches!(diff, Some(ArrayDifference::Longer { .. })));

    let source = vec![Value::Bool(true)];
    let target = vec![];

    let diff = json_diff::arrays(source, target);

    assert!(matches!(diff, Some(ArrayDifference::Shorter { .. })));

    let source = vec![Value::Bool(true)];
    let target = vec![Value::Bool(false)];

    let diff = json_diff::arrays(source, target);

    assert!(matches!(diff, Some(ArrayDifference::PairsOnly { .. })));

    let source = vec![Value::Bool(true)];
    let target = vec![Value::Bool(true)];

    let diff = json_diff::arrays(source, target);

    assert!(diff.is_none());
}
