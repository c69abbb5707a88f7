use json_diff::values;
use json_diff::ArrayDifference;
use json_diff::Difference;
use json_diff::DumbMap;
use json_diff::EntryDifference;
use json_diff::Number;
use json_diff::ScalarDifference;
use json_diff::Type;
use json_diff::TypeDifference;
use json_diff::Value;

fn text(x: &str) -> Value {
    Value::String(String::from(x))
}

fn whole(x: u64) -> Value {
    Value::Number(Number::PosInt(x))
}

#[test]
fn compare_kitchen_sink() {
    let a = Value::Object(vec![
        (String::from("length_mismatch"), Value::Array(vec![])),
        (String::from("matches"), text("a")),
        (
            String::from("mismatching_elements"),
            Value::Array(vec![text("a"), text("a")]),
        ),
        (String::from("missing_key"), text("a")),
        (String::from("type_mismatch"), whole(1)),
        (String::from("value_mismatch"), whole(1)),
    ]);
    let b = Value::Object(vec![
        (String::from("extra_key"), text("b")),
        (String::from("length_mismatch"), Value::Array(vec![Value::Bool(true)])),
        (
            String::from("mismatching_elements"),
            Value::Array(vec![text("a"), text("ab")]),
        ),
        (String::from("matches"), text("a")),
        (String::from("type_mismatch"), text("1")),
        (String::from("value_mismatch"), whole(2)),
    ]);

    let diff = values(a, b);

    let expected = Some(Difference::Object(DumbMap(vec![
        (
            String::from("length_mismatch"),
            EntryDifference::Deep {
                diff: Difference::Array(ArrayDifference::Longer {
                    different_pairs: None,
                    missing_elements: 1,
                }),
            },
        ),
        (
            String::from("mismatching_elements"),
            EntryDifference::Deep {
                diff: Difference::Array(ArrayDifference::PairsOnly {
                    different_pairs: DumbMap(vec![(
                        1,
                        Difference::Scalar(ScalarDifference::String {
                            source: String::from("a"),
                            target: String::from("ab"),
                        }),
                    )]),
                }),
            },
        ),
        (String::from("missing_key"), EntryDifference::Missing),
        (
            String::from("type_mismatch"),
            EntryDifference::Deep {
                diff: Difference::Type(TypeDifference {
                    source_type: Type::Number,
                    target_type: Type::String,
                    target_value: text("1"),
                }),
            },
        ),
        (
            String::from("value_mismatch"),
            EntryDifference::Deep {
                diff: Difference::Scalar(ScalarDifference::Number {
                    source: Number::PosInt(1),
                    target: Number::PosInt(2),
                }),
            },
        ),
        (
            String::from("extra_key"),
            EntryDifference::Extra { value: text("b") },
        ),
    ])));

    assert_eq!(diff, expected);
}
