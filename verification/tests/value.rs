use anchors::{Number, Value};

fn text(s: &str) -> Value {
    Value::String(s.to_string())
}

#[test]
fn equal_values_have_the_same_shape_and_scalars() {
    let a = Value::Mapping(vec![
        (text("k"), Value::Sequence(vec![Value::Null, Value::Bool(true)])),
        (text("n"), Value::Number(Number::NegInt(-4))),
    ]);
    let b = Value::Mapping(vec![
        (text("k"), Value::Sequence(vec![Value::Null, Value::Bool(true)])),
        (text("n"), Value::Number(Number::NegInt(-4))),
    ]);
    assert!(a == b);
    assert_eq!(a, b);
}

#[test]
fn values_of_different_kinds_differ() {
    let values = vec![
        Value::Null,
        Value::Bool(false),
        Value::Number(Number::PosInt(0)),
        text(""),
        Value::Sequence(vec![]),
        Value::Mapping(vec![]),
    ];
    for (i, a) in values.iter().enumerate() {
        for (j, b) in values.iter().enumerate() {
            assert_eq!(a == b, i == j);
        }
    }
}

#[test]
fn a_difference_at_any_depth_is_seen() {
    let a = Value::Sequence(vec![Value::Mapping(vec![(text("k"), Value::Sequence(vec![text("x")]))])]);
    let b = Value::Sequence(vec![Value::Mapping(vec![(text("k"), Value::Sequence(vec![text("y")]))])]);
    let c = Value::Sequence(vec![Value::Mapping(vec![(text("j"), Value::Sequence(vec![text("x")]))])]);
    assert_ne!(a, b);
    assert_ne!(a, c);
    assert_ne!(Value::Sequence(vec![text("x")]), Value::Sequence(vec![text("x"), text("x")]));
    assert_ne!(Value::Sequence(vec![text("x"), text("y")]), Value::Sequence(vec![text("y"), text("x")]));
}

#[test]
fn mappings_are_compared_in_order() {
    let a = Value::Mapping(vec![(text("a"), Value::Null), (text("b"), Value::Null)]);
    let b = Value::Mapping(vec![(text("b"), Value::Null), (text("a"), Value::Null)]);
    assert_ne!(a, b);
}

#[test]
fn numbers_are_compared_by_kind_and_content() {
    let one = Value::Number(Number::PosInt(1));
    assert_eq!(one, Value::Number(Number::PosInt(1)));
    assert_ne!(one, Value::Number(Number::PosInt(2)));
    assert_ne!(one, Value::Number(Number::Float(1.0f64.to_bits())));
    assert_ne!(Value::Number(Number::NegInt(-1)), Value::Number(Number::NegInt(-2)));
    let half = Value::Number(Number::Float(0.5f64.to_bits()));
    assert_eq!(half, Value::Number(Number::Float(0.5f64.to_bits())));
    assert_ne!(
        Value::Number(Number::Float(0.0f64.to_bits())),
        Value::Number(Number::Float((-0.0f64).to_bits()))
    );
}

#[test]
fn clone_copies_the_whole_tree() {
    let a = Value::Mapping(vec![
        (text("k"), Value::Sequence(vec![Value::Null, Value::Bool(true), text("s")])),
        (Value::Number(Number::Float(2.5f64.to_bits())), Value::Mapping(vec![])),
    ]);
    let b = a.clone();
    assert_eq!(a, b);
    match b {
        Value::Mapping(entries) => {
            assert_eq!(entries.len(), 2);
            assert_eq!(entries[0].0, text("k"));
        }
        _ => panic!("the clone of a mapping is a mapping"),
    }
}
