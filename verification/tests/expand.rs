use anchors::{
    expand_templates, expand_value, Documents, Number, TemplateAction, TemplatesData, Value,
};

fn text(s: &str) -> Value {
    Value::String(s.to_string())
}

fn num(n: u64) -> Value {
    Value::Number(Number::PosInt(n))
}

fn reference(name: &str) -> Value {
    Value::Mapping(vec![(text("$include"), text(name))])
}

fn steps() -> Value {
    Value::Sequence(vec![
        Value::Mapping(vec![(text("uses"), text("actions/checkout@v2"))]),
        Value::Mapping(vec![(text("run"), text("cargo test"))]),
    ])
}

fn blocks() -> Documents {
    let mut blocks = Documents::new();
    blocks.insert("steps".to_string(), steps());
    blocks.insert("os".to_string(), text("ubuntu-latest"));
    blocks
}

#[test]
fn document_without_references_is_returned_unchanged() {
    let doc = Value::Mapping(vec![
        (text("name"), text("ci")),
        (text("on"), Value::Sequence(vec![text("push"), text("pull_request")])),
        (text("retries"), num(3)),
        (text("draft"), Value::Bool(false)),
        (text("env"), Value::Null),
    ]);
    let out = expand_value(&doc, &blocks()).unwrap();
    assert_eq!(out, doc);
    let again = expand_value(&out, &blocks()).unwrap();
    assert_eq!(again, doc);
}

#[test]
fn reference_is_replaced_by_the_block() {
    let out = expand_value(&reference("steps"), &blocks()).unwrap();
    assert_eq!(out, steps());
    let out = expand_value(&reference("os"), &blocks()).unwrap();
    assert_eq!(out, text("ubuntu-latest"));
}

#[test]
fn unknown_reference_fails_and_names_the_block() {
    let err = expand_value(&reference("missing"), &blocks()).unwrap_err();
    assert_eq!(err.name, "missing");
    assert_eq!(err.message(), "unknown $include: missing");
}

#[test]
fn unknown_reference_fails_against_an_empty_store() {
    let err = expand_value(&reference("steps"), &Documents::new()).unwrap_err();
    assert_eq!(err.name, "steps");
}

#[test]
fn references_at_any_depth_are_replaced_in_place() {
    let mut blocks = Documents::new();
    blocks.insert("N".to_string(), text("block"));
    let doc = Value::Mapping(vec![
        (text("a"), reference("N")),
        (text("b"), Value::Sequence(vec![num(1), reference("N")])),
    ]);
    let out = expand_value(&doc, &blocks).unwrap();
    let expected = Value::Mapping(vec![
        (text("a"), text("block")),
        (text("b"), Value::Sequence(vec![num(1), text("block")])),
    ]);
    assert_eq!(out, expected);
}

#[test]
fn key_order_and_content_are_kept() {
    let doc = Value::Mapping(vec![
        (text("z"), num(1)),
        (text("a"), Value::Sequence(vec![num(3), num(2), num(1)])),
        (num(7), Value::Mapping(vec![(text("y"), Value::Null), (text("x"), Value::Bool(true))])),
    ]);
    let out = expand_value(&doc, &Documents::new()).unwrap();
    match &out {
        Value::Mapping(entries) => {
            assert_eq!(entries.len(), 3);
            assert_eq!(entries[0].0, text("z"));
            assert_eq!(entries[1].0, text("a"));
            assert_eq!(entries[2].0, num(7));
        }
        _ => panic!("a mapping expands to a mapping"),
    }
    assert_eq!(out, doc);
}

#[test]
fn block_is_inserted_as_it_is() {
    let mut blocks = Documents::new();
    blocks.insert("outer".to_string(), Value::Sequence(vec![reference("inner")]));
    blocks.insert("inner".to_string(), num(1));
    let out = expand_value(&reference("outer"), &blocks).unwrap();
    assert_eq!(out, Value::Sequence(vec![reference("inner")]));
}

#[test]
fn block_with_a_dangling_reference_is_inserted_as_it_is() {
    let mut blocks = Documents::new();
    blocks.insert("outer".to_string(), reference("nowhere"));
    let out = expand_value(&reference("outer"), &blocks).unwrap();
    assert_eq!(out, reference("nowhere"));
}

#[test]
fn mapping_with_more_keys_is_no_reference() {
    let doc = Value::Mapping(vec![(text("$include"), text("steps")), (text("if"), reference("os"))]);
    let out = expand_value(&doc, &blocks()).unwrap();
    let expected = Value::Mapping(vec![
        (text("$include"), text("steps")),
        (text("if"), text("ubuntu-latest")),
    ]);
    assert_eq!(out, expected);
}

#[test]
fn reference_needs_a_string_for_a_name() {
    let doc = Value::Mapping(vec![(text("$include"), Value::Sequence(vec![reference("os")]))]);
    let out = expand_value(&doc, &blocks()).unwrap();
    let expected =
        Value::Mapping(vec![(text("$include"), Value::Sequence(vec![text("ubuntu-latest")]))]);
    assert_eq!(out, expected);
    let doc = Value::Mapping(vec![(text("$include"), num(1))]);
    assert_eq!(expand_value(&doc, &blocks()).unwrap(), doc);
}

#[test]
fn other_single_key_is_no_reference() {
    let doc = Value::Mapping(vec![(text("include"), text("steps"))]);
    assert_eq!(expand_value(&doc, &blocks()).unwrap(), doc);
    let doc = Value::Mapping(vec![(text("$Include"), text("steps"))]);
    assert_eq!(expand_value(&doc, &blocks()).unwrap(), doc);
}

#[test]
fn sequence_of_one_string_is_no_reference() {
    let doc = Value::Sequence(vec![text("steps")]);
    assert_eq!(expand_value(&doc, &blocks()).unwrap(), doc);
}

#[test]
fn keys_are_not_expanded() {
    let doc = Value::Mapping(vec![
        (reference("os"), reference("os")),
        (reference("missing"), num(1)),
    ]);
    let out = expand_value(&doc, &blocks()).unwrap();
    let expected = Value::Mapping(vec![
        (reference("os"), text("ubuntu-latest")),
        (reference("missing"), num(1)),
    ]);
    assert_eq!(out, expected);
}

#[test]
fn first_unknown_reference_in_document_order_is_reported() {
    let doc = Value::Mapping(vec![
        (text("a"), Value::Sequence(vec![reference("os"), reference("first"), reference("second")])),
        (text("b"), reference("third")),
    ]);
    let err = expand_value(&doc, &blocks()).unwrap_err();
    assert_eq!(err.name, "first");
    let doc = Value::Sequence(vec![
        Value::Mapping(vec![(text("k"), Value::Sequence(vec![]))]),
        Value::Mapping(vec![(text("k"), reference("deep"))]),
        reference("late"),
    ]);
    let err = expand_value(&doc, &blocks()).unwrap_err();
    assert_eq!(err.name, "deep");
}

#[test]
fn scalars_and_empty_collections_are_returned_unchanged() {
    let blocks = blocks();
    let scalars = vec![
        Value::Null,
        Value::Bool(true),
        Value::Number(Number::PosInt(u64::MAX)),
        Value::Number(Number::NegInt(i64::MIN)),
        Value::Number(Number::Float(1.5f64.to_bits())),
        Value::Number(Number::Float((-0.0f64).to_bits())),
        text(""),
        text("$include"),
        Value::Sequence(vec![]),
        Value::Mapping(vec![]),
    ];
    for scalar in &scalars {
        assert_eq!(&expand_value(scalar, &blocks).unwrap(), scalar);
    }
}

#[test]
fn expansion_does_not_change_its_inputs() {
    let blocks = blocks();
    let doc = Value::Sequence(vec![reference("steps")]);
    let _ = expand_value(&doc, &blocks).unwrap();
    assert_eq!(doc, Value::Sequence(vec![reference("steps")]));
    assert_eq!(blocks.len(), 2);
    assert_eq!(blocks.get("steps"), Some(&steps()));
}

#[test]
fn decode_reads_a_reference() {
    let action = TemplateAction::decode(&reference("steps")).unwrap();
    assert_eq!(action.block, "steps");
    assert!(TemplateAction::decode(&text("steps")).is_none());
    assert!(TemplateAction::decode(&Value::Mapping(vec![])).is_none());
    assert!(TemplateAction::decode(&Value::Mapping(vec![(num(0), text("steps"))])).is_none());
    let two = Value::Mapping(vec![(text("$include"), text("a")), (text("b"), text("c"))]);
    assert!(TemplateAction::decode(&two).is_none());
}

#[test]
fn templates_expand_under_their_names_and_in_their_order() {
    let mut workflows = Documents::new();
    workflows.insert("release".to_string(), Value::Mapping(vec![(text("steps"), reference("steps"))]));
    workflows.insert("ci".to_string(), Value::Mapping(vec![(text("runs-on"), reference("os"))]));
    workflows.insert("plain".to_string(), num(5));
    let templates = TemplatesData { workflows, blocks: blocks() };
    let expanded = expand_templates(&templates).unwrap();
    assert_eq!(expanded.len(), 3);
    assert_eq!(expanded.name_at(0), "release");
    assert_eq!(expanded.value_at(0), &Value::Mapping(vec![(text("steps"), steps())]));
    assert_eq!(expanded.name_at(1), "ci");
    assert_eq!(expanded.value_at(1), &Value::Mapping(vec![(text("runs-on"), text("ubuntu-latest"))]));
    assert_eq!(expanded.name_at(2), "plain");
    assert_eq!(expanded.value_at(2), &num(5));
}

#[test]
fn templates_without_workflows_expand_to_nothing() {
    let templates = TemplatesData { workflows: Documents::new(), blocks: blocks() };
    assert_eq!(expand_templates(&templates).unwrap().len(), 0);
}

#[test]
fn failing_workflow_is_named_with_the_block_it_asked_for() {
    let mut workflows = Documents::new();
    workflows.insert("good".to_string(), reference("os"));
    workflows.insert("bad".to_string(), Value::Sequence(vec![reference("nope")]));
    workflows.insert("worse".to_string(), reference("never"));
    let templates = TemplatesData { workflows, blocks: blocks() };
    let err = expand_templates(&templates).unwrap_err();
    assert_eq!(err.workflow, "bad");
    assert_eq!(err.cause.name, "nope");
    assert_eq!(err.message(), "Error in workflow bad");
    assert_eq!(err.cause.message(), "unknown $include: nope");
}

#[test]
fn workflows_do_not_see_each_other_as_blocks() {
    let mut workflows = Documents::new();
    workflows.insert("a".to_string(), num(1));
    workflows.insert("b".to_string(), reference("a"));
    let templates = TemplatesData { workflows, blocks: Documents::new() };
    let err = expand_templates(&templates).unwrap_err();
    assert_eq!(err.workflow, "b");
    assert_eq!(err.cause.name, "a");
}
