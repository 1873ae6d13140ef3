use anchors::{load_templates_data, load_yamls, Number, Value};

fn num(n: u64) -> Value {
    Value::Number(Number::PosInt(n))
}

fn file(name: &str, n: u64) -> (String, Value) {
    (name.to_string(), num(n))
}

#[test]
fn only_yaml_files_are_loaded() {
    let files = vec![file("ci.yaml", 1), file("notes.txt", 2), file("blocks", 3), file("release.yaml", 4), file(".yaml", 5)];
    let docs = load_yamls(&files);
    assert_eq!(docs.len(), 2);
    assert_eq!(docs.name_at(0), "ci");
    assert_eq!(docs.value_at(0), &num(1));
    assert_eq!(docs.name_at(1), "release");
    assert_eq!(docs.value_at(1), &num(4));
}

#[test]
fn empty_directory_holds_no_documents() {
    assert_eq!(load_yamls(&vec![]).len(), 0);
}

#[test]
fn later_file_of_the_same_name_gives_the_content() {
    let files = vec![file("ci.yaml", 1), file("other.yaml", 2), file("ci.yaml", 3)];
    let docs = load_yamls(&files);
    assert_eq!(docs.len(), 2);
    assert_eq!(docs.name_at(0), "ci");
    assert_eq!(docs.get("ci"), Some(&num(3)));
    assert_eq!(docs.get("other"), Some(&num(2)));
}

#[test]
fn workflows_and_blocks_are_loaded_apart() {
    let workflows = vec![file("ci.yaml", 1), file("README.md", 0)];
    let blocks = vec![file("steps.yaml", 2), file("os.yaml", 3)];
    let templates = load_templates_data(&workflows, &blocks);
    assert_eq!(templates.workflows.len(), 1);
    assert_eq!(templates.workflows.get("ci"), Some(&num(1)));
    assert!(!templates.workflows.contains_key("steps"));
    assert_eq!(templates.blocks.len(), 2);
    assert_eq!(templates.blocks.get("steps"), Some(&num(2)));
    assert_eq!(templates.blocks.get("os"), Some(&num(3)));
}
