use serde_json::Value;
use webhook_archiver::changes::{collect_added, collect_strings, extract};

fn parse(text: &str) -> Value {
    serde_json::from_str(text).unwrap()
}

#[test]
fn extracts_added_paths_in_commit_then_array_order() {
    let payload = parse(
        r#"{"commits":[{"added":["docs/readme.md","docs/intro.md"]},{"added":["src/main.txt"]}]}"#,
    );
    assert_eq!(
        extract(&payload),
        vec![
            "docs/readme.md".to_string(),
            "docs/intro.md".to_string(),
            "src/main.txt".to_string()
        ]
    );
}

#[test]
fn payload_without_commits_has_no_changes() {
    assert_eq!(extract(&parse(r#"{"ref":"refs/heads/main"}"#)), Vec::<String>::new());
}

#[test]
fn payload_with_empty_commits_has_no_changes() {
    assert_eq!(extract(&parse(r#"{"commits":[]}"#)), Vec::<String>::new());
}

#[test]
fn commits_that_is_no_array_counts_as_empty() {
    assert_eq!(extract(&parse(r#"{"commits":"none"}"#)), Vec::<String>::new());
    assert_eq!(extract(&parse(r#"{"commits":{"added":["a/b"]}}"#)), Vec::<String>::new());
}

#[test]
fn payload_that_is_no_object_counts_as_empty() {
    assert_eq!(extract(&parse(r#"["commits"]"#)), Vec::<String>::new());
    assert_eq!(extract(&parse("null")), Vec::<String>::new());
    assert_eq!(extract(&parse("17")), Vec::<String>::new());
}

#[test]
fn commit_without_added_is_passed_over() {
    let payload = parse(
        r#"{"commits":[{"removed":["x"]},{"added":["a/one"]},{"added":null},7,{"added":["b/two"]}]}"#,
    );
    assert_eq!(extract(&payload), vec!["a/one".to_string(), "b/two".to_string()]);
}

#[test]
fn elements_that_are_no_strings_are_passed_over() {
    let payload = parse(r#"{"commits":[{"added":["a/one",1,null,["x"],{"y":"z"},"b/two",true]}]}"#);
    assert_eq!(extract(&payload), vec!["a/one".to_string(), "b/two".to_string()]);
}

#[test]
fn repeated_paths_are_kept() {
    let payload = parse(r#"{"commits":[{"added":["a/one"]},{"added":["a/one"]}]}"#);
    assert_eq!(extract(&payload), vec!["a/one".to_string(), "a/one".to_string()]);
}

#[test]
fn collect_strings_appends_behind_what_is_there() {
    let items = vec![Value::from("x"), Value::from(3), Value::from("y")];
    let mut out = vec!["first".to_string()];
    collect_strings(&items, &mut out);
    assert_eq!(out, vec!["first".to_string(), "x".to_string(), "y".to_string()]);
}

#[test]
fn collect_added_reads_one_commit() {
    let commit = parse(r#"{"added":["p/q","r"],"modified":["s"]}"#);
    let mut out = Vec::new();
    collect_added(&commit, &mut out);
    assert_eq!(out, vec!["p/q".to_string(), "r".to_string()]);
    collect_added(&parse(r#"{"added":"p/q"}"#), &mut out);
    assert_eq!(out.len(), 2);
}
