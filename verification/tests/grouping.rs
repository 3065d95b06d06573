use webhook_archiver::groups::{group, DirectoryGroups};

fn strings(items: &[&str]) -> Vec<String> {
    items.iter().map(|s| s.to_string()).collect()
}

fn keys(groups: &DirectoryGroups) -> Vec<String> {
    groups.groups.iter().map(|g| g.key.clone()).collect()
}

#[test]
fn groups_by_parent_directory_in_order_of_first_appearance() {
    let changes = strings(&["docs/readme.md", "src/main.txt", "docs/intro.md"]);
    let groups = group(&changes, "./test/webhook-test");
    assert_eq!(groups.len(), 2);
    assert_eq!(keys(&groups), strings(&["docs", "src"]));
    assert_eq!(
        groups.groups[0].files,
        strings(&["./test/webhook-test/docs/readme.md", "./test/webhook-test/docs/intro.md"])
    );
    assert_eq!(groups.groups[1].files, strings(&["./test/webhook-test/src/main.txt"]));
}

#[test]
fn top_level_file_goes_to_the_empty_key() {
    let groups = group(&strings(&["notes.txt", "a/b.txt", "LICENSE"]), "repo");
    assert_eq!(keys(&groups), strings(&["", "a"]));
    assert_eq!(groups.groups[0].files, strings(&["repo/notes.txt", "repo/LICENSE"]));
    assert_eq!(groups.groups[1].files, strings(&["repo/a/b.txt"]));
}

#[test]
fn nested_directories_are_keys_of_their_own() {
    let groups = group(&strings(&["a/b/c.txt", "a/d.txt", "a/b/e.txt"]), "r");
    assert_eq!(keys(&groups), strings(&["a/b", "a"]));
    assert_eq!(groups.groups[0].files, strings(&["r/a/b/c.txt", "r/a/b/e.txt"]));
    assert_eq!(groups.groups[1].files, strings(&["r/a/d.txt"]));
}

#[test]
fn path_without_a_parent_is_passed_over() {
    let groups = group(&strings(&["", "/", "x/y"]), "r");
    assert_eq!(keys(&groups), strings(&["x"]));
    assert_eq!(groups.groups[0].files, strings(&["r/x/y"]));
}

#[test]
fn empty_change_set_gives_no_groups() {
    let groups = group(&Vec::new(), "r");
    assert_eq!(groups.len(), 0);
    assert!(groups.groups.is_empty());
}

#[test]
fn one_group_per_distinct_directory() {
    let changes = strings(&["a/1", "b/1", "a/2", "c/1", "b/2", "a/3", "top"]);
    let groups = group(&changes, "r");
    assert_eq!(groups.len(), 4);
    let total: usize = groups.groups.iter().map(|g| g.files.len()).sum();
    assert_eq!(total, changes.len());
    for g in groups.groups.iter() {
        assert!(!g.files.is_empty());
    }
}

#[test]
fn grouping_is_repeatable() {
    let changes = strings(&["a/1", "b/1", "a/2", "top"]);
    let first = group(&changes, "r");
    let second = group(&changes, "r");
    assert_eq!(keys(&first), keys(&second));
    for i in 0..first.groups.len() {
        assert_eq!(first.groups[i].files, second.groups[i].files);
    }
}

#[test]
fn position_finds_a_key_or_nothing() {
    let groups = group(&strings(&["a/1", "b/1"]), "r");
    assert_eq!(groups.position(&"b".to_string()), Some(1));
    assert_eq!(groups.position(&"a".to_string()), Some(0));
    assert_eq!(groups.position(&"c".to_string()), None);
}

#[test]
fn add_appends_to_the_group_of_the_key_or_opens_one() {
    let mut groups = DirectoryGroups::new();
    assert_eq!(groups.len(), 0);
    groups.add("docs".to_string(), "r/docs/a".to_string());
    groups.add("src".to_string(), "r/src/b".to_string());
    groups.add("docs".to_string(), "r/docs/c".to_string());
    assert_eq!(keys(&groups), strings(&["docs", "src"]));
    assert_eq!(groups.groups[0].files, strings(&["r/docs/a", "r/docs/c"]));
    assert_eq!(groups.groups[1].files, strings(&["r/src/b"]));
}
