use webhook_archiver::paths::{archive_file_name, archive_path, join, remote_path, sanitize};

#[test]
fn separators_become_underscores() {
    assert_eq!(sanitize("a/b"), "a_b");
    assert_eq!(sanitize("a/b/c"), "a_b_c");
    assert_eq!(sanitize("//"), "__");
    assert_eq!(sanitize("plain"), "plain");
    assert_eq!(sanitize(""), "");
    assert_eq!(sanitize("a_b/c"), "a_b_c");
}

#[test]
fn archive_file_name_of_nested_key() {
    assert_eq!(archive_file_name("a/b"), "a_b.zip");
    assert_eq!(archive_file_name("docs"), "docs.zip");
}

#[test]
fn archive_file_name_of_root_key() {
    assert_eq!(archive_file_name(""), ".zip");
}

#[test]
fn archive_path_is_in_the_working_directory() {
    assert_eq!(archive_path("docs"), "./docs.zip");
    assert_eq!(archive_path("a/b"), "./a_b.zip");
    assert_eq!(archive_path(""), "./.zip");
}

#[test]
fn remote_path_is_below_the_remote_directory() {
    assert_eq!(remote_path("docs"), "/remote/path/docs.zip");
    assert_eq!(remote_path("a/b"), "/remote/path/a_b.zip");
}

#[test]
fn join_puts_one_separator_between() {
    assert_eq!(join("./test/webhook-test", "docs/readme.md"), "./test/webhook-test/docs/readme.md");
    assert_eq!(join("", "x"), "/x");
    assert_eq!(join("r", ""), "r/");
}

#[test]
fn sanitizing_keeps_characters_outside_ascii() {
    assert_eq!(sanitize("dé/ü/文書"), "dé_ü_文書");
    assert_eq!(sanitize("/"), "_");
    assert_eq!(archive_file_name("p/q/r"), "p_q_r.zip");
}
