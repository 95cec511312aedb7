use charta::discover::{skipped_dir, to_slashes};

#[test]
fn tool_and_build_directories_are_skipped() {
    assert!(skipped_dir(".git"));
    assert!(skipped_dir("node_modules"));
    assert!(skipped_dir("target"));
    assert!(skipped_dir("dist"));
}

#[test]
fn hidden_directories_are_skipped() {
    assert!(skipped_dir(".github"));
    assert!(skipped_dir("."));
    assert!(skipped_dir(".cache"));
}

#[test]
fn description_directories_are_walked() {
    assert!(!skipped_dir("roles"));
    assert!(!skipped_dir("processes"));
    assert!(!skipped_dir("targets"));
    assert!(!skipped_dir("my.dist"));
    assert!(!skipped_dir(""));
}

#[test]
fn paths_are_written_with_forward_slashes() {
    assert_eq!(to_slashes("roles\\ceo.md"), "roles/ceo.md");
    assert_eq!(to_slashes("a\\b\\c.md"), "a/b/c.md");
    assert_eq!(to_slashes("goals/funding.md"), "goals/funding.md");
    assert_eq!(to_slashes(""), "");
}
