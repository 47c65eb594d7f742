use markharness::init::updated_gitignore;

#[test]
fn a_missing_gitignore_gets_the_cache_entry() {
    assert_eq!(
        updated_gitignore(""),
        Some("# markharness init\n.markharness-cache/\n".to_string())
    );
}

#[test]
fn the_entry_follows_existing_lines_after_a_blank_line() {
    assert_eq!(
        updated_gitignore("target/\n"),
        Some("target/\n\n# markharness init\n.markharness-cache/\n".to_string())
    );
    assert_eq!(
        updated_gitignore("target/"),
        Some("target/\n\n# markharness init\n.markharness-cache/\n".to_string())
    );
}

#[test]
fn a_gitignore_that_already_lists_the_cache_is_left_alone() {
    assert_eq!(updated_gitignore("target/\n.markharness-cache/\n"), None);
    assert_eq!(updated_gitignore(".markharness-cache/\r\nother\n"), None);
}

#[test]
fn updating_twice_changes_nothing_the_second_time() {
    for existing in ["", "target/", "a\nb\n", "x\r\n"] {
        let once = updated_gitignore(existing).unwrap();
        assert_eq!(updated_gitignore(&once), None, "{existing:?}");
    }
}
