use obsidian_zola::postprocessors::resolve_relative_path;

#[test]
fn test_resolve_relative_path() {
    // From the root directory
    assert_eq!(resolve_relative_path("", "example.md"), "example.md");
    assert_eq!(resolve_relative_path("", "folder/note.md"), "folder/note.md");

    // From a subdirectory
    assert_eq!(resolve_relative_path("folder", "../index.md"), "index.md");
    assert_eq!(resolve_relative_path("folder", "note.md"), "folder/note.md");
    assert_eq!(resolve_relative_path("deep/nested", "../../root.md"), "root.md");
    assert_eq!(resolve_relative_path("deep/nested", "../other.md"), "deep/other.md");

    // Longer paths
    assert_eq!(resolve_relative_path("a/b/c", "../../d/file.md"), "a/d/file.md");
    assert_eq!(resolve_relative_path("folder", "./current.md"), "folder/current.md");
}

#[test]
fn resolve_from_the_root_keeps_a_plain_name() {
    assert_eq!(resolve_relative_path("", "example.md"), "example.md");
}

#[test]
fn resolve_steps_out_of_one_folder() {
    assert_eq!(resolve_relative_path("folder", "../index.md"), "index.md");
}

#[test]
fn resolve_steps_out_of_two_folders() {
    assert_eq!(resolve_relative_path("deep/nested", "../../root.md"), "root.md");
}

#[test]
fn resolve_drops_surplus_parent_segments() {
    assert_eq!(resolve_relative_path("", "../x.md"), "x.md");
    assert_eq!(resolve_relative_path("a", "../../../x.md"), "x.md");
    assert_eq!(resolve_relative_path("", ".."), "");
    assert_eq!(resolve_relative_path("a/b", "../../.."), "");
}

#[test]
fn resolve_of_the_current_directory_is_the_directory() {
    assert_eq!(resolve_relative_path("a/b", "."), "a/b");
    assert_eq!(resolve_relative_path("a/b", ""), "a/b");
    assert_eq!(resolve_relative_path("", "."), "");
    assert_eq!(resolve_relative_path("a/../b", "."), "b");
}

#[test]
fn resolve_ignores_repeated_and_trailing_separators() {
    assert_eq!(resolve_relative_path("a//b/", "c//d.md"), "a/b/c/d.md");
    assert_eq!(resolve_relative_path("a/", "b/"), "a/b");
    assert_eq!(resolve_relative_path("a/./b", "./c/./d.md"), "a/b/c/d.md");
}

#[test]
fn resolve_of_an_absolute_target_forgets_the_directory() {
    assert_eq!(resolve_relative_path("a/b", "/c/d.md"), "//c/d.md");
    assert_eq!(resolve_relative_path("", "/"), "/");
    assert_eq!(resolve_relative_path("/a", "b.md"), "//a/b.md");
    assert_eq!(resolve_relative_path("/a", "../../b.md"), "b.md");
}

#[test]
fn resolve_is_stable_when_run_again_from_the_root() {
    let cases = [
        ("", "example.md"),
        ("folder", "../index.md"),
        ("deep/nested", "../../root.md"),
        ("a/b/c", "../../d/file.md"),
        ("a/b", "/c/../d.md"),
        ("", "/"),
        ("x", "../../.."),
        ("a//b/", "./c//d.md"),
    ];
    for (dir, target) in cases {
        let once = resolve_relative_path(dir, target);
        let twice = resolve_relative_path("", &once);
        assert_eq!(once, twice);
    }
}

#[test]
fn resolve_keeps_characters_beyond_ascii() {
    assert_eq!(resolve_relative_path("café/für", "../naïve.md"), "café/naïve.md");
    assert_eq!(resolve_relative_path("日本", "語/../本.md"), "日本/本.md");
}

#[test]
fn resolve_takes_a_backslash_for_part_of_a_name() {
    assert_eq!(resolve_relative_path("a\\b", "..\\c.md"), "a\\b/..\\c.md");
}
