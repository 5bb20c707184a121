use glob::Pattern;
use obsidian_zola::passthrough::{
    cleanup_action, collect_compiled, compile_each, compile_patterns, copy_if_picked,
    ignore_file_contents, matches_any, path_below, plan_passthrough, CleanupAction, OutsideSource,
    PassthroughCopy, IGNORE_HEADER,
};

fn strings(items: &[&str]) -> Vec<String> {
    items.iter().map(|s| s.to_string()).collect()
}

fn compiled(items: &[&str]) -> Vec<Pattern> {
    compile_patterns(&strings(items)).unwrap()
}

#[test]
fn patterns_compile_in_order() {
    let patterns = compiled(&["*.png", "assets/**", "raw/?.txt"]);
    let sources: Vec<&str> = patterns.iter().map(|p| p.as_str()).collect();
    assert_eq!(sources, vec!["*.png", "assets/**", "raw/?.txt"]);
}

#[test]
fn no_patterns_compile_to_none() {
    assert!(compile_patterns(&Vec::new()).unwrap().is_empty());
}

#[test]
fn first_pattern_that_does_not_compile_is_the_error() {
    let error = compile_patterns(&strings(&["*.png", "a**b", "[", "ok"])).unwrap_err();
    assert_eq!(error.index, 1);
    assert_eq!(error.cause.pos, 0);
    let error = compile_patterns(&strings(&["[", "a***"])).unwrap_err();
    assert_eq!(error.index, 0);
    assert_eq!(error.cause.msg, "invalid range pattern");
    let error = compile_patterns(&strings(&["fine", "a/***"])).unwrap_err();
    assert_eq!(error.index, 1);
    assert_eq!(error.cause.pos, 4);
}

#[test]
fn each_pattern_has_its_own_outcome() {
    let outcomes = compile_each(&strings(&["*.png", "[", "x"]));
    assert_eq!(outcomes.len(), 3);
    assert_eq!(outcomes[0].as_ref().unwrap().as_str(), "*.png");
    assert!(outcomes[1].is_err());
    assert_eq!(outcomes[2].as_ref().unwrap().as_str(), "x");
}

#[test]
fn collecting_outcomes_keeps_all_or_the_first_failure() {
    let all = collect_compiled(vec![Pattern::new("a"), Pattern::new("b*")]).unwrap();
    assert_eq!(all, vec![Pattern::new("a").unwrap(), Pattern::new("b*").unwrap()]);

    let none = collect_compiled(Vec::new()).unwrap();
    assert!(none.is_empty());

    let error = collect_compiled(vec![
        Pattern::new("a"),
        Pattern::new("b***"),
        Pattern::new("c"),
        Pattern::new("["),
    ])
    .unwrap_err();
    assert_eq!(error.index, 1);
    assert_eq!(error.cause.pos, 3);
    assert_eq!(error.cause.msg, "wildcards are either regular `*` or recursive `**`");
}

#[test]
fn a_path_is_picked_if_any_pattern_matches_it() {
    let patterns = compiled(&["*.png", "raw/**", "notes/?.txt"]);
    assert!(matches_any(&patterns, "logo.png"));
    assert!(matches_any(&patterns, "assets/deep/logo.png"));
    assert!(matches_any(&patterns, "raw/a/b/c.bin"));
    assert!(matches_any(&patterns, "notes/a.txt"));
    assert!(!matches_any(&patterns, "notes/ab.txt"));
    assert!(!matches_any(&patterns, "logo.jpg"));
    assert!(!matches_any(&patterns, "*.png.md"));
    assert!(!matches_any(&patterns, ""));
}

#[test]
fn a_literal_pattern_picks_itself_only() {
    let patterns = compiled(&["a/b.txt"]);
    assert!(matches_any(&patterns, "a/b.txt"));
    assert!(!matches_any(&patterns, "a/b.txt.bak"));
    assert!(!matches_any(&patterns, "x/a/b.txt"));
}

#[test]
fn nothing_is_picked_without_patterns() {
    assert!(!matches_any(&Vec::new(), "logo.png"));
    assert!(!matches_any(&Vec::new(), ""));
}

#[test]
fn path_below_the_source() {
    assert_eq!(path_below("/vault/a/b.png", "/vault"), Some("a/b.png".to_string()));
    assert_eq!(path_below("/vault/a/b.png", "/vault/"), Some("a/b.png".to_string()));
    assert_eq!(path_below("/vault//a/./b.png", "/vault"), Some("a/b.png".to_string()));
    assert_eq!(path_below("./vault/b.png", "./vault"), Some("b.png".to_string()));
    assert_eq!(path_below("vault/b.png", "vault/x/.."), None);
    assert_eq!(path_below("/vault", "/vault"), Some("".to_string()));
    assert_eq!(path_below("/vaults/b.png", "/vault"), None);
    assert_eq!(path_below("/b.png", "/vault"), None);
    assert_eq!(path_below("vault/b.png", "/vault"), None);
    assert_eq!(path_below("/a/b", ""), Some("/a/b".to_string()));
    assert_eq!(path_below("/a/b", "/"), Some("a/b".to_string()));
    assert_eq!(path_below("a/../b", "a"), Some("../b".to_string()));
}

#[test]
fn a_picked_file_goes_to_the_same_place_below_the_destination() {
    assert_eq!(
        copy_if_picked("a/b.png".to_string(), "/site/content", true),
        Some(PassthroughCopy {
            relative: "a/b.png".to_string(),
            destination: "/site/content/a/b.png".to_string(),
        })
    );
    assert_eq!(
        copy_if_picked("b.png".to_string(), "out/", true),
        Some(PassthroughCopy { relative: "b.png".to_string(), destination: "out/b.png".to_string() })
    );
    assert_eq!(
        copy_if_picked("b.png".to_string(), "", true),
        Some(PassthroughCopy { relative: "b.png".to_string(), destination: "b.png".to_string() })
    );
    assert_eq!(copy_if_picked("a/b.png".to_string(), "/site/content", false), None);
}

#[test]
fn passthrough_plan_for_one_file() {
    let patterns = compiled(&["*.png", "raw/**"]);
    assert_eq!(
        plan_passthrough("/vault/img/logo.png", "/vault", "/site/content", &patterns),
        Ok(Some(PassthroughCopy {
            relative: "img/logo.png".to_string(),
            destination: "/site/content/img/logo.png".to_string(),
        }))
    );
    assert_eq!(
        plan_passthrough("/vault/raw/data.bin", "/vault/", "/site/content/", &patterns),
        Ok(Some(PassthroughCopy {
            relative: "raw/data.bin".to_string(),
            destination: "/site/content/raw/data.bin".to_string(),
        }))
    );
    assert_eq!(plan_passthrough("/vault/notes/a.md", "/vault", "/site/content", &patterns), Ok(None));
    assert_eq!(
        plan_passthrough("/other/logo.png", "/vault", "/site/content", &patterns),
        Err(OutsideSource { file: "/other/logo.png".to_string() })
    );
    assert_eq!(plan_passthrough("/vault/logo.png", "/vault", "/site", &Vec::new()), Ok(None));
}

#[test]
fn passthrough_patterns_see_the_path_below_the_source_only() {
    let patterns = compiled(&["vault/*"]);
    assert_eq!(plan_passthrough("/vault/logo.png", "/vault", "/site", &patterns), Ok(None));
    assert!(plan_passthrough("/vault/vault/logo.png", "/vault", "/site", &patterns)
        .unwrap()
        .is_some());
}

#[test]
fn new_ignore_file_holds_the_header_and_the_patterns() {
    assert_eq!(
        ignore_file_contents(None, &strings(&["*.png", "raw/**"])),
        "# Temporary patterns for passthrough files\n*.png\nraw/**\n"
    );
    assert_eq!(
        ignore_file_contents(None, &Vec::new()),
        "# Temporary patterns for passthrough files\n"
    );
    assert_eq!(IGNORE_HEADER, "# Temporary patterns for passthrough files\n");
}

#[test]
fn existing_ignore_file_is_kept_in_front() {
    assert_eq!(
        ignore_file_contents(Some("drafts/\nprivate.md\n"), &strings(&["*.png"])),
        "drafts/\nprivate.md\n\n# Temporary patterns for passthrough files\n*.png\n"
    );
    assert_eq!(
        ignore_file_contents(Some("drafts/"), &strings(&["a", "b"])),
        "drafts/\n# Temporary patterns for passthrough files\na\nb\n"
    );
    assert_eq!(
        ignore_file_contents(Some(""), &Vec::new()),
        "\n# Temporary patterns for passthrough files\n"
    );
}

#[test]
fn cleanup_puts_a_backup_back_or_removes_what_was_made() {
    assert_eq!(cleanup_action(true, true), CleanupAction::RestoreBackup);
    assert_eq!(cleanup_action(true, false), CleanupAction::RestoreBackup);
    assert_eq!(cleanup_action(false, true), CleanupAction::RemoveIgnoreFile);
    assert_eq!(cleanup_action(false, false), CleanupAction::Nothing);
}
