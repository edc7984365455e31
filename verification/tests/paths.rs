use dotrs::config::{Config, PrintablePathBuf};
use dotrs::dotfiles::{basename, dest_path, effective_profile, keep_entry, parent_dir,
    profile_for_apply, stage_git_dir};
use dotrs::text::{first_two_tokens, join_strings, lines_of, str_eq, trim};

#[test]
fn trim_strips_both_ends() {
    assert_eq!(trim("  a b \t\n"), "a b");
    assert_eq!(trim(""), "");
    assert_eq!(trim("   "), "");
    assert_eq!(trim("x"), "x");
}

#[test]
fn tokens_split_on_whitespace_runs() {
    assert_eq!(
        first_two_tokens("  one \t two three "),
        Some(("one".to_string(), "two".to_string()))
    );
    assert_eq!(first_two_tokens("solo"), None);
    assert_eq!(first_two_tokens(""), None);
}

#[test]
fn lines_split_like_text_files() {
    assert_eq!(lines_of("a\nb\n"), vec!["a", "b"]);
    assert_eq!(lines_of("a\r\nb"), vec!["a", "b"]);
    assert_eq!(lines_of(""), Vec::<String>::new());
    assert_eq!(lines_of("\n"), vec![""]);
}

#[test]
fn join_inserts_separators_between_parts() {
    let parts: Vec<String> = vec!["a".to_string(), "b".to_string(), "c".to_string()];
    assert_eq!(join_strings(&parts, ", "), "a, b, c");
    assert_eq!(join_strings(&vec!["x".to_string()], ", "), "x");
    assert_eq!(join_strings(&Vec::new(), ", "), "");
}

#[test]
fn string_equality_compares_contents() {
    assert!(str_eq("abc", "abc"));
    assert!(!str_eq("abc", "abd"));
}

#[test]
fn basename_is_the_final_component() {
    assert_eq!(basename("a/b/c.txt"), "c.txt");
    assert_eq!(basename("c.txt"), "c.txt");
    assert_eq!(basename("a/"), "");
}

#[test]
fn parent_dir_is_the_prefix_before_the_final_component() {
    assert_eq!(parent_dir("/home/u/.config/app.conf"), Some("/home/u/.config".to_string()));
    assert_eq!(parent_dir("bare"), None);
}

#[test]
fn walker_skips_metadata_profiles_and_ignore_files() {
    assert!(!keep_entry("sub/.git", true));
    assert!(!keep_entry(".dotrs-profiles", true));
    assert!(keep_entry("sub/project", true));
    assert!(!keep_entry("sub/.gitignore", false));
    assert!(keep_entry("sub/.gitconfig", false));
    // a file may carry a directory-reserved name and still pass
    assert!(keep_entry("notes/.git", false));
}

#[test]
fn destinations_mirror_the_stage_layout() {
    assert_eq!(dest_path("/home/u", ".config/app.conf"), "/home/u/.config/app.conf");
}

#[test]
fn stage_metadata_path_is_under_the_stage_root() {
    let cfg = Config {
        stage_dir: PrintablePathBuf::new("/stage".to_string()),
        cache_dir: PrintablePathBuf::new("/cache".to_string()),
    };
    assert_eq!(stage_git_dir(&cfg), "/stage/.git");
    assert_eq!(cfg.stage_dir.as_str(), "/stage");
}

#[test]
fn explicit_profile_wins_over_the_recorded_one() {
    assert_eq!(
        effective_profile(Some("work".to_string()), Some("old".to_string())),
        Some("work".to_string())
    );
    assert_eq!(
        effective_profile(None, Some("old".to_string())),
        Some("old".to_string())
    );
    assert_eq!(effective_profile(None, None), None);
}

#[test]
fn only_the_reserved_default_profile_may_be_absent() {
    assert!(profile_for_apply("/stage", "work").must_exist);
    assert!(!profile_for_apply("/stage", "default").must_exist);
}
