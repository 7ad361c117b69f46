use dylib_kit::glob::{self, LogFile};

fn file(name: &str, modified: Option<i128>) -> LogFile {
    LogFile { name: name.to_string(), modified }
}

#[test]
fn a_pattern_without_a_star_matches_itself() {
    assert!(glob::matches_simple_glob("a.log", "a.log"));
    assert!(!glob::matches_simple_glob("b.log", "a.log"));
    assert!(!glob::matches_simple_glob("a.log.1", "a.log"));
    assert!(glob::matches_simple_glob("", ""));
    assert!(!glob::matches_simple_glob("x", ""));
}

#[test]
fn a_star_stands_for_any_characters() {
    assert!(glob::matches_simple_glob("my-hook.2026.log", "my-hook.*.log"));
    assert!(!glob::matches_simple_glob("my-hook.log", "my-hook.*.log"));
    assert!(!glob::matches_simple_glob("x-my-hook.1.log", "my-hook.*.log"));
    assert!(!glob::matches_simple_glob("my-hook.1.txt", "my-hook.*.log"));
    assert!(glob::matches_simple_glob("anything", "*"));
    assert!(glob::matches_simple_glob("", "*"));
    assert!(glob::matches_simple_glob("abc", "a*"));
    assert!(glob::matches_simple_glob("abc", "*c"));
    assert!(glob::matches_simple_glob("abc", "a**c"));
    assert!(glob::matches_simple_glob("xaybz", "*a*b*"));
    assert!(!glob::matches_simple_glob("xbyaz", "*a*b*"));
}

#[test]
fn the_last_piece_ends_the_text() {
    assert!(glob::matches_simple_glob("aba", "*a"));
    assert!(glob::matches_simple_glob("a.log.log", "*.log"));
    assert!(glob::matches_simple_glob("a.log.log", "a*.log"));
    assert!(glob::matches_simple_glob("ba", "*a"));
    assert!(!glob::matches_simple_glob("a.log.txt", "*.log"));
    assert!(!glob::matches_simple_glob("a", "a*a"));
    assert!(glob::matches_simple_glob("aa", "a*a"));
    assert!(!glob::matches_simple_glob("aba", "*ab*ba"));
    assert!(glob::matches_simple_glob("abxba", "*ab*ba"));
}

#[test]
fn matching_counts_characters_of_any_width() {
    assert!(glob::matches_simple_glob("größe-π.log", "grö*π.log"));
    assert!(!glob::matches_simple_glob("größe-π.log", "gro*π.log"));
}

#[test]
fn a_home_directory_is_filled_in() {
    assert_eq!(glob::expand_below("~/Library/*.log", "/Users/me"), "/Users/me/Library/*.log");
    assert_eq!(glob::expand_below("/var/*.log", "/Users/me"), "/var/*.log");
    assert_eq!(glob::expand_below("~", "/Users/me"), "~");
    assert_eq!(glob::expand_below("~//etc", "/Users/me"), "/etc");
}

#[test]
fn the_home_directory_of_this_user_is_filled_in() {
    assert_eq!(glob::expand_home("/var/x"), Some("/var/x".to_string()));
    let home = dirs::home_dir().map(|h| h.to_string_lossy().into_owned());
    assert_eq!(
        glob::expand_home("~/x/*.log"),
        home.map(|h| glob::expand_below("~/x/*.log", &h))
    );
}

#[test]
fn a_home_directory_is_needed_for_a_tilde_only() {
    let home = Some("/Users/me".to_string());
    assert_eq!(
        glob::expand_for("~/x/*.log", home.clone()).as_deref(),
        Some("/Users/me/x/*.log")
    );
    assert_eq!(glob::expand_for("/x", home).as_deref(), Some("/x"));
    assert_eq!(glob::expand_for("~/x/*.log", None), None);
    assert_eq!(glob::expand_for("/x", None).as_deref(), Some("/x"));
}

#[test]
fn a_pattern_has_a_directory_and_a_name() {
    assert_eq!(
        glob::glob_location("/var/log/a.*.log"),
        Some(("/var/log".to_string(), "a.*.log".to_string()))
    );
    assert_eq!(glob::glob_location("x"), Some(("".to_string(), "x".to_string())));
    assert_eq!(glob::glob_location("/"), None);
    assert_eq!(glob::glob_location(""), None);
    assert_eq!(glob::glob_location("/a/.."), None);
}

#[test]
fn the_most_recent_match_is_taken() {
    let files = vec![
        file("a.1.log", Some(10)),
        file("a.2.log", Some(30)),
        file("b.3.log", Some(90)),
        file("a.3.log", Some(20)),
    ];
    assert_eq!(
        glob::resolve_glob_latest("/logs", "a.*.log", &files),
        Some("/logs/a.2.log".to_string())
    );
    assert_eq!(glob::resolve_glob_latest("/logs", "c.*.log", &files), None);
    assert_eq!(glob::latest_match("a.*.log", &files), Some(1));
    assert_eq!(glob::latest_match("c.*.log", &files), None);
    assert_eq!(glob::resolve_glob_latest("/logs", "*", &Vec::new()), None);
}

#[test]
fn among_equally_recent_matches_the_last_is_taken() {
    let files = vec![file("a", Some(5)), file("b", Some(5)), file("c", None)];
    assert_eq!(glob::resolve_glob_latest("/d", "*", &files), Some("/d/b".to_string()));
    let old = vec![file("a", Some(-5)), file("b", None), file("c", Some(-1))];
    assert_eq!(glob::resolve_glob_latest("/d", "*", &old), Some("/d/b".to_string()));
    let unknown = vec![file("a", None), file("b", Some(0))];
    assert_eq!(glob::resolve_glob_latest("/d", "*", &unknown), Some("/d/b".to_string()));
}
