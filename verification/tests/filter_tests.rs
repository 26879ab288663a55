use std::str::FromStr;

use rex::args::{derive_execution_mode, normalize_extensions, parse_env_entry};
use rex::filter::{
    base_name_of, extension_matches, has_any_regex_match, has_regex_match, is_hidden,
    relative_path_within_dir, should_be_ignored, should_be_ignored_checked, FilterConfig,
};
use rex::git::GitIgnoreRules;

#[test]
fn test_extension_matches_exact() {
    let filename = String::from_str("/home/test/my-file.rs").expect("Could not create PathBuf");
    assert!(extension_matches(&filename, &vec![String::from("rs")]));
}

#[test]
fn test_extension_matches_empty_allow_list() {
    let filename = String::from_str("file.txt").expect("Could not create PathBuf");
    assert!(extension_matches(&filename, &vec![]));
}

#[test]
fn test_extension_matches_subset() {
    let filename = String::from_str("file.txt").expect("Could not create PathBuf");
    assert!(!extension_matches(
        &filename,
        &vec![String::from("xt"), String::from("tx")]
    ));
}

#[test]
fn test_extension_matches_double_extension() {
    let filename = String::from_str("a/path/file.txt.ignored").expect("Could not create PathBuf");
    assert!(!extension_matches(
        &filename,
        &vec![
            String::from("txt"),
            String::from(""),
            String::from("txt.ignored"),
            String::from("gnored")
        ]
    ));
}

#[test]
fn test_extension_matches_double_extension_happy_case() {
    let filename = String::from_str(".txt.ignored").expect("Could not create PathBuf");
    assert!(extension_matches(
        &filename,
        &vec![String::from("txt"), String::from("ignored")]
    ));
}

#[test]
fn test_extension_matches_no_ext() {
    let filename = String::from_str("path/to/my_file").expect("Could not create PathBuf");
    assert!(extension_matches(&filename, &vec![String::from("")]));
}

#[test]
fn test_extension_matches_case() {
    let filename = String::from_str(".txt.jPeG").expect("Could not create PathBuf");
    assert!(extension_matches(&filename, &vec![String::from("jpeg")]));
}

#[test]
fn test_is_hidden() {
    let filename =
        String::from_str("/a/path/.with/hidden_dir/file.jPeG").expect("test error");
    let watch = String::from_str("/a/path/.with/hidden_dir").expect("test error");
    assert!(!is_hidden(&filename, &watch));
    let watch = String::from_str("/").expect("test error");
    assert!(is_hidden(&filename, &watch));
}

#[test]
fn test_is_hidden_file_itself() {
    let filename =
        String::from_str("/a/path/with/hidden_dir/.file.txt").expect("test error");
    let watch = String::from_str("/a/").expect("test error");
    assert!(is_hidden(&filename, &watch));
}

#[test]
fn test_is_not_hidden() {
    let filename =
        String::from_str("/.a/path/with/not_hidden_dir/file.txt").expect("test error");
    let watch = String::from_str("/.a/path").expect("test error");
    assert!(!is_hidden(&filename, &watch));
}

#[test]
fn test_relative_filename() {
    let filename = "/home/user/.config/app/Cache/Cache_Data/index-dir/temp-index";
    let watch = String::from_str("/home/user/.config").expect("Could not create PathBuf");
    assert_eq!(
        relative_path_within_dir(filename, &watch),
        String::from("app/Cache/Cache_Data/index-dir/temp-index")
    );
}

#[test]
fn test_relative_filename_outside_dir() {
    assert_eq!(
        relative_path_within_dir("/elsewhere/file.txt", "/home/user"),
        String::from("/elsewhere/file.txt")
    );
}

#[test]
fn test_base_name_of() {
    assert_eq!(base_name_of("/a/b/c.txt"), String::from("c.txt"));
    assert_eq!(base_name_of("/a/b/"), String::from("b"));
    assert_eq!(base_name_of("/"), String::from(""));
    assert_eq!(base_name_of("name"), String::from("name"));
}

#[test]
fn test_regex_include_must_all_match() {
    let regex = vec![String::from("\\.rs$"), String::from("^src/")];
    assert!(has_regex_match(&regex, "/w/src/main.rs", "/w"));
    assert!(!has_regex_match(&regex, "/w/src/main.c", "/w"));
    assert!(!has_regex_match(&regex, "/w/doc/main.rs", "/w"));
    // No regex given, we accept all files
    assert!(has_regex_match(&Vec::new(), "/w/anything", "/w"));
}

#[test]
fn test_regex_exclude_any_match() {
    let regex = vec![String::from("\\.tmp$"), String::from("^build/")];
    assert!(has_any_regex_match(&regex, "/w/a.tmp", "/w"));
    assert!(has_any_regex_match(&regex, "/w/build/out", "/w"));
    assert!(!has_any_regex_match(&regex, "/w/src/a.rs", "/w"));
    assert!(!has_any_regex_match(&Vec::new(), "/w/src/a.rs", "/w"));
}

#[test]
fn test_filter_config_rejects_bad_regex() {
    let r = FilterConfig::new(
        Vec::new(),
        vec![String::from("foo(bar")],
        Vec::new(),
        false,
        false,
        false,
    );
    assert!(r.is_err());
    let r = FilterConfig::new(
        Vec::new(),
        Vec::new(),
        vec![String::from("*invalid")],
        false,
        false,
        false,
    );
    assert!(r.is_err());
    let r = FilterConfig::new(
        Vec::new(),
        vec![String::from("\\.rs$")],
        Vec::new(),
        false,
        false,
        false,
    );
    assert!(r.is_ok());
}

#[test]
fn test_should_be_ignored_gitignore_scenario() {
    // Watch root has rules "*.log" then "!keep.log": a.log is filtered
    // out, keep.log passes through.
    let lines = vec!["*.log".to_string(), "!keep.log".to_string()];
    let sets = vec![GitIgnoreRules::from_lines(&lines, "/w".to_string())];
    let cfg = FilterConfig::new(Vec::new(), Vec::new(), Vec::new(), false, false, false)
        .expect("config");
    assert!(should_be_ignored("/w/a.log", &cfg, "/w", true, &sets));
    assert!(!should_be_ignored("/w/keep.log", &cfg, "/w", true, &sets));
}

#[test]
fn test_should_be_ignored_deleted_policy() {
    let sets: Vec<GitIgnoreRules> = Vec::new();
    let cfg = FilterConfig::new(Vec::new(), Vec::new(), Vec::new(), false, false, false)
        .expect("config");
    // A vanished file is dropped unless deletions are tracked.
    assert!(should_be_ignored("/w/gone.txt", &cfg, "/w", false, &sets));
    let cfg = FilterConfig::new(Vec::new(), Vec::new(), Vec::new(), true, false, false)
        .expect("config");
    assert!(!should_be_ignored("/w/gone.txt", &cfg, "/w", false, &sets));
}

#[test]
fn test_should_be_ignored_hidden_policy() {
    let sets: Vec<GitIgnoreRules> = Vec::new();
    let cfg = FilterConfig::new(Vec::new(), Vec::new(), Vec::new(), false, false, false)
        .expect("config");
    assert!(should_be_ignored("/w/.secret/file.txt", &cfg, "/w", true, &sets));
    // Hidden parts above the watch root are not examined.
    assert!(!should_be_ignored("/.w/file.txt", &cfg, "/.w", true, &sets));
    let cfg = FilterConfig::new(Vec::new(), Vec::new(), Vec::new(), false, true, false)
        .expect("config");
    assert!(!should_be_ignored("/w/.secret/file.txt", &cfg, "/w", true, &sets));
}

#[test]
fn test_should_be_ignored_checked_reports_bad_pattern() {
    let sets: Vec<GitIgnoreRules> = Vec::new();
    let r = should_be_ignored_checked(
        "/w/a.rs",
        Vec::new(),
        vec![String::from("foo(bar")],
        Vec::new(),
        false,
        false,
        false,
        "/w",
        true,
        &sets,
    );
    assert!(r.is_none());
    let r = should_be_ignored_checked(
        "/w/a.rs",
        Vec::new(),
        vec![String::from("\\.rs$")],
        Vec::new(),
        false,
        false,
        false,
        "/w",
        true,
        &sets,
    );
    assert_eq!(r, Some(false));
}

#[test]
fn test_normalize_extensions() {
    let exts = vec![
        String::from(".TXT"),
        String::from("rs,c"),
        String::from("JPeG"),
    ];
    let out = normalize_extensions(&exts);
    assert_eq!(
        out,
        vec![
            String::from("txt"),
            String::from("rs"),
            String::from("c"),
            String::from("jpeg")
        ]
    );
}

#[test]
fn test_parse_env_entry() {
    assert_eq!(
        parse_env_entry("KEY=VALUE"),
        (String::from("KEY"), String::from("VALUE"))
    );
    assert_eq!(
        parse_env_entry("KEY=a=b"),
        (String::from("KEY"), String::from("a=b"))
    );
    assert_eq!(parse_env_entry("KEY"), (String::from("KEY"), String::from("")));
    assert_eq!(parse_env_entry("=x"), (String::from(""), String::from("x")));
}

#[test]
fn test_derive_execution_mode() {
    // A template without any placeholder turns on deletion tracking and
    // abort-previous.
    assert_eq!(derive_execution_mode("make test", false, false), (true, true, true));
    assert_eq!(derive_execution_mode("run {file}", false, false), (false, false, false));
    assert_eq!(derive_execution_mode("run {files}", false, false), (true, false, false));
}
