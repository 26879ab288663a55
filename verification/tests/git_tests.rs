use rex::git::{is_git_ignored, GitIgnoreRule, GitIgnoreRuleElements, GitIgnoreRules};

fn compile(line: &str) -> GitIgnoreRule {
    GitIgnoreRule::from_str(line).unwrap()
}

fn join(dir: &str, rel: &str) -> String {
    format!("{}/{}", dir, rel)
}

#[test]
fn test_pattern_from_str() {
    let rule = GitIgnoreRule::from_str("*.log").unwrap();
    assert_eq!(
        rule.pattern,
        vec![
            GitIgnoreRuleElements::Asterisk,
            GitIgnoreRuleElements::Literal(".log".to_string())
        ]
    );
    assert!(!rule.is_negated);

    // Test negated pattern
    let rule = GitIgnoreRule::from_str("!important.log").unwrap();
    assert_eq!(
        rule.pattern,
        vec![GitIgnoreRuleElements::Literal("important.log".to_string())]
    );
    assert!(rule.is_negated);

    // Test character range
    let rule = GitIgnoreRule::from_str("[a-z].txt").unwrap();
    assert_eq!(
        rule.pattern,
        vec![
            GitIgnoreRuleElements::CharRange((false, vec![('a', 'z')])),
            GitIgnoreRuleElements::Literal(".txt".to_string())
        ]
    );

    // Test comments
    let rule = GitIgnoreRule::from_str("#foo[bar].txt");
    assert!(rule.is_none());

    // Empty line
    let rule = GitIgnoreRule::from_str("");
    assert!(rule.is_none());
}

#[test]
fn test_file_matches() {
    let dir = "/watch";

    let rule = compile("*.log");
    assert!(rule.file_matches(&join(dir, "error.log"), dir));
    assert!(!rule.file_matches(&join(dir, "error.txt"), dir));

    let rule = compile("!important.log");
    assert!(rule.file_matches(&join(dir, "important.log"), dir));
    assert!(rule.is_negated);

    let rule = compile("**/temp/*");
    assert!(rule.file_matches(&join(dir, "foo/temp/file.txt"), dir));
    assert!(!rule.file_matches(&join(dir, "foo/temp/"), dir));

    let rule = compile("a/**/b");
    assert!(rule.file_matches(&join(dir, "a/x/y/b"), dir));
    assert!(!rule.file_matches(&join(dir, "a/x/y/c"), dir));
}

#[test]
fn test_from_lines() {
    let lines = vec!["*.log".to_string(), "!important.log".to_string()];
    let rules = GitIgnoreRules::from_lines(&lines, "/watch".to_string());
    assert_eq!(rules.rules.len(), 2);

    assert_eq!(
        rules.rules[0].pattern,
        vec![
            GitIgnoreRuleElements::Asterisk,
            GitIgnoreRuleElements::Literal(".log".to_string())
        ]
    );
    assert!(!rules.rules[0].is_negated);

    assert_eq!(
        rules.rules[1].pattern,
        vec![GitIgnoreRuleElements::Literal("important.log".to_string())]
    );
    assert!(rules.rules[1].is_negated);
}

#[test]
fn test_from_lines_skips_blanks_and_comments() {
    let lines = vec![
        "".to_string(),
        "# a comment".to_string(),
        "*.log".to_string(),
    ];
    let rules = GitIgnoreRules::from_lines(&lines, "/watch".to_string());
    assert_eq!(rules.rules.len(), 1);
    assert_eq!(rules.rule_path, "/watch".to_string());
}

#[test]
fn test_complex_patterns() {
    let dir = "/watch";
    let lines = vec![
        "**/foo/**/bar".to_string(), // 0
        "dir/".to_string(),          // 1
        "[ei]*.log".to_string(),     // 2
        "[a-c]*.txt".to_string(),    // 3
        "[!c-f]*.txt".to_string(),   // 4
    ];
    let rules = GitIgnoreRules::from_lines(&lines, dir.to_string());

    // Test double asterisk across directories
    assert!(rules.rules[0].file_matches(&join(dir, "a/foo/b/bar"), dir));
    assert!(rules.rules[0].file_matches(&join(dir, "foo/bar"), dir));
    assert!(rules.rules[0].file_matches(&join(dir, "a/foo/baz/bar"), dir));
    assert!(rules.rules[0].file_matches(&join(dir, "a/foo/baz/bar/hey"), dir));

    // Test trailing slash for directories
    assert!(rules.rules[1].file_matches(&join(dir, "dir/"), dir));
    assert!(rules.rules[1].file_matches(&join(dir, "dir/file.txt"), dir));
    assert!(!rules.rules[1].file_matches(&join(dir, "directory/"), dir));
    assert!(!rules.rules[1].file_matches(&join(dir, "dir2"), dir));
    assert!(!rules.rules[1].file_matches(&join(dir, "dir2/"), dir));

    // test with range and wildcard
    assert!(rules.rules[2].file_matches(&join(dir, "error.log"), dir));
    assert!(rules.rules[2].file_matches(&join(dir, "important.log"), dir));
    assert!(!rules.rules[2].file_matches(&join(dir, "unimportant.log"), dir));

    // Test character ranges
    assert!(rules.rules[3].file_matches(&join(dir, "a_file.txt"), dir));
    assert!(rules.rules[3].file_matches(&join(dir, "b_file.txt"), dir));
    assert!(!rules.rules[3].file_matches(&join(dir, "d_file.txt"), dir));

    // Test negated character ranges
    assert!(rules.rules[4].file_matches(&join(dir, "b_file.txt"), dir));
    assert!(!rules.rules[4].file_matches(&join(dir, "d_file.txt"), dir));
    assert!(!rules.rules[4].file_matches(&join(dir, "e_file.txt"), dir));
}

#[test]
fn test_edge_cases() {
    let dir = "/watch";

    // An empty rule list compiles to nothing
    let rules = GitIgnoreRules::from_lines(&Vec::new(), dir.to_string());
    assert!(rules.rules.is_empty());

    // Test file not under the watched directory
    let rule = compile("*.log");
    assert!(!rule.file_matches("/elsewhere/error.log", dir));

    // Test pattern with escaped characters
    let rule = compile(r"\!important.log");
    assert!(rule.file_matches(&join(dir, "!important.log"), dir));
    assert!(!rule.file_matches(&join(dir, "important.log"), dir));

    // Test pattern with trailing spaces
    let rule = compile("*.log   ");
    assert!(rule.file_matches(&join(dir, "error.log"), dir));
    assert!(!rule.file_matches(&join(dir, "error.lot"), dir));

    // Again, but escaped
    let rule = compile("*.log\\ \\  ");
    assert!(rule.file_matches(&join(dir, "error.log  "), dir));
    assert!(!rule.file_matches(&join(dir, "error.log "), dir));
    assert!(!rule.file_matches(&join(dir, "error.log"), dir));

    // testing the ?
    let rule = compile("a/f??/bar");
    assert!(rule.file_matches(&join(dir, "a/foo/bar"), dir));
    assert!(rule.file_matches(&join(dir, "a/fii/bar"), dir));
    assert!(!rule.file_matches(&join(dir, "a/f/i/bar"), dir));
    assert!(!rule.file_matches(&join(dir, "a/fo/bar"), dir));

    // Just a slash should do nothing special
    let rule = compile("/");
    assert!(!rule.file_matches(&join(dir, ""), dir));
    assert!(!rule.file_matches(&join(dir, "file.txt"), dir));

    // Test pattern anchored with a leading slash
    let rule = compile("/target");
    assert!(rule.file_matches(&join(dir, "target/debug"), dir));
    assert!(!rule.file_matches(&join(dir, "target2/debug"), dir));
}

#[test]
fn test_combined_rules() {
    let dir = "/watch";
    let lines = vec![
        "*.log".to_string(),
        "!important.log".to_string(),
        "temp/".to_string(),
        "**/cache/**".to_string(),
    ];
    let rules = GitIgnoreRules::from_lines(&lines, dir.to_string());

    // Test ignored files
    assert!(rules.rules[0].file_matches(&join(dir, "error.log"), dir));
    assert!(rules.rules[1].file_matches(&join(dir, "important.log"), dir));
    assert!(rules.rules[1].is_negated);
    assert!(rules.rules[2].file_matches(&join(dir, "temp/file.txt"), dir));
    assert!(rules.rules[3].file_matches(&join(dir, "foo/cache/bar"), dir));
    assert!(rules.rules[3].file_matches(&join(dir, "foo/cache/bar/baz"), dir));
    assert!(!rules.rules[3].file_matches(&join(dir, "foo/cache"), dir));
}

#[test]
fn test_double_star_prefix_matches_any_depth() {
    let dir = "/w";
    let rule = compile("**/foo");
    assert!(rule.file_matches(&join(dir, "foo"), dir));
    assert!(rule.file_matches(&join(dir, "a/foo"), dir));
    assert!(rule.file_matches(&join(dir, "a/b/foo"), dir));
    assert!(!rule.file_matches(&join(dir, "a/b/bar"), dir));
}

#[test]
fn test_double_star_suffix_matches_below_only() {
    let dir = "/w";
    let rule = compile("abc/**");
    assert!(rule.file_matches(&join(dir, "abc/x"), dir));
    assert!(rule.file_matches(&join(dir, "abc/x/y"), dir));
    assert!(!rule.file_matches(&join(dir, "abcx"), dir));
}

#[test]
fn test_string_matches_candidates() {
    let rule = compile("dir/");
    assert!(rule.string_matches("dir/anything", &rule.pattern));
    assert!(rule.string_matches("dir/", &rule.pattern));
    assert!(rule.string_matches("dir", &rule.pattern));
    assert!(!rule.string_matches("dir2", &rule.pattern));
}

#[test]
fn test_is_git_ignored_negation_wins_across_levels() {
    // The negated rule lives in a deeper rule set than the plain one; it
    // still un-ignores the file.
    let upper = GitIgnoreRules::from_lines(&vec!["*.log".to_string()], "/w".to_string());
    let lower = GitIgnoreRules::from_lines(&vec!["!keep.log".to_string()], "/w/sub".to_string());
    let sets = vec![lower, upper];
    assert!(!is_git_ignored("/w/sub/keep.log", &sets));
    assert!(is_git_ignored("/w/sub/other.log", &sets));
}
