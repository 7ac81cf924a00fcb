use treesize::cli::{flag_name, parse_args, read_token, ArgError, Rule, Token};
use treesize::filter::FilterMode;

fn args(list: &[&str]) -> Vec<Option<String>> {
    list.iter().map(|s| Some(s.to_string())).collect()
}

#[test]
fn paths_alone_have_no_rule() {
    let parsed = parse_args(&args(&["a", "b"])).unwrap();
    assert!(parsed.filter.is_none());
    assert_eq!(parsed.first_path, 0);
}

#[test]
fn include_flag_builds_an_include_rule() {
    let parsed = parse_args(&args(&["--include", "*.rs", "src"])).unwrap();
    let rule = parsed.filter.unwrap();
    assert_eq!(rule.mode(), FilterMode::Include);
    assert!(rule.include_path("a.rs"));
    assert!(!rule.include_path("a.txt"));
    assert_eq!(parsed.first_path, 2);
}

#[test]
fn exclude_flag_builds_an_exclude_rule() {
    let parsed = parse_args(&args(&["--exclude", "*.log", "a", "b"])).unwrap();
    let rule = parsed.filter.unwrap();
    assert_eq!(rule.mode(), FilterMode::Exclude);
    assert!(!rule.include_path("a.log"));
    assert!(rule.include_path("a.txt"));
    assert_eq!(parsed.first_path, 2);
}

#[test]
fn later_rule_replaces_the_earlier_one() {
    let parsed = parse_args(&args(&["--include", "*.rs", "--exclude", "*.log", "src"])).unwrap();
    let rule = parsed.filter.unwrap();
    assert_eq!(rule.mode(), FilterMode::Exclude);
    assert!(rule.include_path("a.rs"));
    assert!(!rule.include_path("a.log"));
    assert_eq!(parsed.first_path, 4);
}

#[test]
fn tokens_after_the_first_path_are_paths() {
    let parsed = parse_args(&args(&["src", "--include", "*.rs"])).unwrap();
    assert!(parsed.filter.is_none());
    assert_eq!(parsed.first_path, 0);
}

#[test]
fn no_arguments_is_an_error() {
    assert_eq!(parse_args(&Vec::new()).err(), Some(ArgError::NoPaths));
}

#[test]
fn flags_without_a_path_is_an_error() {
    assert_eq!(parse_args(&args(&["--include", "*.rs"])).err(), Some(ArgError::NoPaths));
}

#[test]
fn flag_without_a_value_is_an_error() {
    assert_eq!(
        parse_args(&args(&["--include"])).err(),
        Some(ArgError::ExpectedValue { flag: 0 })
    );
    assert_eq!(
        parse_args(&args(&["--exclude", "*.log", "--include"])).err(),
        Some(ArgError::ExpectedValue { flag: 2 })
    );
}

#[test]
fn missing_value_is_reported_before_an_unknown_flag() {
    assert_eq!(
        parse_args(&args(&["--bogus"])).err(),
        Some(ArgError::ExpectedValue { flag: 0 })
    );
}

#[test]
fn unknown_flag_is_an_error() {
    assert_eq!(
        parse_args(&args(&["--bogus", "x", "src"])).err(),
        Some(ArgError::UnknownFlag { flag: 0 })
    );
    assert_eq!(
        parse_args(&args(&["--", "x", "src"])).err(),
        Some(ArgError::UnknownFlag { flag: 0 })
    );
}

#[test]
fn invalid_pattern_is_an_error() {
    assert_eq!(
        parse_args(&args(&["--include", "a/***", "src"])).err(),
        Some(ArgError::InvalidGlob { pattern: 1 })
    );
    assert_eq!(
        parse_args(&args(&["--include", "*.rs", "--exclude", "{a", "src"])).err(),
        Some(ArgError::InvalidGlob { pattern: 3 })
    );
}

#[test]
fn invalid_pattern_is_reported_before_a_later_unknown_flag() {
    assert_eq!(
        parse_args(&args(&["--include", "a/***", "--bogus", "x"])).err(),
        Some(ArgError::InvalidGlob { pattern: 1 })
    );
}

#[test]
fn token_that_is_not_unicode_is_a_path_but_no_value() {
    let parsed = parse_args(&vec![None, Some("b".to_string())]).unwrap();
    assert_eq!(parsed.first_path, 0);
    assert_eq!(
        parse_args(&vec![Some("--include".to_string()), None, Some("src".to_string())]).err(),
        Some(ArgError::ExpectedValue { flag: 0 })
    );
}

#[test]
fn single_hyphen_is_a_path() {
    let parsed = parse_args(&args(&["-x", "--include"])).unwrap();
    assert_eq!(parsed.first_path, 0);
}

#[test]
fn flag_name_drops_the_hyphens() {
    assert_eq!(flag_name("--include"), Some("include"));
    assert_eq!(flag_name("--"), Some(""));
    assert_eq!(flag_name("--é"), Some("é"));
    assert_eq!(flag_name("-x"), None);
    assert_eq!(flag_name("src"), None);
    assert_eq!(flag_name(""), None);
}

#[test]
fn token_is_read_where_it_stands() {
    let line = args(&["--exclude", "*.log", "src", "--include"]);
    assert_eq!(
        read_token(&line, 0),
        Token::Rule(Rule { mode: FilterMode::Exclude, pattern: 1 })
    );
    assert_eq!(read_token(&line, 1), Token::Positional);
    assert_eq!(read_token(&line, 2), Token::Positional);
    assert_eq!(
        read_token(&line, 3),
        Token::Invalid(ArgError::ExpectedValue { flag: 3 })
    );
    assert_eq!(read_token(&line, 4), Token::End);
}

#[test]
fn pattern_past_the_limits_is_an_error() {
    assert_eq!(
        parse_args(&args(&["--include", "<a*:5000000000>", "src"])).err(),
        Some(ArgError::InvalidGlob { pattern: 1 })
    );
    assert_eq!(
        parse_args(&args(&["--exclude", "*.log", "--include", "<ab:18446744073709551615>"]))
            .err(),
        Some(ArgError::InvalidGlob { pattern: 3 })
    );
}

#[test]
fn later_rule_with_the_same_mode_replaces_the_earlier_one() {
    let parsed = parse_args(&args(&["--include", "*.rs", "--include", "*.log", "src"])).unwrap();
    let rule = parsed.filter.unwrap();
    assert!(rule.include_path("a.log"));
    assert!(!rule.include_path("a.rs"));
}
