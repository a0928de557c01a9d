use std::collections::BTreeSet;

use defmt_core::directive::{validate_identifier, validate_module_path, Directive, FilterError};
use defmt_core::env_filter::EnvFilter;
use defmt_core::level::{from_str, Level};

fn paths(filter: &EnvFilter, level: Level) -> BTreeSet<String> {
    filter
        .paths_for_level(level)
        .into_iter()
        .map(|path| path.to_string())
        .collect()
}

fn set(items: &[&str]) -> BTreeSet<String> {
    items.iter().map(|item| item.to_string()).collect()
}

#[test]
fn when_duplicates_entries_in_defmt_log_use_last_entry() {
    let env_filter = EnvFilter::new(Some("krate=info,krate=debug"), "krate").unwrap();
    assert_eq!(set(&["krate"]), paths(&env_filter, Level::Debug));
    assert_eq!(set(&[]), paths(&env_filter, Level::Trace));
}

#[test]
fn when_empty_defmt_log_use_error() {
    let env_filter = EnvFilter::new(None, "krate").unwrap();
    assert_eq!(set(&["krate"]), paths(&env_filter, Level::Error));
    assert_eq!(set(&[]), paths(&env_filter, Level::Warn));
}

#[test]
fn when_no_level_in_defmt_log_use_trace() {
    let env_filter = EnvFilter::new(Some("krate"), "krate").unwrap();
    assert_eq!(set(&["krate"]), paths(&env_filter, Level::Trace));
}

#[test]
fn when_level_in_defmt_log_use_it() {
    let env_filter = EnvFilter::new(Some("krate=info"), "krate").unwrap();
    assert_eq!(set(&["krate"]), paths(&env_filter, Level::Info));
    assert_eq!(set(&[]), paths(&env_filter, Level::Debug));
}

#[test]
fn when_only_level_is_specified_in_defmt_log_it_applies_to_all_crates() {
    let env_filter = EnvFilter::new(Some("info"), "krate").unwrap();
    assert_eq!(set(&["krate"]), paths(&env_filter, Level::Info));
    assert_eq!(set(&[]), paths(&env_filter, Level::Debug));
}

#[test]
fn moduleless_level_has_lower_precedence() {
    let env_filter = EnvFilter::new(Some("krate=info,warn"), "krate").unwrap();
    assert_eq!(set(&["krate"]), paths(&env_filter, Level::Info));
    assert_eq!(set(&[]), paths(&env_filter, Level::Debug));
}

#[test]
fn moduleless_level_behaves_like_a_krate_level_pair() {
    let env_filter = EnvFilter::new(Some("krate::module=info,warn"), "krate").unwrap();
    assert_eq!(
        set(&["krate", "krate::module"]),
        paths(&env_filter, Level::Warn)
    );
    assert_eq!(set(&["krate::module"]), paths(&env_filter, Level::Info));
    assert_eq!(set(&[]), paths(&env_filter, Level::Debug));
}

#[test]
fn module_paths_different_levels() {
    let env_filter = EnvFilter::new(Some("krate=info,krate::module=debug"), "krate").unwrap();
    assert_eq!(
        set(&["krate", "krate::module"]),
        paths(&env_filter, Level::Info)
    );
    assert_eq!(set(&["krate::module"]), paths(&env_filter, Level::Debug));
    assert_eq!(set(&[]), paths(&env_filter, Level::Trace));
}

#[test]
#[should_panic]
fn invalid_identifier() {
    EnvFilter::new(Some("krate::some-module"), "krate").unwrap();
}

#[test]
#[should_panic]
fn reject_empty_module_path() {
    EnvFilter::new(Some("=info"), "krate").unwrap();
}

#[test]
fn invalid_identifier_names_the_segment() {
    let error = EnvFilter::new(Some("krate::some-module"), "krate").unwrap_err();
    assert_eq!(
        error,
        FilterError::InvalidIdentifier("some-module".to_string())
    );
    assert_eq!(error.message(), "`some-module` is not a valid identifier");
}

#[test]
fn empty_module_path_is_reported() {
    let error = EnvFilter::new(Some("=info"), "krate").unwrap_err();
    assert_eq!(error, FilterError::EmptyModulePath);
    assert_eq!(error.message(), "module path cannot be an empty string");
}

#[test]
fn empty_filter_is_one_empty_directive() {
    assert_eq!(
        EnvFilter::new(Some(""), "krate").unwrap_err(),
        FilterError::EmptyModulePath
    );
    assert_eq!(
        EnvFilter::new(Some("krate,"), "krate").unwrap_err(),
        FilterError::EmptyModulePath
    );
}

#[test]
fn unknown_level_is_reported() {
    let error = EnvFilter::new(Some("krate=verbose"), "krate").unwrap_err();
    assert_eq!(error, FilterError::UnknownLevel("verbose".to_string()));
    assert_eq!(error.message(), "`verbose` is not a log level");
    assert_eq!(
        EnvFilter::new(Some("krate=INFO"), "krate").unwrap_err(),
        FilterError::UnknownLevel("INFO".to_string())
    );
    assert_eq!(
        EnvFilter::new(Some("krate="), "krate").unwrap_err(),
        FilterError::UnknownLevel(String::new())
    );
}

#[test]
fn directive_is_split_at_its_last_equals_sign() {
    assert_eq!(
        EnvFilter::new(Some("a=b=info"), "krate").unwrap_err(),
        FilterError::InvalidIdentifier("a=b".to_string())
    );
    assert_eq!(
        EnvFilter::new(Some("krate=info=x"), "krate").unwrap_err(),
        FilterError::UnknownLevel("x".to_string())
    );
}

#[test]
fn rightmost_malformed_directive_is_the_one_reported() {
    assert_eq!(
        EnvFilter::new(Some("a-b,krate=loud"), "krate").unwrap_err(),
        FilterError::UnknownLevel("loud".to_string())
    );
    assert_eq!(
        EnvFilter::new(Some("krate=loud,a-b"), "krate").unwrap_err(),
        FilterError::InvalidIdentifier("a-b".to_string())
    );
    assert_eq!(
        EnvFilter::new(Some("=loud"), "krate").unwrap_err(),
        FilterError::UnknownLevel("loud".to_string())
    );
}

#[test]
fn leftmost_bad_segment_is_the_one_reported() {
    assert_eq!(
        EnvFilter::new(Some("krate::a-b::c-d"), "krate").unwrap_err(),
        FilterError::InvalidIdentifier("a-b".to_string())
    );
    assert_eq!(
        EnvFilter::new(Some("krate::"), "krate").unwrap_err(),
        FilterError::InvalidIdentifier(String::new())
    );
    assert_eq!(
        EnvFilter::new(Some("krate:::x"), "krate").unwrap_err(),
        FilterError::InvalidIdentifier(":x".to_string())
    );
}

#[test]
fn reserved_words_and_groups_are_no_identifiers() {
    assert!(validate_identifier("krate").is_ok());
    assert!(validate_identifier("some_module2").is_ok());
    assert!(validate_identifier("r#fn").is_ok());
    assert_eq!(
        validate_identifier("fn"),
        Err(FilterError::InvalidIdentifier("fn".to_string()))
    );
    assert!(validate_identifier("_").is_err());
    assert!(validate_identifier("").is_err());
    assert!(validate_identifier("1krate").is_err());
    assert!(validate_identifier("a b").is_err());
    assert!(validate_identifier("(krate)").is_err());
    assert!(validate_identifier("krate[0]").is_err());
    assert!(validate_identifier("{").is_err());
}

#[test]
fn module_paths_are_checked_segment_by_segment() {
    assert_eq!(validate_module_path("krate::module::inner"), Ok(()));
    assert_eq!(validate_module_path(""), Err(FilterError::EmptyModulePath));
    assert_eq!(
        validate_module_path("krate::mod"),
        Err(FilterError::InvalidIdentifier("mod".to_string()))
    );
}

#[test]
fn directives_are_read_in_their_three_forms() {
    assert_eq!(
        Directive::parse("krate::module=warn"),
        Ok(Directive::Path {
            path: "krate::module".to_string(),
            level: Level::Warn
        })
    );
    assert_eq!(
        Directive::parse("krate"),
        Ok(Directive::Path {
            path: "krate".to_string(),
            level: Level::Trace
        })
    );
    assert_eq!(Directive::parse("debug"), Ok(Directive::Fallback(Level::Debug)));
    assert_eq!(
        Directive::parse("debug=debug"),
        Ok(Directive::Path {
            path: "debug".to_string(),
            level: Level::Debug
        })
    );
}

#[test]
fn level_keywords_are_case_sensitive() {
    assert_eq!(from_str("trace"), Ok(Level::Trace));
    assert_eq!(from_str("debug"), Ok(Level::Debug));
    assert_eq!(from_str("info"), Ok(Level::Info));
    assert_eq!(from_str("warn"), Ok(Level::Warn));
    assert_eq!(from_str("error"), Ok(Level::Error));
    assert_eq!(from_str("Error"), Err(()));
    assert_eq!(from_str(""), Err(()));
    assert_eq!(from_str("warning"), Err(()));
    for level in [Level::Trace, Level::Debug, Level::Info, Level::Warn, Level::Error] {
        assert_eq!(from_str(level.keyword()), Ok(level));
    }
}

#[test]
fn levels_are_ordered_from_trace_to_error() {
    let levels = [Level::Trace, Level::Debug, Level::Info, Level::Warn, Level::Error];
    for (i, a) in levels.iter().enumerate() {
        assert_eq!(a.ordinal() as usize, i);
        for (j, b) in levels.iter().enumerate() {
            assert_eq!(a.at_least(*b), i >= j);
            assert_eq!(a >= b, i >= j);
        }
    }
}

#[test]
fn first_fallback_from_the_right_is_used() {
    let env_filter = EnvFilter::new(Some("info,debug"), "krate").unwrap();
    assert_eq!(set(&["krate"]), paths(&env_filter, Level::Debug));
    assert_eq!(set(&[]), paths(&env_filter, Level::Trace));
}

#[test]
fn paths_of_other_packages_are_dropped() {
    let env_filter = EnvFilter::new(Some("other=trace,other::module=trace"), "krate").unwrap();
    assert_eq!(set(&[]), paths(&env_filter, Level::Warn));
    assert_eq!(set(&["krate"]), paths(&env_filter, Level::Error));
}

#[test]
fn package_containment_is_a_plain_prefix_test() {
    let env_filter = EnvFilter::new(Some("kratextra=info"), "krate").unwrap();
    assert_eq!(set(&["kratextra"]), paths(&env_filter, Level::Info));
    assert_eq!(
        set(&["krate", "kratextra"]),
        paths(&env_filter, Level::Error)
    );
}

#[test]
fn paths_come_out_in_increasing_order() {
    let env_filter =
        EnvFilter::new(Some("krate::b,krate::a::z,krate,krate::a"), "krate").unwrap();
    assert_eq!(
        env_filter.paths_for_level(Level::Trace),
        vec!["krate", "krate::a", "krate::a::z", "krate::b"]
    );
}

#[test]
fn building_twice_gives_the_same_table() {
    let input = "krate::module=info,warn,krate=debug,krate::module=trace,other";
    let first = EnvFilter::new(Some(input), "krate").unwrap();
    let second = EnvFilter::new(Some(input), "krate").unwrap();
    for level in [Level::Trace, Level::Debug, Level::Info, Level::Warn, Level::Error] {
        assert_eq!(first.paths_for_level(level), second.paths_for_level(level));
    }
    assert_eq!(
        EnvFilter::new(Some("krate=loud"), "krate").unwrap_err(),
        EnvFilter::new(Some("krate=loud"), "krate").unwrap_err()
    );
}

#[test]
fn table_from_directives_lets_the_later_directive_win() {
    let directives = vec![
        Directive::Path {
            path: "krate".to_string(),
            level: Level::Info,
        },
        Directive::Fallback(Level::Warn),
        Directive::Path {
            path: "krate".to_string(),
            level: Level::Debug,
        },
        Directive::Path {
            path: "krate::module".to_string(),
            level: Level::Error,
        },
    ];
    let env_filter = EnvFilter::from_directives(&directives, "krate");
    assert_eq!(set(&["krate"]), paths(&env_filter, Level::Debug));
    assert_eq!(
        set(&["krate", "krate::module"]),
        paths(&env_filter, Level::Error)
    );
    let env_filter = EnvFilter::from_directives(&[Directive::Fallback(Level::Warn)].to_vec(), "k");
    assert_eq!(set(&["k"]), paths(&env_filter, Level::Warn));
    assert_eq!(set(&[]), paths(&env_filter, Level::Info));
}

#[test]
fn no_predicate_where_nothing_may_emit() {
    let env_filter = EnvFilter::new(None, "krate").unwrap();
    assert!(env_filter.path_check(Level::Warn).is_none());
    assert!(env_filter.path_check(Level::Error).is_some());
}

#[test]
fn predicate_matches_whole_segments() {
    let env_filter = EnvFilter::new(Some("krate"), "krate").unwrap();
    let check = env_filter.path_check(Level::Trace).unwrap();
    assert_eq!(check.needles(), &vec!["krate".to_string()]);
    assert!(check.matches(b"krate"));
    assert!(check.matches(b"krate::module::inner"));
    assert!(!check.matches(b"kratex"));
    assert!(!check.matches(b"krat"));
    assert!(!check.matches(b""));
    assert!(!check.matches(b"other::krate"));
}

#[test]
fn predicate_tests_only_the_first_byte_of_the_separator() {
    let env_filter = EnvFilter::new(Some("krate"), "krate").unwrap();
    let check = env_filter.path_check(Level::Trace).unwrap();
    assert!(check.matches(b"krate:"));
    assert!(check.matches(b"krate:x"));
}

#[test]
fn predicate_is_satisfied_by_any_of_its_paths() {
    let env_filter = EnvFilter::new(Some("krate::a=info,krate::b=debug,error"), "krate").unwrap();
    let check = env_filter.path_check(Level::Info).unwrap();
    assert_eq!(
        check.needles(),
        &vec!["krate::a".to_string(), "krate::b".to_string()]
    );
    assert!(check.matches(b"krate::a"));
    assert!(check.matches(b"krate::b::c"));
    assert!(!check.matches(b"krate"));
    assert!(!check.matches(b"krate::c"));
    assert!(!check.matches(b"krate::ab"));
    let check = env_filter.path_check(Level::Debug).unwrap();
    assert!(!check.matches(b"krate::a"));
    assert!(check.matches(b"krate::b"));
}

#[test]
fn predicate_compares_bytes_of_paths_beyond_ascii() {
    let env_filter = EnvFilter::new(Some("krate::caf\u{e9}"), "krate").unwrap();
    let check = env_filter.path_check(Level::Trace).unwrap();
    assert!(check.matches("krate::caf\u{e9}".as_bytes()));
    assert!(check.matches("krate::caf\u{e9}::x".as_bytes()));
    assert!(!check.matches("krate::cafe".as_bytes()));
}
