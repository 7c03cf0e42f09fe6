use twinleaf::filter::ColumnFilter;
use twinleaf::route::DeviceRoute;

fn route(s: &str) -> DeviceRoute {
    DeviceRoute::from_str(s).unwrap()
}

#[test]
fn test_bare_stream_name() {
    // "vector" matches stream named vector at any depth
    let filter = ColumnFilter::new("vector").unwrap();
    assert!(filter.matches(&route("/"), "vector", "x"));
    assert!(filter.matches(&route("/0"), "vector", "y"));
    assert!(filter.matches(&route("/0/1"), "vector", "z"));
    assert!(!filter.matches(&route("/0"), "accel", "x"));
}

#[test]
fn test_column_anywhere() {
    // "**/x" matches column x in any stream at any depth
    let filter = ColumnFilter::new("**/x").unwrap();
    assert!(filter.matches(&route("/"), "vector", "x"));
    assert!(filter.matches(&route("/0"), "accel", "x"));
    assert!(filter.matches(&route("/0/1/2"), "gmr", "x"));
    assert!(!filter.matches(&route("/0"), "vector", "y"));
}

#[test]
fn test_stream_anywhere_explicit() {
    // "**/vector/**" matches stream vector at any depth
    let filter = ColumnFilter::new("**/vector/**").unwrap();
    assert!(filter.matches(&route("/"), "vector", "x"));
    assert!(filter.matches(&route("/0/1"), "vector", "y"));
    assert!(!filter.matches(&route("/0"), "accel", "x"));
}

#[test]
fn test_exact_stream_path() {
    // "/0/vector/**" matches all columns in that exact stream
    let filter = ColumnFilter::new("/0/vector/**").unwrap();
    assert!(filter.matches(&route("/0"), "vector", "x"));
    assert!(filter.matches(&route("/0"), "vector", "y"));
    assert!(!filter.matches(&route("/1"), "vector", "x"));
    assert!(!filter.matches(&route("/0"), "accel", "x"));
}

#[test]
fn test_exact_column() {
    // "/0/vector/x" matches exactly that column
    let filter = ColumnFilter::new("/0/vector/x").unwrap();
    assert!(filter.matches(&route("/0"), "vector", "x"));
    assert!(!filter.matches(&route("/0"), "vector", "y"));
    assert!(!filter.matches(&route("/1"), "vector", "x"));
}

#[test]
fn test_wildcard_stream() {
    // "/0/*/x" matches column x in any stream at route /0
    let filter = ColumnFilter::new("/0/*/x").unwrap();
    assert!(filter.matches(&route("/0"), "vector", "x"));
    assert!(filter.matches(&route("/0"), "accel", "x"));
    assert!(!filter.matches(&route("/0"), "vector", "y"));
    assert!(!filter.matches(&route("/1"), "vector", "x"));
}

#[test]
fn test_recursive_route() {
    // "/0/**" matches everything under route /0
    let filter = ColumnFilter::new("/0/**").unwrap();
    assert!(filter.matches(&route("/0"), "vector", "x"));
    assert!(filter.matches(&route("/0"), "accel", "y"));
    assert!(filter.matches(&route("/0/1"), "gmr", "z"));
    assert!(!filter.matches(&route("/1"), "vector", "x"));
}

#[test]
fn test_root_stream() {
    // "/vector/**" matches stream at root route
    let filter = ColumnFilter::new("/vector/**").unwrap();
    assert!(filter.matches(&route("/"), "vector", "x"));
    assert!(filter.matches(&route("/"), "vector", "y"));
    assert!(!filter.matches(&route("/0"), "vector", "x"));
}

#[test]
fn test_nested_route_stream() {
    // "/0/1/vector/**" matches stream at nested route
    let filter = ColumnFilter::new("/0/1/vector/**").unwrap();
    assert!(filter.matches(&route("/0/1"), "vector", "x"));
    assert!(!filter.matches(&route("/0"), "vector", "x"));
    assert!(!filter.matches(&route("/0/1/2"), "vector", "x"));
}

#[test]
fn test_wildcard_column() {
    // "/0/vector/*" matches all columns in specific stream
    let filter = ColumnFilter::new("/0/vector/*").unwrap();
    assert!(filter.matches(&route("/0"), "vector", "x"));
    assert!(filter.matches(&route("/0"), "vector", "y"));
    assert!(filter.matches(&route("/0"), "vector", "z"));
    assert!(!filter.matches(&route("/0"), "accel", "x"));
}

#[test]
fn normalize_expands_short_forms() {
    assert_eq!(ColumnFilter::normalize_pattern("vector"), "**/vector/**");
    assert_eq!(ColumnFilter::normalize_pattern("  vector\t"), "**/vector/**");
    assert_eq!(ColumnFilter::normalize_pattern("**/x"), "**/*/x");
    assert_eq!(ColumnFilter::normalize_pattern("**/0"), "**/0");
    assert_eq!(ColumnFilter::normalize_pattern("**/vector/x"), "**/vector/x");
    assert_eq!(ColumnFilter::normalize_pattern("**/vector/**"), "**/vector/**");
    assert_eq!(ColumnFilter::normalize_pattern("/0/vector/x"), "/0/vector/x");
    assert_eq!(ColumnFilter::normalize_pattern("/0/*/x"), "/0/*/x");
    assert_eq!(ColumnFilter::normalize_pattern("   "), "");
    assert_eq!(ColumnFilter::normalize_pattern(""), "");
}

#[test]
fn empty_pattern_matches_nothing() {
    let filter = ColumnFilter::new("").unwrap();
    assert!(!filter.matches(&route("/"), "vector", "x"));
    assert!(!filter.matches(&route("/0"), "vector", "x"));
}

#[test]
fn path_string_joins_route_stream_and_column() {
    let filter = ColumnFilter::new("vector").unwrap();
    assert_eq!(filter.get_path_string(&route("/"), "vector", "x"), "/vector/x");
    assert_eq!(filter.get_path_string(&route("/0"), "vector", "x"), "/0/vector/x");
    assert_eq!(filter.get_path_string(&route("/0/1/254"), "accel", "y"), "/0/1/254/accel/y");
}

#[test]
fn matches_agrees_with_pattern_on_path_string() {
    let patterns = ["vector", "**/x", "/0/*/x", "/0/**", "/vector/**", "/0/1/vector/y"];
    let routes = ["/", "/0", "/0/1", "/1"];
    let streams = ["vector", "accel"];
    let columns = ["x", "y"];
    for p in patterns {
        let filter = ColumnFilter::new(p).unwrap();
        let compiled = glob::Pattern::new(&ColumnFilter::normalize_pattern(p)).unwrap();
        for r in routes {
            for s in streams {
                for c in columns {
                    let path = filter.get_path_string(&route(r), s, c);
                    let options = glob::MatchOptions {
                        case_sensitive: true,
                        require_literal_separator: true,
                        require_literal_leading_dot: false,
                    };
                    assert_eq!(filter.matches(&route(r), s, c), compiled.matches_with(&path, options));
                }
            }
        }
    }
}

#[test]
fn invalid_pattern_is_reported() {
    let err = match ColumnFilter::new("a**/b") {
        Ok(_) => panic!("pattern should not compile"),
        Err(e) => e,
    };
    assert_eq!(
        err,
        "Invalid glob pattern: Pattern syntax error near position 0: recursive wildcards must form a single path component"
    );
    assert!(ColumnFilter::new("/0/[x").is_err());
    assert!(ColumnFilter::new("***").is_err());
}

#[test]
fn alphabetic_name_needs_a_letter() {
    assert!(ColumnFilter::is_alphabetic_name("x"));
    assert!(ColumnFilter::is_alphabetic_name("0a"));
    assert!(!ColumnFilter::is_alphabetic_name("012"));
    assert!(!ColumnFilter::is_alphabetic_name(""));
    assert!(!ColumnFilter::is_alphabetic_name("*"));
}

#[test]
fn star_stays_within_one_level() {
    let filter = ColumnFilter::new("/0/*/x").unwrap();
    assert!(filter.matches(&route("/0"), "vector", "x"));
    assert!(!filter.matches(&route("/0/1"), "vector", "x"));
    let filter = ColumnFilter::new("/0/*").unwrap();
    assert!(!filter.matches(&route("/0"), "vector", "x"));
    let filter = ColumnFilter::new("/*/*").unwrap();
    assert!(filter.matches(&route("/"), "vector", "x"));
    assert!(!filter.matches(&route("/0"), "vector", "x"));
    let filter = ColumnFilter::new("/0/v*/x").unwrap();
    assert!(filter.matches(&route("/0"), "vector", "x"));
    assert!(!filter.matches(&route("/0"), "accel", "x"));
}

#[test]
fn double_star_spans_levels() {
    let filter = ColumnFilter::new("/**/x").unwrap();
    assert!(filter.matches(&route("/"), "vector", "x"));
    assert!(filter.matches(&route("/0/1/2"), "vector", "x"));
    assert!(!filter.matches(&route("/0/1/2"), "vector", "y"));
    let filter = ColumnFilter::new("**").unwrap();
    assert!(filter.matches(&route("/0/1"), "vector", "x"));
}

#[test]
fn matching_minds_case_and_not_dots() {
    let filter = ColumnFilter::new("/Vector/*").unwrap();
    assert!(filter.matches(&route("/"), "Vector", "x"));
    assert!(!filter.matches(&route("/"), "vector", "x"));
    let filter = ColumnFilter::new("/*/x").unwrap();
    assert!(filter.matches(&route("/"), ".hidden", "x"));
}

#[test]
fn stream_name_and_column_anywhere() {
    let by_stream = ColumnFilter::new("vector").unwrap();
    assert!(by_stream.matches(&route("/0/1"), "vector", "x"));
    assert!(!by_stream.matches(&route("/"), "accel", "x"));
    let by_column = ColumnFilter::new("**/x").unwrap();
    assert!(by_column.matches(&route("/0"), "vector", "x"));
    assert!(!by_column.matches(&route("/0"), "vector", "y"));
}

#[test]
fn characters_below_128_are_classified_by_their_number() {
    for n in 0u8..128 {
        let c = n as char;
        let space = n == 32 || (9..=13).contains(&n);
        let letter = (65..=90).contains(&n) || (97..=122).contains(&n);
        assert_eq!(ColumnFilter::is_alphabetic_name(&c.to_string()), letter, "character {}", n);
        // White space is trimmed from an exact path, and nothing else is.
        let kept = if space { "/a/b".to_string() } else { format!("{}/a/b", c) };
        assert_eq!(ColumnFilter::normalize_pattern(&format!("{}/a/b", c)), kept, "character {}", n);
        let kept = if space { "/a/b".to_string() } else { format!("/a/b{}", c) };
        assert_eq!(ColumnFilter::normalize_pattern(&format!("/a/b{}", c)), kept, "character {}", n);
    }
}

#[test]
fn characters_beyond_ascii_are_classified_too() {
    assert_eq!(ColumnFilter::normalize_pattern("\u{00a0}/a/b\u{2003}"), "/a/b");
    assert!(ColumnFilter::is_alphabetic_name("\u{00e9}"));
    assert!(!ColumnFilter::is_alphabetic_name("\u{20ac}"));
    assert_eq!(ColumnFilter::normalize_pattern("\u{20ac}/a"), "\u{20ac}/a");
}

#[test]
fn normalized_patterns_normalize_to_themselves() {
    for text in ["", "  ", "vector", " vector ", "**/x", "**/12", "*", "/0/vector/x", "a*b", "**/a/b", "**/*/x", "[", "**/"] {
        let once = ColumnFilter::normalize_pattern(text);
        assert_eq!(ColumnFilter::normalize_pattern(&once), once, "pattern {:?}", text);
    }
    assert_eq!(ColumnFilter::normalize_pattern("vector"), "**/vector/**");
    assert_eq!(ColumnFilter::normalize_pattern(" vector\t"), "**/vector/**");
    assert_eq!(ColumnFilter::normalize_pattern("**/x"), "**/*/x");
    assert_eq!(ColumnFilter::normalize_pattern("**/12"), "**/12");
    assert_eq!(ColumnFilter::normalize_pattern("/0/vector/x"), "/0/vector/x");
    assert_eq!(ColumnFilter::normalize_pattern(""), "");
}
