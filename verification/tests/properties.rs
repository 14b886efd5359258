use gitfilter::{Error, Matcher, PathExt, Pattern, PatternSet, Prefix, RawPattern};

fn matcher(groups: &[(&str, &[&str])]) -> Matcher {
    let mut patterns: Vec<Pattern> = Vec::new();
    for (root, group) in groups {
        for pattern in *group {
            patterns.push(Pattern::new(pattern, root).unwrap());
        }
    }
    PatternSet::from(patterns).into_matcher().unwrap()
}

#[test]
fn depth_independence_of_unrooted_rules() {
    let m = matcher(&[("", &["*.log"])]);
    assert!(m.matches("debug.log", false));
    assert!(m.matches("a/debug.log", false));
    assert!(m.matches("a/b/c/d/debug.log", true));
    assert!(!m.matches("debug.log/trace", false));
}

#[test]
fn anchored_rules_match_at_fixed_depth_only() {
    let m = matcher(&[("", &["/build"])]);
    assert!(m.matches("build", false));
    assert!(!m.matches("sub/build", false));
    assert!(!m.matches("a/b/build", true));
}

#[test]
fn internal_slash_anchors_without_leading_slash() {
    let m = matcher(&[("", &["doc/frotz"])]);
    assert!(m.matches("doc/frotz", false));
    assert!(!m.matches("a/doc/frotz", false));
}

#[test]
fn dir_only_rule_ignores_files() {
    let m = matcher(&[("", &["cache/"])]);
    assert!(!m.matches("cache", false));
    assert!(m.matches("cache", true));
    assert!(m.matches("a/b/cache", true));
    assert!(!m.matches("a/b/cache", false));
}

#[test]
fn negation_clears_but_never_sets() {
    let m = matcher(&[("", &["*.rs", "!foo.rs"])]);
    assert!(!m.matches("foo.rs", false));
    assert!(m.matches("bar.rs", false));
    // the unrooted negation clears at any depth
    assert!(!m.matches("sub/foo.rs", false));
    // a lone negation excludes nothing
    let lone = matcher(&[("", &["!foo.rs"])]);
    assert!(!lone.matches("foo.rs", false));
    assert!(!lone.matches("bar.rs", false));
}

#[test]
fn declaration_order_decides_the_verdict() {
    let positive_last = matcher(&[("", &["!foo.rs", "*.rs"])]);
    let negative_last = matcher(&[("", &["*.rs", "!foo.rs"])]);
    // same rules, opposite order, divergent verdict on a shared input
    assert!(positive_last.matches("foo.rs", false));
    assert!(!negative_last.matches("foo.rs", false));
    // inputs only one rule speaks about are unaffected by the swap
    assert!(positive_last.matches("bar.rs", false));
    assert!(negative_last.matches("bar.rs", false));
}

#[test]
fn end_to_end_precedence() {
    let m = matcher(&[("", &["a/b/c/**", "!important"])]);
    assert!(m.matches("a/b/c/d", false));
    // the unrooted negation clears a path whose final segment it matches
    assert!(!m.matches("a/b/c/important", false));
    // `**` requires something below `c`
    assert!(!m.matches("a/b/c", false));
}

#[test]
fn dedot_laws() {
    assert_eq!(gitfilter::dedot("."), "");
    assert_eq!(gitfilter::dedot("a/../b"), "b");
    assert_eq!(gitfilter::dedot("/a/../../b"), "/b");
    for p in [
        "",
        ".",
        "..",
        "/",
        "a/../b",
        "/a/../../b",
        "a/./b/c/../d/",
        "//weird///path/./..",
        "../../x",
    ] {
        let once = gitfilter::dedot(p);
        assert_eq!(gitfilter::dedot(&once), once, "dedot not idempotent on {:?}", p);
    }
}

#[test]
fn dedot_components_drops_dots() {
    assert_eq!(gitfilter::dedot_components("a/./b/../c"), vec!["a", "c"]);
    assert_eq!(gitfilter::dedot_components("/x/y"), vec!["x", "y"]);
    assert!(gitfilter::dedot_components("..").is_empty());
}

#[test]
fn dedot_from_resolves_against_base() {
    assert_eq!(gitfilter::dedot_from("x", "a"), "a/x");
    assert_eq!(gitfilter::dedot_from("../x", "a/b"), "a/x");
    assert_eq!(gitfilter::dedot_from("x", "a/"), "a/x");
    // a rooted path ignores the base entirely
    assert_eq!(gitfilter::dedot_from("/x", "a"), "/x");
    assert_eq!(gitfilter::dedot_from("x", ""), "x");
}

#[test]
fn strip_prefix_round_trips() {
    for (path, prefix) in [
        ("foo/bar", "foo/"),
        ("foo/bar", ""),
        ("foobar", "foo"),
        ("foobar", "foobar"),
    ] {
        let rest = gitfilter::strip_prefix(path, prefix).unwrap();
        assert_eq!(format!("{}{}", prefix, rest), path);
    }
    assert!(gitfilter::strip_prefix("foo", "bar").is_none());
    assert!(gitfilter::strip_prefix("foo", "foo/bar").is_none());
}

#[test]
fn normalizer_basics() {
    assert_eq!(gitfilter::to_normalized_string_lossy("a/b"), "a/b");
    assert!(gitfilter::has_trailing_slash("a/"));
    assert!(!gitfilter::has_trailing_slash("a"));
    assert!(!gitfilter::has_trailing_slash(""));
    assert!(gitfilter::is_empty(""));
    assert!(!gitfilter::is_empty("a"));
}

#[test]
fn raw_pattern_classification() {
    let raw = RawPattern::new("!/foo/");
    assert!(matches!(raw.prefix(), Prefix::NegativeRoot));
    assert_eq!(raw.path(), "foo");
    assert!(raw.rooted());
    assert!(raw.negative());
    assert!(raw.dir_only());

    let raw = RawPattern::new("!foo");
    assert!(matches!(raw.prefix(), Prefix::Negative));
    assert_eq!(raw.path(), "foo");
    assert!(!raw.rooted());
    assert!(raw.negative());
    assert!(!raw.dir_only());

    let raw = RawPattern::new("/foo");
    assert!(matches!(raw.prefix(), Prefix::Root));
    assert!(raw.rooted());
    assert!(!raw.negative());

    let raw = RawPattern::new("doc/frotz");
    assert!(matches!(raw.prefix(), Prefix::Plain));
    assert_eq!(raw.path(), "doc/frotz");
    assert!(raw.rooted());

    let raw = RawPattern::new("frotz");
    assert!(matches!(raw.prefix(), Prefix::Plain));
    assert!(!raw.rooted());
}

#[test]
fn invalid_glob_reports_compile_error() {
    let r = Pattern::new("[", "");
    assert!(matches!(r, Err(Error::Glob(_))));
    // the same rule poisons a set when the matcher is built
    let good = Pattern::new("*.rs", "").unwrap();
    let mut set = PatternSet::new();
    set.add(good);
    assert!(set.into_matcher().is_ok());
}

#[test]
fn canonical_text_round_trips() {
    let p = Pattern::new("!foo.rs", "").unwrap();
    assert_eq!(p.to_canonical_text(), "!**/foo.rs");
    let p = Pattern::new("/foo", "/base").unwrap();
    assert_eq!(p.to_canonical_text(), "/base/foo");
    let p = Pattern::new("cache/", "").unwrap();
    assert_eq!(p.to_canonical_text(), "**/cache/");
    // re-parsing the canonical text preserves the verdicts
    let q = Pattern::new("!foo.rs", "").unwrap();
    let text = q.to_canonical_text();
    let m = matcher(&[("", &["*.rs"])]);
    let n = {
        let mut patterns = vec![Pattern::new("*.rs", "").unwrap()];
        patterns.push(Pattern::new(&text, "").unwrap());
        PatternSet::from(patterns).into_matcher().unwrap()
    };
    assert!(m.matches("foo.rs", false));
    assert!(!n.matches("foo.rs", false));
}

#[test]
fn invert_flips_the_exception_flag() {
    let inverted = Pattern::new("*.rs", "").unwrap().invert();
    let m = inverted.into_matcher().unwrap();
    // an exception rule alone excludes nothing
    assert!(!m.matches("foo.rs", false));
    let back = Pattern::new("*.rs", "").unwrap().invert().invert();
    let m = back.into_matcher().unwrap();
    assert!(m.matches("foo.rs", false));
}

#[test]
fn with_root_reanchors_a_rule() {
    let p = Pattern::new("/foo", "/a").unwrap();
    let q = p.with_root("/b").unwrap();
    let m = q.into_matcher().unwrap();
    assert!(m.matches("/b/a/foo", false));
    assert!(!m.matches("/a/foo", false));
}

#[test]
fn dedotted_resolves_below_the_root() {
    let p = Pattern::new("a/../b", "/r").unwrap();
    assert_eq!(p.to_canonical_text(), "/r/a/../b");
    let d = p.dedotted().unwrap();
    assert_eq!(d.to_canonical_text(), "/r/b");
    let m = d.into_matcher().unwrap();
    assert!(m.matches("/r/b", false));
    assert!(!m.matches("/x/b", false));
}

#[test]
fn rootful_dedotted_resolves_through_the_root() {
    let p = Pattern::new("b/../c", "/r/..").unwrap();
    let d = p.rootful_dedotted().unwrap();
    assert_eq!(d.to_canonical_text(), "/c");
    let m = d.into_matcher().unwrap();
    assert!(m.matches("/c", false));
}

#[test]
fn set_building_preserves_order() {
    let mut set = PatternSet::new();
    set.add(Pattern::new("*.rs", "").unwrap());
    set.extend(vec![
        Pattern::new("!foo.rs", "").unwrap(),
        Pattern::new("foo.rs/", "").unwrap(),
    ]);
    let viewed: Vec<String> = set
        .as_patterns()
        .iter()
        .map(|p| p.to_canonical_text())
        .collect();
    assert_eq!(viewed, vec!["**/*.rs", "!**/foo.rs", "**/foo.rs/"]);
    let patterns = set.into_iter();
    let texts: Vec<String> = patterns.iter().map(|p| p.to_canonical_text()).collect();
    assert_eq!(texts, vec!["**/*.rs", "!**/foo.rs", "**/foo.rs/"]);
    let single = Pattern::new("*.rs", "").unwrap().into_set();
    let m = single.into_matcher().unwrap();
    assert!(m.matches("x.rs", false));
}

#[test]
fn matcher_renders_its_rules() {
    let m = matcher(&[("", &["*.rs", "!foo.rs"])]);
    assert_eq!(m.to_text(), "[**/*.rs, !**/foo.rs]");
    let empty = PatternSet::new().into_matcher().unwrap();
    assert_eq!(empty.to_text(), "[]");
}

#[test]
fn pathext_methods_match_free_functions() {
    assert!("a/".has_trailing_slash());
    assert!(!"a".has_trailing_slash());
    assert!("".is_empty_path());
    assert!(!"a".is_empty_path());
    assert_eq!("a/../b".dedot(), "b");
    assert_eq!("../x".dedot_from("a/b"), "a/x");
    assert_eq!("a/b".to_normalized_string_lossy(), "a/b");
}

#[test]
fn cloned_pattern_behaves_identically() {
    let p = Pattern::new("*.rs", "/r").unwrap();
    let q = p.clone();
    let mp = p.into_matcher().unwrap();
    let mq = q.into_matcher().unwrap();
    for (path, is_dir) in [("/r/a.rs", false), ("/r/x/a.rs", true), ("a.rs", false)] {
        assert_eq!(mp.matches(path, is_dir), mq.matches(path, is_dir));
    }
}
