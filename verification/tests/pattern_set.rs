use gitfilter::{Matcher, Pattern, PatternSet};

fn is_match(matcher: &Matcher, path: &str) -> bool {
    let is_dir = gitfilter::has_trailing_slash(path);
    let path = path.strip_suffix('/').unwrap_or(path);
    matcher.matches(path, is_dir)
}

fn build(groups: &[(&str, &[&str])]) -> Matcher {
    let mut patterns: Vec<Pattern> = Vec::new();
    for (root, group) in groups {
        for pattern in *group {
            patterns.push(Pattern::new(pattern, root).unwrap());
        }
    }
    PatternSet::from(patterns).into_matcher().unwrap()
}

fn check(groups: &[(&str, &[&str])], good: &[&str], bad: &[&str]) {
    let matcher = build(groups);
    for path in good {
        assert!(is_match(&matcher, path), "failed to match {:?}", path);
    }
    for path in bad {
        assert!(!is_match(&matcher, path), "unexpectedly matched {:?}", path);
    }
}

#[test]
fn test_pattern_set_matches() {
    check(
        &[("", &["*.rs", "!foo.rs"])],
        &[
            "bar.rs",
            "baz.rs",
            "/bar.rs",
            "/fo.rs",
            "oo.rs",
            "a/foo/.rs",
            "a/.rs",
            "any/foo.rs/other.rs",
        ],
        &[
            "foo.rs",
            "a/foo.rs",
            "foo/foo.rs",
            "/foo/foo.rs",
            "/foo.rs",
            "/foo.rs/",
        ],
    );

    check(
        &[("/root/scratch", &["foo*", "!*.html"])],
        &[
            "/root/scratch/foo",
            "/root/scratch/foobar",
            "/root/scratch/foo",
            "/root/scratch/foo.rs",
        ],
        &[
            "foo",
            "foo.html",
            "/root/foobar",
            "/root/foo.html",
            "/root/scratch/foo.html",
            "/root/scratch/foobar.html",
            "/root/scratch/candy/foobar.html",
        ],
    );

    check(
        &[("", &["a/b/c/**", "!important"])],
        &[
            "a/b/c/d",
            "a/b/c/hi",
            "a/b/c/foo/bar/baz",
            "a/b/c/notimportant/hi",
            "a/b/c/important/sorry",
        ],
        &[
            "a",
            "a/",
            "a/b",
            "a/b/",
            "a/b/c",
            "a/b/c/",
            "a/b/c/important",
            "a/b/c/important/",
            "a/b/c/foobar/important",
        ],
    );

    check(
        &[
            ("/root/a", &["foo*", "!foobar"]),
            ("/root/b", &["bar*", "!barbaz"]),
        ],
        &[
            "/root/a/foo",
            "/root/a/foo/",
            "/root/a/foobarbaz",
            "/root/b/bar",
            "/root/b/bar/",
            "/root/b/barbarbaz",
        ],
        &[
            "/root/foo",
            "/root/foobarbaz",
            "root/foo",
            "root/foobar",
            "root/foobarbaz",
            "foo",
            "foobar",
            "foobarbaz",
            "/root/bar",
            "/root/barbaz",
            "/root/a/foo/bar",
            "/root/a/foo//",
            "/root/a/foobar",
            "/root/a/foobar/",
            "/root/a/b/foobar",
            "/root/a/b/foobar/",
            "/root/a/bar",
            "/root/a/barbaz",
            "root/b/bar",
            "root/b/bar/",
            "root/b/barbarbaz",
            "bar",
            "bar/",
            "barbarbaz",
            "/root/b/foo",
            "/root/b/foobar",
            "/root/hi/foo",
            "/root/hi/fobar",
            "/root/hi/bar",
            "/root/hi/barbaz",
        ],
    );

    // Later rules take precedence.
    check(
        &[("/root/html", &["foo*"]), ("/root", &["!foo"])],
        &[
            "/root/html/foobar",
            "/root/html/bar/foobar",
            "/root/html/foocice",
            "/root/html/hi/there/foocice",
            "/root/html/hi/there/food",
        ],
        &[
            "/root/foo",
            "/root/html/foo/bar",
            "/root/html/bar/foobar/foo",
            "/root/html/hi/there/foo",
            "/root/html/foo",
        ],
    );

    // Later rules take precedence.
    check(
        &[("/root", &["foo*"]), ("/root/html", &["!foo*", "!*bar"])],
        &["/root/foo", "/root/foobar"],
        &[
            "/root/catbar",
            "/root/html/foo",
            "/root/html/foobar",
            "/root/html/catbar",
            "/root/html/hi/foobar",
            "/root/html/hi/catbar",
        ],
    );
}
