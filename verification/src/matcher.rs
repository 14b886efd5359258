//! Ordered rule sets and the precedence-evaluation engine.
//!
//! A [`PatternSet`] collects compiled rules in declaration order; building
//! it batch-compiles every glob into one automaton and yields a
//! [`Matcher`], whose `matches` realizes "last rule to truly match wins",
//! where exception rules can only clear a standing exclusion and ordinary
//! rules can only set one.

use vstd::prelude::*;

use crate::engine::{
    builder_globs, glob_matches, globset_builder_add, globset_builder_build, globset_builder_new,
    globset_globs, globset_match_indices, globset_ok,
};
use crate::error::Error;
use crate::pattern::{canonical_text, lemma_pattern_view, Pattern, PatternV};

verus! {

/// The canonical texts of a rule list, joined with `, `.
pub open spec fn joined_texts(rules: Seq<PatternV>) -> Seq<char>
    decreases rules.len(),
{
    if rules.len() == 0 {
        Seq::empty()
    } else if rules.len() == 1 {
        canonical_text(rules[0])
    } else {
        joined_texts(rules.drop_last()) + seq![',', ' '] + canonical_text(rules.last())
    }
}

/// Whether one rule truly matches: its glob matched the path and, for a
/// directory-only rule, the candidate is a directory.
pub open spec fn true_match(rule: PatternV, path: Seq<char>, is_dir: bool) -> bool {
    glob_matches(rule.glob, path) && (!rule.dir_only || is_dir)
}

/// The verdict of an ordered rule list on `path`: the last rule that truly
/// matches decides — an ordinary rule excludes, an exception rule clears.
pub open spec fn excluded_spec(rules: Seq<PatternV>, path: Seq<char>, is_dir: bool) -> bool
    decreases rules.len(),
{
    if rules.len() == 0 {
        false
    } else if true_match(rules.last(), path, is_dir) {
        !rules.last().exception
    } else {
        excluded_spec(rules.drop_last(), path, is_dir)
    }
}

/// The models of a vector of compiled rules, in order.
pub open spec fn pattern_views(ps: Seq<Pattern>) -> Seq<PatternV> {
    ps.map_values(|p: Pattern| p@)
}

/// The glob texts of a rule sequence, in order.
pub open spec fn glob_texts(rules: Seq<PatternV>) -> Seq<Seq<char>> {
    rules.map_values(|r: PatternV| r.glob)
}

/// Ordered, append-only collection of rules; insertion order is the
/// precedence order and is preserved into the matcher.
pub struct PatternSet {
    patterns: Vec<Pattern>,
}

impl View for PatternSet {
    type V = Seq<PatternV>;

    closed spec fn view(&self) -> Seq<PatternV> {
        pattern_views(self.patterns@)
    }
}

/// The precedence-evaluation engine: the ordered rules plus one automaton
/// batch-compiled over all their globs in the same order. Immutable once
/// built.
pub struct Matcher {
    patterns: Vec<Pattern>,
    matcher: globset::GlobSet,
}

impl View for Matcher {
    type V = Seq<PatternV>;

    closed spec fn view(&self) -> Seq<PatternV> {
        pattern_views(self.patterns@)
    }
}

impl PatternSet {
    /// An empty rule set.
    pub fn new() -> (r: PatternSet)
        ensures
            r@ =~= Seq::<PatternV>::empty(),
    {
        PatternSet { patterns: Vec::new() }
    }

    /// Appends one rule, after every rule added so far.
    pub fn add(&mut self, pattern: Pattern)
        ensures
            final(self)@ =~= old(self)@.push(pattern@),
    {
        self.patterns.push(pattern);
    }

    /// Appends the given rules, preserving their order.
    pub fn extend(&mut self, patterns: Vec<Pattern>)
        ensures
            final(self)@ =~= old(self)@ + pattern_views(patterns@),
    {
        let ghost incoming: Seq<PatternV> = pattern_views(patterns@);
        let ghost sp0 = self.patterns@;
        let mut other = patterns;
        let ghost ov = other@;
        self.patterns.append(&mut other);
        proof {
            assert forall|j: int| 0 <= j < self.patterns@.len() implies pattern_views(
                self.patterns@,
            )[j] == (pattern_views(sp0) + incoming)[j] by {
                if j < sp0.len() {
                    assert(self.patterns@[j] == sp0[j]);
                } else {
                    assert(self.patterns@[j] == ov[j - sp0.len()]);
                }
            }
            assert(pattern_views(self.patterns@) =~= pattern_views(sp0) + incoming);
        }
    }

    /// Collects a vector of rules into a set, preserving their order.
    pub fn from(patterns: Vec<Pattern>) -> (r: PatternSet)
        ensures
            r@ == pattern_views(patterns@),
    {
        let mut set = PatternSet::new();
        set.extend(patterns);
        proof {
            assert(set@ =~= pattern_views(patterns@));
        }
        set
    }

    /// The read-only ordered view of the rules collected so far.
    pub fn as_patterns(&self) -> (r: &Vec<Pattern>)
        ensures
            pattern_views(r@) == self@,
    {
        &self.patterns
    }

    /// Hands the rules back out, in order.
    pub fn into_iter(self) -> (r: Vec<Pattern>)
        ensures
            pattern_views(r@) == self@,
    {
        self.patterns
    }

    /// Batch-compiles every member's glob text into one automaton, in
    /// order, and returns the matcher. Fails on the first member whose
    /// glob set the engine refuses, producing no partial matcher.
    pub fn into_matcher(self) -> (r: Result<Matcher, Error>)
        ensures
            r is Ok <==> globset_ok(glob_texts(self@)),
            r is Ok ==> r->Ok_0@ == self@,
    {
        let ghost rules: Seq<PatternV> = self@;
        let mut builder = globset_builder_new();
        let mut i: usize = 0;
        while i < self.patterns.len()
            invariant
                i <= self.patterns@.len(),
                rules == pattern_views(self.patterns@),
                builder_globs(builder) =~= glob_texts(rules.take(i as int)),
            decreases self.patterns@.len() - i,
        {
            let g = crate::engine::clone_glob(&self.patterns[i].glob);
            globset_builder_add(&mut builder, g);
            proof {
                lemma_pattern_view(self.patterns@[i as int]);
                assert(builder_globs(builder) =~= glob_texts(rules.take(i + 1 as int)));
            }
            i += 1;
        }
        proof {
            assert(rules.take(self.patterns@.len() as int) =~= rules);
        }
        match globset_builder_build(&builder) {
            Ok(gs) => Ok(Matcher { patterns: self.patterns, matcher: gs }),
            Err(e) => Err(Error::Glob(e)),
        }
    }
}

impl Matcher {
    #[verifier::type_invariant]
    closed spec fn wf(self) -> bool {
        globset_globs(self.matcher) == glob_texts(pattern_views(self.patterns@))
    }

    /// Decides whether `path` is excluded by the rule set, given that the
    /// caller knows whether the candidate is a directory.
    ///
    /// One batch query yields the ascending set of rules whose glob
    /// matched; one ordered scan then applies precedence. A rule already
    /// skipped while an exclusion stands cannot change the outcome, so the
    /// scan only re-examines exception rules once `excluded` is set.
    pub fn matches(&self, path: &str, is_dir: bool) -> (r: bool)
        ensures
            r == excluded_spec(self@, path@, is_dir),
    {
        proof {
            use_type_invariant(self);
        }
        let raw = globset_match_indices(&self.matcher, path);
        let n = self.patterns.len();
        let mut excluded = false;
        let mut match_i: usize = 0;
        let mut i: usize = 0;
        while i < n
            invariant
                i <= n,
                n == self.patterns@.len(),
                n == self@.len(),
                match_i <= raw@.len(),
                globset_globs(self.matcher) == glob_texts(self@),
                forall|k: int| 0 <= k < raw@.len() ==> (#[trigger] raw@[k]) < n,
                forall|k1: int, k2: int|
                    0 <= k1 < k2 < raw@.len() ==> #[trigger] raw@[k1] < #[trigger] raw@[k2],
                forall|j: int|
                    0 <= j < n ==> ((exists|k: int|
                        0 <= k < raw@.len() && (#[trigger] raw@[k]) as int == j)
                        <==> #[trigger] glob_matches(glob_texts(self@)[j], path@)),
                forall|k: int| 0 <= k < match_i ==> (#[trigger] raw@[k]) < i,
                forall|k: int| match_i <= k < raw@.len() ==> (#[trigger] raw@[k]) >= i,
                excluded == excluded_spec(self@.take(i as int), path@, is_dir),
            decreases n - i,
        {
            let matched_raw = match_i < raw.len() && raw[match_i] == i;
            proof {
                if matched_raw {
                    assert(glob_matches(glob_texts(self@)[i as int], path@));
                } else if glob_matches(glob_texts(self@)[i as int], path@) {
                    let k = choose|k: int|
                        0 <= k < raw@.len() && (#[trigger] raw@[k]) as int == i as int;
                    assert(match_i <= k);
                    assert(raw@[match_i as int] <= raw@[k]);
                    assert(false);
                }
                assert(matched_raw == glob_matches(self@[i as int].glob, path@));
                lemma_pattern_view(self.patterns@[i as int]);
            }
            if matched_raw {
                match_i += 1;
            }
            let p = &self.patterns[i];
            let ghost rule = self@[i as int];
            if excluded && !p.exception {
                // a further ordinary match cannot change the verdict
            } else {
                let tm = matched_raw && (!p.dir_only || is_dir);
                if tm {
                    excluded = !p.exception;
                }
            }
            proof {
                assert(self@.take(i + 1 as int).drop_last() =~= self@.take(i as int));
                assert(self@.take(i + 1 as int).last() == rule);
                assert(excluded == excluded_spec(self@.take(i + 1 as int), path@, is_dir));
            }
            i += 1;
        }
        proof {
            assert(self@.take(n as int) =~= self@);
        }
        excluded
    }

    /// Renders the rule list in canonical text form, bracketed and
    /// comma-separated.
    pub fn to_text(&self) -> (r: String)
        ensures
            r@ == seq!['['] + joined_texts(self@) + seq![']'],
    {
        let mut out = String::from_str("[");
        let ghost rules: Seq<PatternV> = self@;
        proof {
            reveal_strlit("[");
            assert(out@ =~= seq!['['] + joined_texts(rules.take(0int)));
        }
        let mut i: usize = 0;
        while i < self.patterns.len()
            invariant
                i <= self.patterns@.len(),
                rules == pattern_views(self.patterns@),
                out@ == seq!['['] + joined_texts(rules.take(i as int)),
            decreases self.patterns@.len() - i,
        {
            if i > 0 {
                out.append(", ");
            }
            let text = self.patterns[i].to_canonical_text();
            out.append(text.as_str());
            proof {
                reveal_strlit(", ");
                lemma_pattern_view(self.patterns@[i as int]);
                let t = rules.take(i + 1 as int);
                assert(t.drop_last() =~= rules.take(i as int));
                assert(t.last() == rules[i as int]);
                if i == 0 {
                    assert(joined_texts(t) == canonical_text(rules[0]));
                }
                assert(out@ =~= seq!['['] + joined_texts(t));
            }
            i += 1;
        }
        out.append("]");
        proof {
            reveal_strlit("[");
            reveal_strlit("]");
            assert(rules.take(self.patterns@.len() as int) =~= rules);
            assert(out@ =~= seq!['['] + joined_texts(rules) + seq![']']);
        }
        out
    }
}

/// Exception rules never set an exclusion: a rule list in which every
/// truly matching rule is an exception excludes nothing.
pub proof fn lemma_exceptions_never_exclude(rules: Seq<PatternV>, path: Seq<char>, is_dir: bool)
    requires
        forall|i: int|
            0 <= i < rules.len() ==> (#[trigger] rules[i]).exception || !true_match(
                rules[i],
                path,
                is_dir,
            ),
    ensures
        !excluded_spec(rules, path, is_dir),
    decreases rules.len(),
{
    if rules.len() > 0 {
        assert(forall|i: int|
            0 <= i < rules.drop_last().len() ==> #[trigger] rules.drop_last()[i] == rules[i]);
        lemma_exceptions_never_exclude(rules.drop_last(), path, is_dir);
    }
}

/// Appending one rule to a list: the new rule decides the verdict when it
/// truly matches, and the earlier verdict stands otherwise.
pub proof fn lemma_append_rule(rules: Seq<PatternV>, rule: PatternV, path: Seq<char>, is_dir: bool)
    ensures
        excluded_spec(rules.push(rule), path, is_dir) == if true_match(rule, path, is_dir) {
            !rule.exception
        } else {
            excluded_spec(rules, path, is_dir)
        },
{
    assert(rules.push(rule).drop_last() =~= rules);
    assert(rules.push(rule).last() == rule);
}

/// An ordinary rule appended to a list can set an exclusion but never
/// clear one: the verdict only grows.
pub proof fn lemma_ordinary_rule_never_clears(
    rules: Seq<PatternV>,
    rule: PatternV,
    path: Seq<char>,
    is_dir: bool,
)
    requires
        !rule.exception,
    ensures
        excluded_spec(rules.push(rule), path, is_dir) == (excluded_spec(rules, path, is_dir)
            || true_match(rule, path, is_dir)),
{
    lemma_append_rule(rules, rule, path, is_dir);
}

/// An exception rule appended to a list can clear an exclusion but never
/// set one: the verdict only shrinks.
pub proof fn lemma_exception_rule_never_sets(
    rules: Seq<PatternV>,
    rule: PatternV,
    path: Seq<char>,
    is_dir: bool,
)
    requires
        rule.exception,
    ensures
        excluded_spec(rules.push(rule), path, is_dir) == (excluded_spec(rules, path, is_dir)
            && !true_match(rule, path, is_dir)),
{
    lemma_append_rule(rules, rule, path, is_dir);
}

/// Directory-only filtering: a dir-only rule never excludes a candidate
/// that is not a directory, however its glob matched; for a directory the
/// verdict depends only on the raw glob result.
pub proof fn lemma_dir_only_rule(rule: PatternV, path: Seq<char>)
    requires
        rule.dir_only,
    ensures
        !excluded_spec(seq![rule], path, false),
        excluded_spec(seq![rule], path, true) == (glob_matches(rule.glob, path)
            && !rule.exception),
{
    assert(seq![rule].last() == rule);
    assert(seq![rule].drop_last() =~= Seq::<PatternV>::empty());
    assert(!excluded_spec(Seq::<PatternV>::empty(), path, false));
    assert(!excluded_spec(Seq::<PatternV>::empty(), path, true));
}

} // verus!
