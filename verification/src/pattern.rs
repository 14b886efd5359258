//! One compiled ignore rule.
//!
//! A raw rule text is classified by its first bytes (`/` root anchor, `!`
//! negation, `!/` both), stripped to its body, and compiled into a glob with
//! literal-separator semantics. An unanchored rule is given an any-depth
//! `**/` prefix; a non-empty root is prepended so the rule only applies
//! below its anchor.

use vstd::prelude::*;
use vstd::string::*;

use crate::engine::{clone_glob, compile_glob, glob_ok, glob_source, glob_text};
use crate::error::Error;
use crate::matcher::{Matcher, PatternSet};
use crate::pathext::{
    contains_slash, dedot, dedot_spec, has_trailing_slash, is_empty, is_rooted, strip_prefix,
    strip_prefix_spec, to_normalized_string_lossy,
};

verus! {

/// The classification of a rule text's leading bytes.
pub enum Prefix {
    /// Leading `/`: anchored at the root.
    Root,
    /// Leading `!` not followed by `/`: a negation rule.
    Negative,
    /// Leading `!/`: an anchored negation rule.
    NegativeRoot,
    /// No recognized prefix.
    Plain,
}

/// The classification [`RawPattern::prefix`] returns.
pub open spec fn spec_prefix(s: Seq<char>) -> Prefix {
    if s.len() >= 1 && s[0] == '/' {
        Prefix::Root
    } else if s.len() >= 2 && s[0] == '!' && s[1] == '/' {
        Prefix::NegativeRoot
    } else if s.len() >= 1 && s[0] == '!' {
        Prefix::Negative
    } else {
        Prefix::Plain
    }
}

/// How many leading characters the prefix occupies.
pub open spec fn spec_prefix_len(s: Seq<char>) -> int {
    match spec_prefix(s) {
        Prefix::Root => 1,
        Prefix::Negative => 1,
        Prefix::NegativeRoot => 2,
        Prefix::Plain => 0,
    }
}

/// The rule body: the text with its prefix and one trailing `/` stripped.
pub open spec fn spec_body(s: Seq<char>) -> Seq<char> {
    let t = s.skip(spec_prefix_len(s));
    if t.len() > 0 && t.last() == '/' {
        t.drop_last()
    } else {
        t
    }
}

/// Whether the rule is a negation (exception) rule.
pub open spec fn spec_negative(s: Seq<char>) -> bool {
    spec_prefix(s) is Negative || spec_prefix(s) is NegativeRoot
}

/// Whether the rule is anchored: a leading `/`, or a `/` anywhere in the
/// body (a rule with an internal slash is anchored even without one).
pub open spec fn spec_rooted(s: Seq<char>) -> bool {
    spec_prefix(s) is Root || spec_prefix(s) is NegativeRoot || contains_slash(spec_body(s))
}

/// Whether the rule applies to directories only (trailing `/`).
pub open spec fn spec_dir_only(s: Seq<char>) -> bool {
    s.len() > 0 && s.last() == '/'
}

/// Whether `b` already begins with an any-depth `**/` span.
pub open spec fn starts_with_globstar(b: Seq<char>) -> bool {
    b.len() >= 3 && b[0] == '*' && b[1] == '*' && b[2] == '/'
}

/// The body with an any-depth `**/` prefix added unless the rule is
/// anchored or already carries one.
pub open spec fn glob_body(s: Seq<char>) -> Seq<char> {
    if spec_rooted(s) || starts_with_globstar(spec_body(s)) {
        spec_body(s)
    } else {
        seq!['*', '*', '/'] + spec_body(s)
    }
}

/// The full glob text a rule compiles to: the glob body behind `root`, with
/// a separator inserted unless `root` already ends in one; an empty body
/// leaves `root` verbatim.
pub open spec fn compiled_text(pattern: Seq<char>, root: Seq<char>) -> Seq<char> {
    let g = glob_body(pattern);
    if root.len() == 0 {
        g
    } else if g.len() == 0 {
        root
    } else if root.last() == '/' {
        root + g
    } else {
        root + seq!['/'] + g
    }
}

/// A borrowed view of one rule's raw text, classifying its prefix and
/// extracting its body during parsing.
pub struct RawPattern<'a> {
    text: &'a str,
}

impl<'a> View for RawPattern<'a> {
    type V = Seq<char>;

    closed spec fn view(&self) -> Seq<char> {
        self.text@
    }
}

fn contains_slash_exec(s: &str) -> (b: bool)
    ensures
        b == contains_slash(s@),
{
    let n = s.unicode_len();
    let mut i: usize = 0;
    while i < n
        invariant
            i <= n,
            n == s@.len(),
            forall|k: int| 0 <= k < i ==> s@[k] != '/',
        decreases n - i,
    {
        if s.get_char(i) == '/' {
            return true;
        }
        i += 1;
    }
    false
}

fn starts_with_globstar_exec(b: &str) -> (r: bool)
    ensures
        r == starts_with_globstar(b@),
{
    let n = b.unicode_len();
    n >= 3 && b.get_char(0) == '*' && b.get_char(1) == '*' && b.get_char(2) == '/'
}

impl<'a> RawPattern<'a> {
    /// Wraps a raw rule text for classification.
    pub fn new(text: &'a str) -> (r: RawPattern<'a>)
        ensures
            r@ == text@,
    {
        RawPattern { text }
    }

    /// Classifies the rule's leading bytes.
    pub fn prefix(&self) -> (p: Prefix)
        ensures
            p == spec_prefix(self@),
    {
        let n = self.text.unicode_len();
        if n >= 1 && self.text.get_char(0) == '/' {
            Prefix::Root
        } else if n >= 2 && self.text.get_char(0) == '!' && self.text.get_char(1) == '/' {
            Prefix::NegativeRoot
        } else if n >= 1 && self.text.get_char(0) == '!' {
            Prefix::Negative
        } else {
            Prefix::Plain
        }
    }

    /// The rule body: the text with its prefix and one trailing `/`
    /// stripped.
    pub fn path(&self) -> (r: &'a str)
        ensures
            r@ == spec_body(self@),
    {
        let n = self.text.unicode_len();
        let start: usize = match self.prefix() {
            Prefix::Root => 1,
            Prefix::Negative => 1,
            Prefix::NegativeRoot => 2,
            Prefix::Plain => 0,
        };
        let end: usize = if n > start && self.text.get_char(n - 1) == '/' {
            n - 1
        } else {
            n
        };
        let r = self.text.substring_char(start, end);
        proof {
            assert(r@ =~= spec_body(self@));
        }
        r
    }

    /// Whether the rule is anchored at a fixed depth.
    pub fn rooted(&self) -> (b: bool)
        ensures
            b == spec_rooted(self@),
    {
        match self.prefix() {
            Prefix::Root => true,
            Prefix::NegativeRoot => true,
            _ => contains_slash_exec(self.path()),
        }
    }

    /// Whether the rule is a negation (exception) rule.
    pub fn negative(&self) -> (b: bool)
        ensures
            b == spec_negative(self@),
    {
        matches!(self.prefix(), Prefix::Negative | Prefix::NegativeRoot)
    }

    /// Whether the rule applies to directories only.
    pub fn dir_only(&self) -> (b: bool)
        ensures
            b == spec_dir_only(self@),
    {
        has_trailing_slash(self.text)
    }
}

/// The mathematical content of a compiled rule: its glob's source text, its
/// anchor root, and its three flags.
pub ghost struct PatternV {
    /// The source text of the compiled single-rule automaton.
    pub glob: Seq<char>,
    /// The normalized anchor path (may be empty).
    pub root: Seq<char>,
    /// Negation rule: clears, never sets, an exclusion.
    pub exception: bool,
    /// Applies only when the candidate is a directory.
    pub dir_only: bool,
    /// Anchored at a fixed depth rather than matching anywhere.
    pub rooted: bool,
}

/// The model [`Pattern::new`] establishes for a successfully compiled rule.
pub open spec fn pattern_model(pattern: Seq<char>, root: Seq<char>) -> PatternV {
    PatternV {
        glob: compiled_text(pattern, root),
        root: root,
        exception: spec_negative(pattern),
        dir_only: spec_dir_only(pattern),
        rooted: spec_rooted(pattern),
    }
}

/// One immutable compiled rule. Its glob always incorporates its root and,
/// when unanchored, an any-depth prefix; every transform returns a new
/// rule.
pub struct Pattern {
    pub(crate) glob: globset::Glob,
    pub(crate) root: String,
    pub(crate) exception: bool,
    pub(crate) dir_only: bool,
    pub(crate) rooted: bool,
}

impl View for Pattern {
    type V = PatternV;

    closed spec fn view(&self) -> PatternV {
        PatternV {
            glob: glob_text(self.glob),
            root: self.root@,
            exception: self.exception,
            dir_only: self.dir_only,
            rooted: self.rooted,
        }
    }
}

/// Lets the sibling modules relate a rule's fields to its model.
pub(crate) proof fn lemma_pattern_view(p: Pattern)
    ensures
        p@ == (PatternV {
            glob: glob_text(p.glob),
            root: p.root@,
            exception: p.exception,
            dir_only: p.dir_only,
            rooted: p.rooted,
        }),
{
}

impl Pattern {
    /// Compiles one raw rule text anchored at `root`. Fails exactly when
    /// the derived glob text is not valid glob syntax.
    pub fn new(pattern: &str, root: &str) -> (r: Result<Pattern, Error>)
        ensures
            r is Ok <==> glob_ok(compiled_text(pattern@, root@)),
            r is Ok ==> r->Ok_0@ == pattern_model(pattern@, root@),
    {
        let raw = RawPattern::new(pattern);
        let body = raw.path();
        let rooted = raw.rooted();
        let negative = raw.negative();
        let dir_only = raw.dir_only();
        let mut glob: String;
        if rooted || starts_with_globstar_exec(body) {
            glob = body.to_owned();
        } else {
            glob = String::from_str("**/");
            glob.append(body);
            proof {
                reveal_strlit("**/");
                assert(glob@ =~= seq!['*', '*', '/'] + body@);
            }
        }
        let rootn = to_normalized_string_lossy(root);
        if !is_empty(rootn.as_str()) {
            if !is_empty(glob.as_str()) {
                let mut g2 = rootn.clone();
                if !has_trailing_slash(rootn.as_str()) {
                    g2.append("/");
                    proof {
                        reveal_strlit("/");
                    }
                }
                g2.append(glob.as_str());
                glob = g2;
            } else {
                glob = rootn.clone();
            }
        }
        proof {
            assert(glob@ =~= compiled_text(pattern@, root@));
        }
        match compile_glob(glob.as_str()) {
            Ok(g) => Ok(
                Pattern {
                    glob: g,
                    root: rootn,
                    exception: negative,
                    dir_only: dir_only,
                    rooted: rooted,
                },
            ),
            Err(e) => Err(Error::Glob(e)),
        }
    }

    /// Renders the only textual round-trip form of the rule: `!` when it is
    /// an exception, `/` when it is anchored and the root does not already
    /// begin with one, the glob text, and a trailing `/` when it applies to
    /// directories only.
    pub fn to_canonical_text(&self) -> (r: String)
        ensures
            r@ == canonical_text(self@),
    {
        let mut out = String::new();
        if self.exception {
            out.append("!");
        }
        let rn = self.root.as_str().unicode_len();
        let root_rooted = rn > 0 && self.root.as_str().get_char(0) == '/';
        if self.rooted && !root_rooted {
            out.append("/");
        }
        let g = glob_source(&self.glob);
        out.append(g.as_str());
        if self.dir_only {
            out.append("/");
        }
        proof {
            reveal_strlit("!");
            reveal_strlit("/");
            assert(out@ =~= canonical_text(self@));
        }
        out
    }

    /// Dot-resolves the entire glob text, root included; the resolved rule
    /// may thus reach below its stored root. Fails exactly when the
    /// resolved text is no longer valid glob syntax.
    pub fn rootful_dedotted(self) -> (r: Result<Pattern, Error>)
        ensures
            r is Ok <==> glob_ok(dedot_spec(self@.glob)),
            r is Ok ==> r->Ok_0@ == (PatternV { glob: dedot_spec(self@.glob), ..self@ }),
    {
        let text = glob_source(&self.glob);
        let ded = dedot(text.as_str());
        let ded = to_normalized_string_lossy(ded.as_str());
        match compile_glob(ded.as_str()) {
            Ok(g) => Ok(Pattern { glob: g, ..self }),
            Err(e) => Err(Error::Glob(e)),
        }
    }

    /// Strips the stored root from the glob text, dot-resolves only the
    /// remainder, and recompiles it relative to that same root, leaving the
    /// anchor untouched. Fails exactly when the recompiled text is not
    /// valid glob syntax.
    pub fn dedotted(self) -> (r: Result<Pattern, Error>)
        ensures
            ({
                let stripped = strip_prefix_spec(self@.glob, self@.root);
                let rem = if stripped is Some {
                    stripped->Some_0
                } else {
                    self@.glob
                };
                let ct = compiled_text(dedot_spec(rem), self@.root);
                &&& r is Ok <==> glob_ok(ct)
                &&& r is Ok ==> r->Ok_0@ == (PatternV { glob: ct, ..self@ })
            }),
    {
        let text = glob_source(&self.glob);
        let rem: &str = match strip_prefix(text.as_str(), self.root.as_str()) {
            Some(t) => t,
            None => text.as_str(),
        };
        let ded = dedot(rem);
        let ded = to_normalized_string_lossy(ded.as_str());
        match Pattern::new(ded.as_str(), self.root.as_str()) {
            Ok(p) => Ok(
                Pattern {
                    glob: p.glob,
                    root: self.root,
                    exception: self.exception,
                    dir_only: self.dir_only,
                    rooted: self.rooted,
                },
            ),
            Err(e) => Err(e),
        }
    }

    /// Renders the rule to its canonical text and recompiles it anchored at
    /// `root`. Fails exactly as [`Pattern::new`] does on that text.
    pub fn with_root(&self, root: &str) -> (r: Result<Pattern, Error>)
        ensures
            r is Ok <==> glob_ok(compiled_text(canonical_text(self@), root@)),
            r is Ok ==> r->Ok_0@ == pattern_model(canonical_text(self@), root@),
    {
        let text = self.to_canonical_text();
        Pattern::new(text.as_str(), root)
    }

    /// Flips the exception flag, returning the negated rule.
    pub fn invert(self) -> (r: Pattern)
        ensures
            r@ == (PatternV { exception: !self@.exception, ..self@ }),
    {
        Pattern { exception: !self.exception, ..self }
    }

    /// Wraps this single rule in a set of its own.
    pub fn into_set(self) -> (r: PatternSet)
        ensures
            r@ =~= seq![self@],
    {
        let mut set = PatternSet::new();
        set.add(self);
        set
    }

    /// Builds a matcher that evaluates this single rule.
    pub fn into_matcher(self) -> (r: Result<Matcher, Error>)
        ensures
            r is Ok <==> crate::engine::globset_ok(seq![self@.glob]),
            r is Ok ==> r->Ok_0@ =~= seq![self@],
    {
        let ghost me = self@;
        let set = self.into_set();
        proof {
            assert(crate::matcher::glob_texts(set@) =~= seq![me.glob]);
        }
        set.into_matcher()
    }

}

impl Clone for Pattern {
    /// A cloned rule carries the same model.
    fn clone(&self) -> (r: Pattern)
        ensures
            r@ == self@,
    {
        Pattern {
            glob: clone_glob(&self.glob),
            root: self.root.clone(),
            exception: self.exception,
            dir_only: self.dir_only,
            rooted: self.rooted,
        }
    }
}

/// Depth independence at compile time: an unanchored body that does not
/// already carry one is put behind an any-depth `**/` span, so the rule's
/// placement in the glob text is independent of leading segments.
pub proof fn lemma_unrooted_gets_any_depth(pattern: Seq<char>)
    requires
        !spec_rooted(pattern),
        !starts_with_globstar(spec_body(pattern)),
    ensures
        glob_body(pattern) == seq!['*', '*', '/'] + spec_body(pattern),
{
}

/// Anchoring at compile time: an anchored rule keeps its body at its fixed
/// offset, with no any-depth span added in front.
pub proof fn lemma_rooted_stays_fixed(pattern: Seq<char>)
    requires
        spec_rooted(pattern),
    ensures
        glob_body(pattern) == spec_body(pattern),
{
}

/// The canonical text of a rule model: `!`, the anchor `/`, the glob text,
/// and the directory-only marker.
pub open spec fn canonical_text(p: PatternV) -> Seq<char> {
    let neg = if p.exception {
        seq!['!']
    } else {
        Seq::<char>::empty()
    };
    let anchor = if p.rooted && !is_rooted(p.root) {
        seq!['/']
    } else {
        Seq::<char>::empty()
    };
    let trail = if p.dir_only {
        seq!['/']
    } else {
        Seq::<char>::empty()
    };
    neg + anchor + p.glob + trail
}

} // verus!
