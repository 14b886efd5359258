//! The boundary to the external glob engine (`globset`).
//!
//! Every pattern of this crate is compiled here with literal-separator
//! semantics (wildcards never cross `/`, `**` may), and every raw match
//! query goes through [`globset_match_indices`]. The spec functions below
//! name what the engine computes; nothing else in the crate is trusted.

use globset::Error as GlobError;
use vstd::prelude::*;

verus! {

/// The pattern text a compiled glob was built from, as `Glob::glob` returns it.
pub uninterp spec fn glob_text(g: globset::Glob) -> Seq<char>;

/// Whether `GlobBuilder::build` accepts `text` (in literal-separator mode);
/// acceptance depends on the text alone.
pub uninterp spec fn glob_ok(text: Seq<char>) -> bool;

/// Whether a glob compiled from `glob` (in literal-separator mode) matches
/// `path`; the verdict depends on the two texts alone.
pub uninterp spec fn glob_matches(glob: Seq<char>, path: Seq<char>) -> bool;

/// The glob texts a `GlobSetBuilder` holds, in insertion order.
pub uninterp spec fn builder_globs(b: globset::GlobSetBuilder) -> Seq<Seq<char>>;

/// The glob texts a built `GlobSet` holds, in insertion order.
pub uninterp spec fn globset_globs(s: globset::GlobSet) -> Seq<Seq<char>>;

/// Whether `GlobSetBuilder::build` accepts a set of glob texts; acceptance
/// depends on the texts alone.
pub uninterp spec fn globset_ok(globs: Seq<Seq<char>>) -> bool;

#[verifier::external_type_specification]
#[verifier::external_body]
pub struct ExGlob(globset::Glob);

#[verifier::external_type_specification]
#[verifier::external_body]
pub struct ExGlobSet(globset::GlobSet);

#[verifier::external_type_specification]
#[verifier::external_body]
pub struct ExGlobSetBuilder(globset::GlobSetBuilder);

#[verifier::external_type_specification]
#[verifier::external_body]
pub struct ExGlobError(GlobError);

/// Relies on `globset::GlobBuilder`: `build` parses the pattern text under
/// the options set on the builder (here literal-separator mode), so success
/// depends on the text alone, and the compiled glob keeps its source text.
#[verifier::external_body]
pub(crate) fn compile_glob(text: &str) -> (r: Result<globset::Glob, globset::Error>)
    ensures
        r is Ok <==> glob_ok(text@),
        r is Ok ==> glob_text(r->Ok_0) == text@,
{
    globset::GlobBuilder::new(text).literal_separator(true).build()
}

/// Relies on `globset::Glob::glob`, which returns the pattern text the glob
/// was compiled from.
#[verifier::external_body]
pub(crate) fn glob_source(g: &globset::Glob) -> (r: String)
    ensures
        r@ == glob_text(*g),
{
    g.glob().to_string()
}

/// Relies on `globset::Glob::clone`: a clone keeps the source text.
#[verifier::external_body]
pub(crate) fn clone_glob(g: &globset::Glob) -> (r: globset::Glob)
    ensures
        glob_text(r) == glob_text(*g),
{
    g.clone()
}

/// Relies on `globset::GlobSetBuilder::new`: a fresh builder holds no globs.
#[verifier::external_body]
pub(crate) fn globset_builder_new() -> (r: globset::GlobSetBuilder)
    ensures
        builder_globs(r) == Seq::<Seq<char>>::empty(),
{
    globset::GlobSetBuilder::new()
}

/// Relies on `globset::GlobSetBuilder::add`, which appends one glob under
/// the next sequence number.
#[verifier::external_body]
pub(crate) fn globset_builder_add(b: &mut globset::GlobSetBuilder, g: globset::Glob)
    ensures
        builder_globs(*final(b)) == builder_globs(*old(b)).push(glob_text(g)),
{
    b.add(g);
}

/// Relies on `globset::GlobSetBuilder::build`: success depends on the added
/// glob texts alone, and the built set holds them in insertion order.
#[verifier::external_body]
pub(crate) fn globset_builder_build(
    b: &globset::GlobSetBuilder,
) -> (r: Result<globset::GlobSet, globset::Error>)
    ensures
        r is Ok <==> globset_ok(builder_globs(*b)),
        r is Ok ==> globset_globs(r->Ok_0) == builder_globs(*b),
{
    b.build()
}

/// Relies on `globset::GlobSet::matches`, which returns the sequence numbers
/// of exactly the globs that match the path, in ascending order.
#[verifier::external_body]
pub(crate) fn globset_match_indices(s: &globset::GlobSet, path: &str) -> (r: Vec<usize>)
    ensures
        forall|k: int| 0 <= k < r@.len() ==> (#[trigger] r@[k]) < globset_globs(*s).len(),
        forall|k1: int, k2: int|
            0 <= k1 < k2 < r@.len() ==> #[trigger] r@[k1] < #[trigger] r@[k2],
        forall|j: int|
            0 <= j < globset_globs(*s).len() ==> ((exists|k: int|
                0 <= k < r@.len() && (#[trigger] r@[k]) as int == j)
                <==> #[trigger] glob_matches(globset_globs(*s)[j], path@)),
{
    s.matches(path)
}

} // verus!
