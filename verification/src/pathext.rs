//! Pure, total, lexical path-text utilities.
//!
//! Paths are `/`-separated text; no function here touches a filesystem or
//! fails. `dedot` resolves `.` and `..` segments lexically, and
//! `strip_prefix` removes a literal text prefix.

use vstd::prelude::*;
use vstd::string::*;

verus! {

/// Normalizes a path to use `/` as a separator everywhere. In this crate's
/// path model every path is already `/`-separated valid text, so the result
/// carries the same characters; the function marks the boundary where
/// platform-specific separators would be rewritten.
pub fn to_normalized_string_lossy(path: &str) -> (r: String)
    ensures
        r@ == path@,
{
    path.to_owned()
}

/// Returns `true` iff `path` ends with a directory separator.
pub fn has_trailing_slash(path: &str) -> (r: bool)
    ensures
        r == (path@.len() > 0 && path@.last() == '/'),
{
    let n = path.unicode_len();
    if n == 0 {
        false
    } else {
        path.get_char(n - 1) == '/'
    }
}

/// Returns `true` iff `path` is the zero-length path.
pub fn is_empty(path: &str) -> (r: bool)
    ensures
        r == (path@.len() == 0),
{
    path.unicode_len() == 0
}

/// True iff `s` holds a `/` anywhere.
pub open spec fn contains_slash(s: Seq<char>) -> bool {
    exists|i: int| 0 <= i < s.len() && s[i] == '/'
}

/// True iff `s` begins with a directory separator.
pub open spec fn is_rooted(s: Seq<char>) -> bool {
    s.len() > 0 && s[0] == '/'
}

/// The `.` segment.
pub open spec fn is_cur_dir(seg: Seq<char>) -> bool {
    seg.len() == 1 && seg[0] == '.'
}

/// The `..` segment.
pub open spec fn is_parent_dir(seg: Seq<char>) -> bool {
    seg.len() == 2 && seg[0] == '.' && seg[1] == '.'
}

/// A component that survives dot-resolution: non-empty, not `.`, not `..`,
/// and free of separators.
pub open spec fn is_normal_component(seg: Seq<char>) -> bool {
    seg.len() > 0 && !is_cur_dir(seg) && !is_parent_dir(seg) && !contains_slash(seg)
}

/// One raw segment applied to the accumulator stack: empty and `.` segments
/// are dropped, `..` pops the last surviving component when there is one
/// (and is dropped at the root, which cannot be ascended past), anything
/// else is appended verbatim.
pub open spec fn apply_segment(stack: Seq<Seq<char>>, seg: Seq<char>) -> Seq<Seq<char>> {
    if seg.len() == 0 || is_cur_dir(seg) {
        stack
    } else if is_parent_dir(seg) {
        if stack.len() > 0 {
            stack.drop_last()
        } else {
            stack
        }
    } else {
        stack.push(seg)
    }
}

/// The accumulator stack and the start of the still-open segment after
/// scanning `s[0..i]`, applying each segment as its closing `/` is reached.
pub open spec fn scan_state(s: Seq<char>, i: int) -> (Seq<Seq<char>>, int)
    decreases i,
{
    if i <= 0 {
        (Seq::empty(), 0)
    } else {
        let st = scan_state(s, i - 1);
        if s[i - 1] == '/' {
            (apply_segment(st.0, s.subrange(st.1, i - 1)), i)
        } else {
            st
        }
    }
}

/// The components of `s` that survive dot-resolution, in order.
pub open spec fn dedot_components_spec(s: Seq<char>) -> Seq<Seq<char>> {
    let st = scan_state(s, s.len() as int);
    apply_segment(st.0, s.subrange(st.1, s.len() as int))
}

/// Components joined back into path text with single separators.
pub open spec fn join_components(cs: Seq<Seq<char>>) -> Seq<char>
    decreases cs.len(),
{
    if cs.len() == 0 {
        Seq::empty()
    } else if cs.len() == 1 {
        cs[0]
    } else {
        join_components(cs.drop_last()) + seq!['/'] + cs.last()
    }
}

/// What [`dedot`] returns: the surviving components joined back into text,
/// behind a leading separator when the input had one.
pub open spec fn dedot_spec(s: Seq<char>) -> Seq<char> {
    if is_rooted(s) {
        seq!['/'] + join_components(dedot_components_spec(s))
    } else {
        join_components(dedot_components_spec(s))
    }
}

/// What [`strip_prefix`] returns: the exact remaining suffix when `prefix`
/// is a literal prefix of `path`, and nothing otherwise.
pub open spec fn strip_prefix_spec(path: Seq<char>, prefix: Seq<char>) -> Option<Seq<char>> {
    if prefix.len() <= path.len() && path.subrange(0, prefix.len() as int) == prefix {
        Some(path.skip(prefix.len() as int))
    } else {
        None
    }
}

/// Strips `prefix` from `path` and returns the remainder, or `None` when
/// `prefix` is not a literal prefix of `path`. The comparison is purely
/// textual: it need not align with a path-component boundary.
pub fn strip_prefix<'a>(path: &'a str, prefix: &str) -> (r: Option<&'a str>)
    ensures
        match r {
            Some(rest) => strip_prefix_spec(path@, prefix@) == Some(rest@),
            None => strip_prefix_spec(path@, prefix@) is None,
        },
{
    let n = path.unicode_len();
    let m = prefix.unicode_len();
    if m > n {
        return None;
    }
    let mut i: usize = 0;
    while i < m
        invariant
            i <= m <= n,
            n == path@.len(),
            m == prefix@.len(),
            forall|k: int| 0 <= k < i ==> path@[k] == prefix@[k],
        decreases m - i,
    {
        if path.get_char(i) != prefix.get_char(i) {
            return None;
        }
        i += 1;
    }
    proof {
        assert(path@.subrange(0, m as int) =~= prefix@);
    }
    let rest = path.substring_char(m, n);
    proof {
        assert(rest@ =~= path@.skip(m as int));
    }
    Some(rest)
}

/// The views of a vector of borrowed components.
pub open spec fn component_views<'a>(cs: Seq<&'a str>) -> Seq<Seq<char>> {
    cs.map_values(|c: &'a str| c@)
}

fn apply_segment_exec<'a>(comps: &mut Vec<&'a str>, seg: &'a str)
    ensures
        component_views(final(comps)@) == apply_segment(component_views(old(comps)@), seg@),
{
    let n = seg.unicode_len();
    if n == 0 {
        return ;
    }
    if n == 1 && seg.get_char(0) == '.' {
        return ;
    }
    if n == 2 && seg.get_char(0) == '.' && seg.get_char(1) == '.' {
        if comps.len() > 0 {
            let _ = comps.pop();
            proof {
                assert(component_views(comps@) =~= component_views(old(comps)@).drop_last());
            }
        }
        return ;
    }
    comps.push(seg);
    proof {
        assert(component_views(comps@) =~= component_views(old(comps)@).push(seg@));
    }
}

/// Resolves `.` and `..` in `path` lexically and returns the components
/// that survive, in order.
pub fn dedot_components<'a>(path: &'a str) -> (r: Vec<&'a str>)
    ensures
        component_views(r@) == dedot_components_spec(path@),
{
    let n = path.unicode_len();
    let mut comps: Vec<&'a str> = Vec::new();
    let mut seg_start: usize = 0;
    let mut i: usize = 0;
    while i < n
        invariant
            seg_start <= i <= n,
            n == path@.len(),
            scan_state(path@, i as int).0 == component_views(comps@),
            scan_state(path@, i as int).1 == seg_start as int,
        decreases n - i,
    {
        if path.get_char(i) == '/' {
            let seg = path.substring_char(seg_start, i);
            apply_segment_exec(&mut comps, seg);
            seg_start = i + 1;
        }
        i += 1;
    }
    let seg = path.substring_char(seg_start, n);
    apply_segment_exec(&mut comps, seg);
    comps
}

/// Resolves `.` and `..` segments of `path` lexically, with no filesystem
/// access: `.` is dropped, `..` pops the previous component, and neither
/// can ascend past a leading `/`.
pub fn dedot(path: &str) -> (r: String)
    ensures
        r@ == dedot_spec(path@),
{
    let comps = dedot_components(path);
    let ghost cs: Seq<Seq<char>> = component_views(comps@);
    let mut out = String::new();
    let n = path.unicode_len();
    if n > 0 && path.get_char(0) == '/' {
        out.append("/");
        proof {
            reveal_strlit("/");
            assert(out@ =~= seq!['/']);
        }
    }
    let ghost pre: Seq<char> = out@;
    let mut j: usize = 0;
    while j < comps.len()
        invariant
            j <= comps.len(),
            cs == component_views(comps@),
            out@ == pre + join_components(cs.take(j as int)),
        decreases comps.len() - j,
    {
        if j > 0 {
            out.append("/");
        }
        out.append(comps[j]);
        proof {
            reveal_strlit("/");
            let t = cs.take(j + 1 as int);
            assert(t.drop_last() =~= cs.take(j as int));
            assert(t.last() == cs[j as int]);
            if j == 0 {
                assert(join_components(t) == cs[0]);
                assert(out@ =~= pre + join_components(t));
            } else {
                assert(join_components(t) == join_components(cs.take(j as int)) + seq!['/']
                    + cs[j as int]);
                assert(out@ =~= pre + join_components(t));
            }
        }
        j += 1;
    }
    proof {
        assert(cs.take(comps@.len() as int) =~= cs);
        assert(out@ =~= dedot_spec(path@));
    }
    out
}

proof fn lemma_scan_state_bounds(s: Seq<char>, i: int)
    requires
        0 <= i,
    ensures
        0 <= scan_state(s, i).1 <= i,
    decreases i,
{
    if i > 0 {
        lemma_scan_state_bounds(s, i - 1);
    }
}

proof fn lemma_scan_state_concat(s: Seq<char>, ext: Seq<char>, i: int)
    requires
        0 <= i <= s.len(),
    ensures
        scan_state(s + ext, i) == scan_state(s, i),
    decreases i,
{
    if i > 0 {
        lemma_scan_state_concat(s, ext, i - 1);
        lemma_scan_state_bounds(s, i - 1);
        let st = scan_state(s, i - 1);
        assert((s + ext)[i - 1] == s[i - 1]);
        if s[i - 1] == '/' {
            assert((s + ext).subrange(st.1, i - 1) =~= s.subrange(st.1, i - 1));
        }
    }
}

proof fn lemma_scan_constant_no_slash(s: Seq<char>, a: int, b: int)
    requires
        0 <= a <= b <= s.len(),
        forall|k: int| a <= k < b ==> s[k] != '/',
    ensures
        scan_state(s, b) == scan_state(s, a),
    decreases b - a,
{
    if b > a {
        lemma_scan_constant_no_slash(s, a, b - 1);
    }
}

proof fn lemma_dedot_components_append(s: Seq<char>, t: Seq<char>)
    requires
        !contains_slash(t),
    ensures
        dedot_components_spec(s + seq!['/'] + t) == apply_segment(dedot_components_spec(s), t),
{
    let u = s + seq!['/'] + t;
    let ls = s.len() as int;
    let lu = u.len() as int;
    assert(u =~= s + (seq!['/'] + t));
    lemma_scan_state_concat(s, seq!['/'] + t, ls);
    lemma_scan_state_bounds(s, ls);
    let st = scan_state(s, ls);
    assert(scan_state(u, ls) == st);
    assert(u[ls] == '/');
    assert(u.subrange(st.1, ls) =~= s.subrange(st.1, ls));
    assert(scan_state(u, ls + 1) == (dedot_components_spec(s), ls + 1));
    assert forall|k: int| ls + 1 <= k < lu implies u[k] != '/' by {
        assert(u[k] == t[k - ls - 1]);
    }
    lemma_scan_constant_no_slash(u, ls + 1, lu);
    assert(u.subrange(ls + 1, lu) =~= t);
}

proof fn lemma_scan_state_normal(s: Seq<char>, i: int)
    requires
        0 <= i <= s.len(),
    ensures
        forall|j: int|
            0 <= j < scan_state(s, i).0.len() ==> is_normal_component(
                #[trigger] scan_state(s, i).0[j],
            ),
        forall|k: int| scan_state(s, i).1 <= k < i ==> s[k] != '/',
    decreases i,
{
    if i > 0 {
        lemma_scan_state_normal(s, i - 1);
        lemma_scan_state_bounds(s, i - 1);
        let st = scan_state(s, i - 1);
        if s[i - 1] == '/' {
            let seg = s.subrange(st.1, i - 1);
            assert forall|k: int| 0 <= k < seg.len() implies seg[k] != '/' by {
                assert(seg[k] == s[st.1 + k]);
            }
            let applied = apply_segment(st.0, seg);
            assert forall|j: int| 0 <= j < applied.len() implies is_normal_component(
                applied[j],
            ) by {
                if !(seg.len() == 0 || is_cur_dir(seg) || is_parent_dir(seg)) {
                    if j < st.0.len() {
                        assert(applied[j] == st.0[j]);
                    } else {
                        assert(applied[j] == seg);
                    }
                } else {
                    assert(applied[j] == st.0[j]);
                }
            }
        }
    }
}

proof fn lemma_dedot_components_normal(s: Seq<char>)
    ensures
        forall|j: int|
            0 <= j < dedot_components_spec(s).len() ==> is_normal_component(
                #[trigger] dedot_components_spec(s)[j],
            ),
{
    let ls = s.len() as int;
    lemma_scan_state_normal(s, ls);
    lemma_scan_state_bounds(s, ls);
    let st = scan_state(s, ls);
    let seg = s.subrange(st.1, ls);
    assert forall|k: int| 0 <= k < seg.len() implies seg[k] != '/' by {
        assert(seg[k] == s[st.1 + k]);
    }
    let applied = apply_segment(st.0, seg);
    assert forall|j: int| 0 <= j < applied.len() implies is_normal_component(applied[j]) by {
        if !(seg.len() == 0 || is_cur_dir(seg) || is_parent_dir(seg)) {
            if j < st.0.len() {
                assert(applied[j] == st.0[j]);
            } else {
                assert(applied[j] == seg);
            }
        } else {
            assert(applied[j] == st.0[j]);
        }
    }
}

proof fn lemma_dedot_components_of_empty()
    ensures
        dedot_components_spec(Seq::<char>::empty()) == Seq::<Seq<char>>::empty(),
        dedot_components_spec(seq!['/']) == Seq::<Seq<char>>::empty(),
{
    let e = Seq::<char>::empty();
    assert(e.subrange(0, 0) =~= e);
    let u = seq!['/'];
    assert(u.subrange(0, 0) =~= e);
    assert(u.subrange(1, 1) =~= e);
    assert(scan_state(u, 0) == (Seq::<Seq<char>>::empty(), 0int));
    assert(u[0] == '/');
    assert(scan_state(u, 1) == (apply_segment(Seq::<Seq<char>>::empty(), e), 1int));
}

proof fn lemma_join_normal(cs: Seq<Seq<char>>)
    requires
        forall|j: int| 0 <= j < cs.len() ==> is_normal_component(#[trigger] cs[j]),
    ensures
        dedot_components_spec(join_components(cs)) == cs,
        dedot_components_spec(seq!['/'] + join_components(cs)) == cs,
        cs.len() > 0 ==> join_components(cs).len() > 0 && join_components(cs)[0] == cs[0][0],
        !is_rooted(join_components(cs)),
    decreases cs.len(),
{
    if cs.len() == 0 {
        lemma_dedot_components_of_empty();
        assert(seq!['/'] + join_components(cs) =~= seq!['/']);
        assert(dedot_components_spec(join_components(cs)) =~= cs);
        assert(dedot_components_spec(seq!['/'] + join_components(cs)) =~= cs);
    } else if cs.len() == 1 {
        let t = cs[0];
        assert(is_normal_component(t));
        assert(join_components(cs) == t);
        assert(t[0] != '/');
        assert forall|k: int| 0 <= k < t.len() implies t[k] != '/' by {}
        lemma_scan_constant_no_slash(t, 0, t.len() as int);
        assert(t.subrange(0, t.len() as int) =~= t);
        assert(dedot_components_spec(t) == Seq::<Seq<char>>::empty().push(t));
        assert(Seq::<Seq<char>>::empty().push(t) =~= cs);
        lemma_dedot_components_of_empty();
        assert(Seq::<char>::empty() + seq!['/'] + t =~= seq!['/'] + t);
        lemma_dedot_components_append(Seq::<char>::empty(), t);
        assert(dedot_components_spec(seq!['/'] + t) == apply_segment(
            Seq::<Seq<char>>::empty(),
            t,
        ));
    } else {
        let cs0 = cs.drop_last();
        let t = cs.last();
        assert(forall|j: int| 0 <= j < cs0.len() ==> cs0[j] == cs[j]);
        lemma_join_normal(cs0);
        assert(is_normal_component(t));
        let j0 = join_components(cs0);
        assert(join_components(cs) == j0 + seq!['/'] + t);
        lemma_dedot_components_append(j0, t);
        assert(apply_segment(cs0, t) =~= cs);
        assert(seq!['/'] + (j0 + seq!['/'] + t) =~= (seq!['/'] + j0) + seq!['/'] + t);
        lemma_dedot_components_append(seq!['/'] + j0, t);
        assert((j0 + seq!['/'] + t)[0] == j0[0]);
        assert(cs[0][0] != '/');
    }
}

/// Dot-resolution is idempotent: resolving an already resolved path a
/// second time changes nothing.
pub proof fn lemma_dedot_idempotent(p: Seq<char>)
    ensures
        dedot_spec(dedot_spec(p)) == dedot_spec(p),
{
    lemma_dedot_components_normal(p);
    let cs = dedot_components_spec(p);
    lemma_join_normal(cs);
    if is_rooted(p) {
        let d = seq!['/'] + join_components(cs);
        assert(d[0] == '/');
        assert(is_rooted(d));
        assert(dedot_spec(d) == seq!['/'] + join_components(cs));
    }
}

/// What [`dedot_from`] returns: `path` resolved against `base`, unless
/// `path` is itself rooted, in which case `base` is ignored entirely.
pub open spec fn dedot_from_spec(path: Seq<char>, base: Seq<char>) -> Seq<char> {
    if is_rooted(path) || base.len() == 0 {
        dedot_spec(path)
    } else if base.last() == '/' {
        dedot_spec(base + path)
    } else {
        dedot_spec(base + seq!['/'] + path)
    }
}

/// Resolves `.` and `..` of `path` taken relative to `base`; a rooted
/// `path` stands alone and `base` is ignored.
pub fn dedot_from(path: &str, base: &str) -> (r: String)
    ensures
        r@ == dedot_from_spec(path@, base@),
{
    let bn = base.unicode_len();
    let pn = path.unicode_len();
    if (pn > 0 && path.get_char(0) == '/') || bn == 0 {
        dedot(path)
    } else if base.get_char(bn - 1) == '/' {
        let mut joined = base.to_owned();
        joined.append(path);
        dedot(joined.as_str())
    } else {
        let mut joined = base.to_owned();
        joined.append("/");
        joined.append(path);
        proof {
            reveal_strlit("/");
            assert(joined@ =~= base@ + seq!['/'] + path@);
        }
        dedot(joined.as_str())
    }
}

/// The path-text operations, as methods on `/`-separated path text.
pub trait PathExt: View<V = Seq<char>> {
    /// Normalizes the path to use `/` as a separator everywhere.
    fn to_normalized_string_lossy(&self) -> (r: String)
        ensures
            r@ == self@,
    ;

    /// Returns `true` iff the path ends with a directory separator.
    fn has_trailing_slash(&self) -> (r: bool)
        ensures
            r == (self@.len() > 0 && self@.last() == '/'),
    ;

    /// Returns `true` iff the path is the zero-length path.
    fn is_empty_path(&self) -> (r: bool)
        ensures
            r == (self@.len() == 0),
    ;

    /// Resolves `.` and `..` segments lexically.
    fn dedot(&self) -> (r: String)
        ensures
            r@ == dedot_spec(self@),
    ;

    /// Resolves `.` and `..` of the path taken relative to `base`.
    fn dedot_from(&self, base: &str) -> (r: String)
        ensures
            r@ == dedot_from_spec(self@, base@),
    ;
}

impl PathExt for str {
    fn to_normalized_string_lossy(&self) -> (r: String) {
        to_normalized_string_lossy(self)
    }

    fn has_trailing_slash(&self) -> (r: bool) {
        has_trailing_slash(self)
    }

    fn is_empty_path(&self) -> (r: bool) {
        is_empty(self)
    }

    fn dedot(&self) -> (r: String) {
        dedot(self)
    }

    fn dedot_from(&self, base: &str) -> (r: String) {
        dedot_from(self, base)
    }
}

/// Prefix round trip: wherever `strip_prefix` succeeds, concatenating the
/// prefix with the returned remainder reconstructs the path exactly.
pub proof fn lemma_strip_prefix_round_trip(path: Seq<char>, prefix: Seq<char>)
    requires
        strip_prefix_spec(path, prefix) is Some,
    ensures
        prefix + strip_prefix_spec(path, prefix)->Some_0 == path,
{
    assert(prefix + path.skip(prefix.len() as int) =~= path);
}

} // verus!
