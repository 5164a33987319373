//! Helpers of the single-crate site builder: path normalization and the
//! output-path safety check, slugs, relative prefixes, and its own
//! content-pattern matching.

use vstd::prelude::*;
use crate::error::RawssgError;
use crate::fs::{FileSystem, IoResult};
use crate::paths::{
    Component, PathComponent, components, components_of, comp_views, text_of, join_path,
    parent_of, file_name_of, path_starts_with, has_root, text_of_components, join, parent,
    file_name, starts_with_path, is_relative, lemma_file_name_is_plain, lemma_join_name_keeps_prefix,
};
use crate::pattern::{is_double_star, seg_match, segment_matches};
use crate::text::{concat2, concat3, 
    split_spec, join_spec, views, chars_of, split_chars, string_from_chars, lemma_split_nonempty,
    lemma_split_parts_free_of_sep, lemma_split_parts_avoid, lemma_split_injective,
};

verus! {

/// The components of a path with `.` dropped and each `..` removing the
/// component before it unless that is the root (a `..` with nothing to
/// remove is dropped).
pub open spec fn normalize_spec(comps: Seq<PathComponent>) -> Seq<PathComponent>
    decreases comps.len(),
{
    if comps.len() == 0 {
        Seq::<PathComponent>::empty()
    } else {
        let stack = normalize_spec(comps.drop_last());
        match comps.last() {
            PathComponent::ParentDir => if stack.len() > 0 && !(stack.last() is RootDir) {
                stack.drop_last()
            } else {
                stack
            },
            PathComponent::CurDir => stack,
            c => stack.push(c),
        }
    }
}

/// The normal form of the path `p`.
pub open spec fn normalized_path(p: Seq<char>) -> Seq<char> {
    text_of(normalize_spec(components(p)))
}

fn clone_component(c: &Component) -> (d: Component)
    ensures
        d.view_spec() == c.view_spec(),
{
    crate::fs::clone_component(c)
}

/// `path` with `.` components dropped and each `..` removing the
/// component before it (never the root).
fn normalize_path(path: &str) -> (r: String)
    ensures
        r@ == normalized_path(path@),
{
    let comps = components_of(path);
    let mut stack: Vec<Component> = Vec::new();
    let mut i: usize = 0;
    assert(comp_views(comps@).take(0) =~= Seq::<PathComponent>::empty());
    while i < comps.len()
        invariant
            i <= comps.len(),
            comp_views(comps@) == components(path@),
            normalize_spec(comp_views(comps@).take(i as int)) == comp_views(stack@),
        decreases comps.len() - i,
    {
        let ghost before = comp_views(stack@);
        assert(comp_views(comps@).take(i + 1).drop_last() =~= comp_views(comps@).take(i as int));
        assert(comp_views(comps@).take(i + 1).last() == comps@[i as int].view_spec());
        match &comps[i] {
            Component::ParentDir => {
                if stack.len() > 0 {
                    let is_root = match &stack[stack.len() - 1] {
                        Component::RootDir => true,
                        _ => false,
                    };
                    if !is_root {
                        stack.pop();
                        assert(comp_views(stack@) =~= before.drop_last());
                    }
                }
            },
            Component::CurDir => {},
            c => {
                stack.push(clone_component(c));
                assert(comp_views(stack@) =~= before.push(c.view_spec()));
            },
        }
        i = i + 1;
    }
    assert(comp_views(comps@).take(comps.len() as int) =~= comp_views(comps@));
    let t = text_of_components(&stack, stack.len());
    assert(comp_views(stack@).take(stack.len() as int) =~= comp_views(stack@));
    string_from_chars(&t)
}

/// The path that `candidate` names under the resolved base `base_canon`
/// before the file system is asked: a relative candidate joined onto the
/// base, then normalized.
pub open spec fn output_target(base_canon: Seq<char>, candidate: Seq<char>) -> Seq<char> {
    normalized_path(if has_root(candidate) { candidate } else { join_path(base_canon, candidate) })
}

/// Whether `r` is what [`safe_path_within`] gives for the target `target`
/// under `base_canon`, given the file system's answers: whether `target`
/// exists, and what resolving it (when it exists) or its parent (when it
/// does not) gave. An existing target is its resolved form when that
/// starts with the base; a missing one is its resolved parent, when that
/// starts with the base, joined with its file name; a path outside the
/// base is a path-traversal error, a failed lookup an I/O error.
pub open spec fn kept_inside(
    base_canon: Seq<char>,
    target: Seq<char>,
    exists: bool,
    canon: IoResult<String>,
    r: Result<String, RawssgError>,
) -> bool {
    if exists {
        match canon {
            Err(e) => r matches Err(RawssgError::Io(m))
                && m@ == "Cannot resolve path '"@ + target + "': "@ + e.message@,
            Ok(p) => if path_starts_with(p@, base_canon) {
                r matches Ok(q) && q@ == p@
            } else {
                r matches Err(RawssgError::PathTraversal(m)) && m@ == "Path traversal detected: "@ + p@
            },
        }
    } else {
        match parent_of(target) {
            None => r matches Err(RawssgError::PathTraversal(m))
                && m@ == "Cannot determine parent of output path: "@ + target,
            Some(pp) => match canon {
                Err(e) => r matches Err(RawssgError::Io(m))
                    && m@ == "Cannot resolve parent '"@ + pp + "': "@ + e.message@,
                Ok(pc) => if !path_starts_with(pc@, base_canon) {
                    r matches Err(RawssgError::PathTraversal(m)) && m@ == "Path escapes base: "@ + target
                } else {
                    match file_name_of(target) {
                        None => r matches Err(RawssgError::PathTraversal(m))
                            && m@ == "Output path has no file name: "@ + target,
                        Some(n) => r matches Ok(q) && q@ == join_path(pc@, n),
                    }
                },
            },
        }
    }
}

/// Whether `r` is what [`safe_path_within`] gives for `candidate` under
/// `base_canon` for some answers of the file system.
pub open spec fn resolved_inside(base_canon: Seq<char>, candidate: Seq<char>, r: Result<String, RawssgError>) -> bool {
    exists|ex: bool, canon: IoResult<String>|
        #[trigger] kept_inside(base_canon, output_target(base_canon, candidate), ex, canon, r)
}

/// Whether `r` is what [`safe_path`] gives for `candidate` under `base`
/// once resolving `base` answered `base_answer`: an I/O error naming the
/// base, or [`resolved_inside`] the resolved base.
pub open spec fn resolved_after_base(
    base: Seq<char>,
    candidate: Seq<char>,
    base_answer: IoResult<String>,
    r: Result<String, RawssgError>,
) -> bool {
    match base_answer {
        Err(e) => r matches Err(RawssgError::Io(m))
            && m@ == "Cannot canonicalize base '"@ + base + "': "@ + e.message@,
        Ok(bc) => resolved_inside(bc@, candidate, r),
    }
}

proof fn lemma_kept_is_resolved(base_canon: Seq<char>, candidate: Seq<char>, ex: bool, canon: IoResult<String>,
    r: Result<String, RawssgError>)
    requires
        kept_inside(base_canon, output_target(base_canon, candidate), ex, canon, r),
    ensures
        resolved_inside(base_canon, candidate, r),
{
}

/// An accepted output path lies inside the resolved base: whatever the
/// file system answers, a path [`safe_path`] accepts starts with what
/// resolving the base gave.
pub proof fn lemma_safe_path_stays_inside(
    base: Seq<char>,
    candidate: Seq<char>,
    base_answer: IoResult<String>,
    r: Result<String, RawssgError>,
)
    requires
        resolved_after_base(base, candidate, base_answer, r),
        r is Ok,
    ensures
        base_answer matches Ok(bc) && path_starts_with(r->Ok_0@, bc@),
{
    let bc = base_answer->Ok_0;
    let (ex, canon) = choose|ex: bool, canon: IoResult<String>|
        #[trigger] kept_inside(bc@, output_target(bc@, candidate), ex, canon, r);
    let target = output_target(bc@, candidate);
    if !ex {
        if let Ok(pc) = canon {
            if let Some(n) = file_name_of(target) {
                lemma_file_name_is_plain(target);
                lemma_join_name_keeps_prefix(pc@, n, bc@);
            }
        }
    }
}

/// The output path for `candidate` under the resolved base `base_canon`.
///
/// A relative candidate is joined onto the base and the result normalized.
/// When that path exists, it is resolved through the file system and kept
/// only if it still starts with the base; otherwise its parent is resolved,
/// kept only if it starts with the base, and the file name is added back.
/// Whatever the file system answers, an accepted path starts with
/// `base_canon`.
pub fn safe_path_within(fs: &dyn FileSystem, base_canon: &str, candidate: &str) -> (r: Result<String, RawssgError>)
    ensures
        resolved_inside(base_canon@, candidate@, r),
        r matches Ok(p) ==> path_starts_with(p@, base_canon@),
        r matches Err(e) ==> (e is Io || e is PathTraversal),
{
    let joined = if is_relative(candidate) {
        join(base_canon, candidate)
    } else {
        candidate.to_owned()
    };
    let normalized = normalize_path(joined.as_str());
    let ghost target = normalized@;
    assert(target == output_target(base_canon@, candidate@));
    if fs.path_exists(normalized.as_str()) {
        let c = fs.canonicalize(normalized.as_str());
        let ghost cg = c;
        let resolved = match c {
            Ok(p) => p,
            Err(e) => {
                let head = concat3("Cannot resolve path '", normalized.as_str(), "': ");
                let r = Err(RawssgError::Io(concat2(head.as_str(), e.message.as_str())));
                proof { lemma_kept_is_resolved(base_canon@, candidate@, true, cg, r); }
                return r;
            },
        };
        if !starts_with_path(resolved.as_str(), base_canon) {
            let r = Err(RawssgError::PathTraversal(concat2("Path traversal detected: ", resolved.as_str())));
            proof { lemma_kept_is_resolved(base_canon@, candidate@, true, cg, r); }
            return r;
        }
        let r = Ok(resolved);
        proof { lemma_kept_is_resolved(base_canon@, candidate@, true, cg, r); }
        r
    } else {
        let ghost none: IoResult<String> = vstd::pervasive::arbitrary();
        let parent_path = match parent(normalized.as_str()) {
            Some(p) => p,
            None => {
                let r = Err(RawssgError::PathTraversal(
                    concat2("Cannot determine parent of output path: ", normalized.as_str()),
                ));
                proof { lemma_kept_is_resolved(base_canon@, candidate@, false, none, r); }
                return r;
            },
        };
        let c = fs.canonicalize(parent_path.as_str());
        let ghost cg = c;
        let parent_canon = match c {
            Ok(p) => p,
            Err(e) => {
                let head = concat3("Cannot resolve parent '", parent_path.as_str(), "': ");
                let r = Err(RawssgError::Io(concat2(head.as_str(), e.message.as_str())));
                proof { lemma_kept_is_resolved(base_canon@, candidate@, false, cg, r); }
                return r;
            },
        };
        if !starts_with_path(parent_canon.as_str(), base_canon) {
            let r = Err(RawssgError::PathTraversal(concat2("Path escapes base: ", normalized.as_str())));
            proof { lemma_kept_is_resolved(base_canon@, candidate@, false, cg, r); }
            return r;
        }
        let name = match file_name(normalized.as_str()) {
            Some(n) => n,
            None => {
                let r = Err(RawssgError::PathTraversal(
                    concat2("Output path has no file name: ", normalized.as_str()),
                ));
                proof { lemma_kept_is_resolved(base_canon@, candidate@, false, cg, r); }
                return r;
            },
        };
        proof {
            lemma_file_name_is_plain(normalized@);
            lemma_join_name_keeps_prefix(parent_canon@, name@, base_canon@);
        }
        let r = Ok(join(parent_canon.as_str(), name.as_str()));
        proof { lemma_kept_is_resolved(base_canon@, candidate@, false, cg, r); }
        r
    }
}

/// The output path for `candidate` under `base`: `base` is resolved
/// through the file system, then [`safe_path_within`] applies to the
/// resolved base; a failed lookup of the base is an I/O error and no
/// further call is made.
pub fn safe_path(fs: &dyn FileSystem, base: &str, candidate: &str) -> (r: Result<String, RawssgError>)
    ensures
        exists|base_answer: IoResult<String>| #[trigger] resolved_after_base(base@, candidate@, base_answer, r),
        r matches Err(e) ==> (e is Io || e is PathTraversal),
{
    let ba = fs.canonicalize(base);
    let ghost bag = ba;
    let base_canon = match ba {
        Ok(b) => b,
        Err(e) => {
            let head = concat3("Cannot canonicalize base '", base, "': ");
            let r = Err(RawssgError::Io(concat2(head.as_str(), e.message.as_str())));
            assert(resolved_after_base(base@, candidate@, bag, r));
            return r;
        },
    };
    let r = safe_path_within(fs, base_canon.as_str(), candidate);
    assert(resolved_after_base(base@, candidate@, bag, r));
    r
}

/// What `str::to_lowercase` returns for the text `s` (its Unicode lowercase
/// mapping).
pub uninterp spec fn lowercase_of(s: Seq<char>) -> Seq<char>;

/// Whether `char::is_alphanumeric` holds of `c` (Unicode alphabetic or
/// numeric).
pub uninterp spec fn alphanumeric(c: char) -> bool;

/// The lowercase of `s`, by `str::to_lowercase`; the result is named
/// [`lowercase_of`] of the argument.
#[verifier::external_body]
fn to_lowercase(s: &str) -> (r: String)
    ensures
        r@ == lowercase_of(s@),
{
    s.to_lowercase()
}

/// Whether `c` is alphanumeric, by `char::is_alphanumeric`; the result is
/// named [`alphanumeric`] of the argument.
#[verifier::external_body]
fn is_alphanumeric(c: char) -> (r: bool)
    ensures
        r == alphanumeric(c),
{
    c.is_alphanumeric()
}

/// A character as a slug keeps it: itself when alphanumeric or `-`, else `-`.
pub open spec fn slug_char(c: char) -> char {
    if alphanumeric(c) || c == '-' {
        c
    } else {
        '-'
    }
}

/// The lowercase of `title` with every character kept as a slug keeps it.
pub open spec fn slug_mapped(title: Seq<char>) -> Seq<char> {
    lowercase_of(title).map_values(|c: char| slug_char(c))
}

/// The non-empty parts, in order.
pub open spec fn nonempty_parts(parts: Seq<Seq<char>>) -> Seq<Seq<char>>
    decreases parts.len(),
{
    if parts.len() == 0 {
        Seq::<Seq<char>>::empty()
    } else if parts.last().len() > 0 {
        nonempty_parts(parts.drop_last()).push(parts.last())
    } else {
        nonempty_parts(parts.drop_last())
    }
}

/// The slug of a title: lowercased, every character that is neither
/// alphanumeric nor `-` turned into `-`, then the runs between dashes that
/// are not empty joined with single dashes.
pub open spec fn slug_of(title: Seq<char>) -> Seq<char> {
    join_spec(
        nonempty_parts(split_spec(slug_mapped(title), '-')),
        '-',
    )
}

/// Whether `s` is well-formed as a slug: every character alphanumeric or
/// `-`, no `-` at either end, and never two dashes in a row.
pub open spec fn is_slug(s: Seq<char>) -> bool {
    &&& forall|i: int| 0 <= i < s.len() ==> s[i] == '-' || alphanumeric(#[trigger] s[i])
    &&& s.len() > 0 ==> s[0] != '-' && s[s.len() - 1] != '-'
    &&& forall|i: int| 0 <= i < s.len() - 1 ==> !(#[trigger] s[i] == '-' && s[i + 1] == '-')
}

proof fn lemma_nonempty_parts_props(parts: Seq<Seq<char>>)
    requires
        forall|i: int, j: int| 0 <= i < parts.len() && 0 <= j < parts[i].len()
            ==> parts[i][j] != '-' && alphanumeric(#[trigger] parts[i][j]),
    ensures
        forall|i: int| 0 <= i < nonempty_parts(parts).len() ==> (#[trigger] nonempty_parts(parts)[i]).len() > 0,
        forall|i: int, j: int| 0 <= i < nonempty_parts(parts).len() && 0 <= j < nonempty_parts(parts)[i].len()
            ==> nonempty_parts(parts)[i][j] != '-' && alphanumeric(#[trigger] nonempty_parts(parts)[i][j]),
    decreases parts.len(),
{
    if parts.len() > 0 {
        let init = parts.drop_last();
        assert forall|i: int, j: int| 0 <= i < init.len() && 0 <= j < init[i].len()
            implies init[i][j] != '-' && alphanumeric(#[trigger] init[i][j]) by {
            assert(init[i] == parts[i]);
            assert(parts[i][j] == init[i][j]);
        }
        lemma_nonempty_parts_props(init);
        let last = parts.last();
        assert(last == parts[parts.len() - 1]);
        let np = nonempty_parts(parts);
        if last.len() > 0 {
            let prev = nonempty_parts(init);
            assert(np == prev.push(last));
            assert forall|i: int, j: int| 0 <= i < np.len() && 0 <= j < np[i].len()
                implies np[i][j] != '-' && alphanumeric(#[trigger] np[i][j]) by {
                if i < prev.len() {
                    assert(np[i] == prev[i]);
                    assert(prev[i][j] == np[i][j]);
                } else {
                    assert(np[i] == last);
                    assert(parts[parts.len() - 1][j] == np[i][j]);
                }
            }
            assert forall|i: int| 0 <= i < np.len() implies (#[trigger] np[i]).len() > 0 by {
                if i < prev.len() {
                    assert(np[i] == prev[i]);
                }
            }
        }
    }
}

proof fn lemma_join_is_slug(parts: Seq<Seq<char>>)
    requires
        forall|i: int| 0 <= i < parts.len() ==> (#[trigger] parts[i]).len() > 0,
        forall|i: int, j: int| 0 <= i < parts.len() && 0 <= j < parts[i].len()
            ==> parts[i][j] != '-' && alphanumeric(#[trigger] parts[i][j]),
    ensures
        is_slug(join_spec(parts, '-')),
    decreases parts.len(),
{
    if parts.len() == 1 {
        assert(join_spec(parts, '-') == parts[0]);
        let s = parts[0];
        assert forall|i: int| 0 <= i < s.len() implies s[i] == '-' || alphanumeric(#[trigger] s[i]) by {
            assert(parts[0][i] == s[i]);
        }
        assert forall|i: int| 0 <= i < s.len() - 1 implies !(#[trigger] s[i] == '-' && s[i + 1] == '-') by {
            assert(parts[0][i] == s[i]);
        }
        assert(parts[0][0] == s[0]);
        assert(parts[0][s.len() - 1] == s[s.len() - 1]);
    } else if parts.len() > 1 {
        let init = parts.drop_last();
        let last = parts.last();
        lemma_join_is_slug(init);
        let a = join_spec(init, '-');
        let s = join_spec(parts, '-');
        assert(s == a.push('-') + last);
        assert(a.len() > 0) by {
            lemma_join_len_positive(init);
        }
        assert(last == parts[parts.len() - 1]);
        assert forall|i: int| 0 <= i < s.len() implies s[i] == '-' || alphanumeric(#[trigger] s[i]) by {
            if i < a.len() {
                assert(s[i] == a[i]);
            } else if i > a.len() {
                assert(s[i] == last[i - a.len() - 1]);
                assert(parts[parts.len() - 1][i - a.len() - 1] == s[i]);
            }
        }
        assert(s[0] == a[0]);
        assert(s[s.len() - 1] == last[last.len() - 1]);
        assert(parts[parts.len() - 1][last.len() - 1] == s[s.len() - 1]);
        assert forall|i: int| 0 <= i < s.len() - 1 implies !(#[trigger] s[i] == '-' && s[i + 1] == '-') by {
            if i < a.len() - 1 {
                assert(s[i] == a[i]);
                assert(s[i + 1] == a[i + 1]);
            } else if i == a.len() - 1 {
                assert(s[i] == a[a.len() - 1]);
            } else if i == a.len() {
                assert(s[i + 1] == last[0]);
                assert(parts[parts.len() - 1][0] == s[i + 1]);
            } else {
                assert(s[i] == last[i - a.len() - 1]);
                assert(parts[parts.len() - 1][i - a.len() - 1] == s[i]);
            }
        }
    }
}

proof fn lemma_join_len_positive(parts: Seq<Seq<char>>)
    requires
        parts.len() > 0,
        forall|i: int| 0 <= i < parts.len() ==> (#[trigger] parts[i]).len() > 0,
    ensures
        join_spec(parts, '-').len() > 0,
    decreases parts.len(),
{
    if parts.len() > 1 {
        assert(parts.last() == parts[parts.len() - 1]);
    }
}

proof fn lemma_slug_parts_props(title: Seq<char>)
    ensures
        forall|i: int, j: int|
            0 <= i < split_spec(slug_mapped(title), '-').len()
            && 0 <= j < split_spec(slug_mapped(title), '-')[i].len()
            ==> split_spec(slug_mapped(title), '-')[i][j] != '-'
                && alphanumeric(#[trigger] split_spec(slug_mapped(title), '-')[i][j]),
{
    let m = slug_mapped(title);
    assert(m.len() == lowercase_of(title).len());
    lemma_split_parts_free_of_sep(m, '-');
    lemma_split_parts_chars_from(m, '-');
    assert forall|i: int, j: int| 0 <= i < split_spec(m, '-').len() && 0 <= j < split_spec(m, '-')[i].len()
        implies split_spec(m, '-')[i][j] != '-' && alphanumeric(#[trigger] split_spec(m, '-')[i][j]) by {
        let k = choose|k: int| 0 <= k < m.len() && m[k] == split_spec(m, '-')[i][j];
        assert(m[k] == slug_char(lowercase_of(title)[k]));
    }
}

/// Every character of a part of a split is a character of the text.
proof fn lemma_split_parts_chars_from(s: Seq<char>, sep: char)
    ensures
        forall|i: int, j: int| 0 <= i < split_spec(s, sep).len() && 0 <= j < split_spec(s, sep)[i].len()
            ==> exists|k: int| 0 <= k < s.len() && s[k] == #[trigger] split_spec(s, sep)[i][j],
    decreases s.len(),
{
    lemma_split_nonempty(s, sep);
    if s.len() > 0 {
        let t = s.drop_last();
        lemma_split_parts_chars_from(t, sep);
        lemma_split_nonempty(t, sep);
        assert forall|i: int, j: int| 0 <= i < split_spec(s, sep).len() && 0 <= j < split_spec(s, sep)[i].len()
            implies exists|k: int| 0 <= k < s.len() && s[k] == #[trigger] split_spec(s, sep)[i][j] by {
            let prev = split_spec(t, sep);
            if s.last() != sep && i == prev.len() - 1 && j == prev.last().len() {
                assert(s[s.len() - 1] == split_spec(s, sep)[i][j]);
            } else {
                assert(split_spec(s, sep)[i][j] == prev[i][j]);
                let k = choose|k: int| 0 <= k < t.len() && t[k] == prev[i][j];
                assert(s[k] == t[k]);
            }
        }
    }
}

/// The slug of `title`: lowercased, every character that is neither
/// alphanumeric nor `-` turned into `-`, and the non-empty runs between
/// dashes joined with single dashes.
pub fn slugify(title: &str) -> (r: String)
    ensures
        r@ == slug_of(title@),
        is_slug(r@),
{
    let lower = to_lowercase(title);
    let chars = chars_of(lower.as_str());
    let mut mapped: Vec<char> = Vec::new();
    let mut i: usize = 0;
    while i < chars.len()
        invariant
            i <= chars.len(),
            chars@ == lowercase_of(title@),
            mapped@ == chars@.take(i as int).map_values(|c: char| slug_char(c)),
        decreases chars.len() - i,
    {
        let c = chars[i];
        let k = if is_alphanumeric(c) || c == '-' { c } else { '-' };
        mapped.push(k);
        i = i + 1;
        assert(mapped@ =~= chars@.take(i as int).map_values(|c: char| slug_char(c)));
    }
    assert(chars@.take(chars.len() as int) =~= chars@);
    let parts = split_chars(&mapped, '-');
    let mut kept: Vec<Vec<char>> = Vec::new();
    let mut j: usize = 0;
    assert(views(parts@).take(0) =~= Seq::<Seq<char>>::empty());
    while j < parts.len()
        invariant
            j <= parts.len(),
            views(kept@) == nonempty_parts(views(parts@).take(j as int)),
        decreases parts.len() - j,
    {
        assert(views(parts@).take(j + 1).drop_last() =~= views(parts@).take(j as int));
        assert(views(parts@).take(j + 1).last() == parts@[j as int]@);
        if parts[j].len() > 0 {
            kept.push(parts[j].clone());
            assert(kept@[kept.len() - 1]@ =~= parts@[j as int]@);
            assert(views(kept@) =~= nonempty_parts(views(parts@).take(j as int)).push(parts@[j as int]@));
        }
        j = j + 1;
    }
    assert(views(parts@).take(parts.len() as int) =~= views(parts@));
    let mut out: Vec<char> = Vec::new();
    let mut n: usize = 0;
    assert(views(kept@).take(0) =~= Seq::<Seq<char>>::empty());
    while n < kept.len()
        invariant
            n <= kept.len(),
            out@ == join_spec(views(kept@).take(n as int), '-'),
        decreases kept.len() - n,
    {
        let ghost prev = out@;
        if n > 0 {
            out.push('-');
        }
        let part = &kept[n];
        let mut k: usize = 0;
        let ghost start = out@;
        while k < part.len()
            invariant
                k <= part.len(),
                out@ == start + part@.take(k as int),
            decreases part.len() - k,
        {
            out.push(part[k]);
            k = k + 1;
            assert(out@ =~= start + part@.take(k as int));
        }
        assert(part@.take(part.len() as int) =~= part@);
        assert(views(kept@).take(n + 1).drop_last() =~= views(kept@).take(n as int));
        assert(views(kept@).take(n + 1).last() == part@);
        proof {
            if n == 0 {
                assert(views(kept@).take(1) =~= seq![part@]);
                assert(out@ =~= part@);
            } else {
                assert(out@ =~= prev.push('-') + part@);
            }
        }
        n = n + 1;
    }
    assert(views(kept@).take(kept.len() as int) =~= views(kept@));
    proof {
        lemma_slug_parts_props(title@);
        lemma_nonempty_parts_props(split_spec(slug_mapped(title@), '-'));
        lemma_join_is_slug(nonempty_parts(split_spec(slug_mapped(title@), '-')));
    }
    string_from_chars(&out)
}

/// `s` written `n` times in a row.
pub open spec fn repeat(s: Seq<char>, n: nat) -> Seq<char>
    decreases n,
{
    if n == 0 {
        Seq::<char>::empty()
    } else {
        repeat(s, (n - 1) as nat) + s
    }
}

/// The prefix that leads from a page `depth` directories deep back to the
/// site root: `./` at the root, else `../` once per level.
pub fn relative_prefix(depth: usize) -> (r: String)
    ensures
        r@ == if depth == 0 { "./"@ } else { repeat("../"@, depth as nat) },
{
    if depth == 0 {
        return "./".to_owned();
    }
    let mut r = String::new();
    let mut i: usize = 0;
    while i < depth
        invariant
            i <= depth,
            r@ == repeat("../"@, i as nat),
        decreases depth - i,
    {
        r.append("../");
        i = i + 1;
    }
    r
}

/// Whether the pattern segments match the path segments the way the
/// single-crate builder reads a pattern: segment by segment from the start,
/// where a `**` segment accepts everything from there on, and otherwise
/// both must end together.
pub open spec fn leading_match(pat: Seq<Seq<char>>, segs: Seq<Seq<char>>) -> bool
    decreases pat.len(),
{
    if pat.len() == 0 {
        segs.len() == 0
    } else if segs.len() == 0 {
        false
    } else if is_double_star(pat[0]) {
        true
    } else {
        seg_match(pat[0], segs[0]) && leading_match(pat.drop_first(), segs.drop_first())
    }
}

/// Whether `path` matches `pattern` as the single-crate builder reads
/// patterns: a pattern with more segments than the path never matches.
pub open spec fn site_pattern_matches(pattern: Seq<char>, path: Seq<char>) -> bool {
    split_spec(pattern, '/').len() <= split_spec(path, '/').len()
        && leading_match(split_spec(pattern, '/'), split_spec(path, '/'))
}

/// Whether `path` (its `/`-separated text) matches the content-type
/// pattern `pattern`.
pub fn match_pattern(pattern: &str, path: &str) -> (r: bool)
    ensures
        r == site_pattern_matches(pattern@, path@),
{
    let path_chars = chars_of(path);
    let pattern_chars = chars_of(pattern);
    let segments = split_chars(&path_chars, '/');
    let pattern_segments = split_chars(&pattern_chars, '/');
    if pattern_segments.len() > segments.len() {
        return false;
    }
    let ghost P = views(pattern_segments@);
    let ghost S = views(segments@);
    let mut i: usize = 0;
    assert(P.skip(0) =~= P);
    assert(S.skip(0) =~= S);
    while i < pattern_segments.len()
        invariant
            i <= pattern_segments.len() <= segments.len(),
            views(pattern_segments@) == split_spec(pattern@, '/'),
            views(segments@) == split_spec(path@, '/'),
            leading_match(views(pattern_segments@), views(segments@))
                == leading_match(views(pattern_segments@).skip(i as int), views(segments@).skip(i as int)),
        decreases pattern_segments.len() - i,
    {
        let pat = &pattern_segments[i];
        let seg = &segments[i];
        assert(views(pattern_segments@).skip(i as int)[0] == pat@);
        assert(views(segments@).skip(i as int)[0] == seg@);
        assert(views(pattern_segments@).skip(i as int).drop_first() =~= views(pattern_segments@).skip(i + 1));
        assert(views(segments@).skip(i as int).drop_first() =~= views(segments@).skip(i + 1));
        if pat.len() == 2 && pat[0] == '*' && pat[1] == '*' {
            return true;
        }
        if !segment_matches(string_from_chars(pat).as_str(), string_from_chars(seg).as_str()) {
            return false;
        }
        i = i + 1;
    }
    pattern_segments.len() == segments.len()
}

proof fn lemma_literal_leading_match(pat: Seq<Seq<char>>, segs: Seq<Seq<char>>)
    requires
        forall|i: int, k: int| 0 <= i < pat.len() && 0 <= k < pat[i].len() ==> pat[i][k] != '*',
    ensures
        leading_match(pat, segs) <==> pat == segs,
    decreases pat.len(),
{
    if pat.len() == 0 {
        if segs.len() == 0 {
            assert(pat =~= segs);
        }
    } else if segs.len() > 0 {
        assert(!is_double_star(pat[0]));
        crate::pattern::lemma_literal_segment_matches_only_itself(pat[0], segs[0]);
        lemma_literal_leading_match(pat.drop_first(), segs.drop_first());
        if pat[0] == segs[0] && pat.drop_first() == segs.drop_first() {
            assert forall|k: int| 0 <= k < pat.len() implies pat[k] == segs[k] by {
                if k > 0 {
                    assert(pat[k] == pat.drop_first()[k - 1]);
                    assert(segs[k] == segs.drop_first()[k - 1]);
                }
            }
            assert(pat =~= segs);
        }
        if pat == segs {
            assert(pat.drop_first() =~= segs.drop_first());
        }
    }
}

/// A content-type pattern without `*` matches exactly the path spelled
/// the same.
pub proof fn lemma_site_literal_pattern_matches_only_itself(pattern: Seq<char>, path: Seq<char>)
    requires
        forall|k: int| 0 <= k < pattern.len() ==> pattern[k] != '*',
    ensures
        site_pattern_matches(pattern, path) <==> pattern == path,
{
    lemma_split_parts_avoid(pattern, '/', '*');
    lemma_literal_leading_match(split_spec(pattern, '/'), split_spec(path, '/'));
    if split_spec(pattern, '/') == split_spec(path, '/') {
        lemma_split_injective(pattern, path, '/');
    }
}

/// Without a `**` segment, the leading match goes segment by segment.
proof fn lemma_leading_segmentwise(pat: Seq<Seq<char>>, segs: Seq<Seq<char>>)
    requires
        forall|i: int| 0 <= i < pat.len() ==> !is_double_star(#[trigger] pat[i]),
    ensures
        leading_match(pat, segs) <==> (pat.len() == segs.len()
            && forall|i: int| 0 <= i < pat.len() ==> seg_match(#[trigger] pat[i], segs[i])),
    decreases pat.len(),
{
    if pat.len() > 0 && segs.len() > 0 {
        assert(!is_double_star(pat[0]));
        let pt = pat.drop_first();
        let st = segs.drop_first();
        assert forall|i: int| 0 <= i < pt.len() implies !is_double_star(#[trigger] pt[i]) by {
            assert(pt[i] == pat[i + 1]);
        }
        lemma_leading_segmentwise(pt, st);
        if leading_match(pat, segs) {
            assert forall|i: int| 0 <= i < pat.len() implies seg_match(#[trigger] pat[i], segs[i]) by {
                if i > 0 {
                    assert(pat[i] == pt[i - 1]);
                    assert(segs[i] == st[i - 1]);
                }
            }
        }
        if pat.len() == segs.len() && forall|i: int| 0 <= i < pat.len() ==> seg_match(#[trigger] pat[i], segs[i]) {
            assert(seg_match(pat[0], segs[0]));
            assert forall|i: int| 0 <= i < pt.len() implies seg_match(#[trigger] pt[i], st[i]) by {
                assert(pt[i] == pat[i + 1]);
                assert(st[i] == segs[i + 1]);
                assert(seg_match(pat[i + 1], segs[i + 1]));
            }
        }
    }
}

/// Without a `**` segment, a content-type pattern matches a path exactly
/// when both have as many `/`-separated segments and each pattern segment
/// matches the path segment at the same place.
pub proof fn lemma_site_segmentwise_without_double_star(pattern: Seq<char>, path: Seq<char>)
    requires
        forall|i: int| 0 <= i < split_spec(pattern, '/').len()
            ==> !is_double_star(#[trigger] split_spec(pattern, '/')[i]),
    ensures
        site_pattern_matches(pattern, path) <==> ({
            let pat = split_spec(pattern, '/');
            let segs = split_spec(path, '/');
            pat.len() == segs.len() && forall|i: int| 0 <= i < pat.len() ==> seg_match(#[trigger] pat[i], segs[i])
        }),
{
    lemma_leading_segmentwise(split_spec(pattern, '/'), split_spec(path, '/'));
}

/// A content-type pattern that starts with `**` as its own segment matches
/// every path with at least as many segments as the pattern.
pub proof fn lemma_site_leading_double_star(pattern: Seq<char>, path: Seq<char>)
    requires
        is_double_star(split_spec(pattern, '/')[0]),
        split_spec(pattern, '/').len() <= split_spec(path, '/').len(),
    ensures
        site_pattern_matches(pattern, path),
{
    lemma_split_nonempty(pattern, '/');
}

} // verus!
