//! The file system that the library reads content from and writes sites
//! to, as a trait that callers implement, and the path-safety rules built
//! on top of it.

use vstd::prelude::*;
use crate::paths::{
    Component, PathComponent, components, components_of, comp_views, text_of, join_path,
    parent_of, file_name_of, path_starts_with, text_of_components, join, parent, file_name,
    starts_with_path, lemma_file_name_is_plain, lemma_join_name_keeps_prefix,
};
use crate::text::string_from_chars;

verus! {

/// The kind of an I/O failure.
#[derive(Debug, Clone, Copy, PartialEq, Eq, Structural)]
pub enum IoErrorKind {
    NotFound,
    PermissionDenied,
    AlreadyExists,
    InvalidInput,
    InvalidData,
    CrossesDevices,
    Other,
}

/// An I/O failure: its kind and the text it displays.
#[derive(Debug, Clone, PartialEq, Eq)]
pub struct IoError {
    pub kind: IoErrorKind,
    pub message: String,
}

/// The result of a file system operation.
pub type IoResult<T> = core::result::Result<T, IoError>;

/// The error reported when a path would leave its base.
pub fn traversal_error() -> (e: IoError)
    ensures
        e.kind == IoErrorKind::PermissionDenied,
        e.message@ == "path traversal detected"@,
{
    IoError { kind: IoErrorKind::PermissionDenied, message: "path traversal detected".to_owned() }
}

/// The operations on files and directories that the library needs.
/// Paths are `/`-separated text.
pub trait FileSystem {
    fn read_to_string(&self, path: &str) -> IoResult<String>;
    fn read_bytes(&self, path: &str) -> IoResult<Vec<u8>>;
    fn write(&self, path: &str, content: &[u8]) -> IoResult<()>;
    fn create_dir_all(&self, path: &str) -> IoResult<()>;
    fn remove_dir_all(&self, path: &str) -> IoResult<()>;
    fn remove_file(&self, path: &str) -> IoResult<()>;
    fn create_dir(&self, path: &str) -> IoResult<()>;
    fn path_exists(&self, path: &str) -> bool;
    fn is_dir(&self, path: &str) -> bool;
    fn is_file(&self, path: &str) -> bool;
    fn read_dir(&self, path: &str) -> IoResult<Vec<String>>;
    fn copy_file(&self, from: &str, to: &str) -> IoResult<u64>;
    fn copy_dir_all(&self, from: &str, to: &str) -> IoResult<()>;
    fn walk_dir(&self, root: &str) -> IoResult<Vec<String>>;
    fn canonicalize(&self, path: &str) -> IoResult<String>;
    fn rename(&self, from: &str, to: &str) -> IoResult<()>;
    fn atomic_write(&self, path: &str, content: &[u8]) -> IoResult<()>;
    fn touch(&self, path: &str) -> IoResult<()>;
    fn is_symlink(&self, path: &str) -> bool;
    fn read_link(&self, path: &str) -> IoResult<String>;
    fn hard_link(&self, from: &str, to: &str) -> IoResult<()>;

    /// Copies a directory with everything in it, or a single file.
    fn copy(&self, from: &str, to: &str) -> IoResult<()> {
        if self.is_dir(from) {
            self.copy_dir_all(from, to)
        } else {
            match self.copy_file(from, to) {
                Ok(_) => Ok(()),
                Err(e) => Err(e),
            }
        }
    }

    /// Renames `from` to `to`; across devices, copies and then removes.
    fn rename_or_copy(&self, from: &str, to: &str) -> IoResult<()> {
        match self.rename(from, to) {
            Ok(()) => Ok(()),
            Err(e) => {
                if e.kind == IoErrorKind::CrossesDevices {
                    match self.copy_dir_all(from, to) {
                        Ok(()) => self.remove_dir_all(from),
                        Err(e2) => Err(e2),
                    }
                } else {
                    Err(e)
                }
            },
        }
    }
}

/// The components of a candidate path with `.` dropped and each `..`
/// cancelling the name before it; `None` when a `..` has no name before it
/// to cancel (it would climb out of the base).
pub open spec fn contained_components(comps: Seq<PathComponent>) -> Option<Seq<PathComponent>>
    decreases comps.len(),
{
    if comps.len() == 0 {
        Some(Seq::<PathComponent>::empty())
    } else {
        match contained_components(comps.drop_last()) {
            None => None,
            Some(stack) => match comps.last() {
                PathComponent::CurDir => Some(stack),
                PathComponent::ParentDir => if stack.len() > 0 && stack.last() is Normal {
                    Some(stack.drop_last())
                } else {
                    None
                },
                c => Some(stack.push(c)),
            },
        }
    }
}

/// Once a `..` climbs out, more components do not bring the path back.
proof fn lemma_contained_none_stays(comps: Seq<PathComponent>, k: int)
    requires
        0 <= k <= comps.len(),
        contained_components(comps.take(k)) is None,
    ensures
        contained_components(comps) is None,
    decreases comps.len() - k,
{
    if k < comps.len() {
        assert(comps.take(k + 1).drop_last() =~= comps.take(k));
        lemma_contained_none_stays(comps, k + 1);
    } else {
        assert(comps.take(k) =~= comps);
    }
}

/// A copy of a component.
pub fn clone_component(c: &Component) -> (d: Component)
    ensures
        d.view_spec() == c.view_spec(),
{
    match c {
        Component::RootDir => Component::RootDir,
        Component::CurDir => Component::CurDir,
        Component::ParentDir => Component::ParentDir,
        Component::Normal(n) => {
            let m = n.clone();
            assert(m@ =~= n@);
            Component::Normal(m)
        },
    }
}

/// The components of `candidate` with `.` dropped and each `..` cancelling
/// the name before it, or the traversal error when a `..` has nothing to
/// cancel.
pub fn contain_candidate(candidate: &str) -> (r: IoResult<Vec<Component>>)
    ensures
        match r {
            Ok(v) => contained_components(components(candidate@)) == Some(comp_views(v@)),
            Err(e) => contained_components(components(candidate@)) is None
                && e.kind == IoErrorKind::PermissionDenied
                && e.message@ == "path traversal detected"@,
        },
{
    let comps = components_of(candidate);
    let mut stack: Vec<Component> = Vec::new();
    let mut i: usize = 0;
    assert(comp_views(comps@).take(0) =~= Seq::<PathComponent>::empty());
    while i < comps.len()
        invariant
            i <= comps.len(),
            comp_views(comps@) == components(candidate@),
            contained_components(comp_views(comps@).take(i as int)) == Some(comp_views(stack@)),
        decreases comps.len() - i,
    {
        let ghost pre = comp_views(comps@).take(i as int);
        let ghost before = comp_views(stack@);
        assert(comp_views(comps@).take(i + 1).drop_last() =~= pre);
        assert(comp_views(comps@).take(i + 1).last() == comps@[i as int].view_spec());
        match &comps[i] {
            Component::CurDir => {},
            Component::ParentDir => {
                if stack.len() == 0 {
                    proof { lemma_contained_none_stays(comp_views(comps@), i + 1); }
                    return Err(traversal_error());
                }
                let last_is_name = match &stack[stack.len() - 1] {
                    Component::Normal(_) => true,
                    _ => false,
                };
                if !last_is_name {
                    proof { lemma_contained_none_stays(comp_views(comps@), i + 1); }
                    return Err(traversal_error());
                }
                stack.pop();
                assert(comp_views(stack@) =~= before.drop_last());
            },
            c => {
                stack.push(clone_component(c));
                assert(comp_views(stack@) =~= before.push(c.view_spec()));
            },
        }
        i = i + 1;
    }
    assert(comp_views(comps@).take(comps.len() as int) =~= comp_views(comps@));
    Ok(stack)
}

fn invalid_input(message: &str) -> (e: IoError)
    ensures
        e.kind == IoErrorKind::InvalidInput,
        e.message@ == message@,
{
    IoError { kind: IoErrorKind::InvalidInput, message: message.to_owned() }
}

/// The traversal error: a path that would leave its base.
pub open spec fn is_traversal_error(e: IoError) -> bool {
    e.kind == IoErrorKind::PermissionDenied && e.message@ == "path traversal detected"@
}

/// Whether `r` is what resolving the joined path `joined` gives, given the
/// file system's answers: whether `joined` exists, and what resolving it
/// (when it exists) or its parent (when it does not) gave. An existing
/// path is its resolved form; a missing one is its resolved parent joined
/// with its file name.
pub open spec fn resolved_from(joined: Seq<char>, exists: bool, canon: IoResult<String>, r: IoResult<String>) -> bool {
    if exists {
        r == canon
    } else {
        match parent_of(joined) {
            None => r matches Err(e) && e.kind == IoErrorKind::InvalidInput && e.message@ == "path has no parent"@,
            Some(_) => match canon {
                Err(e) => r == Err::<String, IoError>(e),
                Ok(pc) => match file_name_of(joined) {
                    None => r matches Err(e) && e.kind == IoErrorKind::InvalidInput
                        && e.message@ == "path has no file name"@,
                    Some(n) => r matches Ok(p) && p@ == join_path(pc@, n),
                },
            },
        }
    }
}

/// Whether `r` is what [`canonicalize_or_join`] gives for `base` and
/// `candidate` under some answers of the file system: the traversal error
/// for a candidate whose `..` has nothing to cancel, else the joined path
/// resolved as [`resolved_from`] says.
pub open spec fn canonicalized_or_joined(base: Seq<char>, candidate: Seq<char>, r: IoResult<String>) -> bool {
    match contained_components(components(candidate)) {
        None => r matches Err(e) && is_traversal_error(e),
        Some(stack) => exists|ex: bool, canon: IoResult<String>|
            #[trigger] resolved_from(join_path(base, text_of(stack)), ex, canon, r),
    }
}

/// Whether `r` keeps the resolved path `joined` only where it starts with
/// `base_canon`: an error passes through; a path outside the base becomes
/// the traversal error.
pub open spec fn kept_within(base_canon: Seq<char>, joined: IoResult<String>, r: IoResult<String>) -> bool {
    match joined {
        Err(e) => r == Err::<String, IoError>(e),
        Ok(j) => if path_starts_with(j@, base_canon) {
            r == Ok::<String, IoError>(j)
        } else {
            r matches Err(e) && is_traversal_error(e)
        },
    }
}

/// Whether `r` is what [`safe_join_within`] gives for `base_canon` and
/// `candidate` under some answers of the file system.
pub open spec fn joined_within(base_canon: Seq<char>, candidate: Seq<char>, r: IoResult<String>) -> bool {
    exists|co: IoResult<String>| #[trigger] canonicalized_or_joined(base_canon, candidate, co)
        && kept_within(base_canon, co, r)
}

/// Whether `r` is what [`safe_join`] gives for `candidate` once resolving
/// the base answered `base_answer`: its error, or [`joined_within`] the
/// resolved base.
pub open spec fn joined_after_base(candidate: Seq<char>, base_answer: IoResult<String>, r: IoResult<String>) -> bool {
    match base_answer {
        Err(e) => r == Err::<String, IoError>(e),
        Ok(bc) => joined_within(bc@, candidate, r),
    }
}

/// A resolution of the joined candidate under some answers is what
/// [`canonicalized_or_joined`] describes.
proof fn lemma_resolved_is_canonicalized(base: Seq<char>, candidate: Seq<char>, stack: Seq<PathComponent>,
    ex: bool, canon: IoResult<String>, r: IoResult<String>)
    requires
        contained_components(components(candidate)) == Some(stack),
        resolved_from(join_path(base, text_of(stack)), ex, canon, r),
    ensures
        canonicalized_or_joined(base, candidate, r),
{
    let st = contained_components(components(candidate)).unwrap();
    assert(st == stack);
    assert(resolved_from(join_path(base, text_of(st)), ex, canon, r));
    assert(exists|ex2: bool, canon2: IoResult<String>| #[trigger] resolved_from(join_path(base, text_of(st)), ex2, canon2, r));
}

/// `candidate`, with `.` dropped and each `..` cancelling the name before
/// it, joined onto `base` and resolved: through the file system when the
/// joined path exists, else by resolving its parent and adding its file
/// name. A candidate whose `..` has nothing to cancel is refused with the
/// traversal error before any file system call.
pub fn canonicalize_or_join<F: FileSystem + ?Sized>(fs: &F, base: &str, candidate: &str) -> (r: IoResult<String>)
    ensures
        canonicalized_or_joined(base@, candidate@, r),
        contained_components(components(candidate@)) is None ==> (r matches Err(e)
            && e.kind == IoErrorKind::PermissionDenied),
{
    let stack = match contain_candidate(candidate) {
        Ok(s) => s,
        Err(e) => return Err(e),
    };
    let normalized = string_from_chars(&text_of_components(&stack, stack.len()));
    assert(comp_views(stack@).take(stack.len() as int) =~= comp_views(stack@));
    let joined = join(base, normalized.as_str());
    let ghost j = joined@;
    assert(j == join_path(base@, text_of(comp_views(stack@))));
    if fs.path_exists(joined.as_str()) {
        let c = fs.canonicalize(joined.as_str());
        assert(resolved_from(j, true, c, c));
        proof { lemma_resolved_is_canonicalized(base@, candidate@, comp_views(stack@), true, c, c); }
        c
    } else {
        let parent_path = match parent(joined.as_str()) {
            Some(p) => p,
            None => {
                let r: IoResult<String> = Err(invalid_input("path has no parent"));
                assert(resolved_from(j, false, r, r));
                proof { lemma_resolved_is_canonicalized(base@, candidate@, comp_views(stack@), false, r, r); }
                return r;
            },
        };
        let pc = fs.canonicalize(parent_path.as_str());
        let ghost pcg = pc;
        let parent_canon = match pc {
            Ok(p) => p,
            Err(e) => {
                let r: IoResult<String> = Err(e);
                assert(resolved_from(j, false, pcg, r));
                proof { lemma_resolved_is_canonicalized(base@, candidate@, comp_views(stack@), false, pcg, r); }
                return r;
            },
        };
        let name = match file_name(joined.as_str()) {
            Some(n) => n,
            None => {
                let r: IoResult<String> = Err(invalid_input("path has no file name"));
                assert(resolved_from(j, false, pcg, r));
                proof { lemma_resolved_is_canonicalized(base@, candidate@, comp_views(stack@), false, pcg, r); }
                return r;
            },
        };
        let r: IoResult<String> = Ok(join(parent_canon.as_str(), name.as_str()));
        assert(resolved_from(j, false, pcg, r));
        proof { lemma_resolved_is_canonicalized(base@, candidate@, comp_views(stack@), false, pcg, r); }
        r
    }
}

/// `candidate` resolved as [`canonicalize_or_join`] does onto the
/// resolved base `base_canon`, and kept only when the result still starts
/// with `base_canon`: whatever the file system answers, an accepted path
/// lies inside the base.
pub fn safe_join_within<F: FileSystem + ?Sized>(fs: &F, base_canon: &str, candidate: &str) -> (r: IoResult<String>)
    ensures
        joined_within(base_canon@, candidate@, r),
        r matches Ok(p) ==> path_starts_with(p@, base_canon@),
        contained_components(components(candidate@)) is None ==> (r matches Err(e)
            && e.kind == IoErrorKind::PermissionDenied),
{
    let co = canonicalize_or_join(fs, base_canon, candidate);
    let ghost cog = co;
    let joined = match co {
        Ok(j) => j,
        Err(e) => {
            let r: IoResult<String> = Err(e);
            assert(kept_within(base_canon@, cog, r));
            return r;
        },
    };
    if !starts_with_path(joined.as_str(), base_canon) {
        let r: IoResult<String> = Err(traversal_error());
        assert(kept_within(base_canon@, cog, r));
        return r;
    }
    let r: IoResult<String> = Ok(joined);
    assert(kept_within(base_canon@, cog, r));
    r
}

/// A joined path never leaves its base: whatever the file system answers,
/// a path [`safe_join`] accepts starts with what resolving the base gave.
pub proof fn lemma_safe_join_stays_inside(candidate: Seq<char>, base_answer: IoResult<String>, r: IoResult<String>)
    requires
        joined_after_base(candidate, base_answer, r),
        r is Ok,
    ensures
        base_answer matches Ok(bc) && path_starts_with(r->Ok_0@, bc@),
{
    let bc = base_answer->Ok_0;
    let co = choose|co: IoResult<String>| #[trigger] canonicalized_or_joined(bc@, candidate, co)
        && kept_within(bc@, co, r);
}

/// `candidate` resolved inside `base`: `base` is resolved through the file
/// system first, then [`safe_join_within`] applies to the resolved base;
/// a failed lookup of the base is the error.
pub fn safe_join<F: FileSystem + ?Sized>(fs: &F, base: &str, candidate: &str) -> (r: IoResult<String>)
    ensures
        exists|base_answer: IoResult<String>| #[trigger] joined_after_base(candidate@, base_answer, r),
        contained_components(components(candidate@)) is None ==> r is Err,
{
    let ba = fs.canonicalize(base);
    let ghost bag = ba;
    let base_canon = match ba {
        Ok(b) => b,
        Err(e) => {
            let r: IoResult<String> = Err(e);
            assert(joined_after_base(candidate@, bag, r));
            return r;
        },
    };
    let r = safe_join_within(fs, base_canon.as_str(), candidate);
    assert(joined_after_base(candidate@, bag, r));
    r
}

} // verus!
