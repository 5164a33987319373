//! Paths as `/`-separated text, read component by component as a Unix path
//! is: a leading `/` is the root, empty parts and `.` parts are skipped
//! (but for a `.` that starts a relative path), and `..` is the parent.

use vstd::prelude::*;
use crate::text::{split_spec, views, chars_of, split_chars, string_from_chars, chars_eq,
    lemma_split_nonempty, lemma_split_parts_free_of_sep};

verus! {

/// One component of a path.
pub enum PathComponent {
    RootDir,
    CurDir,
    ParentDir,
    Normal(Seq<char>),
}

/// The text `.`.
pub open spec fn dot() -> Seq<char> {
    seq!['.']
}

/// The text `..`.
pub open spec fn dot_dot() -> Seq<char> {
    seq!['.', '.']
}

/// The component that a part between separators stands for, if any.
pub open spec fn part_component(part: Seq<char>) -> Option<PathComponent> {
    if part.len() == 0 || part == dot() {
        None
    } else if part == dot_dot() {
        Some(PathComponent::ParentDir)
    } else {
        Some(PathComponent::Normal(part))
    }
}

/// The components that a run of parts stands for, in order.
pub open spec fn named(parts: Seq<Seq<char>>) -> Seq<PathComponent>
    decreases parts.len(),
{
    if parts.len() == 0 {
        Seq::<PathComponent>::empty()
    } else {
        match part_component(parts.last()) {
            Some(c) => named(parts.drop_last()).push(c),
            None => named(parts.drop_last()),
        }
    }
}

/// Whether `p` starts at the root.
pub open spec fn has_root(p: Seq<char>) -> bool {
    p.len() > 0 && p[0] == '/'
}

/// The components of the path `p`.
pub open spec fn components(p: Seq<char>) -> Seq<PathComponent> {
    let parts = split_spec(p, '/');
    if has_root(p) {
        seq![PathComponent::RootDir] + named(parts.drop_first())
    } else if parts[0] == dot() {
        seq![PathComponent::CurDir] + named(parts.drop_first())
    } else {
        named(parts)
    }
}

/// `rel` appended to `base` (`Path::join`): an absolute `rel` replaces
/// `base`; otherwise a separator goes between them unless `base` is empty
/// or already ends with one.
pub open spec fn join_path(base: Seq<char>, rel: Seq<char>) -> Seq<char> {
    if has_root(rel) {
        rel
    } else if base.len() == 0 {
        rel
    } else if base.last() == '/' {
        base + rel
    } else {
        base.push('/') + rel
    }
}

/// The text that a component contributes.
pub open spec fn component_text(c: PathComponent) -> Seq<char> {
    match c {
        PathComponent::RootDir => seq!['/'],
        PathComponent::CurDir => dot(),
        PathComponent::ParentDir => dot_dot(),
        PathComponent::Normal(n) => n,
    }
}

/// The path built from components, each appended with `join_path`.
pub open spec fn text_of(comps: Seq<PathComponent>) -> Seq<char>
    decreases comps.len(),
{
    if comps.len() == 0 {
        Seq::<char>::empty()
    } else {
        join_path(text_of(comps.drop_last()), component_text(comps.last()))
    }
}

/// Whether the components of `base` begin the components of `p`
/// (`Path::starts_with`).
pub open spec fn path_starts_with(p: Seq<char>, base: Seq<char>) -> bool {
    components(base).len() <= components(p).len()
        && components(p).subrange(0, components(base).len() as int) == components(base)
}

/// The parent of `p` (`Path::parent`): the path without its last
/// component, when that component is not the root.
pub open spec fn parent_of(p: Seq<char>) -> Option<Seq<char>> {
    let comps = components(p);
    if comps.len() == 0 {
        None
    } else if comps.last() is RootDir {
        None
    } else {
        Some(text_of(comps.drop_last()))
    }
}

/// The last component of `p`, when it is a name (`Path::file_name`).
pub open spec fn file_name_of(p: Seq<char>) -> Option<Seq<char>> {
    let comps = components(p);
    if comps.len() > 0 && comps.last() is Normal {
        Some(comps.last()->Normal_0)
    } else {
        None
    }
}

/// Text without a separator extends the last part of a split.
pub proof fn lemma_split_extend(a: Seq<char>, n: Seq<char>)
    requires
        forall|k: int| 0 <= k < n.len() ==> n[k] != '/',
    ensures
        split_spec(a + n, '/') == split_spec(a, '/').update(
            split_spec(a, '/').len() - 1,
            split_spec(a, '/').last() + n,
        ),
    decreases n.len(),
{
    lemma_split_nonempty(a, '/');
    if n.len() == 0 {
        assert(a + n =~= a);
        assert(split_spec(a, '/').last() + n =~= split_spec(a, '/').last());
        assert(split_spec(a, '/').update(split_spec(a, '/').len() - 1, split_spec(a, '/').last())
            =~= split_spec(a, '/'));
    } else {
        let m = n.drop_last();
        lemma_split_extend(a, m);
        assert((a + n).drop_last() =~= a + m);
        assert((a + n).last() == n.last());
        lemma_split_nonempty(a + m, '/');
        let s = split_spec(a, '/');
        assert((s.last() + m).push(n.last()) =~= s.last() + n);
        assert(split_spec(a + n, '/') =~= s.update(s.len() - 1, s.last() + n));
    }
}

/// Whether `n` is a plain name: non-empty, without separator, and neither
/// `.` nor `..`.
pub open spec fn is_plain_name(n: Seq<char>) -> bool {
    &&& n.len() > 0
    &&& forall|k: int| 0 <= k < n.len() ==> n[k] != '/'
    &&& n != dot()
    &&& n != dot_dot()
}

proof fn lemma_named_push(parts: Seq<Seq<char>>, x: Seq<char>)
    ensures
        named(parts.push(x)) == match part_component(x) {
            Some(c) => named(parts).push(c),
            None => named(parts),
        },
{
    assert(parts.push(x).drop_last() =~= parts);
}

/// Joining a plain name onto a path adds exactly that name as its last
/// component.
pub proof fn lemma_components_join_name(a: Seq<char>, n: Seq<char>)
    requires
        is_plain_name(n),
    ensures
        components(join_path(a, n)) == components(a).push(PathComponent::Normal(n)),
{
    let e = Seq::<char>::empty();
    assert(!has_root(n));
    lemma_split_nonempty(a, '/');
    if a.len() == 0 {
        lemma_split_extend(e, n);
        assert(e + n =~= n);
        assert(split_spec(n, '/') =~= seq![n]);
        assert(seq![n].drop_last() =~= Seq::<Seq<char>>::empty());
        assert(seq![n].last() == n);
        assert(part_component(n) == Some(PathComponent::Normal(n)));
        assert(named(Seq::<Seq<char>>::empty()) =~= Seq::<PathComponent>::empty());
        assert(named(seq![n]) =~= seq![PathComponent::Normal(n)]);
        assert(seq![e].drop_last() =~= Seq::<Seq<char>>::empty());
        assert(named(seq![e]) =~= Seq::<PathComponent>::empty());
        assert(components(a) =~= Seq::<PathComponent>::empty());
        assert(components(join_path(a, n)) =~= components(a).push(PathComponent::Normal(n)));
    } else {
        // `a` followed by a separator: its split gains an empty last part
        let b = if a.last() == '/' { a } else { a.push('/') };
        let pre = if a.last() == '/' { a.drop_last() } else { a };
        assert(b.drop_last() =~= pre);
        assert(b.last() == '/');
        lemma_split_nonempty(pre, '/');
        let P = split_spec(pre, '/');
        assert(split_spec(b, '/') == P.push(e));
        lemma_split_extend(b, n);
        assert(P.push(e).update(P.len() as int, e + n) =~= P.push(n));
        assert(e + n =~= n);
        assert(join_path(a, n) == b + n);
        let J = split_spec(b + n, '/');
        assert(J == P.push(n));
        assert(has_root(b + n) == has_root(a));
        assert(J[0] == split_spec(a, '/')[0]) by {
            if a.last() == '/' {
                assert(split_spec(a, '/') == P.push(e));
            } else {
                lemma_split_extend(a, e);
                assert(a + e =~= a);
                assert(split_spec(a, '/').last() + e =~= split_spec(a, '/').last());
                assert(split_spec(a, '/').update(split_spec(a, '/').len() - 1, split_spec(a, '/').last())
                    =~= split_spec(a, '/'));
                assert(split_spec(a, '/') == P);
            }
        }
        assert(part_component(n) == Some(PathComponent::Normal(n)));
        assert(part_component(e) is None);
        if a.last() == '/' {
            assert(split_spec(a, '/') == P.push(e));
            lemma_named_push(P, n);
            lemma_named_push(P, e);
            lemma_named_push(P.drop_first(), n);
            lemma_named_push(P.drop_first(), e);
            assert(P.push(n).drop_first() =~= P.drop_first().push(n));
            assert(P.push(e).drop_first() =~= P.drop_first().push(e));
        } else {
            lemma_split_extend(a, e);
            assert(a + e =~= a);
            assert(split_spec(a, '/').update(split_spec(a, '/').len() - 1, split_spec(a, '/').last() + e)
                =~= split_spec(a, '/'));
            assert(split_spec(a, '/') == P);
            lemma_named_push(P, n);
            lemma_named_push(P.drop_first(), n);
            assert(P.push(n).drop_first() =~= P.drop_first().push(n));
        }
        assert(components(join_path(a, n)) =~= components(a).push(PathComponent::Normal(n)));
    }
}

/// A path that starts with `base` still does after a plain name is joined
/// onto it.
pub proof fn lemma_join_name_keeps_prefix(p: Seq<char>, n: Seq<char>, base: Seq<char>)
    requires
        is_plain_name(n),
        path_starts_with(p, base),
    ensures
        path_starts_with(join_path(p, n), base),
{
    lemma_components_join_name(p, n);
    let cp = components(p);
    let cb = components(base);
    assert(cp.push(PathComponent::Normal(n)).subrange(0, cb.len() as int) =~= cp.subrange(0, cb.len() as int));
}

/// A file name is a plain name.
pub proof fn lemma_file_name_is_plain(p: Seq<char>)
    requires
        file_name_of(p) is Some,
    ensures
        is_plain_name(file_name_of(p)->0),
{
    lemma_named_components_plain(p);
}

/// Every name among the components of a path is a plain name.
pub proof fn lemma_named_components_plain(p: Seq<char>)
    ensures
        forall|i: int| 0 <= i < components(p).len() && components(p)[i] is Normal
            ==> is_plain_name(#[trigger] components(p)[i]->Normal_0),
{
    let parts = split_spec(p, '/');
    lemma_split_nonempty(p, '/');
    lemma_split_parts_free_of_sep(p, '/');
    assert forall|i: int| 0 <= i < parts.len() implies
        forall|k: int| 0 <= k < #[trigger] parts[i].len() ==> parts[i][k] != '/' by {}
    lemma_named_plain(parts);
    lemma_named_plain(parts.drop_first());
}

proof fn lemma_named_plain(parts: Seq<Seq<char>>)
    requires
        forall|i: int| 0 <= i < parts.len() ==> forall|k: int| 0 <= k < #[trigger] parts[i].len() ==> parts[i][k] != '/',
    ensures
        forall|i: int| 0 <= i < named(parts).len() && named(parts)[i] is Normal
            ==> is_plain_name(#[trigger] named(parts)[i]->Normal_0),
    decreases parts.len(),
{
    if parts.len() > 0 {
        lemma_named_plain(parts.drop_last());
        assert(parts.last() == parts[parts.len() - 1]);
    }
}

/// A component of a path, as the library holds it.
#[derive(Debug, Clone)]
pub enum Component {
    RootDir,
    CurDir,
    ParentDir,
    Normal(Vec<char>),
}

impl Component {
    pub open spec fn view_spec(&self) -> PathComponent {
        match self {
            Component::RootDir => PathComponent::RootDir,
            Component::CurDir => PathComponent::CurDir,
            Component::ParentDir => PathComponent::ParentDir,
            Component::Normal(n) => PathComponent::Normal(n@),
        }
    }
}

/// The views of a vector of components.
pub open spec fn comp_views(v: Seq<Component>) -> Seq<PathComponent> {
    v.map_values(|c: Component| c.view_spec())
}

fn is_dot(p: &Vec<char>) -> (r: bool)
    ensures
        r == (p@ == dot()),
{
    let r = p.len() == 1 && p[0] == '.';
    proof {
        if p.len() == 1 && p[0] == '.' {
            assert(p@ =~= dot());
        }
    }
    r
}

fn is_dot_dot(p: &Vec<char>) -> (r: bool)
    ensures
        r == (p@ == dot_dot()),
{
    let r = p.len() == 2 && p[0] == '.' && p[1] == '.';
    proof {
        if r {
            assert(p@ =~= dot_dot());
        }
    }
    r
}

/// The components of the path `p`.
pub fn components_of(p: &str) -> (v: Vec<Component>)
    ensures
        comp_views(v@) == components(p@),
{
    let chars = chars_of(p);
    let parts = split_chars(&chars, '/');
    proof { lemma_split_nonempty(p@, '/'); }
    let mut v: Vec<Component> = Vec::new();
    let root = chars.len() > 0 && chars[0] == '/';
    let mut start: usize = 0;
    if root {
        v.push(Component::RootDir);
        start = 1;
    } else if is_dot(&parts[0]) {
        v.push(Component::CurDir);
        start = 1;
    }
    assert(views(parts@)[0] == parts@[0]@);
    let ghost lead = comp_views(v@);
    let mut i = start;
    assert(views(parts@).subrange(start as int, i as int) =~= Seq::<Seq<char>>::empty());
    assert(comp_views(v@) =~= lead + named(views(parts@).subrange(start as int, i as int)));
    while i < parts.len()
        invariant
            start <= i <= parts.len(),
            start <= 1,
            views(parts@) == split_spec(p@, '/'),
            comp_views(v@) == lead + named(views(parts@).subrange(start as int, i as int)),
        decreases parts.len() - i,
    {
        let part = &parts[i];
        let ghost sub = views(parts@).subrange(start as int, i + 1);
        assert(sub.drop_last() =~= views(parts@).subrange(start as int, i as int));
        assert(sub.last() == part@);
        let ghost before = comp_views(v@);
        if part.len() == 0 || is_dot(part) {
            assert(part_component(part@) is None);
        } else if is_dot_dot(part) {
            assert(part_component(part@) == Some(PathComponent::ParentDir));
            assert(named(sub) == named(sub.drop_last()).push(PathComponent::ParentDir));
            v.push(Component::ParentDir);
            assert(comp_views(v@) =~= before.push(PathComponent::ParentDir));
            assert(comp_views(v@) =~= lead + named(sub));
        } else {
            let n = part.clone();
            assert(n@ =~= part@);
            assert(part_component(part@) == Some(PathComponent::Normal(part@)));
            assert(named(sub) == named(sub.drop_last()).push(PathComponent::Normal(part@)));
            v.push(Component::Normal(n));
            assert(comp_views(v@) =~= before.push(PathComponent::Normal(part@)));
            assert(comp_views(v@) =~= lead + named(sub));
        }
        i = i + 1;
    }
    assert(views(parts@).subrange(start as int, parts.len() as int) =~= if start == 1 {
        views(parts@).drop_first()
    } else {
        views(parts@)
    });
    proof {
        if root {
            assert(lead =~= seq![PathComponent::RootDir]);
        } else if start == 1 {
            assert(lead =~= seq![PathComponent::CurDir]);
        } else {
            assert(lead =~= Seq::<PathComponent>::empty());
        }
    }
    v
}

/// Whether `c` and `d` are the same component.
fn component_eq(c: &Component, d: &Component) -> (r: bool)
    ensures
        r == (c.view_spec() == d.view_spec()),
{
    match (c, d) {
        (Component::RootDir, Component::RootDir) => true,
        (Component::CurDir, Component::CurDir) => true,
        (Component::ParentDir, Component::ParentDir) => true,
        (Component::Normal(a), Component::Normal(b)) => chars_eq(a, b),
        _ => false,
    }
}

/// Whether the components of `base` begin the components of `p`.
pub fn starts_with_path(p: &str, base: &str) -> (r: bool)
    ensures
        r == path_starts_with(p@, base@),
{
    let pc = components_of(p);
    let bc = components_of(base);
    if bc.len() > pc.len() {
        return false;
    }
    let mut i: usize = 0;
    while i < bc.len()
        invariant
            i <= bc.len() <= pc.len(),
            comp_views(pc@) == components(p@),
            comp_views(bc@) == components(base@),
            forall|j: int| 0 <= j < i ==> comp_views(pc@)[j] == comp_views(bc@)[j],
        decreases bc.len() - i,
    {
        if !component_eq(&pc[i], &bc[i]) {
            assert(comp_views(pc@).subrange(0, bc.len() as int)[i as int] != comp_views(bc@)[i as int]);
            return false;
        }
        i = i + 1;
    }
    assert(comp_views(pc@).subrange(0, bc.len() as int) =~= comp_views(bc@));
    true
}

/// The text of a component.
fn component_string(c: &Component) -> (r: Vec<char>)
    ensures
        r@ == component_text(c.view_spec()),
{
    match c {
        Component::RootDir => {
            let mut v = Vec::new();
            v.push('/');
            assert(v@ =~= seq!['/']);
            v
        },
        Component::CurDir => {
            let mut v = Vec::new();
            v.push('.');
            assert(v@ =~= dot());
            v
        },
        Component::ParentDir => {
            let mut v = Vec::new();
            v.push('.');
            v.push('.');
            assert(v@ =~= dot_dot());
            v
        },
        Component::Normal(n) => n.clone(),
    }
}

/// `rel` appended to `base`, as `Path::join` does.
pub fn join_chars(base: &Vec<char>, rel: &Vec<char>) -> (r: Vec<char>)
    ensures
        r@ == join_path(base@, rel@),
{
    if rel.len() > 0 && rel[0] == '/' {
        return rel.clone();
    }
    if base.len() == 0 {
        return rel.clone();
    }
    let mut r = base.clone();
    if base[base.len() - 1] != '/' {
        r.push('/');
    }
    let mut i: usize = 0;
    let ghost start = r@;
    while i < rel.len()
        invariant
            i <= rel.len(),
            r@ == start + rel@.take(i as int),
        decreases rel.len() - i,
    {
        r.push(rel[i]);
        i = i + 1;
        assert(r@ =~= start + rel@.take(i as int));
    }
    assert(rel@.take(rel.len() as int) =~= rel@);
    r
}

/// `rel` appended to `base`, as `Path::join` does.
pub fn join(base: &str, rel: &str) -> (r: String)
    ensures
        r@ == join_path(base@, rel@),
{
    let b = chars_of(base);
    let c = chars_of(rel);
    let j = join_chars(&b, &c);
    string_from_chars(&j)
}

/// The path built from the components `comps[0..n]`.
pub fn text_of_components(comps: &Vec<Component>, n: usize) -> (r: Vec<char>)
    requires
        n <= comps.len(),
    ensures
        r@ == text_of(comp_views(comps@).take(n as int)),
{
    let mut r: Vec<char> = Vec::new();
    let mut i: usize = 0;
    assert(comp_views(comps@).take(0) =~= Seq::<PathComponent>::empty());
    while i < n
        invariant
            i <= n <= comps.len(),
            r@ == text_of(comp_views(comps@).take(i as int)),
        decreases n - i,
    {
        let piece = component_string(&comps[i]);
        assert(comp_views(comps@).take(i + 1).drop_last() =~= comp_views(comps@).take(i as int));
        r = join_chars(&r, &piece);
        i = i + 1;
    }
    r
}

/// The parent of `p`, as `Path::parent` gives it.
pub fn parent(p: &str) -> (r: Option<String>)
    ensures
        match r {
            Some(s) => parent_of(p@) == Some(s@),
            None => parent_of(p@) is None,
        },
{
    let comps = components_of(p);
    if comps.len() == 0 {
        return None;
    }
    match &comps[comps.len() - 1] {
        Component::RootDir => None,
        _ => {
            let t = text_of_components(&comps, comps.len() - 1);
            assert(comp_views(comps@).take(comps.len() - 1) =~= comp_views(comps@).drop_last());
            Some(string_from_chars(&t))
        },
    }
}

/// The last component of `p` when it is a name, as `Path::file_name` gives it.
pub fn file_name(p: &str) -> (r: Option<String>)
    ensures
        match r {
            Some(s) => file_name_of(p@) == Some(s@),
            None => file_name_of(p@) is None,
        },
{
    let comps = components_of(p);
    if comps.len() == 0 {
        return None;
    }
    match &comps[comps.len() - 1] {
        Component::Normal(n) => Some(string_from_chars(n)),
        _ => None,
    }
}

/// Whether `p` is relative, that is, does not start at the root.
pub fn is_relative(p: &str) -> (r: bool)
    ensures
        r == !has_root(p@),
{
    let c = chars_of(p);
    !(c.len() > 0 && c[0] == '/')
}

/// What remains of `p` once the leading components of `base` are taken off
/// (`Path::strip_prefix`), or `None` where `p` does not start with `base`.
/// The remainder is written from its components.
pub open spec fn strip_prefix_of(p: Seq<char>, base: Seq<char>) -> Option<Seq<char>> {
    if path_starts_with(p, base) {
        Some(text_of(components(p).skip(components(base).len() as int)))
    } else {
        None
    }
}

/// The path built from the components `comps[k..]`.
fn text_of_components_from(comps: &Vec<Component>, k: usize) -> (r: Vec<char>)
    requires
        k <= comps.len(),
    ensures
        r@ == text_of(comp_views(comps@).skip(k as int)),
{
    let mut r: Vec<char> = Vec::new();
    let mut i: usize = k;
    assert(comp_views(comps@).subrange(k as int, k as int) =~= Seq::<PathComponent>::empty());
    while i < comps.len()
        invariant
            k <= i <= comps.len(),
            r@ == text_of(comp_views(comps@).subrange(k as int, i as int)),
        decreases comps.len() - i,
    {
        let piece = component_string(&comps[i]);
        assert(comp_views(comps@).subrange(k as int, i + 1).drop_last()
            =~= comp_views(comps@).subrange(k as int, i as int));
        r = join_chars(&r, &piece);
        i = i + 1;
    }
    assert(comp_views(comps@).subrange(k as int, comps.len() as int) =~= comp_views(comps@).skip(k as int));
    r
}

/// What remains of `p` once `base` is taken off its front, as
/// `Path::strip_prefix` gives it.
pub fn strip_prefix(p: &str, base: &str) -> (r: Option<String>)
    ensures
        match r {
            Some(s) => strip_prefix_of(p@, base@) == Some(s@),
            None => strip_prefix_of(p@, base@) is None,
        },
{
    if !starts_with_path(p, base) {
        return None;
    }
    let pc = components_of(p);
    let bc = components_of(base);
    let t = text_of_components_from(&pc, bc.len());
    Some(string_from_chars(&t))
}

/// The number of components of `p` (`Path::components().count()`).
pub fn component_count(p: &str) -> (r: usize)
    ensures
        r == components(p@).len(),
{
    let comps = components_of(p);
    comps.len()
}

/// The index of the last `.` in `n`, or -1 where it has none.
pub open spec fn last_dot_index(n: Seq<char>) -> int
    decreases n.len(),
{
    if n.len() == 0 {
        -1
    } else if n.last() == '.' {
        n.len() - 1
    } else {
        last_dot_index(n.drop_last())
    }
}

/// The stem of a file name (`Path::file_stem`): the name up to its last
/// `.`, unless that `.` is the first character or there is none.
pub open spec fn file_stem_text(n: Seq<char>) -> Seq<char> {
    if last_dot_index(n) > 0 {
        n.take(last_dot_index(n))
    } else {
        n
    }
}

/// `p` with the extension of its file name set to `ext`
/// (`Path::with_extension`); a path without a file name is kept as it is.
/// The directory part is written from its components.
pub open spec fn with_extension_of(p: Seq<char>, ext: Seq<char>) -> Seq<char> {
    match file_name_of(p) {
        Some(n) => join_path(
            text_of(components(p).drop_last()),
            if ext.len() == 0 { file_stem_text(n) } else { file_stem_text(n) + seq!['.'] + ext },
        ),
        None => p,
    }
}

proof fn lemma_last_dot_bounds(n: Seq<char>)
    ensures
        -1 <= last_dot_index(n) < n.len(),
    decreases n.len(),
{
    if n.len() > 0 {
        lemma_last_dot_bounds(n.drop_last());
    }
}

/// The index of the last `.` in `n`.
fn last_dot(n: &Vec<char>) -> (r: Option<usize>)
    ensures
        match r {
            Some(i) => last_dot_index(n@) == i,
            None => last_dot_index(n@) == -1,
        },
{
    let mut last: Option<usize> = None;
    let mut i: usize = 0;
    assert(n@.take(0) =~= Seq::<char>::empty());
    while i < n.len()
        invariant
            i <= n.len(),
            match last {
                Some(j) => last_dot_index(n@.take(i as int)) == j,
                None => last_dot_index(n@.take(i as int)) == -1,
            },
        decreases n.len() - i,
    {
        assert(n@.take(i + 1).drop_last() =~= n@.take(i as int));
        if n[i] == '.' {
            last = Some(i);
        }
        i = i + 1;
    }
    assert(n@.take(n.len() as int) =~= n@);
    last
}

/// `p` with the extension of its file name set to `ext`, as
/// `Path::with_extension` gives it.
pub fn with_extension(p: &str, ext: &str) -> (r: String)
    ensures
        r@ == with_extension_of(p@, ext@),
{
    let comps = components_of(p);
    if comps.len() == 0 {
        return p.to_owned();
    }
    match &comps[comps.len() - 1] {
        Component::Normal(n) => {
            let dir = text_of_components(&comps, comps.len() - 1);
            assert(comp_views(comps@).take(comps.len() - 1) =~= comp_views(comps@).drop_last());
            proof { lemma_last_dot_bounds(n@); }
            let mut name: Vec<char> = match last_dot(n) {
                Some(i) => {
                    if i > 0 {
                        let mut stem: Vec<char> = Vec::new();
                        let mut k: usize = 0;
                        while k < i
                            invariant
                                k <= i < n.len(),
                                stem@ == n@.take(k as int),
                            decreases i - k,
                        {
                            stem.push(n[k]);
                            k = k + 1;
                            assert(stem@ =~= n@.take(k as int));
                        }
                        stem
                    } else {
                        n.clone()
                    }
                },
                None => n.clone(),
            };
            assert(name@ == file_stem_text(n@));
            let e = chars_of(ext);
            if e.len() > 0 {
                let ghost stem_view = name@;
                name.push('.');
                let mut k: usize = 0;
                while k < e.len()
                    invariant
                        k <= e.len(),
                        name@ == stem_view + seq!['.'] + e@.take(k as int),
                    decreases e.len() - k,
                {
                    name.push(e[k]);
                    k = k + 1;
                    assert(name@ =~= stem_view + seq!['.'] + e@.take(k as int));
                }
                assert(e@.take(e.len() as int) =~= e@);
            }
            let j = join_chars(&dir, &name);
            string_from_chars(&j)
        },
        _ => p.to_owned(),
    }
}

/// Whether `a` and `b` have the same components (`Path` equality).
pub open spec fn same_path(a: Seq<char>, b: Seq<char>) -> bool {
    components(a) == components(b)
}

/// Whether `a` and `b` are the same path, component by component.
pub fn path_eq(a: &str, b: &str) -> (r: bool)
    ensures
        r == same_path(a@, b@),
{
    let ac = components_of(a);
    let bc = components_of(b);
    if ac.len() != bc.len() {
        assert(comp_views(ac@).len() != comp_views(bc@).len());
        return false;
    }
    let mut i: usize = 0;
    while i < ac.len()
        invariant
            i <= ac.len(),
            ac.len() == bc.len(),
            comp_views(ac@) == components(a@),
            comp_views(bc@) == components(b@),
            forall|j: int| 0 <= j < i ==> comp_views(ac@)[j] == comp_views(bc@)[j],
        decreases ac.len() - i,
    {
        if !component_eq(&ac[i], &bc[i]) {
            assert(comp_views(ac@)[i as int] != comp_views(bc@)[i as int]);
            return false;
        }
        i = i + 1;
    }
    assert(comp_views(ac@) =~= comp_views(bc@));
    true
}

/// The extension of the file name of `p` (`Path::extension`): what follows
/// its last `.`, unless that `.` is the first character or there is none.
pub open spec fn extension_of(p: Seq<char>) -> Option<Seq<char>> {
    match file_name_of(p) {
        Some(n) => if last_dot_index(n) > 0 {
            Some(n.skip(last_dot_index(n) + 1))
        } else {
            None
        },
        None => None,
    }
}

/// The extension of the file name of `p`, as `Path::extension` gives it.
pub fn extension(p: &str) -> (r: Option<String>)
    ensures
        match r {
            Some(e) => extension_of(p@) == Some(e@),
            None => extension_of(p@) is None,
        },
{
    let comps = components_of(p);
    if comps.len() == 0 {
        return None;
    }
    match &comps[comps.len() - 1] {
        Component::Normal(n) => {
            proof { lemma_last_dot_bounds(n@); }
            match last_dot(n) {
                Some(i) => {
                    if i > 0 {
                        let mut ext: Vec<char> = Vec::new();
                        let mut k: usize = i + 1;
                        while k < n.len()
                            invariant
                                i < k <= n.len(),
                                ext@ == n@.subrange(i + 1, k as int),
                            decreases n.len() - k,
                        {
                            ext.push(n[k]);
                            k = k + 1;
                            assert(ext@ =~= n@.subrange(i + 1, k as int));
                        }
                        assert(n@.subrange(i + 1, n.len() as int) =~= n@.skip(i + 1));
                        Some(string_from_chars(&ext))
                    } else {
                        None
                    }
                },
                None => None,
            }
        },
        _ => None,
    }
}

/// The stem of the file name of `p` (`Path::file_stem`).
pub open spec fn file_stem_of(p: Seq<char>) -> Option<Seq<char>> {
    match file_name_of(p) {
        Some(n) => Some(file_stem_text(n)),
        None => None,
    }
}

/// The stem of the file name of `p`, as `Path::file_stem` gives it.
pub fn file_stem(p: &str) -> (r: Option<String>)
    ensures
        match r {
            Some(s) => file_stem_of(p@) == Some(s@),
            None => file_stem_of(p@) is None,
        },
{
    let comps = components_of(p);
    if comps.len() == 0 {
        return None;
    }
    match &comps[comps.len() - 1] {
        Component::Normal(n) => {
            proof { lemma_last_dot_bounds(n@); }
            let stem: Vec<char> = match last_dot(n) {
                Some(i) => {
                    if i > 0 {
                        let mut out: Vec<char> = Vec::new();
                        let mut k: usize = 0;
                        while k < i
                            invariant
                                k <= i < n.len(),
                                out@ == n@.take(k as int),
                            decreases i - k,
                        {
                            out.push(n[k]);
                            k = k + 1;
                            assert(out@ =~= n@.take(k as int));
                        }
                        out
                    } else {
                        n.clone()
                    }
                },
                None => n.clone(),
            };
            Some(string_from_chars(&stem))
        },
        _ => None,
    }
}

} // verus!
