//! Glob matching of content paths against content-rule patterns.
//!
//! A pattern and a path are both split at `/` into segments. Within a
//! segment, `*` matches characters of the path segment; a whole segment
//! `**` matches any number of path segments.

use vstd::prelude::*;
use crate::text::{
    split_spec, views, chars_of, split_chars, lemma_split_nonempty, lemma_split_parts_avoid,
    lemma_split_single_part, lemma_split_injective,
};

verus! {

/// Whether `p` is the segment `**`.
pub open spec fn is_double_star(p: Seq<char>) -> bool {
    p.len() == 2 && p[0] == '*' && p[1] == '*'
}

/// Whether the pattern segment `p` matches the path segment `s`.
///
/// A `*` that ends the pattern matches whatever is left; a `*` followed by
/// more pattern matches when that rest matches some non-empty suffix of
/// what is left of the segment. Any other character matches itself.
pub open spec fn seg_match(p: Seq<char>, s: Seq<char>) -> bool
    decreases p.len(), 0int,
{
    if p.len() == 0 {
        s.len() == 0
    } else if p[0] == '*' {
        if p.len() == 1 {
            true
        } else {
            star_match(p.drop_first(), s, 0)
        }
    } else {
        s.len() > 0 && s[0] == p[0] && seg_match(p.drop_first(), s.drop_first())
    }
}

/// Whether `rest` matches some suffix `s.skip(k)` with `i <= k < s.len()`.
pub open spec fn star_match(rest: Seq<char>, s: Seq<char>, i: nat) -> bool
    decreases rest.len(), s.len() + 1 - i,
{
    if i < s.len() {
        seg_match(rest, s.skip(i as int)) || star_match(rest, s, i + 1)
    } else {
        false
    }
}

/// Whether the pattern segments match the path segments.
///
/// An empty pattern matches only an empty path; a pattern left over when
/// the path is used up matches when all of it is `**`. A leading `**`
/// that ends the pattern matches the rest; a leading `**` followed by more
/// pattern matches when that rest matches some non-empty suffix of the
/// path. Any other segment must match the first path segment.
pub open spec fn slice_match(pat: Seq<Seq<char>>, segs: Seq<Seq<char>>) -> bool
    decreases pat.len(), 0int,
{
    if pat.len() == 0 {
        segs.len() == 0
    } else if segs.len() == 0 {
        forall|i: int| 0 <= i < pat.len() ==> is_double_star(#[trigger] pat[i])
    } else if is_double_star(pat[0]) {
        if pat.len() == 1 {
            true
        } else {
            suffix_match(pat.drop_first(), segs, 0)
        }
    } else {
        seg_match(pat[0], segs[0]) && slice_match(pat.drop_first(), segs.drop_first())
    }
}

/// Whether `rest` matches some suffix `segs.skip(k)` with `i <= k < segs.len()`.
pub open spec fn suffix_match(rest: Seq<Seq<char>>, segs: Seq<Seq<char>>, i: nat) -> bool
    decreases rest.len(), segs.len() + 1 - i,
{
    if i < segs.len() {
        slice_match(rest, segs.skip(i as int)) || suffix_match(rest, segs, i + 1)
    } else {
        false
    }
}

/// Whether the path `path` matches the pattern `pattern`.
pub open spec fn pattern_matches(pattern: Seq<char>, path: Seq<char>) -> bool {
    slice_match(split_spec(pattern, '/'), split_spec(path, '/'))
}

/// Whether the pattern segment `p` (from `pi` on) matches the path segment
/// `s` (from `si` on).
fn segment_matches_from(p: &Vec<char>, pi: usize, s: &Vec<char>, si: usize) -> (r: bool)
    requires
        pi <= p.len(),
        si <= s.len(),
    ensures
        r == seg_match(p@.skip(pi as int), s@.skip(si as int)),
    decreases p.len() - pi,
{
    let mut i = pi;
    let mut j = si;
    loop
        invariant
            pi <= i <= p.len(),
            j <= s.len(),
            seg_match(p@.skip(pi as int), s@.skip(si as int)) == seg_match(p@.skip(i as int), s@.skip(j as int)),
        decreases p.len() - i,
    {
        if i == p.len() {
            return j == s.len();
        }
        if p[i] == '*' {
            if i + 1 == p.len() {
                return true;
            }
            let ghost rest = p@.skip(i as int).drop_first();
            let ghost seg = s@.skip(j as int);
            assert(rest =~= p@.skip(i + 1));
            let mut k = j;
            while k < s.len()
                invariant
                    j <= k <= s.len(),
                    pi <= i,
                    i + 1 < p.len(),
                    rest == p@.skip(i + 1),
                    seg == s@.skip(j as int),
                    seg_match(p@.skip(pi as int), s@.skip(si as int)) == star_match(rest, seg, (k - j) as nat),
                decreases s.len() - k,
            {
                assert(seg.skip(k - j) =~= s@.skip(k as int));
                if segment_matches_from(p, i + 1, s, k) {
                    return true;
                }
                k = k + 1;
            }
            return false;
        }
        if j < s.len() && s[j] == p[i] {
            assert(p@.skip(i as int).drop_first() =~= p@.skip(i + 1));
            assert(s@.skip(j as int).drop_first() =~= s@.skip(j + 1));
            i = i + 1;
            j = j + 1;
        } else {
            return false;
        }
    }
}

/// Whether the pattern segment `pattern` matches the path segment `segment`.
pub fn segment_matches(pattern: &str, segment: &str) -> (r: bool)
    ensures
        r == seg_match(pattern@, segment@),
{
    let p = chars_of(pattern);
    let s = chars_of(segment);
    assert(p@.skip(0) =~= p@);
    assert(s@.skip(0) =~= s@);
    segment_matches_from(&p, 0, &s, 0)
}

fn is_double_star_exec(p: &Vec<char>) -> (r: bool)
    ensures
        r == is_double_star(p@),
{
    p.len() == 2 && p[0] == '*' && p[1] == '*'
}

/// Whether the pattern segments (from `pi` on) match the path segments
/// (from `si` on).
fn match_pattern_slice(pattern: &Vec<Vec<char>>, pi: usize, segments: &Vec<Vec<char>>, si: usize) -> (r: bool)
    requires
        pi <= pattern.len(),
        si <= segments.len(),
    ensures
        r == slice_match(views(pattern@).skip(pi as int), views(segments@).skip(si as int)),
    decreases pattern.len() - pi,
{
    if pi == pattern.len() {
        return si == segments.len();
    }
    if si == segments.len() {
        let mut j = pi;
        while j < pattern.len()
            invariant
                pi <= j <= pattern.len(),
                si == segments.len(),
                forall|k: int| 0 <= k < j - pi ==> is_double_star(#[trigger] views(pattern@).skip(pi as int)[k]),
            decreases pattern.len() - j,
        {
            if !is_double_star_exec(&pattern[j]) {
                assert(views(pattern@).skip(pi as int)[j - pi] == pattern@[j as int]@);
                return false;
            }
            assert(views(pattern@).skip(pi as int)[j - pi] == pattern@[j as int]@);
            j = j + 1;
        }
        return true;
    }
    assert(views(pattern@).skip(pi as int)[0] == pattern@[pi as int]@);
    assert(views(segments@).skip(si as int)[0] == segments@[si as int]@);
    assert(views(pattern@).skip(pi as int).drop_first() =~= views(pattern@).skip(pi + 1));
    assert(views(segments@).skip(si as int).drop_first() =~= views(segments@).skip(si + 1));
    if is_double_star_exec(&pattern[pi]) {
        if pi + 1 == pattern.len() {
            return true;
        }
        let mut i = si;
        while i < segments.len()
            invariant
                si <= i <= segments.len(),
                pi + 1 < pattern.len(),
                is_double_star(views(pattern@).skip(pi as int)[0]),
                views(pattern@).skip(pi as int).drop_first() =~= views(pattern@).skip(pi + 1),
                slice_match(views(pattern@).skip(pi as int), views(segments@).skip(si as int))
                    == suffix_match(views(pattern@).skip(pi + 1), views(segments@).skip(si as int), (i - si) as nat),
            decreases segments.len() - i,
        {
            assert(views(segments@).skip(si as int).skip(i - si) =~= views(segments@).skip(i as int));
            if match_pattern_slice(pattern, pi + 1, segments, i) {
                return true;
            }
            i = i + 1;
        }
        return false;
    }
    let p = &pattern[pi];
    let s = &segments[si];
    assert(p@.skip(0) =~= p@);
    assert(s@.skip(0) =~= s@);
    if segment_matches_from(p, 0, s, 0) {
        match_pattern_slice(pattern, pi + 1, segments, si + 1)
    } else {
        false
    }
}

/// Whether `path` (its `/`-separated text) matches the content-rule
/// pattern `pattern`.
pub fn match_pattern(pattern: &str, path: &str) -> (r: bool)
    ensures
        r == pattern_matches(pattern@, path@),
{
    let path_chars = chars_of(path);
    let pattern_chars = chars_of(pattern);
    let segments = split_chars(&path_chars, '/');
    let pattern_segments = split_chars(&pattern_chars, '/');
    assert(views(pattern_segments@).skip(0) =~= views(pattern_segments@));
    assert(views(segments@).skip(0) =~= views(segments@));
    match_pattern_slice(&pattern_segments, 0, &segments, 0)
}

/// A pattern segment without `*` matches exactly the identical segment.
pub proof fn lemma_literal_segment_matches_only_itself(p: Seq<char>, s: Seq<char>)
    requires
        forall|k: int| 0 <= k < p.len() ==> p[k] != '*',
    ensures
        seg_match(p, s) <==> p == s,
    decreases p.len(),
{
    if p.len() > 0 {
        if s.len() > 0 {
            lemma_literal_segment_matches_only_itself(p.drop_first(), s.drop_first());
            if s[0] == p[0] && p.drop_first() == s.drop_first() {
                assert forall|k: int| 0 <= k < p.len() implies p[k] == s[k] by {
                    if k > 0 {
                        assert(p[k] == p.drop_first()[k - 1]);
                        assert(s[k] == s.drop_first()[k - 1]);
                    }
                }
                assert(p =~= s);
            }
            if p == s {
                assert(p.drop_first() =~= s.drop_first());
            }
        }
    } else {
        if s.len() == 0 {
            assert(p =~= s);
        }
    }
}

/// Pattern segments without `*` match exactly the identical segments.
proof fn lemma_literal_slice_matches_only_itself(pat: Seq<Seq<char>>, segs: Seq<Seq<char>>)
    requires
        forall|i: int, k: int| 0 <= i < pat.len() && 0 <= k < pat[i].len() ==> pat[i][k] != '*',
    ensures
        slice_match(pat, segs) <==> pat == segs,
    decreases pat.len(),
{
    if pat.len() == 0 {
        if segs.len() == 0 {
            assert(pat =~= segs);
        }
    } else if segs.len() == 0 {
        assert(!is_double_star(pat[0]));
    } else {
        assert(!is_double_star(pat[0]));
        lemma_literal_segment_matches_only_itself(pat[0], segs[0]);
        lemma_literal_slice_matches_only_itself(pat.drop_first(), segs.drop_first());
        if pat[0] == segs[0] && pat.drop_first() == segs.drop_first() {
            assert forall|k: int| 0 <= k < pat.len() implies pat[k] == segs[k] by {
                if k > 0 {
                    assert(pat[k] == pat.drop_first()[k - 1]);
                    assert(segs[k] == segs.drop_first()[k - 1]);
                }
            }
            assert(pat =~= segs);
        }
        if pat == segs {
            assert(pat.drop_first() =~= segs.drop_first());
        }
    }
}

/// The pattern segment `*` matches every path segment.
pub proof fn lemma_lone_star_matches_any_segment(s: Seq<char>)
    ensures
        seg_match(seq!['*'], s),
{
}

/// Without a `**` segment, patterns match segment by segment: the path has
/// as many segments as the pattern, and each pattern segment matches the
/// path segment at the same place.
pub proof fn lemma_segmentwise_without_double_star(pat: Seq<Seq<char>>, segs: Seq<Seq<char>>)
    requires
        forall|i: int| 0 <= i < pat.len() ==> !is_double_star(#[trigger] pat[i]),
    ensures
        slice_match(pat, segs) <==> (pat.len() == segs.len()
            && forall|i: int| 0 <= i < pat.len() ==> seg_match(#[trigger] pat[i], segs[i])),
    decreases pat.len(),
{
    if pat.len() == 0 {
    } else if segs.len() == 0 {
        assert(!is_double_star(pat[0]));
    } else {
        assert(!is_double_star(pat[0]));
        let pt = pat.drop_first();
        let st = segs.drop_first();
        assert forall|i: int| 0 <= i < pt.len() implies !is_double_star(#[trigger] pt[i]) by {
            assert(pt[i] == pat[i + 1]);
        }
        lemma_segmentwise_without_double_star(pt, st);
        if slice_match(pat, segs) {
            assert forall|i: int| 0 <= i < pat.len() implies seg_match(#[trigger] pat[i], segs[i]) by {
                if i > 0 {
                    assert(pat[i] == pt[i - 1]);
                    assert(segs[i] == st[i - 1]);
                }
            }
        }
        if pat.len() == segs.len() && forall|i: int| 0 <= i < pat.len() ==> seg_match(#[trigger] pat[i], segs[i]) {
            assert(seg_match(pat[0], segs[0]));
            assert forall|i: int| 0 <= i < pt.len() implies seg_match(#[trigger] pt[i], st[i]) by {
                assert(pt[i] == pat[i + 1]);
                assert(st[i] == segs[i + 1]);
                assert(seg_match(pat[i + 1], segs[i + 1]));
            }
        }
    }
}

/// A trailing `**` matches zero or more segments: where the segments
/// before it match a path segment by segment, the pattern matches that
/// path followed by any further segments, none included.
pub proof fn lemma_trailing_double_star(pre: Seq<Seq<char>>, segs: Seq<Seq<char>>, more: Seq<Seq<char>>, ds: Seq<char>)
    requires
        is_double_star(ds),
        pre.len() == segs.len(),
        forall|i: int| 0 <= i < pre.len() ==> !is_double_star(#[trigger] pre[i]),
        forall|i: int| 0 <= i < pre.len() ==> seg_match(#[trigger] pre[i], segs[i]),
    ensures
        slice_match(pre.push(ds), segs + more),
    decreases pre.len(),
{
    let pat = pre.push(ds);
    let path = segs + more;
    if pre.len() == 0 {
        assert(pat =~= seq![ds]);
        if path.len() == 0 {
            assert(is_double_star(pat[0]));
        }
    } else {
        assert(pat[0] == pre[0]);
        assert(path[0] == segs[0]);
        assert(!is_double_star(pat[0]));
        let pt = pre.drop_first();
        let st = segs.drop_first();
        assert forall|i: int| 0 <= i < pt.len() implies !is_double_star(#[trigger] pt[i]) by {
            assert(pt[i] == pre[i + 1]);
        }
        assert forall|i: int| 0 <= i < pt.len() implies seg_match(#[trigger] pt[i], st[i]) by {
            assert(pt[i] == pre[i + 1]);
            assert(st[i] == segs[i + 1]);
        }
        lemma_trailing_double_star(pt, st, more, ds);
        assert(pat.drop_first() =~= pt.push(ds));
        assert(path.drop_first() =~= st + more);
        assert(seg_match(pre[0], segs[0]));
    }
}

/// Whether the segment `s` matches the wildcard pattern `p`: `*` matches any
/// run of characters, the empty one included; every other character matches
/// itself.
pub open spec fn wildcard(p: Seq<char>, s: Seq<char>) -> bool
    decreases p.len(), 0int,
{
    if p.len() == 0 {
        s.len() == 0
    } else if p[0] == '*' {
        wildcard_from(p.drop_first(), s, 0)
    } else {
        s.len() > 0 && s[0] == p[0] && wildcard(p.drop_first(), s.drop_first())
    }
}

/// Whether `rest` matches some suffix `s.skip(k)` with `i <= k <= s.len()`,
/// the empty suffix included.
pub open spec fn wildcard_from(rest: Seq<char>, s: Seq<char>, i: nat) -> bool
    decreases rest.len(), s.len() + 1 - i,
{
    if i <= s.len() {
        wildcard(rest, s.skip(i as int)) || wildcard_from(rest, s, i + 1)
    } else {
        false
    }
}

/// A star tries every suffix from `i` on, the empty one included.
proof fn lemma_wildcard_from_suffixes(rest: Seq<char>, s: Seq<char>, i: nat)
    ensures
        wildcard_from(rest, s, i) <==> exists|k: int| i <= k <= s.len() && #[trigger] wildcard(rest, s.skip(k)),
    decreases s.len() + 1 - i,
{
    if i <= s.len() {
        lemma_wildcard_from_suffixes(rest, s, i + 1);
        if wildcard(rest, s.skip(i as int)) {
            assert(i <= i <= s.len() && wildcard(rest, s.skip(i as int)));
        }
        if wildcard_from(rest, s, i + 1) {
            let k = choose|k: int| i + 1 <= k <= s.len() && #[trigger] wildcard(rest, s.skip(k));
            assert(i <= k <= s.len() && wildcard(rest, s.skip(k)));
        }
        if exists|k: int| i <= k <= s.len() && #[trigger] wildcard(rest, s.skip(k)) {
            let k = choose|k: int| i <= k <= s.len() && #[trigger] wildcard(rest, s.skip(k));
            if k != i {
                assert(i + 1 <= k <= s.len() && wildcard(rest, s.skip(k)));
            }
        }
    }
}

/// Whether `p` holds no two `*` in a row.
pub open spec fn no_double_star(p: Seq<char>) -> bool {
    forall|k: int| 0 <= k < p.len() - 1 ==> !(#[trigger] p[k] == '*' && p[k + 1] == '*')
}

/// A star with more pattern after it tries the suffixes from `i` on.
proof fn lemma_star_match_suffixes(rest: Seq<char>, s: Seq<char>, i: nat)
    ensures
        star_match(rest, s, i) <==> exists|k: int| i <= k < s.len() && #[trigger] seg_match(rest, s.skip(k)),
    decreases s.len() + 1 - i,
{
    if i < s.len() {
        lemma_star_match_suffixes(rest, s, i + 1);
        if seg_match(rest, s.skip(i as int)) {
            assert(i <= i < s.len() && seg_match(rest, s.skip(i as int)));
        }
        if star_match(rest, s, i + 1) {
            let k = choose|k: int| i + 1 <= k < s.len() && #[trigger] seg_match(rest, s.skip(k));
            assert(i <= k < s.len() && seg_match(rest, s.skip(k)));
        }
        if exists|k: int| i <= k < s.len() && #[trigger] seg_match(rest, s.skip(k)) {
            let k = choose|k: int| i <= k < s.len() && #[trigger] seg_match(rest, s.skip(k));
            if k != i {
                assert(i + 1 <= k < s.len() && seg_match(rest, s.skip(k)));
            }
        }
    }
}

/// Within a segment without `**`, the matcher is the wildcard match: `*`
/// matches any run of characters and every other character itself.
pub proof fn lemma_segment_is_wildcard(p: Seq<char>, s: Seq<char>)
    requires
        no_double_star(p),
    ensures
        seg_match(p, s) <==> wildcard(p, s),
    decreases p.len(), s.len(),
{
    if p.len() == 0 {
    } else {
        let rest = p.drop_first();
        assert(no_double_star(rest)) by {
            assert forall|k: int| 0 <= k < rest.len() - 1 implies !(#[trigger] rest[k] == '*' && rest[k + 1] == '*') by {
                assert(rest[k] == p[k + 1]);
                assert(rest[k + 1] == p[k + 2]);
                assert(!(p[k + 1] == '*' && p[k + 2] == '*'));
            }
        }
        if p[0] == '*' {
            if p.len() == 1 {
                assert(s.skip(s.len() as int) =~= Seq::<char>::empty());
                assert(wildcard(rest, s.skip(s.len() as int)));
                lemma_wildcard_from_suffixes(rest, s, 0);
            } else {
                assert(rest[0] != '*') by {
                    assert(!(p[0] == '*' && p[1] == '*'));
                }
                lemma_star_match_suffixes(rest, s, 0);
                assert forall|k: int| 0 <= k <= s.len() implies
                    (#[trigger] wildcard(rest, s.skip(k)) <==> (k < s.len() && seg_match(rest, s.skip(k)))) by {
                    lemma_segment_is_wildcard(rest, s.skip(k));
                    if k == s.len() {
                        assert(s.skip(k).len() == 0);
                    }
                }
                if seg_match(p, s) {
                    let k = choose|k: int| 0 <= k < s.len() && #[trigger] seg_match(rest, s.skip(k));
                    assert(wildcard(rest, s.skip(k)));
                }
                lemma_wildcard_from_suffixes(rest, s, 0);
                if wildcard(p, s) {
                    let k = choose|k: int| 0 <= k <= s.len() && #[trigger] wildcard(rest, s.skip(k));
                    assert(seg_match(rest, s.skip(k)));
                }
            }
        } else {
            if s.len() > 0 {
                lemma_segment_is_wildcard(rest, s.drop_first());
            }
        }
    }
}

/// Whether the path segments `segs` match the glob pattern segments `pat`:
/// a `**` segment matches any run of zero or more path segments; every other
/// pattern segment matches exactly one path segment by [`wildcard`].
pub open spec fn glob(pat: Seq<Seq<char>>, segs: Seq<Seq<char>>) -> bool
    decreases pat.len(), 0int,
{
    if pat.len() == 0 {
        segs.len() == 0
    } else if is_double_star(pat[0]) {
        glob_from(pat.drop_first(), segs, 0)
    } else {
        segs.len() > 0 && wildcard(pat[0], segs[0]) && glob(pat.drop_first(), segs.drop_first())
    }
}

/// Whether `rest` matches some suffix `segs.skip(k)` with
/// `i <= k <= segs.len()`, the empty suffix included.
pub open spec fn glob_from(rest: Seq<Seq<char>>, segs: Seq<Seq<char>>, i: nat) -> bool
    decreases rest.len(), segs.len() + 1 - i,
{
    if i <= segs.len() {
        glob(rest, segs.skip(i as int)) || glob_from(rest, segs, i + 1)
    } else {
        false
    }
}

/// A `**` tries every run of segments from `i` on, the empty one included.
proof fn lemma_glob_from_suffixes(rest: Seq<Seq<char>>, segs: Seq<Seq<char>>, i: nat)
    ensures
        glob_from(rest, segs, i) <==> exists|k: int| i <= k <= segs.len() && #[trigger] glob(rest, segs.skip(k)),
    decreases segs.len() + 1 - i,
{
    if i <= segs.len() {
        lemma_glob_from_suffixes(rest, segs, i + 1);
        if glob(rest, segs.skip(i as int)) {
            assert(i <= i <= segs.len() && glob(rest, segs.skip(i as int)));
        }
        if glob_from(rest, segs, i + 1) {
            let k = choose|k: int| i + 1 <= k <= segs.len() && #[trigger] glob(rest, segs.skip(k));
            assert(i <= k <= segs.len() && glob(rest, segs.skip(k)));
        }
        if exists|k: int| i <= k <= segs.len() && #[trigger] glob(rest, segs.skip(k)) {
            let k = choose|k: int| i <= k <= segs.len() && #[trigger] glob(rest, segs.skip(k));
            if k != i {
                assert(i + 1 <= k <= segs.len() && glob(rest, segs.skip(k)));
            }
        }
    }
}

/// The matcher's `**` before more pattern tries the non-empty runs.
proof fn lemma_suffix_match_suffixes(rest: Seq<Seq<char>>, segs: Seq<Seq<char>>, i: nat)
    ensures
        suffix_match(rest, segs, i) <==> exists|k: int| i <= k < segs.len() && #[trigger] slice_match(rest, segs.skip(k)),
    decreases segs.len() + 1 - i,
{
    if i < segs.len() {
        lemma_suffix_match_suffixes(rest, segs, i + 1);
        if slice_match(rest, segs.skip(i as int)) {
            assert(i <= i < segs.len() && slice_match(rest, segs.skip(i as int)));
        }
        if suffix_match(rest, segs, i + 1) {
            let k = choose|k: int| i + 1 <= k < segs.len() && #[trigger] slice_match(rest, segs.skip(k));
            assert(i <= k < segs.len() && slice_match(rest, segs.skip(k)));
        }
        if exists|k: int| i <= k < segs.len() && #[trigger] slice_match(rest, segs.skip(k)) {
            let k = choose|k: int| i <= k < segs.len() && #[trigger] slice_match(rest, segs.skip(k));
            if k != i {
                assert(i + 1 <= k < segs.len() && slice_match(rest, segs.skip(k)));
            }
        }
    }
}

/// A glob pattern matches no segment at all exactly when it is all `**`.
proof fn lemma_glob_empty(pat: Seq<Seq<char>>)
    ensures
        glob(pat, Seq::<Seq<char>>::empty()) <==> forall|i: int| 0 <= i < pat.len() ==> is_double_star(#[trigger] pat[i]),
    decreases pat.len(),
{
    let e = Seq::<Seq<char>>::empty();
    if pat.len() > 0 {
        let rest = pat.drop_first();
        lemma_glob_empty(rest);
        if is_double_star(pat[0]) {
            lemma_glob_from_suffixes(rest, e, 0);
            assert(e.skip(0) =~= e);
            if glob(rest, e) {
                assert(glob(rest, e.skip(0)));
            }
            if glob(pat, e) {
                let k = choose|k: int| 0 <= k <= e.len() && #[trigger] glob(rest, e.skip(k));
                assert(k == 0);
            }
        }
        assert forall|i: int| 0 < i < pat.len() implies pat[i] == rest[i - 1] by {}
        if forall|i: int| 0 <= i < pat.len() ==> is_double_star(#[trigger] pat[i]) {
            assert forall|i: int| 0 <= i < rest.len() implies is_double_star(#[trigger] rest[i]) by {
                assert(rest[i] == pat[i + 1]);
            }
        }
        if is_double_star(pat[0]) && forall|i: int| 0 <= i < rest.len() ==> is_double_star(#[trigger] rest[i]) {
            assert forall|i: int| 0 <= i < pat.len() implies is_double_star(#[trigger] pat[i]) by {
                if i > 0 {
                    assert(pat[i] == rest[i - 1]);
                }
            }
        }
    }
}

/// A non-empty pattern of `**` segments alone matches every path.
proof fn lemma_all_double_star_matches(pat: Seq<Seq<char>>, segs: Seq<Seq<char>>)
    requires
        pat.len() > 0,
        forall|i: int| 0 <= i < pat.len() ==> is_double_star(#[trigger] pat[i]),
    ensures
        slice_match(pat, segs),
    decreases pat.len(),
{
    assert(is_double_star(pat[0]));
    if segs.len() > 0 && pat.len() > 1 {
        let rest = pat.drop_first();
        assert forall|i: int| 0 <= i < rest.len() implies is_double_star(#[trigger] rest[i]) by {
            assert(rest[i] == pat[i + 1]);
        }
        lemma_all_double_star_matches(rest, segs);
        assert(segs.skip(0) =~= segs);
        assert(slice_match(rest, segs.skip(0)));
        assert(suffix_match(rest, segs, 0));
    }
}

/// Whether each pattern segment is `**` or holds no two `*` in a row.
pub open spec fn segments_well_starred(pat: Seq<Seq<char>>) -> bool {
    forall|i: int| 0 <= i < pat.len() ==> is_double_star(#[trigger] pat[i]) || no_double_star(pat[i])
}

/// The glob law of the matcher: where every pattern segment is `**` or
/// holds no `**`, a `**` segment matches any run of zero or more path
/// segments and every other pattern segment matches exactly one path
/// segment, `*` matching any run of characters within it.
pub proof fn lemma_slice_is_glob(pat: Seq<Seq<char>>, segs: Seq<Seq<char>>)
    requires
        segments_well_starred(pat),
    ensures
        slice_match(pat, segs) <==> glob(pat, segs),
    decreases pat.len(), segs.len(),
{
    if pat.len() == 0 {
    } else {
        let rest = pat.drop_first();
        assert(segments_well_starred(rest)) by {
            assert forall|i: int| 0 <= i < rest.len() implies is_double_star(#[trigger] rest[i]) || no_double_star(rest[i]) by {
                assert(rest[i] == pat[i + 1]);
            }
        }
        if segs.len() == 0 {
            lemma_glob_empty(pat);
            assert(segs =~= Seq::<Seq<char>>::empty());
        } else if is_double_star(pat[0]) {
            lemma_glob_from_suffixes(rest, segs, 0);
            assert(glob(pat, segs) == glob_from(rest, segs, 0));
            if pat.len() == 1 {
                assert(segs.skip(segs.len() as int) =~= Seq::<Seq<char>>::empty());
                assert(glob(rest, segs.skip(segs.len() as int)));
            } else {
                lemma_suffix_match_suffixes(rest, segs, 0);
                assert(slice_match(pat, segs) == suffix_match(rest, segs, 0));
                assert forall|k: int| 0 <= k < segs.len() implies
                    (#[trigger] slice_match(rest, segs.skip(k)) <==> glob(rest, segs.skip(k))) by {
                    lemma_slice_is_glob(rest, segs.skip(k));
                }
                if glob(pat, segs) {
                    let k = choose|k: int| 0 <= k <= segs.len() && #[trigger] glob(rest, segs.skip(k));
                    if k == segs.len() {
                        assert(segs.skip(k) =~= Seq::<Seq<char>>::empty());
                        lemma_glob_empty(rest);
                        lemma_all_double_star_matches(rest, segs);
                        assert(segs.skip(0) =~= segs);
                        assert(slice_match(rest, segs.skip(0)));
                    } else {
                        assert(slice_match(rest, segs.skip(k)));
                    }
                }
                if slice_match(pat, segs) {
                    let k = choose|k: int| 0 <= k < segs.len() && #[trigger] slice_match(rest, segs.skip(k));
                    assert(glob(rest, segs.skip(k)));
                }
            }
        } else {
            assert(no_double_star(pat[0]));
            lemma_segment_is_wildcard(pat[0], segs[0]);
            lemma_slice_is_glob(rest, segs.drop_first());
            assert(slice_match(pat, segs) == (seg_match(pat[0], segs[0]) && slice_match(rest, segs.drop_first())));
            assert(glob(pat, segs) == (wildcard(pat[0], segs[0]) && glob(rest, segs.drop_first())));
        }
    }
}

/// The glob law of [`match_pattern`]: where each `/`-separated segment of
/// the pattern is `**` or holds no `**`, the path matches exactly when its
/// segments match the pattern's as [`glob`] says.
pub proof fn lemma_pattern_is_glob(pattern: Seq<char>, path: Seq<char>)
    requires
        segments_well_starred(split_spec(pattern, '/')),
    ensures
        pattern_matches(pattern, path) <==> glob(split_spec(pattern, '/'), split_spec(path, '/')),
{
    lemma_slice_is_glob(split_spec(pattern, '/'), split_spec(path, '/'));
}

/// A pattern that holds no `*` matches exactly the path spelled the same.
pub proof fn lemma_literal_pattern_matches_only_itself(pattern: Seq<char>, path: Seq<char>)
    requires
        forall|k: int| 0 <= k < pattern.len() ==> pattern[k] != '*',
    ensures
        pattern_matches(pattern, path) <==> pattern == path,
{
    lemma_split_parts_avoid(pattern, '/', '*');
    lemma_literal_slice_matches_only_itself(split_spec(pattern, '/'), split_spec(path, '/'));
    if split_spec(pattern, '/') == split_spec(path, '/') {
        lemma_split_injective(pattern, path, '/');
    }
}

/// The split of a text without `/` is that text alone.
proof fn lemma_split_of_star_runs()
    ensures
        split_spec(seq!['*'], '/') == seq![seq!['*']],
        split_spec(seq!['*', '*'], '/') == seq![seq!['*', '*']],
{
    let e = Seq::<char>::empty();
    let one = seq!['*'];
    let two = seq!['*', '*'];
    assert(split_spec(e, '/') == seq![e]);
    assert(one.drop_last() =~= e);
    assert(one.last() == '*');
    assert(e.push('*') =~= one);
    assert(seq![e].update(0, e.push('*')) =~= seq![one]);
    assert(split_spec(one, '/') == seq![one]);
    assert(two.drop_last() =~= one);
    assert(two.last() == '*');
    assert(one.push('*') =~= two);
    assert(seq![one].update(0, one.push('*')) =~= seq![two]);
    assert(split_spec(two, '/') == seq![two]);
}

/// The pattern `**` matches every path.
pub proof fn lemma_double_star_matches_everything(path: Seq<char>)
    ensures
        pattern_matches(seq!['*', '*'], path),
{
    lemma_split_of_star_runs();
    lemma_split_nonempty(path, '/');
}

/// The pattern `*` matches exactly the paths of a single segment, those
/// without `/`.
pub proof fn lemma_single_star_matches_single_segments(path: Seq<char>)
    ensures
        pattern_matches(seq!['*'], path) <==> (forall|k: int| 0 <= k < path.len() ==> path[k] != '/'),
{
    let p = seq!['*'];
    lemma_split_of_star_runs();
    lemma_split_nonempty(path, '/');
    lemma_split_single_part(path, '/');
    let segs = split_spec(path, '/');
    assert(seq![p].drop_first() =~= Seq::<Seq<char>>::empty());
    assert(seg_match(p, segs[0]));
    assert(seq![p][0] == p);
    assert(!is_double_star(p));
    assert(slice_match(seq![p], segs) == (segs.len() == 1)) by {
        assert(seq![p].drop_first() =~= Seq::<Seq<char>>::empty());
        assert(slice_match(Seq::<Seq<char>>::empty(), segs.drop_first()) == (segs.drop_first().len() == 0));
    }
}

} // verus!
