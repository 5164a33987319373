//! Pages are written as a YAML front matter block between `---` lines,
//! followed by Markdown. This module cuts a page into those two parts.

use vstd::prelude::*;
use crate::error::RawssgError;
use crate::text::{chars_of, string_from_chars, whitespace, is_whitespace, has_prefix};

verus! {

/// `s` without its leading whitespace (`str::trim_start`).
pub open spec fn trim_start_ws(s: Seq<char>) -> Seq<char>
    decreases s.len(),
{
    if s.len() > 0 && whitespace(s[0]) {
        trim_start_ws(s.drop_first())
    } else {
        s
    }
}

/// `s` without its trailing whitespace (`str::trim_end`).
pub open spec fn trim_end_ws(s: Seq<char>) -> Seq<char>
    decreases s.len(),
{
    if s.len() > 0 && whitespace(s.last()) {
        trim_end_ws(s.drop_last())
    } else {
        s
    }
}

/// `s` without leading or trailing whitespace (`str::trim`).
pub open spec fn trim_ws(s: Seq<char>) -> Seq<char> {
    trim_end_ws(trim_start_ws(s))
}

/// `s` with every leading repetition of the non-empty `p` removed
/// (`str::trim_start_matches`).
pub open spec fn strip_all_prefix(s: Seq<char>, p: Seq<char>) -> Seq<char>
    decreases s.len(),
{
    if p.len() > 0 && has_prefix(s, p) {
        strip_all_prefix(s.skip(p.len() as int), p)
    } else {
        s
    }
}

/// The first position at or after `from` where `pat` occurs in `s`.
pub open spec fn find_from(s: Seq<char>, pat: Seq<char>, from: int) -> Option<int>
    decreases s.len() + 1 - from,
{
    if from < 0 || from + pat.len() > s.len() {
        None
    } else if s.subrange(from, from + pat.len()) == pat {
        Some(from)
    } else {
        find_from(s, pat, from + 1)
    }
}

/// The front matter and the Markdown of a page, or `None` where the page
/// does not open with `---`.
///
/// Leading whitespace is skipped; the opening `---` (repeated or not) and
/// the whitespace after it are dropped; the front matter runs up to the
/// first line that starts with `---` (or to the end); the Markdown is what
/// follows that closing `---`, trimmed.
pub open spec fn frontmatter_split(raw: Seq<char>) -> Option<(Seq<char>, Seq<char>)> {
    let trimmed = trim_start_ws(raw);
    if !has_prefix(trimmed, "---"@) {
        None
    } else {
        let body = trim_start_ws(strip_all_prefix(trimmed, "---"@));
        let end = match find_from(body, "\n---"@, 0) {
            Some(i) => i,
            None => match find_from(body, "\r\n---"@, 0) {
                Some(i) => i,
                None => body.len() as int,
            },
        };
        Some((
            body.take(end),
            trim_ws(strip_all_prefix(strip_all_prefix(body.skip(end), "\n---"@), "\r\n---"@)),
        ))
    }
}

/// The text of `v` from `start` to `end`.
fn slice_chars(v: &Vec<char>, start: usize, end: usize) -> (r: Vec<char>)
    requires
        start <= end <= v.len(),
    ensures
        r@ == v@.subrange(start as int, end as int),
{
    let mut r: Vec<char> = Vec::new();
    let mut i: usize = start;
    while i < end
        invariant
            start <= i <= end <= v.len(),
            r@ == v@.subrange(start as int, i as int),
        decreases end - i,
    {
        r.push(v[i]);
        i = i + 1;
        assert(r@ =~= v@.subrange(start as int, i as int));
    }
    r
}

/// Whether `pat` occurs in `v` at `at`.
fn occurs_at(v: &Vec<char>, pat: &Vec<char>, at: usize) -> (r: bool)
    requires
        at <= v.len(),
    ensures
        r == (at + pat.len() <= v.len() && v@.subrange(at as int, at + pat.len()) == pat@),
{
    if pat.len() > v.len() - at {
        return false;
    }
    let mut k: usize = 0;
    while k < pat.len()
        invariant
            k <= pat.len(),
            at + pat.len() <= v.len(),
            forall|j: int| 0 <= j < k ==> v@[at + j] == pat@[j],
        decreases pat.len() - k,
    {
        if v[at + k] != pat[k] {
            assert(v@.subrange(at as int, at + pat.len())[k as int] != pat@[k as int]);
            return false;
        }
        k = k + 1;
    }
    assert(v@.subrange(at as int, at + pat.len()) =~= pat@);
    true
}

/// The position from which `v` no longer starts with whitespace.
fn skip_whitespace(v: &Vec<char>) -> (r: usize)
    ensures
        r <= v.len(),
        v@.skip(r as int) == trim_start_ws(v@),
{
    let mut i: usize = 0;
    assert(v@.skip(0) =~= v@);
    while i < v.len() && is_whitespace(v[i])
        invariant
            i <= v.len(),
            trim_start_ws(v@.skip(i as int)) == trim_start_ws(v@),
        decreases v.len() - i,
    {
        assert(v@.skip(i as int).drop_first() =~= v@.skip(i + 1));
        i = i + 1;
    }
    i
}

/// The position up to which `v` holds text before its trailing whitespace.
fn trailing_whitespace_start(v: &Vec<char>) -> (r: usize)
    ensures
        r <= v.len(),
        v@.take(r as int) == trim_end_ws(v@),
{
    let mut n: usize = v.len();
    assert(v@.take(n as int) =~= v@);
    while n > 0 && is_whitespace(v[n - 1])
        invariant
            n <= v.len(),
            trim_end_ws(v@.take(n as int)) == trim_end_ws(v@),
        decreases n,
    {
        assert(v@.take(n as int).drop_last() =~= v@.take(n - 1));
        n = n - 1;
    }
    n
}

/// The position from which `v[from..]` no longer starts with `pat`.
fn skip_repeated(v: &Vec<char>, from: usize, pat: &Vec<char>) -> (r: usize)
    requires
        from <= v.len(),
        pat.len() > 0,
    ensures
        from <= r <= v.len(),
        v@.skip(r as int) == strip_all_prefix(v@.skip(from as int), pat@),
{
    let mut i: usize = from;
    while occurs_at(v, pat, i)
        invariant
            from <= i <= v.len(),
            pat.len() > 0,
            strip_all_prefix(v@.skip(i as int), pat@) == strip_all_prefix(v@.skip(from as int), pat@),
        decreases v.len() - i,
    {
        assert(v@.skip(i as int).subrange(0, pat.len() as int) =~= v@.subrange(i as int, i + pat.len()));
        assert(v@.skip(i as int).skip(pat.len() as int) =~= v@.skip(i + pat.len()));
        i = i + pat.len();
    }
    assert(v@.skip(i as int).subrange(0, pat.len() as int) == v@.subrange(i as int, i + pat.len())
        || i + pat.len() > v.len());
    i
}

/// The first position at or after `from` where `pat` occurs in `v`.
fn find_in(v: &Vec<char>, pat: &Vec<char>) -> (r: Option<usize>)
    ensures
        match r {
            Some(i) => find_from(v@, pat@, 0) == Some(i as int),
            None => find_from(v@, pat@, 0) is None,
        },
{
    let mut i: usize = 0;
    while i < v.len() && !occurs_at(v, pat, i)
        invariant
            i <= v.len(),
            find_from(v@, pat@, i as int) == find_from(v@, pat@, 0),
        decreases v.len() - i,
    {
        i = i + 1;
    }
    if i < v.len() {
        Some(i)
    } else if occurs_at(v, pat, i) {
        assert(find_from(v@, pat@, i as int) == Some(i as int));
        Some(i)
    } else {
        assert(pat@.len() > 0) by {
            if pat@.len() == 0 {
                assert(v@.subrange(i as int, i as int) =~= pat@);
            }
        }
        assert(find_from(v@, pat@, i as int) is None);
        None
    }
}

/// Cuts a page into its front matter and its Markdown; a page that does
/// not open with `---` is refused with a front matter error naming `path`.
pub fn split_frontmatter(raw: &str, path: &str) -> (r: Result<(String, String), RawssgError>)
    ensures
        match frontmatter_split(raw@) {
            None => r matches Err(RawssgError::Frontmatter { path: p, source: s })
                && p@ == path@ && s@ == "missing opening '---'"@,
            Some((yaml, md)) => r matches Ok((y, m)) && y@ == yaml && m@ == md,
        },
{
    let v = chars_of(raw);
    let start = skip_whitespace(&v);
    let trimmed = slice_chars(&v, start, v.len());
    assert(trimmed@ =~= v@.skip(start as int));
    let dashes = chars_of("---");
    proof {
        reveal_strlit("---");
        reveal_strlit("\n---");
        reveal_strlit("\r\n---");
    }
    if !occurs_at(&trimmed, &dashes, 0) {
        assert(!has_prefix(trimmed@, "---"@));
        return Err(RawssgError::Frontmatter {
            path: path.to_owned(),
            source: "missing opening '---'".to_owned(),
        });
    }
    let after = skip_repeated(&trimmed, 0, &dashes);
    assert(trimmed@.skip(0) =~= trimmed@);
    let rest = slice_chars(&trimmed, after, trimmed.len());
    assert(rest@ =~= trimmed@.skip(after as int));
    let body_start = skip_whitespace(&rest);
    let body = slice_chars(&rest, body_start, rest.len());
    assert(body@ =~= rest@.skip(body_start as int));
    let nl = chars_of("\n---");
    let crnl = chars_of("\r\n---");
    let end: usize = match find_in(&body, &nl) {
        Some(i) => i,
        None => match find_in(&body, &crnl) {
            Some(i) => i,
            None => body.len(),
        },
    };
    proof {
        lemma_find_bounds(body@, nl@, 0);
        lemma_find_bounds(body@, crnl@, 0);
    }
    let yaml = slice_chars(&body, 0, end);
    assert(yaml@ =~= body@.take(end as int));
    let tail = slice_chars(&body, end, body.len());
    assert(tail@ =~= body@.skip(end as int));
    let a = skip_repeated(&tail, 0, &nl);
    assert(tail@.skip(0) =~= tail@);
    let b = skip_repeated(&tail, a, &crnl);
    let md_start_rest = slice_chars(&tail, b, tail.len());
    assert(md_start_rest@ =~= tail@.skip(b as int));
    let s = skip_whitespace(&md_start_rest);
    let md_trim_start = slice_chars(&md_start_rest, s, md_start_rest.len());
    assert(md_trim_start@ =~= md_start_rest@.skip(s as int));
    let e = trailing_whitespace_start(&md_trim_start);
    let md = slice_chars(&md_trim_start, 0, e);
    assert(md@ =~= md_trim_start@.take(e as int));
    Ok((string_from_chars(&yaml), string_from_chars(&md)))
}

/// A position found by [`find_from`] leaves room for the pattern.
proof fn lemma_find_bounds(s: Seq<char>, pat: Seq<char>, from: int)
    ensures
        find_from(s, pat, from) matches Some(i) ==> from <= i && i + pat.len() <= s.len(),
    decreases s.len() + 1 - from,
{
    if !(from < 0 || from + pat.len() > s.len()) && s.subrange(from, from + pat.len()) != pat {
        lemma_find_bounds(s, pat, from + 1);
    }
}

/// Where [`find_from`] finds nothing, `pat` occurs nowhere from `from` on.
proof fn lemma_find_none(s: Seq<char>, pat: Seq<char>, from: int)
    requires
        0 <= from,
        find_from(s, pat, from) is None,
    ensures
        forall|i: int| from <= i && i + pat.len() <= s.len() ==> #[trigger] s.subrange(i, i + pat.len()) != pat,
    decreases s.len() + 1 - from,
{
    if from + pat.len() <= s.len() {
        lemma_find_none(s, pat, from + 1);
    }
}

/// [`find_from`] finds the first occurrence.
proof fn lemma_find_at(s: Seq<char>, pat: Seq<char>, from: int, target: int)
    requires
        0 <= from <= target,
        target + pat.len() <= s.len(),
        s.subrange(target, target + pat.len()) == pat,
        forall|i: int| from <= i < target ==> #[trigger] s.subrange(i, i + pat.len()) != pat,
    ensures
        find_from(s, pat, from) == Some(target),
    decreases target - from,
{
    if from < target {
        lemma_find_at(s, pat, from + 1, target);
    }
}

/// A page written as `---`, a line break, the front matter, a line break,
/// `---`, a line break and the Markdown is cut back into that front matter
/// and that Markdown, where the front matter is not empty, does not start
/// with whitespace and holds no line that starts with `---`, and the
/// Markdown neither starts nor ends with whitespace nor starts with `---`.
pub proof fn lemma_split_frontmatter_roundtrip(yaml: Seq<char>, md: Seq<char>)
    requires
        yaml.len() > 0,
        !whitespace(yaml[0]),
        find_from(yaml, "\n---"@, 0) is None,
        md.len() > 0 ==> !whitespace(md[0]) && !whitespace(md.last()),
        !has_prefix(md, "---"@),
    ensures
        frontmatter_split("---\n"@ + yaml + "\n---\n"@ + md) == Some((yaml, md)),
{
    reveal_strlit("---\n");
    reveal_strlit("\n---\n");
    reveal_strlit("---");
    reveal_strlit("\n---");
    reveal_strlit("\r\n---");
    let dashes = "---"@;
    let nl = "\n---"@;
    let crnl = "\r\n---"@;
    let tail = "\n---\n"@ + md;
    let raw = "---\n"@ + yaml + tail;
    assert(raw =~= "---\n"@ + yaml + "\n---\n"@ + md);
    // the page starts with `-`, which is not whitespace
    assert(raw[0] == '-');
    assert(trim_start_ws(raw) == raw);
    assert(raw.subrange(0, 3) =~= dashes);
    assert(has_prefix(raw, dashes));
    // one `---` goes, and what follows starts with a line break
    let t1 = raw.skip(3);
    assert(t1 =~= seq!['\n'] + (yaml + tail));
    assert(t1.subrange(0, 3)[0] == '\n');
    assert(!has_prefix(t1, dashes));
    assert(strip_all_prefix(t1, dashes) == t1);
    assert(strip_all_prefix(raw, dashes) == t1);
    // the line break goes, and the front matter starts
    let body = yaml + tail;
    assert(t1.drop_first() =~= body);
    assert(body[0] == yaml[0]);
    assert(trim_start_ws(body) == body);
    assert(trim_start_ws(t1) == body);
    // the closing line is the first occurrence of a line break and `---`
    let yl = yaml.len() as int;
    assert(body.subrange(yl, yl + 4) =~= nl);
    lemma_find_none(yaml, nl, 0);
    assert forall|i: int| 0 <= i < yl implies #[trigger] body.subrange(i, i + nl.len()) != nl by {
        if i + 4 <= yl {
            assert(body.subrange(i, i + 4) =~= yaml.subrange(i, i + 4));
        } else {
            let k = yl - i;
            assert(body.subrange(i, i + 4)[k] == body[yl]);
            assert(body[yl] == '\n');
            assert(nl[k] == '-');
        }
    }
    lemma_find_at(body, nl, 0, yl);
    assert(body.take(yl) =~= yaml);
    // after the front matter: the closing `---` goes, then nothing else
    let rest = body.skip(yl);
    assert(rest =~= tail);
    assert(rest.subrange(0, 4) =~= nl);
    assert(has_prefix(rest, nl));
    let t2 = rest.skip(4);
    assert(t2 =~= seq!['\n'] + md);
    assert(!has_prefix(t2, nl)) by {
        if has_prefix(t2, nl) {
            assert(md.subrange(0, 3) =~= t2.subrange(1, 4));
            assert(t2.subrange(1, 4) =~= nl.subrange(1, 4));
            assert(nl.subrange(1, 4) =~= dashes);
        }
    }
    assert(strip_all_prefix(t2, nl) == t2);
    assert(strip_all_prefix(rest, nl) == t2);
    assert(!has_prefix(t2, crnl)) by {
        if has_prefix(t2, crnl) {
            assert(t2.subrange(0, 5)[0] == t2[0]);
        }
    }
    assert(strip_all_prefix(t2, crnl) == t2);
    // the line break before the Markdown is trimmed away
    assert(t2.drop_first() =~= md);
    assert(trim_start_ws(t2) == trim_start_ws(md));
    if md.len() > 0 {
        assert(trim_start_ws(md) == md);
        assert(trim_end_ws(md) == md);
    } else {
        assert(trim_start_ws(md) == md);
        assert(trim_end_ws(md) == md);
    }
    assert(trim_ws(t2) == md);
}

} // verus!
