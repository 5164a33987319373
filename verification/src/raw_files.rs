//! A processor for raw content files: the file's text becomes the body of
//! a page titled after its file name.

use vstd::prelude::*;
use crate::compiler::depth_of;
use crate::error::{Error, Result};
use crate::fs::{FileSystem, IoResult};
use crate::handler::{Document, Metadata, Processor, document_problem};
use crate::paths::{
    component_count, extension, extension_of, file_stem, file_stem_of, join, with_extension,
    with_extension_of,
};
use crate::text::{
    blank, chars_of, is_blank, join_spec, split_chars, split_spec, string_from_chars, text_eq, views,
};

verus! {

/// What `char::to_uppercase` yields for `c`, as text (one character or
/// more, by the Unicode case mapping).
pub uninterp spec fn uppercase_of(c: char) -> Seq<char>;

/// The uppercase of `c` by `char::to_uppercase`, collected into a string;
/// the result is named [`uppercase_of`] of the character.
#[verifier::external_body]
fn to_uppercase(c: char) -> (r: String)
    ensures
        r@ == uppercase_of(c),
{
    c.to_uppercase().collect::<String>()
}

/// `word` with its first character in uppercase.
pub open spec fn capitalized(word: Seq<char>) -> Seq<char> {
    if word.len() == 0 {
        Seq::<char>::empty()
    } else {
        uppercase_of(word[0]) + word.drop_first()
    }
}

/// The title made from a file stem: its `-`-separated words, each with its
/// first character in uppercase, joined by spaces.
pub open spec fn title_of_stem(stem: Seq<char>) -> Seq<char> {
    join_spec(split_spec(stem, '-').map_values(|w: Seq<char>| capitalized(w)), ' ')
}

/// The characters of `word` with the first one in uppercase.
fn capitalize(word: &Vec<char>) -> (r: Vec<char>)
    ensures
        r@ == capitalized(word@),
{
    if word.len() == 0 {
        return Vec::new();
    }
    let up = to_uppercase(word[0]);
    let mut r = chars_of(up.as_str());
    let mut k: usize = 1;
    while k < word.len()
        invariant
            1 <= k <= word.len(),
            r@ == uppercase_of(word@[0]) + word@.subrange(1, k as int),
        decreases word.len() - k,
    {
        r.push(word[k]);
        k = k + 1;
        assert(r@ =~= uppercase_of(word@[0]) + word@.subrange(1, k as int));
    }
    assert(word@.subrange(1, word.len() as int) =~= word@.drop_first());
    r
}

/// The title made from the file stem `stem`.
pub fn title_from_stem(stem: &str) -> (r: String)
    ensures
        r@ == title_of_stem(stem@),
{
    let v = chars_of(stem);
    let words = split_chars(&v, '-');
    let ghost caps = split_spec(stem@, '-').map_values(|w: Seq<char>| capitalized(w));
    let mut out: Vec<char> = Vec::new();
    let mut i: usize = 0;
    assert(caps.take(0) =~= Seq::<Seq<char>>::empty());
    while i < words.len()
        invariant
            i <= words.len(),
            views(words@) == split_spec(stem@, '-'),
            caps == split_spec(stem@, '-').map_values(|w: Seq<char>| capitalized(w)),
            out@ == join_spec(caps.take(i as int), ' '),
        decreases words.len() - i,
    {
        assert(views(words@)[i as int] == words@[i as int]@);
        let c = capitalize(&words[i]);
        assert(c@ == caps[i as int]);
        let ghost before = out@;
        if i > 0 {
            out.push(' ');
        }
        let mut k: usize = 0;
        let ghost mid = out@;
        while k < c.len()
            invariant
                k <= c.len(),
                out@ == mid + c@.take(k as int),
            decreases c.len() - k,
        {
            out.push(c[k]);
            k = k + 1;
            assert(out@ =~= mid + c@.take(k as int));
        }
        assert(c@.take(c.len() as int) =~= c@);
        assert(caps.take(i + 1).drop_last() =~= caps.take(i as int));
        if i == 0 {
            assert(out@ =~= join_spec(caps.take(1), ' '));
        } else {
            assert(out@ =~= join_spec(caps.take(i + 1), ' '));
        }
        i = i + 1;
    }
    assert(caps.take(words.len() as int) =~= caps);
    string_from_chars(&out)
}

/// The stem a raw file is titled after: its file stem, or `untitled`.
pub open spec fn stem_or_untitled(rel: Seq<char>) -> Seq<char> {
    match file_stem_of(rel) {
        Some(s) => s,
        None => "untitled"@,
    }
}

/// Whether `r` is the document made from the raw file at `rel` with the
/// text `body`: titled after the file stem, served and written at the path
/// with the extension `html`, as deep as the path, of type `page`; or the
/// validation error for a blank title or an invalid document.
pub open spec fn raw_document_made(rel: Seq<char>, body: Seq<char>, r: Result<Document>) -> bool {
    let title = title_of_stem(stem_or_untitled(rel));
    let url = with_extension_of(rel, "html"@);
    if is_blank(title) {
        r matches Err(Error::Validation(m)) && m@ == "metadata title cannot be empty"@
    } else {
        match document_problem(url, url, rel, depth_of(rel)) {
            Some(p) => r matches Err(Error::Validation(m)) && m@ == p,
            None => r matches Ok(d) && {
                &&& d.metadata.title@ == title
                &&& d.metadata.description@ == Seq::<char>::empty()
                &&& d.body@ == body
                &&& d.url@ == url
                &&& d.output_path@ == url
                &&& d.source_path@ == rel
                &&& d.depth == depth_of(rel)
                &&& d.content_type@ == "page"@
                &&& !d.is_list
                &&& d.list_items is None
            },
        }
    }
}

/// Whether `r` is what [`RawFileProcessor`] gives for the raw file at `rel`
/// once reading it answered `read`: an I/O error carrying the read error's
/// text, or the document [`raw_document_made`] describes.
pub open spec fn raw_file_processed(rel: Seq<char>, read: IoResult<String>, r: Result<Option<Document>>) -> bool {
    match read {
        Err(e) => r matches Err(Error::Io(m)) && m@ == e.message@,
        Ok(body) => match r {
            Ok(Some(d)) => raw_document_made(rel, body@, Ok(d)),
            Ok(None) => false,
            Err(e) => raw_document_made(rel, body@, Err(e)),
        },
    }
}

/// The document made from the raw file at `relative_path` with the text
/// `body`: titled after the file stem, served and written at the path with
/// the extension `html`, as deep as the path, of type `page`.
pub fn raw_document(relative_path: &str, body: &str) -> (r: Result<Document>)
    ensures
        raw_document_made(relative_path@, body@, r),
{
    let stem = match file_stem(relative_path) {
        Some(s) => s,
        None => "untitled".to_owned(),
    };
    let title = title_from_stem(stem.as_str());
    let empty = String::new();
    let metadata = match Metadata::new(title.as_str(), empty.as_str()) {
        Ok(m) => m,
        Err(e) => return Err(e),
    };
    let url = with_extension(relative_path, "html");
    let n = component_count(relative_path);
    let depth = if n > 0 { n - 1 } else { 0 };
    Document::new(metadata, body, url.as_str(), url.as_str(), relative_path, depth, "page", false)
}

/// Takes files with the extension `raw` and makes a page of each.
pub struct RawFileProcessor;

impl Processor for RawFileProcessor {
    fn name(&self) -> (r: &str)
        ensures
            r@ == "raw-file"@,
    {
        "raw-file"
    }

    fn can_process(&self, relative_path: &str, original_path: &str) -> (r: bool)
        ensures
            r == (extension_of(relative_path@) == Some("raw"@)),
    {
        match extension(relative_path) {
            Some(e) => text_eq(e.as_str(), "raw"),
            None => false,
        }
    }

    fn process(&self, fs: &dyn FileSystem, relative_path: &str, content_dir: &str) -> (r: Result<Option<Document>>)
        ensures
            exists|read: IoResult<String>| #[trigger] raw_file_processed(relative_path@, read, r),
            r matches Ok(d) ==> d is Some,
            ({
                let title = title_of_stem(stem_or_untitled(relative_path@));
                let url = with_extension_of(relative_path@, "html"@);
                &&& is_blank(title) ==> r is Err
                &&& document_problem(url, url, relative_path@, depth_of(relative_path@)) is Some ==> r is Err
            }),
    {
        let full_path = join(content_dir, relative_path);
        let read = fs.read_to_string(full_path.as_str());
        let ghost readg = read;
        let body = match read {
            Ok(b) => b,
            Err(e) => {
                let r = Err(Error::Io(e.message));
                assert(raw_file_processed(relative_path@, readg, r));
                return r;
            },
        };
        let r = match raw_document(relative_path, body.as_str()) {
            Ok(d) => Ok(Some(d)),
            Err(e) => Err(e),
        };
        assert(raw_file_processed(relative_path@, readg, r));
        r
    }
}

} // verus!
