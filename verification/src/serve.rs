//! What the development server answers: the file a request URL names under
//! the output directory, served with the MIME type of its extension.

use vstd::prelude::*;
use crate::frontmatter::strip_all_prefix;
use crate::fs::{FileSystem, IoResult};
use crate::paths::{extension, extension_of, path_starts_with};
use crate::util::{safe_path, resolved_after_base, lemma_safe_path_stays_inside};
use crate::error::RawssgError;
use crate::text::{chars_of, string_from_chars, text_eq};

verus! {

/// The MIME type served for a file with the extension `ext`.
pub open spec fn mime_of(ext: Option<Seq<char>>) -> Seq<char> {
    match ext {
        Some(e) => if e == "html"@ {
            "text/html; charset=utf-8"@
        } else if e == "css"@ {
            "text/css"@
        } else if e == "js"@ {
            "application/javascript"@
        } else if e == "json"@ {
            "application/json"@
        } else if e == "xml"@ {
            "application/xml"@
        } else if e == "svg"@ {
            "image/svg+xml"@
        } else if e == "png"@ {
            "image/png"@
        } else if e == "jpg"@ || e == "jpeg"@ {
            "image/jpeg"@
        } else if e == "gif"@ {
            "image/gif"@
        } else if e == "ico"@ {
            "image/x-icon"@
        } else if e == "woff"@ {
            "font/woff"@
        } else if e == "woff2"@ {
            "font/woff2"@
        } else if e == "ttf"@ {
            "font/ttf"@
        } else {
            "application/octet-stream"@
        },
        None => "application/octet-stream"@,
    }
}

/// The MIME table: a file is served by its extension as HTML, CSS,
/// JavaScript, JSON, XML, SVG, PNG, JPEG, GIF, icon, WOFF, WOFF2 or TrueType;
/// any other file, or one without an extension, as an octet stream.
pub proof fn lemma_mime_table(path: Seq<char>)
    ensures
        extension_of(path) == Some("html"@) ==> mime_of(extension_of(path)) == "text/html; charset=utf-8"@,
        extension_of(path) == Some("css"@) ==> mime_of(extension_of(path)) == "text/css"@,
        extension_of(path) == Some("js"@) ==> mime_of(extension_of(path)) == "application/javascript"@,
        extension_of(path) == Some("json"@) ==> mime_of(extension_of(path)) == "application/json"@,
        extension_of(path) == Some("xml"@) ==> mime_of(extension_of(path)) == "application/xml"@,
        extension_of(path) == Some("svg"@) ==> mime_of(extension_of(path)) == "image/svg+xml"@,
        extension_of(path) == Some("png"@) ==> mime_of(extension_of(path)) == "image/png"@,
        extension_of(path) == Some("jpg"@) ==> mime_of(extension_of(path)) == "image/jpeg"@,
        extension_of(path) == Some("jpeg"@) ==> mime_of(extension_of(path)) == "image/jpeg"@,
        extension_of(path) == Some("gif"@) ==> mime_of(extension_of(path)) == "image/gif"@,
        extension_of(path) == Some("ico"@) ==> mime_of(extension_of(path)) == "image/x-icon"@,
        extension_of(path) == Some("woff"@) ==> mime_of(extension_of(path)) == "font/woff"@,
        extension_of(path) == Some("woff2"@) ==> mime_of(extension_of(path)) == "font/woff2"@,
        extension_of(path) == Some("ttf"@) ==> mime_of(extension_of(path)) == "font/ttf"@,
        extension_of(path) is None ==> mime_of(extension_of(path)) == "application/octet-stream"@,
        extension_of(path) matches Some(e) && (e != "html"@ && e != "css"@ && e != "js"@ && e != "json"@ && e != "xml"@ && e != "svg"@ && e != "png"@ && e != "jpg"@ && e != "jpeg"@ && e != "gif"@ && e != "ico"@ && e != "woff"@ && e != "woff2"@ && e != "ttf"@)
            ==> mime_of(extension_of(path)) == "application/octet-stream"@,
{
    reveal_strlit("html");
    reveal_strlit("text/html; charset=utf-8");
    reveal_strlit("css");
    reveal_strlit("text/css");
    reveal_strlit("js");
    reveal_strlit("application/javascript");
    reveal_strlit("json");
    reveal_strlit("application/json");
    reveal_strlit("xml");
    reveal_strlit("application/xml");
    reveal_strlit("svg");
    reveal_strlit("image/svg+xml");
    reveal_strlit("png");
    reveal_strlit("image/png");
    reveal_strlit("jpg");
    reveal_strlit("image/jpeg");
    reveal_strlit("jpeg");
    reveal_strlit("image/jpeg");
    reveal_strlit("gif");
    reveal_strlit("image/gif");
    reveal_strlit("ico");
    reveal_strlit("image/x-icon");
    reveal_strlit("woff");
    reveal_strlit("font/woff");
    reveal_strlit("woff2");
    reveal_strlit("font/woff2");
    reveal_strlit("ttf");
    reveal_strlit("font/ttf");
    reveal_strlit("application/octet-stream");
    assert("html"@.len() != "css"@.len());
    assert("html"@.len() != "js"@.len());
    assert("css"@.len() != "js"@.len());
    assert("html"@[0] != "json"@[0]);
    assert("css"@.len() != "json"@.len());
    assert("js"@.len() != "json"@.len());
    assert("html"@.len() != "xml"@.len());
    assert("css"@[0] != "xml"@[0]);
    assert("js"@.len() != "xml"@.len());
    assert("json"@.len() != "xml"@.len());
    assert("html"@.len() != "svg"@.len());
    assert("css"@[0] != "svg"@[0]);
    assert("js"@.len() != "svg"@.len());
    assert("json"@.len() != "svg"@.len());
    assert("xml"@[0] != "svg"@[0]);
    assert("html"@.len() != "png"@.len());
    assert("css"@[0] != "png"@[0]);
    assert("js"@.len() != "png"@.len());
    assert("json"@.len() != "png"@.len());
    assert("xml"@[0] != "png"@[0]);
    assert("svg"@[0] != "png"@[0]);
    assert("html"@.len() != "jpg"@.len());
    assert("css"@[0] != "jpg"@[0]);
    assert("js"@.len() != "jpg"@.len());
    assert("json"@.len() != "jpg"@.len());
    assert("xml"@[0] != "jpg"@[0]);
    assert("svg"@[0] != "jpg"@[0]);
    assert("png"@[0] != "jpg"@[0]);
    assert("html"@[0] != "jpeg"@[0]);
    assert("css"@.len() != "jpeg"@.len());
    assert("js"@.len() != "jpeg"@.len());
    assert("json"@[1] != "jpeg"@[1]);
    assert("xml"@.len() != "jpeg"@.len());
    assert("svg"@.len() != "jpeg"@.len());
    assert("png"@.len() != "jpeg"@.len());
    assert("jpg"@.len() != "jpeg"@.len());
    assert("html"@.len() != "gif"@.len());
    assert("css"@[0] != "gif"@[0]);
    assert("js"@.len() != "gif"@.len());
    assert("json"@.len() != "gif"@.len());
    assert("xml"@[0] != "gif"@[0]);
    assert("svg"@[0] != "gif"@[0]);
    assert("png"@[0] != "gif"@[0]);
    assert("jpg"@[0] != "gif"@[0]);
    assert("jpeg"@.len() != "gif"@.len());
    assert("html"@.len() != "ico"@.len());
    assert("css"@[0] != "ico"@[0]);
    assert("js"@.len() != "ico"@.len());
    assert("json"@.len() != "ico"@.len());
    assert("xml"@[0] != "ico"@[0]);
    assert("svg"@[0] != "ico"@[0]);
    assert("png"@[0] != "ico"@[0]);
    assert("jpg"@[0] != "ico"@[0]);
    assert("jpeg"@.len() != "ico"@.len());
    assert("gif"@[0] != "ico"@[0]);
    assert("html"@[0] != "woff"@[0]);
    assert("css"@.len() != "woff"@.len());
    assert("js"@.len() != "woff"@.len());
    assert("json"@[0] != "woff"@[0]);
    assert("xml"@.len() != "woff"@.len());
    assert("svg"@.len() != "woff"@.len());
    assert("png"@.len() != "woff"@.len());
    assert("jpg"@.len() != "woff"@.len());
    assert("jpeg"@[0] != "woff"@[0]);
    assert("gif"@.len() != "woff"@.len());
    assert("ico"@.len() != "woff"@.len());
    assert("html"@.len() != "woff2"@.len());
    assert("css"@.len() != "woff2"@.len());
    assert("js"@.len() != "woff2"@.len());
    assert("json"@.len() != "woff2"@.len());
    assert("xml"@.len() != "woff2"@.len());
    assert("svg"@.len() != "woff2"@.len());
    assert("png"@.len() != "woff2"@.len());
    assert("jpg"@.len() != "woff2"@.len());
    assert("jpeg"@.len() != "woff2"@.len());
    assert("gif"@.len() != "woff2"@.len());
    assert("ico"@.len() != "woff2"@.len());
    assert("woff"@.len() != "woff2"@.len());
    assert("html"@.len() != "ttf"@.len());
    assert("css"@[0] != "ttf"@[0]);
    assert("js"@.len() != "ttf"@.len());
    assert("json"@.len() != "ttf"@.len());
    assert("xml"@[0] != "ttf"@[0]);
    assert("svg"@[0] != "ttf"@[0]);
    assert("png"@[0] != "ttf"@[0]);
    assert("jpg"@[0] != "ttf"@[0]);
    assert("jpeg"@.len() != "ttf"@.len());
    assert("gif"@[0] != "ttf"@[0]);
    assert("ico"@[0] != "ttf"@[0]);
    assert("woff"@.len() != "ttf"@.len());
    assert("woff2"@.len() != "ttf"@.len());
}

/// The MIME type of the file at `path`, by its extension.
pub fn mime_type(path: &str) -> (r: &'static str)
    ensures
        r@ == mime_of(extension_of(path@)),
{
    match extension(path) {
        Some(e) => {
            let e = e.as_str();
            if text_eq(e, "html") {
                "text/html; charset=utf-8"
            } else if text_eq(e, "css") {
                "text/css"
            } else if text_eq(e, "js") {
                "application/javascript"
            } else if text_eq(e, "json") {
                "application/json"
            } else if text_eq(e, "xml") {
                "application/xml"
            } else if text_eq(e, "svg") {
                "image/svg+xml"
            } else if text_eq(e, "png") {
                "image/png"
            } else if text_eq(e, "jpg") || text_eq(e, "jpeg") {
                "image/jpeg"
            } else if text_eq(e, "gif") {
                "image/gif"
            } else if text_eq(e, "ico") {
                "image/x-icon"
            } else if text_eq(e, "woff") {
                "font/woff"
            } else if text_eq(e, "woff2") {
                "font/woff2"
            } else if text_eq(e, "ttf") {
                "font/ttf"
            } else {
                "application/octet-stream"
            }
        },
        None => "application/octet-stream",
    }
}

/// The path a request URL names under the output directory: `index.html`
/// for `/`, else the URL without its leading slashes.
pub open spec fn requested_path_of(url: Seq<char>) -> Seq<char> {
    if url == "/"@ {
        "index.html"@
    } else {
        strip_all_prefix(url, seq!['/'])
    }
}

/// The path a request URL names under the output directory.
pub fn requested_path(url: &str) -> (r: String)
    ensures
        r@ == requested_path_of(url@),
{
    if text_eq(url, "/") {
        return "index.html".to_owned();
    }
    let v = chars_of(url);
    let mut i: usize = 0;
    assert(v@.skip(0) =~= v@);
    while i < v.len() && v[i] == '/'
        invariant
            i <= v.len(),
            strip_all_prefix(v@.skip(i as int), seq!['/']) == strip_all_prefix(v@, seq!['/']),
        decreases v.len() - i,
    {
        assert(v@.skip(i as int).subrange(0, 1) =~= seq!['/']);
        assert(v@.skip(i as int).skip(1) =~= v@.skip(i + 1));
        i = i + 1;
    }
    assert(i < v.len() ==> v@.skip(i as int).subrange(0, 1) != seq!['/']) by {
        if i < v.len() {
            assert(v@.skip(i as int).subrange(0, 1)[0] == v@[i as int]);
        }
    }
    let mut rest: Vec<char> = Vec::new();
    let mut k: usize = i;
    while k < v.len()
        invariant
            i <= k <= v.len(),
            rest@ == v@.subrange(i as int, k as int),
        decreases v.len() - k,
    {
        rest.push(v[k]);
        k = k + 1;
        assert(rest@ =~= v@.subrange(i as int, k as int));
    }
    assert(rest@ =~= v@.skip(i as int));
    string_from_chars(&rest)
}

/// What the server answers to a request.
#[derive(Debug, PartialEq, Eq)]
pub enum Reply {
    /// The file, with its MIME type.
    File { content_type: String, body: Vec<u8> },
    /// The path is not served (it leaves the output directory or cannot be
    /// resolved): status 404.
    NotFound,
    /// The file could not be read: status 500.
    ServerError,
}

impl Reply {
    /// The HTTP status of the reply.
    pub open spec fn status_of(&self) -> u16 {
        match self {
            Reply::File { .. } => 200,
            Reply::NotFound => 404,
            Reply::ServerError => 500,
        }
    }

    /// The HTTP status of the reply.
    pub fn status(&self) -> (r: u16)
        ensures
            r == self.status_of(),
    {
        match self {
            Reply::File { .. } => 200,
            Reply::NotFound => 404,
            Reply::ServerError => 500,
        }
    }
}

/// Whether `r` answers for the file at `path` given what reading it gave:
/// the content with the MIME type of `path`, or a server error.
pub open spec fn file_replied(path: Seq<char>, read: IoResult<Vec<u8>>, r: Reply) -> bool {
    match read {
        Ok(b) => r matches Reply::File { content_type: t, body: c } && t@ == mime_of(extension_of(path))
            && c == b,
        Err(_) => r == Reply::ServerError,
    }
}

/// Whether `r` answers a request for `url` under `dist`, given what
/// [`safe_path`] gave for the requested path (under some answer for the
/// base) and what reading the resolved file gave: a refused path is not
/// found; a resolved one is answered by [`file_replied`].
pub open spec fn replied(
    dist: Seq<char>,
    url: Seq<char>,
    resolved: Result<String, RawssgError>,
    read: IoResult<Vec<u8>>,
    r: Reply,
) -> bool {
    &&& exists|ba: IoResult<String>| #[trigger] resolved_after_base(dist, requested_path_of(url), ba, resolved)
    &&& match resolved {
        Err(_) => r == Reply::NotFound,
        Ok(p) => file_replied(p@, read, r),
    }
}

/// A file is served only from inside the output directory: whatever the
/// file system answers, a file reply comes from a path that starts with
/// the resolved form of `dist`.
pub proof fn lemma_served_file_inside_dist(
    dist: Seq<char>,
    url: Seq<char>,
    resolved: Result<String, RawssgError>,
    read: IoResult<Vec<u8>>,
    r: Reply,
)
    requires
        replied(dist, url, resolved, read, r),
        r is File,
    ensures
        resolved is Ok,
        exists|ba: IoResult<String>| #[trigger] resolved_after_base(dist, requested_path_of(url), ba, resolved)
            && (ba matches Ok(bc) && path_starts_with(resolved->Ok_0@, bc@)),
{
    let ba = choose|ba: IoResult<String>| #[trigger] resolved_after_base(dist, requested_path_of(url), ba, resolved);
    lemma_safe_path_stays_inside(dist, requested_path_of(url), ba, resolved);
}

/// The answer for the file at the resolved path `path`, given what reading
/// it gave: the content with the MIME type of `path`, or a server error.
pub fn file_reply(path: &str, read: IoResult<Vec<u8>>) -> (r: Reply)
    ensures
        file_replied(path@, read, r),
{
    match read {
        Ok(content) => {
            let mime = mime_type(path);
            Reply::File { content_type: mime.to_owned(), body: content }
        },
        Err(_) => Reply::ServerError,
    }
}

/// The answer to a request for `url` under the output directory `dist`:
/// the path the URL names must stay inside `dist` (else 404); the file is
/// then read through `fs` and answered as [`file_reply`] says.
pub fn reply_for(fs: &dyn FileSystem, dist: &str, url: &str) -> (r: Reply)
    ensures
        exists|resolved: Result<String, RawssgError>, read: IoResult<Vec<u8>>|
            #[trigger] replied(dist@, url@, resolved, read, r),
{
    let requested = requested_path(url);
    let resolved = safe_path(fs, dist, requested.as_str());
    let ghost rg = resolved;
    match resolved {
        Ok(path) => {
            let read = fs.read_bytes(path.as_str());
            let ghost readg = read;
            let r = file_reply(path.as_str(), read);
            assert(replied(dist@, url@, rg, readg, r));
            r
        },
        Err(_) => {
            let r = Reply::NotFound;
            let ghost none: IoResult<Vec<u8>> = vstd::pervasive::arbitrary();
            assert(replied(dist@, url@, rg, none, r));
            r
        },
    }
}

} // verus!
