use rawssg::compiler::{copy_destination, place_document};
use rawssg::config::ContentRule;
use rawssg::error::Error;
use rawssg::fs::{canonicalize_or_join, contain_candidate, safe_join, FileSystem, IoError, IoErrorKind, IoResult};
use rawssg::handler::{Document, Metadata};
use rawssg::paths::{
    component_count, extension, file_name, file_stem, is_relative, join, parent, path_eq, starts_with_path,
    strip_prefix, with_extension,
};
use rawssg::pattern::{match_pattern, segment_matches};
use rawssg::templates::rel_path_to_template_name;
use rawssg::util::match_pattern as site_match_pattern;

#[test]
fn paths_split_into_components_like_std() {
    assert_eq!(component_count("a/b/c.md"), 3);
    assert_eq!(component_count("./a//b/"), 3);
    assert_eq!(component_count("/"), 1);
    assert_eq!(component_count(""), 0);
    assert!(path_eq("content", "content/"));
    assert!(!path_eq("./content", "content"));
    assert!(starts_with_path("/a/b/c", "/a/b"));
    assert!(!starts_with_path("/a/bc", "/a/b"));
    assert!(is_relative("a/b"));
    assert!(!is_relative("/a"));
}

#[test]
fn joins_parents_and_names_follow_std() {
    assert_eq!(join("a", "b"), "a/b");
    assert_eq!(join("a/", "b"), "a/b");
    assert_eq!(join("a", "/b"), "/b");
    assert_eq!(join("", "b"), "b");
    assert_eq!(parent("a/b/c.md").as_deref(), Some("a/b"));
    assert_eq!(parent("c.md").as_deref(), Some(""));
    assert_eq!(parent("/").as_deref(), None);
    assert_eq!(file_name("a/b.md").as_deref(), Some("b.md"));
    assert_eq!(file_name("a/..").as_deref(), None);
    assert_eq!(strip_prefix("content/blog/a.md", "content").as_deref(), Some("blog/a.md"));
    assert_eq!(strip_prefix("content", "content").as_deref(), Some(""));
    assert_eq!(strip_prefix("other/a.md", "content"), None);
}

#[test]
fn extensions_and_stems_follow_std() {
    assert_eq!(extension("a/b.tar.gz").as_deref(), Some("gz"));
    assert_eq!(extension(".bashrc"), None);
    assert_eq!(extension("noext"), None);
    assert_eq!(extension("a."), Some(String::new()));
    assert_eq!(file_stem("a/b.tar.gz").as_deref(), Some("b.tar"));
    assert_eq!(file_stem(".bashrc").as_deref(), Some(".bashrc"));
    assert_eq!(with_extension("blog/post.md", "html"), "blog/post.html");
    assert_eq!(with_extension("dist", "tmp"), "dist.tmp");
    assert_eq!(with_extension("/site/out/", "tmp"), "/site/out.tmp");
    assert_eq!(with_extension("a.tar.gz", ""), "a.tar");
    assert_eq!(with_extension("..", "html"), "..");
}

#[test]
fn template_names_come_from_plain_components() {
    assert_eq!(rel_path_to_template_name("partials/nav.html").unwrap(), "partials/nav.html");
    assert_eq!(rel_path_to_template_name("base.html").unwrap(), "base.html");
    assert!(matches!(rel_path_to_template_name(""), Err(Error::Render(ref m)) if m == "empty template name"));
    assert!(matches!(rel_path_to_template_name("../x.html"),
        Err(Error::Render(ref m)) if m == "unexpected path component in template path"));
    assert!(matches!(rel_path_to_template_name("/abs.html"),
        Err(Error::Render(ref m)) if m == "unexpected path component in template path"));
}

#[test]
fn glob_patterns_match_segments() {
    assert!(match_pattern("**/*.md", "a/b/c.md"));
    assert!(match_pattern("**", "anything/at/all"));
    assert!(match_pattern("blog/*.md", "blog/x.md"));
    assert!(!match_pattern("blog/*.md", "blog/x/y.md"));
    assert!(match_pattern("blog/**", "blog"));
    assert!(segment_matches("a*c", "abbbc"));
    assert!(!segment_matches("a*c", "abbb"));
    assert!(site_match_pattern("blog/**", "blog/a/b.md"));
    assert!(!site_match_pattern("blog/*.md", "blog/a/b.md"));
    assert!(!site_match_pattern("blog/x.md/**", "blog/x.md"));
}

#[test]
fn copies_land_under_the_target() {
    assert_eq!(copy_destination("static/css/a.css", "static", "dist/static").as_deref(), Some("dist/static/css/a.css"));
    assert_eq!(copy_destination("elsewhere/a.css", "static", "dist"), None);
}

#[test]
fn placed_documents_take_type_and_depth_from_path() {
    let rules = vec![ContentRule::new("blog", "blog/**", "post")];
    let doc = Document::new(Metadata::default(), "b", "u", "o", "s.md", 7, "x", false).unwrap();
    let d = place_document(&rules, "blog/2024/a.md", doc);
    assert_eq!(d.content_type, "blog");
    assert_eq!(d.depth, 2);
    assert_eq!(d.body, "b");
}

struct Tree(Vec<&'static str>);

impl FileSystem for Tree {
    fn read_to_string(&self, _p: &str) -> IoResult<String> {
        Err(IoError { kind: IoErrorKind::Other, message: "no".into() })
    }
    fn read_bytes(&self, _p: &str) -> IoResult<Vec<u8>> {
        Err(IoError { kind: IoErrorKind::Other, message: "no".into() })
    }
    fn write(&self, _p: &str, _c: &[u8]) -> IoResult<()> {
        Ok(())
    }
    fn create_dir_all(&self, _p: &str) -> IoResult<()> {
        Ok(())
    }
    fn remove_dir_all(&self, _p: &str) -> IoResult<()> {
        Ok(())
    }
    fn remove_file(&self, _p: &str) -> IoResult<()> {
        Ok(())
    }
    fn create_dir(&self, _p: &str) -> IoResult<()> {
        Ok(())
    }
    fn path_exists(&self, p: &str) -> bool {
        self.0.iter().any(|q| *q == p)
    }
    fn is_dir(&self, _p: &str) -> bool {
        false
    }
    fn is_file(&self, _p: &str) -> bool {
        false
    }
    fn read_dir(&self, _p: &str) -> IoResult<Vec<String>> {
        Ok(Vec::new())
    }
    fn copy_file(&self, _f: &str, _t: &str) -> IoResult<u64> {
        Ok(0)
    }
    fn copy_dir_all(&self, _f: &str, _t: &str) -> IoResult<()> {
        Ok(())
    }
    fn walk_dir(&self, _r: &str) -> IoResult<Vec<String>> {
        Ok(Vec::new())
    }
    fn canonicalize(&self, p: &str) -> IoResult<String> {
        if self.path_exists(p) {
            Ok(p.to_string())
        } else {
            Err(IoError { kind: IoErrorKind::NotFound, message: "missing".into() })
        }
    }
    fn rename(&self, _f: &str, _t: &str) -> IoResult<()> {
        Ok(())
    }
    fn atomic_write(&self, _p: &str, _c: &[u8]) -> IoResult<()> {
        Ok(())
    }
    fn touch(&self, _p: &str) -> IoResult<()> {
        Ok(())
    }
    fn is_symlink(&self, _p: &str) -> bool {
        false
    }
    fn read_link(&self, _p: &str) -> IoResult<String> {
        Err(IoError { kind: IoErrorKind::Other, message: "no".into() })
    }
    fn hard_link(&self, _f: &str, _t: &str) -> IoResult<()> {
        Ok(())
    }
}

#[test]
fn safe_join_blocks_traversal() {
    let fs = Tree(vec!["/base", "/base/a", "/base/a/x.html", "/etc"]);
    assert_eq!(safe_join(&fs, "/base", "a/x.html").unwrap(), "/base/a/x.html");
    assert_eq!(safe_join(&fs, "/base", "a/new.html").unwrap(), "/base/a/new.html");
    let e = safe_join(&fs, "/base", "../etc/passwd").unwrap_err();
    assert_eq!(e.kind, IoErrorKind::PermissionDenied);
    assert_eq!(e.message, "path traversal detected");
    let e = safe_join(&fs, "/base", "/etc/passwd").unwrap_err();
    assert_eq!(e.kind, IoErrorKind::PermissionDenied);
}

#[test]
fn safe_join_allows_dot_segments_inside() {
    let fs = Tree(vec!["/base", "/base/a", "/base/a/x.html"]);
    assert_eq!(safe_join(&fs, "/base", "./a/../a/x.html").unwrap(), "/base/a/x.html");
    assert_eq!(canonicalize_or_join(&fs, "/base", "a/./y.html").unwrap(), "/base/a/y.html");
    assert!(contain_candidate("a/../..").is_err());
    assert_eq!(contain_candidate("a/./b/../c").unwrap().len(), 2);
}
