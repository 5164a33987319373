use rawssg::date::Date;
use rawssg::error::RawssgError;
use rawssg::frontmatter::split_frontmatter;
use rawssg::fs::{canonicalize_or_join, FileSystem, IoError, IoErrorKind, IoResult};
use rawssg::paths::join;
use rawssg::handler::Processor;
use rawssg::raw_files::RawFileProcessor;
use rawssg::markdown::{MarkdownRenderer, PulldownMarkdown};
use rawssg::serve::{file_reply, mime_type, reply_for, requested_path, Reply};
use rawssg::site::{
    add_list_pages, blog_posts, copy_plan, generate_feed, settings_or_default, CopyStep, is_markdown, page_context, page_from_frontmatter, read_page_source,
    template_for_page, ContentHandler, ConfigLoader, FeedContextBuilder, SiteBuilder, SitemapContextBuilder,
    StaticFileHandler, TeraFeedContextBuilder, TeraSitemapContextBuilder,
};
use rawssg::templates::{Context, ContextValue, TemplateRenderer};
use rawssg::types::{
    ContentTypeDef, GeneratorDef, GlobalConfig, PageContext, PageFrontMatter, RawssgConfig,
};
use rawssg::util::{relative_prefix, safe_path, slugify};
use std::cell::RefCell;
use std::collections::{BTreeMap, BTreeSet};
use std::rc::Rc;

/// A file system held in memory; relative paths are taken from `/`.
#[derive(Clone, Default)]
struct MemFs {
    files: Rc<RefCell<BTreeMap<String, Vec<u8>>>>,
    dirs: Rc<RefCell<BTreeSet<String>>>,
}

fn norm(p: &str) -> String {
    let mut parts: Vec<&str> = Vec::new();
    for part in p.split('/') {
        match part {
            "" | "." => {}
            ".." => {
                parts.pop();
            }
            other => parts.push(other),
        }
    }
    format!("/{}", parts.join("/"))
}

fn under(path: &str, root: &str) -> bool {
    root == "/" || path.starts_with(&format!("{root}/"))
}

fn io_err(kind: IoErrorKind, message: &str) -> IoError {
    IoError { kind, message: message.to_string() }
}

impl MemFs {
    fn new() -> Self {
        let fs = MemFs::default();
        fs.dirs.borrow_mut().insert("/".to_string());
        fs
    }

    fn put(&self, path: &str, text: &str) {
        let p = norm(path);
        if let Some(i) = p.rfind('/') {
            let _ = self.create_dir_all(&p[..i.max(1)]);
        }
        self.files.borrow_mut().insert(p, text.as_bytes().to_vec());
    }

    fn text(&self, path: &str) -> Option<String> {
        self.files.borrow().get(&norm(path)).map(|b| String::from_utf8_lossy(b).to_string())
    }

    fn file_names_under(&self, root: &str) -> Vec<String> {
        let r = norm(root);
        self.files.borrow().keys().filter(|k| under(k, &r)).cloned().collect()
    }
}

impl FileSystem for MemFs {
    fn read_to_string(&self, path: &str) -> IoResult<String> {
        self.text(path).ok_or_else(|| io_err(IoErrorKind::NotFound, "not found"))
    }
    fn read_bytes(&self, path: &str) -> IoResult<Vec<u8>> {
        self.files.borrow().get(&norm(path)).cloned().ok_or_else(|| io_err(IoErrorKind::NotFound, "not found"))
    }
    fn write(&self, path: &str, content: &[u8]) -> IoResult<()> {
        let p = norm(path);
        if let Some(i) = p.rfind('/') {
            self.create_dir_all(&p[..i.max(1)])?;
        }
        self.files.borrow_mut().insert(p, content.to_vec());
        Ok(())
    }
    fn create_dir_all(&self, path: &str) -> IoResult<()> {
        let p = norm(path);
        let mut cur = String::new();
        self.dirs.borrow_mut().insert("/".to_string());
        for part in p.split('/').filter(|s| !s.is_empty()) {
            cur = format!("{cur}/{part}");
            self.dirs.borrow_mut().insert(cur.clone());
        }
        Ok(())
    }
    fn remove_dir_all(&self, path: &str) -> IoResult<()> {
        let p = norm(path);
        if !self.dirs.borrow().contains(&p) {
            return Err(io_err(IoErrorKind::NotFound, "not found"));
        }
        self.files.borrow_mut().retain(|k, _| !under(k, &p));
        self.dirs.borrow_mut().retain(|k| k != &p && !under(k, &p));
        Ok(())
    }
    fn remove_file(&self, path: &str) -> IoResult<()> {
        self.files.borrow_mut().remove(&norm(path)).map(|_| ()).ok_or_else(|| io_err(IoErrorKind::NotFound, "not found"))
    }
    fn create_dir(&self, path: &str) -> IoResult<()> {
        self.dirs.borrow_mut().insert(norm(path));
        Ok(())
    }
    fn path_exists(&self, path: &str) -> bool {
        let p = norm(path);
        self.files.borrow().contains_key(&p) || self.dirs.borrow().contains(&p)
    }
    fn is_dir(&self, path: &str) -> bool {
        self.dirs.borrow().contains(&norm(path))
    }
    fn is_file(&self, path: &str) -> bool {
        self.files.borrow().contains_key(&norm(path))
    }
    fn read_dir(&self, path: &str) -> IoResult<Vec<String>> {
        Ok(self.file_names_under(path))
    }
    fn copy_file(&self, from: &str, to: &str) -> IoResult<u64> {
        let bytes = self.read_bytes(from)?;
        let n = bytes.len() as u64;
        self.write(to, &bytes)?;
        Ok(n)
    }
    fn copy_dir_all(&self, from: &str, to: &str) -> IoResult<()> {
        let f = norm(from);
        let t = norm(to);
        if !self.is_dir(&f) {
            return Err(io_err(IoErrorKind::NotFound, "not found"));
        }
        self.create_dir_all(&t)?;
        let copied: Vec<(String, Vec<u8>)> = self
            .files
            .borrow()
            .iter()
            .filter(|(k, _)| under(k, &f))
            .map(|(k, v)| (format!("{t}{}", &k[f.len()..]), v.clone()))
            .collect();
        for (k, v) in copied {
            self.write(&k, &v)?;
        }
        Ok(())
    }
    fn walk_dir(&self, root: &str) -> IoResult<Vec<String>> {
        if !self.is_dir(root) {
            return Err(io_err(IoErrorKind::NotFound, "not found"));
        }
        let r = norm(root);
        let given = root.trim_end_matches('/');
        Ok(self.file_names_under(root).into_iter().map(|k| format!("{given}{}", &k[r.len()..])).collect())
    }
    fn canonicalize(&self, path: &str) -> IoResult<String> {
        let p = norm(path);
        if self.path_exists(&p) {
            Ok(p)
        } else {
            Err(io_err(IoErrorKind::NotFound, "not found"))
        }
    }
    fn rename(&self, from: &str, to: &str) -> IoResult<()> {
        let f = norm(from);
        let t = norm(to);
        let moved: Vec<(String, Vec<u8>)> = self
            .files
            .borrow()
            .iter()
            .filter(|(k, _)| under(k, &f))
            .map(|(k, v)| (format!("{t}{}", &k[f.len()..]), v.clone()))
            .collect();
        self.files.borrow_mut().retain(|k, _| !under(k, &f));
        self.dirs.borrow_mut().retain(|k| k != &f && !under(k, &f));
        self.create_dir_all(&t)?;
        for (k, v) in moved {
            self.write(&k, &v)?;
        }
        Ok(())
    }
    fn atomic_write(&self, path: &str, content: &[u8]) -> IoResult<()> {
        self.write(path, content)
    }
    fn touch(&self, path: &str) -> IoResult<()> {
        if !self.is_file(path) {
            self.write(path, b"")?;
        }
        Ok(())
    }
    fn is_symlink(&self, _path: &str) -> bool {
        false
    }
    fn read_link(&self, _path: &str) -> IoResult<String> {
        Err(io_err(IoErrorKind::Other, "not implemented"))
    }
    fn hard_link(&self, _from: &str, _to: &str) -> IoResult<()> {
        Err(io_err(IoErrorKind::Other, "not implemented"))
    }
}

/// Renders a template as its name and the page title it was given.
struct EchoRenderer;

impl TemplateRenderer for EchoRenderer {
    fn render(&self, template_name: &str, context: &Context) -> Result<String, RawssgError> {
        let title = match context.get("page_title") {
            Some(ContextValue::Text(t)) => t.clone(),
            _ => String::new(),
        };
        let listed = match context.get("pages") {
            Some(ContextValue::Pages(p)) => p.len(),
            _ => 0,
        };
        Ok(format!("{template_name}|{title}|{listed}"))
    }
}

struct UpperMarkdown;

impl MarkdownRenderer for UpperMarkdown {
    fn render(&self, markdown: &str) -> String {
        markdown.to_uppercase()
    }
}

/// Front matter written as `key: value` lines (title, desc, draft, date).
fn parse_simple(yaml: &str) -> PageFrontMatter {
    let mut fm = PageFrontMatter::default();
    for line in yaml.lines() {
        if let Some((k, v)) = line.split_once(':') {
            let v = v.trim();
            match k.trim() {
                "title" => fm.title = v.to_string(),
                "desc" => fm.desc = v.to_string(),
                "draft" => fm.draft = v == "true",
                "date" => {
                    let parts: Vec<&str> = v.split('-').collect();
                    fm.date = Date::from_ymd(parts[0].parse().unwrap(), parts[1].parse().unwrap(), parts[2].parse().unwrap());
                }
                _ => {}
            }
        }
    }
    fm
}

struct SimplePageHandler;

impl ContentHandler for SimplePageHandler {
    fn can_handle(&self, _relative_path: &str, original_path: &str) -> bool {
        is_markdown(original_path)
    }
    fn process(
        &self,
        fs: &dyn FileSystem,
        md_renderer: &dyn MarkdownRenderer,
        file_path: &str,
        content_dir: &str,
    ) -> Result<Option<PageContext>, RawssgError> {
        let raw = read_page_source(fs, file_path, content_dir)?;
        let (yaml, md) = split_frontmatter(&raw, file_path)?;
        let fm = parse_simple(&yaml);
        let html = md_renderer.render(&md);
        page_from_frontmatter(fm, html, &rawssg::paths::join(content_dir, file_path), content_dir)
    }
}

fn blog_type() -> ContentTypeDef {
    ContentTypeDef {
        name: "blog".to_string(),
        pattern: "blog/**".to_string(),
        template: "post.html".to_string(),
        list_template: Some("list.html".to_string()),
        list_enabled: true,
    }
}

fn site_config() -> RawssgConfig {
    let mut config = RawssgConfig::default();
    config.content_types.push(blog_type());
    config
}

fn builder(fs: &MemFs) -> SiteBuilder {
    SiteBuilder::new(Box::new(fs.clone()), vec![Box::new(SimplePageHandler), Box::new(StaticFileHandler)])
}

#[test]
fn site_builder_requires_renderers() {
    let fs = MemFs::new();
    let r = builder(&fs).build();
    assert!(matches!(r, Err(RawssgError::Config(ref m)) if m == "markdown renderer not set"));
    let r = builder(&fs).with_markdown_renderer(Box::new(UpperMarkdown)).build();
    assert!(matches!(r, Err(RawssgError::Config(ref m)) if m == "template renderer not set"));
    let mut config = site_config();
    config.generators.rss = GeneratorDef { enabled: true, path: "rss.xml".to_string(), template: "rss".to_string() };
    let r = builder(&fs)
        .config(config)
        .with_markdown_renderer(Box::new(UpperMarkdown))
        .with_template_renderer(Box::new(EchoRenderer))
        .build();
    assert!(matches!(r, Err(RawssgError::Config(ref m)) if m == "feed context builder not set"));
}

#[test]
fn site_builder_collects_pages_with_types_and_lists() {
    let fs = MemFs::new();
    fs.put("/w/content/blog/one.md", "---\ntitle: One\ndate: 2026-09-08\n---\nfirst");
    fs.put("/w/content/blog/two.md", "---\ntitle: Two\ndraft: true\n---\nsecond");
    fs.put("/w/content/about.md", "---\ntitle: About\n---\nme");
    fs.put("/w/content/logo.png", "png");
    let site = builder(&fs)
        .config(site_config())
        .content_dir("/w/content")
        .output_dir("/w/dist")
        .with_markdown_renderer(Box::new(UpperMarkdown))
        .with_template_renderer(Box::new(EchoRenderer))
        .build();
    let site = match site {
        Ok(s) => s,
        Err(e) => panic!("build failed: {}", e.to_string()),
    };
    let pages = site.pages();
    assert_eq!(pages.len(), 3);
    let one = pages.iter().find(|p| p.frontmatter.title == "One").unwrap();
    assert_eq!(one.url, "blog/one.html");
    assert_eq!(one.content_type, "blog");
    assert_eq!(one.depth, 1);
    assert_eq!(one.content_html, "FIRST");
    assert_eq!(one.pub_date.as_deref(), Some("Tue, 08 Sep 2026 00:00:00 +0000"));
    let about = pages.iter().find(|p| p.frontmatter.title == "About").unwrap();
    assert_eq!(about.content_type, "page");
    assert_eq!(about.depth, 0);
    let list = &pages[2];
    assert!(list.is_list);
    assert_eq!(list.url, "blog/index.html");
    assert_eq!(list.list_items.as_ref().map(|v| v.len()), Some(1));
    // a page in a directory of its own needs that directory to exist
    // before its output path can be checked
    assert!(matches!(site.generate(), Err(RawssgError::Io(_))));
}

#[test]
fn site_generates_flat_sites() {
    let fs = MemFs::new();
    fs.put("/w/content/post-one.md", "---\ntitle: One\n---\nfirst");
    fs.put("/w/content/about.md", "---\ntitle: About\n---\nme");
    fs.put("/w/content/logo.png", "png");
    fs.put("/w/dist/stale.html", "old");
    let mut config = RawssgConfig::default();
    config.content_types.push(ContentTypeDef {
        name: "post".to_string(),
        pattern: "post-*".to_string(),
        template: "post.html".to_string(),
        list_template: None,
        list_enabled: true,
    });
    let site = builder(&fs)
        .config(config)
        .content_dir("/w/content")
        .output_dir("/w/dist")
        .with_markdown_renderer(Box::new(UpperMarkdown))
        .with_template_renderer(Box::new(EchoRenderer))
        .build();
    let site = match site {
        Ok(s) => s,
        Err(e) => panic!("build failed: {}", e.to_string()),
    };
    assert_eq!(site.pages().len(), 2);
    match site.generate() {
        Ok(()) => {}
        Err(e) => panic!("generate failed: {}", e.to_string()),
    }
    assert_eq!(fs.text("/w/dist/post-one.html").as_deref(), Some("post.html|One|0"));
    assert_eq!(fs.text("/w/dist/about.html").as_deref(), Some("base.html|About|0"));
    assert_eq!(fs.text("/w/dist/logo.png").as_deref(), Some("png"));
    assert!(fs.text("/w/dist/about.md").is_none());
    assert!(fs.text("/w/dist/stale.html").is_none());
    assert!(!fs.path_exists("/w/dist.tmp"));
}

#[test]
fn site_writes_feed_and_sitemap() {
    let fs = MemFs::new();
    fs.put("/w/content/one.md", "---\ntitle: One\n---\nfirst");
    let mut config = RawssgConfig::default();
    config.content_types.push(ContentTypeDef {
        name: "blog".to_string(),
        pattern: "**".to_string(),
        template: "post.html".to_string(),
        list_template: None,
        list_enabled: false,
    });
    config.generators.rss = GeneratorDef { enabled: true, path: "rss.xml".to_string(), template: "rss".to_string() };
    config.generators.sitemap = GeneratorDef { enabled: true, path: "sitemap.xml".to_string(), template: "map".to_string() };
    let site = builder(&fs)
        .config(config)
        .content_dir("/w/content")
        .output_dir("/w/dist")
        .with_markdown_renderer(Box::new(UpperMarkdown))
        .with_template_renderer(Box::new(EchoRenderer))
        .with_feed_context_builder(Box::new(TeraFeedContextBuilder))
        .with_sitemap_context_builder(Box::new(TeraSitemapContextBuilder))
        .build();
    let site = match site {
        Ok(s) => s,
        Err(e) => panic!("build failed: {}", e.to_string()),
    };
    match site.generate() {
        Ok(()) => {}
        Err(e) => panic!("generate failed: {}", e.to_string()),
    }
    assert_eq!(fs.text("/w/dist/one.html").as_deref(), Some("post.html|One|0"));
    assert_eq!(fs.text("/w/dist/rss.xml").as_deref(), Some("rss||0"));
    assert_eq!(fs.text("/w/dist/sitemap.xml").as_deref(), Some("map||1"));
}

#[test]
fn feed_context_lists_posts() {
    let config = site_config();
    let mut post = PageContext {
        frontmatter: PageFrontMatter::default(),
        content_html: String::new(),
        url: "blog/a.html".to_string(),
        file_path: "blog/a.md".to_string(),
        depth: 1,
        pub_date: None,
        content_type: "blog".to_string(),
        is_list: false,
        list_items: None,
    };
    post.frontmatter.title = "A".to_string();
    let posts = vec![&post];
    let ctx = match TeraFeedContextBuilder.build_feed_context(&config, &posts, "https://x.org") {
        Ok(c) => c,
        Err(e) => panic!("feed context failed: {}", e.to_string()),
    };
    assert!(matches!(ctx.get("posts"), Some(ContextValue::Pages(p)) if p.len() == 1 && p[0].url == "blog/a.html"));
    assert!(matches!(ctx.get("base_url"), Some(ContextValue::Text(u)) if u == "https://x.org"));
    let pages = vec![post.clone()];
    let ctx = match TeraSitemapContextBuilder.build_sitemap_context(&config, &pages, "b") {
        Ok(c) => c,
        Err(e) => panic!("sitemap context failed: {}", e.to_string()),
    };
    assert!(matches!(ctx.get("pages"), Some(ContextValue::Pages(p)) if p.len() == 1));
    let feed = generate_feed(&EchoRenderer, &config, &posts, "b", &TeraFeedContextBuilder);
    assert!(matches!(feed, Ok(ref t) if t == "||0"));
}

#[test]
fn page_context_holds_page_fields() {
    let page = PageContext {
        frontmatter: PageFrontMatter::default(),
        content_html: "<p>x</p>".to_string(),
        url: "a/b/c.html".to_string(),
        file_path: "a/b/c.md".to_string(),
        depth: 2,
        pub_date: None,
        content_type: "page".to_string(),
        is_list: false,
        list_items: None,
    };
    let ctx = page_context(&GlobalConfig::default(), "http://localhost:3000", &page);
    assert!(matches!(ctx.get("base_path"), Some(ContextValue::Text(t)) if t == "../../"));
    assert!(matches!(ctx.get("page_author"), Some(ContextValue::Text(t)) if t.is_empty()));
    assert!(matches!(ctx.get("page_content"), Some(ContextValue::Text(t)) if t == "<p>x</p>"));
    assert!(matches!(ctx.get("site"), Some(ContextValue::Global(g)) if g.site_name == "rawssg"));
    assert_eq!(relative_prefix(0), "./");
}

#[test]
fn templates_for_pages_fall_back_to_base() {
    let types = vec![blog_type()];
    let mut page = PageContext {
        frontmatter: PageFrontMatter::default(),
        content_html: String::new(),
        url: "x.html".to_string(),
        file_path: String::new(),
        depth: 0,
        pub_date: None,
        content_type: "blog".to_string(),
        is_list: true,
        list_items: None,
    };
    assert_eq!(template_for_page(&types, &page), "list.html");
    page.is_list = false;
    assert_eq!(template_for_page(&types, &page), "post.html");
    page.content_type = "other".to_string();
    assert_eq!(template_for_page(&types, &page), "base.html");
}

#[test]
fn list_pages_only_for_types_with_pages() {
    let mut types = vec![blog_type()];
    let mut news = blog_type();
    news.name = "news".to_string();
    types.push(news);
    let page = PageContext {
        frontmatter: PageFrontMatter::default(),
        content_html: String::new(),
        url: "blog/a.html".to_string(),
        file_path: String::new(),
        depth: 1,
        pub_date: None,
        content_type: "blog".to_string(),
        is_list: false,
        list_items: None,
    };
    let out = add_list_pages(&types, vec![page]);
    assert_eq!(out.len(), 2);
    assert_eq!(out[1].url, "blog/index.html");
    assert_eq!(out[1].frontmatter.title, "blog");
}

#[test]
fn frontmatter_is_split_from_markdown() {
    let (yaml, md) = split_frontmatter("  \n---\ntitle: Hi\n---\n\n# Body\n\n", "a.md").unwrap();
    assert_eq!(yaml, "title: Hi");
    assert_eq!(md, "# Body");
    let (yaml, md) = split_frontmatter("------\ntitle: x", "b.md").unwrap();
    assert_eq!(yaml, "title: x");
    assert_eq!(md, "");
    let (yaml, md) = split_frontmatter("---\r\na: 1\r\n---\r\nbody", "c.md").unwrap();
    assert_eq!(yaml, "a: 1\r");
    assert_eq!(md, "body");
    let err = split_frontmatter("title: no fence", "d.md");
    match err {
        Err(RawssgError::Frontmatter { path, source }) => {
            assert_eq!(path, "d.md");
            assert_eq!(source, "missing opening '---'");
        }
        _ => panic!("expected a front matter error"),
    }
}

#[test]
fn drafts_yield_no_page_and_paths_must_be_under_content() {
    let mut fm = PageFrontMatter::default();
    fm.draft = true;
    assert!(matches!(page_from_frontmatter(fm, String::new(), "c/a.md", "c"), Ok(None)));
    let fm = PageFrontMatter::default();
    let r = page_from_frontmatter(fm, String::new(), "elsewhere/a.md", "c");
    assert!(matches!(r, Err(RawssgError::SiteGeneration(ref m)) if m == "prefix not found"));
}

#[test]
fn dev_server_answers_requests() {
    assert_eq!(requested_path("/"), "index.html");
    assert_eq!(requested_path("//css/site.css"), "css/site.css");
    assert_eq!(mime_type("a/b.css"), "text/css");
    assert_eq!(mime_type("x.JPEG"), "application/octet-stream");
    assert_eq!(mime_type("x.jpeg"), "image/jpeg");
    assert_eq!(mime_type("index.html"), "text/html; charset=utf-8");
    assert_eq!(mime_type("noext"), "application/octet-stream");
    let fs = MemFs::new();
    fs.put("/dist/index.html", "<h1>hi</h1>");
    fs.put("/secret.txt", "no");
    match reply_for(&fs, "/dist", "/") {
        Reply::File { content_type, body } => {
            assert_eq!(content_type, "text/html; charset=utf-8");
            assert_eq!(body, b"<h1>hi</h1>".to_vec());
        }
        other => panic!("unexpected reply {other:?}"),
    }
    assert_eq!(reply_for(&fs, "/dist", "/../secret.txt"), Reply::NotFound);
    assert_eq!(reply_for(&fs, "/dist", "/missing/page.html"), Reply::NotFound);
    assert_eq!(reply_for(&fs, "/dist", "/missing.html").status(), 500);
    let r = file_reply("x.svg", Err(IoError { kind: IoErrorKind::Other, message: "e".to_string() }));
    assert_eq!(r, Reply::ServerError);
    assert_eq!(Reply::NotFound.status(), 404);
}

#[test]
fn safe_path_keeps_output_inside_base() {
    let fs = MemFs::new();
    fs.create_dir_all("/out/sub").unwrap();
    assert_eq!(safe_path(&fs, "/out", "sub/page.html").unwrap(), "/out/sub/page.html");
    assert!(matches!(safe_path(&fs, "/out", "../escape.html"), Err(RawssgError::PathTraversal(_))));
    assert!(matches!(safe_path(&fs, "/nope", "a.html"), Err(RawssgError::Io(_))));
}

#[test]
fn slugs_are_lowercase_words_joined_by_dashes() {
    assert_eq!(slugify("Hello, World!"), "hello-world");
    assert_eq!(slugify("  Rust -- Verus  "), "rust-verus");
    assert_eq!(slugify("Ünïcode Tïtle"), "ünïcode-tïtle");
    assert_eq!(slugify("!!!"), "");
}

#[test]
fn dates_follow_the_calendar() {
    assert!(Date::from_ymd(2024, 2, 29).is_some());
    assert!(Date::from_ymd(2023, 2, 29).is_none());
    assert!(Date::from_ymd(1900, 2, 29).is_none());
    assert!(Date::from_ymd(2000, 2, 29).is_some());
    assert!(Date::from_ymd(2024, 13, 1).is_none());
    assert!(Date::from_ymd(262143, 1, 1).is_none());
    let d = Date::from_ymd(2026, 9, 8).unwrap();
    assert_eq!((d.year(), d.month(), d.day()), (2026, 9, 8));
    assert_eq!(d.rfc2822_midnight(), "Tue, 08 Sep 2026 00:00:00 +0000");
}

#[test]
fn pulldown_renders_markdown_with_extensions() {
    let html = PulldownMarkdown.render("# Hi\n\n~~gone~~");
    assert_eq!(html, "<h1>Hi</h1>\n<p><del>gone</del></p>\n");
}

struct FixedLoader(Option<GlobalConfig>);

impl ConfigLoader for FixedLoader {
    fn load(&self) -> Result<GlobalConfig, RawssgError> {
        match &self.0 {
            Some(g) => Ok(g.clone()),
            None => Err(RawssgError::Config("cannot read config file".to_string())),
        }
    }
}

#[test]
fn config_loader_falls_back_to_defaults() {
    let mut g = GlobalConfig::default();
    g.site_name = "Mine".to_string();
    assert_eq!(FixedLoader(Some(g)).load_or_default().site_name, "Mine");
    let d = FixedLoader(None).load_or_default();
    assert_eq!(d.site_name, "rawssg");
    assert_eq!(d.language.as_deref(), Some("en"));
}

#[test]
fn settings_fall_back_only_on_failure() {
    let mut g = GlobalConfig::default();
    g.site_name = "Loaded".to_string();
    assert_eq!(settings_or_default(Ok(g)).site_name, "Loaded");
    let d = settings_or_default(Err(RawssgError::Config("bad".to_string())));
    assert_eq!(d.site_name, "rawssg");
}

#[test]
fn raw_files_become_titled_pages() {
    let fs = MemFs::new();
    fs.put("/content/notes/my-first_note.raw", "plain text");
    let d = RawFileProcessor.process(&fs, "notes/my-first_note.raw", "/content").unwrap().unwrap();
    assert_eq!(d.url, "notes/my-first_note.html");
    assert_eq!(d.depth, 1);
    assert_eq!(d.body, "plain text");
    assert!(RawFileProcessor.process(&fs, "notes/missing.raw", "/content").is_err());
}

#[test]
fn default_site_config_has_no_generators() {
    let c = RawssgConfig::default();
    assert!(!c.generators.rss.enabled);
    assert!(!c.generators.sitemap.enabled);
    assert_eq!(c.build.content_dir, "content");
    assert_eq!(c.build.static_dir, "static");
}

#[test]
fn copy_file_via_copy_method() {
    let fs = MemFs::new();
    fs.create_dir_all("/tmp1").unwrap();
    let src = "/tmp1/src.txt";
    let dst = "/tmp1/dst.txt";
    fs.write(src, b"copy me").unwrap();

    fs.copy(src, dst).unwrap();
    assert!(fs.path_exists(dst));
    assert_eq!(fs.read_to_string(dst).unwrap(), "copy me");
}

#[test]
fn copy_dir_via_copy_method() {
    let fs = MemFs::new();
    let src = "/tmp1/src_dir";
    let dst = "/tmp1/dst_dir";
    fs.create_dir_all(src).unwrap();
    fs.write(&join(src, "file.txt"), b"dir copy").unwrap();

    fs.copy(src, dst).unwrap();
    assert!(fs.path_exists(&join(dst, "file.txt")));
    assert_eq!(fs.read_to_string(&join(dst, "file.txt")).unwrap(), "dir copy");
}

#[test]
fn canonicalize_or_join_works_for_existing_and_missing() {
    let fs = MemFs::new();
    let base = "/tmp1";
    fs.create_dir_all(base).unwrap();
    let existing = join(base, "existing.txt");
    fs.write(&existing, b"data").unwrap();

    let canon_existing = canonicalize_or_join(&fs, base, "existing.txt").unwrap();
    let canon_direct = fs.canonicalize(&existing).unwrap();
    assert_eq!(canon_existing, canon_direct);

    let canon_missing = canonicalize_or_join(&fs, base, "missing.txt").unwrap();
    let canon_base = fs.canonicalize(base).unwrap();
    assert_eq!(canon_missing, join(&canon_base, "missing.txt"));
}

#[test]
fn rename_or_copy_fallback_renames_on_same_device() {
    let fs = MemFs::new();
    let src = "/tmp1/src_dir";
    let dst = "/tmp1/dst_dir";
    fs.create_dir_all(src).unwrap();
    fs.write(&join(src, "file.txt"), b"data").unwrap();

    fs.rename_or_copy(src, dst).unwrap();
    assert!(!fs.path_exists(src));
    assert!(fs.path_exists(dst));
    assert_eq!(fs.read_to_string(&join(dst, "file.txt")).unwrap(), "data");
}

#[test]
fn copy_plan_leaves_out_markdown_and_marks_outsiders() {
    let entries = vec![
        "/content/a.md".to_string(),
        "/content/img/logo.png".to_string(),
        "/elsewhere/x.css".to_string(),
    ];
    let steps = copy_plan(&entries, "/content", true);
    assert!(matches!(steps[0], CopyStep::Skip));
    assert!(matches!(&steps[1], CopyStep::Copy { entry, rel } if entry == "/content/img/logo.png" && rel == "img/logo.png"));
    assert!(matches!(steps[2], CopyStep::Outside));
    let steps = copy_plan(&entries, "/content", false);
    assert!(matches!(&steps[0], CopyStep::Copy { rel, .. } if rel == "a.md"));
}

fn page_of(content_type: &str, url: &str, is_list: bool) -> PageContext {
    PageContext {
        frontmatter: PageFrontMatter::default(),
        content_html: String::new(),
        url: url.to_string(),
        file_path: String::new(),
        depth: 0,
        pub_date: None,
        content_type: content_type.to_string(),
        is_list,
        list_items: None,
    }
}

#[test]
fn blog_posts_are_blog_pages_that_are_not_lists() {
    let pages = vec![
        page_of("blog", "a.html", false),
        page_of("page", "b.html", false),
        page_of("blog", "blog/index.html", true),
        page_of("blog", "d.html", false),
    ];
    let posts = blog_posts(&pages);
    assert_eq!(posts.len(), 2);
    assert_eq!(posts[0].url, "a.html");
    assert_eq!(posts[1].url, "d.html");
}
