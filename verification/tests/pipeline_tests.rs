use rawssg::compiler::{
    determine_content_type, group_by_type, list_document, list_template_for, process_documents,
    template_for_document, ContextBuilder, Generator, PipelineBuilder, TeraContextBuilder,
};
use rawssg::config::{Config, ContentRule};
use rawssg::error::{Error, Result};
use rawssg::fs::{FileSystem, IoError, IoErrorKind, IoResult};
use rawssg::handler::{Document, Metadata, Processor};
use rawssg::paths::{extension, join, with_extension};
use rawssg::raw_files::{raw_document, title_from_stem, RawFileProcessor};
use rawssg::templates::{ContextValue, RenderContext, Renderer};
use std::cell::RefCell;
use std::collections::{BTreeMap, BTreeSet};
use std::rc::Rc;

/// A file system held in memory; relative paths are taken from `/`.
#[derive(Clone, Default)]
struct MemFs {
    files: Rc<RefCell<BTreeMap<String, Vec<u8>>>>,
    dirs: Rc<RefCell<BTreeSet<String>>>,
}

fn norm(p: &str) -> String {
    let mut parts: Vec<&str> = Vec::new();
    for part in p.split('/') {
        match part {
            "" | "." => {}
            ".." => {
                parts.pop();
            }
            other => parts.push(other),
        }
    }
    format!("/{}", parts.join("/"))
}

fn under(path: &str, root: &str) -> bool {
    root == "/" || path.starts_with(&format!("{root}/"))
}

fn io_err(kind: IoErrorKind, message: &str) -> IoError {
    IoError { kind, message: message.to_string() }
}

impl MemFs {
    fn new() -> Self {
        let fs = MemFs::default();
        fs.dirs.borrow_mut().insert("/".to_string());
        fs
    }

    fn put(&self, path: &str, text: &str) {
        let p = norm(path);
        if let Some(i) = p.rfind('/') {
            let _ = self.create_dir_all(&p[..i.max(1)]);
        }
        self.files.borrow_mut().insert(p, text.as_bytes().to_vec());
    }

    fn text(&self, path: &str) -> Option<String> {
        self.files.borrow().get(&norm(path)).map(|b| String::from_utf8_lossy(b).to_string())
    }

    fn file_names_under(&self, root: &str) -> Vec<String> {
        let r = norm(root);
        self.files.borrow().keys().filter(|k| under(k, &r)).cloned().collect()
    }
}

impl FileSystem for MemFs {
    fn read_to_string(&self, path: &str) -> IoResult<String> {
        self.text(path).ok_or_else(|| io_err(IoErrorKind::NotFound, "not found"))
    }
    fn read_bytes(&self, path: &str) -> IoResult<Vec<u8>> {
        self.files.borrow().get(&norm(path)).cloned().ok_or_else(|| io_err(IoErrorKind::NotFound, "not found"))
    }
    fn write(&self, path: &str, content: &[u8]) -> IoResult<()> {
        let p = norm(path);
        if let Some(i) = p.rfind('/') {
            self.create_dir_all(&p[..i.max(1)])?;
        }
        self.files.borrow_mut().insert(p, content.to_vec());
        Ok(())
    }
    fn create_dir_all(&self, path: &str) -> IoResult<()> {
        let p = norm(path);
        let mut cur = String::new();
        self.dirs.borrow_mut().insert("/".to_string());
        for part in p.split('/').filter(|s| !s.is_empty()) {
            cur = format!("{cur}/{part}");
            self.dirs.borrow_mut().insert(cur.clone());
        }
        Ok(())
    }
    fn remove_dir_all(&self, path: &str) -> IoResult<()> {
        let p = norm(path);
        if !self.dirs.borrow().contains(&p) {
            return Err(io_err(IoErrorKind::NotFound, "not found"));
        }
        self.files.borrow_mut().retain(|k, _| !under(k, &p));
        self.dirs.borrow_mut().retain(|k| k != &p && !under(k, &p));
        Ok(())
    }
    fn remove_file(&self, path: &str) -> IoResult<()> {
        self.files.borrow_mut().remove(&norm(path)).map(|_| ()).ok_or_else(|| io_err(IoErrorKind::NotFound, "not found"))
    }
    fn create_dir(&self, path: &str) -> IoResult<()> {
        self.dirs.borrow_mut().insert(norm(path));
        Ok(())
    }
    fn path_exists(&self, path: &str) -> bool {
        let p = norm(path);
        self.files.borrow().contains_key(&p) || self.dirs.borrow().contains(&p)
    }
    fn is_dir(&self, path: &str) -> bool {
        self.dirs.borrow().contains(&norm(path))
    }
    fn is_file(&self, path: &str) -> bool {
        self.files.borrow().contains_key(&norm(path))
    }
    fn read_dir(&self, path: &str) -> IoResult<Vec<String>> {
        Ok(self.file_names_under(path))
    }
    fn copy_file(&self, from: &str, to: &str) -> IoResult<u64> {
        let bytes = self.read_bytes(from)?;
        let n = bytes.len() as u64;
        self.write(to, &bytes)?;
        Ok(n)
    }
    fn copy_dir_all(&self, _from: &str, _to: &str) -> IoResult<()> {
        Err(io_err(IoErrorKind::Other, "not implemented"))
    }
    fn walk_dir(&self, root: &str) -> IoResult<Vec<String>> {
        if !self.is_dir(root) {
            return Err(io_err(IoErrorKind::NotFound, "not found"));
        }
        let r = norm(root);
        let given = root.trim_end_matches('/');
        Ok(self.file_names_under(root).into_iter().map(|k| format!("{given}{}", &k[r.len()..])).collect())
    }
    fn canonicalize(&self, path: &str) -> IoResult<String> {
        let p = norm(path);
        if self.path_exists(&p) {
            Ok(p)
        } else {
            Err(io_err(IoErrorKind::NotFound, "not found"))
        }
    }
    fn rename(&self, from: &str, to: &str) -> IoResult<()> {
        let f = norm(from);
        let t = norm(to);
        let moved: Vec<(String, Vec<u8>)> = self
            .files
            .borrow()
            .iter()
            .filter(|(k, _)| under(k, &f))
            .map(|(k, v)| (format!("{t}{}", &k[f.len()..]), v.clone()))
            .collect();
        self.files.borrow_mut().retain(|k, _| !under(k, &f));
        self.dirs.borrow_mut().retain(|k| k != &f && !under(k, &f));
        self.create_dir_all(&t)?;
        for (k, v) in moved {
            self.write(&k, &v)?;
        }
        Ok(())
    }
    fn atomic_write(&self, path: &str, content: &[u8]) -> IoResult<()> {
        self.write(path, content)
    }
    fn touch(&self, path: &str) -> IoResult<()> {
        if !self.is_file(path) {
            self.write(path, b"")?;
        }
        Ok(())
    }
    fn is_symlink(&self, _path: &str) -> bool {
        false
    }
    fn read_link(&self, _path: &str) -> IoResult<String> {
        Err(io_err(IoErrorKind::Other, "not implemented"))
    }
    fn hard_link(&self, _from: &str, _to: &str) -> IoResult<()> {
        Err(io_err(IoErrorKind::Other, "not implemented"))
    }
}

struct MockRenderer;

impl Renderer for MockRenderer {
    fn render(&self, template_name: &str, _context: &RenderContext) -> Result<String> {
        Ok(format!("rendered:{template_name}"))
    }
}

struct MockContextBuilder;

impl ContextBuilder for MockContextBuilder {
    fn build_context(&self, _config: &Config, _doc: &Document) -> Result<RenderContext> {
        Ok(RenderContext::new())
    }
}

struct RawHtmlProcessor;

impl Processor for RawHtmlProcessor {
    fn name(&self) -> &str {
        "raw-html"
    }
    fn can_process(&self, relative_path: &str, _original_path: &str) -> bool {
        extension(relative_path).as_deref() == Some("html")
    }
    fn process(&self, fs: &dyn FileSystem, relative_path: &str, content_dir: &str) -> Result<Option<Document>> {
        let full_path = join(content_dir, relative_path);
        let content = fs.read_to_string(&full_path)?;
        let url = with_extension(relative_path, "html");
        let metadata = Metadata::new("Test", "Description")?;
        let doc = Document::new(metadata, &content, &url, &url, relative_path, 0, "page", false)?;
        Ok(Some(doc))
    }
}

struct DummyGenerator {
    fs: MemFs,
}

impl Generator for DummyGenerator {
    fn generate(&self, _config: &Config, output_base: &str) -> Result<()> {
        self.fs.write(&join(output_base, "generated.txt"), b"generated").map_err(|e| Error::Generation(e.message))
    }
}

fn setup_config() -> Config {
    let mut config = Config::new().with_site_name("Compiler Test");
    config.add_content_rule(ContentRule::new("page", "**/*.html", "base"));
    config
}

fn build_basic_pipeline(fs: &MemFs, config: Config) -> Result<rawssg::compiler::Pipeline> {
    PipelineBuilder::new(Box::new(fs.clone()))
        .config(config)
        .content_dir("/site/content")
        .output_dir("/site/dist")
        .with_renderer(Box::new(MockRenderer))
        .with_context_builder(Box::new(MockContextBuilder))
        .add_processor(Box::new(RawHtmlProcessor))
        .build()
}

fn must<T>(r: Result<T>, what: &str) -> T {
    match r {
        Ok(v) => v,
        Err(e) => panic!("{what} failed: {}", e.to_string()),
    }
}

#[test]
fn pipeline_generates_single_page() {
    let fs = MemFs::new();
    fs.put("/site/content/index.html", "<h1>Home</h1>");
    let pipeline = must(build_basic_pipeline(&fs, setup_config()), "build pipeline");
    must(pipeline.run(), "run pipeline");
    assert_eq!(fs.text("/site/dist/index.html").as_deref(), Some("rendered:base"));
}

#[test]
fn pipeline_respects_content_type_rules() {
    let fs = MemFs::new();
    fs.put("/site/content/blog/post.html", "post");
    fs.put("/site/content/index.html", "index");
    let mut config = setup_config();
    config.add_content_rule(ContentRule::new("blog", "blog/**/*.html", "post_template"));
    let pipeline = must(build_basic_pipeline(&fs, config), "build pipeline");
    must(pipeline.run(), "run pipeline");
    assert_eq!(fs.text("/site/dist/blog/post.html").as_deref(), Some("rendered:post_template"));
    assert_eq!(fs.text("/site/dist/index.html").as_deref(), Some("rendered:base"));
}

#[test]
fn pipeline_generates_list_pages() {
    let fs = MemFs::new();
    fs.put("/site/content/blog/one.html", "one");
    fs.put("/site/content/blog/two.html", "two");
    let mut config = setup_config();
    let mut blog_rule = ContentRule::new("blog", "blog/**/*.html", "post");
    blog_rule.list_template = Some("list".into());
    blog_rule.list_enabled = true;
    config.add_content_rule(blog_rule);
    let pipeline = must(build_basic_pipeline(&fs, config), "build pipeline");
    must(pipeline.run(), "run pipeline");
    assert_eq!(fs.text("/site/dist/blog/index.html").as_deref(), Some("rendered:list"));
    assert_eq!(fs.text("/site/dist/blog/one.html").as_deref(), Some("rendered:post"));
}

#[test]
fn pipeline_copies_static_assets() {
    let fs = MemFs::new();
    fs.put("/site/content/index.html", "home");
    fs.put("/assets/style.css", "body {}");
    let mut config = setup_config();
    config.build.static_dir = "assets".to_string();
    let pipeline = must(build_basic_pipeline(&fs, config), "build pipeline");
    must(pipeline.run(), "run pipeline");
    assert_eq!(fs.text("/site/dist/assets/style.css").as_deref(), Some("body {}"));
}

#[test]
fn pipeline_runs_generators() {
    let fs = MemFs::new();
    fs.put("/site/content/index.html", "hello");
    let pipeline = must(
        PipelineBuilder::new(Box::new(fs.clone()))
            .config(setup_config())
            .content_dir("/site/content")
            .output_dir("/site/dist")
            .with_renderer(Box::new(MockRenderer))
            .with_context_builder(Box::new(MockContextBuilder))
            .add_processor(Box::new(RawHtmlProcessor))
            .add_generator(Box::new(DummyGenerator { fs: fs.clone() }))
            .build(),
        "build pipeline",
    );
    must(pipeline.run(), "run pipeline");
    assert_eq!(fs.text("/site/dist/generated.txt").as_deref(), Some("generated"));
}

#[test]
fn pipeline_atomic_replace_existing_output() {
    let fs = MemFs::new();
    fs.put("/site/content/index.html", "new");
    fs.put("/site/dist/old.txt", "old");
    let pipeline = must(build_basic_pipeline(&fs, setup_config()), "build pipeline");
    must(pipeline.run(), "run pipeline");
    assert!(fs.text("/site/dist/old.txt").is_none());
    assert_eq!(fs.text("/site/dist/index.html").as_deref(), Some("rendered:base"));
    assert!(!fs.path_exists("/site/dist.tmp"));
}

#[test]
fn pipeline_handles_empty_content_dir() {
    let fs = MemFs::new();
    fs.create_dir_all("/site/content").unwrap();
    let pipeline = must(build_basic_pipeline(&fs, setup_config()), "build pipeline");
    must(pipeline.run(), "run pipeline");
    assert!(fs.is_dir("/site/dist"));
    assert!(fs.file_names_under("/site/dist").is_empty());
}

#[test]
fn pipeline_skips_files_not_matching_processor() {
    let fs = MemFs::new();
    fs.put("/site/content/index.html", "home");
    fs.put("/site/content/script.js", "console.log('hi')");
    let pipeline = must(build_basic_pipeline(&fs, setup_config()), "build pipeline");
    must(pipeline.run(), "run pipeline");
    assert!(fs.text("/site/dist/index.html").is_some());
    assert!(fs.text("/site/dist/script.js").is_none());
}

#[test]
fn pipeline_errors_when_renderer_missing() {
    let fs = MemFs::new();
    let result = PipelineBuilder::new(Box::new(fs.clone()))
        .config(setup_config())
        .with_context_builder(Box::new(MockContextBuilder))
        .add_processor(Box::new(RawHtmlProcessor))
        .build();
    assert!(matches!(result, Err(Error::Config(ref m)) if m == "template renderer not set"));
}

#[test]
fn pipeline_errors_when_context_builder_missing() {
    let fs = MemFs::new();
    let result = PipelineBuilder::new(Box::new(fs.clone()))
        .config(setup_config())
        .with_renderer(Box::new(MockRenderer))
        .add_processor(Box::new(RawHtmlProcessor))
        .build();
    assert!(matches!(result, Err(Error::Config(ref m)) if m == "context builder not set"));
}

#[test]
fn pipeline_errors_on_invalid_config() {
    let fs = MemFs::new();
    let result = PipelineBuilder::new(Box::new(fs.clone()))
        .config(Config::new())
        .with_renderer(Box::new(MockRenderer))
        .with_context_builder(Box::new(MockContextBuilder))
        .build();
    assert!(matches!(result, Err(Error::Validation(ref m)) if m == "at least one content rule must be defined"));
}

#[test]
fn builder_takes_directories_from_config_when_left_at_defaults() {
    let fs = MemFs::new();
    let mut config = setup_config();
    config.build.content_dir = "src".to_string();
    config.build.output_dir = "public".to_string();
    let pipeline = must(
        PipelineBuilder::new(Box::new(fs.clone()))
            .config(config.clone())
            .with_renderer(Box::new(MockRenderer))
            .with_context_builder(Box::new(MockContextBuilder))
            .build(),
        "build pipeline",
    );
    assert_eq!(pipeline.content_dir(), "src");
    assert_eq!(pipeline.output_dir(), "public");
    let pipeline = must(
        PipelineBuilder::new(Box::new(fs.clone()))
            .config(config)
            .content_dir("./content")
            .output_dir("dist/")
            .with_renderer(Box::new(MockRenderer))
            .with_context_builder(Box::new(MockContextBuilder))
            .build(),
        "build pipeline",
    );
    assert_eq!(pipeline.content_dir(), "./content");
    assert_eq!(pipeline.output_dir(), "public");
}

#[test]
fn content_type_is_last_matching_rule_else_page() {
    let rules = vec![
        ContentRule::new("blog", "blog/*.md", "post"),
        ContentRule::new("any", "**", "base"),
    ];
    assert_eq!(determine_content_type(&rules, "blog/a.md"), "any");
    assert_eq!(determine_content_type(&rules, "about.md"), "any");
    assert_eq!(determine_content_type(&rules[..1].to_vec(), "blog/a.md"), "blog");
    assert_eq!(determine_content_type(&rules[..1].to_vec(), "about.md"), "page");
    let specific_last = vec![
        ContentRule::new("page", "**/*.html", "base"),
        ContentRule::new("blog", "blog/**/*.html", "post"),
    ];
    assert_eq!(determine_content_type(&specific_last, "blog/x.html"), "blog");
    assert_eq!(determine_content_type(&specific_last, "x.html"), "page");
}

#[test]
fn template_prefers_list_template_for_lists() {
    let mut rule = ContentRule::new("blog", "blog/*.md", "post");
    rule.list_template = Some("list".to_string());
    let rules = vec![rule];
    let mut doc = list_document("blog", Vec::new());
    assert_eq!(must(template_for_document(&rules, &doc), "template"), "list");
    doc.is_list = false;
    assert_eq!(must(template_for_document(&rules, &doc), "template"), "post");
    doc.content_type = "news".to_string();
    let err = template_for_document(&rules, &doc);
    assert!(matches!(err, Err(Error::Generation(ref m)) if m == "no content rule found for type 'news'"));
    assert_eq!(list_template_for(&rules, "blog"), None);
}

#[test]
fn groups_keep_first_appearance_order() {
    let mk = |ct: &str, url: &str| {
        let mut d = must(
            Document::new(Metadata::default(), "", url, url, "a.md", 0, ct, false),
            "document",
        );
        d.content_type = ct.to_string();
        d
    };
    let docs = vec![mk("b", "1"), mk("a", "2"), mk("b", "3")];
    let (keys, groups) = group_by_type(docs);
    assert_eq!(keys, vec!["b".to_string(), "a".to_string()]);
    assert_eq!(groups[0].iter().map(|d| d.url.as_str()).collect::<Vec<_>>(), vec!["1", "3"]);
    assert_eq!(groups[1].iter().map(|d| d.url.as_str()).collect::<Vec<_>>(), vec!["2"]);
    let list = list_document("b", groups[0].clone());
    assert_eq!(list.url, "b/index.html");
    assert_eq!(list.depth, 1);
    assert_eq!(list.metadata.title, "b");
}

#[test]
fn processed_documents_get_type_and_depth() {
    let fs = MemFs::new();
    fs.put("/c/blog/deep/post.html", "x");
    fs.put("/c/top.html", "y");
    let rules = vec![ContentRule::new("blog", "blog/**", "post")];
    let processors: Vec<Box<dyn Processor>> = vec![Box::new(RawHtmlProcessor)];
    let docs = must(process_documents(&fs, &processors, &rules, "/c"), "process");
    let blog = docs.iter().find(|d| d.url == "blog/deep/post.html").unwrap();
    assert_eq!(blog.content_type, "blog");
    assert_eq!(blog.depth, 2);
    let top = docs.iter().find(|d| d.url == "top.html").unwrap();
    assert_eq!(top.content_type, "page");
    assert_eq!(top.depth, 0);
    let none = must(process_documents(&fs, &processors, &rules, "/missing"), "process");
    assert!(none.is_empty());
}

#[test]
fn tera_context_builder_fills_page_fields() {
    let mut doc = must(
        Document::new(must(Metadata::new("T", "D"), "meta"), "<p>b</p>", "u.html", "u.html", "u.md", 2, "page", false),
        "document",
    );
    doc.metadata.author = Some("Ann".to_string());
    let ctx = must(TeraContextBuilder.build_context(&setup_config(), &doc), "context");
    assert_eq!(ctx.len(), 12);
    assert!(matches!(ctx.get("page_title"), Some(ContextValue::Text(t)) if t == "T"));
    assert!(matches!(ctx.get("page_author"), Some(ContextValue::Text(t)) if t == "Ann"));
    assert!(matches!(ctx.get("page_date"), Some(ContextValue::Null)));
    assert!(matches!(ctx.get("page_depth"), Some(ContextValue::Number(2))));
    assert!(matches!(ctx.get("page_list_items"), Some(ContextValue::Null)));
    assert!(matches!(ctx.get("site"), Some(ContextValue::Site(s)) if s.site_name == "Compiler Test"));
}

#[test]
fn raw_file_processor_titles_from_stem() {
    assert_eq!(title_from_stem("hello-world"), "Hello World");
    assert_eq!(title_from_stem("ümlaut-test"), "Ümlaut Test");
    assert_eq!(title_from_stem("a--b"), "A  B");
    let doc = must(raw_document("notes/my-first-post.raw", "body"), "raw");
    assert_eq!(doc.metadata.title, "My First Post");
    assert_eq!(doc.url, "notes/my-first-post.html");
    assert_eq!(doc.output_path, "notes/my-first-post.html");
    assert_eq!(doc.depth, 1);
    let err = raw_document("-.raw", "body");
    assert!(matches!(err, Err(Error::Validation(ref m)) if m == "metadata title cannot be empty"));
    let fs = MemFs::new();
    fs.put("/c/a-b.raw", "text");
    let p = RawFileProcessor;
    assert!(p.can_process("a-b.raw", "/c/a-b.raw"));
    assert!(!p.can_process("a-b.md", "/c/a-b.md"));
    let doc = must(p.process(&fs, "a-b.raw", "/c"), "process").unwrap();
    assert_eq!(doc.body, "text");
    assert_eq!(doc.metadata.title, "A B");
    assert!(matches!(p.process(&fs, "gone.raw", "/c"), Err(Error::Io(_))));
}

struct FixedRenderer {
    output: String,
}

impl Renderer for FixedRenderer {
    fn render(&self, _template_name: &str, _context: &RenderContext) -> Result<String> {
        Ok(self.output.clone())
    }
}

#[test]
fn renderer_trait_can_be_mocked() {
    let renderer = FixedRenderer { output: "mock".to_string() };
    let ctx = RenderContext::new();
    let output = match renderer.render("whatever", &ctx) {
        Ok(value) => value,
        Err(e) => panic!("render failed: {}", e.to_string()),
    };
    assert_eq!(output, "mock");
}

struct EchoKeyRenderer;

impl Renderer for EchoKeyRenderer {
    fn render(&self, template_name: &str, context: &RenderContext) -> Result<String> {
        match context.get(template_name) {
            Some(ContextValue::Text(t)) => Ok(t.clone()),
            _ => Ok(String::new()),
        }
    }
}

#[test]
fn render_context_trait_can_be_mocked() {
    let mut ctx = RenderContext::new();
    ctx.insert("greeting", ContextValue::Text("hello".to_string()));
    let renderer = EchoKeyRenderer;
    let out = renderer.render("greeting", &ctx).unwrap();
    assert_eq!(out, "hello");
    assert!(ctx.contains_key("greeting"));
    assert!(!ctx.contains_key("missing"));
}
