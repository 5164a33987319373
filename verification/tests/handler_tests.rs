use rawssg::error::{Error, Result};
use rawssg::fs::{FileSystem, IoError, IoErrorKind, IoResult};
use rawssg::handler::{Document, Metadata, Processor};
use serde_json::Value;

fn not_implemented<T>() -> IoResult<T> {
    Err(IoError { kind: IoErrorKind::Other, message: "not implemented".to_string() })
}

struct DummyFs;

impl FileSystem for DummyFs {
    fn read_to_string(&self, _path: &str) -> IoResult<String> {
        not_implemented()
    }
    fn read_bytes(&self, _path: &str) -> IoResult<Vec<u8>> {
        not_implemented()
    }
    fn write(&self, _path: &str, _content: &[u8]) -> IoResult<()> {
        not_implemented()
    }
    fn create_dir_all(&self, _path: &str) -> IoResult<()> {
        not_implemented()
    }
    fn remove_dir_all(&self, _path: &str) -> IoResult<()> {
        not_implemented()
    }
    fn remove_file(&self, _path: &str) -> IoResult<()> {
        not_implemented()
    }
    fn create_dir(&self, _path: &str) -> IoResult<()> {
        not_implemented()
    }
    fn path_exists(&self, _path: &str) -> bool {
        false
    }
    fn is_dir(&self, _path: &str) -> bool {
        false
    }
    fn is_file(&self, _path: &str) -> bool {
        false
    }
    fn read_dir(&self, _path: &str) -> IoResult<Vec<String>> {
        not_implemented()
    }
    fn copy_file(&self, _from: &str, _to: &str) -> IoResult<u64> {
        not_implemented()
    }
    fn copy_dir_all(&self, _from: &str, _to: &str) -> IoResult<()> {
        not_implemented()
    }
    fn walk_dir(&self, _root: &str) -> IoResult<Vec<String>> {
        not_implemented()
    }
    fn canonicalize(&self, _path: &str) -> IoResult<String> {
        not_implemented()
    }
    fn rename(&self, _from: &str, _to: &str) -> IoResult<()> {
        not_implemented()
    }
    fn atomic_write(&self, _path: &str, _content: &[u8]) -> IoResult<()> {
        not_implemented()
    }
    fn touch(&self, _path: &str) -> IoResult<()> {
        not_implemented()
    }
    fn is_symlink(&self, _path: &str) -> bool {
        false
    }
    fn read_link(&self, _path: &str) -> IoResult<String> {
        not_implemented()
    }
    fn hard_link(&self, _from: &str, _to: &str) -> IoResult<()> {
        not_implemented()
    }
}

fn valid_metadata() -> Metadata {
    match Metadata::new("Title", "Description") {
        Ok(m) => m,
        Err(e) => panic!("Metadata::new failed: {}", e.to_string()),
    }
}

fn valid_document() -> Document {
    match Document::new(
        valid_metadata(),
        "<p>Body</p>",
        "blog/my-post.html",
        "blog/my-post/index.html",
        "content/blog/my-post.md",
        1,
        "blog",
        false,
    ) {
        Ok(d) => d,
        Err(e) => panic!("Document::new failed: {}", e.to_string()),
    }
}

#[test]
fn new_valid_document_ok() {
    let doc = valid_document();
    assert_eq!(doc.metadata.title, "Title");
    assert_eq!(doc.body, "<p>Body</p>");
    assert_eq!(doc.url, "blog/my-post.html");
    assert_eq!(doc.output_path, "blog/my-post/index.html");
    assert_eq!(doc.source_path, "content/blog/my-post.md");
    assert_eq!(doc.depth, 1);
    assert_eq!(doc.content_type, "blog");
    assert!(!doc.is_list);
    assert!(doc.list_items.is_none());
    assert!(doc.taxonomies.is_empty());
}

#[test]
fn new_empty_url_errors() {
    let result = Document::new(valid_metadata(), "body", "", "out", "src.md", 0, "page", false);
    assert!(result.is_err());
    if let Err(err) = result {
        assert!(matches!(err, Error::Validation(ref msg) if msg == "document url cannot be empty"));
    }
}

#[test]
fn new_empty_output_path_errors() {
    let result = Document::new(valid_metadata(), "body", "url", "", "src.md", 0, "page", false);
    assert!(result.is_err());
    if let Err(err) = result {
        assert!(matches!(err, Error::Validation(ref msg) if msg == "document output_path cannot be empty"));
    }
}

#[test]
fn new_source_path_without_filename_errors() {
    let result = Document::new(valid_metadata(), "body", "url", "out", "", 0, "page", false);
    assert!(result.is_err());
    if let Err(err) = result {
        assert!(
            matches!(err, Error::Validation(ref msg) if msg == "document source_path must have a file name")
        );
    }
}

#[test]
fn new_depth_too_large_errors() {
    let result = Document::new(valid_metadata(), "body", "url", "out", "src.md", 1001, "page", false);
    assert!(result.is_err());
    if let Err(err) = result {
        assert!(matches!(err, Error::Validation(ref msg) if msg == "document depth is unreasonably large"));
    }
}

#[test]
fn relative_url_returns_url() {
    let doc = valid_document();
    assert_eq!(doc.relative_url(), "blog/my-post.html");
}

#[test]
fn add_taxonomy_inserts() {
    let mut doc = valid_document();
    doc.add_taxonomy("categories", vec!["rust".to_string(), "ssg".to_string()]);
    let tax = doc.taxonomies.get("categories");
    assert!(tax.is_some());
    if let Some(items) = tax {
        assert_eq!(items, &vec!["rust".to_string(), "ssg".to_string()]);
    }
}

#[test]
fn depth_returns_depth() {
    let doc = valid_document();
    assert_eq!(doc.depth(), 1);
}

#[test]
fn list_items_default_none() {
    let doc = valid_document();
    assert!(doc.list_items.is_none());
}

#[test]
fn taxonomies_default_empty() {
    let doc = valid_document();
    assert!(doc.taxonomies.is_empty());
}

#[test]
fn new_with_valid_title_ok() {
    let meta = match Metadata::new("My Title", "My Description") {
        Ok(m) => m,
        Err(e) => panic!("Metadata::new failed: {}", e.to_string()),
    };
    assert_eq!(meta.title, "My Title");
    assert_eq!(meta.description, "My Description");
    assert!(!meta.draft);
    assert!(meta.tags.is_empty());
    assert!(meta.extra.is_empty());
}

#[test]
fn new_with_empty_title_errors() {
    let result = Metadata::new("", "Desc");
    assert!(result.is_err());
    if let Err(err) = result {
        assert!(matches!(err, Error::Validation(ref msg) if msg == "metadata title cannot be empty"));
    }
}

#[test]
fn new_with_whitespace_title_errors() {
    let result = Metadata::new("   ", "Desc");
    assert!(result.is_err());
}

#[test]
fn is_draft_reflects_field() {
    let mut meta = valid_metadata();
    assert!(!meta.is_draft());
    meta.draft = true;
    assert!(meta.is_draft());
}

#[test]
fn insert_extra_and_get() {
    let mut meta = valid_metadata();
    meta.insert_extra("key", Value::from("value"));
    let val = meta.get_extra("key");
    assert!(val.is_some());
    if let Some(v) = val {
        assert_eq!(v, &Value::String("value".to_string()));
    }
}

#[test]
fn insert_extra_overwrites_existing() {
    let mut meta = valid_metadata();
    meta.insert_extra("key", Value::from("first"));
    meta.insert_extra("key", Value::from("second"));
    let val = meta.get_extra("key");
    assert!(val.is_some());
    if let Some(v) = val {
        assert_eq!(v, &Value::String("second".to_string()));
    }
    assert_eq!(meta.extra.len(), 1);
}

#[test]
fn get_extra_missing_returns_none() {
    let meta = valid_metadata();
    assert!(meta.get_extra("nonexistent").is_none());
}

#[test]
fn default_metadata_has_empty_fields() {
    let meta = Metadata::default();
    assert_eq!(meta.title, "");
    assert_eq!(meta.description, "");
    assert!(!meta.draft);
    assert!(meta.tags.is_empty());
    assert!(meta.extra.is_empty());
    assert!(meta.author.is_none());
    assert!(meta.date.is_none());
    assert!(meta.updated.is_none());
}

struct MockProcessor {
    name: String,
    priority: i32,
    can_process_result: bool,
    process_output: Option<Document>,
}

impl Processor for MockProcessor {
    fn name(&self) -> &str {
        &self.name
    }
    fn priority(&self) -> i32 {
        self.priority
    }
    fn can_process(&self, _relative_path: &str, _original_path: &str) -> bool {
        self.can_process_result
    }
    fn process(&self, _fs: &dyn FileSystem, _relative_path: &str, _content_dir: &str) -> Result<Option<Document>> {
        Ok(self.process_output.clone())
    }
}

struct DefaultPriorityProcessor;

impl Processor for DefaultPriorityProcessor {
    fn name(&self) -> &str {
        "default"
    }
    fn can_process(&self, _relative_path: &str, _original_path: &str) -> bool {
        false
    }
    fn process(&self, _fs: &dyn FileSystem, _relative_path: &str, _content_dir: &str) -> Result<Option<Document>> {
        Ok(None)
    }
}

fn sample_document() -> Document {
    let metadata = match Metadata::new("Sample", "Desc") {
        Ok(m) => m,
        Err(e) => panic!("Metadata::new failed: {}", e.to_string()),
    };
    match Document::new(metadata, "<p>Body</p>", "sample.html", "sample/index.html", "content/sample.md", 0, "page", false) {
        Ok(d) => d,
        Err(e) => panic!("Document::new failed: {}", e.to_string()),
    }
}

#[test]
fn name_returns_set_name() {
    let p = MockProcessor { name: "test".to_string(), priority: 0, can_process_result: false, process_output: None };
    assert_eq!(p.name(), "test");
}

#[test]
fn priority_default_zero() {
    let p = MockProcessor { name: "default".to_string(), priority: 0, can_process_result: false, process_output: None };
    assert_eq!(p.priority(), 0);
    assert_eq!(DefaultPriorityProcessor.priority(), 0);
}

#[test]
fn priority_custom() {
    let p = MockProcessor { name: "custom".to_string(), priority: 5, can_process_result: false, process_output: None };
    assert_eq!(p.priority(), 5);
}

#[test]
fn can_process_returns_true() {
    let p = MockProcessor { name: "true".to_string(), priority: 0, can_process_result: true, process_output: None };
    assert!(p.can_process("a.md", "content/a.md"));
}

#[test]
fn can_process_returns_false() {
    let p = MockProcessor { name: "false".to_string(), priority: 0, can_process_result: false, process_output: None };
    assert!(!p.can_process("a.md", "content/a.md"));
}

#[test]
fn process_returns_document() {
    let doc = sample_document();
    let p = MockProcessor { name: "doc".to_string(), priority: 0, can_process_result: true, process_output: Some(doc.clone()) };
    let result = match p.process(&DummyFs, "a.md", "content") {
        Ok(r) => r,
        Err(e) => panic!("process failed: {}", e.to_string()),
    };
    assert!(result.is_some());
    if let Some(processed) = result {
        assert_eq!(processed, doc);
    }
}

#[test]
fn process_returns_none() {
    let p = MockProcessor { name: "none".to_string(), priority: 0, can_process_result: true, process_output: None };
    let result = match p.process(&DummyFs, "a.md", "content") {
        Ok(r) => r,
        Err(e) => panic!("process failed: {}", e.to_string()),
    };
    assert!(result.is_none());
}

struct ErrorProcessor;

impl Processor for ErrorProcessor {
    fn name(&self) -> &'static str {
        "error"
    }
    fn can_process(&self, _relative_path: &str, _original_path: &str) -> bool {
        true
    }
    fn process(&self, _fs: &dyn FileSystem, _relative_path: &str, _content_dir: &str) -> Result<Option<Document>> {
        Err(Error::Processor("test error".into()))
    }
}

#[test]
fn process_error_case() {
    let p = ErrorProcessor;
    let result = p.process(&DummyFs, "a.md", "content");
    assert!(result.is_err());
    if let Err(err) = result {
        assert!(matches!(err, Error::Processor(ref msg) if msg == "test error"));
    }
}

#[test]
fn document_clone_keeps_list_items() {
    let mut list = sample_document();
    list.is_list = true;
    list.list_items = Some(vec![sample_document(), valid_document()]);
    let copy = list.clone();
    assert_eq!(copy, list);
    assert_eq!(copy.list_items.map(|v| v.len()), Some(2));
}

#[test]
fn source_path_ending_in_dot_dot_has_no_file_name() {
    let result = Document::new(valid_metadata(), "body", "url", "out", "content/..", 0, "page", false);
    assert!(matches!(result, Err(Error::Validation(ref msg)) if msg == "document source_path must have a file name"));
    let ok = Document::new(valid_metadata(), "body", "url", "out", "content/a.md", 1000, "page", false);
    assert!(ok.is_ok());
}
