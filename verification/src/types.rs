//! The configuration of a site and the pages it is built from, as the
//! single-crate site builder holds them.

use vstd::prelude::*;
use crate::date::Date;
use crate::text::{clone_text, clone_texts};

verus! {

/// The whole configuration of a site.
#[derive(Debug, Clone)]
pub struct RawssgConfig {
    pub site: GlobalConfig,
    pub build: BuildConfig,
    pub content_types: Vec<ContentTypeDef>,
    pub generators: GeneratorsConfig,
}

impl Default for RawssgConfig {
    fn default() -> (c: Self)
        ensures
            c.site.is_default(),
            c.build.is_default(),
            c.content_types.len() == 0,
            !c.generators.rss.enabled,
            c.generators.rss.path@ == Seq::<char>::empty(),
            c.generators.rss.template@ == Seq::<char>::empty(),
            !c.generators.sitemap.enabled,
            c.generators.sitemap.path@ == Seq::<char>::empty(),
            c.generators.sitemap.template@ == Seq::<char>::empty(),
    {
        RawssgConfig {
            site: GlobalConfig::default(),
            build: BuildConfig::default(),
            content_types: Vec::new(),
            generators: GeneratorsConfig::default(),
        }
    }
}

/// Site-wide settings: the name, description, language and links of the
/// site and its navigation.
#[derive(Debug)]
pub struct GlobalConfig {
    pub navbar: Vec<NavItem>,
    pub sidebar: Vec<NavItem>,
    pub site_name: String,
    pub description: Option<String>,
    pub language: Option<String>,
    pub base_url: Option<String>,
    pub author: Option<String>,
    pub repo_url: Option<String>,
    pub license: Option<String>,
}

/// The site name used where none is configured.
pub fn default_site_name() -> (r: String)
    ensures
        r@ == "rawssg"@,
{
    "rawssg".to_owned()
}

/// The language used where none is configured.
pub fn default_language() -> (r: Option<String>)
    ensures
        r matches Some(l) && l@ == "en"@,
{
    Some("en".to_owned())
}

impl GlobalConfig {
    /// Whether these are the settings of [`GlobalConfig::default`].
    pub open spec fn is_default(&self) -> bool {
        &&& self.navbar.len() == 0
        &&& self.sidebar.len() == 0
        &&& self.site_name@ == "rawssg"@
        &&& self.description is None
        &&& self.language matches Some(l) && l@ == "en"@
        &&& self.base_url is None
        &&& self.author is None
        &&& self.repo_url is None
        &&& self.license is None
    }
}

impl Default for GlobalConfig {
    fn default() -> (g: Self)
        ensures
            g.is_default(),
    {
        GlobalConfig {
            navbar: Vec::new(),
            sidebar: Vec::new(),
            site_name: default_site_name(),
            description: None,
            language: default_language(),
            base_url: None,
            author: None,
            repo_url: None,
            license: None,
        }
    }
}

/// Where content, output, templates and static files live.
#[derive(Debug, Clone)]
pub struct BuildConfig {
    pub content_dir: String,
    pub output_dir: String,
    pub templates_dir: String,
    pub static_dir: String,
}

/// The content directory used where none is configured.
pub fn default_content_dir() -> (r: String)
    ensures
        r@ == "content"@,
{
    "content".to_owned()
}

/// The output directory used where none is configured.
pub fn default_output_dir() -> (r: String)
    ensures
        r@ == "dist"@,
{
    "dist".to_owned()
}

/// The templates directory used where none is configured.
pub fn default_templates_dir() -> (r: String)
    ensures
        r@ == "templates"@,
{
    "templates".to_owned()
}

/// The static files directory used where none is configured.
pub fn default_static_dir() -> (r: String)
    ensures
        r@ == "static"@,
{
    "static".to_owned()
}

impl BuildConfig {
    /// Whether these are the directories of [`BuildConfig::default`].
    pub open spec fn is_default(&self) -> bool {
        &&& self.content_dir@ == "content"@
        &&& self.output_dir@ == "dist"@
        &&& self.templates_dir@ == "templates"@
        &&& self.static_dir@ == "static"@
    }
}

impl Default for BuildConfig {
    fn default() -> (b: Self)
        ensures
            b.is_default(),
    {
        BuildConfig {
            content_dir: default_content_dir(),
            output_dir: default_output_dir(),
            templates_dir: default_templates_dir(),
            static_dir: default_static_dir(),
        }
    }
}

/// A kind of content: the files whose relative path matches `pattern` are
/// of the type `name` and are rendered with `template`; where listing is
/// enabled and a list template is set, a list page gathers them.
#[derive(Debug, Clone)]
pub struct ContentTypeDef {
    pub name: String,
    pub pattern: String,
    pub template: String,
    pub list_template: Option<String>,
    pub list_enabled: bool,
}

/// The feed and sitemap generators.
#[derive(Debug, Clone)]
pub struct GeneratorsConfig {
    pub rss: GeneratorDef,
    pub sitemap: GeneratorDef,
}

impl Default for GeneratorsConfig {
    fn default() -> (g: Self)
        ensures
            !g.rss.enabled,
            g.rss.path@ == Seq::<char>::empty(),
            g.rss.template@ == Seq::<char>::empty(),
            !g.sitemap.enabled,
            g.sitemap.path@ == Seq::<char>::empty(),
            g.sitemap.template@ == Seq::<char>::empty(),
    {
        GeneratorsConfig { rss: GeneratorDef::default(), sitemap: GeneratorDef::default() }
    }
}

/// One generator: whether it runs, where its output goes and which
/// template renders it.
#[derive(Debug, Clone)]
pub struct GeneratorDef {
    pub enabled: bool,
    pub path: String,
    pub template: String,
}

/// Whether a generator read from a configuration file runs when the file
/// does not say.
pub fn default_true() -> (r: bool)
    ensures
        r,
{
    true
}

impl Default for GeneratorDef {
    fn default() -> (g: Self)
        ensures
            !g.enabled,
            g.path@ == Seq::<char>::empty(),
            g.template@ == Seq::<char>::empty(),
    {
        GeneratorDef { enabled: false, path: String::new(), template: String::new() }
    }
}

/// An entry of the navigation.
#[derive(Debug)]
pub struct NavItem {
    pub label: String,
    pub url: String,
}

impl Clone for NavItem {
    fn clone(&self) -> (r: Self)
        ensures
            r == *self,
    {
        NavItem { label: self.label.clone(), url: self.url.clone() }
    }
}

/// A copy of a list of navigation entries.
fn clone_nav(v: &Vec<NavItem>) -> (r: Vec<NavItem>)
    ensures
        r@ == v@,
{
    let mut r: Vec<NavItem> = Vec::new();
    let mut i: usize = 0;
    while i < v.len()
        invariant
            i <= v.len(),
            r@ == v@.take(i as int),
        decreases v.len() - i,
    {
        r.push(v[i].clone());
        i = i + 1;
        assert(r@ =~= v@.take(i as int));
    }
    assert(v@.take(v.len() as int) =~= v@);
    r
}

/// Whether `a` and `b` hold the same settings.
pub open spec fn same_global(a: GlobalConfig, b: GlobalConfig) -> bool {
    &&& a.navbar@ == b.navbar@
    &&& a.sidebar@ == b.sidebar@
    &&& a.site_name == b.site_name
    &&& a.description == b.description
    &&& a.language == b.language
    &&& a.base_url == b.base_url
    &&& a.author == b.author
    &&& a.repo_url == b.repo_url
    &&& a.license == b.license
}

impl Clone for GlobalConfig {
    fn clone(&self) -> (r: Self)
        ensures
            same_global(r, *self),
    {
        GlobalConfig {
            navbar: clone_nav(&self.navbar),
            sidebar: clone_nav(&self.sidebar),
            site_name: self.site_name.clone(),
            description: clone_text(&self.description),
            language: clone_text(&self.language),
            base_url: clone_text(&self.base_url),
            author: clone_text(&self.author),
            repo_url: clone_text(&self.repo_url),
            license: clone_text(&self.license),
        }
    }
}

/// The front matter of a page.
#[derive(Debug)]
pub struct PageFrontMatter {
    pub title: String,
    pub desc: String,
    pub author: Option<String>,
    pub repo_url: Option<String>,
    pub license: Option<String>,
    pub date: Option<Date>,
    pub tags: Vec<String>,
    pub draft: bool,
}

impl Clone for PageFrontMatter {
    fn clone(&self) -> (r: Self)
        ensures
            r.title == self.title,
            r.desc == self.desc,
            r.author == self.author,
            r.repo_url == self.repo_url,
            r.license == self.license,
            r.date == self.date,
            r.tags@ == self.tags@,
            r.draft == self.draft,
    {
        PageFrontMatter {
            title: self.title.clone(),
            desc: self.desc.clone(),
            author: clone_text(&self.author),
            repo_url: clone_text(&self.repo_url),
            license: clone_text(&self.license),
            date: self.date,
            tags: clone_texts(&self.tags),
            draft: self.draft,
        }
    }
}

impl PageFrontMatter {
    /// Whether this is the front matter of [`PageFrontMatter::default`].
    pub open spec fn is_default(&self) -> bool {
        &&& self.title@ == Seq::<char>::empty()
        &&& self.desc@ == Seq::<char>::empty()
        &&& self.author is None
        &&& self.repo_url is None
        &&& self.license is None
        &&& self.date is None
        &&& self.tags.len() == 0
        &&& !self.draft
    }
}

impl Default for PageFrontMatter {
    fn default() -> (f: Self)
        ensures
            f.is_default(),
    {
        PageFrontMatter {
            title: String::new(),
            desc: String::new(),
            author: None,
            repo_url: None,
            license: None,
            date: None,
            tags: Vec::new(),
            draft: false,
        }
    }
}

/// A page ready to be rendered: its front matter and HTML content, where
/// it is served, how deep it sits, its publication date, its content type,
/// and, for a list page, the pages it lists.
#[derive(Debug)]
pub struct PageContext {
    pub frontmatter: PageFrontMatter,
    pub content_html: String,
    pub url: String,
    pub file_path: String,
    pub depth: usize,
    pub pub_date: Option<String>,
    pub content_type: String,
    pub is_list: bool,
    pub list_items: Option<Vec<PageContext>>,
}

/// Whether `a` and `b` agree on everything but the contents of the pages
/// they list, of which only the number is compared.
pub open spec fn same_page(a: PageContext, b: PageContext) -> bool {
    &&& a.frontmatter.title == b.frontmatter.title
    &&& a.frontmatter.desc == b.frontmatter.desc
    &&& a.frontmatter.author == b.frontmatter.author
    &&& a.frontmatter.repo_url == b.frontmatter.repo_url
    &&& a.frontmatter.license == b.frontmatter.license
    &&& a.frontmatter.date == b.frontmatter.date
    &&& a.frontmatter.tags@ == b.frontmatter.tags@
    &&& a.frontmatter.draft == b.frontmatter.draft
    &&& a.content_html == b.content_html
    &&& a.url == b.url
    &&& a.file_path == b.file_path
    &&& a.depth == b.depth
    &&& a.pub_date == b.pub_date
    &&& a.content_type == b.content_type
    &&& a.is_list == b.is_list
    &&& a.list_items is Some <==> b.list_items is Some
    &&& (a.list_items matches Some(x) ==> b.list_items matches Some(y) && x.len() == y.len())
}

/// The copy of a list of pages.
pub fn clone_pages(pages: &Vec<PageContext>) -> (r: Vec<PageContext>)
    ensures
        r.len() == pages.len(),
        forall|i: int| 0 <= i < pages.len() ==> #[trigger] same_page(r@[i], pages@[i]),
    decreases pages,
{
    let mut r: Vec<PageContext> = Vec::new();
    let mut i: usize = 0;
    while i < pages.len()
        invariant
            i <= pages.len(),
            r.len() == i,
            forall|j: int| 0 <= j < i ==> #[trigger] same_page(r@[j], pages@[j]),
        decreases pages.len() - i,
    {
        assert(decreases_to!(pages => pages@[i as int]));
        let p = clone_page(&pages[i]);
        r.push(p);
        i = i + 1;
    }
    r
}

/// The copy of a page and the pages it lists.
fn clone_page(page: &PageContext) -> (r: PageContext)
    ensures
        same_page(r, *page),
    decreases page,
{
    let list_items = match &page.list_items {
        Some(items) => {
            assert(decreases_to!(page => page.list_items));
            Some(clone_pages(items))
        },
        None => None,
    };
    PageContext {
        frontmatter: page.frontmatter.clone(),
        content_html: page.content_html.clone(),
        url: page.url.clone(),
        file_path: page.file_path.clone(),
        depth: page.depth,
        pub_date: clone_text(&page.pub_date),
        content_type: page.content_type.clone(),
        is_list: page.is_list,
        list_items,
    }
}

impl Clone for PageContext {
    fn clone(&self) -> (r: Self)
        ensures
            same_page(r, *self),
    {
        clone_page(self)
    }
}

} // verus!
