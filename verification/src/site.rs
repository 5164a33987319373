//! The single-crate site builder: content handlers turn files into pages,
//! content types and list pages are assigned, and the site is rendered and
//! written, together with its static files, feed and sitemap.

use vstd::prelude::*;
use crate::compiler::depth_of;
use crate::date::{Date, rfc2822_midnight_utc};
use crate::error::RawssgError;
use crate::fs::{FileSystem, IoError, IoErrorKind, IoResult};
use crate::markdown::MarkdownRenderer;
use crate::paths::{
    component_count, extension, extension_of, join, parent, path_eq, same_path, strip_prefix, strip_prefix_of,
    with_extension, with_extension_of,
};
use crate::templates::{Context, ContextValue, RenderContext, TemplateRenderer};
use crate::types::{ContentTypeDef, GlobalConfig, PageContext, PageFrontMatter, RawssgConfig, clone_pages, same_global, same_page};
use crate::util::{match_pattern, relative_prefix, repeat, resolved_after_base, safe_path, site_pattern_matches};
use crate::text::{clone_text, concat2, concat3, text_eq};
use crate::compiler::{copy_destination, copy_destination_of, handled_by_first, resolved_dir, texts};

verus! {

/// Turns a content file into a page.
pub trait ContentHandler {
    /// Whether the handler takes the file at `relative_path` (relative to
    /// the content directory; `original_path` is the path the walk found).
    fn can_handle(&self, relative_path: &str, original_path: &str) -> bool;

    /// The page made from the file at `file_path`, or `None` where the
    /// file yields no page.
    fn process(
        &self,
        fs: &dyn FileSystem,
        md_renderer: &dyn MarkdownRenderer,
        file_path: &str,
        content_dir: &str,
    ) -> Result<Option<PageContext>, RawssgError>;
}

/// Takes every file and makes no page of it: static files are copied, not
/// rendered.
pub struct StaticFileHandler;

impl ContentHandler for StaticFileHandler {
    fn can_handle(&self, relative_path: &str, original_path: &str) -> (r: bool)
        ensures
            r,
    {
        true
    }

    fn process(
        &self,
        fs: &dyn FileSystem,
        md_renderer: &dyn MarkdownRenderer,
        file_path: &str,
        content_dir: &str,
    ) -> (r: Result<Option<PageContext>, RawssgError>)
        ensures
            r matches Ok(None),
    {
        Ok(None)
    }
}

/// Whether `r` is what [`read_page_source`] gives for `file_path` under
/// `content_dir`, given what [`safe_path`] gave for it (under some answer
/// for the base) and what reading the resolved path gave: a refused path is
/// that error; a resolved one is the text read, or an I/O error carrying
/// the read error's text.
pub open spec fn page_source_read(
    content_dir: Seq<char>,
    file_path: Seq<char>,
    resolved: Result<String, RawssgError>,
    read: IoResult<String>,
    r: Result<String, RawssgError>,
) -> bool {
    &&& exists|ba: IoResult<String>| #[trigger] resolved_after_base(content_dir, file_path, ba, resolved)
    &&& match resolved {
        Err(e) => r == Err::<String, RawssgError>(e),
        Ok(_) => match read {
            Ok(text) => r == Ok::<String, RawssgError>(text),
            Err(e) => r matches Err(RawssgError::Io(m)) && m@ == e.message@,
        },
    }
}

/// The source text of the page at `file_path`, read through `fs` once the
/// path is checked to stay inside `content_dir`.
pub fn read_page_source(fs: &dyn FileSystem, file_path: &str, content_dir: &str) -> (r: Result<String, RawssgError>)
    ensures
        exists|resolved: Result<String, RawssgError>, read: IoResult<String>|
            #[trigger] page_source_read(content_dir@, file_path@, resolved, read, r),
        r matches Err(e) ==> (e is Io || e is PathTraversal),
{
    let resolved = safe_path(fs, content_dir, file_path);
    let ghost rg = resolved;
    let safe = match resolved {
        Ok(p) => p,
        Err(e) => {
            let r = Err(e);
            let ghost none: IoResult<String> = vstd::pervasive::arbitrary();
            assert(page_source_read(content_dir@, file_path@, rg, none, r));
            return r;
        },
    };
    let read = fs.read_to_string(safe.as_str());
    let ghost readg = read;
    let r = match read {
        Ok(s) => Ok(s),
        Err(e) => Err(RawssgError::Io(e.message)),
    };
    assert(page_source_read(content_dir@, file_path@, rg, readg, r));
    r
}

/// The publication date of a page dated `date`: midnight UTC of that day
/// in the RFC 2822 form.
pub open spec fn pub_date_of(date: Option<Date>) -> Option<Seq<char>> {
    match date {
        Some(d) => Some(rfc2822_midnight_utc(d.year_spec(), d.month_spec(), d.day_spec())),
        None => None,
    }
}

/// The view of an optional text.
pub open spec fn text_view(t: Option<String>) -> Option<Seq<char>> {
    match t {
        Some(s) => Some(s@),
        None => None,
    }
}

/// The page for the front matter `fm` and the HTML `content_html` of the
/// file at `file_path`: none for a draft; otherwise served at the path of
/// the file relative to `content_dir` with the extension `html`, as deep as
/// that relative path, dated from the front matter, of type `page`.
pub fn page_from_frontmatter(
    fm: PageFrontMatter,
    content_html: String,
    file_path: &str,
    content_dir: &str,
) -> (r: Result<Option<PageContext>, RawssgError>)
    ensures
        fm.draft ==> r matches Ok(None),
        !fm.draft ==> match strip_prefix_of(file_path@, content_dir@) {
            None => r matches Err(RawssgError::SiteGeneration(m)) && m@ == "prefix not found"@,
            Some(rel) => r matches Ok(Some(p)) && {
                &&& p.frontmatter == fm
                &&& p.content_html == content_html
                &&& p.url@ == with_extension_of(rel, "html"@)
                &&& p.file_path@ == file_path@
                &&& p.depth == depth_of(rel)
                &&& text_view(p.pub_date) == pub_date_of(fm.date)
                &&& p.content_type@ == "page"@
                &&& !p.is_list
                &&& p.list_items is None
            },
        },
{
    if fm.draft {
        return Ok(None);
    }
    let rel = match strip_prefix(file_path, content_dir) {
        Some(r) => r,
        None => return Err(RawssgError::SiteGeneration("prefix not found".to_owned())),
    };
    let url = with_extension(rel.as_str(), "html");
    let n = component_count(rel.as_str());
    let depth = if n > 0 { n - 1 } else { 0 };
    let pub_date = match &fm.date {
        Some(d) => Some(d.rfc2822_midnight()),
        None => None,
    };
    Ok(Some(PageContext {
        frontmatter: fm,
        content_html,
        url,
        file_path: file_path.to_owned(),
        depth,
        pub_date,
        content_type: "page".to_owned(),
        is_list: false,
        list_items: None,
    }))
}

/// Builds the context a feed is rendered with.
pub trait FeedContextBuilder {
    /// Whether `out` is an answer the builder may give for `config`, the
    /// posts `posts` and `base_url`; every answer, unless a builder says
    /// more.
    open spec fn builds_feed(&self, config: RawssgConfig, posts: Seq<PageContext>, base_url: Seq<char>,
        out: Result<Context, RawssgError>) -> bool {
        true
    }

    fn build_feed_context(&self, config: &RawssgConfig, posts: &[&PageContext], base_url: &str) -> (r: Result<Context, RawssgError>)
        ensures
            self.builds_feed(*config, deref_pages(posts@), base_url@, r);
}

/// The pages behind a sequence of references.
pub open spec fn deref_pages(posts: Seq<&PageContext>) -> Seq<PageContext> {
    posts.map_values(|p: &PageContext| *p)
}

/// Builds the context a sitemap is rendered with.
pub trait SitemapContextBuilder {
    /// Whether `out` is an answer the builder may give for `config`, the
    /// pages `pages` and `base_url`; every answer, unless a builder says
    /// more.
    open spec fn builds_sitemap(&self, config: RawssgConfig, pages: Seq<PageContext>, base_url: Seq<char>,
        out: Result<Context, RawssgError>) -> bool {
        true
    }

    fn build_sitemap_context(&self, config: &RawssgConfig, pages: &[PageContext], base_url: &str) -> (r: Result<Context, RawssgError>)
        ensures
            self.builds_sitemap(*config, pages@, base_url@, r);
}

/// Whether `ctx` holds what a feed is rendered with: the site settings
/// under `site`, the posts under `posts` and the base URL under
/// `base_url`.
pub open spec fn feed_context_holds(ctx: Map<Seq<char>, ContextValue>, site: GlobalConfig, posts: Seq<PageContext>,
    base_url: Seq<char>) -> bool {
    &&& ctx.contains_key("site"@) && (ctx["site"@] matches ContextValue::Global(g) && same_global(g, site))
    &&& ctx.contains_key("posts"@) && (ctx["posts"@] matches ContextValue::Pages(v)
        && v.len() == posts.len()
        && forall|i: int| 0 <= i < posts.len() ==> #[trigger] same_page(v@[i], posts[i]))
    &&& text_at(ctx, "base_url"@, base_url)
}

/// Whether `ctx` holds what a sitemap is rendered with: the site settings
/// under `site`, the pages under `pages` and the base URL under
/// `base_url`.
pub open spec fn sitemap_context_holds(ctx: Map<Seq<char>, ContextValue>, site: GlobalConfig, pages: Seq<PageContext>,
    base_url: Seq<char>) -> bool {
    &&& ctx.contains_key("site"@) && (ctx["site"@] matches ContextValue::Global(g) && same_global(g, site))
    &&& ctx.contains_key("pages"@) && (ctx["pages"@] matches ContextValue::Pages(v)
        && v.len() == pages.len()
        && forall|i: int| 0 <= i < pages.len() ==> #[trigger] same_page(v@[i], pages[i]))
    &&& text_at(ctx, "base_url"@, base_url)
}

/// The feed context for Tera templates: the site settings under `site`,
/// the posts under `posts` and the base URL under `base_url`.
pub struct TeraFeedContextBuilder;

impl FeedContextBuilder for TeraFeedContextBuilder {
    open spec fn builds_feed(&self, config: RawssgConfig, posts: Seq<PageContext>, base_url: Seq<char>,
        out: Result<Context, RawssgError>) -> bool {
        out matches Ok(ctx) && feed_context_holds(ctx@, config.site, posts, base_url)
    }

    fn build_feed_context(&self, config: &RawssgConfig, posts: &[&PageContext], base_url: &str) -> (r: Result<Context, RawssgError>)
        ensures
            r matches Ok(ctx) && {
                &&& ctx@.contains_key("site"@) && (ctx@["site"@] matches ContextValue::Global(g)
                    && same_global(g, config.site))
                &&& ctx@.contains_key("posts"@) && (ctx@["posts"@] matches ContextValue::Pages(v)
                    && v.len() == posts@.len()
                    && forall|i: int| 0 <= i < posts@.len() ==> #[trigger] same_page(v@[i], *posts@[i]))
                &&& ctx@.contains_key("base_url"@) && (ctx@["base_url"@] matches ContextValue::Text(s)
                    && s@ == base_url@)
            },
    {
        proof {
            reveal_strlit("site");
            reveal_strlit("posts");
            reveal_strlit("base_url");
            assert("site"@.len() == 4);
            assert("posts"@.len() == 5);
            assert("base_url"@.len() == 8);
        }
        let mut list: Vec<PageContext> = Vec::new();
        let mut i: usize = 0;
        while i < posts.len()
            invariant
                i <= posts@.len(),
                list.len() == i,
                forall|j: int| 0 <= j < i ==> #[trigger] same_page(list@[j], *posts@[j]),
            decreases posts@.len() - i,
        {
            let p = posts[i].clone();
            list.push(p);
            i = i + 1;
        }
        let mut ctx = RenderContext::new();
        ctx.insert("site", ContextValue::Global(config.site.clone()));
        ctx.insert("posts", ContextValue::Pages(list));
        ctx.insert("base_url", ContextValue::Text(base_url.to_owned()));
        Ok(ctx)
    }
}

/// The sitemap context for Tera templates: the site settings under
/// `site`, the pages under `pages` and the base URL under `base_url`.
pub struct TeraSitemapContextBuilder;

impl SitemapContextBuilder for TeraSitemapContextBuilder {
    open spec fn builds_sitemap(&self, config: RawssgConfig, pages: Seq<PageContext>, base_url: Seq<char>,
        out: Result<Context, RawssgError>) -> bool {
        out matches Ok(ctx) && sitemap_context_holds(ctx@, config.site, pages, base_url)
    }

    fn build_sitemap_context(&self, config: &RawssgConfig, pages: &[PageContext], base_url: &str) -> (r: Result<Context, RawssgError>)
        ensures
            r matches Ok(ctx) && {
                &&& ctx@.contains_key("site"@) && (ctx@["site"@] matches ContextValue::Global(g)
                    && same_global(g, config.site))
                &&& ctx@.contains_key("pages"@) && (ctx@["pages"@] matches ContextValue::Pages(v)
                    && v.len() == pages@.len()
                    && forall|i: int| 0 <= i < pages@.len() ==> #[trigger] same_page(v@[i], pages@[i]))
                &&& ctx@.contains_key("base_url"@) && (ctx@["base_url"@] matches ContextValue::Text(s)
                    && s@ == base_url@)
            },
    {
        proof {
            reveal_strlit("site");
            reveal_strlit("pages");
            reveal_strlit("base_url");
            assert("site"@.len() == 4);
            assert("pages"@.len() == 5);
            assert("base_url"@.len() == 8);
        }
        let mut list: Vec<PageContext> = Vec::new();
        let mut i: usize = 0;
        while i < pages.len()
            invariant
                i <= pages@.len(),
                list.len() == i,
                forall|j: int| 0 <= j < i ==> #[trigger] same_page(list@[j], pages@[j]),
            decreases pages@.len() - i,
        {
            let p = pages[i].clone();
            list.push(p);
            i = i + 1;
        }
        let mut ctx = RenderContext::new();
        ctx.insert("site", ContextValue::Global(config.site.clone()));
        ctx.insert("pages", ContextValue::Pages(list));
        ctx.insert("base_url", ContextValue::Text(base_url.to_owned()));
        Ok(ctx)
    }
}

/// The feed: the context from `context_builder`, rendered with the feed
/// template of the configuration.
pub fn generate_feed<R: TemplateRenderer + ?Sized, B: FeedContextBuilder + ?Sized>(
    renderer: &R,
    config: &RawssgConfig,
    posts: &[&PageContext],
    base_url: &str,
    context_builder: &B,
) -> (r: Result<String, RawssgError>)
    ensures
        exists|built: Result<Context, RawssgError>|
            #[trigger] context_builder.builds_feed(*config, deref_pages(posts@), base_url@, built)
            && match built {
                Err(e) => r == Err::<String, RawssgError>(e),
                Ok(ctx) => renderer.renders(config.generators.rss.template@, ctx@, r),
            },
{
    let built = context_builder.build_feed_context(config, posts, base_url);
    let ctx = match built {
        Ok(c) => c,
        Err(e) => return Err(e),
    };
    renderer.render(config.generators.rss.template.as_str(), &ctx)
}

/// The sitemap: the context from `context_builder`, rendered with the
/// sitemap template of the configuration.
pub fn generate_sitemap<R: TemplateRenderer + ?Sized, B: SitemapContextBuilder + ?Sized>(
    renderer: &R,
    config: &RawssgConfig,
    pages: &[PageContext],
    base_url: &str,
    context_builder: &B,
) -> (r: Result<String, RawssgError>)
    ensures
        exists|built: Result<Context, RawssgError>|
            #[trigger] context_builder.builds_sitemap(*config, pages@, base_url@, built)
            && match built {
                Err(e) => r == Err::<String, RawssgError>(e),
                Ok(ctx) => renderer.renders(config.generators.sitemap.template@, ctx@, r),
            },
{
    let built = context_builder.build_sitemap_context(config, pages, base_url);
    let ctx = match built {
        Ok(c) => c,
        Err(e) => return Err(e),
    };
    renderer.render(config.generators.sitemap.template.as_str(), &ctx)
}

/// Loads the site settings.
pub trait ConfigLoader {
    fn load(&self) -> Result<GlobalConfig, RawssgError>;

    /// The settings that [`ConfigLoader::load`] gives, or the default
    /// settings where it fails.
    fn load_or_default(&self) -> GlobalConfig {
        settings_or_default(self.load())
    }
}

/// The settings a load gave, or the default settings where it failed.
pub fn settings_or_default(loaded: Result<GlobalConfig, RawssgError>) -> (r: GlobalConfig)
    ensures
        match loaded {
            Ok(c) => r == c,
            Err(_) => r.is_default(),
        },
{
    match loaded {
        Ok(c) => c,
        Err(_) => GlobalConfig::default(),
    }
}

/// The content type of the page at `rel`: the name of the first content
/// type whose pattern matches it, or `page` when none does.
pub open spec fn site_content_type_of(types: Seq<ContentTypeDef>, rel: Seq<char>) -> Seq<char>
    decreases types.len(),
{
    if types.len() == 0 {
        "page"@
    } else if site_pattern_matches(types[0].pattern@, rel) {
        types[0].name@
    } else {
        site_content_type_of(types.drop_first(), rel)
    }
}

/// A page takes the type of the first content type whose pattern matches
/// its path: where the type at `i` matches and none before it does, the
/// page is of that type; where none matches, it is a `page`.
pub proof fn lemma_site_type_is_first_match(types: Seq<ContentTypeDef>, rel: Seq<char>, i: int)
    ensures
        0 <= i < types.len() && site_pattern_matches(types[i].pattern@, rel)
            && (forall|j: int| 0 <= j < i ==> !site_pattern_matches(#[trigger] types[j].pattern@, rel))
            ==> site_content_type_of(types, rel) == types[i].name@,
        (forall|j: int| 0 <= j < types.len() ==> !site_pattern_matches(#[trigger] types[j].pattern@, rel))
            ==> site_content_type_of(types, rel) == "page"@,
    decreases types.len(),
{
    if types.len() > 0 {
        let rest = types.drop_first();
        lemma_site_type_is_first_match(rest, rel, i - 1);
        assert forall|j: int| 0 <= j < rest.len() implies rest[j] == types[j + 1] by {}
        if 0 < i < types.len() && site_pattern_matches(types[i].pattern@, rel)
            && (forall|j: int| 0 <= j < i ==> !site_pattern_matches(#[trigger] types[j].pattern@, rel)) {
            assert(!site_pattern_matches(types[0].pattern@, rel));
            assert(rest[i - 1] == types[i]);
            assert forall|j: int| 0 <= j < i - 1 implies !site_pattern_matches(#[trigger] rest[j].pattern@, rel) by {
                assert(rest[j] == types[j + 1]);
            }
        }
        if forall|j: int| 0 <= j < types.len() ==> !site_pattern_matches(#[trigger] types[j].pattern@, rel) {
            assert(!site_pattern_matches(types[0].pattern@, rel));
            assert forall|j: int| 0 <= j < rest.len() implies !site_pattern_matches(#[trigger] rest[j].pattern@, rel) by {
                assert(rest[j] == types[j + 1]);
            }
        }
    }
}

/// The content type of the page at the relative path `rel`.
pub fn determine_content_type(types: &Vec<ContentTypeDef>, rel: &str) -> (r: String)
    ensures
        r@ == site_content_type_of(types@, rel@),
{
    let mut i: usize = 0;
    assert(types@.skip(0) =~= types@);
    while i < types.len()
        invariant
            i <= types.len(),
            site_content_type_of(types@, rel@) == site_content_type_of(types@.skip(i as int), rel@),
        decreases types.len() - i,
    {
        assert(types@.skip(i as int)[0] == types@[i as int]);
        assert(types@.skip(i as int).drop_first() =~= types@.skip(i + 1));
        if match_pattern(types[i].pattern.as_str(), rel) {
            return types[i].name.clone();
        }
        i = i + 1;
    }
    "page".to_owned()
}

/// The template of a page of type `content_type`: that of the first
/// content type with this name, or its list template for a list page where
/// it has one; `base.html` where no content type has the name.
pub open spec fn page_template_of(types: Seq<ContentTypeDef>, content_type: Seq<char>, is_list: bool) -> Seq<char>
    decreases types.len(),
{
    if types.len() == 0 {
        "base.html"@
    } else if types[0].name@ == content_type {
        if is_list && types[0].list_template is Some {
            types[0].list_template->0@
        } else {
            types[0].template@
        }
    } else {
        page_template_of(types.drop_first(), content_type, is_list)
    }
}

/// The template to render `page` with.
pub fn template_for_page(types: &Vec<ContentTypeDef>, page: &PageContext) -> (r: String)
    ensures
        r@ == page_template_of(types@, page.content_type@, page.is_list),
{
    let mut i: usize = 0;
    assert(types@.skip(0) =~= types@);
    while i < types.len()
        invariant
            i <= types.len(),
            page_template_of(types@, page.content_type@, page.is_list)
                == page_template_of(types@.skip(i as int), page.content_type@, page.is_list),
        decreases types.len() - i,
    {
        assert(types@.skip(i as int)[0] == types@[i as int]);
        assert(types@.skip(i as int).drop_first() =~= types@.skip(i + 1));
        let ct = &types[i];
        if text_eq(ct.name.as_str(), page.content_type.as_str()) {
            if page.is_list {
                match &ct.list_template {
                    Some(t) => return t.clone(),
                    None => {},
                }
            }
            return ct.template.clone();
        }
        i = i + 1;
    }
    "base.html".to_owned()
}

/// Whether `p` is `page`, found at the relative path `rel`, with the content
/// type of that path and everything else kept.
pub open spec fn typed_from(types: Seq<ContentTypeDef>, rel: Seq<char>, page: PageContext, p: PageContext) -> bool {
    &&& p.content_type@ == site_content_type_of(types, rel)
    &&& p.frontmatter == page.frontmatter
    &&& p.content_html == page.content_html
    &&& p.url == page.url
    &&& p.file_path == page.file_path
    &&& p.depth == page.depth
    &&& p.pub_date == page.pub_date
    &&& p.is_list == page.is_list
    &&& p.list_items == page.list_items
}

/// `page`, found at the relative path `rel`, with the content type of that
/// path; everything else is kept.
pub fn type_page(types: &Vec<ContentTypeDef>, rel: &str, page: PageContext) -> (p: PageContext)
    ensures
        typed_from(types@, rel@, page, p),
        p.content_type@ == site_content_type_of(types@, rel@),
        p.frontmatter == page.frontmatter,
        p.content_html == page.content_html,
        p.url == page.url,
        p.file_path == page.file_path,
        p.depth == page.depth,
        p.pub_date == page.pub_date,
        p.is_list == page.is_list,
        p.list_items == page.list_items,
{
    let mut p = page;
    p.content_type = determine_content_type(types, rel);
    p
}

/// Whether each page carries the content type of the relative path at the
/// same position of `rels`.
pub open spec fn typed_along(pages: Seq<PageContext>, types: Seq<ContentTypeDef>, rels: Seq<Seq<char>>) -> bool {
    rels.len() == pages.len() && forall|j: int| 0 <= j < pages.len()
        ==> #[trigger] pages[j].content_type@ == site_content_type_of(types, rels[j])
}

/// Whether every page carries the content type of some relative path,
/// position by position.
pub open spec fn all_typed(pages: Seq<PageContext>, types: Seq<ContentTypeDef>) -> bool {
    exists|rels: Seq<Seq<char>>| #[trigger] typed_along(pages, types, rels)
}

/// What became of one walked file: `None` where it lies outside the
/// content directory or no handler took it, else what the first handler
/// that took it answered.
pub type PageOutcome = Option<Result<Option<PageContext>, RawssgError>>;

/// Whether `pages` are the pages made from `files` given what their
/// handlers answered: each page a handler made, in walk order, typed by the
/// path of its file relative to `content_dir`; files outside the directory
/// and files a handler failed on add no page.
pub open spec fn pages_made(
    files: Seq<Seq<char>>,
    content_dir: Seq<char>,
    types: Seq<ContentTypeDef>,
    outcomes: Seq<PageOutcome>,
    pages: Seq<PageContext>,
) -> bool
    decreases files.len(),
{
    if files.len() == 0 || outcomes.len() != files.len() {
        files.len() == 0 && outcomes.len() == 0 && pages.len() == 0
    } else {
        let n = files.len() - 1;
        match (strip_prefix_of(files[n], content_dir), outcomes[n]) {
            (Some(rel), Some(Ok(Some(page)))) => pages.len() > 0 && typed_from(types, rel, page, pages.last())
                && pages_made(files.drop_last(), content_dir, types, outcomes.drop_last(), pages.drop_last()),
            _ => pages_made(files.drop_last(), content_dir, types, outcomes.drop_last(), pages),
        }
    }
}

/// Whether `r` is what [`collect_pages`] gives for `content_dir`, given what
/// walking it gave and, for each walked file, what the first handler that
/// took it answered: a failed walk is an I/O error; otherwise the pages of
/// [`pages_made`].
pub open spec fn pages_collected(
    content_dir: Seq<char>,
    types: Seq<ContentTypeDef>,
    n_handlers: int,
    asks: Seq<Seq<bool>>,
    walk: IoResult<Vec<String>>,
    outcomes: Seq<PageOutcome>,
    r: Result<Vec<PageContext>, RawssgError>,
) -> bool {
    match walk {
        Err(e) => r matches Err(RawssgError::Io(m)) && m@ == e.message@,
        Ok(files) => r matches Ok(pages) && pages_made(texts(files@), content_dir, types, outcomes, pages@)
            && pages_dispatched(texts(files@), content_dir, n_handlers, asks, outcomes),
    }
}

/// Whether each walked file was dispatched to the first handler that takes
/// it ([`handled_by_first`]), given the answers of the handlers asked for it
/// (`asks`, by position); a file outside `content_dir` is offered to no
/// handler.
pub open spec fn pages_dispatched(
    files: Seq<Seq<char>>,
    content_dir: Seq<char>,
    n_handlers: int,
    asks: Seq<Seq<bool>>,
    outcomes: Seq<PageOutcome>,
) -> bool {
    &&& asks.len() == files.len()
    &&& outcomes.len() == files.len()
    &&& forall|i: int| 0 <= i < files.len() ==> #[trigger] file_dispatched(files[i], content_dir, n_handlers, asks[i], outcomes[i])
}

/// Whether the walked `file` was dispatched as [`pages_dispatched`] says.
pub open spec fn file_dispatched(file: Seq<char>, content_dir: Seq<char>, n_handlers: int, accepts: Seq<bool>,
    outcome: PageOutcome) -> bool {
    match strip_prefix_of(file, content_dir) {
        None => accepts.len() == 0 && outcome is None,
        Some(_) => handled_by_first(accepts, n_handlers, outcome),
    }
}

/// The pages made from the files under `content_dir`: each file, taken
/// relative to the directory, goes to the first handler that takes it; a
/// page it makes gets the content type of that relative path. A file that
/// a handler fails on is skipped.
pub fn collect_pages(
    fs: &dyn FileSystem,
    handlers: &Vec<Box<dyn ContentHandler>>,
    md_renderer: &dyn MarkdownRenderer,
    types: &Vec<ContentTypeDef>,
    content_dir: &str,
) -> (r: Result<Vec<PageContext>, RawssgError>)
    ensures
        exists|asks: Seq<Seq<bool>>, walk: IoResult<Vec<String>>, outcomes: Seq<PageOutcome>|
            #[trigger] pages_collected(content_dir@, types@, handlers@.len() as int, asks, walk, outcomes, r),
        r matches Ok(pages) ==> all_typed(pages@, types@),
        r matches Err(e) ==> e is Io,
{
    let walk = fs.walk_dir(content_dir);
    let ghost walkg = walk;
    let files = match walk {
        Ok(f) => f,
        Err(e) => {
            let r = Err(RawssgError::Io(e.message));
            assert(pages_collected(content_dir@, types@, handlers@.len() as int, Seq::empty(), walkg, Seq::empty(), r));
            return r;
        },
    };
    let ghost fv = texts(files@);
    let ghost nh = handlers@.len() as int;
    let ghost mut outcomes: Seq<PageOutcome> = Seq::empty();
    let ghost mut asks: Seq<Seq<bool>> = Seq::empty();
    let mut pages: Vec<PageContext> = Vec::new();
    let ghost mut rels: Seq<Seq<char>> = Seq::empty();
    let mut i: usize = 0;
    assert(fv.take(0) =~= Seq::<Seq<char>>::empty());
    while i < files.len()
        invariant
            i <= files.len(),
            fv == texts(files@),
            typed_along(pages@, types@, rels),
            outcomes.len() == i,
            pages_made(fv.take(i as int), content_dir@, types@, outcomes, pages@),
            nh == handlers@.len(),
            asks.len() == i,
            forall|j: int| 0 <= j < i ==> #[trigger] file_dispatched(fv[j], content_dir@, nh, asks[j], outcomes[j]),
        decreases files.len() - i,
    {
        let file = files[i].as_str();
        assert(fv[i as int] == file@);
        let ghost mut outcome: PageOutcome = None;
        let ghost mut accepts: Seq<bool> = Seq::empty();
        let ghost pages_before = pages@;
        match strip_prefix(file, content_dir) {
            None => {},
            Some(relative) => {
                let mut h: usize = 0;
                let mut handled = false;
                while h < handlers.len() && !handled
                    invariant
                        h <= handlers.len(),
                        nh == handlers@.len(),
                        typed_along(pages@, types@, rels),
                        accepts.len() == h,
                        !handled ==> forall|k: int| 0 <= k < h ==> !#[trigger] accepts[k],
                        handled ==> h > 0 && accepts.last() && forall|k: int| 0 <= k < h - 1 ==> !#[trigger] accepts[k],
                        !handled ==> pages@ == pages_before && outcome is None,
                        handled ==> match outcome {
                            Some(Ok(Some(page))) => pages@ == pages_before.push(pages@.last())
                                && typed_from(types@, relative@, page, pages@.last()),
                            Some(_) => pages@ == pages_before,
                            None => false,
                        },
                    decreases handlers.len() - h,
                {
                    let takes = handlers[h].can_handle(relative.as_str(), file);
                    proof { accepts = accepts.push(takes); }
                    if takes {
                        let ans = handlers[h].process(fs, md_renderer, relative.as_str(), content_dir);
                        let ghost ansg = ans;
                        match ans {
                            Ok(Some(page)) => {
                                let page = type_page(types, relative.as_str(), page);
                                let ghost before = pages@;
                                pages.push(page);
                                proof {
                                    outcome = Some(ansg);
                                    assert(pages@.last() == page);
                                    assert(pages@ == pages_before.push(pages@.last()));
                                    let old_rels = rels;
                                    rels = rels.push(relative@);
                                    assert forall|j: int| 0 <= j < pages.len() implies
                                        #[trigger] pages@[j].content_type@ == site_content_type_of(types@, rels[j]) by {
                                        if j < before.len() {
                                            assert(pages@[j] == before[j]);
                                            assert(rels[j] == old_rels[j]);
                                        }
                                    }
                                }
                            },
                            Ok(None) => {
                                proof { outcome = Some(ansg); }
                            },
                            Err(_) => {
                                proof { outcome = Some(ansg); }
                            },
                        }
                        handled = true;
                    }
                    h = h + 1;
                }
            },
        }
        proof {
            let old_outs = outcomes;
            outcomes = outcomes.push(outcome);
            let ft = fv.take(i + 1);
            assert(ft.drop_last() =~= fv.take(i as int));
            assert(outcomes.drop_last() =~= old_outs);
            assert(ft[i as int] == fv[i as int]);
            match outcome {
                Some(Ok(Some(page))) => {
                    assert(pages@.drop_last() =~= pages_before);
                },
                _ => {},
            }
            assert(pages_made(ft, content_dir@, types@, outcomes, pages@));
            let old_asks = asks;
            asks = asks.push(accepts);
            assert(file_dispatched(fv[i as int], content_dir@, nh, accepts, outcome));
            assert forall|j: int| 0 <= j < i + 1 implies #[trigger] file_dispatched(fv[j], content_dir@, nh, asks[j], outcomes[j]) by {
                if j < i {
                    assert(asks[j] == old_asks[j]);
                    assert(outcomes[j] == old_outs[j]);
                }
            }
        }
        i = i + 1;
    }
    assert(fv.take(files.len() as int) =~= fv);
    assert(all_typed(pages@, types@));
    let r = Ok(pages);
    assert(pages_collected(content_dir@, types@, nh, asks, walkg, outcomes, r));
    r
}

/// The pages of type `name` that are not lists, in order.
pub open spec fn listed_pages(pages: Seq<PageContext>, name: Seq<char>) -> Seq<PageContext>
    decreases pages.len(),
{
    if pages.len() == 0 {
        Seq::<PageContext>::empty()
    } else if pages.last().content_type@ == name && !pages.last().is_list {
        listed_pages(pages.drop_last(), name).push(pages.last())
    } else {
        listed_pages(pages.drop_last(), name)
    }
}

/// Every page listed under a content type has that type and is not itself
/// a list.
pub proof fn lemma_listed_pages_have_type(pages: Seq<PageContext>, name: Seq<char>)
    ensures
        forall|i: int| 0 <= i < listed_pages(pages, name).len() ==> {
            &&& (#[trigger] listed_pages(pages, name)[i]).content_type@ == name
            &&& !listed_pages(pages, name)[i].is_list
        },
    decreases pages.len(),
{
    if pages.len() > 0 {
        lemma_listed_pages_have_type(pages.drop_last(), name);
    }
}

/// The content types that get a list page over `pages`: listing enabled, a
/// list template set, and at least one page of the type, in order.
pub open spec fn list_types(types: Seq<ContentTypeDef>, pages: Seq<PageContext>) -> Seq<ContentTypeDef>
    decreases types.len(),
{
    if types.len() == 0 {
        Seq::<ContentTypeDef>::empty()
    } else {
        let rest = list_types(types.drop_last(), pages);
        let t = types.last();
        if t.list_enabled && t.list_template is Some && listed_pages(pages, t.name@).len() > 0 {
            rest.push(t)
        } else {
            rest
        }
    }
}

/// Whether `page` is the list page of the content type `name` over `pages`:
/// titled with the type, served at `<type>/index.html`, one level deep,
/// listing copies of the pages of the type.
pub open spec fn is_list_page_of(page: PageContext, name: Seq<char>, pages: Seq<PageContext>) -> bool {
    &&& page.url@ == name + "/index.html"@
    &&& page.file_path@ == Seq::<char>::empty()
    &&& page.depth == 1
    &&& page.pub_date is None
    &&& page.frontmatter.title@ == name
    &&& page.frontmatter.desc@ == Seq::<char>::empty()
    &&& page.frontmatter.author is None
    &&& page.frontmatter.date is None
    &&& page.frontmatter.tags.len() == 0
    &&& !page.frontmatter.draft
    &&& page.content_html@ == Seq::<char>::empty()
    &&& page.content_type@ == name
    &&& page.is_list
    &&& page.list_items matches Some(items) && items.len() == listed_pages(pages, name).len()
        && forall|i: int| 0 <= i < items.len() ==> #[trigger] same_page(items@[i], listed_pages(pages, name)[i])
}

/// A list page never counts among the listed pages, so adding one keeps
/// the pages of every type.
proof fn lemma_listed_pages_ignore_lists(pages: Seq<PageContext>, extra: PageContext, name: Seq<char>)
    requires
        extra.is_list,
    ensures
        listed_pages(pages.push(extra), name) == listed_pages(pages, name),
{
    assert(pages.push(extra).drop_last() =~= pages);
}

/// Copies of the pages of type `name` that are not lists.
fn pages_of_type(pages: &Vec<PageContext>, name: &str) -> (r: Vec<PageContext>)
    ensures
        r.len() == listed_pages(pages@, name@).len(),
        forall|i: int| 0 <= i < r.len() ==> #[trigger] same_page(r@[i], listed_pages(pages@, name@)[i]),
{
    let mut r: Vec<PageContext> = Vec::new();
    let mut i: usize = 0;
    assert(pages@.take(0) =~= Seq::<PageContext>::empty());
    while i < pages.len()
        invariant
            i <= pages.len(),
            r.len() == listed_pages(pages@.take(i as int), name@).len(),
            forall|k: int| 0 <= k < r.len() ==> #[trigger] same_page(r@[k], listed_pages(pages@.take(i as int), name@)[k]),
        decreases pages.len() - i,
    {
        assert(pages@.take(i + 1).drop_last() =~= pages@.take(i as int));
        let p = &pages[i];
        if text_eq(p.content_type.as_str(), name) && !p.is_list {
            let c = p.clone();
            r.push(c);
        }
        i = i + 1;
    }
    assert(pages@.take(pages.len() as int) =~= pages@);
    r
}

/// The list page of the content type `name`, listing `items`.
fn list_page(name: &str, items: Vec<PageContext>) -> (p: PageContext)
    ensures
        p.url@ == name@ + "/index.html"@,
        p.file_path@ == Seq::<char>::empty(),
        p.depth == 1,
        p.pub_date is None,
        p.frontmatter.title@ == name@,
        p.frontmatter.desc@ == Seq::<char>::empty(),
        p.frontmatter.author is None,
        p.frontmatter.date is None,
        p.frontmatter.tags.len() == 0,
        !p.frontmatter.draft,
        p.content_html@ == Seq::<char>::empty(),
        p.content_type@ == name@,
        p.is_list,
        p.list_items == Some(items),
{
    let mut frontmatter = PageFrontMatter::default();
    frontmatter.title = name.to_owned();
    PageContext {
        url: concat2(name, "/index.html"),
        file_path: String::new(),
        depth: 1,
        pub_date: None,
        frontmatter,
        content_html: String::new(),
        content_type: name.to_owned(),
        is_list: true,
        list_items: Some(items),
    }
}

/// `pages` followed by a list page for each content type of
/// [`list_types`], in the order of the content types.
pub fn add_list_pages(types: &Vec<ContentTypeDef>, pages: Vec<PageContext>) -> (r: Vec<PageContext>)
    ensures
        r.len() == pages.len() + list_types(types@, pages@).len(),
        r@.take(pages.len() as int) == pages@,
        forall|k: int| 0 <= k < list_types(types@, pages@).len() ==> #[trigger] is_list_page_of(
            r@[pages.len() + k], list_types(types@, pages@)[k].name@, pages@),
{
    let ghost orig = pages@;
    let mut out = pages;
    let mut i: usize = 0;
    assert(types@.take(0) =~= Seq::<ContentTypeDef>::empty());
    assert(out@.take(orig.len() as int) =~= orig);
    while i < types.len()
        invariant
            i <= types.len(),
            out.len() == orig.len() + list_types(types@.take(i as int), orig).len(),
            out@.take(orig.len() as int) == orig,
            forall|name: Seq<char>| #[trigger] listed_pages(out@, name) == listed_pages(orig, name),
            forall|k: int| 0 <= k < list_types(types@.take(i as int), orig).len() ==> #[trigger] is_list_page_of(
                out@[orig.len() + k], list_types(types@.take(i as int), orig)[k].name@, orig),
        decreases types.len() - i,
    {
        assert(types@.take(i + 1).drop_last() =~= types@.take(i as int));
        assert(types@.take(i + 1).last() == types@[i as int]);
        let t = &types[i];
        if t.list_enabled && t.list_template.is_some() {
            let items = pages_of_type(&out, t.name.as_str());
            if items.len() > 0 {
                let lp = list_page(t.name.as_str(), items);
                let ghost before = out@;
                out.push(lp);
                proof {
                    assert forall|name: Seq<char>| #[trigger] listed_pages(out@, name) == listed_pages(orig, name) by {
                        lemma_listed_pages_ignore_lists(before, lp, name);
                        assert(out@ =~= before.push(lp));
                    }
                    assert(out@.take(orig.len() as int) =~= before.take(orig.len() as int));
                    let lt = list_types(types@.take(i + 1), orig);
                    assert forall|k: int| 0 <= k < lt.len() implies #[trigger] is_list_page_of(
                        out@[orig.len() + k], lt[k].name@, orig) by {
                        if k < lt.len() - 1 {
                            assert(out@[orig.len() + k] == before[orig.len() + k]);
                        }
                    }
                }
            }
        }
        i = i + 1;
    }
    assert(types@.take(types.len() as int) =~= types@);
    out
}

/// Collects what a site needs and checks it.
pub struct SiteBuilder {
    config: RawssgConfig,
    content_dir: String,
    output_dir: String,
    fs: Box<dyn FileSystem>,
    md_renderer: Option<Box<dyn MarkdownRenderer>>,
    renderer: Option<Box<dyn TemplateRenderer>>,
    handlers: Vec<Box<dyn ContentHandler>>,
    feed_context_builder: Option<Box<dyn FeedContextBuilder>>,
    sitemap_context_builder: Option<Box<dyn SitemapContextBuilder>>,
}

/// A site ready to be written: its configuration, pages, directories, base
/// URL, file system, template engine, and feed and sitemap context
/// builders.
pub struct Site {
    config: RawssgConfig,
    pages: Vec<PageContext>,
    output_dir: String,
    base_url: String,
    fs: Box<dyn FileSystem>,
    renderer: Box<dyn TemplateRenderer>,
    content_dir: String,
    feed_context_builder: Option<Box<dyn FeedContextBuilder>>,
    sitemap_context_builder: Option<Box<dyn SitemapContextBuilder>>,
}

/// The base URL used where the configuration gives none.
pub open spec fn default_base_url() -> Seq<char> {
    "http://localhost:3000"@
}

impl SiteBuilder {
    /// The first component a site cannot be built without that is still
    /// missing, as the message of the configuration error: the Markdown
    /// renderer, the template engine, then the feed and sitemap context
    /// builders where those generators are enabled.
    pub open spec fn missing_component(&self) -> Option<Seq<char>> {
        if !self.has_markdown_renderer() {
            Some("markdown renderer not set"@)
        } else if !self.has_template_renderer() {
            Some("template renderer not set"@)
        } else if self.config_view().generators.rss.enabled && !self.has_feed_context_builder() {
            Some("feed context builder not set"@)
        } else if self.config_view().generators.sitemap.enabled && !self.has_sitemap_context_builder() {
            Some("sitemap context builder not set"@)
        } else {
            None
        }
    }

    /// Whether `site` is what this builder makes from the pages `found`
    /// under the content directory: its configuration, directories, base
    /// URL and builders, and the pages found followed by one list page per
    /// content type that asks for one and has pages.
    pub open spec fn built_site(&self, site: Site, found: Seq<PageContext>) -> bool {
        let types = self.config_view().content_types@;
        &&& site.config_view() == self.config_view()
        &&& site.content_dir_view() == resolved_dir(self.content_dir_view(), "content"@,
            self.config_view().build.content_dir@)
        &&& site.output_dir_view() == resolved_dir(self.output_dir_view(), "dist"@,
            self.config_view().build.output_dir@)
        &&& site.base_url_view() == match self.config_view().site.base_url {
            Some(u) => u@,
            None => default_base_url(),
        }
        &&& site.has_feed_context_builder() == self.config_view().generators.rss.enabled
        &&& site.has_sitemap_context_builder() == self.config_view().generators.sitemap.enabled
        &&& all_typed(found, types)
        &&& site.pages_view().len() == found.len() + list_types(types, found).len()
        &&& site.pages_view().take(found.len() as int) == found
        &&& forall|k: int| 0 <= k < list_types(types, found).len()
            ==> #[trigger] is_list_page_of(site.pages_view()[found.len() + k], list_types(types, found)[k].name@, found)
    }

    /// The content handlers given so far, in order.
    pub closed spec fn handlers_view(&self) -> Seq<Box<dyn ContentHandler>> {
        self.handlers@
    }

    /// The configuration collected so far.
    pub closed spec fn config_view(&self) -> RawssgConfig {
        self.config
    }

    /// The content directory collected so far.
    pub closed spec fn content_dir_view(&self) -> Seq<char> {
        self.content_dir@
    }

    /// The output directory collected so far.
    pub closed spec fn output_dir_view(&self) -> Seq<char> {
        self.output_dir@
    }

    /// Whether a Markdown renderer was given.
    pub closed spec fn has_markdown_renderer(&self) -> bool {
        self.md_renderer is Some
    }

    /// Whether a template engine was given.
    pub closed spec fn has_template_renderer(&self) -> bool {
        self.renderer is Some
    }

    /// Whether a feed context builder was given.
    pub closed spec fn has_feed_context_builder(&self) -> bool {
        self.feed_context_builder is Some
    }

    /// Whether a sitemap context builder was given.
    pub closed spec fn has_sitemap_context_builder(&self) -> bool {
        self.sitemap_context_builder is Some
    }

    /// A builder over the file system `fs` with the content handlers
    /// `handlers`, the default configuration and the directories `content`
    /// and `dist`.
    pub fn new(fs: Box<dyn FileSystem>, handlers: Vec<Box<dyn ContentHandler>>) -> (b: Self)
        ensures
            b.config_view().site.is_default(),
            b.config_view().build.is_default(),
            b.config_view().content_types.len() == 0,
            b.content_dir_view() == "content"@,
            b.output_dir_view() == "dist"@,
            !b.has_markdown_renderer(),
            !b.has_template_renderer(),
            !b.has_feed_context_builder(),
            !b.has_sitemap_context_builder(),
    {
        SiteBuilder {
            config: RawssgConfig::default(),
            content_dir: "content".to_owned(),
            output_dir: "dist".to_owned(),
            fs,
            md_renderer: None,
            renderer: None,
            handlers,
            feed_context_builder: None,
            sitemap_context_builder: None,
        }
    }

    /// Sets the configuration.
    pub fn config(self, config: RawssgConfig) -> (b: Self)
        ensures
            b.config_view() == config,
            b.content_dir_view() == self.content_dir_view(),
            b.output_dir_view() == self.output_dir_view(),
            b.has_markdown_renderer() == self.has_markdown_renderer(),
            b.has_template_renderer() == self.has_template_renderer(),
            b.has_feed_context_builder() == self.has_feed_context_builder(),
            b.has_sitemap_context_builder() == self.has_sitemap_context_builder(),
    {
        let mut b = self;
        b.config = config;
        b
    }

    /// Sets the content directory.
    pub fn content_dir(self, dir: &str) -> (b: Self)
        ensures
            b.config_view() == self.config_view(),
            b.content_dir_view() == dir@,
            b.output_dir_view() == self.output_dir_view(),
            b.has_markdown_renderer() == self.has_markdown_renderer(),
            b.has_template_renderer() == self.has_template_renderer(),
            b.has_feed_context_builder() == self.has_feed_context_builder(),
            b.has_sitemap_context_builder() == self.has_sitemap_context_builder(),
    {
        let mut b = self;
        b.content_dir = dir.to_owned();
        b
    }

    /// Sets the output directory.
    pub fn output_dir(self, dir: &str) -> (b: Self)
        ensures
            b.config_view() == self.config_view(),
            b.content_dir_view() == self.content_dir_view(),
            b.output_dir_view() == dir@,
            b.has_markdown_renderer() == self.has_markdown_renderer(),
            b.has_template_renderer() == self.has_template_renderer(),
            b.has_feed_context_builder() == self.has_feed_context_builder(),
            b.has_sitemap_context_builder() == self.has_sitemap_context_builder(),
    {
        let mut b = self;
        b.output_dir = dir.to_owned();
        b
    }

    /// Replaces the file system.
    pub fn with_fs(self, fs: Box<dyn FileSystem>) -> (b: Self)
        ensures
            b.config_view() == self.config_view(),
            b.content_dir_view() == self.content_dir_view(),
            b.output_dir_view() == self.output_dir_view(),
            b.has_markdown_renderer() == self.has_markdown_renderer(),
            b.has_template_renderer() == self.has_template_renderer(),
            b.has_feed_context_builder() == self.has_feed_context_builder(),
            b.has_sitemap_context_builder() == self.has_sitemap_context_builder(),
            b.handlers_view() == self.handlers_view(),
    {
        let mut b = self;
        b.fs = fs;
        b
    }

    /// Sets the Markdown renderer.
    pub fn with_markdown_renderer(self, md: Box<dyn MarkdownRenderer>) -> (b: Self)
        ensures
            b.config_view() == self.config_view(),
            b.content_dir_view() == self.content_dir_view(),
            b.output_dir_view() == self.output_dir_view(),
            b.has_markdown_renderer(),
            b.has_template_renderer() == self.has_template_renderer(),
            b.has_feed_context_builder() == self.has_feed_context_builder(),
            b.has_sitemap_context_builder() == self.has_sitemap_context_builder(),
    {
        let mut b = self;
        b.md_renderer = Some(md);
        b
    }

    /// Sets the template engine.
    pub fn with_template_renderer(self, tr: Box<dyn TemplateRenderer>) -> (b: Self)
        ensures
            b.config_view() == self.config_view(),
            b.content_dir_view() == self.content_dir_view(),
            b.output_dir_view() == self.output_dir_view(),
            b.has_markdown_renderer() == self.has_markdown_renderer(),
            b.has_template_renderer(),
            b.has_feed_context_builder() == self.has_feed_context_builder(),
            b.has_sitemap_context_builder() == self.has_sitemap_context_builder(),
    {
        let mut b = self;
        b.renderer = Some(tr);
        b
    }

    /// Adds a content handler after those already given.
    pub fn add_handler(self, handler: Box<dyn ContentHandler>) -> (b: Self)
        ensures
            b.config_view() == self.config_view(),
            b.content_dir_view() == self.content_dir_view(),
            b.output_dir_view() == self.output_dir_view(),
            b.has_markdown_renderer() == self.has_markdown_renderer(),
            b.has_template_renderer() == self.has_template_renderer(),
            b.has_feed_context_builder() == self.has_feed_context_builder(),
            b.has_sitemap_context_builder() == self.has_sitemap_context_builder(),
            b.handlers_view() == self.handlers_view().push(handler),
    {
        let mut b = self;
        b.handlers.push(handler);
        b
    }

    /// Sets the feed context builder.
    pub fn with_feed_context_builder(self, builder: Box<dyn FeedContextBuilder>) -> (b: Self)
        ensures
            b.config_view() == self.config_view(),
            b.content_dir_view() == self.content_dir_view(),
            b.output_dir_view() == self.output_dir_view(),
            b.has_markdown_renderer() == self.has_markdown_renderer(),
            b.has_template_renderer() == self.has_template_renderer(),
            b.has_feed_context_builder(),
            b.has_sitemap_context_builder() == self.has_sitemap_context_builder(),
    {
        let mut b = self;
        b.feed_context_builder = Some(builder);
        b
    }

    /// Sets the sitemap context builder.
    pub fn with_sitemap_context_builder(self, builder: Box<dyn SitemapContextBuilder>) -> (b: Self)
        ensures
            b.config_view() == self.config_view(),
            b.content_dir_view() == self.content_dir_view(),
            b.output_dir_view() == self.output_dir_view(),
            b.has_markdown_renderer() == self.has_markdown_renderer(),
            b.has_template_renderer() == self.has_template_renderer(),
            b.has_feed_context_builder() == self.has_feed_context_builder(),
            b.has_sitemap_context_builder(),
    {
        let mut b = self;
        b.sitemap_context_builder = Some(builder);
        b
    }

    /// The site: a Markdown renderer and a template engine must have been
    /// given, and a feed (sitemap) context builder where the feed (sitemap)
    /// is enabled. A content or output directory still at its default
    /// (`content`, `dist`) is taken from the configuration. The pages are
    /// those the handlers make from the content directory, then a list
    /// page for each content type that asks for one and has pages.
    pub fn build(self) -> (r: Result<Site, RawssgError>)
        ensures
            match self.missing_component() {
                Some(m) => r matches Err(RawssgError::Config(x)) && x@ == m,
                None => exists|asks: Seq<Seq<bool>>, walk: IoResult<Vec<String>>, outcomes: Seq<PageOutcome>,
                    found: Result<Vec<PageContext>, RawssgError>|
                    #[trigger] pages_collected(resolved_dir(self.content_dir_view(), "content"@,
                        self.config_view().build.content_dir@), self.config_view().content_types@,
                        self.handlers_view().len() as int, asks, walk, outcomes, found)
                    && match found {
                        Err(e) => r matches Err(e2) && e2 == e,
                        Ok(f) => r matches Ok(site) && self.built_site(site, f@),
                    },
            },
            r matches Err(e) ==> (e is Config || e is Io),
    {
        let md_renderer = match self.md_renderer {
            Some(m) => m,
            None => return Err(RawssgError::Config("markdown renderer not set".to_owned())),
        };
        let renderer = match self.renderer {
            Some(t) => t,
            None => return Err(RawssgError::Config("template renderer not set".to_owned())),
        };
        let feed_context_builder = if self.config.generators.rss.enabled {
            match self.feed_context_builder {
                Some(b) => Some(b),
                None => return Err(RawssgError::Config("feed context builder not set".to_owned())),
            }
        } else {
            None
        };
        let sitemap_context_builder = if self.config.generators.sitemap.enabled {
            match self.sitemap_context_builder {
                Some(b) => Some(b),
                None => return Err(RawssgError::Config("sitemap context builder not set".to_owned())),
            }
        } else {
            None
        };
        let content_dir = if path_eq(self.content_dir.as_str(), "content") {
            self.config.build.content_dir.clone()
        } else {
            self.content_dir
        };
        let output_dir = if path_eq(self.output_dir.as_str(), "dist") {
            self.config.build.output_dir.clone()
        } else {
            self.output_dir
        };
        let base_url = match &self.config.site.base_url {
            Some(u) => u.clone(),
            None => "http://localhost:3000".to_owned(),
        };
        let ghost this = self;
        let collected = collect_pages(&*self.fs, &self.handlers, &*md_renderer,
            &self.config.content_types, content_dir.as_str());
        let ghost cg = collected;
        let found = match collected {
            Ok(p) => p,
            Err(e) => {
                proof {
                    let (a, w, o) = choose|a: Seq<Seq<bool>>, w: IoResult<Vec<String>>, o: Seq<PageOutcome>|
                        #[trigger] pages_collected(content_dir@, this.config.content_types@,
                            this.handlers@.len() as int, a, w, o, cg);
                    assert(content_dir@ == resolved_dir(this.content_dir_view(), "content"@,
                        this.config_view().build.content_dir@));
                    assert(pages_collected(content_dir@, this.config.content_types@, this.handlers_view().len() as int,
                        a, w, o, cg));
                }
                return Err(e);
            },
        };
        let ghost found_view = found@;
        proof {
            let (a, w, o) = choose|a: Seq<Seq<bool>>, w: IoResult<Vec<String>>, o: Seq<PageOutcome>|
                #[trigger] pages_collected(content_dir@, this.config.content_types@,
                    this.handlers@.len() as int, a, w, o, cg);
            assert(content_dir@ == resolved_dir(this.content_dir_view(), "content"@,
                this.config_view().build.content_dir@));
            assert(pages_collected(content_dir@, this.config.content_types@, this.handlers_view().len() as int,
                a, w, o, cg));
        }
        let pages = add_list_pages(&self.config.content_types, found);
        assert(all_typed(found_view, self.config.content_types@));
        let site = Site {
            config: self.config,
            pages,
            output_dir,
            base_url,
            fs: self.fs,
            renderer,
            content_dir,
            feed_context_builder,
            sitemap_context_builder,
        };
        assert(this.built_site(site, found_view));
        Ok(site)
    }
}

/// The text of an optional value, or nothing.
pub open spec fn text_or_empty(t: Option<String>) -> Seq<char> {
    match t {
        Some(s) => s@,
        None => Seq::<char>::empty(),
    }
}

/// Whether `ctx` holds the text `t` under `key`.
pub open spec fn text_at(ctx: Map<Seq<char>, ContextValue>, key: Seq<char>, t: Seq<char>) -> bool {
    ctx.contains_key(key) && (ctx[key] matches ContextValue::Text(s) && s@ == t)
}

/// Whether `ctx` holds what a page is rendered with: the site settings, the
/// base URL, the prefix back to the site root, and the page's title,
/// description, content, author, repository, license, URL and publication
/// date (absent texts given as empty).
pub open spec fn page_context_holds(ctx: Map<Seq<char>, ContextValue>, site: GlobalConfig, base_url: Seq<char>, page: PageContext) -> bool {
    &&& ctx.contains_key("site"@) && (ctx["site"@] matches ContextValue::Global(g) && same_global(g, site))
    &&& text_at(ctx, "base_url"@, base_url)
    &&& text_at(ctx, "base_path"@, if page.depth == 0 { "./"@ } else { repeat("../"@, page.depth as nat) })
    &&& text_at(ctx, "page_title"@, page.frontmatter.title@)
    &&& text_at(ctx, "page_desc"@, page.frontmatter.desc@)
    &&& text_at(ctx, "page_content"@, page.content_html@)
    &&& text_at(ctx, "page_author"@, text_or_empty(page.frontmatter.author))
    &&& text_at(ctx, "page_repo_url"@, text_or_empty(page.frontmatter.repo_url))
    &&& text_at(ctx, "page_license"@, text_or_empty(page.frontmatter.license))
    &&& text_at(ctx, "page_url"@, page.url@)
    &&& text_at(ctx, "page_pub_date"@, text_or_empty(page.pub_date))
}

/// The text of an optional value, or an empty string.
fn unwrap_text(t: &Option<String>) -> (r: String)
    ensures
        r@ == text_or_empty(*t),
{
    match t {
        Some(s) => s.clone(),
        None => String::new(),
    }
}

/// Whether `r` is what writing a generated file at `path` under `base`
/// gives, given what [`safe_path`] gave for it (under some answer for the
/// base), what creating the directory of the resolved path answered (`Ok`
/// where it has none) and what writing the file there answered.
pub open spec fn generated_at(
    base: Seq<char>,
    path: Seq<char>,
    resolved: Result<String, RawssgError>,
    made: IoResult<()>,
    wrote: IoResult<()>,
    r: Result<(), RawssgError>,
) -> bool {
    &&& exists|ba: IoResult<String>| #[trigger] resolved_after_base(base, path, ba, resolved)
    &&& match resolved {
        Err(e) => r == Err::<(), RawssgError>(e),
        Ok(_) => match made {
            Err(e) => r matches Err(RawssgError::Io(m)) && m@ == e.message@,
            Ok(()) => match wrote {
                Err(e) => r matches Err(RawssgError::Io(m)) && m@ == e.message@,
                Ok(()) => r is Ok,
            },
        },
    }
}

/// Whether `r` is what writing `page` under `base` gives, given what
/// rendering it answered: the render failure, or the rendered text written
/// at the page's URL as [`generated_at`] describes.
pub open spec fn page_written(base: Seq<char>, page: PageContext, rendered: Result<String, RawssgError>,
    r: Result<(), RawssgError>) -> bool {
    match rendered {
        Err(e) => r == Err::<(), RawssgError>(e),
        Ok(_) => exists|resolved: Result<String, RawssgError>, made: IoResult<()>, wrote: IoResult<()>|
            #[trigger] generated_at(base, page.url@, resolved, made, wrote, r),
    }
}

/// Whether `ctx` holds what a list page lists: for a list page with list
/// items, exactly those items under `pages`; for any other page, nothing
/// under `pages`.
pub open spec fn list_context_holds(ctx: Map<Seq<char>, ContextValue>, page: PageContext) -> bool {
    if page.is_list && page.list_items is Some {
        ctx.contains_key("pages"@) && (ctx["pages"@] matches ContextValue::Pages(v)
            && v.len() == page.list_items->0.len()
            && forall|i: int| 0 <= i < v.len() ==> #[trigger] same_page(v@[i], page.list_items->0@[i]))
    } else {
        !ctx.contains_key("pages"@)
    }
}

/// Whether `r` is what writing `page` under `base` gives for some context
/// and some answer of the template engine, as [`Site::page_rendered`]
/// describes.
pub open spec fn page_write_outcome(site: Site, base: Seq<char>, page: PageContext, r: Result<(), RawssgError>) -> bool {
    exists|ctx: Map<Seq<char>, ContextValue>, rendered: Result<String, RawssgError>|
        #[trigger] site.page_rendered(base, page, ctx, rendered, r)
}

/// Whether `r` is what writing, from position `k` on, the pages that are
/// lists (`lists`) or that are not gives, given what writing each answered
/// (`answers`, by position, each as [`page_write_outcome`] describes): the
/// other pages are passed over, a failure stops with its error, and after
/// the last page the result is `rest`.
pub open spec fn pages_written(
    site: Site,
    base: Seq<char>,
    pages: Seq<PageContext>,
    lists: bool,
    answers: Seq<Result<(), RawssgError>>,
    k: int,
    rest: Result<(), RawssgError>,
    r: Result<(), RawssgError>,
) -> bool
    decreases pages.len() - k,
{
    if k < 0 || k >= pages.len() {
        r == rest
    } else if pages[k].is_list != lists {
        pages_written(site, base, pages, lists, answers, k + 1, rest, r)
    } else {
        &&& page_write_outcome(site, base, pages[k], answers[k])
        &&& match answers[k] {
            Err(e) => r == Err::<(), RawssgError>(e),
            Ok(()) => pages_written(site, base, pages, lists, answers, k + 1, rest, r),
        }
    }
}

/// Whether the page at `j` went through its pass: it belongs to the other
/// pass, or writing it answered `Ok` as [`page_write_outcome`] describes.
pub open spec fn page_step_ok(site: Site, base: Seq<char>, pages: Seq<PageContext>, lists: bool,
    answers: Seq<Result<(), RawssgError>>, j: int) -> bool {
    pages[j].is_list != lists || (answers[j] is Ok && page_write_outcome(site, base, pages[j], answers[j]))
}

/// Whether every page of a pass went through.
pub open spec fn pass_ok(site: Site, base: Seq<char>, pages: Seq<PageContext>, lists: bool,
    answers: Seq<Result<(), RawssgError>>) -> bool {
    forall|j: int| 0 <= j < pages.len() ==> #[trigger] page_step_ok(site, base, pages, lists, answers, j)
}

/// Pages that went through are passed over.
proof fn lemma_pages_prefix(
    site: Site,
    base: Seq<char>,
    pages: Seq<PageContext>,
    lists: bool,
    answers: Seq<Result<(), RawssgError>>,
    k: int,
    n: int,
    rest: Result<(), RawssgError>,
    r: Result<(), RawssgError>,
)
    requires
        0 <= k <= n <= pages.len(),
        forall|j: int| k <= j < n ==> #[trigger] page_step_ok(site, base, pages, lists, answers, j),
        pages_written(site, base, pages, lists, answers, n, rest, r),
    ensures
        pages_written(site, base, pages, lists, answers, k, rest, r),
    decreases n - k,
{
    if k < n {
        lemma_pages_prefix(site, base, pages, lists, answers, k + 1, n, rest, r);
        assert(page_step_ok(site, base, pages, lists, answers, k));
    }
}

/// Whether `r` is what writing the pages under `base` gives, given what
/// preparing gave (`prep`: creating `base` and resolving the static and
/// content directories), what writing each page that is not a list
/// answered (`first`), what writing each list page answered (`second`),
/// and what the steps after the pages gave (`rest`): pages that are not
/// lists are written first, then, once all of them went through, list
/// pages, each as [`page_write_outcome`] describes; the first failure is
/// the result.
pub open spec fn site_pages_generated(
    site: Site,
    base: Seq<char>,
    pages: Seq<PageContext>,
    prep: Result<(), RawssgError>,
    first: Seq<Result<(), RawssgError>>,
    second: Seq<Result<(), RawssgError>>,
    mid: Result<(), RawssgError>,
    rest: Result<(), RawssgError>,
    r: Result<(), RawssgError>,
) -> bool {
    match prep {
        Err(e) => r == Err::<(), RawssgError>(e),
        Ok(()) => pages_written(site, base, pages, false, first, 0, mid, r)
            && (pass_ok(site, base, pages, false, first) ==> pages_written(site, base, pages, true, second, 0, rest, mid)),
    }
}

/// Whether `r` is what replacing the output directory gives, given what
/// removing the old output answered (`Ok` where there was none), what
/// renaming the temporary directory answered, and, after a rename across
/// devices, what copying it and then removing it gave.
pub open spec fn site_output_swapped(removed: IoResult<()>, moved: IoResult<()>, copied: Result<(), RawssgError>,
    cleaned: IoResult<()>, r: Result<(), RawssgError>) -> bool {
    match removed {
        Err(e) => r matches Err(RawssgError::Io(m)) && m@ == e.message@,
        Ok(()) => match moved {
            Ok(()) => r is Ok,
            Err(e) => if e.kind == IoErrorKind::CrossesDevices {
                match copied {
                    Err(e2) => r == Err::<(), RawssgError>(e2),
                    Ok(()) => match cleaned {
                        Ok(()) => r is Ok,
                        Err(e3) => r matches Err(RawssgError::Io(m)) && m@ == e3.message@,
                    },
                }
            } else {
                r matches Err(RawssgError::SiteGeneration(m)) && m@ == "Atomic rename failed: "@ + e.message@
            },
        },
    }
}

/// Whether `r` is what generating the site gives, given what preparing the
/// temporary directory `tmp` answered (`prep`), what writing the site into
/// it gave (`gen`, as [`site_pages_generated`] describes it for some
/// answers) and what replacing the output directory gave (`swap`): a
/// failure before the site is written in full is the result and the
/// output directory is not replaced; otherwise the result is `swap`.
#[verifier::opaque]
pub open spec fn site_output_built(
    site: Site,
    tmp: Seq<char>,
    prep: IoResult<()>,
    gen: Result<(), RawssgError>,
    swap: Result<(), RawssgError>,
    r: Result<(), RawssgError>,
) -> bool {
    match prep {
        Err(e) => r matches Err(RawssgError::Io(m)) && m@ == e.message@,
        Ok(()) => {
            &&& site.generated_into(tmp, gen)
            &&& match gen {
                Err(e) => r == Err::<(), RawssgError>(e),
                Ok(()) => r == swap && exists|removed: IoResult<()>, moved: IoResult<()>,
                    copied: Result<(), RawssgError>, cleaned: IoResult<()>|
                    #[trigger] site_output_swapped(removed, moved, copied, cleaned, swap),
            }
        },
    }
}

proof fn lemma_site_prep_failed(site: Site, tmp: Seq<char>, prep: IoResult<()>,
    gen: Result<(), RawssgError>, swap: Result<(), RawssgError>, r: Result<(), RawssgError>)
    requires
        prep matches Err(e) && (r matches Err(RawssgError::Io(m)) && m@ == e.message@),
    ensures
        site_output_built(site, tmp, prep, gen, swap, r),
{
    reveal(site_output_built);
}

proof fn lemma_site_after_prep(site: Site, tmp: Seq<char>, prep: IoResult<()>,
    gen: Result<(), RawssgError>, swap: Result<(), RawssgError>, r: Result<(), RawssgError>)
    requires
        prep is Ok,
        site.generated_into(tmp, gen),
        gen is Err ==> r == gen,
        gen is Ok ==> r == swap && exists|removed: IoResult<()>, moved: IoResult<()>,
            copied: Result<(), RawssgError>, cleaned: IoResult<()>|
            #[trigger] site_output_swapped(removed, moved, copied, cleaned, swap),
    ensures
        site_output_built(site, tmp, prep, gen, swap, r),
{
    reveal(site_output_built);
}

/// The context `page` is rendered with.
pub fn page_context(site: &GlobalConfig, base_url: &str, page: &PageContext) -> (ctx: Context)
    ensures
        page_context_holds(ctx@, *site, base_url@, *page),
        !ctx@.contains_key("pages"@),
{
    proof {
        reveal_strlit("pages");
        assert("pages"@.len() == 5);
        reveal_strlit("site");
        reveal_strlit("base_url");
        reveal_strlit("base_path");
        reveal_strlit("page_title");
        reveal_strlit("page_desc");
        reveal_strlit("page_content");
        reveal_strlit("page_author");
        reveal_strlit("page_repo_url");
        reveal_strlit("page_license");
        reveal_strlit("page_url");
        reveal_strlit("page_pub_date");
        assert("site"@.len() == 4);
        assert("base_url"@.len() == 8);
        assert("base_path"@.len() == 9);
        assert("page_title"@.len() == 10);
        assert("page_desc"@.len() == 9);
        assert("page_content"@.len() == 12);
        assert("page_author"@.len() == 11);
        assert("page_repo_url"@.len() == 13);
        assert("page_license"@.len() == 12);
        assert("page_url"@.len() == 8);
        assert("page_pub_date"@.len() == 13);
        assert("base_url"@[0] != "page_url"@[0]);
        assert("base_path"@[0] != "page_desc"@[0]);
        assert("page_content"@[5] != "page_license"@[5]);
        assert("page_repo_url"@[5] != "page_pub_date"@[5]);
    }
    let mut ctx = RenderContext::new();
    ctx.insert("site", ContextValue::Global(site.clone()));
    ctx.insert("base_url", ContextValue::Text(base_url.to_owned()));
    ctx.insert("base_path", ContextValue::Text(relative_prefix(page.depth)));
    ctx.insert("page_title", ContextValue::Text(page.frontmatter.title.clone()));
    ctx.insert("page_desc", ContextValue::Text(page.frontmatter.desc.clone()));
    ctx.insert("page_content", ContextValue::Text(page.content_html.clone()));
    ctx.insert("page_author", ContextValue::Text(unwrap_text(&page.frontmatter.author)));
    ctx.insert("page_repo_url", ContextValue::Text(unwrap_text(&page.frontmatter.repo_url)));
    ctx.insert("page_license", ContextValue::Text(unwrap_text(&page.frontmatter.license)));
    ctx.insert("page_url", ContextValue::Text(page.url.clone()));
    ctx.insert("page_pub_date", ContextValue::Text(unwrap_text(&page.pub_date)));
    ctx
}

/// Setting `pages` keeps what every page is rendered with.
proof fn lemma_pages_key_apart(ctx: Map<Seq<char>, ContextValue>, site: GlobalConfig, base_url: Seq<char>,
    page: PageContext, v: ContextValue)
    requires
        page_context_holds(ctx, site, base_url, page),
    ensures
        page_context_holds(ctx.insert("pages"@, v), site, base_url, page),
{
    reveal_strlit("pages");
    reveal_strlit("site");
    reveal_strlit("base_url");
    reveal_strlit("base_path");
    reveal_strlit("page_title");
    reveal_strlit("page_desc");
    reveal_strlit("page_content");
    reveal_strlit("page_author");
    reveal_strlit("page_repo_url");
    reveal_strlit("page_license");
    reveal_strlit("page_url");
    reveal_strlit("page_pub_date");
    assert("pages"@.len() == 5);
    assert("site"@.len() == 4);
    assert("base_url"@.len() == 8);
    assert("base_path"@.len() == 9);
    assert("page_title"@.len() == 10);
    assert("page_desc"@.len() == 9);
    assert("page_content"@.len() == 12);
    assert("page_author"@.len() == 11);
    assert("page_repo_url"@.len() == 13);
    assert("page_license"@.len() == 12);
    assert("page_url"@.len() == 8);
    assert("page_pub_date"@.len() == 13);
}

/// The blog posts among `pages`: the pages of type `blog` that are not
/// lists, in order.
pub open spec fn blog_posts_of(pages: Seq<PageContext>) -> Seq<PageContext>
    decreases pages.len(),
{
    if pages.len() == 0 {
        Seq::<PageContext>::empty()
    } else if pages.last().content_type@ == "blog"@ && !pages.last().is_list {
        blog_posts_of(pages.drop_last()).push(pages.last())
    } else {
        blog_posts_of(pages.drop_last())
    }
}

/// The blog posts among `pages`: the pages of type `blog` that are not
/// lists, in order.
pub fn blog_posts(pages: &[PageContext]) -> (r: Vec<&PageContext>)
    ensures
        r.len() == blog_posts_of(pages@).len(),
        forall|i: int| 0 <= i < r.len() ==> *r@[i] == #[trigger] blog_posts_of(pages@)[i],
{
    let mut posts: Vec<&PageContext> = Vec::new();
    let mut k: usize = 0;
    assert(pages@.take(0) =~= Seq::<PageContext>::empty());
    while k < pages.len()
        invariant
            k <= pages.len(),
            posts.len() == blog_posts_of(pages@.take(k as int)).len(),
            forall|i: int| 0 <= i < posts.len() ==> *posts@[i] == #[trigger] blog_posts_of(pages@.take(k as int))[i],
        decreases pages.len() - k,
    {
        let p = &pages[k];
        let ghost before = pages@.take(k as int);
        assert(pages@.take(k + 1).drop_last() =~= before);
        assert(pages@.take(k + 1).last() == *p);
        if text_eq(p.content_type.as_str(), "blog") && !p.is_list {
            let ghost old_posts = posts@;
            posts.push(p);
            assert forall|i: int| 0 <= i < posts.len() implies *posts@[i] == #[trigger] blog_posts_of(pages@.take(k + 1))[i] by {
                if i < old_posts.len() {
                    assert(posts@[i] == old_posts[i]);
                    assert(blog_posts_of(pages@.take(k + 1))[i] == blog_posts_of(before)[i]);
                }
            }
        }
        k = k + 1;
    }
    assert(pages@.take(pages.len() as int) =~= pages@);
    posts
}

/// Whether `r` is what writing a generated file at `path` under `base`
/// gives, given what producing its text answered: that failure, or the
/// text written at `path` as [`generated_at`] describes.
pub open spec fn output_generated(base: Seq<char>, path: Seq<char>, produced: Result<String, RawssgError>,
    r: Result<(), RawssgError>) -> bool {
    match produced {
        Err(e) => r == Err::<(), RawssgError>(e),
        Ok(_) => exists|resolved: Result<String, RawssgError>, made: IoResult<()>, wrote: IoResult<()>|
            #[trigger] generated_at(base, path, resolved, made, wrote, r),
    }
}

/// Whether `r` is what copying the content files gives, given whether the
/// content directory exists: nothing where it does not, else the files
/// that are not Markdown as [`copy_files`] does.
pub open spec fn content_copied(present: bool, content_dir: Seq<char>, base: Seq<char>, r: Result<(), RawssgError>) -> bool {
    if present {
        files_copy_outcome(content_dir, base, true, r)
    } else {
        r is Ok
    }
}

/// The witnesses of a site written under `base`.
proof fn lemma_generated_into(site: Site, base: Seq<char>, prep: Result<(), RawssgError>,
    first: Seq<Result<(), RawssgError>>, second: Seq<Result<(), RawssgError>>, mid: Result<(), RawssgError>,
    rest: Result<(), RawssgError>, static_dir: Option<String>, content_dir: Option<String>, r: Result<(), RawssgError>)
    requires
        site_pages_generated(site, base, site.pages_view(), prep, first, second, mid, rest, r),
        prep is Ok && all_pages_ok(site, base, site.pages_view(), first, second)
            ==> site.assets_outcome(base, static_dir, content_dir, rest),
    ensures
        site.generated_into(base, r),
{
    if prep is Ok && all_pages_ok(site, base, site.pages_view(), first, second) {
        assert(site.assets_outcome(base, static_dir, content_dir, rest));
    }
}

/// Whether each page of both passes went through.
pub open spec fn all_pages_ok(site: Site, base: Seq<char>, pages: Seq<PageContext>, first: Seq<Result<(), RawssgError>>,
    second: Seq<Result<(), RawssgError>>) -> bool {
    &&& pass_ok(site, base, pages, false, first)
    &&& pass_ok(site, base, pages, true, second)
}

impl Site {
    /// The configuration of the site.
    pub closed spec fn config_view(&self) -> RawssgConfig {
        self.config
    }

    /// The pages of the site.
    pub closed spec fn pages_view(&self) -> Seq<PageContext> {
        self.pages@
    }

    /// Whether `r` is what the feeds give once the pages and copies are
    /// written, given what producing and writing the feed (`feed`, as
    /// [`Site::feed_outcome`] describes) and the sitemap (`sitemap`, as
    /// [`Site::sitemap_outcome`] describes) gave: where the feed is
    /// enabled, the missing feed context builder is an internal error, else
    /// the feed is written when there are blog posts; then likewise the
    /// sitemap; else `Ok`.
    pub open spec fn feeds_written(&self, base: Seq<char>, feed: Result<(), RawssgError>, sitemap: Result<(), RawssgError>,
        r: Result<(), RawssgError>) -> bool {
        let g = self.config_view().generators;
        let feed_due = g.rss.enabled && blog_posts_of(self.pages_view()).len() > 0;
        if g.rss.enabled && !self.has_feed_context_builder() {
            r matches Err(RawssgError::Internal(m)) && m@ == "RSS enabled but no feed context builder provided"@
        } else if feed_due && feed is Err {
            r == feed && self.feed_outcome(base, feed)
        } else {
            &&& feed_due ==> self.feed_outcome(base, feed)
            &&& if g.sitemap.enabled && !self.has_sitemap_context_builder() {
                r matches Err(RawssgError::Internal(m)) && m@ == "Sitemap enabled but no sitemap context builder provided"@
            } else if g.sitemap.enabled {
                r == sitemap && self.sitemap_outcome(base, sitemap)
            } else {
                r is Ok
            }
        }
    }

    /// Whether `r` is what the steps after the pages give, given the
    /// resolved static and content directories (`None` where missing),
    /// whether the static directory exists, and what each step gave: the
    /// static files are copied (as [`copy_files`] does, Markdown included)
    /// where the static directory exists; then the content files that are
    /// not Markdown (a content directory that does not exist copies
    /// nothing); then the feeds as [`Site::feeds_written`] says. The first
    /// failure is the result.
    pub open spec fn assets_written(
        &self,
        base: Seq<char>,
        static_dir: Option<String>,
        content_dir: Option<String>,
        static_exists: bool,
        content_exists: bool,
        copied_static: Result<(), RawssgError>,
        copied_content: Result<(), RawssgError>,
        feed: Result<(), RawssgError>,
        sitemap: Result<(), RawssgError>,
        r: Result<(), RawssgError>,
    ) -> bool {
        if static_dir is Some && static_exists && copied_static is Err {
            r == copied_static && files_copy_outcome(static_dir->0@, base, false, copied_static)
        } else if content_dir is Some && copied_content is Err {
            r == copied_content && content_copied(content_exists, content_dir->0@, base, copied_content)
        } else {
            &&& (static_dir is Some && static_exists) ==> files_copy_outcome(static_dir->0@, base, false, copied_static)
            &&& content_dir is Some ==> content_copied(content_exists, content_dir->0@, base, copied_content)
            &&& self.feeds_written(base, feed, sitemap, r)
        }
    }

    /// Whether `r` is what the steps after the pages give for some answers.
    pub open spec fn assets_outcome(&self, base: Seq<char>, static_dir: Option<String>, content_dir: Option<String>,
        r: Result<(), RawssgError>) -> bool {
        exists|static_exists: bool, content_exists: bool, copied_static: Result<(), RawssgError>,
            copied_content: Result<(), RawssgError>, feed: Result<(), RawssgError>, sitemap: Result<(), RawssgError>|
            #[trigger] self.assets_written(base, static_dir, content_dir, static_exists, content_exists, copied_static,
                copied_content, feed, sitemap, r)
    }

    /// Whether `r` is what writing the site under `base` gives for some
    /// answers: the pages as [`site_pages_generated`] describes, and, once
    /// every page is written, the static and content files and the feeds as
    /// [`Site::assets_outcome`] describes.
    pub open spec fn generated_into(&self, base: Seq<char>, r: Result<(), RawssgError>) -> bool {
        exists|prep: Result<(), RawssgError>, first: Seq<Result<(), RawssgError>>,
            second: Seq<Result<(), RawssgError>>, mid: Result<(), RawssgError>, rest: Result<(), RawssgError>|
            #[trigger] site_pages_generated(*self, base, self.pages_view(), prep, first, second, mid, rest, r)
            && (prep is Ok && all_pages_ok(*self, base, self.pages_view(), first, second)
                ==> exists|static_dir: Option<String>, content_dir: Option<String>|
                    #[trigger] self.assets_outcome(base, static_dir, content_dir, rest))
    }

    /// The directory the site is written to.
    pub closed spec fn output_dir_view(&self) -> Seq<char> {
        self.output_dir@
    }

    /// The directory content was read from.
    pub closed spec fn content_dir_view(&self) -> Seq<char> {
        self.content_dir@
    }

    /// The base URL of the site.
    pub closed spec fn base_url_view(&self) -> Seq<char> {
        self.base_url@
    }

    /// Whether `rendered` is an answer the site's template engine may give
    /// for `template` and a context holding `ctx`.
    pub closed spec fn rendered_from(&self, template: Seq<char>, ctx: Map<Seq<char>, ContextValue>,
        rendered: Result<String, RawssgError>) -> bool {
        self.renderer.renders(template, ctx, rendered)
    }

    /// Whether `r` is what writing `page` under `base` gives, given the
    /// context it was rendered with (`ctx`) and what the template engine
    /// answered (`rendered`): the context holds what every page is
    /// rendered with and, for a list page, its list items under `pages`;
    /// the page's template is rendered with it, and the text is written as
    /// [`page_written`] describes.
    pub closed spec fn page_rendered(&self, base: Seq<char>, page: PageContext, ctx: Map<Seq<char>, ContextValue>,
        rendered: Result<String, RawssgError>, r: Result<(), RawssgError>) -> bool {
        &&& page_context_holds(ctx, self.config.site, self.base_url@, page)
        &&& list_context_holds(ctx, page)
        &&& self.rendered_from(page_template_of(self.config.content_types@, page.content_type@, page.is_list), ctx, rendered)
        &&& page_written(base, page, rendered, r)
    }

    /// Pages are rendered with their own context: writing `page` renders
    /// the page's template with a context that holds the site settings,
    /// the site's base URL and the page's own values and, for a list page,
    /// exactly its list items under `pages`; the text that comes out is
    /// what is written, and a failure to render is the result.
    pub proof fn lemma_page_rendered_with_its_context(&self, base: Seq<char>, page: PageContext,
        ctx: Map<Seq<char>, ContextValue>, rendered: Result<String, RawssgError>, r: Result<(), RawssgError>)
        requires
            self.page_rendered(base, page, ctx, rendered, r),
        ensures
            page_context_holds(ctx, self.config_view().site, self.base_url_view(), page),
            list_context_holds(ctx, page),
            self.rendered_from(page_template_of(self.config_view().content_types@, page.content_type@, page.is_list),
                ctx, rendered),
            page_written(base, page, rendered, r),
    {
    }

    /// Whether `built` is an answer the site's feed context builder may
    /// give for the site's configuration, `posts` and `base_url`.
    pub closed spec fn feed_context_answer(&self, posts: Seq<PageContext>, base_url: Seq<char>,
        built: Result<Context, RawssgError>) -> bool {
        self.feed_context_builder matches Some(b) && b.builds_feed(self.config, posts, base_url, built)
    }

    /// Whether `built` is an answer the site's sitemap context builder may
    /// give for the site's configuration, `pages` and `base_url`.
    pub closed spec fn sitemap_context_answer(&self, pages: Seq<PageContext>, base_url: Seq<char>,
        built: Result<Context, RawssgError>) -> bool {
        self.sitemap_context_builder matches Some(b) && b.builds_sitemap(self.config, pages, base_url, built)
    }

    /// Whether `produced` is the feed text, given the context the feed
    /// context builder answered for the site's blog posts and base URL
    /// (`built`): its failure, or the feed template rendered with it.
    pub closed spec fn feed_produced(&self, built: Result<Context, RawssgError>, produced: Result<String, RawssgError>) -> bool {
        &&& self.feed_context_answer(blog_posts_of(self.pages@), self.base_url@, built)
        &&& match built {
            Err(e) => produced == Err::<String, RawssgError>(e),
            Ok(ctx) => self.rendered_from(self.config.generators.rss.template@, ctx@, produced),
        }
    }

    /// Whether `produced` is the sitemap text, given the context the
    /// sitemap context builder answered for the site's pages and base URL
    /// (`built`): its failure, or the sitemap template rendered with it.
    pub closed spec fn sitemap_produced(&self, built: Result<Context, RawssgError>, produced: Result<String, RawssgError>) -> bool {
        &&& self.sitemap_context_answer(self.pages@, self.base_url@, built)
        &&& match built {
            Err(e) => produced == Err::<String, RawssgError>(e),
            Ok(ctx) => self.rendered_from(self.config.generators.sitemap.template@, ctx@, produced),
        }
    }

    /// Whether `w` is what producing the feed and writing it at the
    /// configured path gives, as [`Site::feed_produced`] and
    /// [`output_generated`] describe.
    pub closed spec fn feed_outcome(&self, base: Seq<char>, w: Result<(), RawssgError>) -> bool {
        exists|built: Result<Context, RawssgError>, produced: Result<String, RawssgError>|
            #[trigger] self.feed_produced(built, produced)
            && output_generated(base, self.config.generators.rss.path@, produced, w)
    }

    /// Whether `w` is what producing the sitemap and writing it at the
    /// configured path gives, as [`Site::sitemap_produced`] and
    /// [`output_generated`] describe.
    pub closed spec fn sitemap_outcome(&self, base: Seq<char>, w: Result<(), RawssgError>) -> bool {
        exists|built: Result<Context, RawssgError>, produced: Result<String, RawssgError>|
            #[trigger] self.sitemap_produced(built, produced)
            && output_generated(base, self.config.generators.sitemap.path@, produced, w)
    }

    /// The feed comes from the site's blog posts and base URL: the feed
    /// context builder was asked for the blog posts among the site's pages
    /// and the site's base URL, and the feed template was rendered with
    /// the context it answered; its failure is the feed's.
    pub proof fn lemma_feed_from_site_posts(&self, built: Result<Context, RawssgError>,
        produced: Result<String, RawssgError>)
        requires
            self.feed_produced(built, produced),
        ensures
            self.feed_context_answer(blog_posts_of(self.pages_view()), self.base_url_view(), built),
            built matches Err(e) ==> produced == Err::<String, RawssgError>(e),
            built matches Ok(ctx) ==> self.rendered_from(self.config_view().generators.rss.template@, ctx@, produced),
    {
    }

    /// The sitemap comes from the site's pages and base URL: the sitemap
    /// context builder was asked for the site's pages and base URL, and the
    /// sitemap template was rendered with the context it answered; its
    /// failure is the sitemap's.
    pub proof fn lemma_sitemap_from_site_pages(&self, built: Result<Context, RawssgError>,
        produced: Result<String, RawssgError>)
        requires
            self.sitemap_produced(built, produced),
        ensures
            self.sitemap_context_answer(self.pages_view(), self.base_url_view(), built),
            built matches Err(e) ==> produced == Err::<String, RawssgError>(e),
            built matches Ok(ctx) ==> self.rendered_from(self.config_view().generators.sitemap.template@, ctx@, produced),
    {
    }

    /// Whether the site has a feed context builder.
    pub closed spec fn has_feed_context_builder(&self) -> bool {
        self.feed_context_builder is Some
    }

    /// Whether the site has a sitemap context builder.
    pub closed spec fn has_sitemap_context_builder(&self) -> bool {
        self.sitemap_context_builder is Some
    }

    /// The pages of the site.
    pub fn pages(&self) -> (r: &[PageContext])
        ensures
            r@ == self.pages_view(),
    {
        self.pages.as_slice()
    }

    /// Writes the site into a temporary directory next to the output
    /// directory (the output path with the extension `tmp`), then replaces
    /// the output directory with it: by a rename, or, across devices, by a
    /// copy and the removal of the temporary directory.
    pub fn generate(self) -> (r: Result<(), RawssgError>)
        ensures
            exists|prep: IoResult<()>, gen: Result<(), RawssgError>, swap: Result<(), RawssgError>|
                #[trigger] site_output_built(self, with_extension_of(self.output_dir_view(), "tmp"@),
                    prep, gen, swap, r),
            self.config_view().generators.rss.enabled && !self.has_feed_context_builder() ==> r is Err,
            self.config_view().generators.sitemap.enabled && !self.has_sitemap_context_builder() ==> r is Err,
    {
        let ghost pv = self.pages_view();
        let ghost unused: Result<(), RawssgError> = vstd::pervasive::arbitrary();
        let tmp_dir = with_extension(self.output_dir.as_str(), "tmp");
        let ghost tmp = with_extension_of(self.output_dir_view(), "tmp"@);
        assert(tmp_dir@ == tmp);
        if self.fs.path_exists(tmp_dir.as_str()) {
            let rm = self.fs.remove_dir_all(tmp_dir.as_str());
            let ghost rmg = rm;
            match rm {
                Ok(()) => {},
                Err(e) => {
                    let r = Err(RawssgError::Io(e.message));
                    proof { lemma_site_prep_failed(self, tmp, rmg, unused, unused, r); }
                    return r;
                },
            }
        }
        let mk = self.fs.create_dir_all(tmp_dir.as_str());
        let ghost mkg = mk;
        match mk {
            Ok(()) => {},
            Err(e) => {
                let r = Err(RawssgError::Io(e.message));
                proof { lemma_site_prep_failed(self, tmp, mkg, unused, unused, r); }
                return r;
            },
        }
        let gen = self.generate_to(tmp_dir.as_str());
        let ghost geng = gen;
        match gen {
            Ok(()) => {},
            Err(e) => {
                let r = Err(e);
                proof { lemma_site_after_prep(self, tmp, mkg, geng, unused, r); }
                return r;
            },
        }
        let swap = self.replace_output(tmp_dir.as_str());
        proof { lemma_site_after_prep(self, tmp, mkg, geng, swap, swap); }
        swap
    }

    /// Replaces the output directory with `tmp_dir`: the old output is
    /// removed, then `tmp_dir` is renamed to it, or, across devices, copied
    /// to it and removed.
    fn replace_output(&self, tmp_dir: &str) -> (r: Result<(), RawssgError>)
        ensures
            exists|removed: IoResult<()>, moved: IoResult<()>, copied: Result<(), RawssgError>, cleaned: IoResult<()>|
                #[trigger] site_output_swapped(removed, moved, copied, cleaned, r),
    {
        let ghost ok: IoResult<()> = Ok(());
        let ghost okr: Result<(), RawssgError> = Ok(());
        let mut removed: IoResult<()> = Ok(());
        if self.fs.path_exists(self.output_dir.as_str()) {
            removed = self.fs.remove_dir_all(self.output_dir.as_str());
        }
        let ghost rmg = removed;
        match removed {
            Ok(()) => {},
            Err(e) => {
                let r = Err(RawssgError::Io(e.message));
                assert(site_output_swapped(rmg, ok, okr, ok, r));
                return r;
            },
        }
        let moved = self.fs.rename(tmp_dir, self.output_dir.as_str());
        let ghost mvg = moved;
        match moved {
            Ok(()) => {
                let r = Ok(());
                assert(site_output_swapped(rmg, mvg, okr, ok, r));
                r
            },
            Err(e) => {
                if e.kind == IoErrorKind::CrossesDevices {
                    let copied = copy_tree_within(&*self.fs, tmp_dir, self.output_dir.as_str());
                    let ghost cpg = copied;
                    match copied {
                        Ok(()) => {},
                        Err(e2) => {
                            let r = Err(e2);
                            assert(site_output_swapped(rmg, mvg, cpg, ok, r));
                            return r;
                        },
                    }
                    let cleaned = self.fs.remove_dir_all(tmp_dir);
                    let ghost clg = cleaned;
                    let r = match cleaned {
                        Ok(()) => Ok(()),
                        Err(e3) => Err(RawssgError::Io(e3.message)),
                    };
                    assert(site_output_swapped(rmg, mvg, cpg, clg, r));
                    r
                } else {
                    let r = Err(RawssgError::SiteGeneration(concat2("Atomic rename failed: ", e.message.as_str())));
                    assert(site_output_swapped(rmg, mvg, okr, ok, r));
                    r
                }
            },
        }
    }

    /// Writes the site under `output_base`: each page that is not a list,
    /// then each list page (with the pages it lists under `pages`), then
    /// the static files (where the static directory exists), then the
    /// content files that are not Markdown, then the feed (where enabled
    /// and there are blog posts) and the sitemap (where enabled).
    fn generate_to(&self, output_base: &str) -> (r: Result<(), RawssgError>)
        ensures
            self.generated_into(output_base@, r),
            self.config_view().generators.rss.enabled && !self.has_feed_context_builder() ==> r is Err,
            self.config_view().generators.sitemap.enabled && !self.has_sitemap_context_builder() ==> r is Err,
    {
        let ghost pv = self.pages_view();
        let ghost base = output_base@;
        let ghost okp: Result<(), RawssgError> = Ok(());
        let ghost none: Seq<Result<(), RawssgError>> = Seq::empty();
        let ghost no_dir: Option<String> = None;
        let made = self.fs.create_dir_all(output_base);
        match made {
            Ok(()) => {},
            Err(e) => {
                let r = Err(RawssgError::Io(e.message));
                assert(site_pages_generated(*self, base, pv, r, none, none, r, r, r));
                proof { lemma_generated_into(*self, base, r, none, none, r, r, no_dir, no_dir, r); }
                return r;
            },
        }
        let static_dir = match self.try_canonicalize_or_skip(self.config.build.static_dir.as_str()) {
            Ok(d) => d,
            Err(e) => {
                let r = Err(e);
                assert(site_pages_generated(*self, base, pv, r, none, none, r, r, r));
                proof { lemma_generated_into(*self, base, r, none, none, r, r, no_dir, no_dir, r); }
                return r;
            },
        };
        let content_dir = match self.try_canonicalize_or_skip(self.content_dir.as_str()) {
            Ok(d) => d,
            Err(e) => {
                let r = Err(e);
                assert(site_pages_generated(*self, base, pv, r, none, none, r, r, r));
                proof { lemma_generated_into(*self, base, r, none, none, r, r, no_dir, no_dir, r); }
                return r;
            },
        };
        let ghost mut first: Seq<Result<(), RawssgError>> = Seq::new(self.pages.len() as nat, |j: int| okp);
        let mut i: usize = 0;
        while i < self.pages.len()
            invariant
                i <= self.pages.len(),
                pv == self.pages_view(),
                base == output_base@,
                okp == Ok::<(), RawssgError>(()),
                first.len() == self.pages.len(),
                forall|j: int| 0 <= j < i ==> #[trigger] page_step_ok(*self, base, pv, false, first, j),
            decreases self.pages.len() - i,
        {
            let page = &self.pages[i];
            if !page.is_list {
                let ctx = page_context(&self.config.site, self.base_url.as_str(), page);
                let a = self.write_page(output_base, page, &ctx);
                let ghost prev = first;
                proof { first = first.update(i as int, a); }
                assert forall|j: int| 0 <= j < i implies #[trigger] page_step_ok(*self, base, pv, false, first, j) by {
                    assert(first[j] == prev[j]);
                    assert(page_step_ok(*self, base, pv, false, prev, j));
                }
                match a {
                    Ok(()) => {
                        assert(page_step_ok(*self, base, pv, false, first, i as int));
                    },
                    Err(e) => {
                        let r = Err(e);
                        proof {
                            assert(pages_written(*self, base, pv, false, first, i as int, r, r));
                            lemma_pages_prefix(*self, base, pv, false, first, 0, i as int, r, r);
                            assert(!page_step_ok(*self, base, pv, false, first, i as int));
                            assert(!pass_ok(*self, base, pv, false, first));
                            assert(site_pages_generated(*self, base, pv, okp, first, first, r, r, r));
                            assert(!all_pages_ok(*self, base, pv, first, first));
                            lemma_generated_into(*self, base, okp, first, first, r, r, no_dir, no_dir, r);
                        }
                        return r;
                    },
                }
            } else {
                assert(page_step_ok(*self, base, pv, false, first, i as int));
            }
            i = i + 1;
        }
        let ghost mut second: Seq<Result<(), RawssgError>> = Seq::new(self.pages.len() as nat, |j: int| okp);
        let mut i: usize = 0;
        while i < self.pages.len()
            invariant
                i <= self.pages.len(),
                pv == self.pages_view(),
                base == output_base@,
                okp == Ok::<(), RawssgError>(()),
                first.len() == self.pages.len(),
                second.len() == self.pages.len(),
                forall|j: int| 0 <= j < pv.len() ==> #[trigger] page_step_ok(*self, base, pv, false, first, j),
                forall|j: int| 0 <= j < i ==> #[trigger] page_step_ok(*self, base, pv, true, second, j),
            decreases self.pages.len() - i,
        {
            let page = &self.pages[i];
            if page.is_list {
                let mut ctx = page_context(&self.config.site, self.base_url.as_str(), page);
                match &page.list_items {
                    Some(items) => {
                        let listed = ContextValue::Pages(clone_pages(items));
                        proof { lemma_pages_key_apart(ctx@, self.config.site, self.base_url@, *page, listed); }
                        ctx.insert("pages", listed);
                    },
                    None => {},
                }
                let a = self.write_page(output_base, page, &ctx);
                let ghost prev = second;
                proof { second = second.update(i as int, a); }
                assert forall|j: int| 0 <= j < i implies #[trigger] page_step_ok(*self, base, pv, true, second, j) by {
                    assert(second[j] == prev[j]);
                    assert(page_step_ok(*self, base, pv, true, prev, j));
                }
                match a {
                    Ok(()) => {
                        assert(page_step_ok(*self, base, pv, true, second, i as int));
                    },
                    Err(e) => {
                        let r = Err(e);
                        proof {
                            assert(pages_written(*self, base, pv, true, second, i as int, r, r));
                            lemma_pages_prefix(*self, base, pv, true, second, 0, i as int, r, r);
                            assert(pages_written(*self, base, pv, false, first, pv.len() as int, r, r));
                            lemma_pages_prefix(*self, base, pv, false, first, 0, pv.len() as int, r, r);
                            assert(site_pages_generated(*self, base, pv, okp, first, second, r, r, r));
                            assert(!page_step_ok(*self, base, pv, true, second, i as int));
                            assert(!all_pages_ok(*self, base, pv, first, second));
                            lemma_generated_into(*self, base, okp, first, second, r, r, no_dir, no_dir, r);
                        }
                        return r;
                    },
                }
            } else {
                assert(page_step_ok(*self, base, pv, true, second, i as int));
            }
            i = i + 1;
        }
        let ghost sd = static_dir;
        let ghost cd = content_dir;
        let rest = self.write_assets_and_feeds(output_base, static_dir, content_dir);
        proof {
            assert(pages_written(*self, base, pv, true, second, pv.len() as int, rest, rest));
            lemma_pages_prefix(*self, base, pv, true, second, 0, pv.len() as int, rest, rest);
            assert(pages_written(*self, base, pv, false, first, pv.len() as int, rest, rest));
            lemma_pages_prefix(*self, base, pv, false, first, 0, pv.len() as int, rest, rest);
            assert(site_pages_generated(*self, base, pv, okp, first, second, rest, rest, rest));
            lemma_generated_into(*self, base, okp, first, second, rest, rest, sd, cd, rest);
        }
        rest
    }

    /// Writes what follows the pages: the static files (where the static
    /// directory exists), the content files that are not Markdown, then the
    /// feed (where enabled and there are blog posts) and the sitemap (where
    /// enabled).
    fn write_assets_and_feeds(&self, output_base: &str, static_dir: Option<String>, content_dir: Option<String>)
        -> (r: Result<(), RawssgError>)
        ensures
            self.assets_outcome(output_base@, static_dir, content_dir, r),
            self.config_view().generators.rss.enabled && !self.has_feed_context_builder() ==> r is Err,
            self.config_view().generators.sitemap.enabled && !self.has_sitemap_context_builder() ==> r is Err,
    {
        let ghost base = output_base@;
        let ghost okr: Result<(), RawssgError> = Ok(());
        let ghost mut static_exists = false;
        let ghost mut content_exists = false;
        let ghost mut copied_static = okr;
        let ghost mut copied_content = okr;
        match &static_dir {
            Some(dir) => {
                if self.fs.path_exists(dir.as_str()) {
                    let c = self.copy_static_assets(dir.as_str(), output_base);
                    proof { static_exists = true; copied_static = c; }
                    match c {
                        Ok(()) => {},
                        Err(e) => {
                            let r = Err(e);
                            assert(self.assets_written(base, static_dir, content_dir, static_exists, content_exists,
                                copied_static, copied_content, okr, okr, r));
                            return r;
                        },
                    }
                }
            },
            None => {},
        }
        match &content_dir {
            Some(dir) => {
                let c = self.copy_content_assets(dir.as_str(), output_base);
                proof {
                    content_exists = choose|present: bool| #[trigger] content_copied(present, dir@, base, c);
                    copied_content = c;
                }
                match c {
                    Ok(()) => {},
                    Err(e) => {
                        let r = Err(e);
                        assert(self.assets_written(base, static_dir, content_dir, static_exists, content_exists,
                            copied_static, copied_content, okr, okr, r));
                        return r;
                    },
                }
            },
            None => {},
        }
        let f = self.write_feeds(output_base);
        proof {
            let (feed, sitemap) = choose|feed: Result<(), RawssgError>, sitemap: Result<(), RawssgError>|
                #[trigger] self.feeds_written(base, feed, sitemap, f);
            assert(self.assets_written(base, static_dir, content_dir, static_exists, content_exists,
                copied_static, copied_content, feed, sitemap, f));
        }
        f
    }

    /// Writes the feed (where enabled and there are blog posts) and the
    /// sitemap (where enabled).
    fn write_feeds(&self, output_base: &str) -> (r: Result<(), RawssgError>)
        ensures
            exists|feed: Result<(), RawssgError>, sitemap: Result<(), RawssgError>|
                #[trigger] self.feeds_written(output_base@, feed, sitemap, r),
    {
        let ghost base = output_base@;
        let ghost okr: Result<(), RawssgError> = Ok(());
        let ghost mut feed = okr;
        if self.config.generators.rss.enabled {
            match &self.feed_context_builder {
                Some(feed_builder) => {
                    let posts = blog_posts(self.pages.as_slice());
                    if posts.len() > 0 {
                        let ps = posts.as_slice();
                        let bu = self.base_url.as_str();
                        let produced = generate_feed(&*self.renderer, &self.config, ps, bu, &**feed_builder);
                        let ghost pg = produced;
                        let w = match produced {
                            Ok(t) => self.write_generated(output_base, self.config.generators.rss.path.as_str(), t.as_str()),
                            Err(e) => Err(e),
                        };
                        proof {
                            assert(deref_pages(ps@) =~= blog_posts_of(self.pages@));
                            let built = choose|built: Result<Context, RawssgError>|
                                #[trigger] feed_builder.builds_feed(self.config, deref_pages(ps@), bu@, built)
                                && match built {
                                    Err(e) => pg == Err::<String, RawssgError>(e),
                                    Ok(ctx) => self.renderer.renders(self.config.generators.rss.template@, ctx@, pg),
                                };
                            assert(self.feed_produced(built, pg));
                            assert(output_generated(base, self.config.generators.rss.path@, pg, w));
                            assert(self.feed_outcome(base, w));
                            feed = w;
                        }
                        match w {
                            Ok(()) => {},
                            Err(e) => {
                                let r = Err(e);
                                assert(self.feeds_written(base, feed, okr, r));
                                return r;
                            },
                        }
                    }
                },
                None => {
                    let r = Err(RawssgError::Internal("RSS enabled but no feed context builder provided".to_owned()));
                    assert(self.feeds_written(base, okr, okr, r));
                    return r;
                },
            }
        }
        if self.config.generators.sitemap.enabled {
            match &self.sitemap_context_builder {
                Some(sitemap_builder) => {
                    let ps = self.pages.as_slice();
                    let bu = self.base_url.as_str();
                    let produced = generate_sitemap(&*self.renderer, &self.config, ps, bu, &**sitemap_builder);
                    let ghost pg = produced;
                    let w = match produced {
                        Ok(t) => self.write_generated(output_base, self.config.generators.sitemap.path.as_str(), t.as_str()),
                        Err(e) => Err(e),
                    };
                    proof {
                        let built = choose|built: Result<Context, RawssgError>|
                            #[trigger] sitemap_builder.builds_sitemap(self.config, ps@, bu@, built)
                            && match built {
                                Err(e) => pg == Err::<String, RawssgError>(e),
                                Ok(ctx) => self.renderer.renders(self.config.generators.sitemap.template@, ctx@, pg),
                            };
                        assert(self.sitemap_produced(built, pg));
                        assert(output_generated(base, self.config.generators.sitemap.path@, pg, w));
                        assert(self.sitemap_outcome(base, w));
                    }
                    assert(self.feeds_written(base, feed, w, w));
                    return w;
                },
                None => {
                    let r = Err(RawssgError::Internal(
                        "Sitemap enabled but no sitemap context builder provided".to_owned(),
                    ));
                    assert(self.feeds_written(base, feed, okr, r));
                    return r;
                },
            }
        }
        let r = Ok(());
        assert(self.feeds_written(base, feed, okr, r));
        r
    }

    /// Renders `page` with its template and `ctx`, and writes the result at
    /// its URL under `output_base`.
    fn write_page(&self, output_base: &str, page: &PageContext, ctx: &Context) -> (r: Result<(), RawssgError>)
        requires
            page_context_holds(ctx@, self.config_view().site, self.base_url_view(), *page),
            list_context_holds(ctx@, *page),
        ensures
            page_write_outcome(*self, output_base@, *page, r),
    {
        let template = template_for_page(&self.config.content_types, page);
        let rendered = self.renderer.render(template.as_str(), ctx);
        let ghost rg = rendered;
        let html = match rendered {
            Ok(h) => h,
            Err(e) => {
                let r = Err(e);
                assert(page_written(output_base@, *page, rg, r));
                assert(self.page_rendered(output_base@, *page, ctx@, rg, r));
                return r;
            },
        };
        let r = self.write_generated(output_base, page.url.as_str(), html.as_str());
        assert(page_written(output_base@, *page, rg, r));
        assert(self.page_rendered(output_base@, *page, ctx@, rg, r));
        r
    }

    /// Writes `text` at `path` under `output_base`, creating its directory
    /// first; the path is kept inside the base.
    fn write_generated(&self, output_base: &str, path: &str, text: &str) -> (r: Result<(), RawssgError>)
        ensures
            exists|resolved: Result<String, RawssgError>, made: IoResult<()>, wrote: IoResult<()>|
                #[trigger] generated_at(output_base@, path@, resolved, made, wrote, r),
            r matches Err(e) ==> (e is Io || e is PathTraversal),
    {
        let ghost ok: IoResult<()> = Ok(());
        let resolved = safe_path(&*self.fs, output_base, path);
        let ghost rg = resolved;
        let out_path = match resolved {
            Ok(p) => p,
            Err(e) => {
                let r = Err(e);
                assert(generated_at(output_base@, path@, rg, ok, ok, r));
                return r;
            },
        };
        let mut made: IoResult<()> = Ok(());
        match parent(out_path.as_str()) {
            Some(dir) => {
                made = self.fs.create_dir_all(dir.as_str());
            },
            None => {},
        }
        let ghost mg = made;
        match made {
            Ok(()) => {},
            Err(e) => {
                let r = Err(RawssgError::Io(e.message));
                assert(generated_at(output_base@, path@, rg, mg, ok, r));
                return r;
            },
        }
        let wrote = self.fs.write(out_path.as_str(), text.as_bytes());
        let ghost wg = wrote;
        let r = match wrote {
            Ok(()) => Ok(()),
            Err(e) => Err(RawssgError::Io(e.message)),
        };
        assert(generated_at(output_base@, path@, rg, mg, wg, r));
        r
    }

    /// The resolved form of `path` where it exists; `None` where it does
    /// not; an error where it cannot be reached for another reason.
    fn try_canonicalize_or_skip(&self, path: &str) -> (r: Result<Option<String>, RawssgError>)
        ensures
            r matches Err(e) ==> (e matches RawssgError::SiteGeneration(m)
                && has_prefix_text(m@, "Cannot access directory '"@)),
    {
        match self.fs.canonicalize(path) {
            Ok(p) => {
                if self.fs.path_exists(p.as_str()) {
                    Ok(Some(p))
                } else {
                    Ok(None)
                }
            },
            Err(e) => {
                if e.kind == IoErrorKind::NotFound {
                    Ok(None)
                } else {
                    let head = concat3("Cannot access directory '", path, "': ");
                    let m = concat2(head.as_str(), e.message.as_str());
                    assert(m@.subrange(0, "Cannot access directory '"@.len() as int) =~= "Cannot access directory '"@);
                    Err(RawssgError::SiteGeneration(m))
                }
            },
        }
    }

    /// Copies every file under `static_dir` to the same relative path under
    /// `output_base`.
    fn copy_static_assets(&self, static_dir: &str, output_base: &str) -> (r: Result<(), RawssgError>)
        ensures
            files_copy_outcome(static_dir@, output_base@, false, r),
            r matches Err(e) ==> (e is Io || e is PathTraversal
                || (e matches RawssgError::SiteGeneration(m) && m@ == "prefix not found"@)),
    {
        copy_files(&*self.fs, static_dir, output_base, false)
    }

    /// Copies every file under `content_dir` that is not Markdown to the
    /// same relative path under `output_base`.
    fn copy_content_assets(&self, content_dir: &str, output_base: &str) -> (r: Result<(), RawssgError>)
        ensures
            exists|present: bool| #[trigger] content_copied(present, content_dir@, output_base@, r),
            r matches Err(e) ==> (e is Io || e is PathTraversal
                || (e matches RawssgError::SiteGeneration(m) && m@ == "prefix not found"@)),
    {
        if !self.fs.path_exists(content_dir) {
            let r = Ok(());
            assert(content_copied(false, content_dir@, output_base@, r));
            return r;
        }
        let r = copy_files(&*self.fs, content_dir, output_base, true);
        assert(content_copied(true, content_dir@, output_base@, r));
        r
    }
}

/// Whether `s` begins with `p`.
pub open spec fn has_prefix_text(s: Seq<char>, p: Seq<char>) -> bool {
    p.len() <= s.len() && s.subrange(0, p.len() as int) == p
}

/// Whether `path` names a Markdown file (its extension is `md`).
pub fn is_markdown(path: &str) -> (r: bool)
    ensures
        r == (extension_of(path@) == Some("md"@)),
{
    match extension(path) {
        Some(e) => text_eq(e.as_str(), "md"),
        None => false,
    }
}

/// What copying does with one walked entry: leave it out, copy it to its
/// path relative to the walked directory, or stop because it lies outside
/// that directory.
pub enum CopyStep {
    Skip,
    Copy { entry: String, rel: String },
    Outside,
}

/// Whether `step` is what copying does with the walked entry `entry` of
/// `from`: with `skip_markdown`, a Markdown file is left out; an entry
/// outside `from` stops the copy; any other entry is copied to its path
/// relative to `from`.
pub open spec fn copy_step_for(entry: Seq<char>, from: Seq<char>, skip_markdown: bool, step: CopyStep) -> bool {
    if skip_markdown && extension_of(entry) == Some("md"@) {
        step is Skip
    } else {
        match strip_prefix_of(entry, from) {
            None => step is Outside,
            Some(rel) => step matches CopyStep::Copy { entry: e, rel: r } && e@ == entry && r@ == rel,
        }
    }
}

/// Whether `steps` is what copying does with each of the walked `entries`,
/// in order.
pub open spec fn copy_plan_for(entries: Seq<Seq<char>>, from: Seq<char>, skip_markdown: bool, steps: Seq<CopyStep>) -> bool {
    &&& steps.len() == entries.len()
    &&& forall|i: int| 0 <= i < entries.len() ==> #[trigger] copy_step_for(entries[i], from, skip_markdown, steps[i])
}

/// What copying the walked `entries` of `from` does with each: Markdown
/// files are left out where `skip_markdown` asks for it, entries outside
/// `from` are marked, and every other entry is copied to its path relative
/// to `from`.
pub fn copy_plan(entries: &Vec<String>, from: &str, skip_markdown: bool) -> (r: Vec<CopyStep>)
    ensures
        copy_plan_for(texts(entries@), from@, skip_markdown, r@),
{
    let ghost ev = texts(entries@);
    let mut steps: Vec<CopyStep> = Vec::new();
    let mut i: usize = 0;
    while i < entries.len()
        invariant
            i <= entries.len(),
            ev == texts(entries@),
            steps.len() == i,
            forall|k: int| 0 <= k < i ==> #[trigger] copy_step_for(ev[k], from@, skip_markdown, steps@[k]),
        decreases entries.len() - i,
    {
        let entry = entries[i].as_str();
        assert(ev[i as int] == entry@);
        let step = if skip_markdown && is_markdown(entry) {
            CopyStep::Skip
        } else {
            match strip_prefix(entry, from) {
                Some(rel) => CopyStep::Copy { entry: entry.to_owned(), rel },
                None => CopyStep::Outside,
            }
        };
        let ghost before = steps@;
        steps.push(step);
        assert forall|k: int| 0 <= k < i + 1 implies #[trigger] copy_step_for(ev[k], from@, skip_markdown, steps@[k]) by {
            if k < i {
                assert(steps@[k] == before[k]);
            }
        }
        i = i + 1;
    }
    steps
}

/// A plan that leaves out Markdown has no copy step for a Markdown file, and
/// copies every other entry under `from` to its path relative to `from`.
pub proof fn lemma_copy_plan_leaves_out_markdown(entries: Seq<Seq<char>>, from: Seq<char>, steps: Seq<CopyStep>)
    requires
        copy_plan_for(entries, from, true, steps),
    ensures
        forall|i: int| 0 <= i < entries.len() && extension_of(entries[i]) == Some("md"@) ==> (#[trigger] steps[i]) is Skip,
        forall|i: int| 0 <= i < entries.len() && extension_of(entries[i]) != Some("md"@)
            && strip_prefix_of(entries[i], from) is Some ==> (#[trigger] steps[i] matches CopyStep::Copy { entry: e, rel: r }
                && e@ == entries[i] && Some(r@) == strip_prefix_of(entries[i], from)),
{
    assert forall|i: int| 0 <= i < entries.len() && extension_of(entries[i]) == Some("md"@) implies (#[trigger] steps[i]) is Skip by {
        assert(copy_step_for(entries[i], from, true, steps[i]));
    }
    assert forall|i: int| 0 <= i < entries.len() && extension_of(entries[i]) != Some("md"@)
        && strip_prefix_of(entries[i], from) is Some implies (#[trigger] steps[i] matches CopyStep::Copy { entry: e, rel: r }
            && e@ == entries[i] && Some(r@) == strip_prefix_of(entries[i], from)) by {
        assert(copy_step_for(entries[i], from, true, steps[i]));
    }
}

/// Whether `r` is what copying one file to its path `rel` under `base`
/// gives, given what [`safe_path`] gave for it (under some answer for the
/// base), what creating the directory of the resolved path answered (`Ok`
/// where it has none) and what copying the file there answered.
pub open spec fn file_copied_at(
    base: Seq<char>,
    rel: Seq<char>,
    resolved: Result<String, RawssgError>,
    made: IoResult<()>,
    copied: IoResult<u64>,
    r: Result<(), RawssgError>,
) -> bool {
    &&& exists|ba: IoResult<String>| #[trigger] resolved_after_base(base, rel, ba, resolved)
    &&& match resolved {
        Err(e) => r == Err::<(), RawssgError>(e),
        Ok(_) => match made {
            Err(e) => r matches Err(RawssgError::Io(m)) && m@ == e.message@,
            Ok(()) => match copied {
                Err(e) => r matches Err(RawssgError::Io(m)) && m@ == e.message@,
                Ok(_) => r is Ok,
            },
        },
    }
}

/// Whether `r` is what copying one file to `rel` under `base` gives for
/// some answers of the file system.
pub open spec fn copy_outcome(base: Seq<char>, rel: Seq<char>, r: Result<(), RawssgError>) -> bool {
    exists|resolved: Result<String, RawssgError>, made: IoResult<()>, copied: IoResult<u64>|
        #[trigger] file_copied_at(base, rel, resolved, made, copied, r)
}

/// Whether `r` is what carrying out `steps` from position `k` on gives,
/// given what each copy answered (`answers`, by position, each as
/// [`copy_outcome`] describes): skipped entries are passed over, an entry
/// outside the walked directory stops with the "prefix not found" error, a
/// failed copy stops with its error; once every step is done, `Ok`.
pub open spec fn steps_copied(base: Seq<char>, steps: Seq<CopyStep>, answers: Seq<Result<(), RawssgError>>, k: int,
    r: Result<(), RawssgError>) -> bool
    decreases steps.len() - k,
{
    if k < 0 || k >= steps.len() {
        r is Ok
    } else {
        match steps[k] {
            CopyStep::Skip => steps_copied(base, steps, answers, k + 1, r),
            CopyStep::Outside => r matches Err(RawssgError::SiteGeneration(m)) && m@ == "prefix not found"@,
            CopyStep::Copy { entry: _, rel } => {
                &&& copy_outcome(base, rel@, answers[k])
                &&& match answers[k] {
                    Err(e) => r == Err::<(), RawssgError>(e),
                    Ok(()) => steps_copied(base, steps, answers, k + 1, r),
                }
            },
        }
    }
}

/// Whether the step at `j` went through: it is skipped, or its copy
/// answered `Ok` as [`copy_outcome`] describes.
pub open spec fn copy_step_ok(base: Seq<char>, steps: Seq<CopyStep>, answers: Seq<Result<(), RawssgError>>, j: int) -> bool {
    match steps[j] {
        CopyStep::Skip => true,
        CopyStep::Outside => false,
        CopyStep::Copy { entry: _, rel } => answers[j] is Ok && copy_outcome(base, rel@, answers[j]),
    }
}

/// Steps that went through are passed over.
proof fn lemma_steps_prefix(base: Seq<char>, steps: Seq<CopyStep>, answers: Seq<Result<(), RawssgError>>, k: int,
    n: int, r: Result<(), RawssgError>)
    requires
        0 <= k <= n <= steps.len(),
        forall|j: int| k <= j < n ==> #[trigger] copy_step_ok(base, steps, answers, j),
        steps_copied(base, steps, answers, n, r),
    ensures
        steps_copied(base, steps, answers, k, r),
    decreases n - k,
{
    if k < n {
        lemma_steps_prefix(base, steps, answers, k + 1, n, r);
        assert(copy_step_ok(base, steps, answers, k));
    }
}

/// Whether `r` is what [`copy_files`] gives for `from` under `base`, given
/// what walking `from` answered and what each copy answered: a failed walk
/// is an I/O error; otherwise the steps of [`copy_plan`] for the walked
/// entries are carried out as [`steps_copied`] describes.
pub open spec fn files_copied(from: Seq<char>, base: Seq<char>, skip_markdown: bool, walk: IoResult<Vec<String>>,
    answers: Seq<Result<(), RawssgError>>, r: Result<(), RawssgError>) -> bool {
    match walk {
        Err(e) => r matches Err(RawssgError::Io(m)) && m@ == e.message@,
        Ok(entries) => exists|steps: Seq<CopyStep>|
            #[trigger] copy_plan_for(texts(entries@), from, skip_markdown, steps) && steps_copied(base, steps, answers, 0, r),
    }
}

proof fn lemma_files_copied(from: Seq<char>, base: Seq<char>, skip_markdown: bool, walk: IoResult<Vec<String>>,
    entries: Vec<String>, steps: Seq<CopyStep>, answers: Seq<Result<(), RawssgError>>, r: Result<(), RawssgError>)
    requires
        walk == Ok::<Vec<String>, IoError>(entries),
        copy_plan_for(texts(entries@), from, skip_markdown, steps),
        steps_copied(base, steps, answers, 0, r),
    ensures
        files_copied(from, base, skip_markdown, walk, answers, r),
{
    let en = walk->Ok_0;
    assert(en == entries);
    assert(copy_plan_for(texts(en@), from, skip_markdown, steps));
}

/// A copy that ended well carried out every step: no entry lay outside the
/// walked directory, and every planned copy answered `Ok`.
proof fn lemma_steps_all_ok(base: Seq<char>, steps: Seq<CopyStep>, answers: Seq<Result<(), RawssgError>>, k: int,
    r: Result<(), RawssgError>)
    requires
        0 <= k,
        steps_copied(base, steps, answers, k, r),
        r is Ok,
    ensures
        forall|j: int| k <= j < steps.len() ==> #[trigger] copy_step_ok(base, steps, answers, j),
    decreases steps.len() - k,
{
    if k < steps.len() {
        lemma_steps_all_ok(base, steps, answers, k + 1, r);
    }
}

/// After a copy that ended well, every walked entry that is not Markdown
/// (where Markdown is left out) was copied to its path relative to the
/// walked directory under `base` (the copy there answered `Ok`); Markdown
/// files have no copy step ([`lemma_copy_plan_leaves_out_markdown`]).
pub proof fn lemma_successful_copy_covers_entries(from: Seq<char>, base: Seq<char>, skip_markdown: bool,
    walk: IoResult<Vec<String>>, answers: Seq<Result<(), RawssgError>>)
    requires
        files_copied(from, base, skip_markdown, walk, answers, Ok(())),
    ensures
        walk is Ok,
        forall|i: int| 0 <= i < walk->Ok_0@.len() ==> {
            let entry = #[trigger] walk->Ok_0@[i]@;
            if skip_markdown && extension_of(entry) == Some("md"@) {
                true
            } else {
                strip_prefix_of(entry, from) matches Some(rel)
                    && answers[i] is Ok && copy_outcome(base, rel, answers[i])
            }
        },
{
    let entries = walk->Ok_0;
    let steps = choose|steps: Seq<CopyStep>|
        #[trigger] copy_plan_for(texts(entries@), from, skip_markdown, steps) && steps_copied(base, steps, answers, 0, Ok(()));
    lemma_steps_all_ok(base, steps, answers, 0, Ok(()));
    assert forall|i: int| 0 <= i < entries@.len() implies {
        let entry = #[trigger] entries@[i]@;
        if skip_markdown && extension_of(entry) == Some("md"@) {
            true
        } else {
            strip_prefix_of(entry, from) matches Some(rel)
                && answers[i] is Ok && copy_outcome(base, rel, answers[i])
        }
    } by {
        assert(texts(entries@)[i] == entries@[i]@);
        assert(copy_step_for(texts(entries@)[i], from, skip_markdown, steps[i]));
        assert(copy_step_ok(base, steps, answers, i));
    }
}

/// Whether `r` is what [`copy_files`] gives for some answers of the file
/// system.
pub open spec fn files_copy_outcome(from: Seq<char>, base: Seq<char>, skip_markdown: bool, r: Result<(), RawssgError>) -> bool {
    exists|walk: IoResult<Vec<String>>, answers: Seq<Result<(), RawssgError>>|
        #[trigger] files_copied(from, base, skip_markdown, walk, answers, r)
}

/// Copies one file to its path `rel` under `output_base` (kept inside it),
/// creating its directory first.
fn copy_one(fs: &dyn FileSystem, entry: &str, rel: &str, output_base: &str) -> (r: Result<(), RawssgError>)
    ensures
        copy_outcome(output_base@, rel@, r),
{
    let ghost ok: IoResult<()> = Ok(());
    let ghost okc: IoResult<u64> = Ok(0);
    let resolved = safe_path(fs, output_base, rel);
    let ghost rg = resolved;
    let dest = match resolved {
        Ok(d) => d,
        Err(e) => {
            let r = Err(e);
            assert(file_copied_at(output_base@, rel@, rg, ok, okc, r));
            return r;
        },
    };
    let mut made: IoResult<()> = Ok(());
    match parent(dest.as_str()) {
        Some(dir) => {
            made = fs.create_dir_all(dir.as_str());
        },
        None => {},
    }
    let ghost mg = made;
    match made {
        Ok(()) => {},
        Err(e) => {
            let r = Err(RawssgError::Io(e.message));
            assert(file_copied_at(output_base@, rel@, rg, mg, okc, r));
            return r;
        },
    }
    let copied = fs.copy_file(entry, dest.as_str());
    let ghost cg = copied;
    let r = match copied {
        Ok(_) => Ok(()),
        Err(e) => Err(RawssgError::Io(e.message)),
    };
    assert(file_copied_at(output_base@, rel@, rg, mg, cg, r));
    r
}

/// Copies each file that the walk of `from` finds to its path relative to
/// `from` under `output_base` (kept inside it), creating directories first;
/// with `skip_markdown`, Markdown files are left out.
fn copy_files(fs: &dyn FileSystem, from: &str, output_base: &str, skip_markdown: bool) -> (r: Result<(), RawssgError>)
    ensures
        files_copy_outcome(from@, output_base@, skip_markdown, r),
        r matches Err(e) ==> (e is Io || e is PathTraversal
            || (e matches RawssgError::SiteGeneration(m) && m@ == "prefix not found"@)),
{
    let ghost none: Seq<Result<(), RawssgError>> = Seq::empty();
    let walk = fs.walk_dir(from);
    let ghost wg = walk;
    let entries = match walk {
        Ok(v) => v,
        Err(e) => {
            let r = Err(RawssgError::Io(e.message));
            assert(files_copied(from@, output_base@, skip_markdown, wg, none, r));
            return r;
        },
    };
    let steps = copy_plan(&entries, from, skip_markdown);
    let ghost sv = steps@;
    let ghost okr: Result<(), RawssgError> = Ok(());
    let ghost mut answers: Seq<Result<(), RawssgError>> = Seq::new(steps.len() as nat, |j: int| okr);
    let mut i: usize = 0;
    while i < steps.len()
        invariant
            i <= steps.len(),
            sv == steps@,
            wg == Ok::<Vec<String>, IoError>(entries),
            copy_plan_for(texts(entries@), from@, skip_markdown, sv),
            answers.len() == steps.len(),
            forall|j: int| 0 <= j < i ==> #[trigger] copy_step_ok(output_base@, sv, answers, j),
        decreases steps.len() - i,
    {
        match &steps[i] {
            CopyStep::Skip => {
                assert(copy_step_ok(output_base@, sv, answers, i as int));
            },
            CopyStep::Outside => {
                let r = Err(RawssgError::SiteGeneration("prefix not found".to_owned()));
                proof {
                    assert(steps_copied(output_base@, sv, answers, i as int, r));
                    lemma_steps_prefix(output_base@, sv, answers, 0, i as int, r);
                    lemma_files_copied(from@, output_base@, skip_markdown, wg, entries, sv, answers, r);
                }
                return r;
            },
            CopyStep::Copy { entry, rel } => {
                let a = copy_one(fs, entry.as_str(), rel.as_str(), output_base);
                let ghost prev = answers;
                proof { answers = answers.update(i as int, a); }
                assert forall|j: int| 0 <= j < i implies #[trigger] copy_step_ok(output_base@, sv, answers, j) by {
                    assert(answers[j] == prev[j]);
                    assert(copy_step_ok(output_base@, sv, prev, j));
                }
                match a {
                    Ok(()) => {
                        assert(copy_step_ok(output_base@, sv, answers, i as int));
                    },
                    Err(e) => {
                        let r = Err(e);
                        proof {
                            assert(steps_copied(output_base@, sv, answers, i as int, r));
                            lemma_steps_prefix(output_base@, sv, answers, 0, i as int, r);
                            lemma_files_copied(from@, output_base@, skip_markdown, wg, entries, sv, answers, r);
                        }
                        return r;
                    },
                }
            },
        }
        i = i + 1;
    }
    let r = Ok(());
    proof {
        lemma_steps_prefix(output_base@, sv, answers, 0, sv.len() as int, r);
        assert(files_copied(from@, output_base@, skip_markdown, wg, answers, r));
    }
    r
}

/// Whether `r` is what placing the walked `entries` from position `k` on
/// gives, given what placing each answered (`answers`, by position): each
/// entry goes to [`copy_destination_of`] the entry, where a directory is
/// created or a file copied (after its parent directory is created); an
/// entry outside `from` stops with the "prefix not found" error, a failure
/// stops with its error; after the last entry, `Ok`.
pub open spec fn tree_entries_placed(from: Seq<char>, to: Seq<char>, entries: Seq<Seq<char>>,
    answers: Seq<Result<(), RawssgError>>, k: int, r: Result<(), RawssgError>) -> bool
    decreases entries.len() - k,
{
    if k < 0 || k >= entries.len() {
        r is Ok
    } else {
        match copy_destination_of(entries[k], from, to) {
            None => r matches Err(RawssgError::SiteGeneration(m)) && m@ == "prefix not found"@,
            Some(_) => match answers[k] {
                Err(e) => r == Err::<(), RawssgError>(e) && (e is Io),
                Ok(()) => tree_entries_placed(from, to, entries, answers, k + 1, r),
            },
        }
    }
}

/// Whether the entry at `j` was placed: it lies under `from` and placing it
/// answered `Ok`.
pub open spec fn tree_entry_ok(from: Seq<char>, to: Seq<char>, entries: Seq<Seq<char>>,
    answers: Seq<Result<(), RawssgError>>, j: int) -> bool {
    copy_destination_of(entries[j], from, to) is Some && answers[j] is Ok
}

proof fn lemma_tree_prefix(from: Seq<char>, to: Seq<char>, entries: Seq<Seq<char>>,
    answers: Seq<Result<(), RawssgError>>, k: int, n: int, r: Result<(), RawssgError>)
    requires
        0 <= k <= n <= entries.len(),
        forall|j: int| k <= j < n ==> #[trigger] tree_entry_ok(from, to, entries, answers, j),
        tree_entries_placed(from, to, entries, answers, n, r),
    ensures
        tree_entries_placed(from, to, entries, answers, k, r),
    decreases n - k,
{
    if k < n {
        lemma_tree_prefix(from, to, entries, answers, k + 1, n, r);
        assert(tree_entry_ok(from, to, entries, answers, k));
    }
}

/// Whether `r` is what [`copy_tree_within`] gives, given what creating
/// `to` answered, what walking `from` answered and what placing each entry
/// answered ([`tree_entries_placed`]).
pub open spec fn tree_copied(from: Seq<char>, to: Seq<char>, made: IoResult<()>, walk: IoResult<Vec<String>>,
    answers: Seq<Result<(), RawssgError>>, r: Result<(), RawssgError>) -> bool {
    match made {
        Err(e) => r matches Err(RawssgError::Io(m)) && m@ == e.message@,
        Ok(()) => match walk {
            Err(e) => r matches Err(RawssgError::Io(m)) && m@ == e.message@,
            Ok(entries) => tree_entries_placed(from, to, texts(entries@), answers, 0, r),
        },
    }
}

/// Copies the tree under `from` to `to` through `fs`: each entry that the
/// walk finds is placed at its path relative to `from` under `to`;
/// directories are created and files copied (after their parent directory
/// is created).
pub fn copy_tree_within(fs: &dyn FileSystem, from: &str, to: &str) -> (r: Result<(), RawssgError>)
    ensures
        exists|made: IoResult<()>, walk: IoResult<Vec<String>>, answers: Seq<Result<(), RawssgError>>|
            #[trigger] tree_copied(from@, to@, made, walk, answers, r),
        r matches Err(e) ==> (e is Io || (e matches RawssgError::SiteGeneration(m) && m@ == "prefix not found"@)),
{
    let ghost okw: IoResult<Vec<String>> = vstd::pervasive::arbitrary();
    let ghost none: Seq<Result<(), RawssgError>> = Seq::empty();
    let made = fs.create_dir_all(to);
    let ghost mg = made;
    match made {
        Ok(()) => {},
        Err(e) => {
            let r = Err(RawssgError::Io(e.message));
            assert(tree_copied(from@, to@, mg, okw, none, r));
            return r;
        },
    }
    let walk = fs.walk_dir(from);
    let ghost wg = walk;
    let entries = match walk {
        Ok(v) => v,
        Err(e) => {
            let r = Err(RawssgError::Io(e.message));
            assert(tree_copied(from@, to@, mg, wg, none, r));
            return r;
        },
    };
    let ghost ev = texts(entries@);
    let ghost okr: Result<(), RawssgError> = Ok(());
    let ghost mut answers: Seq<Result<(), RawssgError>> = Seq::new(entries.len() as nat, |j: int| okr);
    let mut i: usize = 0;
    while i < entries.len()
        invariant
            i <= entries.len(),
            ev == texts(entries@),
            mg is Ok,
            wg == Ok::<Vec<String>, IoError>(entries),
            answers.len() == entries.len(),
            forall|j: int| 0 <= j < i ==> #[trigger] tree_entry_ok(from@, to@, ev, answers, j),
        decreases entries.len() - i,
    {
        let entry = entries[i].as_str();
        assert(ev[i as int] == entry@);
        let dest = match copy_destination(entry, from, to) {
            Some(d) => d,
            None => {
                let r = Err(RawssgError::SiteGeneration("prefix not found".to_owned()));
                proof {
                    assert(tree_entries_placed(from@, to@, ev, answers, i as int, r));
                    lemma_tree_prefix(from@, to@, ev, answers, 0, i as int, r);
                    assert(tree_copied(from@, to@, mg, wg, answers, r));
                }
                return r;
            },
        };
        let a = place_entry(fs, entry, dest.as_str());
        let ghost prev = answers;
        proof { answers = answers.update(i as int, a); }
        assert forall|j: int| 0 <= j < i implies #[trigger] tree_entry_ok(from@, to@, ev, answers, j) by {
            assert(answers[j] == prev[j]);
            assert(tree_entry_ok(from@, to@, ev, prev, j));
        }
        match a {
            Ok(()) => {
                assert(tree_entry_ok(from@, to@, ev, answers, i as int));
            },
            Err(e) => {
                let r = Err(e);
                proof {
                    assert(tree_entries_placed(from@, to@, ev, answers, i as int, r));
                    lemma_tree_prefix(from@, to@, ev, answers, 0, i as int, r);
                    assert(tree_copied(from@, to@, mg, wg, answers, r));
                }
                return r;
            },
        }
        i = i + 1;
    }
    let r = Ok(());
    proof {
        lemma_tree_prefix(from@, to@, ev, answers, 0, ev.len() as int, r);
        assert(tree_copied(from@, to@, mg, wg, answers, r));
    }
    r
}

/// Places the walked `entry` at `dest`: a directory is created there; a
/// file is copied there after its parent directory is created.
fn place_entry(fs: &dyn FileSystem, entry: &str, dest: &str) -> (r: Result<(), RawssgError>)
    ensures
        r matches Err(e) ==> e is Io,
{
    if fs.is_dir(entry) {
        match fs.create_dir_all(dest) {
            Ok(()) => Ok(()),
            Err(e) => Err(RawssgError::Io(e.message)),
        }
    } else {
        match parent(dest) {
            Some(dir) => match fs.create_dir_all(dir.as_str()) {
                Ok(()) => {},
                Err(e) => return Err(RawssgError::Io(e.message)),
            },
            None => {},
        }
        match fs.copy_file(entry, dest) {
            Ok(_) => Ok(()),
            Err(e) => Err(RawssgError::Io(e.message)),
        }
    }
}

} // verus!
