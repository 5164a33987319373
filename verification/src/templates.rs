//! What a template is rendered with: a context of named values, and the
//! renderers that turn a template and a context into text.

use vstd::prelude::*;
use crate::config::SiteConfig;
use crate::date::Date;
use crate::error::{Result, RawssgError};
use crate::extra::KeyMap;
use crate::handler::Document;
use crate::types::{GlobalConfig, PageContext};
use crate::error::Error;
use crate::paths::{Component, PathComponent, comp_views, components, components_of};
use crate::text::{join_spec, string_from_chars};

verus! {

/// A value that a template can read.
#[derive(Debug)]
pub enum ContextValue {
    /// No value (an absent optional field).
    Null,
    Text(String),
    Number(usize),
    Flag(bool),
    Date(Date),
    Texts(Vec<String>),
    /// The site settings of a pipeline configuration.
    Site(SiteConfig),
    /// The site settings of a site builder configuration.
    Global(GlobalConfig),
    Documents(Vec<Document>),
    Pages(Vec<PageContext>),
}

/// The value an optional text stands for in a context.
pub open spec fn optional_text(t: Option<String>) -> ContextValue {
    match t {
        Some(s) => ContextValue::Text(s),
        None => ContextValue::Null,
    }
}

/// The named values a template is rendered with.
#[derive(Debug)]
pub struct RenderContext {
    values: KeyMap<ContextValue>,
}

impl View for RenderContext {
    type V = Map<Seq<char>, ContextValue>;

    closed spec fn view(&self) -> Map<Seq<char>, ContextValue> {
        self.values@
    }
}

impl RenderContext {
    /// A context without values.
    pub fn new() -> (c: Self)
        ensures
            c@ == Map::<Seq<char>, ContextValue>::empty(),
    {
        RenderContext { values: KeyMap::new() }
    }

    /// Sets the value of `key`, replacing the one it had.
    pub fn insert(&mut self, key: &str, value: ContextValue)
        ensures
            final(self)@ == old(self)@.insert(key@, value),
    {
        let _ = self.values.insert(key.to_owned(), value);
    }

    /// The value of `key`, if it has one.
    pub fn get(&self, key: &str) -> (r: Option<&ContextValue>)
        ensures
            match r {
                Some(v) => self@.contains_key(key@) && self@[key@] == *v,
                None => !self@.contains_key(key@),
            },
    {
        self.values.get(key)
    }

    /// Whether `key` has a value.
    pub fn contains_key(&self, key: &str) -> (r: bool)
        ensures
            r == self@.contains_key(key@),
    {
        self.values.get(key).is_some()
    }

    /// The keys, each once, in the order they were first set.
    pub fn keys(&self) -> (r: Vec<String>)
        ensures
            r.len() == self@.dom().len(),
            forall|i: int| 0 <= i < r.len() ==> self@.contains_key(#[trigger] r@[i]@),
            forall|k: Seq<char>| self@.contains_key(k) ==> exists|i: int| 0 <= i < r.len() && #[trigger] r@[i]@ == k,
    {
        self.values.keys()
    }

    /// The number of values.
    pub fn len(&self) -> (n: usize)
        ensures
            n == self@.dom().len(),
    {
        self.values.len()
    }
}

impl Default for RenderContext {
    fn default() -> (c: Self)
        ensures
            c@ == Map::<Seq<char>, ContextValue>::empty(),
    {
        RenderContext::new()
    }
}

/// The context a site builder renders its pages, feed and sitemap with.
pub type Context = RenderContext;

/// Renders a named template with a context; the pipeline's template
/// engine.
pub trait Renderer {
    open spec fn renders(&self, template_name: Seq<char>, context: Map<Seq<char>, ContextValue>, out: Result<String>) -> bool {
        true
    }

    fn render(&self, template_name: &str, context: &RenderContext) -> (r: Result<String>)
        ensures
            self.renders(template_name@, context@, r);
}

/// Renders a named template with a context; the site builder's template
/// engine.
pub trait TemplateRenderer {
    /// Whether `out` is an answer the engine may give for `template_name`
    /// and a context holding `context`; every answer, unless an engine
    /// says more.
    open spec fn renders(&self, template_name: Seq<char>, context: Map<Seq<char>, ContextValue>,
        out: core::result::Result<String, RawssgError>) -> bool {
        true
    }

    fn render(&self, template_name: &str, context: &Context) -> (r: core::result::Result<String, RawssgError>)
        ensures
            self.renders(template_name@, context@, r);
}

/// Whether every component is a name.
pub open spec fn all_named(comps: Seq<PathComponent>) -> bool {
    forall|i: int| 0 <= i < comps.len() ==> (#[trigger] comps[i]) is Normal
}

/// The names of components that are all names.
pub open spec fn names_of(comps: Seq<PathComponent>) -> Seq<Seq<char>> {
    comps.map_values(|c: PathComponent| c->Normal_0)
}

/// The name a template file at the relative path `rel` is registered
/// under: its components joined with `/`; an error message where a
/// component is not a name (a root, `.` or `..`) or there is none.
pub open spec fn template_name_of(rel: Seq<char>) -> core::result::Result<Seq<char>, Seq<char>> {
    if !all_named(components(rel)) {
        Err("unexpected path component in template path"@)
    } else if components(rel).len() == 0 {
        Err("empty template name"@)
    } else {
        Ok(join_spec(names_of(components(rel)), '/'))
    }
}

/// The name a template file at the relative path `rel` is registered
/// under.
pub fn rel_path_to_template_name(rel: &str) -> (r: Result<String>)
    ensures
        match template_name_of(rel@) {
            Ok(n) => r matches Ok(s) && s@ == n,
            Err(m) => r matches Err(Error::Render(s)) && s@ == m,
        },
{
    let comps = components_of(rel);
    let ghost cv = comp_views(comps@);
    let mut out: Vec<char> = Vec::new();
    let mut i: usize = 0;
    assert(names_of(cv.take(0)) =~= Seq::<Seq<char>>::empty());
    while i < comps.len()
        invariant
            i <= comps.len(),
            cv == comp_views(comps@),
            cv == components(rel@),
            all_named(cv.take(i as int)),
            out@ == join_spec(names_of(cv.take(i as int)), '/'),
        decreases comps.len() - i,
    {
        match &comps[i] {
            Component::Normal(n) => {
                assert(cv[i as int] == PathComponent::Normal(n@));
                let ghost before = out@;
                if i > 0 {
                    out.push('/');
                }
                let ghost mid = out@;
                let mut k: usize = 0;
                while k < n.len()
                    invariant
                        k <= n.len(),
                        out@ == mid + n@.take(k as int),
                    decreases n.len() - k,
                {
                    out.push(n[k]);
                    k = k + 1;
                    assert(out@ =~= mid + n@.take(k as int));
                }
                assert(n@.take(n.len() as int) =~= n@);
                let ghost names = names_of(cv.take(i + 1));
                assert(names.drop_last() =~= names_of(cv.take(i as int)));
                assert(names.last() == n@);
                assert(all_named(cv.take(i + 1)));
                if i == 0 {
                    assert(out@ =~= join_spec(names, '/'));
                } else {
                    assert(out@ =~= join_spec(names, '/'));
                }
            },
            _ => {
                proof {
                    assert(!(cv[i as int] is Normal));
                    assert(!all_named(cv));
                }
                return Err(Error::Render("unexpected path component in template path".to_owned()));
            },
        }
        i = i + 1;
    }
    assert(cv.take(comps.len() as int) =~= cv);
    if comps.len() == 0 {
        return Err(Error::Render("empty template name".to_owned()));
    }
    Ok(string_from_chars(&out))
}

} // verus!
