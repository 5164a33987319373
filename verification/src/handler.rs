//! Documents, their metadata, and the processors that turn content files
//! into documents.

use vstd::prelude::*;
use crate::date::Date;
use crate::text::{clone_text, clone_texts};
use crate::error::{Error, Result};
use crate::extra::{ExtraMap, KeyMap};
use crate::fs::FileSystem;
use crate::paths::{file_name, file_name_of};
use crate::text::{blank, is_blank};

verus! {

/// The front matter of a document: what it is called, who wrote it and
/// when, and free-form extra values.
#[derive(Debug, PartialEq)]
#[non_exhaustive]
pub struct Metadata {
    pub title: String,
    pub description: String,
    pub author: Option<String>,
    pub repo_url: Option<String>,
    pub license: Option<String>,
    pub date: Option<Date>,
    pub updated: Option<Date>,
    pub tags: Vec<String>,
    pub draft: bool,
    pub extra: ExtraMap,
}

/// Whether `a` holds what `b` holds, but for the values of the extra map,
/// of which only the keys are compared.
pub open spec fn same_metadata(a: Metadata, b: Metadata) -> bool {
    &&& a.title == b.title
    &&& a.description == b.description
    &&& a.author == b.author
    &&& a.repo_url == b.repo_url
    &&& a.license == b.license
    &&& a.date == b.date
    &&& a.updated == b.updated
    &&& a.tags@ == b.tags@
    &&& a.draft == b.draft
    &&& a.extra@.dom() == b.extra@.dom()
}

impl Clone for Metadata {
    fn clone(&self) -> (r: Self)
        ensures
            same_metadata(r, *self),
    {
        Metadata {
            title: self.title.clone(),
            description: self.description.clone(),
            author: clone_text(&self.author),
            repo_url: clone_text(&self.repo_url),
            license: clone_text(&self.license),
            date: self.date,
            updated: self.updated,
            tags: clone_texts(&self.tags),
            draft: self.draft,
            extra: self.extra.clone(),
        }
    }
}

impl Default for Metadata {
    fn default() -> (m: Self)
        ensures
            m.title@ == Seq::<char>::empty(),
            m.description@ == Seq::<char>::empty(),
            m.author is None,
            m.repo_url is None,
            m.license is None,
            m.date is None,
            m.updated is None,
            m.tags.len() == 0,
            !m.draft,
            m.extra@ == Map::<Seq<char>, serde_json::Value>::empty(),
    {
        Metadata {
            title: String::new(),
            description: String::new(),
            author: None,
            repo_url: None,
            license: None,
            date: None,
            updated: None,
            tags: Vec::new(),
            draft: false,
            extra: KeyMap::new(),
        }
    }
}

impl Metadata {
    /// Metadata with the given title and description and nothing else; a
    /// blank title is refused.
    pub fn new(title: &str, description: &str) -> (r: Result<Metadata>)
        ensures
            match r {
                Err(e) => is_blank(title@) && (e matches Error::Validation(m)
                    && m@ == "metadata title cannot be empty"@),
                Ok(md) => !is_blank(title@) && {
                    &&& md.title@ == title@
                    &&& md.description@ == description@
                    &&& md.author is None
                    &&& md.repo_url is None
                    &&& md.license is None
                    &&& md.date is None
                    &&& md.updated is None
                    &&& md.tags.len() == 0
                    &&& !md.draft
                    &&& md.extra@ == Map::<Seq<char>, serde_json::Value>::empty()
                },
            },
    {
        if blank(title) {
            return Err(Error::Validation("metadata title cannot be empty".to_owned()));
        }
        Ok(Metadata {
            title: title.to_owned(),
            description: description.to_owned(),
            author: None,
            repo_url: None,
            license: None,
            date: None,
            updated: None,
            tags: Vec::new(),
            draft: false,
            extra: KeyMap::new(),
        })
    }

    /// Whether the document is a draft.
    pub fn is_draft(&self) -> (r: bool)
        ensures
            r == self.draft,
    {
        self.draft
    }

    /// Sets the extra value of `key`, replacing the one it had.
    pub fn insert_extra(&mut self, key: &str, value: serde_json::Value)
        ensures
            final(self).extra@ == old(self).extra@.insert(key@, value),
            final(self).title == old(self).title,
            final(self).description == old(self).description,
            final(self).author == old(self).author,
            final(self).repo_url == old(self).repo_url,
            final(self).license == old(self).license,
            final(self).date == old(self).date,
            final(self).updated == old(self).updated,
            final(self).tags == old(self).tags,
            final(self).draft == old(self).draft,
    {
        let _ = self.extra.insert(key.to_owned(), value);
    }

    /// The extra value of `key`, if it has one.
    pub fn get_extra(&self, key: &str) -> (r: Option<&serde_json::Value>)
        ensures
            match r {
                Some(v) => self.extra@.contains_key(key@) && self.extra@[key@] == *v,
                None => !self.extra@.contains_key(key@),
            },
    {
        self.extra.get(key)
    }
}

/// Named lists of terms (categories, tags, series) by taxonomy.
pub type TaxonomyMap = KeyMap<Vec<String>>;

/// A piece of content ready to be rendered: its metadata, rendered body,
/// where it is served and written, and what kind of content it is. A list
/// document holds the documents it lists.
#[derive(Debug, PartialEq)]
pub struct Document {
    pub metadata: Metadata,
    pub body: String,
    pub url: String,
    pub output_path: String,
    pub source_path: String,
    pub depth: usize,
    pub content_type: String,
    pub is_list: bool,
    pub list_items: Option<Vec<Document>>,
    pub taxonomies: TaxonomyMap,
}

/// The deepest a document may sit below the content directory.
pub const MAX_DEPTH: usize = 1000;

/// Why a document with these values is refused, if it is: the first of an
/// empty URL, an empty output path, a source path without a file name and
/// a depth over [`MAX_DEPTH`].
pub open spec fn document_problem(url: Seq<char>, output_path: Seq<char>, source_path: Seq<char>, depth: int) -> Option<Seq<char>> {
    if url.len() == 0 {
        Some("document url cannot be empty"@)
    } else if output_path.len() == 0 {
        Some("document output_path cannot be empty"@)
    } else if file_name_of(source_path) is None {
        Some("document source_path must have a file name"@)
    } else if depth > MAX_DEPTH {
        Some("document depth is unreasonably large"@)
    } else {
        None
    }
}

/// Whether `a` and `b` agree on everything but the extra values of their
/// metadata, the terms of their taxonomies and the contents of the
/// documents they list (of which only the number is compared).
pub open spec fn same_document(a: Document, b: Document) -> bool {
    &&& same_metadata(a.metadata, b.metadata)
    &&& a.body == b.body
    &&& a.url == b.url
    &&& a.output_path == b.output_path
    &&& a.source_path == b.source_path
    &&& a.depth == b.depth
    &&& a.content_type == b.content_type
    &&& a.is_list == b.is_list
    &&& a.list_items is Some <==> b.list_items is Some
    &&& (a.list_items matches Some(x) ==> b.list_items matches Some(y) && x.len() == y.len())
    &&& a.taxonomies@.dom() == b.taxonomies@.dom()
}

/// The copy of a list of documents.
pub fn clone_documents(docs: &Vec<Document>) -> (r: Vec<Document>)
    ensures
        r.len() == docs.len(),
        forall|i: int| 0 <= i < docs.len() ==> #[trigger] same_document(r@[i], docs@[i]),
    decreases docs,
{
    let mut r: Vec<Document> = Vec::new();
    let mut i: usize = 0;
    while i < docs.len()
        invariant
            i <= docs.len(),
            r.len() == i,
            forall|j: int| 0 <= j < i ==> #[trigger] same_document(r@[j], docs@[j]),
        decreases docs.len() - i,
    {
        assert(decreases_to!(docs => docs@[i as int]));
        let d = clone_document(&docs[i]);
        r.push(d);
        i = i + 1;
    }
    r
}

/// The copy of a document and the documents it lists.
fn clone_document(doc: &Document) -> (r: Document)
    ensures
        same_document(r, *doc),
    decreases doc,
{
    let list_items = match &doc.list_items {
        Some(items) => {
            assert(decreases_to!(doc => doc.list_items));
            Some(clone_documents(items))
        },
        None => None,
    };
    Document {
        metadata: doc.metadata.clone(),
        body: doc.body.clone(),
        url: doc.url.clone(),
        output_path: doc.output_path.clone(),
        source_path: doc.source_path.clone(),
        depth: doc.depth,
        content_type: doc.content_type.clone(),
        is_list: doc.is_list,
        list_items,
        taxonomies: doc.taxonomies.clone(),
    }
}

impl Clone for Document {
    fn clone(&self) -> (r: Self)
        ensures
            same_document(r, *self),
    {
        clone_document(self)
    }
}

impl Document {
    /// A document with the given parts, no taxonomies and nothing listed;
    /// refused with the message of [`document_problem`] when there is one.
    pub fn new(
        metadata: Metadata,
        body: &str,
        url: &str,
        output_path: &str,
        source_path: &str,
        depth: usize,
        content_type: &str,
        is_list: bool,
    ) -> (r: Result<Document>)
        ensures
            match document_problem(url@, output_path@, source_path@, depth as int) {
                Some(p) => r matches Err(Error::Validation(m)) && m@ == p,
                None => r matches Ok(d) && {
                    &&& d.metadata == metadata
                    &&& d.body@ == body@
                    &&& d.url@ == url@
                    &&& d.output_path@ == output_path@
                    &&& d.source_path@ == source_path@
                    &&& d.depth == depth
                    &&& d.content_type@ == content_type@
                    &&& d.is_list == is_list
                    &&& d.list_items is None
                    &&& d.taxonomies@ == Map::<Seq<char>, Vec<String>>::empty()
                },
            },
    {
        if url.is_empty() {
            return Err(Error::Validation("document url cannot be empty".to_owned()));
        }
        if output_path.is_empty() {
            return Err(Error::Validation("document output_path cannot be empty".to_owned()));
        }
        if file_name(source_path).is_none() {
            return Err(Error::Validation("document source_path must have a file name".to_owned()));
        }
        if depth > MAX_DEPTH {
            return Err(Error::Validation("document depth is unreasonably large".to_owned()));
        }
        Ok(Document {
            metadata,
            body: body.to_owned(),
            url: url.to_owned(),
            output_path: output_path.to_owned(),
            source_path: source_path.to_owned(),
            depth,
            content_type: content_type.to_owned(),
            is_list,
            list_items: None,
            taxonomies: KeyMap::new(),
        })
    }

    /// The URL of the document, relative to the site root.
    pub fn relative_url(&self) -> (r: &str)
        ensures
            r@ == self.url@,
    {
        self.url.as_str()
    }

    /// How many directories deep the document sits.
    pub fn depth(&self) -> (r: usize)
        ensures
            r == self.depth,
    {
        self.depth
    }

    /// Sets the terms of taxonomy `name`, replacing those it had.
    pub fn add_taxonomy(&mut self, name: &str, terms: Vec<String>)
        ensures
            final(self).taxonomies@ == old(self).taxonomies@.insert(name@, terms),
            final(self).metadata == old(self).metadata,
            final(self).body == old(self).body,
            final(self).url == old(self).url,
            final(self).output_path == old(self).output_path,
            final(self).source_path == old(self).source_path,
            final(self).depth == old(self).depth,
            final(self).content_type == old(self).content_type,
            final(self).is_list == old(self).is_list,
            final(self).list_items == old(self).list_items,
    {
        let _ = self.taxonomies.insert(name.to_owned(), terms);
    }
}

/// Turns content files into documents. The pipeline asks each processor in
/// turn whether it takes a file, and the first that does makes the
/// document (or decides that the file yields none).
pub trait Processor {
    /// A name for the processor.
    fn name(&self) -> &str;

    /// The priority of the processor; 0 unless it says otherwise.
    fn priority(&self) -> (r: i32)
        default_ensures
            r == 0,
    {
        0
    }

    /// Whether the processor takes the file at `relative_path` (relative to
    /// the content directory; `original_path` is the full path).
    fn can_process(&self, relative_path: &str, original_path: &str) -> bool;

    /// The document made from the file at `relative_path` under
    /// `content_dir`, or `None` where the file yields no document.
    fn process(&self, fs: &dyn FileSystem, relative_path: &str, content_dir: &str) -> Result<Option<Document>>;
}

} // verus!
