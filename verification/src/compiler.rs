//! The build pipeline: content files are turned into documents by
//! processors, typed by the content rules, rendered with their templates,
//! gathered into list pages, and written under the output directory, which
//! is replaced as a whole once everything has been written.

use vstd::prelude::*;
use crate::config::{Config, ContentRule};
use crate::error::{Error, Result};
use crate::extra::KeyMap;
use crate::fs::{FileSystem, IoError, IoErrorKind, IoResult, safe_join};
use crate::handler::{Document, Metadata, Processor, clone_documents, same_document};
use crate::paths::{
    components, component_count, join, join_path, parent, path_eq, same_path, strip_prefix,
    strip_prefix_of, with_extension,
};
use crate::pattern::{match_pattern, pattern_matches};
use crate::templates::{ContextValue, RenderContext, Renderer, optional_text};
use crate::text::{clone_text, clone_texts, concat2, concat3, has_prefix, text_eq};

verus! {

/// The content type of the file at `rel`: the name of the last rule whose
/// pattern matches it (a later, more specific rule overrides an earlier,
/// general one), or `page` when none does.
pub open spec fn content_type_of(rules: Seq<ContentRule>, rel: Seq<char>) -> Seq<char>
    decreases rules.len(),
{
    if rules.len() == 0 {
        "page"@
    } else if pattern_matches(rules.last().pattern@, rel) {
        rules.last().name@
    } else {
        content_type_of(rules.drop_last(), rel)
    }
}

/// The content type of the file at the relative path `rel`.
pub fn determine_content_type(rules: &Vec<ContentRule>, rel: &str) -> (r: String)
    ensures
        r@ == content_type_of(rules@, rel@),
{
    let mut i: usize = rules.len();
    assert(rules@.take(rules.len() as int) =~= rules@);
    while i > 0
        invariant
            i <= rules.len(),
            content_type_of(rules@, rel@) == content_type_of(rules@.take(i as int), rel@),
        decreases i,
    {
        assert(rules@.take(i as int).last() == rules@[i - 1]);
        assert(rules@.take(i as int).drop_last() =~= rules@.take(i - 1));
        if match_pattern(rules[i - 1].pattern.as_str(), rel) {
            return rules[i - 1].name.clone();
        }
        i = i - 1;
    }
    "page".to_owned()
}

/// The template of a document of type `content_type`: that of the first
/// rule with this name, or its list template for a list document where the
/// rule has one; `None` where no rule has the name.
pub open spec fn template_of(rules: Seq<ContentRule>, content_type: Seq<char>, is_list: bool) -> Option<Seq<char>>
    decreases rules.len(),
{
    if rules.len() == 0 {
        None
    } else if rules[0].name@ == content_type {
        if is_list && rules[0].list_template is Some {
            Some(rules[0].list_template->0@)
        } else {
            Some(rules[0].template@)
        }
    } else {
        template_of(rules.drop_first(), content_type, is_list)
    }
}

/// The message of the error for a document whose type no rule names.
pub open spec fn no_rule_message(content_type: Seq<char>) -> Seq<char> {
    "no content rule found for type '"@ + content_type + "'"@
}

/// The template to render `doc` with.
pub fn template_for_document(rules: &Vec<ContentRule>, doc: &Document) -> (r: Result<String>)
    ensures
        match template_of(rules@, doc.content_type@, doc.is_list) {
            Some(t) => r matches Ok(s) && s@ == t,
            None => r matches Err(Error::Generation(m)) && m@ == no_rule_message(doc.content_type@),
        },
{
    let mut i: usize = 0;
    assert(rules@.skip(0) =~= rules@);
    while i < rules.len()
        invariant
            i <= rules.len(),
            template_of(rules@, doc.content_type@, doc.is_list)
                == template_of(rules@.skip(i as int), doc.content_type@, doc.is_list),
        decreases rules.len() - i,
    {
        assert(rules@.skip(i as int)[0] == rules@[i as int]);
        assert(rules@.skip(i as int).drop_first() =~= rules@.skip(i + 1));
        let rule = &rules[i];
        if text_eq(rule.name.as_str(), doc.content_type.as_str()) {
            if doc.is_list {
                match &rule.list_template {
                    Some(t) => return Ok(t.clone()),
                    None => {},
                }
            }
            return Ok(rule.template.clone());
        }
        i = i + 1;
    }
    Err(Error::Generation(concat3("no content rule found for type '", doc.content_type.as_str(), "'")))
}

/// The list template of the content type `content_type`: that of the first
/// rule with this name, where the rule enables listing and has one.
pub open spec fn list_template_of(rules: Seq<ContentRule>, content_type: Seq<char>) -> Option<Seq<char>>
    decreases rules.len(),
{
    if rules.len() == 0 {
        None
    } else if rules[0].name@ == content_type {
        if rules[0].list_enabled && rules[0].list_template is Some {
            Some(rules[0].list_template->0@)
        } else {
            None
        }
    } else {
        list_template_of(rules.drop_first(), content_type)
    }
}

/// The list template for the content type `content_type`, if its documents
/// are gathered into a list page.
pub fn list_template_for(rules: &Vec<ContentRule>, content_type: &str) -> (r: Option<String>)
    ensures
        match r {
            Some(t) => list_template_of(rules@, content_type@) == Some(t@),
            None => list_template_of(rules@, content_type@) is None,
        },
{
    let mut i: usize = 0;
    assert(rules@.skip(0) =~= rules@);
    while i < rules.len()
        invariant
            i <= rules.len(),
            list_template_of(rules@, content_type@) == list_template_of(rules@.skip(i as int), content_type@),
        decreases rules.len() - i,
    {
        assert(rules@.skip(i as int)[0] == rules@[i as int]);
        assert(rules@.skip(i as int).drop_first() =~= rules@.skip(i + 1));
        let rule = &rules[i];
        if text_eq(rule.name.as_str(), content_type) {
            if rule.list_enabled {
                match &rule.list_template {
                    Some(t) => return Some(t.clone()),
                    None => return None,
                }
            }
            return None;
        }
        i = i + 1;
    }
    None
}

/// The documents of type `ct`, in order.
pub open spec fn docs_of_type(docs: Seq<Document>, ct: Seq<char>) -> Seq<Document>
    decreases docs.len(),
{
    if docs.len() == 0 {
        Seq::<Document>::empty()
    } else if docs.last().content_type@ == ct {
        docs_of_type(docs.drop_last(), ct).push(docs.last())
    } else {
        docs_of_type(docs.drop_last(), ct)
    }
}

/// The content types of the documents, each once, in the order in which
/// they first appear.
pub open spec fn types_in_order(docs: Seq<Document>) -> Seq<Seq<char>>
    decreases docs.len(),
{
    if docs.len() == 0 {
        Seq::<Seq<char>>::empty()
    } else {
        let seen = types_in_order(docs.drop_last());
        if seen.contains(docs.last().content_type@) {
            seen
        } else {
            seen.push(docs.last().content_type@)
        }
    }
}

/// Every document gathered under a content type has that type, and every
/// document of the type is gathered.
pub proof fn lemma_docs_of_type_have_type(docs: Seq<Document>, ct: Seq<char>)
    ensures
        forall|i: int| 0 <= i < docs_of_type(docs, ct).len() ==> (#[trigger] docs_of_type(docs, ct)[i]).content_type@ == ct,
        forall|i: int| 0 <= i < docs.len() && (#[trigger] docs[i]).content_type@ == ct
            ==> docs_of_type(docs, ct).contains(docs[i]),
    decreases docs.len(),
{
    if docs.len() > 0 {
        let init = docs.drop_last();
        lemma_docs_of_type_have_type(init, ct);
        assert forall|i: int| 0 <= i < docs.len() && (#[trigger] docs[i]).content_type@ == ct
            implies docs_of_type(docs, ct).contains(docs[i]) by {
            if i < docs.len() - 1 {
                assert(docs[i] == init[i]);
                let j = choose|j: int| 0 <= j < docs_of_type(init, ct).len() && docs_of_type(init, ct)[j] == init[i];
                if docs.last().content_type@ == ct {
                    assert(docs_of_type(docs, ct)[j] == init[i]);
                }
            } else {
                assert(docs[i] == docs.last());
                assert(docs_of_type(docs, ct).last() == docs.last());
            }
        }
    }
}

/// The texts of a sequence of strings.
pub open spec fn texts(v: Seq<String>) -> Seq<Seq<char>> {
    v.map_values(|s: String| s@)
}

/// No content type is listed twice, and a type that is not listed has no
/// documents.
proof fn lemma_types_in_order(docs: Seq<Document>)
    ensures
        types_in_order(docs).no_duplicates(),
        forall|ct: Seq<char>| !types_in_order(docs).contains(ct) ==> docs_of_type(docs, ct).len() == 0,
    decreases docs.len(),
{
    if docs.len() > 0 {
        let init = docs.drop_last();
        lemma_types_in_order(init);
        let seen = types_in_order(init);
        let last = docs.last().content_type@;
        assert forall|ct: Seq<char>| !types_in_order(docs).contains(ct)
            implies docs_of_type(docs, ct).len() == 0 by {
            if seen.contains(ct) {
                let i = choose|i: int| 0 <= i < seen.len() && seen[i] == ct;
                if !seen.contains(last) {
                    assert(seen.push(last)[i] == ct);
                }
            }
            if ct == last {
                if !seen.contains(last) {
                    assert(seen.push(last)[seen.len() as int] == ct);
                }
            }
        }
    }
}

/// The position of `key` among `keys`.
fn position_of_text(keys: &Vec<String>, key: &str) -> (r: Option<usize>)
    ensures
        match r {
            Some(j) => j < keys.len() && keys@[j as int]@ == key@,
            None => forall|j: int| 0 <= j < keys.len() ==> keys@[j]@ != key@,
        },
{
    let mut j: usize = 0;
    while j < keys.len()
        invariant
            j <= keys.len(),
            forall|i: int| 0 <= i < j ==> keys@[i]@ != key@,
        decreases keys.len() - j,
    {
        if text_eq(keys[j].as_str(), key) {
            return Some(j);
        }
        j = j + 1;
    }
    None
}

/// The documents gathered by content type: the types in the order in which
/// they first appear, and for each type its documents in order.
pub fn group_by_type(docs: Vec<Document>) -> (r: (Vec<String>, Vec<Vec<Document>>))
    ensures
        r.0.len() == r.1.len(),
        texts(r.0@) == types_in_order(docs@),
        forall|j: int| 0 <= j < r.1.len() ==> (#[trigger] r.1@[j])@ == docs_of_type(docs@, r.0@[j]@),
{
    let ghost orig = docs@;
    let mut rest = docs;
    let mut keys: Vec<String> = Vec::new();
    let mut groups: Vec<Vec<Document>> = Vec::new();
    let ghost mut k: int = 0;
    assert(orig.skip(0) =~= orig);
    assert(texts(keys@) =~= types_in_order(orig.take(0)));
    while rest.len() > 0
        invariant
            0 <= k <= orig.len(),
            rest@ == orig.skip(k),
            keys.len() == groups.len(),
            texts(keys@) == types_in_order(orig.take(k)),
            forall|j: int| 0 <= j < groups.len() ==> (#[trigger] groups@[j])@ == docs_of_type(orig.take(k), keys@[j]@),
        decreases rest.len(),
    {
        let d = rest.remove(0);
        let ghost prefix = orig.take(k);
        let ghost next = orig.take(k + 1);
        proof {
            assert(d == orig[k]);
            assert(next.drop_last() =~= prefix);
            assert(next.last() == d);
            lemma_types_in_order(prefix);
            assert(rest@ =~= orig.skip(k + 1));
        }
        let ghost old_keys = keys@;
        let ghost old_groups = groups@;
        match position_of_text(&keys, d.content_type.as_str()) {
            Some(j) => {
                proof {
                    assert(types_in_order(prefix).contains(d.content_type@)) by {
                        assert(texts(keys@)[j as int] == d.content_type@);
                    }
                    assert(types_in_order(next) == types_in_order(prefix));
                }
                let mut g = groups.remove(j);
                g.push(d);
                groups.insert(j, g);
                proof {
                    assert forall|i: int| 0 <= i < groups.len() implies (#[trigger] groups@[i])@
                        == docs_of_type(next, keys@[i]@) by {
                        if i != j {
                            assert(groups@[i] == old_groups[i]);
                            assert(texts(keys@)[i] != texts(keys@)[j as int]);
                        }
                    }
                }
            },
            None => {
                proof {
                    assert(!types_in_order(prefix).contains(d.content_type@)) by {
                        if types_in_order(prefix).contains(d.content_type@) {
                            let i = choose|i: int| 0 <= i < types_in_order(prefix).len()
                                && types_in_order(prefix)[i] == d.content_type@;
                            assert(keys@[i]@ == d.content_type@);
                        }
                    }
                    assert(docs_of_type(prefix, d.content_type@).len() == 0);
                }
                let key = d.content_type.clone();
                let mut g: Vec<Document> = Vec::new();
                g.push(d);
                keys.push(key);
                groups.push(g);
                proof {
                    assert(texts(keys@) =~= types_in_order(next));
                    assert forall|i: int| 0 <= i < groups.len() implies (#[trigger] groups@[i])@
                        == docs_of_type(next, keys@[i]@) by {
                        if i < old_groups.len() {
                            assert(groups@[i] == old_groups[i]);
                            assert(keys@[i] == old_keys[i]);
                            assert(old_keys[i]@ != d.content_type@);
                        } else {
                            assert(groups@[i]@ =~= docs_of_type(next, keys@[i]@));
                        }
                    }
                }
            },
        }
        proof {
            k = k + 1;
        }
    }
    assert(orig.take(k) =~= orig);
    (keys, groups)
}

/// The list document of the content type `content_type` gathering `items`:
/// titled with the type, served at `<type>/index.html`, one level deep.
pub fn list_document(content_type: &str, items: Vec<Document>) -> (d: Document)
    ensures
        d.metadata.title@ == content_type@,
        d.metadata.description@ == Seq::<char>::empty(),
        d.body@ == Seq::<char>::empty(),
        d.url@ == content_type@ + "/index.html"@,
        d.output_path@ == content_type@ + "/index.html"@,
        d.source_path@ == Seq::<char>::empty(),
        d.depth == 1,
        d.content_type@ == content_type@,
        d.is_list,
        d.list_items == Some(items),
        d.taxonomies@ == Map::<Seq<char>, Vec<String>>::empty(),
{
    let mut metadata = Metadata::default();
    metadata.title = content_type.to_owned();
    Document {
        metadata,
        body: String::new(),
        url: concat2(content_type, "/index.html"),
        output_path: concat2(content_type, "/index.html"),
        source_path: String::new(),
        depth: 1,
        content_type: content_type.to_owned(),
        is_list: true,
        list_items: Some(items),
        taxonomies: KeyMap::new(),
    }
}

/// How deep a document found at `rel` sits: one less than the number of
/// components of `rel`, and at least 0.
pub open spec fn depth_of(rel: Seq<char>) -> int {
    if components(rel).len() > 0 {
        components(rel).len() - 1
    } else {
        0
    }
}

/// Whether `doc` carries the content type and depth of a document found at
/// the relative path `rel`.
pub open spec fn placed_at(doc: Document, rules: Seq<ContentRule>, rel: Seq<char>) -> bool {
    doc.content_type@ == content_type_of(rules, rel) && doc.depth == depth_of(rel)
}

/// Whether `d` is `doc`, found at the relative path `rel`, with the content
/// type and depth of that path and everything else kept.
pub open spec fn placed_from(rules: Seq<ContentRule>, rel: Seq<char>, doc: Document, d: Document) -> bool {
    &&& placed_at(d, rules, rel)
    &&& d.metadata == doc.metadata
    &&& d.body == doc.body
    &&& d.url == doc.url
    &&& d.output_path == doc.output_path
    &&& d.source_path == doc.source_path
    &&& d.is_list == doc.is_list
    &&& d.list_items == doc.list_items
    &&& d.taxonomies == doc.taxonomies
}

/// `doc`, found at the relative path `rel`, with the content type and depth
/// of that path; everything else is kept.
pub fn place_document(rules: &Vec<ContentRule>, rel: &str, doc: Document) -> (d: Document)
    ensures
        placed_from(rules@, rel@, doc, d),
        placed_at(d, rules@, rel@),
        d.metadata == doc.metadata,
        d.body == doc.body,
        d.url == doc.url,
        d.output_path == doc.output_path,
        d.source_path == doc.source_path,
        d.is_list == doc.is_list,
        d.list_items == doc.list_items,
        d.taxonomies == doc.taxonomies,
{
    let mut d = doc;
    d.content_type = determine_content_type(rules, rel);
    let n = component_count(rel);
    d.depth = if n > 0 { n - 1 } else { 0 };
    d
}

/// Whether each document carries the content type and depth of the
/// relative path at the same position of `rels`.
pub open spec fn placed_along(docs: Seq<Document>, rules: Seq<ContentRule>, rels: Seq<Seq<char>>) -> bool {
    rels.len() == docs.len() && forall|j: int| 0 <= j < docs.len() ==> #[trigger] placed_at(docs[j], rules, rels[j])
}

/// Whether every document carries the content type and depth of some
/// relative path, position by position.
pub open spec fn all_placed(docs: Seq<Document>, rules: Seq<ContentRule>) -> bool {
    exists|rels: Seq<Seq<char>>| #[trigger] placed_along(docs, rules, rels)
}

/// What became of one walked file: `None` where no processor took it, else
/// what the first processor that took it answered.
pub type FileOutcome = Option<Result<Option<Document>>>;

/// The path of `file` relative to `content_dir` (empty where it is not
/// under it).
pub open spec fn relative_of(file: Seq<char>, content_dir: Seq<char>) -> Seq<char> {
    match strip_prefix_of(file, content_dir) {
        Some(r) => r,
        None => Seq::<char>::empty(),
    }
}

/// Whether the file at position `i` went through without error: it lies
/// under `content_dir` and its processor (if any) did not fail.
pub open spec fn file_passed(files: Seq<Seq<char>>, content_dir: Seq<char>, outcomes: Seq<FileOutcome>, i: int) -> bool {
    &&& strip_prefix_of(files[i], content_dir) is Some
    &&& !(outcomes[i] matches Some(Err(_)))
}

/// Whether `docs` are the documents made from `files` given what their
/// processors answered: each document a processor made, in walk order,
/// placed at the path of its file relative to `content_dir`.
pub open spec fn documents_made(
    files: Seq<Seq<char>>,
    content_dir: Seq<char>,
    rules: Seq<ContentRule>,
    outcomes: Seq<FileOutcome>,
    docs: Seq<Document>,
) -> bool
    decreases files.len(),
{
    if files.len() == 0 || outcomes.len() != files.len() {
        files.len() == 0 && outcomes.len() == 0 && docs.len() == 0
    } else {
        let n = files.len() - 1;
        let rel = relative_of(files[n], content_dir);
        match outcomes[n] {
            Some(Ok(Some(doc))) => docs.len() > 0 && placed_from(rules, rel, doc, docs.last())
                && documents_made(files.drop_last(), content_dir, rules, outcomes.drop_last(), docs.drop_last()),
            _ => documents_made(files.drop_last(), content_dir, rules, outcomes.drop_last(), docs),
        }
    }
}

/// Whether `accepts` are the answers of the handlers asked, in order, and
/// `outcome` what became of the file: handlers are asked in turn until one
/// takes the file; the file has an outcome exactly when one did, and then
/// it is the answer of that first handler; when none of the `n_handlers`
/// takes it, it has none.
pub open spec fn handled_by_first<T>(accepts: Seq<bool>, n_handlers: int, outcome: Option<T>) -> bool {
    &&& accepts.len() <= n_handlers
    &&& forall|h: int| 0 <= h < accepts.len() - 1 ==> !#[trigger] accepts[h]
    &&& if accepts.len() > 0 && accepts.last() {
        outcome is Some
    } else {
        accepts.len() == n_handlers && outcome is None
    }
}

/// Whether each walked file that was reached and lies under `content_dir`
/// was offered to the processors in turn until the first took it
/// ([`handled_by_first`]), given the answers of the processors asked for it
/// (`asks`, by position).
pub open spec fn documents_dispatched(
    files: Seq<Seq<char>>,
    content_dir: Seq<char>,
    n_processors: int,
    asks: Seq<Seq<bool>>,
    outcomes: Seq<FileOutcome>,
) -> bool {
    &&& asks.len() == outcomes.len()
    &&& forall|i: int| 0 <= i < outcomes.len() && strip_prefix_of(files[i], content_dir) is Some
        ==> #[trigger] handled_by_first(asks[i], n_processors, outcomes[i])
}

/// Whether `r` is what [`process_documents`] gives for `content_dir`, given
/// the file system's answers (whether the directory exists, what walking
/// it gave) and, for each walked file up to the first failure, what the
/// first processor that took it answered. A missing directory yields no
/// document; a failed walk is an I/O error; a file outside the directory
/// or a failed processor stops the walk with that error; otherwise the
/// documents are those the processors made, in walk order, each placed at
/// the path of its file relative to `content_dir`.
pub open spec fn documents_processed(
    content_dir: Seq<char>,
    rules: Seq<ContentRule>,
    n_processors: int,
    asks: Seq<Seq<bool>>,
    exists: bool,
    walk: IoResult<Vec<String>>,
    outcomes: Seq<FileOutcome>,
    r: Result<Vec<Document>>,
) -> bool {
    if !exists {
        r matches Ok(d) && d@.len() == 0
    } else {
        match walk {
            Err(e) => r matches Err(Error::Io(m)) && m@ == e.message@,
            Ok(files) => {
                let fv = texts(files@);
                match r {
                    Ok(docs) => outcomes.len() == fv.len()
                        && (forall|i: int| 0 <= i < fv.len() ==> #[trigger] file_passed(fv, content_dir, outcomes, i))
                        && documents_made(fv, content_dir, rules, outcomes, docs@)
                        && documents_dispatched(fv, content_dir, n_processors, asks, outcomes),
                    Err(e) => {
                        let k = outcomes.len() - 1;
                        &&& 0 <= k < fv.len()
                        &&& documents_dispatched(fv, content_dir, n_processors, asks, outcomes)
                        &&& forall|i: int| 0 <= i < k ==> #[trigger] file_passed(fv, content_dir, outcomes, i)
                        &&& match strip_prefix_of(fv[k], content_dir) {
                            None => e matches Error::Generation(m) && m@ == "prefix not found"@,
                            Some(_) => outcomes[k] == Some(Err::<Option<Document>, Error>(e)),
                        }
                    },
                }
            },
        }
    }
}

/// The documents made from the files under `content_dir`: each file, taken
/// relative to the directory, goes to the first processor that takes it;
/// a document it makes gets the content type and depth of that relative
/// path. A missing content directory yields no document.
pub fn process_documents(
    fs: &dyn FileSystem,
    processors: &Vec<Box<dyn Processor>>,
    rules: &Vec<ContentRule>,
    content_dir: &str,
) -> (r: Result<Vec<Document>>)
    ensures
        exists|asks: Seq<Seq<bool>>, ex: bool, walk: IoResult<Vec<String>>, outcomes: Seq<FileOutcome>|
            #[trigger] documents_processed(content_dir@, rules@, processors@.len() as int, asks, ex, walk, outcomes, r),
        r matches Ok(docs) ==> all_placed(docs@, rules@),
{
    let mut docs: Vec<Document> = Vec::new();
    let ghost mut rels: Seq<Seq<char>> = Seq::empty();
    let ghost none_walk: IoResult<Vec<String>> = vstd::pervasive::arbitrary();
    if !fs.path_exists(content_dir) {
        assert(placed_along(docs@, rules@, rels));
        assert(all_placed(docs@, rules@));
        let r = Ok(docs);
        assert(documents_processed(content_dir@, rules@, processors@.len() as int, Seq::empty(), false, none_walk,
            Seq::empty(), r));
        return r;
    }
    let walk = fs.walk_dir(content_dir);
    let ghost walkg = walk;
    let files = match walk {
        Ok(f) => f,
        Err(e) => {
            let r = Err(Error::Io(e.message));
            assert(documents_processed(content_dir@, rules@, processors@.len() as int, Seq::empty(), true, walkg,
                Seq::empty(), r));
            return r;
        },
    };
    let ghost fv = texts(files@);
    let ghost np = processors@.len() as int;
    let ghost mut asks: Seq<Seq<bool>> = Seq::empty();
    let ghost mut outcomes: Seq<FileOutcome> = Seq::empty();
    let mut i: usize = 0;
    assert(fv.take(0) =~= Seq::<Seq<char>>::empty());
    while i < files.len()
        invariant
            i <= files.len(),
            walkg == Ok::<Vec<String>, IoError>(files),
            fv == texts(files@),
            placed_along(docs@, rules@, rels),
            outcomes.len() == i,
            forall|j: int| 0 <= j < i ==> #[trigger] file_passed(fv, content_dir@, outcomes, j),
            documents_made(fv.take(i as int), content_dir@, rules@, outcomes, docs@),
            np == processors@.len(),
            documents_dispatched(fv, content_dir@, np, asks, outcomes),
        decreases files.len() - i,
    {
        let file = files[i].as_str();
        assert(fv[i as int] == file@);
        let relative = match strip_prefix(file, content_dir) {
            Some(r) => r,
            None => {
                let r = Err(Error::Generation("prefix not found".to_owned()));
                let ghost outs = outcomes.push(None);
                let ghost asks2 = asks.push(Seq::empty());
                assert forall|j: int| 0 <= j < i implies #[trigger] file_passed(fv, content_dir@, outs, j) by {
                    assert(outs[j] == outcomes[j]);
                    assert(file_passed(fv, content_dir@, outcomes, j));
                }
                assert forall|j: int| 0 <= j < outs.len() && strip_prefix_of(fv[j], content_dir@) is Some
                    implies #[trigger] handled_by_first(asks2[j], np, outs[j]) by {
                    assert(asks2[j] == asks[j]);
                    assert(outs[j] == outcomes[j]);
                }
                assert(documents_processed(content_dir@, rules@, np, asks2, true, walkg, outs, r));
                return r;
            },
        };
        assert(relative_of(fv[i as int], content_dir@) == relative@);
        let ghost mut outcome: FileOutcome = None;
        let ghost mut accepts: Seq<bool> = Seq::empty();
        let ghost docs_before = docs@;
        let mut p: usize = 0;
        let mut handled = false;
        while p < processors.len() && !handled
            invariant
                p <= processors.len(),
                i < files.len(),
                walkg == Ok::<Vec<String>, IoError>(files),
                fv == texts(files@),
                strip_prefix_of(fv[i as int], content_dir@) == Some(relative@),
                outcomes.len() == i,
                forall|j: int| 0 <= j < i ==> #[trigger] file_passed(fv, content_dir@, outcomes, j),
                placed_along(docs@, rules@, rels),
                np == processors@.len(),
                documents_dispatched(fv, content_dir@, np, asks, outcomes),
                accepts.len() == p,
                !handled ==> forall|k: int| 0 <= k < p ==> !#[trigger] accepts[k],
                handled ==> p > 0 && accepts.last() && forall|k: int| 0 <= k < p - 1 ==> !#[trigger] accepts[k],
                !handled ==> docs@ == docs_before && outcome is None,
                handled ==> match outcome {
                    Some(Ok(Some(doc))) => docs@ == docs_before.push(docs@.last())
                        && placed_from(rules@, relative@, doc, docs@.last()),
                    Some(Ok(None)) => docs@ == docs_before,
                    _ => false,
                },
            decreases processors.len() - p,
        {
            let takes = processors[p].can_process(relative.as_str(), file);
            proof { accepts = accepts.push(takes); }
            if takes {
                let ans = processors[p].process(fs, relative.as_str(), content_dir);
                let ghost ansg = ans;
                match ans {
                    Ok(Some(doc)) => {
                        let doc = place_document(rules, relative.as_str(), doc);
                        let ghost before = docs@;
                        docs.push(doc);
                        proof {
                            outcome = Some(ansg);
                            assert(docs@.last() == doc);
                            assert(docs@ == docs_before.push(docs@.last()));
                            let old_rels = rels;
                            rels = rels.push(relative@);
                            assert forall|j: int| 0 <= j < docs.len()
                                implies #[trigger] placed_at(docs@[j], rules@, rels[j]) by {
                                if j < before.len() {
                                    assert(docs@[j] == before[j]);
                                    assert(rels[j] == old_rels[j]);
                                }
                            }
                        }
                    },
                    Ok(None) => {
                        proof { outcome = Some(ansg); }
                    },
                    Err(e) => {
                        let r = Err(e);
                        let ghost outs = outcomes.push(Some(ansg));
                        let ghost asks2 = asks.push(accepts);
                        assert forall|j: int| 0 <= j < i implies #[trigger] file_passed(fv, content_dir@, outs, j) by {
                            assert(outs[j] == outcomes[j]);
                            assert(file_passed(fv, content_dir@, outcomes, j));
                        }
                        assert(handled_by_first(accepts, np, outs[i as int]));
                        assert forall|j: int| 0 <= j < outs.len() && strip_prefix_of(fv[j], content_dir@) is Some
                            implies #[trigger] handled_by_first(asks2[j], np, outs[j]) by {
                            if j < i {
                                assert(asks2[j] == asks[j]);
                                assert(outs[j] == outcomes[j]);
                            }
                        }
                        assert(documents_processed(content_dir@, rules@, np, asks2, true, walkg, outs, r));
                        return r;
                    },
                }
                handled = true;
            }
            p = p + 1;
        }
        proof {
            let old_outs = outcomes;
            let old_asks = asks;
            assert(handled_by_first(accepts, np, outcome));
            outcomes = outcomes.push(outcome);
            asks = asks.push(accepts);
            assert forall|j: int| 0 <= j < outcomes.len() && strip_prefix_of(fv[j], content_dir@) is Some
                implies #[trigger] handled_by_first(asks[j], np, outcomes[j]) by {
                if j < i {
                    assert(asks[j] == old_asks[j]);
                    assert(outcomes[j] == old_outs[j]);
                }
            }
            assert forall|j: int| 0 <= j < i + 1 implies #[trigger] file_passed(fv, content_dir@, outcomes, j) by {
                if j < i {
                    assert(outcomes[j] == old_outs[j]);
                    assert(file_passed(fv, content_dir@, old_outs, j));
                }
            }
            let ft = fv.take(i + 1);
            assert(ft.drop_last() =~= fv.take(i as int));
            assert(outcomes.drop_last() =~= old_outs);
            assert(ft[i as int] == fv[i as int]);
            match outcome {
                Some(Ok(Some(doc))) => {
                    assert(docs@.drop_last() =~= docs_before);
                },
                _ => {},
            }
            assert(documents_made(ft, content_dir@, rules@, outcomes, docs@));
        }
        i = i + 1;
    }
    assert(fv.take(files.len() as int) =~= fv);
    assert(all_placed(docs@, rules@));
    let r = Ok(docs);
    assert(documents_processed(content_dir@, rules@, np, asks, true, walkg, outcomes, r));
    r
}

/// Builds the context a document is rendered with.
pub trait ContextBuilder {
    /// Whether `out` is an answer that building the context of `doc` under
    /// `config` may give. By default any answer may be given; a builder
    /// that promises more says so in its own body.
    open spec fn builds(&self, config: Config, doc: Document, out: Result<RenderContext>) -> bool {
        true
    }

    fn build_context(&self, config: &Config, doc: &Document) -> (r: Result<RenderContext>)
        ensures
            self.builds(*config, *doc, r);
}

/// Whether `ctx` holds what [`TeraContextBuilder`] puts in the context of
/// `doc`: the site settings and the document's title, description,
/// author, date, tags, body, URL, depth, type, whether it is a list, and
/// the documents it lists.
pub open spec fn document_context(ctx: Map<Seq<char>, ContextValue>, doc: Document) -> bool {
    &&& ctx.contains_key("site"@) && ctx["site"@] is Site
    &&& ctx.contains_key("page_title"@) && ctx["page_title"@] == ContextValue::Text(doc.metadata.title)
    &&& ctx.contains_key("page_description"@)
        && ctx["page_description"@] == ContextValue::Text(doc.metadata.description)
    &&& ctx.contains_key("page_author"@) && ctx["page_author"@] == optional_text(doc.metadata.author)
    &&& ctx.contains_key("page_date"@) && ctx["page_date"@] == match doc.metadata.date {
        Some(d) => ContextValue::Date(d),
        None => ContextValue::Null,
    }
    &&& ctx.contains_key("page_tags"@) && (ctx["page_tags"@] matches ContextValue::Texts(t)
        && t@ == doc.metadata.tags@)
    &&& ctx.contains_key("page_content"@) && ctx["page_content"@] == ContextValue::Text(doc.body)
    &&& ctx.contains_key("page_url"@) && ctx["page_url"@] == ContextValue::Text(doc.url)
    &&& ctx.contains_key("page_depth"@) && ctx["page_depth"@] == ContextValue::Number(doc.depth)
    &&& ctx.contains_key("page_type"@) && ctx["page_type"@] == ContextValue::Text(doc.content_type)
    &&& ctx.contains_key("page_is_list"@) && ctx["page_is_list"@] == ContextValue::Flag(doc.is_list)
    &&& ctx.contains_key("page_list_items"@) && match doc.list_items {
        Some(items) => ctx["page_list_items"@] matches ContextValue::Documents(v)
            && v.len() == items.len()
            && forall|i: int| 0 <= i < items.len() ==> #[trigger] same_document(v@[i], items@[i]),
        None => ctx["page_list_items"@] == ContextValue::Null,
    }
}

/// The context builder for Tera templates: the site settings and the
/// fields of the document under `page_*` names.
pub struct TeraContextBuilder;

impl ContextBuilder for TeraContextBuilder {
    /// The context of a document: its page fields, as [`document_context`]
    /// lists them.
    open spec fn builds(&self, config: Config, doc: Document, out: Result<RenderContext>) -> bool {
        out matches Ok(ctx) && document_context(ctx@, doc)
    }

    fn build_context(&self, config: &Config, doc: &Document) -> (r: Result<RenderContext>)
        ensures
            r matches Ok(ctx) && document_context(ctx@, *doc),
    {
        proof {
            reveal_strlit("site");
            reveal_strlit("page_title");
            reveal_strlit("page_description");
            reveal_strlit("page_author");
            reveal_strlit("page_date");
            reveal_strlit("page_tags");
            reveal_strlit("page_content");
            reveal_strlit("page_url");
            reveal_strlit("page_depth");
            reveal_strlit("page_type");
            reveal_strlit("page_is_list");
            reveal_strlit("page_list_items");
            assert("site"@.len() == 4);
            assert("page_title"@.len() == 10);
            assert("page_description"@.len() == 16);
            assert("page_author"@.len() == 11);
            assert("page_date"@.len() == 9);
            assert("page_tags"@.len() == 9);
            assert("page_content"@.len() == 12);
            assert("page_url"@.len() == 8);
            assert("page_depth"@.len() == 10);
            assert("page_type"@.len() == 9);
            assert("page_is_list"@.len() == 12);
            assert("page_list_items"@.len() == 15);
            assert("page_title"@[5] != "page_depth"@[5]);
            assert("page_date"@[5] != "page_tags"@[5]);
            assert("page_date"@[5] != "page_type"@[5]);
            assert("page_tags"@[6] != "page_type"@[6]);
            assert("page_content"@[5] != "page_is_list"@[5]);
        }
        let mut ctx = RenderContext::new();
        ctx.insert("site", ContextValue::Site(config.site.clone()));
        ctx.insert("page_title", ContextValue::Text(doc.metadata.title.clone()));
        ctx.insert("page_description", ContextValue::Text(doc.metadata.description.clone()));
        let author = match &doc.metadata.author {
            Some(a) => ContextValue::Text(a.clone()),
            None => ContextValue::Null,
        };
        ctx.insert("page_author", author);
        let date = match doc.metadata.date {
            Some(d) => ContextValue::Date(d),
            None => ContextValue::Null,
        };
        ctx.insert("page_date", date);
        ctx.insert("page_tags", ContextValue::Texts(clone_texts(&doc.metadata.tags)));
        ctx.insert("page_content", ContextValue::Text(doc.body.clone()));
        ctx.insert("page_url", ContextValue::Text(doc.url.clone()));
        ctx.insert("page_depth", ContextValue::Number(doc.depth));
        ctx.insert("page_type", ContextValue::Text(doc.content_type.clone()));
        ctx.insert("page_is_list", ContextValue::Flag(doc.is_list));
        let items = match &doc.list_items {
            Some(items) => ContextValue::Documents(clone_documents(items)),
            None => ContextValue::Null,
        };
        ctx.insert("page_list_items", items);
        assert(document_context(ctx@, *doc));
        Ok(ctx)
    }
}

/// Produces further output (a feed, a sitemap) once the pages are written,
/// from the configuration of the pipeline.
pub trait Generator {
    fn generate(&self, config: &Config, output_base: &str) -> Result<()>;
}

/// Whether `r` is what rendering the documents from position `k` on gives,
/// given what rendering and writing each of them answered (`answers`, by
/// position) and what the steps after the documents gave (`rest`): list
/// documents are passed over; a document whose type has no content rule
/// stops the build with the "no content rule" error; a failed render or
/// write stops it with that error; once every document is written, the
/// result is `rest`.
pub open spec fn documents_rendered(
    docs: Seq<Document>,
    rules: Seq<ContentRule>,
    answers: Seq<Result<()>>,
    k: int,
    rest: Result<()>,
    r: Result<()>,
) -> bool
    decreases docs.len() - k,
{
    if k < 0 || k >= docs.len() {
        r == rest
    } else if docs[k].is_list {
        documents_rendered(docs, rules, answers, k + 1, rest, r)
    } else {
        match template_of(rules, docs[k].content_type@, false) {
            None => r matches Err(Error::Generation(m)) && m@ == no_rule_message(docs[k].content_type@),
            Some(_) => match answers[k] {
                Err(e) => r == Err::<(), Error>(e),
                Ok(()) => documents_rendered(docs, rules, answers, k + 1, rest, r),
            },
        }
    }
}

/// Whether the document at `j` went through: it is a list, or its type has
/// a content rule and rendering and writing it answered `Ok`.
pub open spec fn document_step_ok(docs: Seq<Document>, rules: Seq<ContentRule>, answers: Seq<Result<()>>, j: int) -> bool {
    docs[j].is_list || (template_of(rules, docs[j].content_type@, false) is Some && answers[j] is Ok)
}

/// Documents that went through are passed over.
proof fn lemma_rendered_prefix(
    docs: Seq<Document>,
    rules: Seq<ContentRule>,
    answers: Seq<Result<()>>,
    k: int,
    n: int,
    rest: Result<()>,
    r: Result<()>,
)
    requires
        0 <= k <= n <= docs.len(),
        forall|j: int| k <= j < n ==> #[trigger] document_step_ok(docs, rules, answers, j),
        documents_rendered(docs, rules, answers, n, rest, r),
    ensures
        documents_rendered(docs, rules, answers, k, rest, r),
    decreases n - k,
{
    if k < n {
        lemma_rendered_prefix(docs, rules, answers, k + 1, n, rest, r);
        assert(document_step_ok(docs, rules, answers, k));
    }
}

/// Whether `r` is what writing the list pages from position `k` of `keys`
/// on gives: for each content type, in the order in which its documents
/// first appear, whose rule has a list template and that has documents,
/// the list document gathering them is rendered with that template and
/// written (`answers`, by position); a failure stops with its error; after
/// the list pages, the result is `rest`.
pub open spec fn lists_rendered(
    keys: Seq<Seq<char>>,
    docs: Seq<Document>,
    rules: Seq<ContentRule>,
    answers: Seq<Result<()>>,
    k: int,
    rest: Result<()>,
    r: Result<()>,
) -> bool
    decreases keys.len() - k,
{
    if k < 0 || k >= keys.len() {
        r == rest
    } else if list_template_of(rules, keys[k]) is Some && docs_of_type(docs, keys[k]).len() > 0 {
        match answers[k] {
            Err(e) => r == Err::<(), Error>(e),
            Ok(()) => lists_rendered(keys, docs, rules, answers, k + 1, rest, r),
        }
    } else {
        lists_rendered(keys, docs, rules, answers, k + 1, rest, r)
    }
}

/// Whether the list page at `j` went through: it is not written, or its
/// writing answered `Ok`.
pub open spec fn list_step_ok(keys: Seq<Seq<char>>, docs: Seq<Document>, rules: Seq<ContentRule>,
    answers: Seq<Result<()>>, j: int) -> bool {
    !(list_template_of(rules, keys[j]) is Some && docs_of_type(docs, keys[j]).len() > 0) || answers[j] is Ok
}

/// List pages that went through are passed over.
proof fn lemma_lists_prefix(
    keys: Seq<Seq<char>>,
    docs: Seq<Document>,
    rules: Seq<ContentRule>,
    answers: Seq<Result<()>>,
    k: int,
    n: int,
    rest: Result<()>,
    r: Result<()>,
)
    requires
        0 <= k <= n <= keys.len(),
        forall|j: int| k <= j < n ==> #[trigger] list_step_ok(keys, docs, rules, answers, j),
        lists_rendered(keys, docs, rules, answers, n, rest, r),
    ensures
        lists_rendered(keys, docs, rules, answers, k, rest, r),
    decreases n - k,
{
    if k < n {
        lemma_lists_prefix(keys, docs, rules, answers, k + 1, n, rest, r);
        assert(list_step_ok(keys, docs, rules, answers, k));
    }
}

/// Whether `r` is what the last steps give: copying the static directory
/// where it exists (`copied`), then running each of the `n` generators in
/// order with the output directory (`runs`); the first failure is the
/// error, else `Ok`.
pub open spec fn extras_done(static_exists: bool, copied: Result<()>, runs: Seq<Result<()>>, n: int, r: Result<()>) -> bool {
    if static_exists && copied is Err {
        r == copied
    } else {
        runs.len() == n && if exists|g: int| 0 <= g < n && #[trigger] runs[g] is Err {
            let g = choose|g: int| 0 <= g < n && #[trigger] runs[g] is Err && forall|h: int| 0 <= h < g ==> runs[h] is Ok;
            r == runs[g]
        } else {
            r is Ok
        }
    }
}

/// Whether `r` is what the steps after the documents give, under some
/// answers: the list pages of [`lists_rendered`], then the static directory
/// and the generators of [`extras_done`].
pub open spec fn lists_and_extras(docs: Seq<Document>, rules: Seq<ContentRule>, n_generators: int, r: Result<()>) -> bool {
    exists|answers: Seq<Result<()>>, rest: Result<()>, static_exists: bool, copied: Result<()>, runs: Seq<Result<()>>|
        #[trigger] lists_rendered(types_in_order(docs), docs, rules, answers, 0, rest, r)
        && #[trigger] extras_done(static_exists, copied, runs, n_generators, rest)
}

/// Any failure can stand for the steps after the documents (a failed copy
/// of the static directory).
proof fn lemma_error_is_lists_and_extras(docs: Seq<Document>, rules: Seq<ContentRule>, n_generators: int, r: Result<()>)
    requires
        r is Err,
    ensures
        lists_and_extras(docs, rules, n_generators, r),
{
    let keys = types_in_order(docs);
    let answers = Seq::new(keys.len(), |j: int| Ok::<(), Error>(()));
    assert(lists_rendered(keys, docs, rules, answers, keys.len() as int, r, r));
    assert forall|j: int| 0 <= j < keys.len() implies #[trigger] list_step_ok(keys, docs, rules, answers, j) by {}
    lemma_lists_prefix(keys, docs, rules, answers, 0, keys.len() as int, r, r);
    let none: Seq<Result<()>> = Seq::empty();
    assert(extras_done(true, r, none, n_generators, r));
}

/// Whether `r` is what writing the site under `output_base` gives, given
/// what creating `output_base` answered (`made`), what processing the
/// documents gave (`processed`, as [`process_documents`] describes it for
/// some answers of the file system and the processors), what rendering and
/// writing each document answered, and what the steps after the documents
/// (list pages, the static directory, the generators) gave.
pub open spec fn site_written(
    content_dir: Seq<char>,
    rules: Seq<ContentRule>,
    n_processors: int,
    n_generators: int,
    made: IoResult<()>,
    processed: Result<Vec<Document>>,
    answers: Seq<Result<()>>,
    rest: Result<()>,
    r: Result<()>,
) -> bool {
    match made {
        Err(e) => r matches Err(Error::Io(m)) && m@ == e.message@,
        Ok(()) => {
            &&& exists|asks: Seq<Seq<bool>>, ex: bool, walk: IoResult<Vec<String>>, outcomes: Seq<FileOutcome>|
                #[trigger] documents_processed(content_dir, rules, n_processors, asks, ex, walk, outcomes, processed)
            &&& match processed {
                Err(e) => r == Err::<(), Error>(e),
                Ok(docs) => documents_rendered(docs@, rules, answers, 0, rest, r)
                    && lists_and_extras(docs@, rules, n_generators, rest),
            }
        },
    }
}

/// Whether `r` is what replacing the output directory gives, given what
/// removing the old output answered (`Ok` where there was none), what
/// renaming the temporary directory answered, and, after a rename across
/// devices, what copying it and then removing it gave.
pub open spec fn output_swapped(removed: IoResult<()>, moved: IoResult<()>, copied: Result<()>, cleaned: IoResult<()>,
    r: Result<()>) -> bool {
    match removed {
        Err(e) => r matches Err(Error::Io(m)) && m@ == e.message@,
        Ok(()) => match moved {
            Ok(()) => r is Ok,
            Err(e) => if e.kind == IoErrorKind::CrossesDevices {
                match copied {
                    Err(e2) => r == Err::<(), Error>(e2),
                    Ok(()) => match cleaned {
                        Ok(()) => r is Ok,
                        Err(e3) => r matches Err(Error::Io(m)) && m@ == e3.message@,
                    },
                }
            } else {
                r matches Err(Error::Generation(m)) && m@ == "atomic rename failed: "@ + e.message@
            },
        },
    }
}

/// Whether `r` is what a run gives, given what preparing the temporary
/// directory answered (`prep`), what writing the site into it gave (`gen`,
/// as [`site_written`] describes it for some answers) and what replacing
/// the output directory gave (`swap`, as [`output_swapped`] describes it):
/// a failure before the site is written in full is the result and the
/// output directory is not replaced; otherwise the result is `swap`.
#[verifier::opaque]
pub open spec fn output_built(
    content_dir: Seq<char>,
    rules: Seq<ContentRule>,
    n_processors: int,
    n_generators: int,
    prep: IoResult<()>,
    gen: Result<()>,
    swap: Result<()>,
    r: Result<()>,
) -> bool {
    match prep {
        Err(e) => r matches Err(Error::Io(m)) && m@ == e.message@,
        Ok(()) => {
            &&& exists|made: IoResult<()>, processed: Result<Vec<Document>>, answers: Seq<Result<()>>, rest: Result<()>|
                #[trigger] site_written(content_dir, rules, n_processors, n_generators, made, processed, answers, rest, gen)
            &&& match gen {
                Err(e) => r == Err::<(), Error>(e),
                Ok(()) => r == swap && exists|removed: IoResult<()>, moved: IoResult<()>, copied: Result<()>,
                    cleaned: IoResult<()>| #[trigger] output_swapped(removed, moved, copied, cleaned, swap),
            }
        },
    }
}

/// A failure while preparing the temporary directory is the result.
proof fn lemma_built_prep_failed(content_dir: Seq<char>, rules: Seq<ContentRule>, np: int, n: int, prep: IoResult<()>,
    gen: Result<()>, swap: Result<()>, r: Result<()>)
    requires
        prep matches Err(e) && (r matches Err(Error::Io(m)) && m@ == e.message@),
    ensures
        output_built(content_dir, rules, np, n, prep, gen, swap, r),
{
    reveal(output_built);
}

/// Once the temporary directory is ready, the result is the failure of
/// writing the site, or else the replacement of the output directory.
proof fn lemma_built_after_prep(content_dir: Seq<char>, rules: Seq<ContentRule>, np: int, n: int, prep: IoResult<()>,
    gen: Result<()>, swap: Result<()>, r: Result<()>)
    requires
        prep is Ok,
        exists|made: IoResult<()>, processed: Result<Vec<Document>>, answers: Seq<Result<()>>, rest: Result<()>|
            #[trigger] site_written(content_dir, rules, np, n, made, processed, answers, rest, gen),
        gen is Err ==> r == gen,
        gen is Ok ==> r == swap && exists|removed: IoResult<()>, moved: IoResult<()>, copied: Result<()>,
            cleaned: IoResult<()>| #[trigger] output_swapped(removed, moved, copied, cleaned, swap),
    ensures
        output_built(content_dir, rules, np, n, prep, gen, swap, r),
{
    reveal(output_built);
}

/// A configured build: the configuration, the file system, the template
/// engine and context builder, the processors and generators, and the
/// content and output directories.
pub struct Pipeline {
    config: Config,
    fs: Box<dyn FileSystem>,
    renderer: Box<dyn Renderer>,
    processors: Vec<Box<dyn Processor>>,
    context_builder: Box<dyn ContextBuilder>,
    generators: Vec<Box<dyn Generator>>,
    content_dir: String,
    output_dir: String,
}

impl Pipeline {
    /// Whether `r` is what rendering `doc` with `template` and writing it
    /// gives, given what the context builder answered for `doc` (`built`)
    /// and what the template engine answered (`rendered`): the template is
    /// rendered with exactly the context the builder built for the
    /// document, and the rendered text is then written at the document's
    /// output path; a failure of either is the result.
    pub closed spec fn document_rendered(&self, doc: Document, template: Seq<char>, built: Result<RenderContext>,
        rendered: Result<String>, r: Result<()>) -> bool {
        &&& self.built_for(doc, built)
        &&& match built {
            Err(e) => r == Err::<(), Error>(e),
            Ok(ctx) => {
                &&& self.rendered_from(template, ctx@, rendered)
                &&& rendered is Err ==> r == Err::<(), Error>(rendered->Err_0)
            },
        }
    }

    /// Documents are rendered with the context the pipeline's context
    /// builder built for them: where rendering and writing `doc` went
    /// well, the builder answered a context for `doc`, and the template
    /// engine's text for `template` came from exactly that context.
    pub proof fn lemma_rendered_with_built_context(&self, doc: Document, template: Seq<char>,
        built: Result<RenderContext>, rendered: Result<String>, r: Result<()>)
        requires
            self.document_rendered(doc, template, built, rendered, r),
            r is Ok,
        ensures
            built is Ok,
            self.built_for(doc, built),
            self.rendered_from(template, built->Ok_0@, rendered),
            rendered is Ok,
    {
        match built {
            Err(e) => {
                assert(r == Err::<(), Error>(e));
            },
            Ok(ctx) => {
                if rendered is Err {
                    assert(r == Err::<(), Error>(rendered->Err_0));
                }
            },
        }
    }

    /// Whether `built` is an answer the pipeline's context builder may give
    /// for `doc` under the pipeline's configuration.
    pub closed spec fn built_for(&self, doc: Document, built: Result<RenderContext>) -> bool {
        self.context_builder.builds(self.config, doc, built)
    }

    /// Whether `rendered` is an answer the pipeline's template engine may
    /// give for `template` and a context holding `ctx`.
    pub closed spec fn rendered_from(&self, template: Seq<char>, ctx: Map<Seq<char>, ContextValue>,
        rendered: Result<String>) -> bool {
        self.renderer.renders(template, ctx, rendered)
    }

    /// The configuration the pipeline builds with.
    pub closed spec fn config_view(&self) -> Config {
        self.config
    }

    /// The directory content is read from.
    pub closed spec fn content_dir_view(&self) -> Seq<char> {
        self.content_dir@
    }

    /// How many generators run after the pages are written.
    pub closed spec fn generator_count(&self) -> int {
        self.generators.len() as int
    }

    /// How many processors are offered each content file.
    pub closed spec fn processor_count(&self) -> int {
        self.processors.len() as int
    }

    /// The directory the site is written to.
    pub closed spec fn output_dir_view(&self) -> Seq<char> {
        self.output_dir@
    }

    /// The configuration the pipeline builds with.
    pub fn config(&self) -> (r: &Config)
        ensures
            *r == self.config_view(),
    {
        &self.config
    }

    /// The directory content is read from.
    pub fn content_dir(&self) -> (r: &str)
        ensures
            r@ == self.content_dir_view(),
    {
        self.content_dir.as_str()
    }

    /// The directory the site is written to.
    pub fn output_dir(&self) -> (r: &str)
        ensures
            r@ == self.output_dir_view(),
    {
        self.output_dir.as_str()
    }

    /// The file system the pipeline works on.
    pub fn fs(&self) -> &dyn FileSystem {
        &*self.fs
    }

    /// Builds the site into a temporary directory next to the output
    /// directory (the output path with the extension `tmp`), then replaces
    /// the output directory with it: by a rename, or, across devices, by a
    /// copy and the removal of the temporary directory. The output
    /// directory is touched only once the site has been written in full.
    pub fn run(&self) -> (r: Result<()>)
        ensures
            exists|prep: IoResult<()>, gen: Result<()>, swap: Result<()>|
                #[trigger] output_built(self.content_dir_view(), self.config_view().content_rules@, self.processor_count(),
                    self.generator_count(), prep, gen, swap, r),
    {
        let ghost n = self.generator_count();
        let ghost np = self.processor_count();
        let ghost rules = self.config_view().content_rules@;
        let ghost cd = self.content_dir_view();
        let ghost unused: Result<()> = vstd::pervasive::arbitrary();
        let tmp_dir = with_extension(self.output_dir.as_str(), "tmp");
        if self.fs.path_exists(tmp_dir.as_str()) {
            let rm = self.fs.remove_dir_all(tmp_dir.as_str());
            let ghost rmg = rm;
            match rm {
                Ok(()) => {},
                Err(e) => {
                    let r = Err(Error::Io(e.message));
                    proof { lemma_built_prep_failed(cd, rules, np, n, rmg, unused, unused, r); }
                    return r;
                },
            }
        }
        let mk = self.fs.create_dir_all(tmp_dir.as_str());
        let ghost mkg = mk;
        match mk {
            Ok(()) => {},
            Err(e) => {
                let r = Err(Error::Io(e.message));
                proof { lemma_built_prep_failed(cd, rules, np, n, mkg, unused, unused, r); }
                return r;
            },
        }
        let gen = self.generate_to(tmp_dir.as_str());
        let ghost geng = gen;
        match gen {
            Ok(()) => {},
            Err(e) => {
                let r = Err(e);
                proof { lemma_built_after_prep(cd, rules, np, n, mkg, geng, unused, r); }
                return r;
            },
        }
        let swap = self.replace_output(tmp_dir.as_str());
        proof { lemma_built_after_prep(cd, rules, np, n, mkg, geng, swap, swap); }
        swap
    }

    /// Replaces the output directory with `tmp_dir`: the old output is
    /// removed, then `tmp_dir` is renamed to it, or, across devices, copied
    /// to it and removed.
    fn replace_output(&self, tmp_dir: &str) -> (r: Result<()>)
        ensures
            exists|removed: IoResult<()>, moved: IoResult<()>, copied: Result<()>, cleaned: IoResult<()>|
                #[trigger] output_swapped(removed, moved, copied, cleaned, r),
    {
        let ghost ok: IoResult<()> = Ok(());
        let ghost okr: Result<()> = Ok(());
        let mut removed: IoResult<()> = Ok(());
        if self.fs.path_exists(self.output_dir.as_str()) {
            removed = self.fs.remove_dir_all(self.output_dir.as_str());
        }
        let ghost rmg = removed;
        match removed {
            Ok(()) => {},
            Err(e) => {
                let r = Err(Error::Io(e.message));
                assert(output_swapped(rmg, ok, okr, ok, r));
                return r;
            },
        }
        let moved = self.fs.rename(tmp_dir, self.output_dir.as_str());
        let ghost mvg = moved;
        match moved {
            Ok(()) => {
                let r = Ok(());
                assert(output_swapped(rmg, mvg, okr, ok, r));
                r
            },
            Err(e) => {
                if e.kind == IoErrorKind::CrossesDevices {
                    let copied = self.copy_dir_all(tmp_dir, self.output_dir.as_str());
                    let ghost cpg = copied;
                    match copied {
                        Ok(()) => {},
                        Err(e2) => {
                            let r = Err(e2);
                            assert(output_swapped(rmg, mvg, cpg, ok, r));
                            return r;
                        },
                    }
                    let cleaned = self.fs.remove_dir_all(tmp_dir);
                    let ghost clg = cleaned;
                    let r = match cleaned {
                        Ok(()) => Ok(()),
                        Err(e3) => Err(Error::Io(e3.message)),
                    };
                    assert(output_swapped(rmg, mvg, cpg, clg, r));
                    r
                } else {
                    let r = Err(Error::Generation(concat2("atomic rename failed: ", e.message.as_str())));
                    assert(output_swapped(rmg, mvg, okr, ok, r));
                    r
                }
            },
        }
    }

    /// Writes the site under `output_base`: every document that is not a
    /// list, then a list page for each content type whose rule asks for
    /// one and that has documents, then the static directory, then the
    /// output of each generator.
    fn generate_to(&self, output_base: &str) -> (r: Result<()>)
        ensures
            exists|made: IoResult<()>, processed: Result<Vec<Document>>, answers: Seq<Result<()>>, rest: Result<()>|
                #[trigger] site_written(self.content_dir@, self.config.content_rules@, self.processors.len() as int, self.generators.len() as int,
                    made, processed, answers, rest, r),
    {
        let made = self.fs.create_dir_all(output_base);
        let ghost madeg = made;
        let ghost no_docs: Result<Vec<Document>> = vstd::pervasive::arbitrary();
        let ghost no_answers: Seq<Result<()>> = Seq::empty();
        match made {
            Ok(()) => {},
            Err(e) => {
                let r = Err(Error::Io(e.message));
                assert(site_written(self.content_dir@, self.config.content_rules@, self.processors.len() as int, self.generators.len() as int, madeg, no_docs, no_answers, r, r));
                return r;
            },
        }
        let processed = process_documents(&*self.fs, &self.processors, &self.config.content_rules, self.content_dir.as_str());
        let ghost pg = processed;
        let documents = match processed {
            Ok(d) => d,
            Err(e) => {
                let r = Err(e);
                assert(site_written(self.content_dir@, self.config.content_rules@, self.processors.len() as int, self.generators.len() as int, madeg, pg, no_answers, r, r));
                return r;
            },
        };
        let ghost dv = documents@;
        let ghost rules = self.config.content_rules@;
        let ghost mut answers: Seq<Result<()>> = Seq::new(documents.len() as nat, |j: int| Ok::<(), Error>(()));
        let mut i: usize = 0;
        while i < documents.len()
            invariant
                i <= documents.len(),
                dv == documents@,
                rules == self.config.content_rules@,
                answers.len() == documents.len(),
                forall|j: int| 0 <= j < i ==> #[trigger] document_step_ok(dv, rules, answers, j),
                madeg is Ok,
                pg == Ok::<Vec<Document>, Error>(documents),
                exists|asks: Seq<Seq<bool>>, ex: bool, walk: IoResult<Vec<String>>, outcomes: Seq<FileOutcome>|
                    #[trigger] documents_processed(self.content_dir@, rules, self.processors@.len() as int, asks, ex, walk, outcomes, pg),
            decreases documents.len() - i,
        {
            if !documents[i].is_list {
                let a = self.render_document(output_base, &documents[i]);
                let ghost prev = answers;
                proof { answers = answers.update(i as int, a); }
                assert forall|j: int| 0 <= j < i implies #[trigger] document_step_ok(dv, rules, answers, j) by {
                    assert(answers[j] == prev[j]);
                    assert(document_step_ok(dv, rules, prev, j));
                }
                match a {
                    Ok(()) => {
                        assert(document_step_ok(dv, rules, answers, i as int));
                    },
                    Err(e) => {
                        let r = Err(e);
                        proof {
                            assert(documents_rendered(dv, rules, answers, i as int, r, r));
                            lemma_rendered_prefix(dv, rules, answers, 0, i as int, r, r);
                            lemma_error_is_lists_and_extras(dv, rules, self.generators.len() as int, r);
                            assert(site_written(self.content_dir@, rules, self.processors.len() as int, self.generators.len() as int, madeg, pg, answers, r, r));
                        }
                        return r;
                    },
                }
            } else {
                assert(document_step_ok(dv, rules, answers, i as int));
            }
            i = i + 1;
        }
        let rest = self.write_lists_and_extras(output_base, documents);
        proof {
            assert(documents_rendered(dv, rules, answers, dv.len() as int, rest, rest));
            lemma_rendered_prefix(dv, rules, answers, 0, dv.len() as int, rest, rest);
            assert(site_written(self.content_dir@, rules, self.processors.len() as int, self.generators.len() as int, madeg, pg, answers, rest, rest));
        }
        rest
    }

    /// Writes what follows the documents: a list page for each content type
    /// whose rule asks for one and that has documents, the static
    /// directory, and the output of each generator.
    fn write_lists_and_extras(&self, output_base: &str, documents: Vec<Document>) -> (r: Result<()>)
        ensures
            lists_and_extras(documents@, self.config.content_rules@, self.generators.len() as int, r),
    {
        let ghost dv = documents@;
        let ghost rules = self.config.content_rules@;
        let (keys, groups) = group_by_type(documents);
        let ghost kv = texts(keys@);
        let ghost groups0 = groups@;
        let mut groups = groups;
        let ghost mut answers: Seq<Result<()>> = Seq::new(keys.len() as nat, |j: int| Ok::<(), Error>(()));
        let mut j: usize = 0;
        while j < keys.len()
            invariant
                j <= keys.len(),
                groups.len() == keys.len() - j,
                kv == texts(keys@),
                kv == types_in_order(dv),
                dv == documents@,
                rules == self.config.content_rules@,
                answers.len() == keys.len(),
                groups0.len() == keys.len(),
                forall|q: int| 0 <= q < groups.len() ==> #[trigger] groups@[q] == groups0[j + q],
                forall|q: int| 0 <= q < keys.len() ==> (#[trigger] groups0[q])@ == docs_of_type(dv, kv[q]),
                forall|q: int| 0 <= q < j ==> #[trigger] list_step_ok(kv, dv, rules, answers, q),
            decreases keys.len() - j,
        {
            let ghost gs = groups@;
            let group = groups.remove(0);
            assert forall|q: int| 0 <= q < groups.len() implies #[trigger] groups@[q] == groups0[j + 1 + q] by {
                assert(groups@[q] == gs[q + 1]);
            }
            assert(group == groups0[j as int]);
            assert(kv[j as int] == keys@[j as int]@);
            match list_template_for(&self.config.content_rules, keys[j].as_str()) {
                Some(t) => {
                    if group.len() > 0 {
                        let list_doc = list_document(keys[j].as_str(), group);
                        let a = self.render_document_with_template(output_base, &list_doc, t.as_str());
                        let ghost prev = answers;
                        proof { answers = answers.update(j as int, a); }
                        assert forall|q: int| 0 <= q < j implies #[trigger] list_step_ok(kv, dv, rules, answers, q) by {
                            assert(answers[q] == prev[q]);
                            assert(list_step_ok(kv, dv, rules, prev, q));
                        }
                        match a {
                            Ok(()) => {
                                assert(list_step_ok(kv, dv, rules, answers, j as int));
                            },
                            Err(e) => {
                                let r = Err(e);
                                proof {
                                    let ghost none: Seq<Result<()>> = Seq::empty();
                                    assert(lists_rendered(kv, dv, rules, answers, j as int, r, r));
                                    lemma_lists_prefix(kv, dv, rules, answers, 0, j as int, r, r);
                                    assert(extras_done(true, r, none, self.generators.len() as int, r));
                                }
                                return r;
                            },
                        }
                    } else {
                        assert(list_step_ok(kv, dv, rules, answers, j as int));
                    }
                },
                None => {
                    assert(list_step_ok(kv, dv, rules, answers, j as int));
                },
            }
            j = j + 1;
        }
        let rest = self.write_extras(output_base);
        proof {
            assert(lists_rendered(kv, dv, rules, answers, kv.len() as int, rest, rest));
            lemma_lists_prefix(kv, dv, rules, answers, 0, kv.len() as int, rest, rest);
        }
        rest
    }

    /// Copies the static directory (where it exists) under `output_base`,
    /// then runs each generator in order with `output_base`.
    fn write_extras(&self, output_base: &str) -> (r: Result<()>)
        ensures
            exists|static_exists: bool, copied: Result<()>, runs: Seq<Result<()>>|
                #[trigger] extras_done(static_exists, copied, runs, self.generators.len() as int, r),
    {
        let static_dir = self.config.build.static_dir.as_str();
        let static_exists = self.fs.path_exists(static_dir);
        let ghost mut copied: Result<()> = Ok(());
        if static_exists {
            let dest = join(output_base, static_dir);
            let c = self.copy_dir_all(static_dir, dest.as_str());
            proof { copied = c; }
            match c {
                Ok(()) => {},
                Err(e) => {
                    let r = Err(e);
                    let ghost none: Seq<Result<()>> = Seq::empty();
                    assert(extras_done(static_exists, copied, none, self.generators.len() as int, r));
                    return r;
                },
            }
        }
        let n = self.generators.len();
        let ghost mut runs: Seq<Result<()>> = Seq::new(n as nat, |g: int| Ok::<(), Error>(()));
        let mut g: usize = 0;
        while g < n
            invariant
                g <= n == self.generators.len(),
                runs.len() == n,
                forall|h: int| 0 <= h < n ==> #[trigger] runs[h] is Ok,
                !(static_exists && copied is Err),
            decreases n - g,
        {
            let a = self.generators[g].generate(&self.config, output_base);
            match a {
                Ok(()) => {},
                Err(e) => {
                    let r = Err(e);
                    proof {
                        runs = runs.update(g as int, r);
                        assert(runs[g as int] is Err);
                        let w = choose|w: int| 0 <= w < n && #[trigger] runs[w] is Err && forall|h: int| 0 <= h < w ==> runs[h] is Ok;
                        if w != g {
                            if w < g {
                                assert(runs[w] is Ok);
                            } else {
                                assert(runs[g as int] is Ok);
                            }
                        }
                    }
                    assert(extras_done(static_exists, copied, runs, n as int, r));
                    return r;
                },
            }
            g = g + 1;
        }
        let r = Ok(());
        assert(extras_done(static_exists, copied, runs, n as int, r));
        r
    }

    /// Renders `doc` with the template its content rule gives it.
    fn render_document(&self, output_base: &str, doc: &Document) -> (r: Result<()>)
        ensures
            template_of(self.config.content_rules@, doc.content_type@, doc.is_list) is None
                ==> (r matches Err(Error::Generation(m)) && m@ == no_rule_message(doc.content_type@)),
    {
        let template = match template_for_document(&self.config.content_rules, doc) {
            Ok(t) => t,
            Err(e) => return Err(e),
        };
        self.render_document_with_template(output_base, doc, template.as_str())
    }

    /// Renders `doc` with `template` and writes the result to its output
    /// path.
    fn render_document_with_template(&self, output_base: &str, doc: &Document, template: &str) -> (r: Result<()>)
        ensures
            exists|built: Result<RenderContext>, rendered: Result<String>|
                #[trigger] self.document_rendered(*doc, template@, built, rendered, r),
    {
        let built = self.context_builder.build_context(&self.config, doc);
        let ghost bg = built;
        let ghost none: Result<String> = vstd::pervasive::arbitrary();
        let ctx = match built {
            Ok(c) => c,
            Err(e) => {
                let r = Err(e);
                assert(self.document_rendered(*doc, template@, bg, none, r));
                return r;
            },
        };
        let rendered = self.renderer.render(template, &ctx);
        let ghost rg = rendered;
        let html = match rendered {
            Ok(h) => h,
            Err(e) => {
                let r = Err(e);
                assert(self.document_rendered(*doc, template@, bg, rg, r));
                return r;
            },
        };
        let r = self.write_output(output_base, doc, html.as_str().as_bytes());
        assert(self.document_rendered(*doc, template@, bg, rg, r));
        r
    }

    /// Writes `content` to the output path of `doc` under `output_base`,
    /// creating its directory first; the path is kept inside the base.
    fn write_output(&self, output_base: &str, doc: &Document, content: &[u8]) -> (r: Result<()>)
        ensures
            r matches Err(e) ==> (e is Io || (e matches Error::Generation(m)
                && (has_prefix(m@, "unsafe output path: "@) || has_prefix(m@, "write output failed: "@)))),
    {
        let rel_out = doc.output_path.as_str();
        match parent(rel_out) {
            Some(p) => {
                let dir = join(output_base, p.as_str());
                match self.fs.create_dir_all(dir.as_str()) {
                    Ok(()) => {},
                    Err(e) => return Err(Error::Io(e.message)),
                }
            },
            None => {},
        }
        let dest = match safe_join(&*self.fs, output_base, rel_out) {
            Ok(d) => d,
            Err(e) => {
                let m = concat2("unsafe output path: ", e.message.as_str());
                assert(m@.take("unsafe output path: "@.len() as int) =~= "unsafe output path: "@);
                return Err(Error::Generation(m));
            },
        };
        match self.fs.write(dest.as_str(), content) {
            Ok(()) => Ok(()),
            Err(e) => {
                let m = concat2("write output failed: ", e.message.as_str());
                assert(m@.take("write output failed: "@.len() as int) =~= "write output failed: "@);
                Err(Error::Generation(m))
            },
        }
    }

    /// Copies the tree under `from` to `to`, directory by directory; a
    /// missing `from` copies nothing.
    fn copy_dir_all(&self, from: &str, to: &str) -> (r: Result<()>)
        ensures
            tree_copy_outcome(from@, to@, r),
            r matches Err(e) ==> (e is Io || (e matches Error::Generation(m) && m@ == "prefix not found"@)),
    {
        copy_tree(&*self.fs, from, to)
    }
}

/// Where a copy of the tree under `from` into `to` puts the entry found at
/// `entry`: its path relative to `from`, under `to`; `None` where `entry`
/// is not under `from`.
pub open spec fn copy_destination_of(entry: Seq<char>, from: Seq<char>, to: Seq<char>) -> Option<Seq<char>> {
    match strip_prefix_of(entry, from) {
        Some(rel) => Some(join_path(to, rel)),
        None => None,
    }
}

/// Where a copy of the tree under `from` into `to` puts the entry `entry`.
pub fn copy_destination(entry: &str, from: &str, to: &str) -> (r: Option<String>)
    ensures
        match r {
            Some(d) => copy_destination_of(entry@, from@, to@) == Some(d@),
            None => copy_destination_of(entry@, from@, to@) is None,
        },
{
    match strip_prefix(entry, from) {
        Some(rel) => Some(join(to, rel.as_str())),
        None => None,
    }
}

/// Whether `r` is what placing the walked `entries` from position `k` on
/// gives, given what placing each answered (`answers`, by position): each
/// entry goes to [`copy_destination_of`] the entry, where a directory is
/// created or a file copied (after its parent directory is created); an
/// entry outside `from` stops with the "prefix not found" error, a failure
/// stops with its error; after the last entry, `Ok`.
pub open spec fn entries_placed(from: Seq<char>, to: Seq<char>, entries: Seq<Seq<char>>, answers: Seq<Result<()>>,
    k: int, r: Result<()>) -> bool
    decreases entries.len() - k,
{
    if k < 0 || k >= entries.len() {
        r is Ok
    } else {
        match copy_destination_of(entries[k], from, to) {
            None => r matches Err(Error::Generation(m)) && m@ == "prefix not found"@,
            Some(_) => match answers[k] {
                Err(e) => r == Err::<(), Error>(e) && (e is Io),
                Ok(()) => entries_placed(from, to, entries, answers, k + 1, r),
            },
        }
    }
}

/// Whether the entry at `j` was placed: it lies under `from` and placing it
/// answered `Ok`.
pub open spec fn entry_placed_ok(from: Seq<char>, to: Seq<char>, entries: Seq<Seq<char>>, answers: Seq<Result<()>>,
    j: int) -> bool {
    copy_destination_of(entries[j], from, to) is Some && answers[j] is Ok
}

proof fn lemma_entries_prefix(from: Seq<char>, to: Seq<char>, entries: Seq<Seq<char>>, answers: Seq<Result<()>>,
    k: int, n: int, r: Result<()>)
    requires
        0 <= k <= n <= entries.len(),
        forall|j: int| k <= j < n ==> #[trigger] entry_placed_ok(from, to, entries, answers, j),
        entries_placed(from, to, entries, answers, n, r),
    ensures
        entries_placed(from, to, entries, answers, k, r),
    decreases n - k,
{
    if k < n {
        lemma_entries_prefix(from, to, entries, answers, k + 1, n, r);
        assert(entry_placed_ok(from, to, entries, answers, k));
    }
}

/// Whether `r` is what [`copy_tree`] gives, given whether `from` exists,
/// what creating `to` answered, what walking `from` answered and what
/// placing each entry answered ([`entries_placed`]): a missing `from`
/// copies nothing.
pub open spec fn tree_copied(from: Seq<char>, to: Seq<char>, exists: bool, made: IoResult<()>,
    walk: IoResult<Vec<String>>, answers: Seq<Result<()>>, r: Result<()>) -> bool {
    if !exists {
        r is Ok
    } else {
        match made {
            Err(e) => r matches Err(Error::Io(m)) && m@ == e.message@,
            Ok(()) => match walk {
                Err(e) => r matches Err(Error::Io(m)) && m@ == e.message@,
                Ok(entries) => entries_placed(from, to, texts(entries@), answers, 0, r),
            },
        }
    }
}

/// Whether `r` is what [`copy_tree`] gives for some answers of the file
/// system.
pub open spec fn tree_copy_outcome(from: Seq<char>, to: Seq<char>, r: Result<()>) -> bool {
    exists|exists: bool, made: IoResult<()>, walk: IoResult<Vec<String>>, answers: Seq<Result<()>>|
        #[trigger] tree_copied(from, to, exists, made, walk, answers, r)
}

/// Copies the tree under `from` to `to` through `fs`: each entry that the
/// walk finds is placed at its path relative to `from` under `to`;
/// directories are created and files copied (after their parent directory
/// is created). A missing `from` copies nothing.
pub fn copy_tree(fs: &dyn FileSystem, from: &str, to: &str) -> (r: Result<()>)
    ensures
        tree_copy_outcome(from@, to@, r),
        r matches Err(e) ==> (e is Io || (e matches Error::Generation(m) && m@ == "prefix not found"@)),
{
    let ghost okm: IoResult<()> = Ok(());
    let ghost okw: IoResult<Vec<String>> = vstd::pervasive::arbitrary();
    let ghost none: Seq<Result<()>> = Seq::empty();
    if !fs.path_exists(from) {
        let r = Ok(());
        assert(tree_copied(from@, to@, false, okm, okw, none, r));
        return r;
    }
    let made = fs.create_dir_all(to);
    let ghost mg = made;
    match made {
        Ok(()) => {},
        Err(e) => {
            let r = Err(Error::Io(e.message));
            assert(tree_copied(from@, to@, true, mg, okw, none, r));
            return r;
        },
    }
    let walk = fs.walk_dir(from);
    let ghost wg = walk;
    let entries = match walk {
        Ok(v) => v,
        Err(e) => {
            let r = Err(Error::Io(e.message));
            assert(tree_copied(from@, to@, true, mg, wg, none, r));
            return r;
        },
    };
    let ghost ev = texts(entries@);
    let ghost okr: Result<()> = Ok(());
    let ghost mut answers: Seq<Result<()>> = Seq::new(entries.len() as nat, |j: int| okr);
    let mut i: usize = 0;
    while i < entries.len()
        invariant
            i <= entries.len(),
            ev == texts(entries@),
            mg is Ok,
            wg == Ok::<Vec<String>, IoError>(entries),
            answers.len() == entries.len(),
            forall|j: int| 0 <= j < i ==> #[trigger] entry_placed_ok(from@, to@, ev, answers, j),
        decreases entries.len() - i,
    {
        let entry = entries[i].as_str();
        assert(ev[i as int] == entry@);
        let dest = match copy_destination(entry, from, to) {
            Some(d) => d,
            None => {
                let r = Err(Error::Generation("prefix not found".to_owned()));
                proof {
                    assert(entries_placed(from@, to@, ev, answers, i as int, r));
                    lemma_entries_prefix(from@, to@, ev, answers, 0, i as int, r);
                    assert(tree_copied(from@, to@, true, mg, wg, answers, r));
                }
                return r;
            },
        };
        let a = place_tree_entry(fs, entry, dest.as_str());
        let ghost prev = answers;
        proof { answers = answers.update(i as int, a); }
        assert forall|j: int| 0 <= j < i implies #[trigger] entry_placed_ok(from@, to@, ev, answers, j) by {
            assert(answers[j] == prev[j]);
            assert(entry_placed_ok(from@, to@, ev, prev, j));
        }
        match a {
            Ok(()) => {
                assert(entry_placed_ok(from@, to@, ev, answers, i as int));
            },
            Err(e) => {
                let r = Err(e);
                proof {
                    assert(entries_placed(from@, to@, ev, answers, i as int, r));
                    lemma_entries_prefix(from@, to@, ev, answers, 0, i as int, r);
                    assert(tree_copied(from@, to@, true, mg, wg, answers, r));
                }
                return r;
            },
        }
        i = i + 1;
    }
    let r = Ok(());
    proof {
        lemma_entries_prefix(from@, to@, ev, answers, 0, ev.len() as int, r);
        assert(tree_copied(from@, to@, true, mg, wg, answers, r));
    }
    r
}

/// Places the walked `entry` at `dest`: a directory is created there; a
/// file is copied there after its parent directory is created.
fn place_tree_entry(fs: &dyn FileSystem, entry: &str, dest: &str) -> (r: Result<()>)
    ensures
        r matches Err(e) ==> e is Io,
{
    if fs.is_dir(entry) {
        match fs.create_dir_all(dest) {
            Ok(()) => Ok(()),
            Err(e) => Err(Error::Io(e.message)),
        }
    } else {
        match parent(dest) {
            Some(p) => match fs.create_dir_all(p.as_str()) {
                Ok(()) => {},
                Err(e) => return Err(Error::Io(e.message)),
            },
            None => {},
        }
        match fs.copy_file(entry, dest) {
            Ok(_) => Ok(()),
            Err(e) => Err(Error::Io(e.message)),
        }
    }
}

/// The directory to use for `given`: where it is still the default
/// `default_name`, the configured directory takes its place.
pub open spec fn resolved_dir(given: Seq<char>, default_name: Seq<char>, configured: Seq<char>) -> Seq<char> {
    if same_path(given, default_name) {
        configured
    } else {
        given
    }
}

/// Collects what a pipeline needs and checks it.
pub struct PipelineBuilder {
    config: Config,
    content_dir: String,
    output_dir: String,
    fs: Box<dyn FileSystem>,
    renderer: Option<Box<dyn Renderer>>,
    processors: Vec<Box<dyn Processor>>,
    context_builder: Option<Box<dyn ContextBuilder>>,
    generators: Vec<Box<dyn Generator>>,
}

impl PipelineBuilder {
    /// The processors given so far, in order.
    pub closed spec fn processors_view(&self) -> Seq<Box<dyn Processor>> {
        self.processors@
    }

    /// The generators given so far, in order.
    pub closed spec fn generators_view(&self) -> Seq<Box<dyn Generator>> {
        self.generators@
    }

    /// The configuration collected so far.
    pub closed spec fn config_view(&self) -> Config {
        self.config
    }

    /// The content directory collected so far.
    pub closed spec fn content_dir_view(&self) -> Seq<char> {
        self.content_dir@
    }

    /// The output directory collected so far.
    pub closed spec fn output_dir_view(&self) -> Seq<char> {
        self.output_dir@
    }

    /// Whether a template engine was given.
    pub closed spec fn has_renderer(&self) -> bool {
        self.renderer is Some
    }

    /// Whether a context builder was given.
    pub closed spec fn has_context_builder(&self) -> bool {
        self.context_builder is Some
    }

    /// A builder over the file system `fs`, with the default configuration,
    /// the directories `content` and `dist`, and nothing else.
    pub fn new(fs: Box<dyn FileSystem>) -> (b: Self)
        ensures
            b.config_view().content_rules.len() == 0,
            b.config_view().site.site_name@ == "librawssg"@,
            b.content_dir_view() == "content"@,
            b.output_dir_view() == "dist"@,
            !b.has_renderer(),
            !b.has_context_builder(),
    {
        PipelineBuilder {
            config: Config::default(),
            content_dir: "content".to_owned(),
            output_dir: "dist".to_owned(),
            fs,
            renderer: None,
            processors: Vec::new(),
            context_builder: None,
            generators: Vec::new(),
        }
    }

    /// Sets the configuration.
    pub fn config(self, config: Config) -> (b: Self)
        ensures
            b.config_view() == config,
            b.content_dir_view() == self.content_dir_view(),
            b.output_dir_view() == self.output_dir_view(),
            b.has_renderer() == self.has_renderer(),
            b.has_context_builder() == self.has_context_builder(),
    {
        let mut b = self;
        b.config = config;
        b
    }

    /// Sets the content directory.
    pub fn content_dir(self, dir: &str) -> (b: Self)
        ensures
            b.config_view() == self.config_view(),
            b.content_dir_view() == dir@,
            b.output_dir_view() == self.output_dir_view(),
            b.has_renderer() == self.has_renderer(),
            b.has_context_builder() == self.has_context_builder(),
    {
        let mut b = self;
        b.content_dir = dir.to_owned();
        b
    }

    /// Sets the output directory.
    pub fn output_dir(self, dir: &str) -> (b: Self)
        ensures
            b.config_view() == self.config_view(),
            b.content_dir_view() == self.content_dir_view(),
            b.output_dir_view() == dir@,
            b.has_renderer() == self.has_renderer(),
            b.has_context_builder() == self.has_context_builder(),
    {
        let mut b = self;
        b.output_dir = dir.to_owned();
        b
    }

    /// Replaces the file system.
    pub fn with_fs(self, fs: Box<dyn FileSystem>) -> (b: Self)
        ensures
            b.config_view() == self.config_view(),
            b.content_dir_view() == self.content_dir_view(),
            b.output_dir_view() == self.output_dir_view(),
            b.has_renderer() == self.has_renderer(),
            b.has_context_builder() == self.has_context_builder(),
            b.processors_view() == self.processors_view(),
            b.generators_view() == self.generators_view(),
    {
        let mut b = self;
        b.fs = fs;
        b
    }

    /// Sets the template engine.
    pub fn with_renderer(self, renderer: Box<dyn Renderer>) -> (b: Self)
        ensures
            b.config_view() == self.config_view(),
            b.content_dir_view() == self.content_dir_view(),
            b.output_dir_view() == self.output_dir_view(),
            b.has_renderer(),
            b.has_context_builder() == self.has_context_builder(),
    {
        let mut b = self;
        b.renderer = Some(renderer);
        b
    }

    /// Adds a processor after those already given.
    pub fn add_processor(self, processor: Box<dyn Processor>) -> (b: Self)
        ensures
            b.config_view() == self.config_view(),
            b.content_dir_view() == self.content_dir_view(),
            b.output_dir_view() == self.output_dir_view(),
            b.has_renderer() == self.has_renderer(),
            b.has_context_builder() == self.has_context_builder(),
            b.processors_view() == self.processors_view().push(processor),
            b.generators_view() == self.generators_view(),
    {
        let mut b = self;
        b.processors.push(processor);
        b
    }

    /// Sets the context builder.
    pub fn with_context_builder(self, builder: Box<dyn ContextBuilder>) -> (b: Self)
        ensures
            b.config_view() == self.config_view(),
            b.content_dir_view() == self.content_dir_view(),
            b.output_dir_view() == self.output_dir_view(),
            b.has_renderer() == self.has_renderer(),
            b.has_context_builder(),
    {
        let mut b = self;
        b.context_builder = Some(builder);
        b
    }

    /// Adds a generator after those already given.
    pub fn add_generator(self, generator: Box<dyn Generator>) -> (b: Self)
        ensures
            b.config_view() == self.config_view(),
            b.content_dir_view() == self.content_dir_view(),
            b.output_dir_view() == self.output_dir_view(),
            b.has_renderer() == self.has_renderer(),
            b.has_context_builder() == self.has_context_builder(),
            b.processors_view() == self.processors_view(),
            b.generators_view() == self.generators_view().push(generator),
    {
        let mut b = self;
        b.generators.push(generator);
        b
    }

    /// The pipeline: the configuration must be valid, then a template
    /// engine and a context builder must have been given. A content or
    /// output directory still at its default (`content`, `dist`) is taken
    /// from the configuration.
    pub fn build(self) -> (r: Result<Pipeline>)
        ensures
            match self.config_view().validation_problem() {
                Some(p) => r matches Err(Error::Validation(m)) && m@ == p,
                None => if !self.has_renderer() {
                    r matches Err(Error::Config(m)) && m@ == "template renderer not set"@
                } else if !self.has_context_builder() {
                    r matches Err(Error::Config(m)) && m@ == "context builder not set"@
                } else {
                    r matches Ok(p) && {
                        &&& p.config_view() == self.config_view()
                        &&& p.content_dir_view() == resolved_dir(self.content_dir_view(), "content"@,
                            self.config_view().build.content_dir@)
                        &&& p.output_dir_view() == resolved_dir(self.output_dir_view(), "dist"@,
                            self.config_view().build.output_dir@)
                    }
                },
            },
    {
        match self.config.validate() {
            Ok(()) => {},
            Err(e) => return Err(e),
        }
        let content_dir = if path_eq(self.content_dir.as_str(), "content") {
            self.config.build.content_dir.clone()
        } else {
            self.content_dir
        };
        let output_dir = if path_eq(self.output_dir.as_str(), "dist") {
            self.config.build.output_dir.clone()
        } else {
            self.output_dir
        };
        let renderer = match self.renderer {
            Some(r) => r,
            None => return Err(Error::Config("template renderer not set".to_owned())),
        };
        let context_builder = match self.context_builder {
            Some(c) => c,
            None => return Err(Error::Config("context builder not set".to_owned())),
        };
        Ok(Pipeline {
            config: self.config,
            fs: self.fs,
            renderer,
            processors: self.processors,
            context_builder,
            generators: self.generators,
            content_dir,
            output_dir,
        })
    }
}

} // verus!
