//! The workspace index `docs.json` and the document list read from disk.
use vstd::prelude::*;

use crate::utils::error::{
    AppError, AppErrorView, detail, details_view, input_error, validation_error,
};
use crate::utils::markdown::{
    DocumentMetadata, extract_metadata, metadata_error_message, metadata_of,
};
use crate::utils::naming::{style_pattern, unsupported_style_error};
use crate::utils::paths::{
    anchored, build_document_path, compile_document_regex, document_problem,
    document_relative_path, join_path, namespace_problem, normalize_document_name, path_join,
    stem_of, validate_namespace,
};
use crate::utils::pattern::regex_compiles;
use crate::utils::text::{
    chars_of, has_prefix, has_suffix, matches_at, occurs_at, owned, seq_lt, sort_strings,
    sorted_seqs, string_from_range, str_eq, views,
};

pub use crate::utils::naming::{
    LOWERCASE_NAMING_STYLE, UPPERCASE_NAMING_STYLE, convert_name_to_naming_style,
    infer_naming_style_from_name, naming_style_regex, naming_style_uses_uppercase_doc_dir,
};

verus! {

pub const INDEX_FILE_NAME: &'static str = "docs.json";

pub const DEFAULT_INDEX_FILE: &'static str = "./AGENTS.md";

#[derive(Debug)]
pub struct DocumentEntry {
    pub namespace: String,
    pub document: String,
    pub path: String,
    pub title: String,
    pub description: String,
}

pub struct DocumentEntryView {
    pub namespace: Seq<char>,
    pub document: Seq<char>,
    pub path: Seq<char>,
    pub title: Seq<char>,
    pub description: Seq<char>,
}

impl View for DocumentEntry {
    type V = DocumentEntryView;

    open spec fn view(&self) -> DocumentEntryView {
        DocumentEntryView {
            namespace: self.namespace@,
            document: self.document@,
            path: self.path@,
            title: self.title@,
            description: self.description@,
        }
    }
}

pub open spec fn entry_views(v: Seq<DocumentEntry>) -> Seq<DocumentEntryView> {
    v.map_values(|e: DocumentEntry| e@)
}

impl DocumentEntry {
    pub fn duplicate(&self) -> (r: Self)
        ensures
            r@ == self@,
    {
        DocumentEntry {
            namespace: self.namespace.clone(),
            document: self.document.clone(),
            path: self.path.clone(),
            title: self.title.clone(),
            description: self.description.clone(),
        }
    }
}

#[derive(Debug)]
pub struct DocsIndex {
    pub index_file: String,
    pub doc_dir: String,
    pub naming_style: String,
}

impl DocsIndex {
    pub fn new(doc_dir: String, naming_style: String) -> (r: Self)
        ensures
            r.index_file@ == DEFAULT_INDEX_FILE@,
            r.doc_dir == doc_dir,
            r.naming_style == naming_style,
    {
        DocsIndex { index_file: owned(DEFAULT_INDEX_FILE), naming_style, doc_dir }
    }

    pub fn naming_style_regex(&self) -> (r: Result<String, AppError>)
        ensures
            r is Ok <==> style_pattern(self.naming_style@) is Some,
            r matches Ok(p) ==> p@ == style_pattern(self.naming_style@)->0,
            r matches Err(e) ==> e@ == unsupported_style_error(self.naming_style@),
    {
        naming_style_regex(self.naming_style.as_str())
    }

    pub fn duplicate(&self) -> (r: Self)
        ensures
            r.index_file@ == self.index_file@,
            r.doc_dir@ == self.doc_dir@,
            r.naming_style@ == self.naming_style@,
    {
        DocsIndex {
            index_file: self.index_file.clone(),
            doc_dir: self.doc_dir.clone(),
            naming_style: self.naming_style.clone(),
        }
    }
}

/// `root.join("docs.json")`.
pub fn index_path(root: &str) -> (r: String)
    ensures
        r@ == path_join(root@, INDEX_FILE_NAME@),
{
    join_path(root, INDEX_FILE_NAME)
}

// ---------------------------------------------------------------------------
// Paths written in docs.json
// ---------------------------------------------------------------------------

/// `p` without one leading `./`.
pub open spec fn strip_dot_slash(p: Seq<char>) -> Seq<char> {
    if has_prefix(p, "./"@) {
        p.skip(2)
    } else {
        p
    }
}

pub open spec fn backslash_to_slash(p: Seq<char>) -> Seq<char> {
    p.map_values(|c: char| if c == '\\' { '/' } else { c })
}

/// Whether `..` is a whole `/`-separated segment of `p` at index `i`.
pub open spec fn parent_segment_at(p: Seq<char>, i: int) -> bool {
    &&& occurs_at(p, ".."@, i)
    &&& (i == 0 || p[i - 1] == '/')
    &&& (i + 2 == p.len() || p[i + 2] == '/')
}

/// Whether a Unix path has a root or a parent-directory component.
pub open spec fn has_forbidden_component(p: Seq<char>) -> bool {
    (p.len() > 0 && p[0] == '/') || exists|i: int| parent_segment_at(p, i)
}

pub open spec fn has_drive_prefix(p: Seq<char>) -> bool {
    p.len() >= 2 && crate::utils::text::is_alpha(p[0]) && p[1] == ':'
}

/// A path in docs.json must stay inside the repository: relative, not the
/// repository itself, no `..` segment, whether `\` or `/` separates, and no
/// drive prefix.
pub open spec fn config_path_ok(p: Seq<char>) -> bool {
    let rel = strip_dot_slash(p);
    &&& rel.len() > 0
    &&& rel != "."@
    &&& !has_forbidden_component(p)
    &&& !has_forbidden_component(backslash_to_slash(rel))
    &&& !has_drive_prefix(rel)
}

pub open spec fn config_path_error(field: Seq<char>, path: Seq<char>) -> AppErrorView {
    input_error(
        "invalid_workspace_config"@,
        "workspace config path must be relative"@,
        seq![(field, path)],
    )
}

fn strip_dot_slash_exec(path: &str) -> (r: String)
    ensures
        r@ == strip_dot_slash(path@),
{
    let v = chars_of(path);
    proof {
        reveal_strlit("./");
    }
    if v.len() >= 2 && v[0] == '.' && v[1] == '/' {
        assert(v@.take(2) =~= "./"@);
        let r = string_from_range(&v, 2, v.len());
        assert(v@.subrange(2, v@.len() as int) =~= v@.skip(2));
        r
    } else {
        proof {
            if has_prefix(path@, "./"@) {
                assert(path@.take(2)[0] == '.' && path@.take(2)[1] == '/');
            }
        }
        owned(path)
    }
}

fn has_forbidden_config_path_component(v: &Vec<char>) -> (r: bool)
    ensures
        r == has_forbidden_component(v@),
{
    if v.len() > 0 && v[0] == '/' {
        return true;
    }
    let dots = chars_of("..");
    proof {
        reveal_strlit("..");
    }
    let mut i: usize = 0;
    while i < v.len()
        invariant
            i <= v.len(),
            dots@ == ".."@,
            dots@.len() == 2,
            forall|j: int| 0 <= j < i ==> !parent_segment_at(v@, j),
        decreases v.len() - i,
    {
        if matches_at(v, &dots, i) && (i == 0 || v[i - 1] == '/') && (i + 2 == v.len() || v[i
            + 2] == '/') {
            assert(parent_segment_at(v@, i as int));
            return true;
        }
        i = i + 1;
    }
    proof {
        assert forall|j: int| !parent_segment_at(v@, j) by {
            if j >= v@.len() {
                assert(!occurs_at(v@, ".."@, j));
            }
        }
    }
    false
}

fn slash_normalized(v: &Vec<char>) -> (r: Vec<char>)
    ensures
        r@ == backslash_to_slash(v@),
{
    let mut r: Vec<char> = Vec::new();
    let mut i: usize = 0;
    while i < v.len()
        invariant
            i <= v@.len(),
            r@ == backslash_to_slash(v@.take(i as int)),
        decreases v.len() - i,
    {
        if v[i] == '\\' {
            r.push('/');
        } else {
            r.push(v[i]);
        }
        i = i + 1;
        assert(r@ =~= backslash_to_slash(v@.take(i as int)));
    }
    assert(v@.take(v@.len() as int) =~= v@);
    r
}

/// Checks a path from docs.json; `field` names it in the error.
pub fn validate_config_path(field: &str, path: &str) -> (r: Result<(), AppError>)
    ensures
        r is Ok <==> config_path_ok(path@),
        r matches Err(e) ==> e@ == config_path_error(field@, path@),
{
    let relative = strip_dot_slash_exec(path);
    let rv = chars_of(relative.as_str());
    let pv = chars_of(path);
    let normalized = slash_normalized(&rv);
    proof {
        reveal_strlit(".");
    }
    if rv.len() == 0 || str_eq(relative.as_str(), ".") || has_forbidden_config_path_component(&pv)
        || has_forbidden_config_path_component(&normalized) || (rv.len() >= 2 && (('a' <= rv[0]
        && rv[0] <= 'z') || ('A' <= rv[0] && rv[0] <= 'Z')) && rv[1] == ':') {
        let mut d = Vec::new();
        d.push(detail(field, path));
        assert(details_view(d@) =~= seq![(field@, path@)]);
        return Err(
            AppError::input_with_details(
                "invalid_workspace_config",
                "workspace config path must be relative",
                d,
            ),
        );
    }
    Ok(())
}

/// An accepted path from docs.json, once its leading `./` is gone, is a
/// relative path with no `..` segment.
pub proof fn lemma_config_path_stays_inside(p: Seq<char>)
    requires
        config_path_ok(p),
    ensures
        strip_dot_slash(p).len() > 0,
        strip_dot_slash(p)[0] != '/',
        !has_forbidden_component(strip_dot_slash(p)),
{
    reveal_strlit("./");
    reveal_strlit("..");
    let rel = strip_dot_slash(p);
    if has_prefix(p, "./"@) {
        assert(p.take(2)[1] == '/');
        assert(p[1] == '/');
        assert(rel[0] == p[2]);
        if rel[0] == '/' {
            // then `./` followed by `/` gives no parent segment, but the
            // normalized path starts with a root
            assert(backslash_to_slash(rel)[0] == '/');
        }
        assert forall|i: int| !parent_segment_at(rel, i) by {
            if parent_segment_at(rel, i) {
                assert(p.subrange(i + 2, i + 4) =~= rel.subrange(i, i + 2));
                if i > 0 {
                    assert(p[i + 1] == rel[i - 1]);
                }
                if i + 2 < rel.len() {
                    assert(p[i + 4] == rel[i + 2]);
                }
                assert(parent_segment_at(p, i + 2));
            }
        }
    } else {
        assert(rel == p);
    }
}

/// `path` as a relative path, after checking it.
pub fn config_path_to_relative(path: &str) -> (r: Result<String, AppError>)
    ensures
        r is Ok <==> config_path_ok(path@),
        r matches Ok(s) ==> s@ == strip_dot_slash(path@),
        r matches Err(e) ==> e@ == config_path_error("path"@, path@),
{
    validate_config_path("path", path)?;
    Ok(strip_dot_slash_exec(path))
}

/// `path` as shown to the user, after checking it.
pub fn config_path_to_display(path: &str) -> (r: Result<String, AppError>)
    ensures
        r is Ok <==> config_path_ok(path@),
        r matches Ok(s) ==> s@ == strip_dot_slash(path@),
        r matches Err(e) ==> e@ == config_path_error("path"@, path@),
{
    validate_config_path("path", path)?;
    Ok(strip_dot_slash_exec(path))
}

/// The first problem of an index, if any: its two paths, its naming style,
/// the compilation of the style's pattern.
pub open spec fn index_ok(index: DocsIndex) -> bool {
    &&& config_path_ok(index.index_file@)
    &&& config_path_ok(index.doc_dir@)
    &&& style_pattern(index.naming_style@) is Some
    &&& regex_compiles(anchored(style_pattern(index.naming_style@)->0))
}

/// The outcome of `validate_index`: the first problem of the index.
pub open spec fn index_check(index: DocsIndex) -> Result<(), AppErrorView> {
    if !config_path_ok(index.index_file@) {
        Err(config_path_error("index_file"@, index.index_file@))
    } else if !config_path_ok(index.doc_dir@) {
        Err(config_path_error("doc_dir"@, index.doc_dir@))
    } else {
        match style_pattern(index.naming_style@) {
            None => Err(unsupported_style_error(index.naming_style@)),
            Some(p) => match crate::utils::paths::compiled_pattern(p) {
                Err(e) => Err(e),
                Ok(_) => Ok(()),
            },
        }
    }
}

/// Checks an index as read from or about to be written to docs.json.
pub fn validate_index(index: &DocsIndex) -> (r: Result<(), AppError>)
    ensures
        r is Ok <==> index_ok(*index),
        !config_path_ok(index.index_file@) ==> (r matches Err(e) && e@ == config_path_error(
            "index_file"@,
            index.index_file@,
        )),
        config_path_ok(index.index_file@) && !config_path_ok(index.doc_dir@) ==> (r matches Err(e)
            && e@ == config_path_error("doc_dir"@, index.doc_dir@)),
        config_path_ok(index.index_file@) && config_path_ok(index.doc_dir@) && style_pattern(
            index.naming_style@,
        ) is None ==> (r matches Err(e) && e@ == unsupported_style_error(index.naming_style@)),
        config_path_ok(index.index_file@) && config_path_ok(index.doc_dir@) && style_pattern(
            index.naming_style@,
        ) is Some ==> (r matches Err(e) ==> crate::utils::paths::compiled_pattern(
            style_pattern(index.naming_style@)->0,
        ) == Err::<Seq<char>, AppErrorView>(e@)),
        r matches Err(e) ==> index_check(*index) == Err::<(), AppErrorView>(e@),
{
    proof {
        crate::utils::paths::lemma_compiled_pattern(style_pattern(index.naming_style@)->0);
    }
    validate_config_path("index_file", index.index_file.as_str())?;
    validate_config_path("doc_dir", index.doc_dir.as_str())?;
    let pattern = index.naming_style_regex()?;
    compile_document_regex(pattern.as_str())?;
    Ok(())
}

/// The refusal when the root has no docs.json.
pub open spec fn index_not_found() -> AppErrorView {
    input_error(
        "workspace_index_not_found"@,
        "failed to locate docs.json; run adm init first"@,
        seq![("path"@, INDEX_FILE_NAME@)],
    )
}

pub fn index_not_found_error() -> (r: AppError)
    ensures
        r@ == index_not_found(),
{
    AppError::input_with_details(
        "workspace_index_not_found",
        "failed to locate docs.json; run adm init first",
        crate::utils::error::detail1("path", INDEX_FILE_NAME),
    )
}

/// The refusal of a docs.json that does not parse, with the parser's message.
pub open spec fn invalid_index_error(path: Seq<char>, source: Seq<char>) -> AppErrorView {
    input_error(
        "invalid_workspace_index"@,
        "docs.json is not valid JSON"@,
        seq![("path"@, path), ("source"@, source)],
    )
}

/// The index read from the docs.json at `relative_path`, given the outcome of
/// parsing it (the index, or the parser's message): a parse failure is
/// refused, and a parsed index is checked.
pub fn index_from_json(relative_path: &str, parsed: Result<DocsIndex, String>) -> (r: Result<
    DocsIndex,
    AppError,
>)
    ensures
        parsed matches Err(t) ==> (r matches Err(e) && e@ == invalid_index_error(
            relative_path@,
            t@,
        )),
        parsed matches Ok(ix) ==> (r is Ok <==> index_check(ix) is Ok),
        parsed matches Ok(ix) ==> (r matches Ok(x) ==> x == ix),
        parsed matches Ok(ix) ==> (r matches Err(e) ==> index_check(ix) == Err::<(), AppErrorView>(
            e@,
        )),
{
    match parsed {
        Err(source) => {
            let mut d = Vec::new();
            d.push(detail("path", relative_path));
            d.push(detail("source", source.as_str()));
            assert(details_view(d@) =~= seq![("path"@, relative_path@), ("source"@, source@)]);
            Err(
                AppError::input_with_details(
                    "invalid_workspace_index",
                    "docs.json is not valid JSON",
                    d,
                ),
            )
        },
        Ok(index) => {
            proof {
                crate::utils::paths::lemma_compiled_pattern(style_pattern(index.naming_style@)->0);
            }
            match validate_index(&index) {
                Ok(()) => Ok(index),
                Err(e) => Err(e),
            }
        },
    }
}

// ---------------------------------------------------------------------------
// Documents and their metadata
// ---------------------------------------------------------------------------

pub open spec fn required_structure() -> Seq<char> {
    "# <title> followed by 本文说明<description>。"@
}

pub open spec fn metadata_failure(
    relative_path: Seq<char>,
    e: crate::utils::markdown::DocumentMetadataError,
) -> AppErrorView {
    validation_error(
        "invalid_document_metadata"@,
        metadata_error_message(e),
        seq![("path"@, relative_path), ("required_structure"@, required_structure())],
    )
}

pub fn document_metadata_from_content(relative_path: &str, content: &str) -> (r: Result<
    DocumentMetadata,
    AppError,
>)
    ensures
        r is Ok <==> metadata_of(content@) is Ok,
        r matches Ok(m) ==> metadata_of(content@) == Ok::<_, crate::utils::markdown::DocumentMetadataError>(
            (m.title@, m.description@),
        ),
        r matches Err(e) ==> e@ == metadata_failure(relative_path@, metadata_of(content@)->Err_0),
{
    match extract_metadata(content) {
        Ok(m) => Ok(m),
        Err(error) => {
            let mut d = Vec::new();
            d.push(detail("path", relative_path));
            d.push(detail("required_structure", "# <title> followed by 本文说明<description>。"));
            assert(details_view(d@) =~= seq![
                ("path"@, relative_path@),
                ("required_structure"@, required_structure()),
            ]);
            Err(AppError::validation("invalid_document_metadata", error.message(), d))
        },
    }
}

// ---------------------------------------------------------------------------
// Directory listings
// ---------------------------------------------------------------------------

/// An entry of a directory listing: its file name and what it is.
#[derive(Debug)]
pub struct DirEntry {
    pub name: String,
    pub is_dir: bool,
    pub is_file: bool,
}

/// The namespace names among the entries of the documents directory, in
/// listing order.
pub open spec fn namespace_names(entries: Seq<DirEntry>) -> Seq<Seq<char>>
    decreases entries.len(),
{
    if entries.len() == 0 {
        Seq::empty()
    } else {
        let rest = namespace_names(entries.drop_last());
        let e = entries.last();
        if e.is_dir && namespace_problem(e.name@) is None {
            rest.push(e.name@)
        } else {
            rest
        }
    }
}

/// The namespaces of the documents directory: its subdirectories with a valid
/// namespace name, sorted.
pub fn namespaces_from_entries(entries: &Vec<DirEntry>) -> (r: Vec<String>)
    ensures
        sorted_seqs(views(r@)),
        views(r@).to_multiset() == namespace_names(entries@).to_multiset(),
{
    let mut names: Vec<String> = Vec::new();
    let mut i: usize = 0;
    while i < entries.len()
        invariant
            i <= entries@.len(),
            views(names@) == namespace_names(entries@.take(i as int)),
        decreases entries.len() - i,
    {
        proof {
            assert(entries@.take(i + 1).drop_last() =~= entries@.take(i as int));
        }
        let e = &entries[i];
        if e.is_dir && validate_namespace(e.name.as_str()).is_ok() {
            let ghost before = names@;
            names.push(e.name.clone());
            assert(views(names@) =~= views(before).push(e.name@));
        }
        i = i + 1;
    }
    assert(entries@.take(entries@.len() as int) =~= entries@);
    sort_strings(names)
}

/// The document stems among the entries of a directory, in listing order, or
/// the refusal of the first file whose name is not a document name.
pub open spec fn document_stems(entries: Seq<DirEntry>) -> Result<Seq<Seq<char>>, AppErrorView>
    decreases entries.len(),
{
    if entries.len() == 0 {
        Ok(Seq::empty())
    } else {
        match document_stems(entries.drop_last()) {
            Err(e) => Err(e),
            Ok(rest) => {
                let e = entries.last();
                if !has_suffix(e.name@, ".md"@) || !e.is_file {
                    Ok(rest)
                } else if document_problem(e.name@) is Some {
                    Err(
                        input_error(
                            "invalid_document_name"@,
                            document_problem(e.name@)->0,
                            seq![("document"@, e.name@)],
                        ),
                    )
                } else {
                    Ok(rest.push(stem_of(e.name@)))
                }
            },
        }
    }
}

/// The documents of a directory: its `.md` files, by stem, sorted.
pub fn document_stems_from_entries(entries: &Vec<DirEntry>) -> (r: Result<Vec<String>, AppError>)
    ensures
        r is Ok <==> document_stems(entries@) is Ok,
        r matches Ok(v) ==> sorted_seqs(views(v@)) && views(v@).to_multiset() == document_stems(
            entries@,
        )->Ok_0.to_multiset(),
        r matches Err(e) ==> document_stems(entries@) == Err::<Seq<Seq<char>>, AppErrorView>(e@),
{
    let mut stems: Vec<String> = Vec::new();
    let suffix = chars_of(".md");
    proof {
        reveal_strlit(".md");
    }
    let mut i: usize = 0;
    assert(views(stems@) =~= Seq::<Seq<char>>::empty());
    assert(entries@.take(0) =~= Seq::<DirEntry>::empty());
    while i < entries.len()
        invariant
            i <= entries@.len(),
            suffix@ == ".md"@,
            document_stems(entries@.take(i as int)) == Ok::<Seq<Seq<char>>, AppErrorView>(
                views(stems@),
            ),
        decreases entries.len() - i,
    {
        proof {
            assert(entries@.take(i + 1).drop_last() =~= entries@.take(i as int));
        }
        let e = &entries[i];
        let name = chars_of(e.name.as_str());
        if crate::utils::text::ends_with_chars(&name, &suffix) && e.is_file {
            match normalize_document_name(e.name.as_str()) {
                Ok(stem) => {
                    let ghost before = stems@;
                    stems.push(stem);
                    assert(views(stems@) =~= views(before).push(stem_of(e.name@)));
                },
                Err(error) => {
                    proof {
                        let t = entries@.take(i + 1);
                        assert(document_stems(entries@.take(i + 1)) == Err::<
                            Seq<Seq<char>>,
                            AppErrorView,
                        >(error@));
                        lemma_document_stems_error_stays(entries@, i + 1);
                    }
                    return Err(error);
                },
            }
        }
        i = i + 1;
    }
    assert(entries@.take(entries@.len() as int) =~= entries@);
    Ok(sort_strings(stems))
}

proof fn lemma_document_stems_error_stays(entries: Seq<DirEntry>, k: int)
    requires
        0 <= k <= entries.len(),
        document_stems(entries.take(k)) is Err,
    ensures
        document_stems(entries) == document_stems(entries.take(k)),
    decreases entries.len() - k,
{
    if k == entries.len() {
        assert(entries.take(k) =~= entries);
    } else {
        assert(entries.take(k + 1).drop_last() =~= entries.take(k));
        lemma_document_stems_error_stays(entries, k + 1);
    }
}

/// A namespace with the listing of its document stems (or why it could not
/// be listed).
#[derive(Debug)]
pub struct NamespaceListing {
    pub namespace: String,
    pub documents: Result<Vec<String>, AppError>,
}

pub open spec fn listing_view(r: Result<Vec<String>, AppError>) -> Result<
    Seq<Seq<char>>,
    AppErrorView,
> {
    match r {
        Ok(v) => Ok(views(v@)),
        Err(e) => Err(e@),
    }
}

impl View for NamespaceListing {
    type V = (Seq<char>, Result<Seq<Seq<char>>, AppErrorView>);

    open spec fn view(&self) -> (Seq<char>, Result<Seq<Seq<char>>, AppErrorView>) {
        (self.namespace@, listing_view(self.documents))
    }
}

pub open spec fn listing_views(v: Seq<NamespaceListing>) -> Seq<
    (Seq<char>, Result<Seq<Seq<char>>, AppErrorView>),
> {
    v.map_values(|l: NamespaceListing| l@)
}

pub open spec fn namespaces_view(r: Result<Vec<NamespaceListing>, AppError>) -> Result<
    Seq<(Seq<char>, Result<Seq<Seq<char>>, AppErrorView>)>,
    AppErrorView,
> {
    match r {
        Ok(v) => Ok(listing_views(v@)),
        Err(e) => Err(e@),
    }
}

// ---------------------------------------------------------------------------
// Reading every document
// ---------------------------------------------------------------------------

/// One step of reading the documents: a document found in a listing with the
/// outcome of reading its file, or a listing that failed.
#[derive(Debug)]
pub enum ScanItem {
    Document { namespace: String, stem: String, content: Result<String, AppError> },
    Failed(AppError),
}

/// The entry of a document, or why it cannot be read.
pub open spec fn scan_entry(
    dir: Seq<char>,
    namespace: Seq<char>,
    stem: Seq<char>,
    content: Seq<char>,
) -> Result<DocumentEntryView, AppErrorView> {
    let path = document_relative_path(dir, namespace, stem);
    match metadata_of(content) {
        Err(me) => Err(metadata_failure(path, me)),
        Ok((title, description)) => Ok(
            DocumentEntryView { namespace, document: stem, path, title, description },
        ),
    }
}

/// The entries of the documents in reading order, or the first failure.
pub open spec fn scan_entries(dir: Seq<char>, items: Seq<ScanItem>) -> Result<
    Seq<DocumentEntryView>,
    AppErrorView,
>
    decreases items.len(),
{
    if items.len() == 0 {
        Ok(Seq::empty())
    } else {
        match scan_entries(dir, items.drop_last()) {
            Err(e) => Err(e),
            Ok(done) => match items.last() {
                ScanItem::Failed(e) => Err(e@),
                ScanItem::Document { namespace, stem, content } => match content {
                    Err(e) => Err(e@),
                    Ok(c) => match scan_entry(dir, namespace@, stem@, c@) {
                        Err(e) => Err(e),
                        Ok(entry) => Ok(done.push(entry)),
                    },
                },
            },
        }
    }
}

proof fn lemma_scan_entries_error_stays(dir: Seq<char>, items: Seq<ScanItem>, k: int)
    requires
        0 <= k <= items.len(),
        scan_entries(dir, items.take(k)) is Err,
    ensures
        scan_entries(dir, items) == scan_entries(dir, items.take(k)),
    decreases items.len() - k,
{
    if k == items.len() {
        assert(items.take(k) =~= items);
    } else {
        assert(items.take(k + 1).drop_last() =~= items.take(k));
        lemma_scan_entries_error_stays(dir, items, k + 1);
    }
}

/// A scan that succeeds gives one entry per scanned document, in reading
/// order: every item is a document that could be read and whose metadata
/// header is valid, and its entry carries its namespace, its stem, its path
/// under the documents directory and the title and description of the header.
pub proof fn lemma_scan_entries_exact(dir: Seq<char>, items: Seq<ScanItem>)
    requires
        scan_entries(dir, items) is Ok,
    ensures
        scan_entries(dir, items)->Ok_0.len() == items.len(),
        forall|k: int|
            0 <= k < items.len() ==> (#[trigger] items[k] matches ScanItem::Document {
                namespace,
                stem,
                content,
            } && content matches Ok(c) && metadata_of(c@) matches Ok((title, description))
                && scan_entries(dir, items)->Ok_0[k] == DocumentEntryView {
                namespace: namespace@,
                document: stem@,
                path: document_relative_path(dir, namespace@, stem@),
                title,
                description,
            }),
    decreases items.len(),
{
    if items.len() > 0 {
        let init = items.drop_last();
        lemma_scan_entries_exact(dir, init);
        assert forall|k: int| 0 <= k < items.len() implies (#[trigger] items[k] matches ScanItem::Document {
            namespace,
            stem,
            content,
        } && content matches Ok(c) && metadata_of(c@) matches Ok((title, description))
            && scan_entries(dir, items)->Ok_0[k] == DocumentEntryView {
            namespace: namespace@,
            document: stem@,
            path: document_relative_path(dir, namespace@, stem@),
            title,
            description,
        }) by {
            if k < init.len() {
                assert(items[k] == init[k]);
            }
        }
    }
}

pub open spec fn sorted_by_path(v: Seq<DocumentEntryView>) -> bool {
    forall|i: int, j: int|
        0 <= i < j < v.len() ==> !seq_lt(#[trigger] v[j].path, #[trigger] v[i].path)
}

/// The documents of the workspace, sorted by path, or the first failure in
/// reading order.
pub fn documents_from_scan(documents_directory_name: &str, items: &Vec<ScanItem>) -> (r: Result<
    Vec<DocumentEntry>,
    AppError,
>)
    ensures
        r is Ok <==> scan_entries(documents_directory_name@, items@) is Ok,
        r matches Err(e) ==> scan_entries(documents_directory_name@, items@) == Err::<
            Seq<DocumentEntryView>,
            AppErrorView,
        >(e@),
        r matches Ok(v) ==> entry_views(v@) == sorted_entries(
            scan_entries(documents_directory_name@, items@)->Ok_0,
        ),
        r matches Ok(v) ==> sorted_by_path(entry_views(v@)) && entry_views(v@).to_multiset()
            == scan_entries(documents_directory_name@, items@)->Ok_0.to_multiset(),
{
    let ghost dir = documents_directory_name@;
    let mut documents: Vec<DocumentEntry> = Vec::new();
    let mut i: usize = 0;
    assert(entry_views(documents@) =~= Seq::<DocumentEntryView>::empty());
    assert(items@.take(0) =~= Seq::<ScanItem>::empty());
    while i < items.len()
        invariant
            i <= items@.len(),
            dir == documents_directory_name@,
            scan_entries(dir, items@.take(i as int)) == Ok::<Seq<DocumentEntryView>, AppErrorView>(
                entry_views(documents@),
            ),
        decreases items.len() - i,
    {
        proof {
            assert(items@.take(i + 1).drop_last() =~= items@.take(i as int));
            assert(items@.take(i + 1).last() == items@[i as int]);
        }
        match &items[i] {
            ScanItem::Failed(e) => {
                proof {
                    lemma_scan_entries_error_stays(dir, items@, i + 1);
                }
                return Err(e.duplicate());
            },
            ScanItem::Document { namespace, stem, content } => match content {
                Err(e) => {
                    proof {
                        lemma_scan_entries_error_stays(dir, items@, i + 1);
                    }
                    return Err(e.duplicate());
                },
                Ok(c) => {
                    let doc_path = build_document_path(
                        documents_directory_name,
                        namespace.as_str(),
                        stem.as_str(),
                    );
                    match document_metadata_from_content(
                        doc_path.relative_path.as_str(),
                        c.as_str(),
                    ) {
                        Err(e) => {
                            proof {
                                lemma_scan_entries_error_stays(dir, items@, i + 1);
                            }
                            return Err(e);
                        },
                        Ok(metadata) => {
                            let ghost before = documents@;
                            documents.push(
                                DocumentEntry {
                                    namespace: namespace.clone(),
                                    document: stem.clone(),
                                    path: doc_path.relative_path,
                                    title: metadata.title,
                                    description: metadata.description,
                                },
                            );
                            proof {
                                assert(entry_views(documents@) =~= entry_views(before).push(
                                    documents@.last()@,
                                ));
                            }
                        },
                    }
                },
            },
        }
        i = i + 1;
    }
    assert(items@.take(items@.len() as int) =~= items@);
    Ok(sort_documents_by_path(documents))
}

/// `x` put into `s` before the first entry whose path is greater.
pub open spec fn insert_by_path(s: Seq<DocumentEntryView>, x: DocumentEntryView) -> Seq<
    DocumentEntryView,
>
    decreases s.len(),
{
    if s.len() == 0 {
        seq![x]
    } else if seq_lt(x.path, s[0].path) {
        seq![x] + s
    } else {
        seq![s[0]] + insert_by_path(s.drop_first(), x)
    }
}

/// The entries sorted by path; entries with equal paths keep their order
/// (the stable sort of `sort_by`).
pub open spec fn sorted_entries(s: Seq<DocumentEntryView>) -> Seq<DocumentEntryView>
    decreases s.len(),
{
    if s.len() == 0 {
        Seq::empty()
    } else {
        insert_by_path(sorted_entries(s.drop_last()), s.last())
    }
}

proof fn lemma_insert_by_path_at(s: Seq<DocumentEntryView>, x: DocumentEntryView, pos: int)
    requires
        0 <= pos <= s.len(),
        forall|k: int| 0 <= k < pos ==> !seq_lt(x.path, #[trigger] s[k].path),
        pos == s.len() || seq_lt(x.path, s[pos].path),
    ensures
        insert_by_path(s, x) == s.insert(pos, x),
    decreases pos,
{
    if pos == 0 {
        if s.len() == 0 {
            assert(s.insert(0, x) =~= seq![x]);
        } else {
            assert(s.insert(0, x) =~= seq![x] + s);
        }
    } else {
        let t = s.drop_first();
        assert(!seq_lt(x.path, s[0].path));
        assert forall|k: int| 0 <= k < pos - 1 implies !seq_lt(x.path, #[trigger] t[k].path) by {
            assert(t[k] == s[k + 1]);
        }
        if pos < s.len() {
            assert(t[pos - 1] == s[pos]);
        }
        lemma_insert_by_path_at(t, x, pos - 1);
        assert(s.insert(pos, x) =~= seq![s[0]] + t.insert(pos - 1, x));
    }
}

/// `documents.sort_by(|l, r| l.path.cmp(&r.path))`.
pub fn sort_documents_by_path(v: Vec<DocumentEntry>) -> (r: Vec<DocumentEntry>)
    ensures
        entry_views(r@) == sorted_entries(entry_views(v@)),
        sorted_by_path(entry_views(r@)),
        entry_views(r@).to_multiset() == entry_views(v@).to_multiset(),
{
    let mut r: Vec<DocumentEntry> = Vec::new();
    let mut v = v;
    let ghost orig = entry_views(v@);
    let n = v.len();
    let mut taken: usize = 0;
    proof {
        assert(entry_views(r@) =~= Seq::<DocumentEntryView>::empty());
        assert(orig.take(0) =~= Seq::<DocumentEntryView>::empty());
        assert(orig.skip(0) =~= orig);
    }
    while v.len() > 0
        invariant
            taken + v@.len() == orig.len() == n,
            entry_views(v@) == orig.skip(taken as int),
            sorted_by_path(entry_views(r@)),
            entry_views(r@).to_multiset() == orig.take(taken as int).to_multiset(),
            entry_views(r@) == sorted_entries(orig.take(taken as int)),
        decreases v.len(),
    {
        let ghost old_v = v@;
        let x = v.remove(0);
        let ghost xv = x@;
        proof {
            assert(entry_views(old_v)[0] == old_v[0]@);
            assert(orig.skip(taken as int)[0] == orig[taken as int]);
            assert(xv == orig[taken as int]);
            assert(v@ =~= old_v.skip(1));
            assert forall|k: int| 0 <= k < v@.len() implies entry_views(v@)[k] == orig.skip(
                taken + 1,
            )[k] by {
                assert(entry_views(old_v)[k + 1] == old_v[k + 1]@);
                assert(orig.skip(taken as int)[k + 1] == orig[taken + 1 + k]);
            }
            assert(entry_views(v@) =~= orig.skip(taken + 1));
        }
        let xc = chars_of(x.path.as_str());
        let mut pos: usize = 0;
        while pos < r.len() && !crate::utils::text::chars_lt(&xc, &chars_of(r[pos].path.as_str()))
            invariant
                pos <= r@.len(),
                xc@ == xv.path,
                forall|k: int| 0 <= k < pos ==> !seq_lt(xv.path, #[trigger] r@[k]@.path),
            decreases r.len() - pos,
        {
            pos = pos + 1;
        }
        let ghost old_r = r@;
        r.insert(pos, x);
        proof {
            let ov = entry_views(old_r);
            let nv = entry_views(r@);
            assert(nv =~= ov.insert(pos as int, xv));
            assert forall|k: int| 0 <= k < pos implies !seq_lt(xv.path, #[trigger] ov[k].path) by {
                assert(ov[k] == old_r[k]@);
            }
            if pos < ov.len() {
                assert(ov[pos as int] == old_r[pos as int]@);
            }
            lemma_insert_by_path_at(ov, xv, pos as int);
            assert(orig.take(taken + 1).drop_last() =~= orig.take(taken as int));
            assert(orig.take(taken + 1).last() == xv);
            assert forall|a: int, b: int| 0 <= a < b < nv.len() implies !seq_lt(
                #[trigger] nv[b].path,
                #[trigger] nv[a].path,
            ) by {
                if b < pos {
                    assert(nv[a] == ov[a] && nv[b] == ov[b]);
                } else if a > pos {
                    assert(nv[a] == ov[a - 1] && nv[b] == ov[b - 1]);
                } else if a == pos {
                    assert(nv[b] == ov[b - 1]);
                    if seq_lt(nv[b].path, xv.path) {
                        if pos < ov.len() {
                            assert(seq_lt(xv.path, ov[pos as int].path));
                            if b - 1 > pos {
                                assert(!seq_lt(ov[b - 1].path, ov[pos as int].path));
                            }
                            crate::utils::text::lemma_seq_lt_transitive(
                                nv[b].path,
                                xv.path,
                                ov[pos as int].path,
                            );
                            crate::utils::text::lemma_seq_lt_irreflexive(ov[pos as int].path);
                        }
                    }
                } else if b == pos {
                    assert(nv[a] == ov[a]);
                    assert(!seq_lt(xv.path, old_r[a]@.path));
                } else {
                    assert(nv[a] == ov[a] && nv[b] == ov[b - 1]);
                }
            }
            assert(ov.insert(pos as int, xv) =~= ov.subrange(0, pos as int).push(xv)
                + ov.subrange(pos as int, ov.len() as int));
            vstd::seq_lib::lemma_multiset_commutative(
                ov.subrange(0, pos as int).push(xv),
                ov.subrange(pos as int, ov.len() as int),
            );
            vstd::seq_lib::lemma_multiset_commutative(
                ov.subrange(0, pos as int),
                ov.subrange(pos as int, ov.len() as int),
            );
            assert(ov.subrange(0, pos as int) + ov.subrange(pos as int, ov.len() as int) =~= ov);
            ov.subrange(0, pos as int).to_multiset_ensures();
            assert(orig.take(taken + 1) =~= orig.take(taken as int).push(xv));
            orig.take(taken as int).to_multiset_ensures();
        }
        taken = taken + 1;
    }
    proof {
        assert(orig.take(taken as int) =~= orig);
    }
    r
}

} // verus!
