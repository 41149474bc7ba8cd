//! The document commands: list, create, rename, delete and patch.
//!
//! Each command is decided here from what was read on disk (the workspace,
//! the document list, whether a directory or file is there); the caller then
//! carries out the one change on disk that the decision names.
use vstd::prelude::*;

use crate::document::types::{
    DocumentCreated, DocumentDeleted, DocumentPatched, DocumentRenamed, DocumentSummary,
};
use crate::namespace::config::{
    NamespaceConfig, document_name_check, namespace_name_check, read, validate_document_name,
    validate_namespace_name_style,
};
use crate::utils::error::{
    AppError, AppErrorView, DetailLine, decimal, decimal_string, detail, detail1, details_view,
    fs_error, validation_error,
};
use crate::utils::index::{
    DocsIndex, DocumentEntry, DocumentEntryView, document_metadata_from_content, entry_views,
    metadata_failure,
};
use crate::utils::markdown::metadata_of;
use crate::utils::naming::{style_pattern, unsupported_style_error};
use crate::utils::paths::{
    DocumentPath, build_document_path, document_check, document_relative_path, join_path,
    namespace_check, normalize_document_name, path_join, validate_namespace,
};
use crate::utils::text::{concat3, owned, str_eq};
use crate::utils::workspace::{FoundWorkspace, Workspace};

verus! {

// ---------------------------------------------------------------------------
// Shared steps
// ---------------------------------------------------------------------------

pub open spec fn opt_view(o: Option<&str>) -> Option<Seq<char>> {
    match o {
        Some(s) => Some(s@),
        None => None,
    }
}

pub open spec fn or_empty(o: Option<Seq<char>>) -> Seq<char> {
    match o {
        Some(s) => s,
        None => Seq::empty(),
    }
}

pub open spec fn found_view(found: Result<FoundWorkspace, AppError>) -> Result<
    FoundWorkspace,
    AppErrorView,
> {
    match found {
        Ok(f) => Ok(f),
        Err(e) => Err(e@),
    }
}

/// The naming pattern that docs.json gives.
pub open spec fn index_pattern(index: DocsIndex) -> Result<Seq<char>, AppErrorView> {
    match style_pattern(index.naming_style@) {
        None => Err(unsupported_style_error(index.naming_style@)),
        Some(p) => Ok(p),
    }
}

/// The pattern for a command on `namespace`, when one is given, or on the
/// root: a given namespace name is checked first.
pub open spec fn selected_pattern(index: DocsIndex, namespace: Option<Seq<char>>) -> Result<
    Seq<char>,
    AppErrorView,
> {
    match namespace {
        Some(ns) => match namespace_check(ns) {
            Err(e) => Err(e),
            Ok(_) => index_pattern(index),
        },
        None => index_pattern(index),
    }
}

/// A given namespace must be a valid name that matches the pattern.
pub open spec fn namespace_style(namespace: Option<Seq<char>>, pattern: Seq<char>) -> Result<
    (),
    AppErrorView,
> {
    match namespace {
        None => Ok(()),
        Some(ns) => match namespace_check(ns) {
            Err(e) => Err(e),
            Ok(_) => namespace_name_check(ns, pattern),
        },
    }
}

pub open spec fn namespace_not_found_error(namespace: Seq<char>) -> AppErrorView {
    validation_error(
        "namespace_not_found"@,
        "namespace does not exist"@,
        seq![("namespace"@, namespace)],
    )
}

pub open spec fn document_not_found_error(path: Seq<char>) -> AppErrorView {
    validation_error("document_not_found"@, "document does not exist"@, seq![("path"@, path)])
}

pub open spec fn document_exists_error(message: Seq<char>, path: Seq<char>) -> AppErrorView {
    validation_error("document_exists"@, message, seq![("path"@, path)])
}

pub open spec fn metadata_check(path: Seq<char>, content: Seq<char>) -> Result<(), AppErrorView> {
    match metadata_of(content) {
        Err(me) => Err(metadata_failure(path, me)),
        Ok(_) => Ok(()),
    }
}

/// Where a document is on disk: the root joined with its directory, its
/// namespace and its file name.
pub open spec fn document_file(
    root: Seq<char>,
    dir: Seq<char>,
    namespace: Seq<char>,
    stem: Seq<char>,
) -> Seq<char> {
    path_join(
        root,
        if namespace.len() == 0 {
            path_join(dir, stem + ".md"@)
        } else {
            path_join(path_join(dir, namespace), stem + ".md"@)
        },
    )
}

/// The document that a command names, with the pattern of its namespace:
/// the document name, the workspace, the namespace and its naming, and that
/// the namespace directory is there.
pub open spec fn selected_document(
    found: Result<FoundWorkspace, AppErrorView>,
    namespace: Option<Seq<char>>,
    doc_name: Seq<char>,
    namespace_is_dir: bool,
) -> Result<(Seq<char>, Seq<char>), AppErrorView> {
    match document_check(doc_name) {
        Err(e) => Err(e),
        Ok(stem) => match found {
            Err(e) => Err(e),
            Ok(f) => match selected_pattern(f.index, namespace) {
                Err(e) => Err(e),
                Ok(p) => match namespace_style(namespace, p) {
                    Err(e) => Err(e),
                    Ok(_) => if or_empty(namespace).len() > 0 && !namespace_is_dir {
                        Err(namespace_not_found_error(or_empty(namespace)))
                    } else {
                        Ok((stem, p))
                    },
                },
            },
        },
    }
}

fn namespace_not_found(namespace: &str) -> (r: AppError)
    ensures
        r@ == namespace_not_found_error(namespace@),
{
    AppError::validation("namespace_not_found", "namespace does not exist", detail1("namespace", namespace))
}

fn document_not_found(path: &str) -> (r: AppError)
    ensures
        r@ == document_not_found_error(path@),
{
    AppError::validation("document_not_found", "document does not exist", detail1("path", path))
}

/// The naming rule that a document command applies: that of the named
/// namespace, once its name is checked, or that of the root.
fn document_namespace_config(f: &FoundWorkspace, namespace: Option<&str>) -> (r: Result<
    NamespaceConfig,
    AppError,
>)
    ensures
        r is Ok <==> selected_pattern(f.index, opt_view(namespace)) is Ok,
        r matches Ok(c) ==> selected_pattern(f.index, opt_view(namespace)) == Ok::<
            Seq<char>,
            AppErrorView,
        >(c.naming_style_regex@),
        r matches Err(e) ==> selected_pattern(f.index, opt_view(namespace)) == Err::<
            Seq<char>,
            AppErrorView,
        >(e@),
{
    match namespace {
        Some(ns) => read(f, ns),
        None => NamespaceConfig::from_workspace(f),
    }
}

fn check_namespace_style(namespace: Option<&str>, config: &NamespaceConfig) -> (r: Result<
    (),
    AppError,
>)
    ensures
        r is Ok <==> namespace_style(opt_view(namespace), config.naming_style_regex@) is Ok,
        r matches Err(e) ==> namespace_style(opt_view(namespace), config.naming_style_regex@)
            == Err::<(), AppErrorView>(e@),
{
    match namespace {
        None => Ok(()),
        Some(ns) => match validate_namespace(ns) {
            Err(e) => Err(e),
            Ok(()) => validate_namespace_name_style(ns, config),
        },
    }
}

fn or_empty_str<'a>(o: Option<&'a str>) -> (r: &'a str)
    ensures
        r@ == or_empty(opt_view(o)),
{
    match o {
        Some(s) => s,
        None => {
            proof {
                reveal_strlit("");
                assert(""@ =~= Seq::<char>::empty());
            }
            ""
        },
    }
}

fn select_document(
    found: &Result<FoundWorkspace, AppError>,
    namespace: Option<&str>,
    doc_name: &str,
    namespace_is_dir: bool,
) -> (r: Result<(String, NamespaceConfig), AppError>)
    ensures
        r is Ok <==> selected_document(
            found_view(*found),
            opt_view(namespace),
            doc_name@,
            namespace_is_dir,
        ) is Ok,
        r matches Ok((stem, c)) ==> selected_document(
            found_view(*found),
            opt_view(namespace),
            doc_name@,
            namespace_is_dir,
        ) == Ok::<(Seq<char>, Seq<char>), AppErrorView>((stem@, c.naming_style_regex@)),
        r matches Err(e) ==> selected_document(
            found_view(*found),
            opt_view(namespace),
            doc_name@,
            namespace_is_dir,
        ) == Err::<(Seq<char>, Seq<char>), AppErrorView>(e@),
{
    let stem = match normalize_document_name(doc_name) {
        Ok(s) => s,
        Err(e) => return Err(e),
    };
    let f = match found {
        Ok(f) => f,
        Err(e) => return Err(e.duplicate()),
    };
    let config = match document_namespace_config(f, namespace) {
        Ok(c) => c,
        Err(e) => return Err(e),
    };
    match check_namespace_style(namespace, &config) {
        Ok(()) => {},
        Err(e) => return Err(e),
    }
    let ns = or_empty_str(namespace);
    if ns.unicode_len() > 0 && !namespace_is_dir {
        return Err(namespace_not_found(ns));
    }
    Ok((stem, config))
}

fn document_file_of(workspace: &Workspace, path: &DocumentPath) -> (r: String)
    requires
        path.documents_directory_name@ == workspace.documents_directory_name@,
        path.file_name@ == path.document_stem@ + ".md"@,
    ensures
        r@ == document_file(
            workspace.root@,
            workspace.documents_directory_name@,
            path.namespace@,
            path.document_stem@,
        ),
{
    let relative = path.to_path_buf();
    join_path(workspace.root.as_str(), relative.as_str())
}

// ---------------------------------------------------------------------------
// Creating a document
// ---------------------------------------------------------------------------

/// What creating a document decides. The documents directory is made first
/// when the document goes to the root; `outcome` is what is reported after
/// that: the refusal, or the document to write to `file`.
#[derive(Debug)]
pub struct CreatePlan {
    pub ensure_documents_directory: bool,
    pub file: String,
    pub outcome: Result<DocumentCreated, AppError>,
}

/// (path, document, namespace) of a created document.
pub open spec fn created_view(c: DocumentCreated) -> (Seq<char>, Seq<char>, Seq<char>) {
    (c.path@, c.document@, c.namespace@)
}

/// The outcome after the documents directory: the document name against the
/// pattern, the metadata of the content, and that no file is there yet.
pub open spec fn create_outcome(
    dir: Seq<char>,
    namespace: Seq<char>,
    stem: Seq<char>,
    pattern: Seq<char>,
    content: Seq<char>,
    document_exists: bool,
) -> Result<(Seq<char>, Seq<char>, Seq<char>), AppErrorView> {
    let path = document_relative_path(dir, namespace, stem);
    match document_name_check(namespace, stem, pattern) {
        Err(e) => Err(e),
        Ok(_) => match metadata_check(path, content) {
            Err(e) => Err(e),
            Ok(_) => if document_exists {
                Err(document_exists_error("document already exists"@, path))
            } else {
                Ok((path, stem, namespace))
            },
        },
    }
}

/// Decides `docs create`, given the workspace, whether the namespace
/// directory is there, and whether the document file exists.
pub fn create(
    found: &Result<FoundWorkspace, AppError>,
    namespace: Option<&str>,
    doc_name: &str,
    markdown_content: &str,
    namespace_is_dir: bool,
    document_exists: bool,
) -> (r: Result<CreatePlan, AppError>)
    ensures
        r is Ok <==> selected_document(
            found_view(*found),
            opt_view(namespace),
            doc_name@,
            namespace_is_dir,
        ) is Ok,
        r matches Err(e) ==> selected_document(
            found_view(*found),
            opt_view(namespace),
            doc_name@,
            namespace_is_dir,
        ) == Err::<(Seq<char>, Seq<char>), AppErrorView>(e@),
        r matches Ok(plan) ==> ({
            let (stem, pattern) = selected_document(
                found_view(*found),
                opt_view(namespace),
                doc_name@,
                namespace_is_dir,
            )->Ok_0;
            let w = found->Ok_0.workspace;
            let ns = or_empty(opt_view(namespace));
            &&& plan.ensure_documents_directory == (ns.len() == 0)
            &&& plan.file@ == document_file(w.root@, w.documents_directory_name@, ns, stem)
            &&& plan.outcome is Ok <==> create_outcome(
                w.documents_directory_name@,
                ns,
                stem,
                pattern,
                markdown_content@,
                document_exists,
            ) is Ok
            &&& plan.outcome matches Ok(c) ==> create_outcome(
                w.documents_directory_name@,
                ns,
                stem,
                pattern,
                markdown_content@,
                document_exists,
            ) == Ok::<(Seq<char>, Seq<char>, Seq<char>), AppErrorView>(created_view(c))
            &&& plan.outcome matches Err(e) ==> create_outcome(
                w.documents_directory_name@,
                ns,
                stem,
                pattern,
                markdown_content@,
                document_exists,
            ) == Err::<(Seq<char>, Seq<char>, Seq<char>), AppErrorView>(e@)
        }),
{
    let (stem, config) = match select_document(found, namespace, doc_name, namespace_is_dir) {
        Ok(x) => x,
        Err(e) => return Err(e),
    };
    let f = match found {
        Ok(f) => f,
        Err(e) => return Err(e.duplicate()),
    };
    let ns = or_empty_str(namespace);
    let path = build_document_path(f.workspace.documents_directory_name.as_str(), ns, stem.as_str());
    let file = document_file_of(&f.workspace, &path);
    let outcome = match validate_document_name(ns, stem.as_str(), &config) {
        Err(e) => Err(e),
        Ok(()) => match document_metadata_from_content(
            path.relative_path.as_str(),
            markdown_content,
        ) {
            Err(e) => Err(e),
            Ok(_) => if document_exists {
                Err(
                    AppError::validation(
                        "document_exists",
                        "document already exists",
                        detail1("path", path.relative_path.as_str()),
                    ),
                )
            } else {
                Ok(
                    DocumentCreated {
                        path: owned(path.relative_path.as_str()),
                        document: owned(stem.as_str()),
                        namespace: owned(ns),
                    },
                )
            },
        },
    };
    Ok(CreatePlan { ensure_documents_directory: ns.unicode_len() == 0, file, outcome })
}

/// The refusal when the created document cannot be written.
pub fn create_failure(created: &DocumentCreated, source: &str) -> (r: AppError)
    ensures
        r@ == fs_error(
            "create_document_failed"@,
            "failed to create document"@,
            created.path@,
            source@,
        ),
{
    AppError::fs("create_document_failed", "failed to create document", created.path.as_str(), source)
}

// ---------------------------------------------------------------------------
// A document that must exist: delete and patch
// ---------------------------------------------------------------------------

/// A document that a command changes in place.
#[derive(Debug)]
pub struct ExistingDocument {
    pub file: String,
    pub path: String,
    pub namespace: String,
    pub document: String,
}

/// The document that `docs delete` or `docs patch` names, which must be a
/// file: (file, path, namespace, document).
pub open spec fn existing_document(
    found: Result<FoundWorkspace, AppErrorView>,
    namespace: Option<Seq<char>>,
    doc_name: Seq<char>,
    namespace_is_dir: bool,
    document_is_file: bool,
) -> Result<(Seq<char>, Seq<char>, Seq<char>, Seq<char>), AppErrorView> {
    match selected_document(found, namespace, doc_name, namespace_is_dir) {
        Err(e) => Err(e),
        Ok((stem, _)) => {
            let w = found->Ok_0.workspace;
            let ns = or_empty(namespace);
            let path = document_relative_path(w.documents_directory_name@, ns, stem);
            if !document_is_file {
                Err(document_not_found_error(path))
            } else {
                Ok(
                    (
                        document_file(w.root@, w.documents_directory_name@, ns, stem),
                        path,
                        ns,
                        stem,
                    ),
                )
            }
        },
    }
}

pub open spec fn existing_view(d: ExistingDocument) -> (
    Seq<char>,
    Seq<char>,
    Seq<char>,
    Seq<char>,
) {
    (d.file@, d.path@, d.namespace@, d.document@)
}

/// Decides which document `docs delete` or `docs patch` changes, given the
/// workspace, whether the namespace directory is there and whether the
/// document is a file.
pub fn plan_existing_document(
    found: &Result<FoundWorkspace, AppError>,
    namespace: Option<&str>,
    doc_name: &str,
    namespace_is_dir: bool,
    document_is_file: bool,
) -> (r: Result<ExistingDocument, AppError>)
    ensures
        r is Ok <==> existing_document(
            found_view(*found),
            opt_view(namespace),
            doc_name@,
            namespace_is_dir,
            document_is_file,
        ) is Ok,
        r matches Ok(d) ==> existing_document(
            found_view(*found),
            opt_view(namespace),
            doc_name@,
            namespace_is_dir,
            document_is_file,
        ) == Ok::<(Seq<char>, Seq<char>, Seq<char>, Seq<char>), AppErrorView>(existing_view(d)),
        r matches Err(e) ==> existing_document(
            found_view(*found),
            opt_view(namespace),
            doc_name@,
            namespace_is_dir,
            document_is_file,
        ) == Err::<(Seq<char>, Seq<char>, Seq<char>, Seq<char>), AppErrorView>(e@),
{
    let (stem, _config) = match select_document(found, namespace, doc_name, namespace_is_dir) {
        Ok(x) => x,
        Err(e) => return Err(e),
    };
    let f = match found {
        Ok(f) => f,
        Err(e) => return Err(e.duplicate()),
    };
    let ns = or_empty_str(namespace);
    let path = build_document_path(f.workspace.documents_directory_name.as_str(), ns, stem.as_str());
    if !document_is_file {
        return Err(document_not_found(path.relative_path.as_str()));
    }
    let file = document_file_of(&f.workspace, &path);
    Ok(ExistingDocument { file, path: path.relative_path, namespace: owned(ns), document: stem })
}

impl ExistingDocument {
    /// What `docs delete` reports.
    pub fn deleted(&self) -> (r: DocumentDeleted)
        ensures
            r.path@ == self.path@,
            r.namespace@ == self.namespace@,
            r.document@ == self.document@,
            r.deleted,
    {
        DocumentDeleted {
            path: owned(self.path.as_str()),
            namespace: owned(self.namespace.as_str()),
            document: owned(self.document.as_str()),
            deleted: true,
        }
    }

    /// What `docs patch` reports.
    pub fn patched(&self) -> (r: DocumentPatched)
        ensures
            r.path@ == self.path@,
            r.namespace@ == self.namespace@,
            r.document@ == self.document@,
            r.patched,
    {
        DocumentPatched {
            path: owned(self.path.as_str()),
            namespace: owned(self.namespace.as_str()),
            document: owned(self.document.as_str()),
            patched: true,
        }
    }

    /// The refusal when a step on disk fails for this document: `code` and
    /// `message` name the step, `source` is the system error.
    pub fn failure(&self, code: &str, message: &str, source: &str) -> (r: AppError)
        ensures
            r@ == fs_error(code@, message@, self.path@, source@),
    {
        AppError::fs(code, message, self.path.as_str(), source)
    }
}

// ---------------------------------------------------------------------------
// Renaming a document found by its name alone
// ---------------------------------------------------------------------------

/// The namespaces of the documents named `stem`, in order.
pub open spec fn matching_namespaces(docs: Seq<DocumentEntryView>, stem: Seq<char>) -> Seq<
    Seq<char>,
>
    decreases docs.len(),
{
    if docs.len() == 0 {
        Seq::empty()
    } else {
        let rest = matching_namespaces(docs.drop_last(), stem);
        if docs.last().document == stem {
            rest.push(docs.last().namespace)
        } else {
            rest
        }
    }
}

pub open spec fn match_lines(dir: Seq<char>, stem: Seq<char>, nss: Seq<Seq<char>>) -> Seq<
    (Seq<char>, Seq<char>),
>
    decreases nss.len(),
{
    if nss.len() == 0 {
        Seq::empty()
    } else {
        match_lines(dir, stem, nss.drop_last()) + seq![
            (
                "matches["@ + decimal((nss.len() - 1) as nat) + "]"@,
                document_relative_path(dir, nss.last(), stem),
            ),
        ]
    }
}

/// The namespace of the one document named `stem`, or why there is none.
pub open spec fn unique_document(dir: Seq<char>, docs: Seq<DocumentEntryView>, stem: Seq<char>) -> Result<
    Seq<char>,
    AppErrorView,
> {
    let nss = matching_namespaces(docs, stem);
    if nss.len() == 0 {
        Err(
            validation_error(
                "document_not_found"@,
                "document does not exist"@,
                seq![("document"@, stem)],
            ),
        )
    } else if nss.len() == 1 {
        Ok(nss[0])
    } else {
        Err(
            validation_error(
                "document_ambiguous"@,
                "document exists in multiple namespaces"@,
                seq![("document"@, stem)] + match_lines(dir, stem, nss),
            ),
        )
    }
}

pub open spec fn documents_view(r: Result<Vec<DocumentEntry>, AppError>) -> Result<
    Seq<DocumentEntryView>,
    AppErrorView,
> {
    match r {
        Ok(v) => Ok(entry_views(v@)),
        Err(e) => Err(e@),
    }
}

/// The rename that `docs rename` names: (namespace, old stem, new stem).
pub open spec fn rename_decision(
    found: Result<FoundWorkspace, AppErrorView>,
    documents: Result<Seq<DocumentEntryView>, AppErrorView>,
    origin: Seq<char>,
    new_name: Seq<char>,
) -> Result<(Seq<char>, Seq<char>, Seq<char>), AppErrorView> {
    match document_check(origin) {
        Err(e) => Err(e),
        Ok(old_stem) => match document_check(new_name) {
            Err(e) => Err(e),
            Ok(new_stem) => match found {
                Err(e) => Err(e),
                Ok(f) => match documents {
                    Err(e) => Err(e),
                    Ok(docs) => match unique_document(
                        f.workspace.documents_directory_name@,
                        docs,
                        old_stem,
                    ) {
                        Err(e) => Err(e),
                        Ok(ns) => {
                            let selected = if ns.len() == 0 {
                                None
                            } else {
                                Some(ns)
                            };
                            match selected_pattern(f.index, selected) {
                                Err(e) => Err(e),
                                Ok(p) => match (if ns.len() == 0 {
                                    Ok(())
                                } else {
                                    namespace_name_check(ns, p)
                                }) {
                                    Err(e) => Err(e),
                                    Ok(_) => match document_name_check(ns, new_stem, p) {
                                        Err(e) => Err(e),
                                        Ok(_) => Ok((ns, old_stem, new_stem)),
                                    },
                                },
                            }
                        },
                    },
                },
            },
        },
    }
}

/// A rename of a document inside its namespace.
#[derive(Debug)]
pub struct RenamePlan {
    pub namespace: String,
    pub old_path: String,
    pub new_path: String,
    pub old_file: String,
    pub new_file: String,
}

fn find_unique_document(dir: &str, documents: &Vec<DocumentEntry>, stem: &str) -> (r: Result<
    String,
    AppError,
>)
    ensures
        r is Ok <==> unique_document(dir@, entry_views(documents@), stem@) is Ok,
        r matches Ok(ns) ==> unique_document(dir@, entry_views(documents@), stem@) == Ok::<
            Seq<char>,
            AppErrorView,
        >(ns@),
        r matches Err(e) ==> unique_document(dir@, entry_views(documents@), stem@) == Err::<
            Seq<char>,
            AppErrorView,
        >(e@),
{
    let ghost docs = entry_views(documents@);
    let mut matches: Vec<String> = Vec::new();
    let mut i: usize = 0;
    assert(docs.take(0) =~= Seq::<DocumentEntryView>::empty());
    assert(crate::utils::text::views(matches@) =~= Seq::<Seq<char>>::empty());
    while i < documents.len()
        invariant
            i <= documents@.len(),
            docs == entry_views(documents@),
            crate::utils::text::views(matches@) == matching_namespaces(docs.take(i as int), stem@),
        decreases documents.len() - i,
    {
        proof {
            assert(docs.take(i + 1).drop_last() =~= docs.take(i as int));
            assert(docs.take(i + 1).last() == documents@[i as int]@);
        }
        if str_eq(documents[i].document.as_str(), stem) {
            let ghost before = matches@;
            matches.push(documents[i].namespace.clone());
            assert(crate::utils::text::views(matches@) =~= crate::utils::text::views(before).push(
                documents@[i as int].namespace@,
            ));
        }
        i = i + 1;
    }
    assert(docs.take(documents@.len() as int) =~= docs);
    let ghost nss = crate::utils::text::views(matches@);
    if matches.len() == 0 {
        return Err(
            AppError::validation(
                "document_not_found",
                "document does not exist",
                detail1("document", stem),
            ),
        );
    }
    if matches.len() == 1 {
        return Ok(owned(matches[0].as_str()));
    }
    let mut d: Vec<DetailLine> = Vec::new();
    d.push(detail("document", stem));
    let mut k: usize = 0;
    assert(details_view(d@) =~= seq![("document"@, stem@)] + match_lines(dir@, stem@, nss.take(0)));
    while k < matches.len()
        invariant
            k <= matches@.len(),
            nss == crate::utils::text::views(matches@),
            details_view(d@) == seq![("document"@, stem@)] + match_lines(
                dir@,
                stem@,
                nss.take(k as int),
            ),
        decreases matches.len() - k,
    {
        let index = decimal_string(k);
        let key = concat3("matches[", index.as_str(), "]");
        let path = build_document_path(dir, matches[k].as_str(), stem);
        let ghost before = details_view(d@);
        let ghost line = (key@, path.relative_path@);
        d.push(DetailLine { path: key, value: path.relative_path });
        proof {
            let t = nss.take(k + 1);
            assert(details_view(d@) =~= before.push(line));
            assert(t.len() - 1 == k);
            assert(line == (
                "matches["@ + decimal((t.len() - 1) as nat) + "]"@,
                document_relative_path(dir@, t.last(), stem@),
            ));
            assert(t.drop_last() =~= nss.take(k as int));
            assert(t.last() == matches@[k as int]@);
            assert(details_view(d@) =~= seq![("document"@, stem@)] + match_lines(dir@, stem@, t));
        }
        k = k + 1;
    }
    assert(nss.take(matches@.len() as int) =~= nss);
    Err(AppError::validation("document_ambiguous", "document exists in multiple namespaces", d))
}

/// Decides `docs rename`: the document named `origin_doc_name` alone in the
/// workspace is renamed to `new_doc_name` in its namespace.
pub fn rename_unique(
    found: &Result<FoundWorkspace, AppError>,
    documents: &Result<Vec<DocumentEntry>, AppError>,
    origin_doc_name: &str,
    new_doc_name: &str,
) -> (r: Result<RenamePlan, AppError>)
    ensures
        r is Ok <==> rename_decision(
            found_view(*found),
            documents_view(*documents),
            origin_doc_name@,
            new_doc_name@,
        ) is Ok,
        r matches Err(e) ==> rename_decision(
            found_view(*found),
            documents_view(*documents),
            origin_doc_name@,
            new_doc_name@,
        ) == Err::<(Seq<char>, Seq<char>, Seq<char>), AppErrorView>(e@),
        r matches Ok(plan) ==> ({
            let (ns, old_stem, new_stem) = rename_decision(
                found_view(*found),
                documents_view(*documents),
                origin_doc_name@,
                new_doc_name@,
            )->Ok_0;
            let w = found->Ok_0.workspace;
            let dir = w.documents_directory_name@;
            &&& plan.namespace@ == ns
            &&& plan.old_path@ == document_relative_path(dir, ns, old_stem)
            &&& plan.new_path@ == document_relative_path(dir, ns, new_stem)
            &&& plan.old_file@ == document_file(w.root@, dir, ns, old_stem)
            &&& plan.new_file@ == document_file(w.root@, dir, ns, new_stem)
        }),
{
    let old_stem = match normalize_document_name(origin_doc_name) {
        Ok(s) => s,
        Err(e) => return Err(e),
    };
    let new_stem = match normalize_document_name(new_doc_name) {
        Ok(s) => s,
        Err(e) => return Err(e),
    };
    let f = match found {
        Ok(f) => f,
        Err(e) => return Err(e.duplicate()),
    };
    let docs = match documents {
        Ok(v) => v,
        Err(e) => return Err(e.duplicate()),
    };
    let dir = f.workspace.documents_directory_name.as_str();
    let ns = match find_unique_document(dir, docs, old_stem.as_str()) {
        Ok(ns) => ns,
        Err(e) => return Err(e),
    };
    let selected: Option<&str> = if ns.as_str().unicode_len() == 0 {
        None
    } else {
        Some(ns.as_str())
    };
    let config = match document_namespace_config(f, selected) {
        Ok(c) => c,
        Err(e) => return Err(e),
    };
    if ns.as_str().unicode_len() != 0 {
        match validate_namespace_name_style(ns.as_str(), &config) {
            Ok(()) => {},
            Err(e) => return Err(e),
        }
    }
    match validate_document_name(ns.as_str(), new_stem.as_str(), &config) {
        Ok(()) => {},
        Err(e) => return Err(e),
    }
    let old_path = build_document_path(dir, ns.as_str(), old_stem.as_str());
    let new_path = build_document_path(dir, ns.as_str(), new_stem.as_str());
    let old_file = document_file_of(&f.workspace, &old_path);
    let new_file = document_file_of(&f.workspace, &new_path);
    Ok(
        RenamePlan {
            namespace: ns,
            old_path: old_path.relative_path,
            new_path: new_path.relative_path,
            old_file,
            new_file,
        },
    )
}

impl RenamePlan {
    /// The last checks of `docs rename`, given whether the document is a
    /// file and whether its new file exists already.
    pub fn finish(&self, old_is_file: bool, new_exists: bool) -> (r: Result<
        DocumentRenamed,
        AppError,
    >)
        ensures
            !old_is_file ==> (r matches Err(e) && e@ == document_not_found_error(self.old_path@)),
            old_is_file && new_exists ==> (r matches Err(e) && e@ == document_exists_error(
                "target document already exists"@,
                self.new_path@,
            )),
            old_is_file && !new_exists ==> (r matches Ok(d) && d.old_path@ == self.old_path@
                && d.new_path@ == self.new_path@ && d.namespace@ == self.namespace@),
    {
        if !old_is_file {
            return Err(document_not_found(self.old_path.as_str()));
        }
        if new_exists {
            return Err(
                AppError::validation(
                    "document_exists",
                    "target document already exists",
                    detail1("path", self.new_path.as_str()),
                ),
            );
        }
        Ok(
            DocumentRenamed {
                old_path: owned(self.old_path.as_str()),
                new_path: owned(self.new_path.as_str()),
                namespace: owned(self.namespace.as_str()),
            },
        )
    }

    /// The refusal when the rename fails on disk.
    pub fn failure(&self, source: &str) -> (r: AppError)
        ensures
            r@ == fs_error(
                "rename_document_failed"@,
                "failed to rename document"@,
                self.old_path@ + " -> "@ + self.new_path@,
                source@,
            ),
    {
        let path = concat3(self.old_path.as_str(), " -> ", self.new_path.as_str());
        AppError::fs("rename_document_failed", "failed to rename document", path.as_str(), source)
    }
}

// ---------------------------------------------------------------------------
// Listing documents
// ---------------------------------------------------------------------------

pub open spec fn summary_view(s: DocumentSummary) -> DocumentEntryView {
    DocumentEntryView {
        namespace: s.namespace@,
        document: s.document@,
        path: s.path@,
        title: s.title@,
        description: s.description@,
    }
}

/// The documents in namespaces, in the order given.
pub open spec fn namespaced_docs(docs: Seq<DocumentEntryView>) -> Seq<DocumentEntryView> {
    docs.filter(|d: DocumentEntryView| d.namespace.len() > 0)
}

/// All documents, the root documents first, then those in namespaces; each
/// part keeps the order given.
pub open spec fn root_first(docs: Seq<DocumentEntryView>) -> Seq<DocumentEntryView> {
    crate::document::sync::docs_in(docs, Seq::empty()) + namespaced_docs(docs)
}

/// The documents of `documents` ordered as `root_first` orders them.
fn documents_root_first<'a>(documents: &'a Vec<DocumentEntry>) -> (r: Vec<&'a DocumentEntry>)
    ensures
        r@.map_values(|d: &DocumentEntry| d@) == root_first(entry_views(documents@)),
{
    let ghost all = entry_views(documents@);
    let ghost pred = |d: DocumentEntryView| d.namespace.len() > 0;
    let mut r = crate::document::sync::documents_in(documents, "");
    proof {
        reveal_strlit("");
        assert(""@ =~= Seq::<char>::empty());
    }
    let ghost root = r@.map_values(|d: &DocumentEntry| d@);
    assert(root == crate::document::sync::docs_in(all, Seq::empty()));
    let mut i: usize = 0;
    assert(all.take(0).filter(pred) =~= Seq::<DocumentEntryView>::empty());
    assert(root + all.take(0).filter(pred) =~= root);
    while i < documents.len()
        invariant
            i <= documents@.len(),
            all == entry_views(documents@),
            pred == (|d: DocumentEntryView| d.namespace.len() > 0),
            r@.map_values(|d: &DocumentEntry| d@) == root + all.take(i as int).filter(pred),
        decreases documents.len() - i,
    {
        proof {
            assert(all.take(i + 1) =~= all.take(i as int).push(all[i as int]));
            all.take(i as int).lemma_filter_push(all[i as int], pred);
            assert(all[i as int] == documents@[i as int]@);
        }
        let d = &documents[i];
        let ghost before = r@;
        if d.namespace.as_str().unicode_len() > 0 {
            r.push(d);
            assert(r@.map_values(|d: &DocumentEntry| d@) =~= before.map_values(
                |d: &DocumentEntry| d@,
            ).push(d@));
        }
        i = i + 1;
    }
    assert(all.take(documents@.len() as int) =~= all);
    r
}

/// What `docs list` reports: the documents of the namespace when one is
/// given (after checking it), else all of them, the root documents first.
pub open spec fn list_outcome(
    found: Result<FoundWorkspace, AppErrorView>,
    namespace: Option<Seq<char>>,
    namespace_is_dir: bool,
    documents: Result<Seq<DocumentEntryView>, AppErrorView>,
) -> Result<Seq<DocumentEntryView>, AppErrorView> {
    match found {
        Err(e) => Err(e),
        Ok(f) => match (match namespace {
            None => Ok(()),
            Some(ns) => match namespace_check(ns) {
                Err(e) => Err(e),
                Ok(_) => match selected_pattern(f.index, namespace) {
                    Err(e) => Err(e),
                    Ok(p) => match namespace_name_check(ns, p) {
                        Err(e) => Err(e),
                        Ok(_) => if namespace_is_dir {
                            Ok(())
                        } else {
                            Err(namespace_not_found_error(ns))
                        },
                    },
                },
            },
        }) {
            Err(e) => Err(e),
            Ok(_) => match documents {
                Err(e) => Err(e),
                Ok(docs) => Ok(
                    match namespace {
                        None => root_first(docs),
                        Some(ns) => crate::document::sync::docs_in(docs, ns),
                    },
                ),
            },
        },
    }
}

/// Decides `docs list`, given the workspace, whether the namespace directory
/// is there, and the documents of the workspace.
pub fn list(
    found: &Result<FoundWorkspace, AppError>,
    namespace: Option<&str>,
    namespace_is_dir: bool,
    documents: &Result<Vec<DocumentEntry>, AppError>,
) -> (r: Result<Vec<DocumentSummary>, AppError>)
    ensures
        r is Ok <==> list_outcome(
            found_view(*found),
            opt_view(namespace),
            namespace_is_dir,
            documents_view(*documents),
        ) is Ok,
        r matches Ok(v) ==> list_outcome(
            found_view(*found),
            opt_view(namespace),
            namespace_is_dir,
            documents_view(*documents),
        ) == Ok::<Seq<DocumentEntryView>, AppErrorView>(v@.map_values(
            |s: DocumentSummary| summary_view(s),
        )),
        r matches Err(e) ==> list_outcome(
            found_view(*found),
            opt_view(namespace),
            namespace_is_dir,
            documents_view(*documents),
        ) == Err::<Seq<DocumentEntryView>, AppErrorView>(e@),
{
    let f = match found {
        Ok(f) => f,
        Err(e) => return Err(e.duplicate()),
    };
    match namespace {
        None => {},
        Some(ns) => {
            match validate_namespace(ns) {
                Ok(()) => {},
                Err(e) => return Err(e),
            }
            let config = match document_namespace_config(f, namespace) {
                Ok(c) => c,
                Err(e) => return Err(e),
            };
            match validate_namespace_name_style(ns, &config) {
                Ok(()) => {},
                Err(e) => return Err(e),
            }
            if !namespace_is_dir {
                return Err(namespace_not_found(ns));
            }
        },
    }
    let docs = match documents {
        Ok(v) => v,
        Err(e) => return Err(e.duplicate()),
    };
    let selected = match namespace {
        None => documents_root_first(docs),
        Some(ns) => crate::document::sync::documents_in(docs, ns),
    };
    let ghost sel = selected@.map_values(|d: &DocumentEntry| d@);
    let mut out: Vec<DocumentSummary> = Vec::new();
    let mut i: usize = 0;
    while i < selected.len()
        invariant
            i <= selected@.len(),
            sel == selected@.map_values(|d: &DocumentEntry| d@),
            out@.map_values(|s: DocumentSummary| summary_view(s)) == sel.take(i as int),
        decreases selected.len() - i,
    {
        let d = selected[i];
        let ghost before = out@;
        let summary = DocumentSummary {
            namespace: d.namespace.clone(),
            document: d.document.clone(),
            path: d.path.clone(),
            title: d.title.clone(),
            description: d.description.clone(),
        };
        assert(summary_view(summary) == d@);
        out.push(summary);
        proof {
            assert(sel[i as int] == d@);
            assert(sel.take(i + 1) =~= sel.take(i as int).push(d@));
            assert(out@.map_values(|s: DocumentSummary| summary_view(s)) =~= before.map_values(
                |s: DocumentSummary| summary_view(s),
            ).push(d@));
        }
        i = i + 1;
    }
    assert(sel.take(selected@.len() as int) =~= sel);
    Ok(out)
}

/// `docs list --namespace ns` lists exactly the documents of `ns`: every
/// listed document is a document of the workspace in `ns`, and every
/// document of the workspace in `ns` is listed, in the order given.
pub proof fn lemma_list_of_namespace(
    found: Result<FoundWorkspace, AppErrorView>,
    ns: Seq<char>,
    namespace_is_dir: bool,
    documents: Result<Seq<DocumentEntryView>, AppErrorView>,
)
    requires
        list_outcome(found, Some(ns), namespace_is_dir, documents) is Ok,
    ensures
        documents is Ok,
        forall|i: int|
            0 <= i < list_outcome(found, Some(ns), namespace_is_dir, documents)->Ok_0.len() ==> {
                let d = #[trigger] list_outcome(found, Some(ns), namespace_is_dir, documents)->Ok_0[i];
                d.namespace == ns && documents->Ok_0.contains(d)
            },
        forall|j: int|
            0 <= j < documents->Ok_0.len() && (#[trigger] documents->Ok_0[j]).namespace == ns
                ==> list_outcome(found, Some(ns), namespace_is_dir, documents)->Ok_0.contains(
                documents->Ok_0[j],
            ),
{
    let all = documents->Ok_0;
    let pred = |d: DocumentEntryView| d.namespace == ns;
    let v = list_outcome(found, Some(ns), namespace_is_dir, documents)->Ok_0;
    assert(v == all.filter(pred));
    assert forall|i: int| 0 <= i < v.len() implies {
        let d = #[trigger] v[i];
        d.namespace == ns && all.contains(d)
    } by {
        all.lemma_filter_pred(pred, i);
        all.lemma_filter_contains_rev(pred, v[i]);
    }
    assert forall|j: int| 0 <= j < all.len() && (#[trigger] all[j]).namespace == ns implies v.contains(
        all[j],
    ) by {
        all.lemma_filter_contains(pred, j);
    }
}

proof fn lemma_root_first_multiset(docs: Seq<DocumentEntryView>)
    ensures
        root_first(docs).to_multiset() == docs.to_multiset(),
    decreases docs.len(),
{
    broadcast use vstd::multiset::group_multiset_axioms;
    reveal(Seq::filter);
    let rp = |d: DocumentEntryView| d.namespace == Seq::<char>::empty();
    let np = |d: DocumentEntryView| d.namespace.len() > 0;
    let r = docs.filter(rp);
    let n = docs.filter(np);
    vstd::seq_lib::lemma_multiset_commutative(r, n);
    if docs.len() == 0 {
        assert(r =~= Seq::<DocumentEntryView>::empty());
        assert(n =~= Seq::<DocumentEntryView>::empty());
        assert(root_first(docs) =~= Seq::<DocumentEntryView>::empty());
        assert(docs =~= Seq::<DocumentEntryView>::empty());
    } else {
        let init = docs.drop_last();
        let x = docs.last();
        lemma_root_first_multiset(init);
        let r0 = init.filter(rp);
        let n0 = init.filter(np);
        vstd::seq_lib::lemma_multiset_commutative(r0, n0);
        vstd::seq_lib::to_multiset_build(init, x);
        assert(docs =~= init.push(x));
        if x.namespace.len() == 0 {
            assert(x.namespace =~= Seq::<char>::empty());
            assert(r == r0.push(x));
            assert(n == n0);
            vstd::seq_lib::to_multiset_build(r0, x);
        } else {
            assert(x.namespace != Seq::<char>::empty());
            assert(r == r0);
            assert(n == n0.push(x));
            vstd::seq_lib::to_multiset_build(n0, x);
        }
        assert(root_first(docs).to_multiset() =~= docs.to_multiset());
    }
}

/// `docs list` without a namespace lists every document of the workspace
/// once (the same multiset of entries), the root documents before all the
/// documents in namespaces.
pub proof fn lemma_list_all(
    found: Result<FoundWorkspace, AppErrorView>,
    namespace_is_dir: bool,
    documents: Result<Seq<DocumentEntryView>, AppErrorView>,
)
    requires
        list_outcome(found, None, namespace_is_dir, documents) is Ok,
    ensures
        documents is Ok,
        list_outcome(found, None, namespace_is_dir, documents)->Ok_0.to_multiset()
            == documents->Ok_0.to_multiset(),
        forall|i: int, j: int|
            0 <= i < j < list_outcome(found, None, namespace_is_dir, documents)->Ok_0.len() && (
            #[trigger] list_outcome(found, None, namespace_is_dir, documents)->Ok_0[i]).namespace.len()
                > 0 ==> (#[trigger] list_outcome(
                found,
                None,
                namespace_is_dir,
                documents,
            )->Ok_0[j]).namespace.len() > 0,
{
    let all = documents->Ok_0;
    lemma_root_first_multiset(all);
    let rp = |d: DocumentEntryView| d.namespace == Seq::<char>::empty();
    let np = |d: DocumentEntryView| d.namespace.len() > 0;
    let r = all.filter(rp);
    let n = all.filter(np);
    let v = list_outcome(found, None, namespace_is_dir, documents)->Ok_0;
    assert(v == r + n);
    assert forall|i: int, j: int| 0 <= i < j < v.len() && (#[trigger] v[i]).namespace.len() > 0
        implies (#[trigger] v[j]).namespace.len() > 0 by {
        if i < r.len() {
            all.lemma_filter_pred(rp, i);
            assert(v[i] == r[i]);
        }
        assert(j >= r.len());
        assert(v[j] == n[j - r.len()]);
        all.lemma_filter_pred(np, j - r.len());
    }
}

} // verus!
