//! The namespace commands: list, create, list-docs, rename and delete.
//!
//! Each command is decided here from what was read on disk; the caller then
//! carries out the one change on disk that the decision names.
use vstd::prelude::*;

use crate::document::service::{
    documents_view, found_view, index_pattern, namespace_not_found_error, opt_view,
};
use crate::document::sync::{docs_in, documents_in};
use crate::namespace::config::{
    NamespaceConfig, namespace_dir, namespace_name_check, read, validate_namespace_name_style,
};
use crate::namespace::types::{
    NamespaceCreated, NamespaceDeleted, NamespaceDocument, NamespaceDocuments, NamespaceRenamed,
    NamespaceSummary,
};
use crate::utils::error::{
    AppError, AppErrorView, detail, detail1, details_view, fs_error, input_error,
    validation_error,
};
use crate::utils::index::{DocumentEntry, DocumentEntryView, entry_views, listing_view};
use crate::utils::paths::{namespace_check, path_join, relative_display, validate_namespace};
use crate::utils::text::{concat3, owned, views};
use crate::utils::workspace::{FoundWorkspace, Workspace, relative_path};

verus! {

/// Where a namespace directory is, and how it is shown.
pub open spec fn namespace_directory(w: Workspace, namespace: Seq<char>) -> Seq<char> {
    path_join(w.documents_directory@, namespace)
}

pub open spec fn shown_directory(w: Workspace, namespace: Seq<char>) -> Seq<char> {
    relative_display(w.root@, namespace_directory(w, namespace))
}

// ---------------------------------------------------------------------------
// Listing namespaces
// ---------------------------------------------------------------------------

/// (namespace, shown path, pattern) of each namespace, or the first refusal.
pub open spec fn summaries(f: FoundWorkspace, names: Seq<Seq<char>>) -> Result<
    Seq<(Seq<char>, Seq<char>, Seq<char>)>,
    AppErrorView,
>
    decreases names.len(),
{
    if names.len() == 0 {
        Ok(Seq::empty())
    } else {
        match summaries(f, names.drop_last()) {
            Err(e) => Err(e),
            Ok(done) => match namespace_check(names.last()) {
                Err(e) => Err(e),
                Ok(_) => match index_pattern(f.index) {
                    Err(e) => Err(e),
                    Ok(p) => Ok(
                        done.push((names.last(), shown_directory(f.workspace, names.last()), p)),
                    ),
                },
            },
        }
    }
}

pub open spec fn summary_views(v: Seq<NamespaceSummary>) -> Seq<(Seq<char>, Seq<char>, Seq<char>)> {
    v.map_values(|s: NamespaceSummary| (s.namespace@, s.path@, s.naming_style_regex@))
}

pub open spec fn list_outcome(
    found: Result<FoundWorkspace, AppErrorView>,
    names: Result<Seq<Seq<char>>, AppErrorView>,
) -> Result<Seq<(Seq<char>, Seq<char>, Seq<char>)>, AppErrorView> {
    match found {
        Err(e) => Err(e),
        Ok(f) => match names {
            Err(e) => Err(e),
            Ok(ns) => summaries(f, ns),
        },
    }
}

proof fn lemma_summaries_error_stays(f: FoundWorkspace, names: Seq<Seq<char>>, k: int)
    requires
        0 <= k <= names.len(),
        summaries(f, names.take(k)) is Err,
    ensures
        summaries(f, names) == summaries(f, names.take(k)),
    decreases names.len() - k,
{
    if k == names.len() {
        assert(names.take(k) =~= names);
    } else {
        assert(names.take(k + 1).drop_last() =~= names.take(k));
        lemma_summaries_error_stays(f, names, k + 1);
    }
}

/// Decides `namespace list`, given the workspace and its namespace listing.
pub fn list(
    found: &Result<FoundWorkspace, AppError>,
    names: &Result<Vec<String>, AppError>,
) -> (r: Result<Vec<NamespaceSummary>, AppError>)
    ensures
        r is Ok <==> list_outcome(found_view(*found), listing_view(*names)) is Ok,
        r matches Ok(v) ==> list_outcome(found_view(*found), listing_view(*names)) == Ok::<
            Seq<(Seq<char>, Seq<char>, Seq<char>)>,
            AppErrorView,
        >(summary_views(v@)),
        r matches Err(e) ==> list_outcome(found_view(*found), listing_view(*names)) == Err::<
            Seq<(Seq<char>, Seq<char>, Seq<char>)>,
            AppErrorView,
        >(e@),
{
    let f = match found {
        Ok(f) => f,
        Err(e) => return Err(e.duplicate()),
    };
    let listed = match names {
        Ok(v) => v,
        Err(e) => return Err(e.duplicate()),
    };
    let ghost all = views(listed@);
    let mut out: Vec<NamespaceSummary> = Vec::new();
    let mut i: usize = 0;
    assert(all.take(0) =~= Seq::<Seq<char>>::empty());
    assert(summary_views(out@) =~= Seq::<(Seq<char>, Seq<char>, Seq<char>)>::empty());
    while i < listed.len()
        invariant
            i <= listed@.len(),
            all == views(listed@),
            found_view(*found) == Ok::<FoundWorkspace, AppErrorView>(*f),
            listing_view(*names) == Ok::<Seq<Seq<char>>, AppErrorView>(all),
            summaries(*f, all.take(i as int)) == Ok::<
                Seq<(Seq<char>, Seq<char>, Seq<char>)>,
                AppErrorView,
            >(summary_views(out@)),
        decreases listed.len() - i,
    {
        proof {
            assert(all.take(i + 1).drop_last() =~= all.take(i as int));
            assert(all.take(i + 1).last() == listed@[i as int]@);
        }
        let ns = listed[i].as_str();
        let config = match read(f, ns) {
            Ok(c) => c,
            Err(e) => {
                proof {
                    lemma_summaries_error_stays(*f, all, i + 1);
                }
                return Err(e);
            },
        };
        let directory = namespace_dir(&f.workspace, ns);
        let summary = NamespaceSummary {
            namespace: owned(ns),
            path: relative_path(&f.workspace, directory.as_str()),
            naming_style_regex: config.naming_style_regex,
        };
        let ghost before = out@;
        let ghost sv = (summary.namespace@, summary.path@, summary.naming_style_regex@);
        out.push(summary);
        proof {
            assert(summary_views(out@) =~= summary_views(before).push(sv));
        }
        i = i + 1;
    }
    assert(all.take(listed@.len() as int) =~= all);
    Ok(out)
}

// ---------------------------------------------------------------------------
// Creating a namespace
// ---------------------------------------------------------------------------

pub open spec fn unsupported_regex_error() -> AppErrorView {
    input_error(
        "unsupported_namespace_regex"@,
        "namespace-specific document_name_regex is no longer supported; use docs.json naming_style"@,
        Seq::empty(),
    )
}

pub open spec fn namespace_exists_error(message: Seq<char>, namespace: Seq<char>) -> AppErrorView {
    validation_error("namespace_exists"@, message, seq![("namespace"@, namespace)])
}

/// The pattern for a new namespace name, or the first refusal: no regex of
/// its own, a valid name, the workspace, the naming style.
pub open spec fn create_decision(
    namespace: Seq<char>,
    document_name_regex: Option<Seq<char>>,
    found: Result<FoundWorkspace, AppErrorView>,
) -> Result<Seq<char>, AppErrorView> {
    if document_name_regex is Some {
        Err(unsupported_regex_error())
    } else {
        match namespace_check(namespace) {
            Err(e) => Err(e),
            Ok(_) => match found {
                Err(e) => Err(e),
                Ok(f) => match index_pattern(f.index) {
                    Err(e) => Err(e),
                    Ok(p) => match namespace_name_check(namespace, p) {
                        Err(e) => Err(e),
                        Ok(_) => Ok(p),
                    },
                },
            },
        }
    }
}

/// What creating a namespace decides. The documents directory is made
/// first; `outcome` is what is reported after that: the refusal, or the
/// namespace to make at `directory`.
#[derive(Debug)]
pub struct NamespaceCreatePlan {
    pub directory: String,
    pub shown_directory: String,
    pub outcome: Result<NamespaceCreated, AppError>,
}

/// Decides `namespace create`, given the workspace and whether anything is
/// at the namespace directory.
pub fn create(
    namespace_name: &str,
    document_name_regex: Option<&str>,
    found: &Result<FoundWorkspace, AppError>,
    directory_exists: bool,
) -> (r: Result<NamespaceCreatePlan, AppError>)
    ensures
        r is Ok <==> create_decision(
            namespace_name@,
            opt_view(document_name_regex),
            found_view(*found),
        ) is Ok,
        r matches Err(e) ==> create_decision(
            namespace_name@,
            opt_view(document_name_regex),
            found_view(*found),
        ) == Err::<Seq<char>, AppErrorView>(e@),
        r matches Ok(plan) ==> ({
            let p = create_decision(
                namespace_name@,
                opt_view(document_name_regex),
                found_view(*found),
            )->Ok_0;
            let w = found->Ok_0.workspace;
            &&& plan.directory@ == namespace_directory(w, namespace_name@)
            &&& plan.shown_directory@ == shown_directory(w, namespace_name@)
            &&& directory_exists ==> (plan.outcome matches Err(e) && e@ == namespace_exists_error(
                "namespace already exists"@,
                namespace_name@,
            ))
            &&& !directory_exists ==> (plan.outcome matches Ok(c) && c.namespace@
                == namespace_name@ && c.path@ == shown_directory(w, namespace_name@)
                && c.naming_style_regex@ == p)
        }),
{
    if document_name_regex.is_some() {
        return Err(
            AppError::input(
                "unsupported_namespace_regex",
                "namespace-specific document_name_regex is no longer supported; use docs.json naming_style",
            ),
        );
    }
    match validate_namespace(namespace_name) {
        Ok(()) => {},
        Err(e) => return Err(e),
    }
    let f = match found {
        Ok(f) => f,
        Err(e) => return Err(e.duplicate()),
    };
    let config = match NamespaceConfig::from_workspace(f) {
        Ok(c) => c,
        Err(e) => return Err(e),
    };
    match validate_namespace_name_style(namespace_name, &config) {
        Ok(()) => {},
        Err(e) => return Err(e),
    }
    let directory = namespace_dir(&f.workspace, namespace_name);
    let shown = relative_path(&f.workspace, directory.as_str());
    let outcome = if directory_exists {
        Err(
            AppError::validation(
                "namespace_exists",
                "namespace already exists",
                detail1("namespace", namespace_name),
            ),
        )
    } else {
        Ok(
            NamespaceCreated {
                namespace: owned(namespace_name),
                path: owned(shown.as_str()),
                naming_style_regex: config.naming_style_regex,
            },
        )
    };
    Ok(NamespaceCreatePlan { directory, shown_directory: shown, outcome })
}

impl NamespaceCreatePlan {
    /// The refusal when the namespace directory cannot be made.
    pub fn failure(&self, source: &str) -> (r: AppError)
        ensures
            r@ == fs_error(
                "create_namespace_failed"@,
                "failed to create namespace"@,
                self.shown_directory@,
                source@,
            ),
    {
        AppError::fs(
            "create_namespace_failed",
            "failed to create namespace",
            self.shown_directory.as_str(),
            source,
        )
    }
}

// ---------------------------------------------------------------------------
// Listing the documents of every namespace
// ---------------------------------------------------------------------------

/// (namespace, pattern, documents) for each namespace, or the first refusal.
pub open spec fn namespace_groups(
    f: FoundWorkspace,
    docs: Seq<DocumentEntryView>,
    names: Seq<Seq<char>>,
) -> Result<Seq<(Seq<char>, Seq<char>, Seq<DocumentEntryView>)>, AppErrorView>
    decreases names.len(),
{
    if names.len() == 0 {
        Ok(Seq::empty())
    } else {
        match namespace_groups(f, docs, names.drop_last()) {
            Err(e) => Err(e),
            Ok(done) => match namespace_check(names.last()) {
                Err(e) => Err(e),
                Ok(_) => match index_pattern(f.index) {
                    Err(e) => Err(e),
                    Ok(p) => Ok(done.push((names.last(), p, docs_in(docs, names.last())))),
                },
            },
        }
    }
}

pub open spec fn namespace_document_view(d: NamespaceDocument) -> (
    Seq<char>,
    Seq<char>,
    Seq<char>,
    Seq<char>,
) {
    (d.document@, d.path@, d.title@, d.description@)
}

pub open spec fn entry_document_view(d: DocumentEntryView) -> (
    Seq<char>,
    Seq<char>,
    Seq<char>,
    Seq<char>,
) {
    (d.document, d.path, d.title, d.description)
}

/// A group matches (namespace, pattern, documents) when its documents are
/// those documents, field by field.
pub open spec fn group_matches(
    g: NamespaceDocuments,
    v: (Seq<char>, Seq<char>, Seq<DocumentEntryView>),
) -> bool {
    &&& g.namespace@ == v.0
    &&& g.naming_style_regex@ == v.1
    &&& g.documents@.map_values(|d: NamespaceDocument| namespace_document_view(d))
        == v.2.map_values(|d: DocumentEntryView| entry_document_view(d))
}

pub open spec fn list_docs_outcome(
    found: Result<FoundWorkspace, AppErrorView>,
    documents: Result<Seq<DocumentEntryView>, AppErrorView>,
    names: Result<Seq<Seq<char>>, AppErrorView>,
) -> Result<Seq<(Seq<char>, Seq<char>, Seq<DocumentEntryView>)>, AppErrorView> {
    match found {
        Err(e) => Err(e),
        Ok(f) => match documents {
            Err(e) => Err(e),
            Ok(docs) => match names {
                Err(e) => Err(e),
                Ok(ns) => namespace_groups(f, docs, ns),
            },
        },
    }
}

proof fn lemma_groups_error_stays(
    f: FoundWorkspace,
    docs: Seq<DocumentEntryView>,
    names: Seq<Seq<char>>,
    k: int,
)
    requires
        0 <= k <= names.len(),
        namespace_groups(f, docs, names.take(k)) is Err,
    ensures
        namespace_groups(f, docs, names) == namespace_groups(f, docs, names.take(k)),
    decreases names.len() - k,
{
    if k == names.len() {
        assert(names.take(k) =~= names);
    } else {
        assert(names.take(k + 1).drop_last() =~= names.take(k));
        lemma_groups_error_stays(f, docs, names, k + 1);
    }
}

fn group_documents(selected: &Vec<&DocumentEntry>) -> (r: Vec<NamespaceDocument>)
    ensures
        r@.map_values(|d: NamespaceDocument| namespace_document_view(d)) == selected@.map_values(
            |d: &DocumentEntry| d@,
        ).map_values(|d: DocumentEntryView| entry_document_view(d)),
{
    let ghost target = selected@.map_values(|d: &DocumentEntry| d@).map_values(
        |d: DocumentEntryView| entry_document_view(d),
    );
    let mut out: Vec<NamespaceDocument> = Vec::new();
    let mut i: usize = 0;
    while i < selected.len()
        invariant
            i <= selected@.len(),
            target == selected@.map_values(|d: &DocumentEntry| d@).map_values(
                |d: DocumentEntryView| entry_document_view(d),
            ),
            out@.map_values(|d: NamespaceDocument| namespace_document_view(d)) == target.take(
                i as int,
            ),
        decreases selected.len() - i,
    {
        let d = selected[i];
        let item = NamespaceDocument {
            document: d.document.clone(),
            path: d.path.clone(),
            title: d.title.clone(),
            description: d.description.clone(),
        };
        let ghost before = out@;
        assert(namespace_document_view(item) == target[i as int]);
        out.push(item);
        proof {
            assert(target.take(i + 1) =~= target.take(i as int).push(target[i as int]));
            assert(out@.map_values(|d: NamespaceDocument| namespace_document_view(d))
                =~= before.map_values(|d: NamespaceDocument| namespace_document_view(d)).push(
                target[i as int],
            ));
        }
        i = i + 1;
    }
    assert(target.take(selected@.len() as int) =~= target);
    out
}

/// Decides `namespace list-docs`, given the workspace, its documents and its
/// namespace listing.
pub fn list_docs(
    found: &Result<FoundWorkspace, AppError>,
    documents: &Result<Vec<DocumentEntry>, AppError>,
    names: &Result<Vec<String>, AppError>,
) -> (r: Result<Vec<NamespaceDocuments>, AppError>)
    ensures
        r is Ok <==> list_docs_outcome(
            found_view(*found),
            documents_view(*documents),
            listing_view(*names),
        ) is Ok,
        r matches Ok(v) ==> v@.len() == list_docs_outcome(
            found_view(*found),
            documents_view(*documents),
            listing_view(*names),
        )->Ok_0.len() && forall|k: int|
            0 <= k < v@.len() ==> group_matches(
                #[trigger] v@[k],
                list_docs_outcome(
                    found_view(*found),
                    documents_view(*documents),
                    listing_view(*names),
                )->Ok_0[k],
            ),
        r matches Err(e) ==> list_docs_outcome(
            found_view(*found),
            documents_view(*documents),
            listing_view(*names),
        ) == Err::<Seq<(Seq<char>, Seq<char>, Seq<DocumentEntryView>)>, AppErrorView>(e@),
{
    let f = match found {
        Ok(f) => f,
        Err(e) => return Err(e.duplicate()),
    };
    let docs = match documents {
        Ok(v) => v,
        Err(e) => return Err(e.duplicate()),
    };
    let listed = match names {
        Ok(v) => v,
        Err(e) => return Err(e.duplicate()),
    };
    let ghost all = views(listed@);
    let ghost dv = entry_views(docs@);
    let mut out: Vec<NamespaceDocuments> = Vec::new();
    let mut i: usize = 0;
    assert(all.take(0) =~= Seq::<Seq<char>>::empty());
    while i < listed.len()
        invariant
            i <= listed@.len(),
            all == views(listed@),
            dv == entry_views(docs@),
            found_view(*found) == Ok::<FoundWorkspace, AppErrorView>(*f),
            documents_view(*documents) == Ok::<Seq<DocumentEntryView>, AppErrorView>(dv),
            listing_view(*names) == Ok::<Seq<Seq<char>>, AppErrorView>(all),
            namespace_groups(*f, dv, all.take(i as int)) matches Ok(done) && done.len()
                == out@.len() && forall|k: int|
                0 <= k < out@.len() ==> group_matches(#[trigger] out@[k], done[k]),
        decreases listed.len() - i,
    {
        proof {
            assert(all.take(i + 1).drop_last() =~= all.take(i as int));
            assert(all.take(i + 1).last() == listed@[i as int]@);
        }
        let ghost done = namespace_groups(*f, dv, all.take(i as int))->Ok_0;
        let ns = listed[i].as_str();
        let config = match read(f, ns) {
            Ok(c) => c,
            Err(e) => {
                proof {
                    lemma_groups_error_stays(*f, dv, all, i + 1);
                }
                return Err(e);
            },
        };
        let selected = documents_in(docs, ns);
        let group = NamespaceDocuments {
            namespace: owned(ns),
            naming_style_regex: config.naming_style_regex,
            documents: group_documents(&selected),
        };
        let ghost before = out@;
        out.push(group);
        proof {
            let next = namespace_groups(*f, dv, all.take(i + 1))->Ok_0;
            assert(next == done.push((ns@, index_pattern(f.index)->Ok_0, docs_in(dv, ns@))));
            assert forall|k: int| 0 <= k < out@.len() implies group_matches(
                #[trigger] out@[k],
                next[k],
            ) by {
                if k < before.len() {
                    assert(out@[k] == before[k]);
                }
            }
        }
        i = i + 1;
    }
    assert(all.take(listed@.len() as int) =~= all);
    Ok(out)
}

// ---------------------------------------------------------------------------
// Renaming a namespace
// ---------------------------------------------------------------------------

/// The pattern that allows the rename, or the first refusal.
pub open spec fn rename_decision(
    origin: Seq<char>,
    new_name: Seq<char>,
    found: Result<FoundWorkspace, AppErrorView>,
    origin_is_dir: bool,
    new_exists: bool,
) -> Result<Seq<char>, AppErrorView> {
    match namespace_check(origin) {
        Err(e) => Err(e),
        Ok(_) => match namespace_check(new_name) {
            Err(e) => Err(e),
            Ok(_) => match found {
                Err(e) => Err(e),
                Ok(f) => match index_pattern(f.index) {
                    Err(e) => Err(e),
                    Ok(p) => match namespace_name_check(new_name, p) {
                        Err(e) => Err(e),
                        Ok(_) => if !origin_is_dir {
                            Err(namespace_not_found_error(origin))
                        } else if new_exists {
                            Err(namespace_exists_error("target namespace already exists"@, new_name))
                        } else {
                            Ok(p)
                        },
                    },
                },
            },
        },
    }
}

/// A rename of a namespace directory.
#[derive(Debug)]
pub struct NamespaceRenamePlan {
    pub old_directory: String,
    pub new_directory: String,
    pub old_shown: String,
    pub new_shown: String,
    pub renamed: NamespaceRenamed,
}

/// Decides `namespace rename`, given the workspace, whether the namespace
/// directory is there, and whether anything is at the new directory.
pub fn rename(
    origin_name: &str,
    new_name: &str,
    found: &Result<FoundWorkspace, AppError>,
    origin_is_dir: bool,
    new_exists: bool,
) -> (r: Result<NamespaceRenamePlan, AppError>)
    ensures
        r is Ok <==> rename_decision(
            origin_name@,
            new_name@,
            found_view(*found),
            origin_is_dir,
            new_exists,
        ) is Ok,
        r matches Err(e) ==> rename_decision(
            origin_name@,
            new_name@,
            found_view(*found),
            origin_is_dir,
            new_exists,
        ) == Err::<Seq<char>, AppErrorView>(e@),
        r matches Ok(plan) ==> ({
            let w = found->Ok_0.workspace;
            &&& plan.old_directory@ == namespace_directory(w, origin_name@)
            &&& plan.new_directory@ == namespace_directory(w, new_name@)
            &&& plan.old_shown@ == shown_directory(w, origin_name@)
            &&& plan.new_shown@ == shown_directory(w, new_name@)
            &&& plan.renamed.old_namespace@ == origin_name@
            &&& plan.renamed.new_namespace@ == new_name@
            &&& plan.renamed.path@ == shown_directory(w, new_name@)
        }),
{
    match validate_namespace(origin_name) {
        Ok(()) => {},
        Err(e) => return Err(e),
    }
    match validate_namespace(new_name) {
        Ok(()) => {},
        Err(e) => return Err(e),
    }
    let f = match found {
        Ok(f) => f,
        Err(e) => return Err(e.duplicate()),
    };
    let config = match NamespaceConfig::from_workspace(f) {
        Ok(c) => c,
        Err(e) => return Err(e),
    };
    match validate_namespace_name_style(new_name, &config) {
        Ok(()) => {},
        Err(e) => return Err(e),
    }
    if !origin_is_dir {
        return Err(
            AppError::validation(
                "namespace_not_found",
                "namespace does not exist",
                detail1("namespace", origin_name),
            ),
        );
    }
    if new_exists {
        return Err(
            AppError::validation(
                "namespace_exists",
                "target namespace already exists",
                detail1("namespace", new_name),
            ),
        );
    }
    let old_directory = namespace_dir(&f.workspace, origin_name);
    let new_directory = namespace_dir(&f.workspace, new_name);
    let old_shown = relative_path(&f.workspace, old_directory.as_str());
    let new_shown = relative_path(&f.workspace, new_directory.as_str());
    let renamed = NamespaceRenamed {
        old_namespace: owned(origin_name),
        new_namespace: owned(new_name),
        path: owned(new_shown.as_str()),
    };
    Ok(NamespaceRenamePlan { old_directory, new_directory, old_shown, new_shown, renamed })
}

impl NamespaceRenamePlan {
    /// The refusal when the rename fails on disk.
    pub fn failure(&self, source: &str) -> (r: AppError)
        ensures
            r@ == fs_error(
                "rename_namespace_failed"@,
                "failed to rename namespace"@,
                self.old_shown@ + " -> "@ + self.new_shown@,
                source@,
            ),
    {
        let path = concat3(self.old_shown.as_str(), " -> ", self.new_shown.as_str());
        AppError::fs("rename_namespace_failed", "failed to rename namespace", path.as_str(), source)
    }
}

// ---------------------------------------------------------------------------
// Deleting a namespace
// ---------------------------------------------------------------------------

pub open spec fn not_empty_error(namespace: Seq<char>) -> AppErrorView {
    validation_error(
        "namespace_not_empty"@,
        "namespace is not empty"@,
        seq![("namespace"@, namespace), ("required_flag"@, "--delete-docs"@)],
    )
}

/// Whether the namespace may be deleted, or the first refusal: a valid name,
/// the workspace, the directory is there, and it is empty unless its
/// documents go with it.
pub open spec fn delete_decision(
    namespace: Seq<char>,
    delete_docs: bool,
    found: Result<FoundWorkspace, AppErrorView>,
    is_dir: bool,
    is_empty: Result<bool, AppErrorView>,
) -> Result<(), AppErrorView> {
    match namespace_check(namespace) {
        Err(e) => Err(e),
        Ok(_) => match found {
            Err(e) => Err(e),
            Ok(_) => if !is_dir {
                Err(namespace_not_found_error(namespace))
            } else if delete_docs {
                Ok(())
            } else {
                match is_empty {
                    Err(e) => Err(e),
                    Ok(true) => Ok(()),
                    Ok(false) => Err(not_empty_error(namespace)),
                }
            },
        },
    }
}

pub open spec fn emptiness_view(r: Result<bool, AppError>) -> Result<bool, AppErrorView> {
    match r {
        Ok(b) => Ok(b),
        Err(e) => Err(e@),
    }
}

/// A deletion of a namespace directory.
#[derive(Debug)]
pub struct NamespaceDeletePlan {
    pub directory: String,
    pub shown: String,
    pub deleted: NamespaceDeleted,
}

/// Decides `namespace delete`, given the workspace, whether the namespace
/// directory is there, and whether it is empty (or why that could not be
/// read).
pub fn delete(
    namespace_name: &str,
    delete_docs: bool,
    found: &Result<FoundWorkspace, AppError>,
    is_dir: bool,
    is_empty: &Result<bool, AppError>,
) -> (r: Result<NamespaceDeletePlan, AppError>)
    ensures
        r is Ok <==> delete_decision(
            namespace_name@,
            delete_docs,
            found_view(*found),
            is_dir,
            emptiness_view(*is_empty),
        ) is Ok,
        r matches Err(e) ==> delete_decision(
            namespace_name@,
            delete_docs,
            found_view(*found),
            is_dir,
            emptiness_view(*is_empty),
        ) == Err::<(), AppErrorView>(e@),
        r matches Ok(plan) ==> ({
            let w = found->Ok_0.workspace;
            &&& plan.directory@ == namespace_directory(w, namespace_name@)
            &&& plan.shown@ == shown_directory(w, namespace_name@)
            &&& plan.deleted.namespace@ == namespace_name@
            &&& plan.deleted.deleted
            &&& plan.deleted.deleted_docs == delete_docs
        }),
{
    match validate_namespace(namespace_name) {
        Ok(()) => {},
        Err(e) => return Err(e),
    }
    let f = match found {
        Ok(f) => f,
        Err(e) => return Err(e.duplicate()),
    };
    if !is_dir {
        return Err(
            AppError::validation(
                "namespace_not_found",
                "namespace does not exist",
                detail1("namespace", namespace_name),
            ),
        );
    }
    if !delete_docs {
        match is_empty {
            Err(e) => return Err(e.duplicate()),
            Ok(true) => {},
            Ok(false) => {
                let mut d = Vec::new();
                d.push(detail("namespace", namespace_name));
                d.push(detail("required_flag", "--delete-docs"));
                assert(details_view(d@) =~= seq![
                    ("namespace"@, namespace_name@),
                    ("required_flag"@, "--delete-docs"@),
                ]);
                return Err(AppError::validation("namespace_not_empty", "namespace is not empty", d));
            },
        }
    }
    let directory = namespace_dir(&f.workspace, namespace_name);
    let shown = relative_path(&f.workspace, directory.as_str());
    Ok(
        NamespaceDeletePlan {
            directory,
            shown,
            deleted: NamespaceDeleted {
                namespace: owned(namespace_name),
                deleted: true,
                deleted_docs: delete_docs,
            },
        },
    )
}

impl NamespaceDeletePlan {
    /// The refusal when the directory cannot be removed.
    pub fn failure(&self, source: &str) -> (r: AppError)
        ensures
            r@ == fs_error(
                "delete_namespace_failed"@,
                "failed to delete namespace"@,
                self.shown@,
                source@,
            ),
    {
        AppError::fs("delete_namespace_failed", "failed to delete namespace", self.shown.as_str(), source)
    }
}

} // verus!
