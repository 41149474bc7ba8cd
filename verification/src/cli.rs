//! The commands of `adm`, and what their results are reported as.
use vstd::prelude::*;

use crate::document::fix::FixRename;
use crate::document::types::DocumentSummary;
use crate::namespace::types::{NamespaceDocuments, NamespaceSummary};
use crate::utils::error::{AppError, AppErrorView, input_error};
use crate::utils::output::{DocumentRow, FixRow, NamespaceRow};
use crate::utils::text::{trim, trim_str};

verus! {

/// A parsed command line.
#[derive(Debug)]
pub struct CommandLine {
    pub command: Option<Command>,
}

#[derive(Debug)]
pub enum Command {
    Init,
    Namespace { action: NamespaceAction },
    Docs { action: DocsAction },
    Tree,
    Sync,
    Check,
    Fix,
}

#[derive(Debug)]
pub enum NamespaceAction {
    List,
    Create { namespace_name: String, document_name_regex: Option<String> },
    ListDocs,
    Rename { origin_name: String, new_name: String },
    Delete { namespace_name: String, delete_docs: bool },
}

#[derive(Debug)]
pub enum DocsAction {
    List { namespace: Option<String> },
    Create { doc_name: String, namespace: Option<String>, markdown_content: String },
    Rename { origin_doc_name: String, new_doc_name: String },
    Patch { doc_name: String, namespace: Option<String> },
    Delete { namespace: Option<String>, doc_name: String },
}

/// The message of a command-line parse error without surrounding blanks.
pub fn clean_clap_error(message: &str) -> (r: String)
    ensures
        r@ == trim(message@),
{
    trim_str(message)
}

pub open spec fn invalid_command_error(message: Seq<char>) -> AppErrorView {
    input_error("invalid_command"@, trim(message), Seq::empty())
}

/// The refusal of a command line that does not parse, given the parser's
/// message.
pub fn invalid_command(message: &str) -> (r: AppError)
    ensures
        r@ == invalid_command_error(message@),
{
    let cleaned = clean_clap_error(message);
    AppError::input("invalid_command", cleaned.as_str())
}

/// The rows that `namespace list` prints.
pub fn namespace_rows(namespaces: &Vec<NamespaceSummary>) -> (r: Vec<NamespaceRow>)
    ensures
        r@.len() == namespaces@.len(),
        forall|k: int|
            0 <= k < r@.len() ==> (#[trigger] r@[k]).namespace@ == namespaces@[k].namespace@
                && r@[k].path@ == namespaces@[k].path@,
{
    let mut out: Vec<NamespaceRow> = Vec::new();
    let mut k: usize = 0;
    while k < namespaces.len()
        invariant
            k <= namespaces@.len(),
            out@.len() == k,
            forall|m: int|
                0 <= m < k ==> (#[trigger] out@[m]).namespace@ == namespaces@[m].namespace@
                    && out@[m].path@ == namespaces@[m].path@,
        decreases namespaces.len() - k,
    {
        out.push(
            NamespaceRow {
                namespace: namespaces[k].namespace.clone(),
                path: namespaces[k].path.clone(),
            },
        );
        k = k + 1;
    }
    out
}

/// The rows that `docs list` prints.
pub fn document_rows(documents: &Vec<DocumentSummary>) -> (r: Vec<DocumentRow>)
    ensures
        r@.len() == documents@.len(),
        forall|k: int|
            0 <= k < r@.len() ==> (#[trigger] r@[k]).document@ == documents@[k].document@
                && r@[k].path@ == documents@[k].path@,
{
    let mut out: Vec<DocumentRow> = Vec::new();
    let mut k: usize = 0;
    while k < documents.len()
        invariant
            k <= documents@.len(),
            out@.len() == k,
            forall|m: int|
                0 <= m < k ==> (#[trigger] out@[m]).document@ == documents@[m].document@
                    && out@[m].path@ == documents@[m].path@,
        decreases documents.len() - k,
    {
        out.push(
            DocumentRow {
                document: documents[k].document.clone(),
                path: documents[k].path.clone(),
            },
        );
        k = k + 1;
    }
    out
}

/// The groups that `namespace list-docs` prints: each namespace with the
/// document and path of its documents.
pub fn namespace_document_rows(groups: &Vec<NamespaceDocuments>) -> (r: Vec<
    crate::utils::output::NamespaceDocuments,
>)
    ensures
        r@.len() == groups@.len(),
        forall|k: int|
            0 <= k < r@.len() ==> (#[trigger] r@[k]).namespace@ == groups@[k].namespace@
                && r@[k].documents@.len() == groups@[k].documents@.len() && forall|m: int|
                0 <= m < r@[k].documents@.len() ==> (#[trigger] r@[k].documents@[m]).document@
                    == groups@[k].documents@[m].document@ && r@[k].documents@[m].path@
                    == groups@[k].documents@[m].path@,
{
    let mut out: Vec<crate::utils::output::NamespaceDocuments> = Vec::new();
    let mut k: usize = 0;
    while k < groups.len()
        invariant
            k <= groups@.len(),
            out@.len() == k,
            forall|j: int|
                0 <= j < k ==> (#[trigger] out@[j]).namespace@ == groups@[j].namespace@
                    && out@[j].documents@.len() == groups@[j].documents@.len() && forall|m: int|
                    0 <= m < out@[j].documents@.len() ==> (#[trigger] out@[j].documents@[m]).document@
                        == groups@[j].documents@[m].document@ && out@[j].documents@[m].path@
                        == groups@[j].documents@[m].path@,
        decreases groups.len() - k,
    {
        let g = &groups[k];
        let mut rows: Vec<DocumentRow> = Vec::new();
        let mut m: usize = 0;
        while m < g.documents.len()
            invariant
                m <= g.documents@.len(),
                rows@.len() == m,
                forall|i: int|
                    0 <= i < m ==> (#[trigger] rows@[i]).document@ == g.documents@[i].document@
                        && rows@[i].path@ == g.documents@[i].path@,
            decreases g.documents.len() - m,
        {
            rows.push(
                DocumentRow {
                    document: g.documents[m].document.clone(),
                    path: g.documents[m].path.clone(),
                },
            );
            m = m + 1;
        }
        out.push(crate::utils::output::NamespaceDocuments { namespace: g.namespace.clone(), documents: rows });
        k = k + 1;
    }
    out
}

/// The rows that `fix` prints: each migration as its old and new path.
pub fn fix_rows(renames: &Vec<FixRename>) -> (r: Vec<FixRow>)
    ensures
        r@.len() == renames@.len(),
        forall|k: int|
            0 <= k < r@.len() ==> (#[trigger] r@[k]).old_path@ == renames@[k].old_path@
                && r@[k].new_path@ == renames@[k].new_path@,
{
    let mut out: Vec<FixRow> = Vec::new();
    let mut k: usize = 0;
    while k < renames.len()
        invariant
            k <= renames@.len(),
            out@.len() == k,
            forall|m: int|
                0 <= m < k ==> (#[trigger] out@[m]).old_path@ == renames@[m].old_path@
                    && out@[m].new_path@ == renames@[m].new_path@,
        decreases renames.len() - k,
    {
        out.push(
            FixRow {
                old_path: renames[k].old_path.clone(),
                new_path: renames[k].new_path.clone(),
            },
        );
        k = k + 1;
    }
    out
}

} // verus!
