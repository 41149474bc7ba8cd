//! Looking at the documents: the tree printed by `tree`, and `check`.
use vstd::prelude::*;

use crate::document::sync::{docs_in, documents_in};
use crate::namespace::config::{
    InvalidDocument, InvalidDocumentView, InvalidNamespace, InvalidNamespaceView,
    all_invalid_documents, all_invalid_documents_check, all_invalid_namespaces,
    invalid_document_views, invalid_namespace_views, invalid_namespaces_check,
};
use crate::utils::error::{
    AppError, AppErrorView, DetailLine, decimal, decimal_string, details_view, validation_error,
};
use crate::utils::index::{
    DocumentEntry, DocumentEntryView, NamespaceListing, entry_views, listing_view, listing_views,
    namespaces_view,
};
use crate::utils::naming::{naming_style_regex, style_pattern, unsupported_style_error};
use crate::utils::text::{append_str, concat2, concat3, join, join_strings, owned, views};

verus! {

// ---------------------------------------------------------------------------
// The tree
// ---------------------------------------------------------------------------

pub open spec fn connector(last: bool) -> Seq<char> {
    if last {
        "`-- "@
    } else {
        "|-- "@
    }
}

pub open spec fn tree_document_line(
    prefix: Seq<char>,
    last: bool,
    d: DocumentEntryView,
) -> Seq<char> {
    prefix + connector(last) + d.document + ".md - "@ + d.description
}

/// The lines of some documents under `prefix`; the last of them closes its
/// branch when `closes` holds.
pub open spec fn tree_document_lines(
    prefix: Seq<char>,
    closes: bool,
    ds: Seq<DocumentEntryView>,
) -> Seq<Seq<char>> {
    Seq::new(ds.len(), |m: int| tree_document_line(prefix, closes && m + 1 == ds.len(), ds[m]))
}

/// A namespace line followed by the lines of its documents.
pub open spec fn namespace_block(
    docs: Seq<DocumentEntryView>,
    namespace: Seq<char>,
    last: bool,
) -> Seq<Seq<char>> {
    seq![connector(last) + namespace + "/"@] + tree_document_lines(
        if last {
            "    "@
        } else {
            "|   "@
        },
        true,
        docs_in(docs, namespace),
    )
}

/// The blocks of the first namespaces of a list of `count` namespaces; the
/// last namespace closes the tree when `closes` holds (no root document
/// follows it).
pub open spec fn namespace_blocks(
    docs: Seq<DocumentEntryView>,
    namespaces: Seq<Seq<char>>,
    count: nat,
    closes: bool,
) -> Seq<Seq<char>>
    decreases namespaces.len(),
{
    if namespaces.len() == 0 {
        Seq::empty()
    } else {
        namespace_blocks(docs, namespaces.drop_last(), count, closes) + namespace_block(
            docs,
            namespaces.last(),
            closes && namespaces.len() == count,
        )
    }
}

/// The lines of the tree: the documents directory, each namespace with its
/// documents, then the root documents, the last of which closes the tree.
pub open spec fn tree_lines(
    dir: Seq<char>,
    docs: Seq<DocumentEntryView>,
    namespaces: Seq<Seq<char>>,
) -> Seq<Seq<char>> {
    let root = docs_in(docs, Seq::empty());
    seq![dir + "/"@] + namespace_blocks(docs, namespaces, namespaces.len(), root.len() == 0)
        + tree_document_lines(Seq::empty(), true, root)
}

fn push_document_lines(
    lines: &mut Vec<String>,
    prefix: &str,
    closes: bool,
    ds: &Vec<&DocumentEntry>,
)
    ensures
        views(final(lines)@) == views(old(lines)@) + tree_document_lines(
            prefix@,
            closes,
            ds@.map_values(|d: &DocumentEntry| d@),
        ),
{
    let ghost dv = ds@.map_values(|d: &DocumentEntry| d@);
    let ghost start = views(lines@);
    let mut m: usize = 0;
    assert(start + tree_document_lines(prefix@, closes, dv).take(0) =~= start);
    while m < ds.len()
        invariant
            m <= ds@.len(),
            dv == ds@.map_values(|d: &DocumentEntry| d@),
            views(lines@) == start + tree_document_lines(prefix@, closes, dv).take(m as int),
        decreases ds.len() - m,
    {
        let d = ds[m];
        let last = closes && m + 1 == ds.len();
        let mut line = owned(prefix);
        if last {
            append_str(&mut line, "`-- ");
        } else {
            append_str(&mut line, "|-- ");
        }
        append_str(&mut line, d.document.as_str());
        append_str(&mut line, ".md - ");
        append_str(&mut line, d.description.as_str());
        let ghost before = lines@;
        lines.push(line);
        proof {
            assert(dv[m as int] == d@);
            assert(views(lines@) =~= views(before).push(
                tree_document_line(prefix@, last, dv[m as int]),
            ));
            assert(tree_document_lines(prefix@, closes, dv).take(m + 1) =~= tree_document_lines(
                prefix@,
                closes,
                dv,
            ).take(m as int).push(tree_document_line(prefix@, last, dv[m as int])));
        }
        m = m + 1;
    }
    assert(tree_document_lines(prefix@, closes, dv).take(ds@.len() as int) =~= tree_document_lines(
        prefix@,
        closes,
        dv,
    ));
}

/// The tree of the documents directory, as `tree` prints it: one line per
/// entry, joined by newlines.
pub fn tree(
    documents_directory_name: &str,
    documents: &Vec<DocumentEntry>,
    namespaces: &Vec<String>,
) -> (r: String)
    ensures
        r@ == join(
            tree_lines(documents_directory_name@, entry_views(documents@), views(namespaces@)),
            "\n"@,
        ),
{
    let ghost docs = entry_views(documents@);
    let ghost nss = views(namespaces@);
    let mut lines: Vec<String> = Vec::new();
    lines.push(concat2(documents_directory_name, "/"));
    let root_documents = documents_in(documents, "");
    proof {
        reveal_strlit("");
        assert(""@ =~= Seq::<char>::empty());
    }
    let ghost root = docs_in(docs, Seq::empty());
    assert(root_documents@.map_values(|d: &DocumentEntry| d@) == root);
    let closes = root_documents.len() == 0;
    let ghost head = views(lines@);
    assert(head =~= seq![documents_directory_name@ + "/"@]);
    let mut j: usize = 0;
    assert(nss.take(0) =~= Seq::<Seq<char>>::empty());
    assert(head + Seq::<Seq<char>>::empty() =~= head);
    while j < namespaces.len()
        invariant
            j <= namespaces@.len(),
            nss == views(namespaces@),
            docs == entry_views(documents@),
            closes == (root.len() == 0),
            views(lines@) == head + namespace_blocks(docs, nss.take(j as int), nss.len(), closes),
        decreases namespaces.len() - j,
    {
        let namespace = namespaces[j].as_str();
        let last = closes && j + 1 == namespaces.len();
        let ghost before = views(lines@);
        if last {
            lines.push(concat3("`-- ", namespace, "/"));
        } else {
            lines.push(concat3("|-- ", namespace, "/"));
        }
        let in_namespace = documents_in(documents, namespace);
        if last {
            push_document_lines(&mut lines, "    ", true, &in_namespace);
        } else {
            push_document_lines(&mut lines, "|   ", true, &in_namespace);
        }
        proof {
            let t = nss.take(j + 1);
            assert(t.drop_last() =~= nss.take(j as int));
            assert(t.last() == namespace@);
            assert((closes && t.len() == nss.len()) <==> last);
            assert(views(lines@) =~= before + namespace_block(docs, namespace@, last));
            assert(views(lines@) =~= head + namespace_blocks(docs, t, nss.len(), closes));
        }
        j = j + 1;
    }
    assert(nss.take(namespaces@.len() as int) =~= nss);
    push_document_lines(&mut lines, "", true, &root_documents);
    assert(views(lines@) =~= tree_lines(documents_directory_name@, docs, nss));
    join_strings(&lines, "\n")
}

// ---------------------------------------------------------------------------
// The check
// ---------------------------------------------------------------------------

/// The detail lines of the invalid documents, under `invalid_documents`.
pub open spec fn invalid_document_lines(ds: Seq<InvalidDocumentView>) -> Seq<
    (Seq<char>, Seq<char>),
>
    decreases ds.len(),
{
    if ds.len() == 0 {
        Seq::empty()
    } else {
        let k = decimal((ds.len() - 1) as nat);
        let d = ds.last();
        invalid_document_lines(ds.drop_last()) + seq![
            ("invalid_documents["@ + k + "].document"@, d.document),
            ("invalid_documents["@ + k + "].namespace"@, d.namespace),
            ("invalid_documents["@ + k + "].naming_style_regex"@, d.naming_style_regex),
        ]
    }
}

/// The detail lines of the invalid namespaces, under `invalid_namespaces`.
pub open spec fn invalid_namespace_lines(ns: Seq<InvalidNamespaceView>) -> Seq<
    (Seq<char>, Seq<char>),
>
    decreases ns.len(),
{
    if ns.len() == 0 {
        Seq::empty()
    } else {
        let k = decimal((ns.len() - 1) as nat);
        let n = ns.last();
        invalid_namespace_lines(ns.drop_last()) + seq![
            ("invalid_namespaces["@ + k + "].namespace"@, n.namespace),
            ("invalid_namespaces["@ + k + "].naming_style_regex"@, n.naming_style_regex),
        ]
    }
}

pub open spec fn check_failed_error(
    namespaces: Seq<InvalidNamespaceView>,
    documents: Seq<InvalidDocumentView>,
) -> AppErrorView {
    validation_error(
        "check_failed"@,
        "repository documentation checks failed"@,
        invalid_document_lines(documents) + invalid_namespace_lines(namespaces),
    )
}

pub open spec fn names_of(l: Seq<(Seq<char>, Result<Seq<Seq<char>>, AppErrorView>)>) -> Seq<
    Seq<char>,
> {
    l.map_values(|x: (Seq<char>, Result<Seq<Seq<char>>, AppErrorView>)| x.0)
}

/// The names of the namespaces of a listing.
pub open spec fn listed_names(
    namespaces: Result<Seq<(Seq<char>, Result<Seq<Seq<char>>, AppErrorView>)>, AppErrorView>,
) -> Result<Seq<Seq<char>>, AppErrorView> {
    match namespaces {
        Err(e) => Err(e),
        Ok(l) => Ok(names_of(l)),
    }
}

/// The outcome of `check`: the naming style, then the namespaces, then the
/// documents; it fails when any name breaks the naming style.
pub open spec fn check_outcome(
    style: Seq<char>,
    root: Result<Seq<Seq<char>>, AppErrorView>,
    namespaces: Result<Seq<(Seq<char>, Result<Seq<Seq<char>>, AppErrorView>)>, AppErrorView>,
) -> Result<(), AppErrorView> {
    match style_pattern(style) {
        None => Err(unsupported_style_error(style)),
        Some(pattern) => match invalid_namespaces_check(pattern, listed_names(namespaces)) {
            Err(e) => Err(e),
            Ok(bad_namespaces) => match all_invalid_documents_check(pattern, root, namespaces) {
                Err(e) => Err(e),
                Ok(bad_documents) => if bad_namespaces.len() == 0 && bad_documents.len() == 0 {
                    Ok(())
                } else {
                    Err(check_failed_error(bad_namespaces, bad_documents))
                },
            },
        },
    }
}

fn push_line(d: &mut Vec<DetailLine>, path: String, value: &str)
    ensures
        details_view(final(d)@) == details_view(old(d)@).push((path@, value@)),
{
    let ghost before = d@;
    let ghost p = path@;
    d.push(DetailLine { path, value: owned(value) });
    assert(details_view(d@) =~= details_view(before).push((p, value@)));
}

fn check_failed(namespaces: &Vec<InvalidNamespace>, documents: &Vec<InvalidDocument>) -> (r:
    AppError)
    ensures
        r@ == check_failed_error(invalid_namespace_views(namespaces@), invalid_document_views(documents@)),
{
    let ghost dv = invalid_document_views(documents@);
    let ghost nv = invalid_namespace_views(namespaces@);
    let mut d: Vec<DetailLine> = Vec::new();
    let mut k: usize = 0;
    assert(dv.take(0) =~= Seq::<InvalidDocumentView>::empty());
    assert(details_view(d@) =~= Seq::<(Seq<char>, Seq<char>)>::empty());
    while k < documents.len()
        invariant
            k <= documents@.len(),
            dv == invalid_document_views(documents@),
            details_view(d@) == invalid_document_lines(dv.take(k as int)),
        decreases documents.len() - k,
    {
        let index = decimal_string(k);
        let doc = &documents[k];
        let head = concat3("invalid_documents[", index.as_str(), "].document");
        push_line(&mut d, head, doc.document.as_str());
        let head = concat3("invalid_documents[", index.as_str(), "].namespace");
        push_line(&mut d, head, doc.namespace.as_str());
        let head = concat3("invalid_documents[", index.as_str(), "].naming_style_regex");
        push_line(&mut d, head, doc.naming_style_regex.as_str());
        proof {
            let t = dv.take(k + 1);
            assert(t.drop_last() =~= dv.take(k as int));
            assert(t.last() == doc@);
            assert(details_view(d@) =~= invalid_document_lines(t));
        }
        k = k + 1;
    }
    assert(dv.take(documents@.len() as int) =~= dv);
    let ghost doc_lines = details_view(d@);
    let mut k: usize = 0;
    assert(nv.take(0) =~= Seq::<InvalidNamespaceView>::empty());
    assert(doc_lines + Seq::<(Seq<char>, Seq<char>)>::empty() =~= doc_lines);
    while k < namespaces.len()
        invariant
            k <= namespaces@.len(),
            nv == invalid_namespace_views(namespaces@),
            details_view(d@) == doc_lines + invalid_namespace_lines(nv.take(k as int)),
        decreases namespaces.len() - k,
    {
        let index = decimal_string(k);
        let ns = &namespaces[k];
        let head = concat3("invalid_namespaces[", index.as_str(), "].namespace");
        push_line(&mut d, head, ns.namespace.as_str());
        let head = concat3("invalid_namespaces[", index.as_str(), "].naming_style_regex");
        push_line(&mut d, head, ns.naming_style_regex.as_str());
        proof {
            let t = nv.take(k + 1);
            assert(t.drop_last() =~= nv.take(k as int));
            assert(t.last() == ns@);
            assert(details_view(d@) =~= doc_lines + invalid_namespace_lines(t));
        }
        k = k + 1;
    }
    assert(nv.take(namespaces@.len() as int) =~= nv);
    AppError::validation("check_failed", "repository documentation checks failed", d)
}

fn namespace_names(namespaces: &Result<Vec<NamespaceListing>, AppError>) -> (r: Result<
    Vec<String>,
    AppError,
>)
    ensures
        listing_view(r) == listed_names(namespaces_view(*namespaces)),
{
    match namespaces {
        Err(e) => Err(e.duplicate()),
        Ok(listings) => {
            let ghost all = listing_views(listings@);
            let mut names: Vec<String> = Vec::new();
            let mut i: usize = 0;
            while i < listings.len()
                invariant
                    i <= listings@.len(),
                    all == listing_views(listings@),
                    views(names@) == names_of(all.take(i as int)),
                decreases listings.len() - i,
            {
                let ghost before = names@;
                names.push(listings[i].namespace.clone());
                proof {
                    assert(all[i as int].0 == listings@[i as int].namespace@);
                    assert(all.take(i + 1) =~= all.take(i as int).push(all[i as int]));
                    assert(names_of(all.take(i + 1)) =~= names_of(all.take(i as int)).push(
                        all[i as int].0,
                    ));
                    assert(views(names@) =~= views(before).push(names@[i as int]@));
                }
                i = i + 1;
            }
            assert(all.take(listings@.len() as int) =~= all);
            Ok(names)
        },
    }
}

/// Checks every namespace and document name against the naming style, given
/// the listing of the root documents and of the namespaces.
pub fn check(
    naming_style: &str,
    root_documents: &Result<Vec<String>, AppError>,
    namespaces: &Result<Vec<NamespaceListing>, AppError>,
) -> (r: Result<(), AppError>)
    ensures
        r is Ok <==> check_outcome(
            naming_style@,
            listing_view(*root_documents),
            namespaces_view(*namespaces),
        ) is Ok,
        r matches Err(e) ==> check_outcome(
            naming_style@,
            listing_view(*root_documents),
            namespaces_view(*namespaces),
        ) == Err::<(), AppErrorView>(e@),
{
    let pattern = match naming_style_regex(naming_style) {
        Ok(p) => p,
        Err(e) => return Err(e),
    };
    let names = namespace_names(namespaces);
    let invalid_namespaces = match all_invalid_namespaces(pattern.as_str(), &names) {
        Ok(v) => v,
        Err(e) => return Err(e),
    };
    let invalid_documents = match all_invalid_documents(
        pattern.as_str(),
        root_documents,
        namespaces,
    ) {
        Ok(v) => v,
        Err(e) => return Err(e),
    };
    if invalid_namespaces.len() == 0 && invalid_documents.len() == 0 {
        return Ok(());
    }
    Err(check_failed(&invalid_namespaces, &invalid_documents))
}

} // verus!
