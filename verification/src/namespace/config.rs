//! The naming rule that applies inside the documents directory, and the
//! namespaces and documents whose names break it.
use vstd::prelude::*;

use crate::utils::error::{AppError, AppErrorView, detail, details_view, validation_error};
use crate::utils::index::{
    DocsIndex, NamespaceListing, listing_view, listing_views, namespaces_view,
};
use crate::utils::naming::{style_pattern, unsupported_style_error};
use crate::utils::paths::{
    anchored, compiled_pattern, join_path, namespace_check, path_join,
    validate_namespace,
};
use crate::utils::pattern::{
    DocumentRegex, known_match, known_pattern, regex_is_match, regex_matches,
};
use crate::utils::text::{owned, views};
use crate::utils::workspace::{FoundWorkspace, Workspace};

pub use crate::utils::paths::compile_document_regex;

verus! {

/// The rule for the names inside one namespace (the same for all of them:
/// the pattern of the naming style of docs.json).
#[derive(Debug)]
pub struct NamespaceConfig {
    pub naming_style_regex: String,
}

/// A namespace whose name does not match the pattern.
#[derive(Debug)]
pub struct InvalidNamespace {
    pub namespace: String,
    pub naming_style_regex: String,
}

pub struct InvalidNamespaceView {
    pub namespace: Seq<char>,
    pub naming_style_regex: Seq<char>,
}

impl View for InvalidNamespace {
    type V = InvalidNamespaceView;

    open spec fn view(&self) -> InvalidNamespaceView {
        InvalidNamespaceView {
            namespace: self.namespace@,
            naming_style_regex: self.naming_style_regex@,
        }
    }
}

/// A document whose stem does not match the pattern.
#[derive(Debug)]
pub struct InvalidDocument {
    pub namespace: String,
    pub document: String,
    pub naming_style_regex: String,
}

pub struct InvalidDocumentView {
    pub namespace: Seq<char>,
    pub document: Seq<char>,
    pub naming_style_regex: Seq<char>,
}

impl View for InvalidDocument {
    type V = InvalidDocumentView;

    open spec fn view(&self) -> InvalidDocumentView {
        InvalidDocumentView {
            namespace: self.namespace@,
            document: self.document@,
            naming_style_regex: self.naming_style_regex@,
        }
    }
}

pub open spec fn invalid_namespace_views(v: Seq<InvalidNamespace>) -> Seq<InvalidNamespaceView> {
    v.map_values(|x: InvalidNamespace| x@)
}

pub open spec fn invalid_document_views(v: Seq<InvalidDocument>) -> Seq<InvalidDocumentView> {
    v.map_values(|x: InvalidDocument| x@)
}

impl NamespaceConfig {
    /// The rule that the workspace's docs.json gives every namespace: the
    /// pattern of its naming style.
    pub fn from_workspace(found: &FoundWorkspace) -> (r: Result<Self, AppError>)
        ensures
            r is Ok <==> style_pattern(found.index.naming_style@) is Some,
            r matches Ok(c) ==> c.naming_style_regex@ == style_pattern(
                found.index.naming_style@,
            )->0,
            r matches Err(e) ==> e@ == unsupported_style_error(found.index.naming_style@),
    {
        match found.index.naming_style_regex() {
            Ok(p) => Ok(NamespaceConfig { naming_style_regex: p }),
            Err(e) => Err(e),
        }
    }
}

/// The rule of one namespace, once its name is checked.
pub fn read(found: &FoundWorkspace, namespace: &str) -> (r: Result<NamespaceConfig, AppError>)
    ensures
        r is Ok <==> (namespace_check(namespace@) is Ok && style_pattern(
            found.index.naming_style@,
        ) is Some),
        r matches Ok(c) ==> c.naming_style_regex@ == style_pattern(found.index.naming_style@)->0,
        r matches Err(e) ==> e@ == (match namespace_check(namespace@) {
            Err(x) => x,
            Ok(_) => unsupported_style_error(found.index.naming_style@),
        }),
{
    match validate_namespace(namespace) {
        Err(e) => Err(e),
        Ok(()) => NamespaceConfig::from_workspace(found),
    }
}

/// The directory of a namespace: the documents directory joined with it.
pub fn namespace_dir(workspace: &Workspace, namespace: &str) -> (r: String)
    ensures
        r@ == path_join(workspace.documents_directory@, namespace@),
{
    join_path(workspace.documents_directory.as_str(), namespace)
}

// ---------------------------------------------------------------------------
// Checking one name
// ---------------------------------------------------------------------------

/// Whether a whole name matches a naming pattern.
pub open spec fn name_matches(pattern: Seq<char>, name: Seq<char>) -> bool {
    regex_is_match(anchored(pattern), name)
}

pub open spec fn document_name_error(
    namespace: Seq<char>,
    stem: Seq<char>,
    pattern: Seq<char>,
) -> AppErrorView {
    validation_error(
        "invalid_document_name"@,
        "document name does not match naming_style"@,
        seq![("document"@, stem), ("namespace"@, namespace), ("naming_style_regex"@, pattern)],
    )
}

pub open spec fn namespace_name_error(namespace: Seq<char>, pattern: Seq<char>) -> AppErrorView {
    validation_error(
        "invalid_namespace_name"@,
        "namespace name does not match naming_style"@,
        seq![("namespace"@, namespace), ("naming_style_regex"@, pattern)],
    )
}

/// The outcome of `validate_document_name`.
pub open spec fn document_name_check(
    namespace: Seq<char>,
    stem: Seq<char>,
    pattern: Seq<char>,
) -> Result<(), AppErrorView> {
    match compiled_pattern(pattern) {
        Err(e) => Err(e),
        Ok(_) => if name_matches(pattern, stem) {
            Ok(())
        } else {
            Err(document_name_error(namespace, stem, pattern))
        },
    }
}

/// The outcome of `validate_namespace_name_style`.
pub open spec fn namespace_name_check(namespace: Seq<char>, pattern: Seq<char>) -> Result<
    (),
    AppErrorView,
> {
    match compiled_pattern(pattern) {
        Err(e) => Err(e),
        Ok(_) => if name_matches(pattern, namespace) {
            Ok(())
        } else {
            Err(namespace_name_error(namespace, pattern))
        },
    }
}

/// Checks a document stem against the naming pattern of its namespace.
pub fn validate_document_name(
    namespace: &str,
    document_stem: &str,
    config: &NamespaceConfig,
) -> (r: Result<(), AppError>)
    ensures
        r is Ok <==> document_name_check(
            namespace@,
            document_stem@,
            config.naming_style_regex@,
        ) is Ok,
        r matches Err(e) ==> document_name_check(
            namespace@,
            document_stem@,
            config.naming_style_regex@,
        ) == Err::<(), AppErrorView>(e@),
        known_pattern(anchored(config.naming_style_regex@)) ==> (r is Ok <==> known_match(
            anchored(config.naming_style_regex@),
            document_stem@,
        )),
{
    let pattern = config.naming_style_regex.as_str();
    let regex = match compile_document_regex(pattern) {
        Ok(re) => re,
        Err(e) => return Err(e),
    };
    if regex_matches(&regex, document_stem) {
        return Ok(());
    }
    let mut d = Vec::new();
    d.push(detail("document", document_stem));
    d.push(detail("namespace", namespace));
    d.push(detail("naming_style_regex", pattern));
    assert(details_view(d@) =~= seq![
        ("document"@, document_stem@),
        ("namespace"@, namespace@),
        ("naming_style_regex"@, pattern@),
    ]);
    Err(AppError::validation("invalid_document_name", "document name does not match naming_style", d))
}

/// Checks a namespace name against the naming pattern.
pub fn validate_namespace_name_style(namespace: &str, config: &NamespaceConfig) -> (r: Result<
    (),
    AppError,
>)
    ensures
        r is Ok <==> namespace_name_check(namespace@, config.naming_style_regex@) is Ok,
        r matches Err(e) ==> namespace_name_check(namespace@, config.naming_style_regex@) == Err::<
            (),
            AppErrorView,
        >(e@),
        known_pattern(anchored(config.naming_style_regex@)) ==> (r is Ok <==> known_match(
            anchored(config.naming_style_regex@),
            namespace@,
        )),
{
    let pattern = config.naming_style_regex.as_str();
    let regex = match compile_document_regex(pattern) {
        Ok(re) => re,
        Err(e) => return Err(e),
    };
    if regex_matches(&regex, namespace) {
        return Ok(());
    }
    let mut d = Vec::new();
    d.push(detail("namespace", namespace));
    d.push(detail("naming_style_regex", pattern));
    assert(details_view(d@) =~= seq![("namespace"@, namespace@), ("naming_style_regex"@, pattern@)]);
    Err(
        AppError::validation(
            "invalid_namespace_name",
            "namespace name does not match naming_style",
            d,
        ),
    )
}

// ---------------------------------------------------------------------------
// Every name that breaks the rule
// ---------------------------------------------------------------------------

/// The documents among `stems` (of `namespace`) whose stem does not match.
pub open spec fn unmatched_documents(
    namespace: Seq<char>,
    pattern: Seq<char>,
    stems: Seq<Seq<char>>,
) -> Seq<InvalidDocumentView>
    decreases stems.len(),
{
    if stems.len() == 0 {
        Seq::empty()
    } else {
        let rest = unmatched_documents(namespace, pattern, stems.drop_last());
        if name_matches(pattern, stems.last()) {
            rest
        } else {
            rest.push(
                InvalidDocumentView {
                    namespace,
                    document: stems.last(),
                    naming_style_regex: pattern,
                },
            )
        }
    }
}

/// The namespaces among `namespaces` whose name does not match.
pub open spec fn unmatched_namespaces(pattern: Seq<char>, namespaces: Seq<Seq<char>>) -> Seq<
    InvalidNamespaceView,
>
    decreases namespaces.len(),
{
    if namespaces.len() == 0 {
        Seq::empty()
    } else {
        let rest = unmatched_namespaces(pattern, namespaces.drop_last());
        if name_matches(pattern, namespaces.last()) {
            rest
        } else {
            rest.push(
                InvalidNamespaceView { namespace: namespaces.last(), naming_style_regex: pattern },
            )
        }
    }
}

fn push_unmatched_documents(
    namespace: &str,
    pattern: &str,
    regex: &DocumentRegex,
    stems: &Vec<String>,
    out: &mut Vec<InvalidDocument>,
)
    requires
        regex.source() == anchored(pattern@),
    ensures
        invalid_document_views(final(out)@) == invalid_document_views(old(out)@)
            + unmatched_documents(namespace@, pattern@, views(stems@)),
{
    let ghost all = views(stems@);
    let ghost start = invalid_document_views(out@);
    let mut i: usize = 0;
    assert(all.take(0) =~= Seq::<Seq<char>>::empty());
    assert(start + Seq::<InvalidDocumentView>::empty() =~= start);
    while i < stems.len()
        invariant
            i <= stems@.len(),
            all == views(stems@),
            regex.source() == anchored(pattern@),
            invalid_document_views(out@) == start + unmatched_documents(
                namespace@,
                pattern@,
                all.take(i as int),
            ),
        decreases stems.len() - i,
    {
        proof {
            assert(all.take(i + 1).drop_last() =~= all.take(i as int));
            assert(all.take(i + 1).last() == stems@[i as int]@);
        }
        if !regex_matches(regex, stems[i].as_str()) {
            let ghost before = out@;
            out.push(
                InvalidDocument {
                    namespace: owned(namespace),
                    document: stems[i].clone(),
                    naming_style_regex: owned(pattern),
                },
            );
            assert(invalid_document_views(out@) =~= invalid_document_views(before).push(
                out@.last()@,
            ));
        }
        i = i + 1;
    }
    assert(all.take(stems@.len() as int) =~= all);
}

/// The outcome of `invalid_documents_for_regex`.
pub open spec fn invalid_documents_check(
    namespace: Seq<char>,
    pattern: Seq<char>,
    stems: Seq<Seq<char>>,
) -> Result<Seq<InvalidDocumentView>, AppErrorView> {
    match compiled_pattern(pattern) {
        Err(e) => Err(e),
        Ok(_) => Ok(unmatched_documents(namespace, pattern, stems)),
    }
}

/// The documents of one namespace (`""` for the root) whose stems do not
/// match `regex_pattern`.
pub fn invalid_documents_for_regex(
    namespace: &str,
    regex_pattern: &str,
    stems: &Vec<String>,
) -> (r: Result<Vec<InvalidDocument>, AppError>)
    ensures
        r is Ok <==> invalid_documents_check(namespace@, regex_pattern@, views(stems@)) is Ok,
        r matches Ok(v) ==> Ok::<Seq<InvalidDocumentView>, AppErrorView>(
            invalid_document_views(v@),
        ) == invalid_documents_check(namespace@, regex_pattern@, views(stems@)),
        r matches Err(e) ==> Err::<Seq<InvalidDocumentView>, AppErrorView>(e@)
            == invalid_documents_check(namespace@, regex_pattern@, views(stems@)),
{
    let regex = match compile_document_regex(regex_pattern) {
        Ok(re) => re,
        Err(e) => return Err(e),
    };
    let mut out: Vec<InvalidDocument> = Vec::new();
    assert(invalid_document_views(out@) =~= Seq::<InvalidDocumentView>::empty());
    push_unmatched_documents(namespace, regex_pattern, &regex, stems, &mut out);
    assert(invalid_document_views(out@) =~= unmatched_documents(
        namespace@,
        regex_pattern@,
        views(stems@),
    ));
    Ok(out)
}

/// The outcome of `all_invalid_namespaces`.
pub open spec fn invalid_namespaces_check(
    pattern: Seq<char>,
    namespaces: Result<Seq<Seq<char>>, AppErrorView>,
) -> Result<Seq<InvalidNamespaceView>, AppErrorView> {
    match compiled_pattern(pattern) {
        Err(e) => Err(e),
        Ok(_) => match namespaces {
            Err(e) => Err(e),
            Ok(nss) => Ok(unmatched_namespaces(pattern, nss)),
        },
    }
}

/// The namespaces whose names do not match `naming_style_regex`, given the
/// namespace listing of the documents directory.
pub fn all_invalid_namespaces(
    naming_style_regex: &str,
    namespaces: &Result<Vec<String>, AppError>,
) -> (r: Result<Vec<InvalidNamespace>, AppError>)
    ensures
        r is Ok <==> invalid_namespaces_check(naming_style_regex@, listing_view(*namespaces)) is Ok,
        r matches Ok(v) ==> Ok::<Seq<InvalidNamespaceView>, AppErrorView>(
            invalid_namespace_views(v@),
        ) == invalid_namespaces_check(naming_style_regex@, listing_view(*namespaces)),
        r matches Err(e) ==> Err::<Seq<InvalidNamespaceView>, AppErrorView>(e@)
            == invalid_namespaces_check(naming_style_regex@, listing_view(*namespaces)),
{
    let regex = match compile_document_regex(naming_style_regex) {
        Ok(re) => re,
        Err(e) => return Err(e),
    };
    let names = match namespaces {
        Err(e) => return Err(e.duplicate()),
        Ok(v) => v,
    };
    let ghost all = views(names@);
    let mut out: Vec<InvalidNamespace> = Vec::new();
    let mut i: usize = 0;
    assert(all.take(0) =~= Seq::<Seq<char>>::empty());
    assert(invalid_namespace_views(out@) =~= Seq::<InvalidNamespaceView>::empty());
    while i < names.len()
        invariant
            i <= names@.len(),
            all == views(names@),
            regex.source() == anchored(naming_style_regex@),
            invalid_namespace_views(out@) == unmatched_namespaces(
                naming_style_regex@,
                all.take(i as int),
            ),
        decreases names.len() - i,
    {
        proof {
            assert(all.take(i + 1).drop_last() =~= all.take(i as int));
            assert(all.take(i + 1).last() == names@[i as int]@);
        }
        if !regex_matches(&regex, names[i].as_str()) {
            let ghost before = out@;
            out.push(
                InvalidNamespace {
                    namespace: names[i].clone(),
                    naming_style_regex: owned(naming_style_regex),
                },
            );
            assert(invalid_namespace_views(out@) =~= invalid_namespace_views(before).push(
                out@.last()@,
            ));
        }
        i = i + 1;
    }
    assert(all.take(names@.len() as int) =~= all);
    Ok(out)
}

/// The documents of the namespaces, namespace by namespace, whose stems do
/// not match; the first namespace that cannot be read stops.
pub open spec fn namespaces_unmatched(
    pattern: Seq<char>,
    listings: Seq<(Seq<char>, Result<Seq<Seq<char>>, AppErrorView>)>,
) -> Result<Seq<InvalidDocumentView>, AppErrorView>
    decreases listings.len(),
{
    if listings.len() == 0 {
        Ok(Seq::empty())
    } else {
        match namespaces_unmatched(pattern, listings.drop_last()) {
            Err(e) => Err(e),
            Ok(done) => match namespace_check(listings.last().0) {
                Err(e) => Err(e),
                Ok(_) => match listings.last().1 {
                    Err(e) => Err(e),
                    Ok(stems) => Ok(
                        done + unmatched_documents(listings.last().0, pattern, stems),
                    ),
                },
            },
        }
    }
}

/// The outcome of `all_invalid_documents`: root documents first, then each
/// namespace.
pub open spec fn all_invalid_documents_check(
    pattern: Seq<char>,
    root: Result<Seq<Seq<char>>, AppErrorView>,
    namespaces: Result<Seq<(Seq<char>, Result<Seq<Seq<char>>, AppErrorView>)>, AppErrorView>,
) -> Result<Seq<InvalidDocumentView>, AppErrorView> {
    match compiled_pattern(pattern) {
        Err(e) => Err(e),
        Ok(_) => match root {
            Err(e) => Err(e),
            Ok(stems) => match namespaces {
                Err(e) => Err(e),
                Ok(listings) => match namespaces_unmatched(pattern, listings) {
                    Err(e) => Err(e),
                    Ok(rest) => Ok(unmatched_documents(Seq::empty(), pattern, stems) + rest),
                },
            },
        },
    }
}

proof fn lemma_namespaces_unmatched_error_stays(
    pattern: Seq<char>,
    listings: Seq<(Seq<char>, Result<Seq<Seq<char>>, AppErrorView>)>,
    k: int,
)
    requires
        0 <= k <= listings.len(),
        namespaces_unmatched(pattern, listings.take(k)) is Err,
    ensures
        namespaces_unmatched(pattern, listings) == namespaces_unmatched(pattern, listings.take(k)),
    decreases listings.len() - k,
{
    if k == listings.len() {
        assert(listings.take(k) =~= listings);
    } else {
        assert(listings.take(k + 1).drop_last() =~= listings.take(k));
        lemma_namespaces_unmatched_error_stays(pattern, listings, k + 1);
    }
}

/// Every document, in the root and in each namespace, whose stem does not
/// match `naming_style_regex`.
pub fn all_invalid_documents(
    naming_style_regex: &str,
    root_documents: &Result<Vec<String>, AppError>,
    namespaces: &Result<Vec<NamespaceListing>, AppError>,
) -> (r: Result<Vec<InvalidDocument>, AppError>)
    ensures
        r is Ok <==> all_invalid_documents_check(
            naming_style_regex@,
            listing_view(*root_documents),
            namespaces_view(*namespaces),
        ) is Ok,
        r matches Ok(v) ==> Ok::<Seq<InvalidDocumentView>, AppErrorView>(
            invalid_document_views(v@),
        ) == all_invalid_documents_check(
            naming_style_regex@,
            listing_view(*root_documents),
            namespaces_view(*namespaces),
        ),
        r matches Err(e) ==> Err::<Seq<InvalidDocumentView>, AppErrorView>(e@)
            == all_invalid_documents_check(
            naming_style_regex@,
            listing_view(*root_documents),
            namespaces_view(*namespaces),
        ),
{
    let pattern = naming_style_regex;
    let regex = match compile_document_regex(pattern) {
        Ok(re) => re,
        Err(e) => return Err(e),
    };
    let stems = match root_documents {
        Err(e) => return Err(e.duplicate()),
        Ok(v) => v,
    };
    let listings = match namespaces {
        Err(e) => return Err(e.duplicate()),
        Ok(v) => v,
    };
    let mut out: Vec<InvalidDocument> = Vec::new();
    assert(invalid_document_views(out@) =~= Seq::<InvalidDocumentView>::empty());
    proof {
        reveal_strlit("");
        assert(""@ =~= Seq::<char>::empty());
    }
    push_unmatched_documents("", pattern, &regex, stems, &mut out);
    let ghost root_part = invalid_document_views(out@);
    assert(root_part =~= unmatched_documents(Seq::empty(), pattern@, views(stems@)));
    let ghost all = listing_views(listings@);
    let mut i: usize = 0;
    assert(all.take(0) =~= Seq::<(Seq<char>, Result<Seq<Seq<char>>, AppErrorView>)>::empty());
    assert(root_part + Seq::<InvalidDocumentView>::empty() =~= root_part);
    assert(compiled_pattern(pattern@) is Ok) by {
        crate::utils::paths::lemma_compiled_pattern(pattern@);
    }
    while i < listings.len()
        invariant
            i <= listings@.len(),
            all == listing_views(listings@),
            regex.source() == anchored(pattern@),
            compiled_pattern(pattern@) is Ok,
            pattern@ == naming_style_regex@,
            listing_view(*root_documents) == Ok::<Seq<Seq<char>>, AppErrorView>(views(stems@)),
            namespaces_view(*namespaces) == Ok::<
                Seq<(Seq<char>, Result<Seq<Seq<char>>, AppErrorView>)>,
                AppErrorView,
            >(all),
            namespaces_unmatched(pattern@, all.take(i as int)) matches Ok(done)
                && invalid_document_views(out@) == root_part + done,
        decreases listings.len() - i,
    {
        proof {
            assert(all.take(i + 1).drop_last() =~= all.take(i as int));
            assert(all.take(i + 1).last() == listings@[i as int]@);
        }
        let ghost done = namespaces_unmatched(pattern@, all.take(i as int))->Ok_0;
        let listing = &listings[i];
        match validate_namespace(listing.namespace.as_str()) {
            Ok(()) => {},
            Err(e) => {
                proof {
                    assert(namespace_check(listing.namespace@) == Err::<(), AppErrorView>(e@));
                    assert(namespaces_unmatched(pattern@, all.take(i + 1)) == Err::<
                        Seq<InvalidDocumentView>,
                        AppErrorView,
                    >(e@));
                    lemma_namespaces_unmatched_error_stays(pattern@, all, i + 1);
                }
                return Err(e);
            },
        }
        match &listing.documents {
            Err(e) => {
                proof {
                    lemma_namespaces_unmatched_error_stays(pattern@, all, i + 1);
                }
                return Err(e.duplicate());
            },
            Ok(ns_stems) => {
                let ghost before = invalid_document_views(out@);
                push_unmatched_documents(
                    listing.namespace.as_str(),
                    pattern,
                    &regex,
                    ns_stems,
                    &mut out,
                );
                assert(root_part + done + unmatched_documents(
                    listing.namespace@,
                    pattern@,
                    views(ns_stems@),
                ) =~= root_part + (done + unmatched_documents(
                    listing.namespace@,
                    pattern@,
                    views(ns_stems@),
                )));
            },
        }
        i = i + 1;
    }
    assert(all.take(listings@.len() as int) =~= all);
    Ok(out)
}

} // verus!
