//! Migrating namespace and document names to the naming style of `docs.json`.
//!
//! The plan is made before anything is renamed: every name is converted,
//! every target is recorded so that two names meeting on one target are
//! refused, and a target that is already taken by another entry refuses the
//! migration. Namespaces are renamed first, then documents inside their new
//! namespace directories.
use vstd::prelude::*;

use crate::utils::error::{AppError, AppErrorView, detail, details_view, fs_error, validation_error};
use crate::utils::naming::{convert_name_to_naming_style, converted_name};
use crate::utils::index::{NamespaceListing, listing_view, listing_views, namespaces_view};
use crate::utils::paths::{build_document_path, document_relative_path};
use crate::utils::text::{concat3, owned, str_eq, views};

verus! {

// ---------------------------------------------------------------------------
// Values
// ---------------------------------------------------------------------------

/// A path and the path that it is paired with: a recorded target and its
/// source, or a rename candidate's target and source.
#[derive(Debug)]
pub struct FixTarget {
    pub path: String,
    pub source: String,
}

impl View for FixTarget {
    type V = (Seq<char>, Seq<char>);

    open spec fn view(&self) -> (Seq<char>, Seq<char>) {
        (self.path@, self.source@)
    }
}

pub open spec fn target_views(v: Seq<FixTarget>) -> Seq<(Seq<char>, Seq<char>)> {
    v.map_values(|t: FixTarget| t@)
}

/// One rename of the migration: `from` is renamed to `to` on disk, and the
/// migration is reported as `old_path -> new_path`.
#[derive(Debug)]
pub struct FixRename {
    pub namespace: bool,
    pub from: String,
    pub to: String,
    pub old_path: String,
    pub new_path: String,
}

pub struct FixRenameView {
    pub namespace: bool,
    pub from: Seq<char>,
    pub to: Seq<char>,
    pub old_path: Seq<char>,
    pub new_path: Seq<char>,
}

impl View for FixRename {
    type V = FixRenameView;

    open spec fn view(&self) -> FixRenameView {
        FixRenameView {
            namespace: self.namespace,
            from: self.from@,
            to: self.to@,
            old_path: self.old_path@,
            new_path: self.new_path@,
        }
    }
}

pub open spec fn rename_views(v: Seq<FixRename>) -> Seq<FixRenameView> {
    v.map_values(|r: FixRename| r@)
}

/// What the planning has gathered so far.
#[derive(Debug)]
pub struct FixState {
    pub document_targets: Vec<FixTarget>,
    pub namespace_targets: Vec<FixTarget>,
    pub namespace_renames: Vec<FixRename>,
    pub document_renames: Vec<FixRename>,
}

pub struct FixStateView {
    pub document_targets: Seq<(Seq<char>, Seq<char>)>,
    pub namespace_targets: Seq<(Seq<char>, Seq<char>)>,
    pub namespace_renames: Seq<FixRenameView>,
    pub document_renames: Seq<FixRenameView>,
}

impl View for FixState {
    type V = FixStateView;

    open spec fn view(&self) -> FixStateView {
        FixStateView {
            document_targets: target_views(self.document_targets@),
            namespace_targets: target_views(self.namespace_targets@),
            namespace_renames: rename_views(self.namespace_renames@),
            document_renames: rename_views(self.document_renames@),
        }
    }
}

// ---------------------------------------------------------------------------
// The plan, stated
// ---------------------------------------------------------------------------

/// The source recorded for the target `path`, if any.
pub open spec fn recorded_source(targets: Seq<(Seq<char>, Seq<char>)>, path: Seq<char>) -> Option<
    Seq<char>,
>
    decreases targets.len(),
{
    if targets.len() == 0 {
        None
    } else if targets.last().0 == path {
        Some(targets.last().1)
    } else {
        recorded_source(targets.drop_last(), path)
    }
}

pub open spec fn namespace_path(dir: Seq<char>, namespace: Seq<char>) -> Seq<char> {
    dir + "/"@ + namespace
}

/// Two names would be migrated to one path.
pub open spec fn duplicate_target_error(
    namespace: bool,
    path: Seq<char>,
    existing: Seq<char>,
    source: Seq<char>,
) -> AppErrorView {
    validation_error(
        "fix_conflict"@,
        if namespace {
            "naming_style migration would create duplicate namespace paths"@
        } else {
            "naming_style migration would create duplicate document paths"@
        },
        seq![("path"@, path), ("sources[0]"@, existing), ("sources[1]"@, source)],
    )
}

/// The target of a rename is another entry that exists already.
pub open spec fn target_taken_error(path: Seq<char>) -> AppErrorView {
    validation_error(
        "fix_conflict"@,
        "naming_style migration target already exists"@,
        seq![("path"@, path)],
    )
}

pub open spec fn empty_state() -> FixStateView {
    FixStateView {
        document_targets: Seq::empty(),
        namespace_targets: Seq::empty(),
        namespace_renames: Seq::empty(),
        document_renames: Seq::empty(),
    }
}

/// One document of the namespace `old_ns`, which is migrated to `new_ns`.
/// `taken` lists the targets that exist and are not their own source.
pub open spec fn fix_document_step(
    dir: Seq<char>,
    style: Seq<char>,
    old_ns: Seq<char>,
    new_ns: Seq<char>,
    stem: Seq<char>,
    s: FixStateView,
    taken: Seq<Seq<char>>,
) -> Result<FixStateView, AppErrorView> {
    match converted_name(stem, style) {
        Err(e) => Err(e),
        Ok(new_stem) => {
            let old_path = document_relative_path(dir, old_ns, stem);
            let new_path = document_relative_path(dir, new_ns, new_stem);
            match recorded_source(s.document_targets, new_path) {
                Some(existing) => Err(duplicate_target_error(false, new_path, existing, old_path)),
                None => {
                    let targets = s.document_targets.push((new_path, old_path));
                    if stem == new_stem {
                        Ok(
                            FixStateView {
                                document_targets: targets,
                                namespace_targets: s.namespace_targets,
                                namespace_renames: s.namespace_renames,
                                document_renames: s.document_renames,
                            },
                        )
                    } else if taken.contains(new_path) {
                        Err(target_taken_error(new_path))
                    } else {
                        Ok(
                            FixStateView {
                                document_targets: targets,
                                namespace_targets: s.namespace_targets,
                                namespace_renames: s.namespace_renames,
                                document_renames: s.document_renames.push(
                                    FixRenameView {
                                        namespace: false,
                                        from: document_relative_path(dir, new_ns, stem),
                                        to: new_path,
                                        old_path,
                                        new_path,
                                    },
                                ),
                            },
                        )
                    }
                },
            }
        },
    }
}

/// The documents of one directory, in order; the first refusal stops.
pub open spec fn fix_documents(
    dir: Seq<char>,
    style: Seq<char>,
    old_ns: Seq<char>,
    new_ns: Seq<char>,
    stems: Seq<Seq<char>>,
    s: FixStateView,
    taken: Seq<Seq<char>>,
) -> Result<FixStateView, AppErrorView>
    decreases stems.len(),
{
    if stems.len() == 0 {
        Ok(s)
    } else {
        match fix_documents(dir, style, old_ns, new_ns, stems.drop_last(), s, taken) {
            Err(e) => Err(e),
            Ok(s1) => fix_document_step(dir, style, old_ns, new_ns, stems.last(), s1, taken),
        }
    }
}

/// One namespace and then its documents.
pub open spec fn fix_namespace_step(
    dir: Seq<char>,
    style: Seq<char>,
    namespace: Seq<char>,
    stems: Result<Seq<Seq<char>>, AppErrorView>,
    s: FixStateView,
    taken: Seq<Seq<char>>,
) -> Result<FixStateView, AppErrorView> {
    match converted_name(namespace, style) {
        Err(e) => Err(e),
        Ok(new_ns) => {
            let old_path = namespace_path(dir, namespace);
            let new_path = namespace_path(dir, new_ns);
            match recorded_source(s.namespace_targets, new_path) {
                Some(existing) => Err(duplicate_target_error(true, new_path, existing, old_path)),
                None => {
                    let targets = s.namespace_targets.push((new_path, old_path));
                    let renamed: Result<FixStateView, AppErrorView> = if namespace == new_ns {
                        Ok(
                            FixStateView {
                                document_targets: s.document_targets,
                                namespace_targets: targets,
                                namespace_renames: s.namespace_renames,
                                document_renames: s.document_renames,
                            },
                        )
                    } else if taken.contains(new_path) {
                        Err(target_taken_error(new_path))
                    } else {
                        Ok(
                            FixStateView {
                                document_targets: s.document_targets,
                                namespace_targets: targets,
                                namespace_renames: s.namespace_renames.push(
                                    FixRenameView {
                                        namespace: true,
                                        from: old_path,
                                        to: new_path,
                                        old_path,
                                        new_path,
                                    },
                                ),
                                document_renames: s.document_renames,
                            },
                        )
                    };
                    match renamed {
                        Err(e) => Err(e),
                        Ok(s1) => match stems {
                            Err(e) => Err(e),
                            Ok(st) => fix_documents(dir, style, namespace, new_ns, st, s1, taken),
                        },
                    }
                },
            }
        },
    }
}

pub open spec fn fix_namespaces(
    dir: Seq<char>,
    style: Seq<char>,
    namespaces: Seq<(Seq<char>, Result<Seq<Seq<char>>, AppErrorView>)>,
    s: FixStateView,
    taken: Seq<Seq<char>>,
) -> Result<FixStateView, AppErrorView>
    decreases namespaces.len(),
{
    if namespaces.len() == 0 {
        Ok(s)
    } else {
        match fix_namespaces(dir, style, namespaces.drop_last(), s, taken) {
            Err(e) => Err(e),
            Ok(s1) => fix_namespace_step(
                dir,
                style,
                namespaces.last().0,
                namespaces.last().1,
                s1,
                taken,
            ),
        }
    }
}

/// The renames of the migration, namespaces first, or the first refusal:
/// root documents, then the namespace listing, then each namespace with its
/// documents.
pub open spec fn fix_plan(
    dir: Seq<char>,
    style: Seq<char>,
    root: Result<Seq<Seq<char>>, AppErrorView>,
    namespaces: Result<Seq<(Seq<char>, Result<Seq<Seq<char>>, AppErrorView>)>, AppErrorView>,
    taken: Seq<Seq<char>>,
) -> Result<Seq<FixRenameView>, AppErrorView> {
    match root {
        Err(e) => Err(e),
        Ok(stems) => match fix_documents(dir, style, ""@, ""@, stems, empty_state(), taken) {
            Err(e) => Err(e),
            Ok(s1) => match namespaces {
                Err(e) => Err(e),
                Ok(nss) => match fix_namespaces(dir, style, nss, s1, taken) {
                    Err(e) => Err(e),
                    Ok(s2) => Ok(s2.namespace_renames + s2.document_renames),
                },
            },
        },
    }
}

// ---------------------------------------------------------------------------
// Planning
// ---------------------------------------------------------------------------

fn recorded_source_of(targets: &Vec<FixTarget>, path: &str) -> (r: Option<String>)
    ensures
        r matches Some(s) ==> recorded_source(target_views(targets@), path@) == Some(s@),
        r is None ==> recorded_source(target_views(targets@), path@) is None,
{
    let ghost all = target_views(targets@);
    let mut i: usize = targets.len();
    assert(all.take(i as int) =~= all);
    while i > 0
        invariant
            i <= targets@.len(),
            all == target_views(targets@),
            recorded_source(all, path@) == recorded_source(all.take(i as int), path@),
        decreases i,
    {
        let ghost t = all.take(i as int);
        assert(t.drop_last() =~= all.take(i - 1));
        assert(t.last() == targets@[i - 1]@);
        if str_eq(targets[i - 1].path.as_str(), path) {
            return Some(targets[i - 1].source.clone());
        }
        i = i - 1;
    }
    None
}

fn contains_path(paths: &Vec<String>, p: &str) -> (r: bool)
    ensures
        r == views(paths@).contains(p@),
{
    let mut i: usize = 0;
    while i < paths.len()
        invariant
            i <= paths@.len(),
            forall|k: int| 0 <= k < i ==> paths@[k]@ != p@,
        decreases paths.len() - i,
    {
        if str_eq(paths[i].as_str(), p) {
            assert(views(paths@)[i as int] == p@);
            return true;
        }
        i = i + 1;
    }
    assert forall|k: int| 0 <= k < views(paths@).len() implies views(paths@)[k] != p@ by {
        assert(views(paths@)[k] == paths@[k]@);
    }
    false
}

fn push_target(targets: &mut Vec<FixTarget>, path: &str, source: &str)
    ensures
        target_views(final(targets)@) == target_views(old(targets)@).push((path@, source@)),
{
    let ghost before = targets@;
    targets.push(FixTarget { path: owned(path), source: owned(source) });
    assert(target_views(targets@) =~= target_views(before).push((path@, source@)));
}

fn push_rename(renames: &mut Vec<FixRename>, r: FixRename)
    ensures
        rename_views(final(renames)@) == rename_views(old(renames)@).push(r@),
{
    let ghost before = renames@;
    let ghost rv = r@;
    renames.push(r);
    assert(rename_views(renames@) =~= rename_views(before).push(rv));
}

fn duplicate_target(namespace: bool, path: &str, existing: &str, source: &str) -> (r: AppError)
    ensures
        r@ == duplicate_target_error(namespace, path@, existing@, source@),
{
    let mut d = Vec::new();
    d.push(detail("path", path));
    d.push(detail("sources[0]", existing));
    d.push(detail("sources[1]", source));
    assert(details_view(d@) =~= seq![
        ("path"@, path@),
        ("sources[0]"@, existing@),
        ("sources[1]"@, source@),
    ]);
    if namespace {
        AppError::validation(
            "fix_conflict",
            "naming_style migration would create duplicate namespace paths",
            d,
        )
    } else {
        AppError::validation(
            "fix_conflict",
            "naming_style migration would create duplicate document paths",
            d,
        )
    }
}

fn target_taken(path: &str) -> (r: AppError)
    ensures
        r@ == target_taken_error(path@),
{
    AppError::validation(
        "fix_conflict",
        "naming_style migration target already exists",
        crate::utils::error::detail1("path", path),
    )
}

fn plan_document(
    dir: &str,
    style: &str,
    old_ns: &str,
    new_ns: &str,
    stem: &str,
    state: &mut FixState,
    taken: &Vec<String>,
) -> (r: Result<(), AppError>)
    ensures
        r is Ok <==> fix_document_step(
            dir@,
            style@,
            old_ns@,
            new_ns@,
            stem@,
            old(state)@,
            views(taken@),
        ) is Ok,
        r is Ok ==> Ok::<FixStateView, AppErrorView>(final(state)@) == fix_document_step(
            dir@,
            style@,
            old_ns@,
            new_ns@,
            stem@,
            old(state)@,
            views(taken@),
        ),
        r matches Err(e) ==> Err::<FixStateView, AppErrorView>(e@) == fix_document_step(
            dir@,
            style@,
            old_ns@,
            new_ns@,
            stem@,
            old(state)@,
            views(taken@),
        ),
{
    let new_stem = match convert_name_to_naming_style(stem, style) {
        Ok(n) => n,
        Err(e) => return Err(e),
    };
    let old_path = build_document_path(dir, old_ns, stem).relative_path;
    let new_path = build_document_path(dir, new_ns, new_stem.as_str()).relative_path;
    match recorded_source_of(&state.document_targets, new_path.as_str()) {
        Some(existing) => {
            return Err(
                duplicate_target(false, new_path.as_str(), existing.as_str(), old_path.as_str()),
            );
        },
        None => {},
    }
    push_target(&mut state.document_targets, new_path.as_str(), old_path.as_str());
    if str_eq(stem, new_stem.as_str()) {
        return Ok(());
    }
    if contains_path(taken, new_path.as_str()) {
        return Err(target_taken(new_path.as_str()));
    }
    let from = build_document_path(dir, new_ns, stem).relative_path;
    let to = owned(new_path.as_str());
    push_rename(
        &mut state.document_renames,
        FixRename { namespace: false, from, to, old_path, new_path },
    );
    Ok(())
}

proof fn lemma_fix_documents_error_stays(
    dir: Seq<char>,
    style: Seq<char>,
    old_ns: Seq<char>,
    new_ns: Seq<char>,
    stems: Seq<Seq<char>>,
    s: FixStateView,
    taken: Seq<Seq<char>>,
    k: int,
)
    requires
        0 <= k <= stems.len(),
        fix_documents(dir, style, old_ns, new_ns, stems.take(k), s, taken) is Err,
    ensures
        fix_documents(dir, style, old_ns, new_ns, stems, s, taken) == fix_documents(
            dir,
            style,
            old_ns,
            new_ns,
            stems.take(k),
            s,
            taken,
        ),
    decreases stems.len() - k,
{
    if k == stems.len() {
        assert(stems.take(k) =~= stems);
    } else {
        assert(stems.take(k + 1).drop_last() =~= stems.take(k));
        lemma_fix_documents_error_stays(dir, style, old_ns, new_ns, stems, s, taken, k + 1);
    }
}

fn plan_documents(
    dir: &str,
    style: &str,
    old_ns: &str,
    new_ns: &str,
    stems: &Vec<String>,
    state: &mut FixState,
    taken: &Vec<String>,
) -> (r: Result<(), AppError>)
    ensures
        r is Ok <==> fix_documents(
            dir@,
            style@,
            old_ns@,
            new_ns@,
            views(stems@),
            old(state)@,
            views(taken@),
        ) is Ok,
        r is Ok ==> Ok::<FixStateView, AppErrorView>(final(state)@) == fix_documents(
            dir@,
            style@,
            old_ns@,
            new_ns@,
            views(stems@),
            old(state)@,
            views(taken@),
        ),
        r matches Err(e) ==> Err::<FixStateView, AppErrorView>(e@) == fix_documents(
            dir@,
            style@,
            old_ns@,
            new_ns@,
            views(stems@),
            old(state)@,
            views(taken@),
        ),
{
    let ghost all = views(stems@);
    let ghost s0 = state@;
    let mut i: usize = 0;
    assert(all.take(0) =~= Seq::<Seq<char>>::empty());
    while i < stems.len()
        invariant
            i <= stems@.len(),
            all == views(stems@),
            s0 == old(state)@,
            fix_documents(dir@, style@, old_ns@, new_ns@, all.take(i as int), s0, views(taken@))
                == Ok::<FixStateView, AppErrorView>(state@),
        decreases stems.len() - i,
    {
        proof {
            assert(all.take(i + 1).drop_last() =~= all.take(i as int));
            assert(all.take(i + 1).last() == stems@[i as int]@);
        }
        let ghost before = state@;
        match plan_document(dir, style, old_ns, new_ns, stems[i].as_str(), state, taken) {
            Ok(()) => {},
            Err(e) => {
                proof {
                    assert(fix_documents(
                        dir@,
                        style@,
                        old_ns@,
                        new_ns@,
                        all.take(i + 1),
                        s0,
                        views(taken@),
                    ) == fix_document_step(
                        dir@,
                        style@,
                        old_ns@,
                        new_ns@,
                        stems@[i as int]@,
                        before,
                        views(taken@),
                    ));
                    lemma_fix_documents_error_stays(
                        dir@,
                        style@,
                        old_ns@,
                        new_ns@,
                        all,
                        s0,
                        views(taken@),
                        i + 1,
                    );
                }
                return Err(e);
            },
        }
        i = i + 1;
    }
    assert(all.take(stems@.len() as int) =~= all);
    Ok(())
}

fn namespace_relative(dir: &str, namespace: &str) -> (r: String)
    ensures
        r@ == namespace_path(dir@, namespace@),
{
    concat3(dir, "/", namespace)
}

fn plan_namespace(
    dir: &str,
    style: &str,
    listing: &NamespaceListing,
    state: &mut FixState,
    taken: &Vec<String>,
) -> (r: Result<(), AppError>)
    ensures
        r is Ok <==> fix_namespace_step(
            dir@,
            style@,
            listing@.0,
            listing@.1,
            old(state)@,
            views(taken@),
        ) is Ok,
        r is Ok ==> Ok::<FixStateView, AppErrorView>(final(state)@) == fix_namespace_step(
            dir@,
            style@,
            listing@.0,
            listing@.1,
            old(state)@,
            views(taken@),
        ),
        r matches Err(e) ==> Err::<FixStateView, AppErrorView>(e@) == fix_namespace_step(
            dir@,
            style@,
            listing@.0,
            listing@.1,
            old(state)@,
            views(taken@),
        ),
{
    let namespace = listing.namespace.as_str();
    let new_ns = match convert_name_to_naming_style(namespace, style) {
        Ok(n) => n,
        Err(e) => return Err(e),
    };
    let old_path = namespace_relative(dir, namespace);
    let new_path = namespace_relative(dir, new_ns.as_str());
    match recorded_source_of(&state.namespace_targets, new_path.as_str()) {
        Some(existing) => {
            return Err(
                duplicate_target(true, new_path.as_str(), existing.as_str(), old_path.as_str()),
            );
        },
        None => {},
    }
    push_target(&mut state.namespace_targets, new_path.as_str(), old_path.as_str());
    if !str_eq(namespace, new_ns.as_str()) {
        if contains_path(taken, new_path.as_str()) {
            return Err(target_taken(new_path.as_str()));
        }
        let from = owned(old_path.as_str());
        let to = owned(new_path.as_str());
        push_rename(
            &mut state.namespace_renames,
            FixRename { namespace: true, from, to, old_path, new_path },
        );
    }
    match &listing.documents {
        Err(e) => Err(e.duplicate()),
        Ok(stems) => plan_documents(dir, style, namespace, new_ns.as_str(), stems, state, taken),
    }
}

proof fn lemma_fix_namespaces_error_stays(
    dir: Seq<char>,
    style: Seq<char>,
    nss: Seq<(Seq<char>, Result<Seq<Seq<char>>, AppErrorView>)>,
    s: FixStateView,
    taken: Seq<Seq<char>>,
    k: int,
)
    requires
        0 <= k <= nss.len(),
        fix_namespaces(dir, style, nss.take(k), s, taken) is Err,
    ensures
        fix_namespaces(dir, style, nss, s, taken) == fix_namespaces(
            dir,
            style,
            nss.take(k),
            s,
            taken,
        ),
    decreases nss.len() - k,
{
    if k == nss.len() {
        assert(nss.take(k) =~= nss);
    } else {
        assert(nss.take(k + 1).drop_last() =~= nss.take(k));
        lemma_fix_namespaces_error_stays(dir, style, nss, s, taken, k + 1);
    }
}

fn plan_namespaces(
    dir: &str,
    style: &str,
    listings: &Vec<NamespaceListing>,
    state: &mut FixState,
    taken: &Vec<String>,
) -> (r: Result<(), AppError>)
    ensures
        r is Ok <==> fix_namespaces(
            dir@,
            style@,
            listing_views(listings@),
            old(state)@,
            views(taken@),
        ) is Ok,
        r is Ok ==> Ok::<FixStateView, AppErrorView>(final(state)@) == fix_namespaces(
            dir@,
            style@,
            listing_views(listings@),
            old(state)@,
            views(taken@),
        ),
        r matches Err(e) ==> Err::<FixStateView, AppErrorView>(e@) == fix_namespaces(
            dir@,
            style@,
            listing_views(listings@),
            old(state)@,
            views(taken@),
        ),
{
    let ghost all = listing_views(listings@);
    let ghost s0 = state@;
    let mut i: usize = 0;
    assert(all.take(0) =~= Seq::<(Seq<char>, Result<Seq<Seq<char>>, AppErrorView>)>::empty());
    while i < listings.len()
        invariant
            i <= listings@.len(),
            all == listing_views(listings@),
            s0 == old(state)@,
            fix_namespaces(dir@, style@, all.take(i as int), s0, views(taken@)) == Ok::<
                FixStateView,
                AppErrorView,
            >(state@),
        decreases listings.len() - i,
    {
        proof {
            assert(all.take(i + 1).drop_last() =~= all.take(i as int));
            assert(all.take(i + 1).last() == listings@[i as int]@);
        }
        let ghost before = state@;
        match plan_namespace(dir, style, &listings[i], state, taken) {
            Ok(()) => {},
            Err(e) => {
                proof {
                    assert(fix_namespaces(dir@, style@, all.take(i + 1), s0, views(taken@))
                        == fix_namespace_step(
                        dir@,
                        style@,
                        listings@[i as int]@.0,
                        listings@[i as int]@.1,
                        before,
                        views(taken@),
                    ));
                    lemma_fix_namespaces_error_stays(dir@, style@, all, s0, views(taken@), i + 1);
                }
                return Err(e);
            },
        }
        i = i + 1;
    }
    assert(all.take(listings@.len() as int) =~= all);
    Ok(())
}

/// Plans the migration of every namespace and document name to
/// `naming_style`, from the listing of the root documents, the listing of the
/// namespaces with their documents, and the targets that are taken already.
pub fn fix(
    documents_directory_name: &str,
    naming_style: &str,
    root_documents: &Result<Vec<String>, AppError>,
    namespaces: &Result<Vec<NamespaceListing>, AppError>,
    taken: &Vec<String>,
) -> (r: Result<Vec<FixRename>, AppError>)
    ensures
        r is Ok <==> fix_plan(
            documents_directory_name@,
            naming_style@,
            listing_view(*root_documents),
            namespaces_view(*namespaces),
            views(taken@),
        ) is Ok,
        r matches Ok(v) ==> Ok::<Seq<FixRenameView>, AppErrorView>(rename_views(v@)) == fix_plan(
            documents_directory_name@,
            naming_style@,
            listing_view(*root_documents),
            namespaces_view(*namespaces),
            views(taken@),
        ),
        r matches Err(e) ==> Err::<Seq<FixRenameView>, AppErrorView>(e@) == fix_plan(
            documents_directory_name@,
            naming_style@,
            listing_view(*root_documents),
            namespaces_view(*namespaces),
            views(taken@),
        ),
{
    let mut state = FixState {
        document_targets: Vec::new(),
        namespace_targets: Vec::new(),
        namespace_renames: Vec::new(),
        document_renames: Vec::new(),
    };
    proof {
        reveal_strlit("");
        assert(""@ =~= Seq::<char>::empty());
        assert(target_views(state.document_targets@) =~= Seq::<(Seq<char>, Seq<char>)>::empty());
        assert(target_views(state.namespace_targets@) =~= Seq::<(Seq<char>, Seq<char>)>::empty());
        assert(rename_views(state.namespace_renames@) =~= Seq::<FixRenameView>::empty());
        assert(rename_views(state.document_renames@) =~= Seq::<FixRenameView>::empty());
        assert(state@ == empty_state());
    }
    let root = match root_documents {
        Err(e) => return Err(e.duplicate()),
        Ok(stems) => stems,
    };
    match plan_documents(documents_directory_name, naming_style, "", "", root, &mut state, taken) {
        Ok(()) => {},
        Err(e) => return Err(e),
    }
    let listings = match namespaces {
        Err(e) => return Err(e.duplicate()),
        Ok(v) => v,
    };
    match plan_namespaces(documents_directory_name, naming_style, listings, &mut state, taken) {
        Ok(()) => {},
        Err(e) => return Err(e),
    }
    let ghost s2 = state@;
    let mut out = state.namespace_renames;
    let mut docs = state.document_renames;
    let ghost first = rename_views(out@);
    let ghost second = rename_views(docs@);
    let mut i: usize = 0;
    while i < docs.len()
        invariant
            i <= docs@.len(),
            second == rename_views(docs@),
            rename_views(out@) == first + second.take(i as int),
        decreases docs.len() - i,
    {
        let r = FixRename {
            namespace: docs[i].namespace,
            from: docs[i].from.clone(),
            to: docs[i].to.clone(),
            old_path: docs[i].old_path.clone(),
            new_path: docs[i].new_path.clone(),
        };
        assert(r@ == second[i as int]);
        assert(second.take(i + 1) =~= second.take(i as int).push(second[i as int]));
        push_rename(&mut out, r);
        i = i + 1;
    }
    assert(second.take(docs@.len() as int) =~= second);
    Ok(out)
}

// ---------------------------------------------------------------------------
// Targets to look at before planning
// ---------------------------------------------------------------------------

/// The (target, source) pairs of the documents of one directory whose name
/// changes, in order.
pub open spec fn document_candidates(
    dir: Seq<char>,
    style: Seq<char>,
    old_ns: Seq<char>,
    new_ns: Seq<char>,
    stems: Seq<Seq<char>>,
) -> Seq<(Seq<char>, Seq<char>)>
    decreases stems.len(),
{
    if stems.len() == 0 {
        Seq::empty()
    } else {
        let rest = document_candidates(dir, style, old_ns, new_ns, stems.drop_last());
        let stem = stems.last();
        match converted_name(stem, style) {
            Ok(n) => if n != stem {
                rest.push(
                    (document_relative_path(dir, new_ns, n), document_relative_path(dir, old_ns, stem)),
                )
            } else {
                rest
            },
            Err(_) => rest,
        }
    }
}

pub open spec fn namespace_candidates(
    dir: Seq<char>,
    style: Seq<char>,
    namespaces: Seq<(Seq<char>, Result<Seq<Seq<char>>, AppErrorView>)>,
) -> Seq<(Seq<char>, Seq<char>)>
    decreases namespaces.len(),
{
    if namespaces.len() == 0 {
        Seq::empty()
    } else {
        let rest = namespace_candidates(dir, style, namespaces.drop_last());
        let ns = namespaces.last().0;
        match converted_name(ns, style) {
            Err(_) => rest,
            Ok(new_ns) => {
                let own: Seq<(Seq<char>, Seq<char>)> = if new_ns != ns {
                    seq![(namespace_path(dir, new_ns), namespace_path(dir, ns))]
                } else {
                    Seq::empty()
                };
                let docs = match namespaces.last().1 {
                    Ok(st) => document_candidates(dir, style, ns, new_ns, st),
                    Err(_) => Seq::empty(),
                };
                rest + own + docs
            },
        }
    }
}

/// Every (target, source) pair of a rename that the migration can plan: the
/// targets whose existence decides whether the migration may go on.
pub open spec fn fix_candidate_pairs(
    dir: Seq<char>,
    style: Seq<char>,
    root: Result<Seq<Seq<char>>, AppErrorView>,
    namespaces: Result<Seq<(Seq<char>, Result<Seq<Seq<char>>, AppErrorView>)>, AppErrorView>,
) -> Seq<(Seq<char>, Seq<char>)> {
    (match root {
        Ok(stems) => document_candidates(dir, style, ""@, ""@, stems),
        Err(_) => Seq::empty(),
    }) + (match namespaces {
        Ok(nss) => namespace_candidates(dir, style, nss),
        Err(_) => Seq::empty(),
    })
}

fn push_document_candidates(
    dir: &str,
    style: &str,
    old_ns: &str,
    new_ns: &str,
    stems: &Vec<String>,
    out: &mut Vec<FixTarget>,
)
    ensures
        target_views(final(out)@) == target_views(old(out)@) + document_candidates(
            dir@,
            style@,
            old_ns@,
            new_ns@,
            views(stems@),
        ),
{
    let ghost all = views(stems@);
    let ghost start = target_views(out@);
    let mut i: usize = 0;
    assert(all.take(0) =~= Seq::<Seq<char>>::empty());
    assert(start + Seq::<(Seq<char>, Seq<char>)>::empty() =~= start);
    while i < stems.len()
        invariant
            i <= stems@.len(),
            all == views(stems@),
            target_views(out@) == start + document_candidates(
                dir@,
                style@,
                old_ns@,
                new_ns@,
                all.take(i as int),
            ),
        decreases stems.len() - i,
    {
        proof {
            assert(all.take(i + 1).drop_last() =~= all.take(i as int));
            assert(all.take(i + 1).last() == stems@[i as int]@);
        }
        let stem = stems[i].as_str();
        match convert_name_to_naming_style(stem, style) {
            Ok(n) => {
                if !str_eq(n.as_str(), stem) {
                    let target = build_document_path(dir, new_ns, n.as_str()).relative_path;
                    let source = build_document_path(dir, old_ns, stem).relative_path;
                    let ghost before = target_views(out@);
                    push_target(out, target.as_str(), source.as_str());
                    assert(target_views(out@) =~= start + document_candidates(
                        dir@,
                        style@,
                        old_ns@,
                        new_ns@,
                        all.take(i + 1),
                    ));
                }
            },
            Err(_) => {},
        }
        i = i + 1;
    }
    assert(all.take(stems@.len() as int) =~= all);
}

/// The targets to look at on disk before `fix`: for every name that
/// changes, its target and its source.
pub fn fix_candidates(
    documents_directory_name: &str,
    naming_style: &str,
    root_documents: &Result<Vec<String>, AppError>,
    namespaces: &Result<Vec<NamespaceListing>, AppError>,
) -> (r: Vec<FixTarget>)
    ensures
        target_views(r@) == fix_candidate_pairs(
            documents_directory_name@,
            naming_style@,
            listing_view(*root_documents),
            namespaces_view(*namespaces),
        ),
{
    let dir = documents_directory_name;
    let style = naming_style;
    let mut out: Vec<FixTarget> = Vec::new();
    proof {
        reveal_strlit("");
        assert(""@ =~= Seq::<char>::empty());
    }
    match root_documents {
        Ok(stems) => push_document_candidates(dir, style, "", "", stems, &mut out),
        Err(_) => {},
    }
    let ghost after_root = target_views(out@);
    assert(after_root =~= Seq::empty() + match listing_view(*root_documents) {
        Ok(stems) => document_candidates(dir@, style@, ""@, ""@, stems),
        Err(_) => Seq::empty(),
    });
    match namespaces {
        Ok(listings) => {
            let ghost all = listing_views(listings@);
            let mut i: usize = 0;
            assert(all.take(0) =~= Seq::<(Seq<char>, Result<Seq<Seq<char>>, AppErrorView>)>::empty());
            assert(after_root + Seq::<(Seq<char>, Seq<char>)>::empty() =~= after_root);
            while i < listings.len()
                invariant
                    i <= listings@.len(),
                    all == listing_views(listings@),
                    target_views(out@) == after_root + namespace_candidates(
                        dir@,
                        style@,
                        all.take(i as int),
                    ),
                decreases listings.len() - i,
            {
                proof {
                    assert(all.take(i + 1).drop_last() =~= all.take(i as int));
                    assert(all.take(i + 1).last() == listings@[i as int]@);
                }
                let ghost before = target_views(out@);
                let listing = &listings[i];
                let ns = listing.namespace.as_str();
                match convert_name_to_naming_style(ns, style) {
                    Ok(new_ns) => {
                        if !str_eq(new_ns.as_str(), ns) {
                            let target = namespace_relative(dir, new_ns.as_str());
                            let source = namespace_relative(dir, ns);
                            push_target(&mut out, target.as_str(), source.as_str());
                        }
                        let ghost mid = target_views(out@);
                        match &listing.documents {
                            Ok(stems) => push_document_candidates(
                                dir,
                                style,
                                ns,
                                new_ns.as_str(),
                                stems,
                                &mut out,
                            ),
                            Err(_) => {},
                        }
                        proof {
                            let ghost own: Seq<(Seq<char>, Seq<char>)> = if new_ns@ != ns@ {
                                seq![(namespace_path(dir@, new_ns@), namespace_path(dir@, ns@))]
                            } else {
                                Seq::empty()
                            };
                            assert(mid =~= before + own);
                            let docs = match listing@.1 {
                                Ok(st) => document_candidates(dir@, style@, ns@, new_ns@, st),
                                Err(_) => Seq::empty(),
                            };
                            assert(target_views(out@) =~= mid + docs);
                            assert(target_views(out@) =~= after_root + namespace_candidates(
                                dir@,
                                style@,
                                all.take(i + 1),
                            ));
                        }
                    },
                    Err(_) => {},
                }
                i = i + 1;
            }
            assert(all.take(listings@.len() as int) =~= all);
        },
        Err(_) => {},
    }
    out
}

// ---------------------------------------------------------------------------
// Carrying the plan out
// ---------------------------------------------------------------------------

impl FixRename {
    /// The error reported when this rename fails on disk with the system
    /// error text `source`.
    pub open spec fn failure_spec(&self, source: Seq<char>) -> AppErrorView {
        if self.namespace {
            fs_error(
                "fix_namespace_failed"@,
                "failed to rename namespace during naming_style migration"@,
                self.from@ + " -> "@ + self.to@,
                source,
            )
        } else {
            fs_error(
                "fix_document_failed"@,
                "failed to rename document during naming_style migration"@,
                self.from@ + " -> "@ + self.to@,
                source,
            )
        }
    }

    pub fn failure(&self, source: &str) -> (r: AppError)
        ensures
            r@ == self.failure_spec(source@),
    {
        let path = concat3(self.from.as_str(), " -> ", self.to.as_str());
        if self.namespace {
            AppError::fs(
                "fix_namespace_failed",
                "failed to rename namespace during naming_style migration",
                path.as_str(),
                source,
            )
        } else {
            AppError::fs(
                "fix_document_failed",
                "failed to rename document during naming_style migration",
                path.as_str(),
                source,
            )
        }
    }
}

// ---------------------------------------------------------------------------
// Names that follow the style already
// ---------------------------------------------------------------------------

/// A name that the style leaves as it is, and that is one path segment.
pub open spec fn settled(style: Seq<char>, name: Seq<char>) -> bool {
    converted_name(name, style) == Ok::<Seq<char>, AppErrorView>(name) && !name.contains('/')
}

pub open spec fn distinct_names(names: Seq<Seq<char>>) -> bool {
    forall|i: int, j: int| 0 <= i < j < names.len() ==> names[i] != names[j]
}

/// The targets recorded for documents that keep their names.
pub open spec fn kept_targets(dir: Seq<char>, ns: Seq<char>, stems: Seq<Seq<char>>) -> Seq<
    (Seq<char>, Seq<char>),
> {
    Seq::new(
        stems.len(),
        |i: int| (document_relative_path(dir, ns, stems[i]), document_relative_path(dir, ns, stems[i])),
    )
}

proof fn lemma_recorded_none(targets: Seq<(Seq<char>, Seq<char>)>, path: Seq<char>)
    requires
        forall|k: int| 0 <= k < targets.len() ==> (#[trigger] targets[k]).0 != path,
    ensures
        recorded_source(targets, path) is None,
    decreases targets.len(),
{
    if targets.len() > 0 {
        lemma_recorded_none(targets.drop_last(), path);
    }
}

proof fn lemma_no_slash_concat(a: Seq<char>, b: Seq<char>)
    requires
        !a.contains('/'),
        !b.contains('/'),
    ensures
        !(a + b).contains('/'),
{
    if (a + b).contains('/') {
        let k = choose|k: int| 0 <= k < (a + b).len() && (a + b)[k] == '/';
        if k < a.len() {
            assert(a[k] == '/');
        } else {
            assert(b[k - a.len()] == '/');
        }
    }
}

/// Document paths name their namespace and stem: different (namespace,
/// stem) pairs of one-segment names give different paths.
proof fn lemma_document_path_injective(
    dir: Seq<char>,
    ns1: Seq<char>,
    s1: Seq<char>,
    ns2: Seq<char>,
    s2: Seq<char>,
)
    requires
        !ns1.contains('/'),
        !ns2.contains('/'),
        !s1.contains('/'),
        !s2.contains('/'),
        document_relative_path(dir, ns1, s1) == document_relative_path(dir, ns2, s2),
    ensures
        ns1 == ns2,
        s1 == s2,
{
    reveal_strlit("/");
    reveal_strlit(".md");
    let md = ".md"@;
    let slash = "/"@;
    assert(!md.contains('/')) by {
        if md.contains('/') {
            let k = choose|k: int| 0 <= k < md.len() && md[k] == '/';
        }
    }
    let p1 = document_relative_path(dir, ns1, s1);
    let h = dir + slash;
    let r1 = p1.skip(h.len() as int);
    let p2 = document_relative_path(dir, ns2, s2);
    let r2 = p2.skip(h.len() as int);
    assert(r1 == r2);
    let e1 = s1 + md;
    let e2 = s2 + md;
    lemma_no_slash_concat(s1, md);
    lemma_no_slash_concat(s2, md);
    if ns1.len() == 0 {
        assert(r1 =~= e1);
    } else {
        assert(r1 =~= ns1 + slash + e1);
    }
    if ns2.len() == 0 {
        assert(r2 =~= e2);
    } else {
        assert(r2 =~= ns2 + slash + e2);
    }
    if ns1.len() == 0 && ns2.len() == 0 {
        assert(s1 =~= e1.take(e1.len() - 3));
        assert(s2 =~= e2.take(e2.len() - 3));
    } else if ns1.len() == 0 {
        assert(r2[ns2.len() as int] == '/');
        assert(e1.contains('/'));
    } else if ns2.len() == 0 {
        assert(r1[ns1.len() as int] == '/');
        assert(e2.contains('/'));
    } else {
        if ns1.len() < ns2.len() {
            assert(r1[ns1.len() as int] == '/');
            assert(r2[ns1.len() as int] == ns2[ns1.len() as int]);
            assert(ns2.contains('/'));
        } else if ns2.len() < ns1.len() {
            assert(r2[ns2.len() as int] == '/');
            assert(r1[ns2.len() as int] == ns1[ns2.len() as int]);
            assert(ns1.contains('/'));
        }
        assert(ns1 =~= r1.take(ns1.len() as int));
        assert(ns2 =~= r2.take(ns2.len() as int));
        assert(e1 =~= r1.skip(ns1.len() + 1int));
        assert(e2 =~= r2.skip(ns2.len() + 1int));
        assert(s1 =~= e1.take(e1.len() - 3));
        assert(s2 =~= e2.take(e2.len() - 3));
    }
}

/// Documents that keep their names only add their own paths as targets.
proof fn lemma_fix_documents_kept(
    dir: Seq<char>,
    style: Seq<char>,
    ns: Seq<char>,
    stems: Seq<Seq<char>>,
    s: FixStateView,
    taken: Seq<Seq<char>>,
)
    requires
        !ns.contains('/'),
        forall|i: int| 0 <= i < stems.len() ==> settled(style, #[trigger] stems[i]),
        distinct_names(stems),
        forall|k: int, i: int|
            0 <= k < s.document_targets.len() && 0 <= i < stems.len() ==> (
            #[trigger] s.document_targets[k]).0 != document_relative_path(
                dir,
                ns,
                #[trigger] stems[i],
            ),
    ensures
        fix_documents(dir, style, ns, ns, stems, s, taken) == Ok::<FixStateView, AppErrorView>(
            FixStateView {
                document_targets: s.document_targets + kept_targets(dir, ns, stems),
                namespace_targets: s.namespace_targets,
                namespace_renames: s.namespace_renames,
                document_renames: s.document_renames,
            },
        ),
    decreases stems.len(),
{
    if stems.len() == 0 {
        assert(s.document_targets + kept_targets(dir, ns, stems) =~= s.document_targets);
    } else {
        let init = stems.drop_last();
        assert forall|i: int| 0 <= i < init.len() implies settled(style, #[trigger] init[i]) by {
            assert(init[i] == stems[i]);
        }
        assert forall|k: int, i: int|
            0 <= k < s.document_targets.len() && 0 <= i < init.len() implies (
            #[trigger] s.document_targets[k]).0 != document_relative_path(
                dir,
                ns,
                #[trigger] init[i],
            ) by {
            assert(init[i] == stems[i]);
        }
        lemma_fix_documents_kept(dir, style, ns, init, s, taken);
        let last = stems.last();
        assert(settled(style, last)) by {
            assert(stems[stems.len() - 1] == last);
        }
        let targets = s.document_targets + kept_targets(dir, ns, init);
        let path = document_relative_path(dir, ns, last);
        assert forall|k: int| 0 <= k < targets.len() implies (#[trigger] targets[k]).0 != path by {
            if k < s.document_targets.len() {
                assert(targets[k] == s.document_targets[k]);
                assert(stems[stems.len() - 1] == last);
            } else {
                let i = k - s.document_targets.len();
                assert(targets[k] == kept_targets(dir, ns, init)[i]);
                assert(init[i] == stems[i]);
                if targets[k].0 == path {
                    lemma_document_path_injective(dir, ns, init[i], ns, last);
                    assert(stems[i] != stems[stems.len() - 1]);
                }
            }
        }
        lemma_recorded_none(targets, path);
        assert(targets.push((path, path)) =~= s.document_targets + kept_targets(dir, ns, stems));
    }
}

/// When every name follows the naming style already, the migration plans no
/// rename (and `fix` reports OK). Names are one path segment each, distinct
/// within their directory, and every namespace could be listed.
pub proof fn lemma_fix_nothing_to_do(
    dir: Seq<char>,
    style: Seq<char>,
    root: Seq<Seq<char>>,
    namespaces: Seq<(Seq<char>, Result<Seq<Seq<char>>, AppErrorView>)>,
    taken: Seq<Seq<char>>,
)
    requires
        forall|i: int| 0 <= i < root.len() ==> settled(style, #[trigger] root[i]),
        distinct_names(root),
        forall|j: int|
            0 <= j < namespaces.len() ==> settled(style, (#[trigger] namespaces[j]).0)
                && namespaces[j].0.len() > 0 && namespaces[j].1 is Ok,
        forall|j: int, i: int|
            0 <= j < namespaces.len() && 0 <= i < namespaces[j].1->Ok_0.len() ==> settled(
                style,
                #[trigger] namespaces[j].1->Ok_0[i],
            ),
        forall|j: int| 0 <= j < namespaces.len() ==> distinct_names(#[trigger] namespaces[j].1->Ok_0),
        forall|a: int, b: int|
            0 <= a < b < namespaces.len() ==> (#[trigger] namespaces[a]).0 != (
            #[trigger] namespaces[b]).0,
    ensures
        fix_plan(dir, style, Ok(root), Ok(namespaces), taken) == Ok::<
            Seq<FixRenameView>,
            AppErrorView,
        >(Seq::empty()),
{
    lemma_fix_namespaces_kept(dir, style, root, namespaces, taken);
}

/// The document targets after the root and the first namespaces.
pub open spec fn all_kept_targets(
    dir: Seq<char>,
    root: Seq<Seq<char>>,
    namespaces: Seq<(Seq<char>, Result<Seq<Seq<char>>, AppErrorView>)>,
) -> Seq<(Seq<char>, Seq<char>)>
    decreases namespaces.len(),
{
    if namespaces.len() == 0 {
        kept_targets(dir, Seq::empty(), root)
    } else {
        all_kept_targets(dir, root, namespaces.drop_last()) + kept_targets(
            dir,
            namespaces.last().0,
            namespaces.last().1->Ok_0,
        )
    }
}

pub open spec fn kept_namespace_targets(
    dir: Seq<char>,
    namespaces: Seq<(Seq<char>, Result<Seq<Seq<char>>, AppErrorView>)>,
) -> Seq<(Seq<char>, Seq<char>)> {
    Seq::new(
        namespaces.len(),
        |j: int| (namespace_path(dir, namespaces[j].0), namespace_path(dir, namespaces[j].0)),
    )
}

/// Every target of `all_kept_targets` names a document of the root or of
/// one of the namespaces.
proof fn lemma_all_kept_targets_shape(
    dir: Seq<char>,
    root: Seq<Seq<char>>,
    namespaces: Seq<(Seq<char>, Result<Seq<Seq<char>>, AppErrorView>)>,
    k: int,
)
    requires
        0 <= k < all_kept_targets(dir, root, namespaces).len(),
    ensures
        (exists|i: int|
            0 <= i < root.len() && all_kept_targets(dir, root, namespaces)[k].0
                == document_relative_path(dir, Seq::empty(), root[i])) || (exists|j: int, i: int|
            0 <= j < namespaces.len() && 0 <= i < namespaces[j].1->Ok_0.len()
                && all_kept_targets(dir, root, namespaces)[k].0 == document_relative_path(
                dir,
                namespaces[j].0,
                namespaces[j].1->Ok_0[i],
            )),
    decreases namespaces.len(),
{
    if namespaces.len() == 0 {
        let i = k;
        assert(all_kept_targets(dir, root, namespaces)[k].0 == document_relative_path(
            dir,
            Seq::empty(),
            root[i],
        ));
    } else {
        let init = namespaces.drop_last();
        let head = all_kept_targets(dir, root, init);
        if k < head.len() {
            lemma_all_kept_targets_shape(dir, root, init, k);
            assert(all_kept_targets(dir, root, namespaces)[k] == head[k]);
            if exists|j: int, i: int|
                0 <= j < init.len() && 0 <= i < init[j].1->Ok_0.len() && head[k].0
                    == document_relative_path(dir, init[j].0, init[j].1->Ok_0[i]) {
                let (j, i) = choose|j: int, i: int|
                    0 <= j < init.len() && 0 <= i < init[j].1->Ok_0.len() && head[k].0
                        == document_relative_path(dir, init[j].0, init[j].1->Ok_0[i]);
                assert(init[j] == namespaces[j]);
            }
        } else {
            let j = namespaces.len() - 1;
            let i = k - head.len();
            assert(all_kept_targets(dir, root, namespaces)[k].0 == document_relative_path(
                dir,
                namespaces[j].0,
                namespaces[j].1->Ok_0[i],
            ));
        }
    }
}

proof fn lemma_fix_namespaces_kept(
    dir: Seq<char>,
    style: Seq<char>,
    root: Seq<Seq<char>>,
    namespaces: Seq<(Seq<char>, Result<Seq<Seq<char>>, AppErrorView>)>,
    taken: Seq<Seq<char>>,
)
    requires
        forall|i: int| 0 <= i < root.len() ==> settled(style, #[trigger] root[i]),
        distinct_names(root),
        forall|j: int|
            0 <= j < namespaces.len() ==> settled(style, (#[trigger] namespaces[j]).0)
                && namespaces[j].0.len() > 0 && namespaces[j].1 is Ok,
        forall|j: int, i: int|
            0 <= j < namespaces.len() && 0 <= i < namespaces[j].1->Ok_0.len() ==> settled(
                style,
                #[trigger] namespaces[j].1->Ok_0[i],
            ),
        forall|j: int| 0 <= j < namespaces.len() ==> distinct_names(#[trigger] namespaces[j].1->Ok_0),
        forall|a: int, b: int|
            0 <= a < b < namespaces.len() ==> (#[trigger] namespaces[a]).0 != (
            #[trigger] namespaces[b]).0,
    ensures
        fix_documents(dir, style, ""@, ""@, root, empty_state(), taken) matches Ok(s1)
            && fix_namespaces(dir, style, namespaces, s1, taken) == Ok::<FixStateView, AppErrorView>(
            FixStateView {
                document_targets: all_kept_targets(dir, root, namespaces),
                namespace_targets: kept_namespace_targets(dir, namespaces),
                namespace_renames: Seq::empty(),
                document_renames: Seq::empty(),
            },
        ),
    decreases namespaces.len(),
{
    reveal_strlit("");
    let empty_ns = ""@;
    assert(empty_ns =~= Seq::<char>::empty());
    lemma_fix_documents_kept(dir, style, empty_ns, root, empty_state(), taken);
    let s1 = fix_documents(dir, style, ""@, ""@, root, empty_state(), taken)->Ok_0;
    assert(Seq::<(Seq<char>, Seq<char>)>::empty() + kept_targets(dir, empty_ns, root) =~= kept_targets(
        dir,
        empty_ns,
        root,
    ));
    if namespaces.len() == 0 {
        assert(kept_namespace_targets(dir, namespaces) =~= Seq::<(Seq<char>, Seq<char>)>::empty());
    } else {
        let init = namespaces.drop_last();
        lemma_fix_namespaces_kept(dir, style, root, init, taken);
        let s2 = fix_namespaces(dir, style, init, s1, taken)->Ok_0;
        let last = namespaces.last();
        let j_last = namespaces.len() - 1;
        assert(namespaces[j_last] == last);
        let ns = last.0;
        let ns_path = namespace_path(dir, ns);
        // the namespace target is new
        assert forall|k: int| 0 <= k < s2.namespace_targets.len() implies (
        #[trigger] s2.namespace_targets[k]).0 != ns_path by {
            assert(s2.namespace_targets[k] == kept_namespace_targets(dir, init)[k]);
            assert(init[k] == namespaces[k]);
            if namespace_path(dir, init[k].0) == ns_path {
                reveal_strlit("/");
                assert(init[k].0 =~= ns_path.skip(dir.len() + 1int));
                assert(ns =~= ns_path.skip(dir.len() + 1int));
            }
        }
        lemma_recorded_none(s2.namespace_targets, ns_path);
        let s3 = FixStateView {
            document_targets: s2.document_targets,
            namespace_targets: s2.namespace_targets.push((ns_path, ns_path)),
            namespace_renames: s2.namespace_renames,
            document_renames: s2.document_renames,
        };
        let stems = last.1->Ok_0;
        assert(!ns.contains('/'));
        assert forall|i: int| 0 <= i < stems.len() implies settled(style, #[trigger] stems[i]) by {
            assert(namespaces[j_last].1->Ok_0[i] == stems[i]);
        }
        assert(distinct_names(stems)) by {
            assert(namespaces[j_last].1->Ok_0 == stems);
        }
        assert forall|k: int, i: int|
            0 <= k < s3.document_targets.len() && 0 <= i < stems.len() implies (
            #[trigger] s3.document_targets[k]).0 != document_relative_path(
                dir,
                ns,
                #[trigger] stems[i],
            ) by {
            lemma_all_kept_targets_shape(dir, root, init, k);
            assert(settled(style, stems[i])) by {
                assert(namespaces[j_last].1->Ok_0[i] == stems[i]);
            }
            if s3.document_targets[k].0 == document_relative_path(dir, ns, stems[i]) {
                if exists|r: int|
                    0 <= r < root.len() && s3.document_targets[k].0 == document_relative_path(
                        dir,
                        Seq::empty(),
                        root[r],
                    ) {
                    let r = choose|r: int|
                        0 <= r < root.len() && s3.document_targets[k].0 == document_relative_path(
                            dir,
                            Seq::empty(),
                            root[r],
                        );
                    assert(settled(style, root[r]));
                    assert(!Seq::<char>::empty().contains('/'));
                    lemma_document_path_injective(dir, Seq::empty(), root[r], ns, stems[i]);
                } else {
                    let (jj, ii) = choose|jj: int, ii: int|
                        0 <= jj < init.len() && 0 <= ii < init[jj].1->Ok_0.len()
                            && s3.document_targets[k].0 == document_relative_path(
                            dir,
                            init[jj].0,
                            init[jj].1->Ok_0[ii],
                        );
                    assert(init[jj] == namespaces[jj]);
                    assert(settled(style, namespaces[jj].1->Ok_0[ii]));
                    assert(settled(style, namespaces[jj].0));
                    lemma_document_path_injective(
                        dir,
                        init[jj].0,
                        init[jj].1->Ok_0[ii],
                        ns,
                        stems[i],
                    );
                    assert(namespaces[jj].0 != namespaces[j_last].0);
                }
            }
        }
        lemma_fix_documents_kept(dir, style, ns, stems, s3, taken);
        assert(s3.namespace_targets =~= kept_namespace_targets(dir, namespaces));
    }
}

// ---------------------------------------------------------------------------
// The candidates cover the plan
// ---------------------------------------------------------------------------

/// Every rename names a (target, source) pair of `pairs`.
pub open spec fn covered(renames: Seq<FixRenameView>, pairs: Seq<(Seq<char>, Seq<char>)>) -> bool {
    forall|k: int|
        0 <= k < renames.len() ==> pairs.contains(
            ((#[trigger] renames[k]).new_path, renames[k].old_path),
        )
}

proof fn lemma_covered_grow(
    renames: Seq<FixRenameView>,
    pairs: Seq<(Seq<char>, Seq<char>)>,
    before: Seq<(Seq<char>, Seq<char>)>,
    after: Seq<(Seq<char>, Seq<char>)>,
)
    requires
        covered(renames, pairs),
    ensures
        covered(renames, before + pairs + after),
{
    let all = before + pairs + after;
    assert forall|k: int| 0 <= k < renames.len() implies all.contains(
        ((#[trigger] renames[k]).new_path, renames[k].old_path),
    ) by {
        let x = (renames[k].new_path, renames[k].old_path);
        let i = choose|i: int| 0 <= i < pairs.len() && pairs[i] == x;
        assert(all[before.len() + i] == x);
    }
}

proof fn lemma_covered_concat(
    a: Seq<FixRenameView>,
    b: Seq<FixRenameView>,
    pairs: Seq<(Seq<char>, Seq<char>)>,
)
    requires
        covered(a, pairs),
        covered(b, pairs),
    ensures
        covered(a + b, pairs),
{
    assert forall|k: int| 0 <= k < (a + b).len() implies pairs.contains(
        ((#[trigger] (a + b)[k]).new_path, (a + b)[k].old_path),
    ) by {
        if k < a.len() {
            assert((a + b)[k] == a[k]);
        } else {
            assert((a + b)[k] == b[k - a.len()]);
        }
    }
}

proof fn lemma_documents_covered(
    dir: Seq<char>,
    style: Seq<char>,
    old_ns: Seq<char>,
    new_ns: Seq<char>,
    stems: Seq<Seq<char>>,
    s: FixStateView,
    taken: Seq<Seq<char>>,
)
    requires
        fix_documents(dir, style, old_ns, new_ns, stems, s, taken) is Ok,
    ensures
        ({
            let t = fix_documents(dir, style, old_ns, new_ns, stems, s, taken)->Ok_0;
            &&& t.namespace_renames == s.namespace_renames
            &&& s.document_renames.len() <= t.document_renames.len()
            &&& t.document_renames.take(s.document_renames.len() as int) == s.document_renames
            &&& covered(
                t.document_renames.skip(s.document_renames.len() as int),
                document_candidates(dir, style, old_ns, new_ns, stems),
            )
        }),
    decreases stems.len(),
{
    let n = s.document_renames.len() as int;
    if stems.len() == 0 {
        assert(s.document_renames.take(n) =~= s.document_renames);
        assert(s.document_renames.skip(n).len() == 0);
    } else {
        let init = stems.drop_last();
        lemma_documents_covered(dir, style, old_ns, new_ns, init, s, taken);
        let t0 = fix_documents(dir, style, old_ns, new_ns, init, s, taken)->Ok_0;
        let t = fix_documents(dir, style, old_ns, new_ns, stems, s, taken)->Ok_0;
        let c0 = document_candidates(dir, style, old_ns, new_ns, init);
        let c = document_candidates(dir, style, old_ns, new_ns, stems);
        assert(c0 + Seq::<(Seq<char>, Seq<char>)>::empty() =~= c0);
        if t.document_renames == t0.document_renames {
            assert(Seq::<(Seq<char>, Seq<char>)>::empty() + c0 + Seq::<(Seq<char>, Seq<char>)>::empty() =~= c0);
            lemma_covered_grow(t0.document_renames.skip(n), c0, Seq::empty(), c.skip(c0.len() as int));
            assert(c0 + c.skip(c0.len() as int) =~= c);
        } else {
            let stem = stems.last();
            let new_stem = converted_name(stem, style)->Ok_0;
            let pair = (document_relative_path(dir, new_ns, new_stem), document_relative_path(dir, old_ns, stem));
            assert(c == c0.push(pair));
            assert(t.document_renames == t0.document_renames.push(t.document_renames.last()));
            lemma_covered_grow(t0.document_renames.skip(n), c0, Seq::empty(), seq![pair]);
            assert(Seq::<(Seq<char>, Seq<char>)>::empty() + c0 + seq![pair] =~= c);
            let extra = t.document_renames.skip(n);
            assert(extra =~= t0.document_renames.skip(n).push(t.document_renames.last()));
            assert(c[c.len() - 1] == pair);
            assert forall|k: int| 0 <= k < extra.len() implies c.contains(
                ((#[trigger] extra[k]).new_path, extra[k].old_path),
            ) by {
                if k < extra.len() - 1 {
                    assert(extra[k] == t0.document_renames.skip(n)[k]);
                }
            }
            assert(t.document_renames.take(n) =~= t0.document_renames.take(n));
        }
    }
}

proof fn lemma_namespaces_covered(
    dir: Seq<char>,
    style: Seq<char>,
    nss: Seq<(Seq<char>, Result<Seq<Seq<char>>, AppErrorView>)>,
    s: FixStateView,
    taken: Seq<Seq<char>>,
)
    requires
        fix_namespaces(dir, style, nss, s, taken) is Ok,
    ensures
        ({
            let t = fix_namespaces(dir, style, nss, s, taken)->Ok_0;
            &&& s.namespace_renames.len() <= t.namespace_renames.len()
            &&& s.document_renames.len() <= t.document_renames.len()
            &&& t.namespace_renames.take(s.namespace_renames.len() as int) == s.namespace_renames
            &&& t.document_renames.take(s.document_renames.len() as int) == s.document_renames
            &&& covered(
                t.namespace_renames.skip(s.namespace_renames.len() as int),
                namespace_candidates(dir, style, nss),
            )
            &&& covered(
                t.document_renames.skip(s.document_renames.len() as int),
                namespace_candidates(dir, style, nss),
            )
        }),
    decreases nss.len(),
{
    let nn = s.namespace_renames.len() as int;
    let nd = s.document_renames.len() as int;
    let e = Seq::<(Seq<char>, Seq<char>)>::empty();
    if nss.len() == 0 {
        assert(s.namespace_renames.take(nn) =~= s.namespace_renames);
        assert(s.document_renames.take(nd) =~= s.document_renames);
        assert(s.namespace_renames.skip(nn).len() == 0);
        assert(s.document_renames.skip(nd).len() == 0);
    } else {
        let init = nss.drop_last();
        lemma_namespaces_covered(dir, style, init, s, taken);
        let t0 = fix_namespaces(dir, style, init, s, taken)->Ok_0;
        let t = fix_namespaces(dir, style, nss, s, taken)->Ok_0;
        let c0 = namespace_candidates(dir, style, init);
        let c = namespace_candidates(dir, style, nss);
        let ns = nss.last().0;
        let new_ns = converted_name(ns, style)->Ok_0;
        let own: Seq<(Seq<char>, Seq<char>)> = if new_ns != ns {
            seq![(namespace_path(dir, new_ns), namespace_path(dir, ns))]
        } else {
            Seq::empty()
        };
        let stems = nss.last().1->Ok_0;
        let docs = document_candidates(dir, style, ns, new_ns, stems);
        assert(c == c0 + own + docs);
        // the namespace itself
        let t1 = FixStateView {
            document_targets: t0.document_targets,
            namespace_targets: t0.namespace_targets.push(
                (namespace_path(dir, new_ns), namespace_path(dir, ns)),
            ),
            namespace_renames: if ns == new_ns {
                t0.namespace_renames
            } else {
                t0.namespace_renames.push(
                    FixRenameView {
                        namespace: true,
                        from: namespace_path(dir, ns),
                        to: namespace_path(dir, new_ns),
                        old_path: namespace_path(dir, ns),
                        new_path: namespace_path(dir, new_ns),
                    },
                )
            },
            document_renames: t0.document_renames,
        };
        assert(fix_documents(dir, style, ns, new_ns, stems, t1, taken) == Ok::<
            FixStateView,
            AppErrorView,
        >(t));
        lemma_documents_covered(dir, style, ns, new_ns, stems, t1, taken);
        // namespace renames
        lemma_covered_grow(t0.namespace_renames.skip(nn), c0, e, own + docs);
        assert(e + c0 + (own + docs) =~= c);
        let extra_ns = t.namespace_renames.skip(nn);
        assert forall|k: int| 0 <= k < extra_ns.len() implies c.contains(
            ((#[trigger] extra_ns[k]).new_path, extra_ns[k].old_path),
        ) by {
            if k < t0.namespace_renames.skip(nn).len() {
                assert(extra_ns[k] == t0.namespace_renames.skip(nn)[k]);
            } else {
                assert(ns != new_ns);
                assert(extra_ns[k] == t1.namespace_renames.last());
                assert(c[c0.len() as int] == (namespace_path(dir, new_ns), namespace_path(dir, ns)));
            }
        }
        assert(t.namespace_renames.take(nn) =~= t0.namespace_renames.take(nn));
        // document renames
        let d0 = t0.document_renames.skip(nd);
        let d1 = t.document_renames.skip(t0.document_renames.len() as int);
        lemma_covered_grow(d0, c0, e, own + docs);
        lemma_covered_grow(d1, docs, c0 + own, e);
        assert(e + c0 + (own + docs) =~= c);
        assert((c0 + own) + docs + e =~= c);
        lemma_covered_concat(d0, d1, c);
        assert(t.document_renames.skip(nd) =~= d0 + d1);
        assert(t.document_renames.take(nd) =~= t0.document_renames.take(nd));
    }
}

/// Every rename that the migration plans is one of the candidates that
/// `fix_candidates` names: looking at the candidates' targets before
/// planning looks at every target the plan depends on.
pub proof fn lemma_fix_renames_are_candidates(
    dir: Seq<char>,
    style: Seq<char>,
    root: Result<Seq<Seq<char>>, AppErrorView>,
    namespaces: Result<Seq<(Seq<char>, Result<Seq<Seq<char>>, AppErrorView>)>, AppErrorView>,
    taken: Seq<Seq<char>>,
)
    requires
        fix_plan(dir, style, root, namespaces, taken) is Ok,
    ensures
        covered(
            fix_plan(dir, style, root, namespaces, taken)->Ok_0,
            fix_candidate_pairs(dir, style, root, namespaces),
        ),
{
    reveal_strlit("");
    let e = Seq::<(Seq<char>, Seq<char>)>::empty();
    let stems = root->Ok_0;
    let nss = namespaces->Ok_0;
    lemma_documents_covered(dir, style, ""@, ""@, stems, empty_state(), taken);
    let s1 = fix_documents(dir, style, ""@, ""@, stems, empty_state(), taken)->Ok_0;
    lemma_namespaces_covered(dir, style, nss, s1, taken);
    let s2 = fix_namespaces(dir, style, nss, s1, taken)->Ok_0;
    let dc = document_candidates(dir, style, ""@, ""@, stems);
    let nc = namespace_candidates(dir, style, nss);
    assert(fix_candidate_pairs(dir, style, root, namespaces) == dc + nc);
    assert(s1.namespace_renames.len() == 0);
    assert(s2.namespace_renames.skip(0) =~= s2.namespace_renames);
    lemma_covered_grow(s2.namespace_renames, nc, dc, e);
    assert(dc + nc + e =~= dc + nc);
    let r1 = s1.document_renames;
    assert(r1.skip(0) =~= r1);
    lemma_covered_grow(r1, dc, e, nc);
    assert(e + dc + nc =~= dc + nc);
    let r2 = s2.document_renames.skip(r1.len() as int);
    lemma_covered_grow(r2, nc, dc, e);
    lemma_covered_concat(r1, r2, dc + nc);
    assert(s2.document_renames =~= r1 + r2);
    lemma_covered_concat(s2.namespace_renames, s2.document_renames, dc + nc);
}

// ---------------------------------------------------------------------------
// The plan in closed form
// ---------------------------------------------------------------------------

/// The document renames of one directory, `old_ns` migrated to `new_ns`: one
/// for each stem whose converted name differs, in order.
pub open spec fn document_moves(
    dir: Seq<char>,
    style: Seq<char>,
    old_ns: Seq<char>,
    new_ns: Seq<char>,
    stems: Seq<Seq<char>>,
) -> Seq<FixRenameView>
    decreases stems.len(),
{
    if stems.len() == 0 {
        Seq::empty()
    } else {
        let rest = document_moves(dir, style, old_ns, new_ns, stems.drop_last());
        let stem = stems.last();
        let new_stem = converted_name(stem, style)->Ok_0;
        if stem == new_stem {
            rest
        } else {
            rest.push(
                FixRenameView {
                    namespace: false,
                    from: document_relative_path(dir, new_ns, stem),
                    to: document_relative_path(dir, new_ns, new_stem),
                    old_path: document_relative_path(dir, old_ns, stem),
                    new_path: document_relative_path(dir, new_ns, new_stem),
                },
            )
        }
    }
}

/// The namespace renames: one for each namespace whose converted name
/// differs, in order.
pub open spec fn namespace_moves(
    dir: Seq<char>,
    style: Seq<char>,
    namespaces: Seq<(Seq<char>, Result<Seq<Seq<char>>, AppErrorView>)>,
) -> Seq<FixRenameView>
    decreases namespaces.len(),
{
    if namespaces.len() == 0 {
        Seq::empty()
    } else {
        let rest = namespace_moves(dir, style, namespaces.drop_last());
        let ns = namespaces.last().0;
        let new_ns = converted_name(ns, style)->Ok_0;
        if ns == new_ns {
            rest
        } else {
            rest.push(
                FixRenameView {
                    namespace: true,
                    from: namespace_path(dir, ns),
                    to: namespace_path(dir, new_ns),
                    old_path: namespace_path(dir, ns),
                    new_path: namespace_path(dir, new_ns),
                },
            )
        }
    }
}

/// The document renames inside the namespaces, namespace by namespace, each
/// inside its converted namespace.
pub open spec fn namespaced_document_moves(
    dir: Seq<char>,
    style: Seq<char>,
    namespaces: Seq<(Seq<char>, Result<Seq<Seq<char>>, AppErrorView>)>,
) -> Seq<FixRenameView>
    decreases namespaces.len(),
{
    if namespaces.len() == 0 {
        Seq::empty()
    } else {
        let ns = namespaces.last().0;
        namespaced_document_moves(dir, style, namespaces.drop_last()) + document_moves(
            dir,
            style,
            ns,
            converted_name(ns, style)->Ok_0,
            namespaces.last().1->Ok_0,
        )
    }
}

proof fn lemma_documents_closed(
    dir: Seq<char>,
    style: Seq<char>,
    old_ns: Seq<char>,
    new_ns: Seq<char>,
    stems: Seq<Seq<char>>,
    s: FixStateView,
    taken: Seq<Seq<char>>,
)
    requires
        fix_documents(dir, style, old_ns, new_ns, stems, s, taken) is Ok,
    ensures
        ({
            let s2 = fix_documents(dir, style, old_ns, new_ns, stems, s, taken)->Ok_0;
            &&& s2.document_renames == s.document_renames + document_moves(
                dir,
                style,
                old_ns,
                new_ns,
                stems,
            )
            &&& s2.namespace_renames == s.namespace_renames
        }),
    decreases stems.len(),
{
    if stems.len() == 0 {
        assert(s.document_renames + Seq::<FixRenameView>::empty() =~= s.document_renames);
    } else {
        lemma_documents_closed(dir, style, old_ns, new_ns, stems.drop_last(), s, taken);
        let s1 = fix_documents(dir, style, old_ns, new_ns, stems.drop_last(), s, taken)->Ok_0;
        let rest = document_moves(dir, style, old_ns, new_ns, stems.drop_last());
        let stem = stems.last();
        let new_stem = converted_name(stem, style)->Ok_0;
        if stem != new_stem {
            assert(s1.document_renames.push(
                FixRenameView {
                    namespace: false,
                    from: document_relative_path(dir, new_ns, stem),
                    to: document_relative_path(dir, new_ns, new_stem),
                    old_path: document_relative_path(dir, old_ns, stem),
                    new_path: document_relative_path(dir, new_ns, new_stem),
                },
            ) =~= s.document_renames + document_moves(dir, style, old_ns, new_ns, stems));
        }
    }
}

proof fn lemma_namespaces_closed(
    dir: Seq<char>,
    style: Seq<char>,
    namespaces: Seq<(Seq<char>, Result<Seq<Seq<char>>, AppErrorView>)>,
    s: FixStateView,
    taken: Seq<Seq<char>>,
)
    requires
        fix_namespaces(dir, style, namespaces, s, taken) is Ok,
    ensures
        ({
            let s2 = fix_namespaces(dir, style, namespaces, s, taken)->Ok_0;
            &&& s2.namespace_renames == s.namespace_renames + namespace_moves(dir, style, namespaces)
            &&& s2.document_renames == s.document_renames + namespaced_document_moves(
                dir,
                style,
                namespaces,
            )
        }),
    decreases namespaces.len(),
{
    let e = Seq::<FixRenameView>::empty();
    if namespaces.len() == 0 {
        assert(s.document_renames + e =~= s.document_renames);
        assert(s.namespace_renames + e =~= s.namespace_renames);
    } else {
        let init = namespaces.drop_last();
        lemma_namespaces_closed(dir, style, init, s, taken);
        let s1 = fix_namespaces(dir, style, init, s, taken)->Ok_0;
        let ns = namespaces.last().0;
        let new_ns = converted_name(ns, style)->Ok_0;
        let old_path = namespace_path(dir, ns);
        let new_path = namespace_path(dir, new_ns);
        let targets = s1.namespace_targets.push((new_path, old_path));
        let mid = if ns == new_ns {
            FixStateView {
                document_targets: s1.document_targets,
                namespace_targets: targets,
                namespace_renames: s1.namespace_renames,
                document_renames: s1.document_renames,
            }
        } else {
            FixStateView {
                document_targets: s1.document_targets,
                namespace_targets: targets,
                namespace_renames: s1.namespace_renames.push(
                    FixRenameView {
                        namespace: true,
                        from: old_path,
                        to: new_path,
                        old_path,
                        new_path,
                    },
                ),
                document_renames: s1.document_renames,
            }
        };
        let st = namespaces.last().1->Ok_0;
        assert(fix_namespaces(dir, style, namespaces, s, taken) == fix_documents(
            dir,
            style,
            ns,
            new_ns,
            st,
            mid,
            taken,
        ));
        lemma_documents_closed(dir, style, ns, new_ns, st, mid, taken);
        let mv = namespace_moves(dir, style, init);
        if ns != new_ns {
            assert(s1.namespace_renames.push(
                FixRenameView { namespace: true, from: old_path, to: new_path, old_path, new_path },
            ) =~= s.namespace_renames + namespace_moves(dir, style, namespaces));
        }
        assert(s1.document_renames + document_moves(dir, style, ns, new_ns, st) =~= s.document_renames
            + namespaced_document_moves(dir, style, namespaces));
    }
}

/// The migration in closed form: when it is not refused, it renames every
/// namespace whose converted name differs (in listing order), then every root
/// document whose converted stem differs, then, namespace by namespace, every
/// such document inside its converted namespace.
pub proof fn lemma_fix_closed_form(
    dir: Seq<char>,
    style: Seq<char>,
    root: Result<Seq<Seq<char>>, AppErrorView>,
    namespaces: Result<Seq<(Seq<char>, Result<Seq<Seq<char>>, AppErrorView>)>, AppErrorView>,
    taken: Seq<Seq<char>>,
)
    requires
        fix_plan(dir, style, root, namespaces, taken) is Ok,
    ensures
        fix_plan(dir, style, root, namespaces, taken)->Ok_0 == namespace_moves(
            dir,
            style,
            namespaces->Ok_0,
        ) + document_moves(dir, style, ""@, ""@, root->Ok_0) + namespaced_document_moves(
            dir,
            style,
            namespaces->Ok_0,
        ),
{
    let e = Seq::<FixRenameView>::empty();
    let stems = root->Ok_0;
    let nss = namespaces->Ok_0;
    lemma_documents_closed(dir, style, ""@, ""@, stems, empty_state(), taken);
    let s1 = fix_documents(dir, style, ""@, ""@, stems, empty_state(), taken)->Ok_0;
    lemma_namespaces_closed(dir, style, nss, s1, taken);
    let s2 = fix_namespaces(dir, style, nss, s1, taken)->Ok_0;
    assert(s1.namespace_renames == e);
    assert(s2.namespace_renames =~= namespace_moves(dir, style, nss));
    assert(s1.document_renames =~= document_moves(dir, style, ""@, ""@, stems));
}

} // verus!
