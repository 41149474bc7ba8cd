//! The workspace: the repository root holding `docs.json`, the paths that
//! docs.json names, and the guess of a naming style for a new workspace.
use vstd::prelude::*;

use crate::utils::error::{AppError, AppErrorView, input_error};
use crate::utils::index::{
    DirEntry, DocsIndex, INDEX_FILE_NAME, config_path_error, config_path_ok,
    config_path_to_display, config_path_to_relative, index_path, strip_dot_slash,
};
use crate::utils::naming::{
    LOWERCASE_NAMING_STYLE, infer_naming_style_from_name, inferred_style,
    lemma_inferred_style_supported, naming_style_uses_uppercase_doc_dir, style_pattern,
    uses_uppercase_doc_dir,
};
use crate::utils::paths::{
    join_path, path_components, path_join, relative_display,
};
use crate::utils::text::{owned, str_eq, views};

pub use crate::utils::paths::relative_path_from_root;

verus! {

pub const UPPERCASE_DOCUMENTS_DIRECTORY: &'static str = "Docs";

pub const LOWERCASE_DOCUMENTS_DIRECTORY: &'static str = "docs";

/// The paths of a workspace.
#[derive(Debug)]
pub struct Workspace {
    pub root: String,
    pub index_file: String,
    pub agents_file: String,
    pub documents_directory: String,
    pub documents_directory_name: String,
}

/// A workspace found from the current directory, with the index read from
/// its docs.json.
#[derive(Debug)]
pub struct FoundWorkspace {
    pub workspace: Workspace,
    pub index: DocsIndex,
}

/// What `init` reports.
#[derive(Debug)]
pub struct InitOutput {
    pub index_path: String,
    pub documents_directory: String,
    pub naming_style: String,
}

/// An `AGENTS.md` that applies to the current directory, with its content.
#[derive(Debug)]
pub struct WorkspaceRule {
    pub path: String,
    pub content: String,
}

/// What the bare command reports: the workspace and the `AGENTS.md` files
/// from the root down to the current directory.
#[derive(Debug)]
pub struct WorkspaceRules {
    pub repository: String,
    pub agents_file: String,
    pub index_file: String,
    pub documents_directory: String,
    pub rules: Vec<WorkspaceRule>,
}

impl WorkspaceRule {
    pub fn new(path: String, content: String) -> (r: Self)
        ensures
            r.path == path,
            r.content == content,
    {
        WorkspaceRule { path, content }
    }
}

// ---------------------------------------------------------------------------
// Finding the workspace
// ---------------------------------------------------------------------------

/// The refusal when no directory from the current one up holds docs.json.
pub open spec fn not_initialized_error() -> AppErrorView {
    input_error(
        "workspace_not_initialized"@,
        "failed to locate docs.json; run adm init first"@,
        Seq::empty(),
    )
}

pub fn workspace_not_initialized() -> (r: AppError)
    ensures
        r@ == not_initialized_error(),
{
    AppError::input("workspace_not_initialized", "failed to locate docs.json; run adm init first")
}

/// A directory on the way from the current directory up to the filesystem
/// root, and whether docs.json is a file in it.
#[derive(Debug)]
pub struct RootCandidate {
    pub directory: String,
    pub has_index: bool,
}

/// The nearest candidate that holds docs.json, looking upward from the
/// first.
pub open spec fn nearest_root(candidates: Seq<RootCandidate>) -> Option<Seq<char>>
    decreases candidates.len(),
{
    if candidates.len() == 0 {
        None
    } else if candidates[0].has_index {
        Some(candidates[0].directory@)
    } else {
        nearest_root(candidates.drop_first())
    }
}

/// The root of the workspace: the nearest of the directories from the
/// current one up (listed nearest first) that holds docs.json, or the
/// refusal that the workspace is not initialized.
pub fn find_root_from(candidates: &Vec<RootCandidate>) -> (r: Result<String, AppError>)
    ensures
        r is Ok <==> nearest_root(candidates@) is Some,
        r matches Ok(root) ==> nearest_root(candidates@) == Some(root@),
        r matches Err(e) ==> e@ == not_initialized_error(),
{
    let mut i: usize = 0;
    assert(candidates@.skip(0) =~= candidates@);
    while i < candidates.len()
        invariant
            i <= candidates@.len(),
            nearest_root(candidates@) == nearest_root(candidates@.skip(i as int)),
        decreases candidates.len() - i,
    {
        assert(candidates@.skip(i as int)[0] == candidates@[i as int]);
        if candidates[i].has_index {
            return Ok(candidates[i].directory.clone());
        }
        assert(candidates@.skip(i as int).drop_first() =~= candidates@.skip(i + 1));
        i = i + 1;
    }
    assert(candidates@.skip(i as int).len() == 0);
    Err(workspace_not_initialized())
}

/// The workspace of the repository at `root`, as described by its index.
pub open spec fn workspace_spec(root: Seq<char>, index: DocsIndex) -> Result<
    (Seq<char>, Seq<char>, Seq<char>, Seq<char>, Seq<char>),
    AppErrorView,
> {
    if !config_path_ok(index.index_file@) {
        Err(config_path_error("path"@, index.index_file@))
    } else if !config_path_ok(index.doc_dir@) {
        Err(config_path_error("path"@, index.doc_dir@))
    } else {
        Ok(
            (
                root,
                path_join(root, INDEX_FILE_NAME@),
                path_join(root, strip_dot_slash(index.index_file@)),
                path_join(root, strip_dot_slash(index.doc_dir@)),
                strip_dot_slash(index.doc_dir@),
            ),
        )
    }
}

impl View for Workspace {
    type V = (Seq<char>, Seq<char>, Seq<char>, Seq<char>, Seq<char>);

    /// (root, index file, agents file, documents directory, its name)
    open spec fn view(&self) -> (Seq<char>, Seq<char>, Seq<char>, Seq<char>, Seq<char>) {
        (
            self.root@,
            self.index_file@,
            self.agents_file@,
            self.documents_directory@,
            self.documents_directory_name@,
        )
    }
}

/// The workspace at `root` whose docs.json holds `index`.
pub fn workspace_from_index(root: &str, index: &DocsIndex) -> (r: Result<Workspace, AppError>)
    ensures
        r is Ok <==> workspace_spec(root@, *index) is Ok,
        r matches Ok(w) ==> workspace_spec(root@, *index) == Ok::<
            (Seq<char>, Seq<char>, Seq<char>, Seq<char>, Seq<char>),
            AppErrorView,
        >(w@),
        r matches Err(e) ==> workspace_spec(root@, *index) == Err::<
            (Seq<char>, Seq<char>, Seq<char>, Seq<char>, Seq<char>),
            AppErrorView,
        >(e@),
{
    let agents = match config_path_to_relative(index.index_file.as_str()) {
        Ok(p) => p,
        Err(e) => return Err(e),
    };
    let documents = match config_path_to_relative(index.doc_dir.as_str()) {
        Ok(p) => p,
        Err(e) => return Err(e),
    };
    let name = match config_path_to_display(index.doc_dir.as_str()) {
        Ok(p) => p,
        Err(e) => return Err(e),
    };
    Ok(
        Workspace {
            agents_file: join_path(root, agents.as_str()),
            index_file: index_path(root),
            documents_directory: join_path(root, documents.as_str()),
            documents_directory_name: name,
            root: owned(root),
        },
    )
}

/// A path of the workspace as shown to the user: relative to the root.
pub fn relative_path(workspace: &Workspace, path: &str) -> (r: String)
    ensures
        r@ == relative_display(workspace.root@, path@),
{
    relative_path_from_root(workspace.root.as_str(), path)
}

/// A path as shown to the user as it is.
pub fn display_path(path: &str) -> (r: String)
    ensures
        r@ == path@,
{
    owned(path)
}

/// The directories, from the root down to `current`, whose `AGENTS.md`
/// applies in `current`: the root, then one more component of `current`
/// below the root at a time. A `current` outside the root gives the root
/// alone.
pub open spec fn rule_directories(root: Seq<char>, current: Seq<char>) -> Seq<Seq<char>> {
    let rc = path_components(root);
    let cc = path_components(current);
    let below: Seq<Seq<char>> = if rc.len() <= cc.len() && cc.take(rc.len() as int) == rc {
        cc.skip(rc.len() as int)
    } else {
        Seq::empty()
    };
    Seq::new(below.len() + 1, |k: int| rule_directory(root, below, k))
}

/// The root with the first `k` components of `below` pushed onto it.
pub open spec fn rule_directory(root: Seq<char>, below: Seq<Seq<char>>, k: int) -> Seq<char>
    decreases k,
{
    if k <= 0 {
        root
    } else {
        path_join(rule_directory(root, below, k - 1), below[k - 1])
    }
}

pub fn rule_directories_of(root: &str, current: &str) -> (r: Vec<String>)
    ensures
        views(r@) == rule_directories(root@, current@),
{
    let rc = crate::utils::paths::path_components_of(root);
    let cc = crate::utils::paths::path_components_of(current);
    let ghost rcv = views(rc@);
    let ghost ccv = views(cc@);
    let mut inside = rc.len() <= cc.len();
    let mut k: usize = 0;
    while inside && k < rc.len()
        invariant
            rcv == views(rc@),
            ccv == views(cc@),
            k <= rc@.len(),
            inside ==> rc@.len() <= cc@.len(),
            inside ==> forall|m: int| 0 <= m < k ==> rcv[m] == ccv[m],
            !inside ==> !(rcv.len() <= ccv.len() && ccv.take(rcv.len() as int) == rcv),
        decreases rc.len() - k + (if inside {
            1int
        } else {
            0int
        }),
    {
        if !str_eq(rc[k].as_str(), cc[k].as_str()) {
            assert(ccv.take(rcv.len() as int)[k as int] != rcv[k as int]);
            inside = false;
        } else {
            k = k + 1;
        }
    }
    let ghost below: Seq<Seq<char>> = if rcv.len() <= ccv.len() && ccv.take(rcv.len() as int)
        == rcv {
        ccv.skip(rcv.len() as int)
    } else {
        Seq::empty()
    };
    if inside {
        assert(ccv.take(rcv.len() as int) =~= rcv);
    }
    let start: usize = if inside {
        rc.len()
    } else {
        cc.len()
    };
    assert(below =~= ccv.subrange(start as int, ccv.len() as int));
    let mut out: Vec<String> = Vec::new();
    let mut current_dir = owned(root);
    out.push(owned(root));
    let mut i: usize = start;
    assert(views(out@) =~= Seq::new(1, |m: int| rule_directory(root@, below, m)));
    while i < cc.len()
        invariant
            start <= i <= cc@.len(),
            ccv == views(cc@),
            below == ccv.subrange(start as int, ccv.len() as int),
            current_dir@ == rule_directory(root@, below, (i - start) as int),
            views(out@) == Seq::new(
                (i - start + 1) as nat,
                |m: int| rule_directory(root@, below, m),
            ),
        decreases cc.len() - i,
    {
        let next = join_path(current_dir.as_str(), cc[i].as_str());
        proof {
            assert(below[(i - start) as int] == cc@[i as int]@);
            assert(next@ == rule_directory(root@, below, (i - start + 1) as int));
        }
        let ghost before = views(out@);
        out.push(owned(next.as_str()));
        current_dir = next;
        proof {
            let n = (i - start + 1) as nat;
            assert(views(out@) =~= before.push(next@));
            assert(Seq::new(n + 1, |m: int| rule_directory(root@, below, m)) =~= Seq::new(
                n,
                |m: int| rule_directory(root@, below, m),
            ).push(rule_directory(root@, below, n as int)));
        }
        i = i + 1;
    }
    assert(views(out@) =~= rule_directories(root@, current@));
    out
}

/// What the bare command reports for a workspace and the rules found.
pub fn workspace_rules(workspace: &Workspace, rules: Vec<WorkspaceRule>) -> (r: WorkspaceRules)
    ensures
        r.repository@ == workspace.root@,
        r.agents_file@ == relative_display(workspace.root@, workspace.agents_file@),
        r.index_file@ == relative_display(workspace.root@, workspace.index_file@),
        r.documents_directory@ == relative_display(
            workspace.root@,
            workspace.documents_directory@,
        ),
        r.rules == rules,
{
    WorkspaceRules {
        repository: display_path(workspace.root.as_str()),
        agents_file: relative_path(workspace, workspace.agents_file.as_str()),
        index_file: relative_path(workspace, workspace.index_file.as_str()),
        documents_directory: relative_path(workspace, workspace.documents_directory.as_str()),
        rules,
    }
}

// ---------------------------------------------------------------------------
// Guessing the naming style of a new workspace
// ---------------------------------------------------------------------------

/// Whether an entry of the root counts for the guess: a directory that is not
/// hidden.
pub open spec fn counts_for_style(e: DirEntry) -> bool {
    e.is_dir && !(e.name@.len() > 0 && e.name@[0] == '.')
}

/// The inferred styles of the entries that count, in listing order.
pub open spec fn counted_styles(entries: Seq<DirEntry>) -> Seq<Seq<char>>
    decreases entries.len(),
{
    if entries.len() == 0 {
        Seq::empty()
    } else {
        let rest = counted_styles(entries.drop_last());
        if counts_for_style(entries.last()) {
            rest.push(inferred_style(entries.last().name@))
        } else {
            rest
        }
    }
}

/// How many times `x` occurs in `s`.
pub open spec fn count_of(s: Seq<Seq<char>>, x: Seq<char>) -> nat
    decreases s.len(),
{
    if s.len() == 0 {
        0
    } else {
        count_of(s.drop_last(), x) + if s.last() == x {
            1nat
        } else {
            0nat
        }
    }
}

/// `w` occurs in `s` more often than any other value of `s`.
pub open spec fn strict_winner(s: Seq<Seq<char>>, w: Seq<char>) -> bool {
    s.contains(w) && forall|v: Seq<char>|
        #[trigger] s.contains(v) && v != w ==> count_of(s, v) < count_of(s, w)
}

/// The style that occurs most often, when one alone does; else snake_case.
pub open spec fn most_common_style(s: Seq<Seq<char>>) -> Seq<char> {
    if exists|w: Seq<char>| strict_winner(s, w) {
        choose|w: Seq<char>| strict_winner(s, w)
    } else {
        LOWERCASE_NAMING_STYLE@
    }
}

proof fn lemma_count_absent(s: Seq<Seq<char>>, x: Seq<char>)
    requires
        !s.contains(x),
    ensures
        count_of(s, x) == 0,
    decreases s.len(),
{
    if s.len() > 0 {
        assert(!s.drop_last().contains(x)) by {
            if s.drop_last().contains(x) {
                let k = choose|k: int| 0 <= k < s.drop_last().len() && s.drop_last()[k] == x;
                assert(s[k] == x);
            }
        }
        lemma_count_absent(s.drop_last(), x);
    }
}

proof fn lemma_count_bound(s: Seq<Seq<char>>, x: Seq<char>)
    ensures
        count_of(s, x) <= s.len(),
    decreases s.len(),
{
    if s.len() > 0 {
        lemma_count_bound(s.drop_last(), x);
    }
}

/// Only the directories of the root take part in the inference: the styles
/// counted for the entries are those counted for their directories alone.
pub proof fn lemma_inference_ignores_files(entries: Seq<DirEntry>)
    ensures
        counted_styles(entries) == counted_styles(entries.filter(|e: DirEntry| e.is_dir)),
        most_common_style(counted_styles(entries)) == most_common_style(
            counted_styles(entries.filter(|e: DirEntry| e.is_dir)),
        ),
    decreases entries.len(),
{
    reveal(Seq::filter);
    if entries.len() > 0 {
        lemma_inference_ignores_files(entries.drop_last());
        let f = entries.filter(|e: DirEntry| e.is_dir);
        let g = entries.drop_last().filter(|e: DirEntry| e.is_dir);
        if entries.last().is_dir {
            assert(f == g.push(entries.last()));
            assert(f.drop_last() =~= g);
        } else {
            assert(f == g);
        }
    }
}

/// Whether an entry's name starts with a dot (`.git`, `.github`).
pub open spec fn is_hidden(e: DirEntry) -> bool {
    e.name@.len() > 0 && e.name@[0] == '.'
}

/// The styles that `init` counts are exactly those of the root's
/// directories whose names do not start with a dot, in listing order.
pub proof fn lemma_counted_styles_are_visible_directories(entries: Seq<DirEntry>)
    ensures
        counted_styles(entries) == entries.filter(|e: DirEntry| e.is_dir && !is_hidden(e)).map_values(
            |e: DirEntry| inferred_style(e.name@),
        ),
    decreases entries.len(),
{
    reveal(Seq::filter);
    let pred = |e: DirEntry| e.is_dir && !is_hidden(e);
    let f = |e: DirEntry| inferred_style(e.name@);
    if entries.len() == 0 {
        assert(entries.filter(pred).map_values(f) =~= Seq::<Seq<char>>::empty());
    } else {
        lemma_counted_styles_are_visible_directories(entries.drop_last());
        let g = entries.drop_last().filter(pred);
        if pred(entries.last()) {
            assert(entries.filter(pred) == g.push(entries.last()));
            assert(g.push(entries.last()).map_values(f) =~= g.map_values(f).push(
                f(entries.last()),
            ));
        } else {
            assert(entries.filter(pred) == g);
        }
    }
}

/// Hidden entries never change what `init` infers: the counted styles, and
/// so the inferred style, are the same once every entry whose name starts
/// with a dot is left out.
pub proof fn lemma_inference_ignores_hidden(entries: Seq<DirEntry>)
    ensures
        counted_styles(entries) == counted_styles(entries.filter(|e: DirEntry| !is_hidden(e))),
        most_common_style(counted_styles(entries)) == most_common_style(
            counted_styles(entries.filter(|e: DirEntry| !is_hidden(e))),
        ),
    decreases entries.len(),
{
    reveal(Seq::filter);
    if entries.len() > 0 {
        lemma_inference_ignores_hidden(entries.drop_last());
        let f = entries.filter(|e: DirEntry| !is_hidden(e));
        let g = entries.drop_last().filter(|e: DirEntry| !is_hidden(e));
        if !is_hidden(entries.last()) {
            assert(f == g.push(entries.last()));
            assert(f.drop_last() =~= g);
        } else {
            assert(f == g);
        }
    }
}

proof fn lemma_counted_styles_supported(entries: Seq<DirEntry>)
    ensures
        forall|k: int|
            0 <= k < counted_styles(entries).len() ==> style_pattern(
                #[trigger] counted_styles(entries)[k],
            ) is Some,
    decreases entries.len(),
{
    if entries.len() > 0 {
        lemma_counted_styles_supported(entries.drop_last());
        lemma_inferred_style_supported(entries.last().name@);
    }
}

/// The naming style that `init` infers is always a supported style.
pub proof fn lemma_inferred_style_is_supported(entries: Seq<DirEntry>)
    ensures
        style_pattern(most_common_style(counted_styles(entries))) is Some,
{
    lemma_counted_styles_supported(entries);
    let s = counted_styles(entries);
    if exists|w: Seq<char>| strict_winner(s, w) {
        let w = choose|w: Seq<char>| strict_winner(s, w);
        let k = choose|k: int| 0 <= k < s.len() && s[k] == w;
        assert(style_pattern(s[k]) is Some);
    } else {
        lemma_inferred_style_supported(Seq::empty());
        assert(style_pattern(LOWERCASE_NAMING_STYLE@) is Some);
    }
}

/// The naming style that most subdirectories of the root follow: snake_case
/// when none counts or when two styles tie.
pub fn most_common_naming_style(entries: &Vec<DirEntry>) -> (r: String)
    ensures
        r@ == most_common_style(counted_styles(entries@)),
{
    let mut keys: Vec<String> = Vec::new();
    let mut counts: Vec<usize> = Vec::new();
    let mut i: usize = 0;
    assert(entries@.take(0) =~= Seq::<DirEntry>::empty());
    while i < entries.len()
        invariant
            i <= entries@.len(),
            keys@.len() == counts@.len(),
            forall|k: int|
                0 <= k < keys@.len() ==> #[trigger] counts@[k] == count_of(
                    counted_styles(entries@.take(i as int)),
                    keys@[k]@,
                ),
            forall|k: int|
                0 <= k < keys@.len() ==> counted_styles(entries@.take(i as int)).contains(
                    #[trigger] keys@[k]@,
                ),
            forall|a: int, b: int| 0 <= a < b < keys@.len() ==> keys@[a]@ != keys@[b]@,
            forall|x: Seq<char>|
                #[trigger] counted_styles(entries@.take(i as int)).contains(x) ==> exists|k: int|
                    0 <= k < keys@.len() && keys@[k]@ == x,
            forall|k: int| 0 <= k < counts@.len() ==> #[trigger] counts@[k] <= i,
        decreases entries.len() - i,
    {
        let ghost s0 = counted_styles(entries@.take(i as int));
        let ghost t = entries@.take(i + 1);
        proof {
            assert(t.drop_last() =~= entries@.take(i as int));
            assert(t.last() == entries@[i as int]);
        }
        let e = &entries[i];
        let name = crate::utils::text::chars_of(e.name.as_str());
        let hidden = name.len() > 0 && name[0] == '.';
        let ghost keys0 = keys@;
        let ghost counts0 = counts@;
        if e.is_dir && !hidden {
            let style = infer_naming_style_from_name(e.name.as_str());
            let ghost s1 = s0.push(style@);
            assert(counted_styles(t) == s1);
            assert(s1.drop_last() =~= s0);
            let mut k: usize = 0;
            let mut found = false;
            while k < keys.len() && !found
                invariant
                    k <= keys@.len(),
                    !found ==> forall|m: int| 0 <= m < k ==> keys@[m]@ != style@,
                    found ==> k < keys@.len() && keys@[k as int]@ == style@,
                decreases keys.len() - k + (if found {
                    0int
                } else {
                    1int
                }),
            {
                if str_eq(keys[k].as_str(), style) {
                    found = true;
                } else {
                    k = k + 1;
                }
            }
            if found {
                let c = counts[k];
                proof {
                    lemma_count_bound(s0, style@);
                }
                counts.set(k, c + 1);
            } else {
                proof {
                    if s0.contains(style@) {
                        let kk = choose|kk: int| 0 <= kk < keys0.len() && keys0[kk]@ == style@;
                        assert(keys@[kk]@ != style@);
                        assert(false);
                    }
                    lemma_count_absent(s0, style@);
                }
                keys.push(owned(style));
                counts.push(1);
            }
            proof {
                assert forall|kk: int| 0 <= kk < keys@.len() implies #[trigger] counts@[kk]
                    == count_of(s1, keys@[kk]@) by {
                    if kk < keys0.len() {
                        assert(keys@[kk] == keys0[kk]);
                        assert(counts0[kk] == count_of(s0, keys0[kk]@));
                    }
                }
                assert forall|x: Seq<char>| #[trigger] s1.contains(x) implies exists|kk: int|
                    0 <= kk < keys@.len() && keys@[kk]@ == x by {
                    if x == style@ {
                        if found {
                            assert(keys@[k as int]@ == x);
                        } else {
                            assert(keys@[keys@.len() - 1]@ == x);
                        }
                    } else {
                        let j = choose|j: int| 0 <= j < s1.len() && s1[j] == x;
                        assert(s0[j] == x);
                        assert(s0.contains(x));
                        let kk = choose|kk: int| 0 <= kk < keys0.len() && keys0[kk]@ == x;
                        assert(keys@[kk] == keys0[kk]);
                    }
                }
                assert forall|kk: int| 0 <= kk < keys@.len() implies s1.contains(
                    #[trigger] keys@[kk]@,
                ) by {
                    if keys@[kk]@ == style@ {
                        assert(s1[s1.len() - 1] == style@);
                    } else {
                        assert(keys@[kk] == keys0[kk]);
                        assert(s0.contains(keys0[kk]@));
                        let j = choose|j: int| 0 <= j < s0.len() && s0[j] == keys@[kk]@;
                        assert(s1[j] == s0[j]);
                    }
                }
                assert forall|a: int, b: int| 0 <= a < b < keys@.len() implies keys@[a]@
                    != keys@[b]@ by {
                    if b >= keys0.len() {
                        assert(keys@[a] == keys0[a]);
                    } else {
                        assert(keys@[a] == keys0[a] && keys@[b] == keys0[b]);
                    }
                }
            }
        } else {
            assert(counted_styles(t) == s0);
        }
        i = i + 1;
    }
    assert(entries@.take(entries@.len() as int) =~= entries@);
    let ghost s = counted_styles(entries@);
    if keys.len() == 0 {
        proof {
            assert forall|w: Seq<char>| !strict_winner(s, w) by {
                if s.contains(w) {
                    let kk = choose|kk: int| 0 <= kk < keys@.len() && keys@[kk]@ == w;
                }
            }
        }
        return owned(LOWERCASE_NAMING_STYLE);
    }
    let mut max: usize = counts[0];
    let mut m: usize = 1;
    while m < counts.len()
        invariant
            1 <= m <= counts@.len(),
            forall|k: int| 0 <= k < m ==> counts@[k] <= max,
            exists|k: int| 0 <= k < m && counts@[k] == max,
        decreases counts.len() - m,
    {
        if counts[m] > max {
            max = counts[m];
        }
        m = m + 1;
    }
    let mut winners: usize = 0;
    let mut winner: usize = 0;
    let mut m: usize = 0;
    while m < counts.len()
        invariant
            m <= counts@.len(),
            winners <= m,
            winners == 0 ==> forall|k: int| 0 <= k < m ==> counts@[k] != max,
            winners >= 1 ==> winner < m && counts@[winner as int] == max,
            winners == 1 ==> forall|k: int| 0 <= k < m && k != winner ==> counts@[k] != max,
            winners >= 2 ==> exists|k: int| 0 <= k < m && k != winner && counts@[k] == max,
        decreases counts.len() - m,
    {
        if counts[m] == max {
            if winners == 0 {
                winner = m;
            }
            winners = winners + 1;
        }
        m = m + 1;
    }
    if winners == 1 {
        let w = owned(keys[winner].as_str());
        proof {
            let wv = keys@[winner as int]@;
            assert(counts@[winner as int] == count_of(s, wv));
            assert(strict_winner(s, wv)) by {
                assert forall|v: Seq<char>| #[trigger] s.contains(v) && v != wv implies count_of(
                    s,
                    v,
                ) < count_of(s, wv) by {
                    let kv = choose|kv: int| 0 <= kv < keys@.len() && keys@[kv]@ == v;
                    assert(counts@[kv] == count_of(s, keys@[kv]@));
                }
            }
            let c = choose|c: Seq<char>| strict_winner(s, c);
            if c != wv {
                assert(s.contains(c));
                assert(count_of(s, wv) < count_of(s, c));
                let kc = choose|kc: int| 0 <= kc < keys@.len() && keys@[kc]@ == c;
                assert(counts@[kc] == count_of(s, keys@[kc]@));
            }
        }
        w
    } else {
        proof {
            assert(winners >= 2);
            let other = choose|k: int| 0 <= k < counts@.len() && k != winner && counts@[k] == max;
            assert forall|w: Seq<char>| !strict_winner(s, w) by {
                if strict_winner(s, w) {
                    let kw = choose|kw: int| 0 <= kw < keys@.len() && keys@[kw]@ == w;
                    assert(counts@[kw] == count_of(s, keys@[kw]@));
                    assert(counts@[winner as int] == count_of(s, keys@[winner as int]@));
                    assert(counts@[other] == count_of(s, keys@[other]@));
                    if kw != winner {
                        assert(s.contains(keys@[winner as int]@));
                        assert(keys@[winner as int]@ != w);
                    } else {
                        assert(s.contains(keys@[other]@));
                        assert(keys@[other]@ != w);
                    }
                }
            }
        }
        owned(LOWERCASE_NAMING_STYLE)
    }
}

/// The documents directory that a new workspace gets for a naming style.
pub open spec fn documents_directory_for(style: Seq<char>) -> Seq<char> {
    if uses_uppercase_doc_dir(style) {
        "./Docs"@
    } else {
        "./docs"@
    }
}

pub fn documents_directory_for_style(naming_style: &str) -> (r: String)
    ensures
        r@ == documents_directory_for(naming_style@),
{
    if naming_style_uses_uppercase_doc_dir(naming_style) {
        owned("./Docs")
    } else {
        owned("./docs")
    }
}

/// The index that `init` writes for a new workspace whose root holds
/// `entries`: the most common style of its subdirectories, and the
/// documents directory that goes with it.
pub fn inferred_index(entries: &Vec<DirEntry>) -> (r: DocsIndex)
    ensures
        r.naming_style@ == most_common_style(counted_styles(entries@)),
        r.doc_dir@ == documents_directory_for(r.naming_style@),
        r.index_file@ == crate::utils::index::DEFAULT_INDEX_FILE@,
{
    let naming_style = most_common_naming_style(entries);
    let documents_directory = documents_directory_for_style(naming_style.as_str());
    DocsIndex::new(documents_directory, naming_style)
}

} // verus!
