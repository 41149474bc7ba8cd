//! Patching a document with a single-file unified diff, through the `diffy`
//! crate.
use vstd::prelude::*;

use diffy::patch_set::{FileOperation, FilePatch, ParseOptions, PatchSet, PatchSetParseError};

use crate::document::service::metadata_check;
use crate::utils::error::{
    AppError, AppErrorView, decimal, decimal_string, detail, detail1, details_view, input_error,
    validation_error,
};
use crate::utils::index::document_metadata_from_content;
use crate::utils::text::{
    chars_of, has_prefix, owned, string_from_range, trim, trim_str,
};

verus! {

// ---------------------------------------------------------------------------
// The outside crate
// ---------------------------------------------------------------------------

#[verifier::external_type_specification]
#[verifier::external_body]
#[verifier::reject_recursive_types(T)]
pub struct ExFilePatch<'a, T: ToOwned + ?Sized>(FilePatch<'a, T>);

/// What `diffy::patch_set::PatchSet::parse` gives for a whole input, with the
/// git-diff options (`git`) or the unified-diff ones: the number of file
/// patches, or the text of the first error.
pub uninterp spec fn diffy_patch_set(input: Seq<char>, git: bool) -> Result<nat, Seq<char>>;

/// The operation of the file patch at `index` of that parse.
pub uninterp spec fn diffy_operation(input: Seq<char>, git: bool, index: nat) -> PatchOperationView;

/// Whether the file patch at `index` of that parse is a text patch.
pub uninterp spec fn diffy_is_text(input: Seq<char>, git: bool, index: nat) -> bool;

/// What `diffy::apply` gives for `original` and the text patch at `index`
/// of that parse: the patched text, or the text of its error.
pub uninterp spec fn diffy_apply(original: Seq<char>, input: Seq<char>, git: bool, index: nat) -> Result<
    Seq<char>,
    Seq<char>,
>;

/// The operation of a file patch: a modification of `original` into
/// `modified`, or any other operation by its debug text.
#[derive(Debug)]
pub enum PatchOperation {
    Modify { original: String, modified: String },
    Other(String),
}

pub enum PatchOperationView {
    Modify { original: Seq<char>, modified: Seq<char> },
    Other(Seq<char>),
}

impl View for PatchOperation {
    type V = PatchOperationView;

    open spec fn view(&self) -> PatchOperationView {
        match self {
            PatchOperation::Modify { original, modified } => PatchOperationView::Modify {
                original: original@,
                modified: modified@,
            },
            PatchOperation::Other(d) => PatchOperationView::Other(d@),
        }
    }
}

/// What applying a file patch gives: `None` for a patch that is not text,
/// else the patched text or the text of the error.
pub type AppliedPatch = Option<Result<String, String>>;

/// The outcome of parsing a patch set: its file patches, or the text of the
/// error.
pub type ParsedPatches<'a> = Result<Vec<ParsedFilePatch<'a>>, String>;

/// One file patch of a parsed input, with the input it was parsed from, the
/// options, and its place in the parse.
#[derive(Debug)]
pub struct ParsedFilePatch<'a> {
    patch: FilePatch<'a, str>,
    input: &'a str,
    git: bool,
    index: usize,
}

/// Calls `PatchSet::parse` with the git-diff options and collects the file
/// patches. The claim: the outcome is the function `diffy_patch_set` of the
/// input, each file patch remembers the input and its place, and an error is
/// handed on as its `Display` text.
#[verifier::external_body]
fn parse_gitdiff<'a>(input: &'a str) -> (r: ParsedPatches<'a>)
    ensures
        r is Ok <==> diffy_patch_set(input@, true) is Ok,
        r matches Err(t) ==> diffy_patch_set(input@, true)->Err_0 == t@,
        r matches Ok(v) ==> diffy_patch_set(input@, true)->Ok_0 == v@.len(),
        r matches Ok(v) ==> forall|i: int|
            0 <= i < v@.len() ==> (#[trigger] v@[i]).input@ == input@ && v@[i].git && v@[i].index
                == i,
{
    let parsed: Result<Vec<FilePatch<'a, str>>, PatchSetParseError> = PatchSet::parse(
        input,
        ParseOptions::gitdiff(),
    ).collect();
    match parsed {
        Ok(patches) => Ok(
            patches.into_iter().enumerate().map(
                |(index, patch)| ParsedFilePatch { patch, input, git: true, index },
            ).collect(),
        ),
        Err(error) => Err(error.to_string()),
    }
}

/// Calls `PatchSet::parse` with the unified-diff options and collects the
/// file patches; the claim is that of `parse_gitdiff`.
#[verifier::external_body]
fn parse_unidiff<'a>(input: &'a str) -> (r: ParsedPatches<'a>)
    ensures
        r is Ok <==> diffy_patch_set(input@, false) is Ok,
        r matches Err(t) ==> diffy_patch_set(input@, false)->Err_0 == t@,
        r matches Ok(v) ==> diffy_patch_set(input@, false)->Ok_0 == v@.len(),
        r matches Ok(v) ==> forall|i: int|
            0 <= i < v@.len() ==> (#[trigger] v@[i]).input@ == input@ && !v@[i].git
                && v@[i].index == i,
{
    let parsed: Result<Vec<FilePatch<'a, str>>, PatchSetParseError> = PatchSet::parse(
        input,
        ParseOptions::unidiff(),
    ).collect();
    match parsed {
        Ok(patches) => Ok(
            patches.into_iter().enumerate().map(
                |(index, patch)| ParsedFilePatch { patch, input, git: false, index },
            ).collect(),
        ),
        Err(error) => Err(error.to_string()),
    }
}

/// Calls `FilePatch::operation`. The claim: the operation is the function
/// `diffy_operation` of where the file patch came from; a modification keeps
/// its two paths, any other operation is given by its `Debug` text.
#[verifier::external_body]
fn file_patch_operation(p: &ParsedFilePatch) -> (r: PatchOperation)
    ensures
        r@ == diffy_operation(p.input@, p.git, p.index as nat),
{
    match p.patch.operation() {
        FileOperation::Modify { original, modified } => PatchOperation::Modify {
            original: original.to_string(),
            modified: modified.to_string(),
        },
        other => PatchOperation::Other(format!("{:?}", other)),
    }
}

/// Calls `PatchKind::as_text` on the file patch and `diffy::apply` with its
/// text patch. The claim: `None` exactly for a patch that is not text
/// (`diffy_is_text`), else the outcome of applying it (`diffy_apply`), an
/// error by its `Display` text.
#[verifier::external_body]
fn apply_file_patch(original: &str, p: &ParsedFilePatch) -> (r: AppliedPatch)
    ensures
        r is Some <==> diffy_is_text(p.input@, p.git, p.index as nat),
        r matches Some(Ok(s)) ==> diffy_apply(original@, p.input@, p.git, p.index as nat) is Ok
            && diffy_apply(original@, p.input@, p.git, p.index as nat)->Ok_0 == s@,
        r matches Some(Err(t)) ==> diffy_apply(original@, p.input@, p.git, p.index as nat) is Err
            && diffy_apply(original@, p.input@, p.git, p.index as nat)->Err_0 == t@,
{
    match p.patch.patch().as_text() {
        Some(text) => match diffy::apply(original, text) {
            Ok(patched) => Some(Ok(patched)),
            Err(error) => Some(Err(error.to_string())),
        },
        None => None,
    }
}

// ---------------------------------------------------------------------------
// The rules
// ---------------------------------------------------------------------------

pub open spec fn empty_patch_error() -> AppErrorView {
    input_error("empty_patch"@, "patch content must not be empty"@, Seq::empty())
}

pub open spec fn invalid_patch_error(gitdiff: Seq<char>, unidiff: Seq<char>) -> AppErrorView {
    input_error(
        "invalid_patch"@,
        "patch is not a valid unified diff"@,
        seq![("gitdiff_source"@, gitdiff), ("unidiff_source"@, unidiff)],
    )
}

/// The parse that is used: git-diff first, else unified diff; (git, number
/// of file patches).
pub open spec fn parsed_patch_set(input: Seq<char>) -> Result<(bool, nat), AppErrorView> {
    match diffy_patch_set(input, true) {
        Ok(n) => Ok((true, n)),
        Err(g) => match diffy_patch_set(input, false) {
            Ok(n) => Ok((false, n)),
            Err(u) => Err(invalid_patch_error(g, u)),
        },
    }
}

/// A path of a patch header without its `a/` or `b/` prefix.
pub open spec fn normalized_patch_path(path: Seq<char>) -> Seq<char> {
    if has_prefix(path, "a/"@) || has_prefix(path, "b/"@) {
        path.skip(2)
    } else {
        path
    }
}

/// The single file patch must modify the selected document, and both of its
/// paths must name it.
pub open spec fn patch_set_check(
    count: nat,
    operation: PatchOperationView,
    expected_path: Seq<char>,
) -> Result<(), AppErrorView> {
    if count != 1 {
        Err(
            input_error(
                "patch_must_target_single_document"@,
                "patch must contain exactly one file patch"@,
                seq![("patches"@, decimal(count))],
            ),
        )
    } else {
        match operation {
            PatchOperationView::Other(d) => Err(
                input_error(
                    "unsupported_patch_operation"@,
                    "patch must modify an existing document"@,
                    seq![("operation"@, d)],
                ),
            ),
            PatchOperationView::Modify { original, modified } => {
                let o = normalized_patch_path(original);
                let m = normalized_patch_path(modified);
                if o == expected_path && m == expected_path {
                    Ok(())
                } else {
                    Err(
                        input_error(
                            "patch_target_mismatch"@,
                            "patch must target the selected document"@,
                            seq![
                                ("actual_modified"@, m),
                                ("actual_original"@, o),
                                ("expected"@, expected_path),
                            ],
                        ),
                    )
                }
            },
        }
    }
}

/// What applying the text patch gives, or why it is refused.
pub open spec fn applied_check(applied: Option<Result<Seq<char>, Seq<char>>>, path: Seq<char>) -> Result<
    Seq<char>,
    AppErrorView,
> {
    match applied {
        None => Err(
            input_error(
                "unsupported_patch_kind"@,
                "patch must be a text unified diff"@,
                seq![("path"@, path)],
            ),
        ),
        Some(Err(t)) => Err(
            validation_error(
                "patch_apply_failed"@,
                "patch does not apply to current document"@,
                seq![("path"@, path), ("source"@, t)],
            ),
        ),
        Some(Ok(s)) => Ok(s),
    }
}

/// The document after the patch read from standard input, or the first
/// refusal: an empty input, a parse failure, the patch set, applying it, and
/// the metadata of the result.
pub open spec fn patched_outcome(original: Seq<char>, input: Seq<char>, path: Seq<char>) -> Result<
    Seq<char>,
    AppErrorView,
> {
    if trim(input).len() == 0 {
        Err(empty_patch_error())
    } else {
        match parsed_patch_set(input) {
            Err(e) => Err(e),
            Ok((git, count)) => match patch_set_check(
                count,
                diffy_operation(input, git, 0),
                path,
            ) {
                Err(e) => Err(e),
                Ok(_) => match applied_check(
                    if diffy_is_text(input, git, 0) {
                        Some(diffy_apply(original, input, git, 0))
                    } else {
                        None
                    },
                    path,
                ) {
                    Err(e) => Err(e),
                    Ok(s) => match metadata_check(path, s) {
                        Err(e) => Err(e),
                        Ok(_) => Ok(s),
                    },
                },
            },
        }
    }
}

/// `path` without its `a/` or `b/` prefix.
pub fn normalize_patch_path(path: &str) -> (r: String)
    ensures
        r@ == normalized_patch_path(path@),
{
    let v = chars_of(path);
    proof {
        reveal_strlit("a/");
        reveal_strlit("b/");
    }
    if v.len() >= 2 && v[1] == '/' && (v[0] == 'a' || v[0] == 'b') {
        assert(v@.take(2) =~= "a/"@ || v@.take(2) =~= "b/"@);
        string_from_range(&v, 2, v.len())
    } else {
        proof {
            if has_prefix(path@, "a/"@) {
                assert(v@.take(2)[0] == 'a' && v@.take(2)[1] == '/');
            }
            if has_prefix(path@, "b/"@) {
                assert(v@.take(2)[0] == 'b' && v@.take(2)[1] == '/');
            }
        }
        owned(path)
    }
}

fn patch_count_error(count: usize) -> (r: AppError)
    ensures
        r@ == input_error(
            "patch_must_target_single_document"@,
            "patch must contain exactly one file patch"@,
            seq![("patches"@, decimal(count as nat))],
        ),
{
    let n = decimal_string(count);
    AppError::input_with_details(
        "patch_must_target_single_document",
        "patch must contain exactly one file patch",
        detail1("patches", n.as_str()),
    )
}

/// Checks a parsed patch set against the selected document: one file patch,
/// a modification, of that document.
pub fn check_patch_set(count: usize, operation: &PatchOperation, expected_path: &str) -> (r:
    Result<(), AppError>)
    ensures
        r is Ok <==> patch_set_check(count as nat, operation@, expected_path@) is Ok,
        r matches Err(e) ==> patch_set_check(count as nat, operation@, expected_path@) == Err::<
            (),
            AppErrorView,
        >(e@),
{
    if count != 1 {
        return Err(patch_count_error(count));
    }
    match operation {
        PatchOperation::Other(d) => Err(
            AppError::input_with_details(
                "unsupported_patch_operation",
                "patch must modify an existing document",
                detail1("operation", d.as_str()),
            ),
        ),
        PatchOperation::Modify { original, modified } => {
            let o = normalize_patch_path(original.as_str());
            let m = normalize_patch_path(modified.as_str());
            if crate::utils::text::str_eq(o.as_str(), expected_path) && crate::utils::text::str_eq(
                m.as_str(),
                expected_path,
            ) {
                return Ok(());
            }
            let mut d = Vec::new();
            d.push(detail("actual_modified", m.as_str()));
            d.push(detail("actual_original", o.as_str()));
            d.push(detail("expected", expected_path));
            assert(details_view(d@) =~= seq![
                ("actual_modified"@, m@),
                ("actual_original"@, o@),
                ("expected"@, expected_path@),
            ]);
            Err(
                AppError::input_with_details(
                    "patch_target_mismatch",
                    "patch must target the selected document",
                    d,
                ),
            )
        },
    }
}

pub open spec fn applied_view(applied: Option<Result<String, String>>) -> Option<
    Result<Seq<char>, Seq<char>>,
> {
    match applied {
        None => None,
        Some(Ok(s)) => Some(Ok(s@)),
        Some(Err(t)) => Some(Err(t@)),
    }
}

/// The document after applying the text patch, given what applying it gave
/// (`None` for a patch that is not text).
pub fn applied_document(applied: Option<Result<String, String>>, path: &str) -> (r: Result<
    String,
    AppError,
>)
    ensures
        r is Ok <==> applied_check(applied_view(applied), path@) is Ok,
        r matches Ok(s) ==> applied_check(applied_view(applied), path@) == Ok::<
            Seq<char>,
            AppErrorView,
        >(s@),
        r matches Err(e) ==> applied_check(applied_view(applied), path@) == Err::<
            Seq<char>,
            AppErrorView,
        >(e@),
{
    match applied {
        None => Err(
            AppError::input_with_details(
                "unsupported_patch_kind",
                "patch must be a text unified diff",
                detail1("path", path),
            ),
        ),
        Some(Err(t)) => {
            let mut d = Vec::new();
            d.push(detail("path", path));
            d.push(detail("source", t.as_str()));
            assert(details_view(d@) =~= seq![("path"@, path@), ("source"@, t@)]);
            Err(
                AppError::validation(
                    "patch_apply_failed",
                    "patch does not apply to current document",
                    d,
                ),
            )
        },
        Some(Ok(s)) => Ok(s),
    }
}

fn parse_patch_set<'a>(input: &'a str) -> (r: Result<Vec<ParsedFilePatch<'a>>, AppError>)
    ensures
        r is Ok <==> parsed_patch_set(input@) is Ok,
        r matches Err(e) ==> parsed_patch_set(input@) == Err::<(bool, nat), AppErrorView>(e@),
        r matches Ok(v) ==> parsed_patch_set(input@)->Ok_0.1 == v@.len(),
        r matches Ok(v) ==> forall|i: int|
            0 <= i < v@.len() ==> (#[trigger] v@[i]).input@ == input@ && v@[i].index == i
                && v@[i].git == parsed_patch_set(input@)->Ok_0.0,
{
    let git_error = match parse_gitdiff(input) {
        Ok(patches) => return Ok(patches),
        Err(error) => error,
    };
    match parse_unidiff(input) {
        Ok(patches) => Ok(patches),
        Err(unidiff_error) => {
            let mut d = Vec::new();
            d.push(detail("gitdiff_source", git_error.as_str()));
            d.push(detail("unidiff_source", unidiff_error.as_str()));
            assert(details_view(d@) =~= seq![
                ("gitdiff_source"@, git_error@),
                ("unidiff_source"@, unidiff_error@),
            ]);
            Err(
                AppError::input_with_details(
                    "invalid_patch",
                    "patch is not a valid unified diff",
                    d,
                ),
            )
        },
    }
}

/// The document at `relative_path` after the patch `patch_input`: the input
/// must not be blank, must parse as a single-file patch of that document, and
/// must apply; the result must keep the document metadata.
pub fn patched_document(original: &str, patch_input: &str, relative_path: &str) -> (r: Result<
    String,
    AppError,
>)
    ensures
        r is Ok <==> patched_outcome(original@, patch_input@, relative_path@) is Ok,
        r matches Ok(s) ==> patched_outcome(original@, patch_input@, relative_path@) == Ok::<
            Seq<char>,
            AppErrorView,
        >(s@),
        r matches Err(e) ==> patched_outcome(original@, patch_input@, relative_path@) == Err::<
            Seq<char>,
            AppErrorView,
        >(e@),
{
    let trimmed = trim_str(patch_input);
    if trimmed.as_str().unicode_len() == 0 {
        return Err(AppError::input("empty_patch", "patch content must not be empty"));
    }
    let patches = match parse_patch_set(patch_input) {
        Ok(p) => p,
        Err(e) => return Err(e),
    };
    if patches.len() != 1 {
        return Err(patch_count_error(patches.len()));
    }
    let file_patch = &patches[0];
    let operation = file_patch_operation(file_patch);
    match check_patch_set(1, &operation, relative_path) {
        Ok(()) => {},
        Err(e) => return Err(e),
    }
    let applied = apply_file_patch(original, file_patch);
    let patched = match applied_document(applied, relative_path) {
        Ok(s) => s,
        Err(e) => return Err(e),
    };
    match document_metadata_from_content(relative_path, patched.as_str()) {
        Ok(_) => Ok(patched),
        Err(e) => Err(e),
    }
}

} // verus!
