//! Names of namespaces and documents, the paths built from them, and the
//! components of slash-separated paths.
use vstd::prelude::*;

use crate::utils::error::{AppError, AppErrorView, detail, details_view, input_error};
use crate::utils::pattern::{
    DocumentRegex, known_match, known_pattern, regex_compile_error, regex_compiles, regex_is_match,
    regex_new,
};
use crate::utils::text::{
    chars_of, concat2, concat3, contains_char, has_suffix, join, join_strings,
    lemma_split_on_nonempty, owned, split_chars, split_on, str_eq, string_from_chars,
    string_from_range, views,
};

verus! {

#[derive(Debug)]
pub struct DocumentPath {
    pub documents_directory_name: String,
    pub namespace: String,
    pub document_stem: String,
    pub file_name: String,
    pub relative_path: String,
}

// ---------------------------------------------------------------------------
// Joining paths
// ---------------------------------------------------------------------------

/// `PathBuf::push` on a Unix path: an absolute `rel` replaces `base`;
/// otherwise a separator is put between them unless `base` is empty or already
/// ends with one.
pub open spec fn path_join(base: Seq<char>, rel: Seq<char>) -> Seq<char> {
    if rel.len() > 0 && rel[0] == '/' {
        rel
    } else if base.len() == 0 {
        rel
    } else if base.last() == '/' {
        base + rel
    } else {
        base + seq!['/'] + rel
    }
}

pub fn join_path(base: &str, rel: &str) -> (r: String)
    ensures
        r@ == path_join(base@, rel@),
{
    let b = chars_of(base);
    let r = chars_of(rel);
    if r.len() > 0 && r[0] == '/' {
        owned(rel)
    } else if b.len() == 0 {
        owned(rel)
    } else if b[b.len() - 1] == '/' {
        concat2(base, rel)
    } else {
        let out = concat3(base, "/", rel);
        proof {
            reveal_strlit("/");
            assert("/"@ =~= seq!['/']);
        }
        out
    }
}

impl DocumentPath {
    /// The path of the document relative to the repository root, built
    /// component by component.
    pub open spec fn path_spec(&self) -> Seq<char> {
        if self.namespace@.len() == 0 {
            path_join(self.documents_directory_name@, self.file_name@)
        } else {
            path_join(
                path_join(self.documents_directory_name@, self.namespace@),
                self.file_name@,
            )
        }
    }

    pub fn to_path_buf(&self) -> (r: String)
        ensures
            r@ == self.path_spec(),
    {
        let mut path = owned(self.documents_directory_name.as_str());
        if self.namespace.as_str().unicode_len() != 0 {
            path = join_path(path.as_str(), self.namespace.as_str());
        }
        join_path(path.as_str(), self.file_name.as_str())
    }
}

// ---------------------------------------------------------------------------
// Namespace and document names
// ---------------------------------------------------------------------------

/// Why a namespace name is refused, if it is.
pub open spec fn namespace_problem(ns: Seq<char>) -> Option<Seq<char>> {
    if ns.len() == 0 {
        Some("namespace must not be empty"@)
    } else if ns == "."@ || ns == ".."@ {
        Some("namespace must not be a relative path segment"@)
    } else if ns[0] == '.' {
        Some("namespace must not start with a dot"@)
    } else if ns.contains('/') || ns.contains('\\') {
        Some("namespace must be a single path segment"@)
    } else if ns[0] == '/' {
        Some("namespace must not be an absolute path"@)
    } else {
        None
    }
}

/// A namespace name is accepted exactly when it is one normal path segment:
/// not empty, no separator, no leading dot.
pub proof fn lemma_namespace_accepted(ns: Seq<char>)
    ensures
        namespace_problem(ns) is None <==> (ns.len() > 0 && ns[0] != '.' && !ns.contains('/')
            && !ns.contains('\\')),
{
    reveal_strlit(".");
    reveal_strlit("..");
    if ns == "."@ || ns == ".."@ {
        assert(ns[0] == '.');
    }
}

fn invalid_namespace(namespace: &str, message: &str) -> (r: AppError)
    ensures
        r@ == input_error("invalid_namespace"@, message@, seq![("namespace"@, namespace@)]),
{
    let mut d = Vec::new();
    d.push(detail("namespace", namespace));
    assert(details_view(d@) =~= seq![("namespace"@, namespace@)]);
    AppError::input_with_details("invalid_namespace", message, d)
}

pub fn validate_namespace(namespace: &str) -> (r: Result<(), AppError>)
    ensures
        r is Ok <==> namespace_problem(namespace@) is None,
        r matches Err(e) ==> e@ == input_error(
            "invalid_namespace"@,
            namespace_problem(namespace@)->0,
            seq![("namespace"@, namespace@)],
        ),
{
    let v = chars_of(namespace);
    if v.len() == 0 {
        return Err(invalid_namespace(namespace, "namespace must not be empty"));
    }
    if str_eq(namespace, ".") || str_eq(namespace, "..") {
        return Err(invalid_namespace(namespace, "namespace must not be a relative path segment"));
    }
    if v[0] == '.' {
        return Err(invalid_namespace(namespace, "namespace must not start with a dot"));
    }
    if contains_char(&v, '/') || contains_char(&v, '\\') {
        return Err(invalid_namespace(namespace, "namespace must be a single path segment"));
    }
    if v[0] == '/' {
        return Err(invalid_namespace(namespace, "namespace must not be an absolute path"));
    }
    Ok(())
}

/// The outcome of `validate_namespace`.
pub open spec fn namespace_check(ns: Seq<char>) -> Result<(), AppErrorView> {
    match namespace_problem(ns) {
        None => Ok(()),
        Some(message) => Err(input_error("invalid_namespace"@, message, seq![("namespace"@, ns)])),
    }
}

/// `input` without one trailing `.md`.
pub open spec fn stem_of(input: Seq<char>) -> Seq<char> {
    if has_suffix(input, ".md"@) {
        input.take(input.len() - 3)
    } else {
        input
    }
}

/// Why a document name is refused, if it is.
pub open spec fn document_problem(input: Seq<char>) -> Option<Seq<char>> {
    let stem = stem_of(input);
    if input.len() == 0 {
        Some("document must not be empty"@)
    } else if input == "."@ || input == ".."@ {
        Some("document must not be a relative path segment"@)
    } else if input[0] == '.' {
        Some("document must not start with a dot"@)
    } else if input.contains('/') || input.contains('\\') {
        Some("document must be a single path segment"@)
    } else if input[0] == '/' {
        Some("document must not be an absolute path"@)
    } else if stem.len() == 0 {
        Some("document stem must not be empty"@)
    } else if stem == "."@ || stem == ".."@ || stem[0] == '.' {
        Some("document stem must be a normal file name"@)
    } else {
        None
    }
}

fn invalid_document(document: &str, message: &str) -> (r: AppError)
    ensures
        r@ == input_error("invalid_document_name"@, message@, seq![("document"@, document@)]),
{
    let mut d = Vec::new();
    d.push(detail("document", document));
    assert(details_view(d@) =~= seq![("document"@, document@)]);
    AppError::input_with_details("invalid_document_name", message, d)
}

/// Accepts a document name with or without `.md` and returns its stem.
pub fn normalize_document_name(input: &str) -> (r: Result<String, AppError>)
    ensures
        r is Ok <==> document_problem(input@) is None,
        r matches Ok(stem) ==> stem@ == stem_of(input@),
        r matches Err(e) ==> e@ == input_error(
            "invalid_document_name"@,
            document_problem(input@)->0,
            seq![("document"@, input@)],
        ),
{
    let v = chars_of(input);
    if v.len() == 0 {
        return Err(invalid_document(input, "document must not be empty"));
    }
    if str_eq(input, ".") || str_eq(input, "..") {
        return Err(invalid_document(input, "document must not be a relative path segment"));
    }
    if v[0] == '.' {
        return Err(invalid_document(input, "document must not start with a dot"));
    }
    if contains_char(&v, '/') || contains_char(&v, '\\') {
        return Err(invalid_document(input, "document must be a single path segment"));
    }
    if v[0] == '/' {
        return Err(invalid_document(input, "document must not be an absolute path"));
    }
    let suffix = chars_of(".md");
    proof {
        reveal_strlit(".md");
    }
    let stem = if crate::utils::text::ends_with_chars(&v, &suffix) {
        string_from_range(&v, 0, v.len() - 3)
    } else {
        string_from_chars(&v)
    };
    proof {
        if has_suffix(input@, ".md"@) {
            assert(v@.subrange(0, v@.len() - 3) =~= input@.take(input@.len() - 3));
        }
    }
    let sv = chars_of(stem.as_str());
    if sv.len() == 0 {
        return Err(invalid_document(input, "document stem must not be empty"));
    }
    if str_eq(stem.as_str(), ".") || str_eq(stem.as_str(), "..") || sv[0] == '.' {
        return Err(invalid_document(input, "document stem must be a normal file name"));
    }
    Ok(stem)
}

/// The outcome of `normalize_document_name`.
pub open spec fn document_check(input: Seq<char>) -> Result<Seq<char>, AppErrorView> {
    match document_problem(input) {
        None => Ok(stem_of(input)),
        Some(message) => Err(
            input_error("invalid_document_name"@, message, seq![("document"@, input)]),
        ),
    }
}

/// The relative path of a document: the documents directory, the namespace
/// when there is one, and `<stem>.md`, joined by `/`.
pub open spec fn document_relative_path(
    dir: Seq<char>,
    namespace: Seq<char>,
    stem: Seq<char>,
) -> Seq<char> {
    if namespace.len() == 0 {
        dir + "/"@ + stem + ".md"@
    } else {
        dir + "/"@ + namespace + "/"@ + stem + ".md"@
    }
}

pub fn build_document_path(
    documents_directory_name: &str,
    namespace: &str,
    document_stem: &str,
) -> (r: DocumentPath)
    ensures
        r.documents_directory_name@ == documents_directory_name@,
        r.namespace@ == namespace@,
        r.document_stem@ == document_stem@,
        r.file_name@ == document_stem@ + ".md"@,
        r.relative_path@ == document_relative_path(
            documents_directory_name@,
            namespace@,
            document_stem@,
        ),
{
    let file_name = concat2(document_stem, ".md");
    let relative_path = if namespace.unicode_len() == 0 {
        concat3(documents_directory_name, "/", file_name.as_str())
    } else {
        let head = concat3(documents_directory_name, "/", namespace);
        concat3(head.as_str(), "/", file_name.as_str())
    };
    DocumentPath {
        documents_directory_name: owned(documents_directory_name),
        namespace: owned(namespace),
        document_stem: owned(document_stem),
        file_name,
        relative_path,
    }
}

/// Splitting `a`, a separator and `b` splits `a` and `b` apart.
proof fn lemma_split_on_sep(a: Seq<char>, b: Seq<char>, c: char)
    ensures
        split_on(a + seq![c] + b, c) == split_on(a, c) + split_on(b, c),
    decreases a.len(),
{
    let s = a + seq![c] + b;
    if a.len() == 0 {
        assert(s.drop_first() =~= b);
        assert(s[0] == c);
        assert(split_on(a, c) == seq![Seq::<char>::empty()]);
    } else {
        let a1 = a.drop_first();
        lemma_split_on_sep(a1, b, c);
        lemma_split_on_nonempty(a1, c);
        assert(s.drop_first() =~= a1 + seq![c] + b);
        assert(s[0] == a[0]);
        let ra = split_on(a1, c);
        let rb = split_on(b, c);
        if a[0] == c {
            assert(seq![Seq::<char>::empty()] + (ra + rb) =~= (seq![Seq::<char>::empty()] + ra) + rb);
        } else {
            assert((ra + rb).update(0, seq![a[0]] + (ra + rb)[0]) =~= ra.update(
                0,
                seq![a[0]] + ra[0],
            ) + rb);
        }
    }
}

/// A doubled separator after `e` adds only an empty segment, which no
/// component keeps.
#[verifier::spinoff_prover]
proof fn lemma_doubled_separator(e: Seq<char>, x: Seq<char>)
    ensures
        path_components(e + seq!['/'] + (seq!['/'] + x)) == path_components(e + seq!['/'] + x),
{
    reveal_strlit(".");
    let empty = Seq::<char>::empty();
    let long = e + seq!['/'] + (seq!['/'] + x);
    let short = e + seq!['/'] + x;
    lemma_split_on_sep(e, seq!['/'] + x, '/');
    lemma_split_on_sep(e, x, '/');
    lemma_split_on_sep(empty, x, '/');
    assert(empty + seq!['/'] + x =~= seq!['/'] + x);
    assert(split_on(empty, '/') == seq![empty]);
    lemma_split_on_nonempty(e, '/');
    let se = split_on(e, '/');
    let sx = split_on(x, '/');
    let pred = normal_segment_pred();
    assert(split_on(long, '/') == se + (seq![empty] + sx));
    assert(split_on(short, '/') == se + sx);
    Seq::filter_distributes_over_add(se, seq![empty] + sx, pred);
    Seq::filter_distributes_over_add(seq![empty], sx, pred);
    Seq::filter_distributes_over_add(se, sx, pred);
    reveal(Seq::filter);
    assert(seq![empty].drop_last() =~= Seq::<Seq<char>>::empty());
    assert(seq![empty].last() == empty);
    assert(!pred(empty));
    assert(Seq::<Seq<char>>::empty().filter(pred) =~= Seq::<Seq<char>>::empty());
    assert(seq![empty].filter(pred) =~= Seq::<Seq<char>>::empty());
    assert(Seq::<Seq<char>>::empty() + sx.filter(pred) =~= sx.filter(pred));
    assert((se + (seq![empty] + sx))[0] == se[0]);
    assert((se + sx)[0] == se[0]);
    assert(long.len() > 0 && short.len() > 0);
    assert(long[0] == short[0]) by {
        if e.len() > 0 {
            assert(long[0] == e[0] && short[0] == e[0]);
        } else {
            assert(long[0] == '/' && short[0] == '/');
        }
    }
}

/// A document path joined part by part (`to_path_buf`) names the same path
/// as its relative path: the two have the same components, whenever the
/// documents directory is not empty and neither the namespace nor the stem
/// holds a separator. Without a trailing separator on the documents
/// directory the two are even the same text.
pub proof fn lemma_document_path_parts(p: DocumentPath)
    requires
        p.documents_directory_name@.len() > 0,
        !p.namespace@.contains('/'),
        !p.document_stem@.contains('/'),
        p.file_name@ == p.document_stem@ + ".md"@,
        p.relative_path@ == document_relative_path(
            p.documents_directory_name@,
            p.namespace@,
            p.document_stem@,
        ),
    ensures
        path_components(p.path_spec()) == path_components(p.relative_path@),
        p.documents_directory_name@.last() != '/' ==> p.path_spec() == p.relative_path@,
{
    reveal_strlit(".md");
    reveal_strlit("/");
    let d = p.documents_directory_name@;
    let n = p.namespace@;
    let st = p.document_stem@;
    let f = st + ".md"@;
    assert(f.len() > 0 && f[0] != '/') by {
        if st.len() > 0 {
            assert(f[0] == st[0]);
            assert(st.contains(st[0]));
        } else {
            assert(f[0] == '.');
        }
    }
    assert("/"@ =~= seq!['/']);
    let x = if n.len() == 0 {
        f
    } else {
        n + seq!['/'] + f
    };
    assert(p.relative_path@ =~= d + seq!['/'] + x);
    if n.len() > 0 {
        assert(n[0] != '/') by {
            assert(n.contains(n[0]));
        }
        assert(n.last() != '/') by {
            assert(n.contains(n[n.len() - 1]));
        }
    }
    if d.last() != '/' {
        if n.len() == 0 {
            assert(path_join(d, f) =~= d + seq!['/'] + x);
        } else {
            let h = path_join(d, n);
            assert(h =~= d + seq!['/'] + n);
            assert(h.last() == n.last());
            assert(path_join(h, f) =~= d + seq!['/'] + x);
        }
    } else {
        let e = d.drop_last();
        assert(d =~= e + seq!['/']);
        if n.len() == 0 {
            assert(path_join(d, f) =~= e + seq!['/'] + x);
        } else {
            let h = path_join(d, n);
            assert(h =~= d + n);
            assert(h.last() == n.last());
            assert(path_join(h, f) =~= e + seq!['/'] + x);
        }
        assert(p.relative_path@ =~= e + seq!['/'] + (seq!['/'] + x));
        lemma_doubled_separator(e, x);
    }
}

/// A stem accepted by `normalize_document_name` comes back unchanged from the
/// file name that `build_document_path` gives it.
pub proof fn lemma_file_name_round_trip(dir: Seq<char>, namespace: Seq<char>, stem: Seq<char>)
    requires
        document_problem(stem) is None,
        stem_of(stem) == stem,
    ensures
        document_problem(stem + ".md"@) is None,
        stem_of(stem + ".md"@) == stem,
{
    reveal_strlit(".md");
    reveal_strlit(".");
    reveal_strlit("..");
    let f = stem + ".md"@;
    assert(has_suffix(f, ".md"@)) by {
        assert(f.skip(f.len() - 3) =~= ".md"@);
    }
    assert(f.take(f.len() - 3) =~= stem);
    assert(f[0] == stem[0]);
    assert(f != "."@ && f != ".."@) by {
        if f == "."@ || f == ".."@ {
            assert(f.len() <= 2);
        }
    }
    assert forall|c: char| f.contains(c) && (c == '/' || c == '\\') implies stem.contains(c) by {
        let k = choose|k: int| 0 <= k < f.len() && f[k] == c;
        if k >= stem.len() {
            assert(f[k] == ".md"@[k - stem.len()]);
        } else {
            assert(f[k] == stem[k]);
        }
    }
}

// ---------------------------------------------------------------------------
// Document name patterns
// ---------------------------------------------------------------------------

/// The pattern matched against a whole name: `^(?:<pattern>)$`.
pub open spec fn anchored(pattern: Seq<char>) -> Seq<char> {
    "^(?:"@ + pattern + ")$"@
}

/// The refusal of a pattern that does not compile, with the text of the
/// regex error.
pub open spec fn invalid_regex_error(pattern: Seq<char>, source: Seq<char>) -> AppErrorView {
    input_error(
        "invalid_document_name_regex"@,
        "document_name_regex is not a valid regex"@,
        seq![("document_name_regex"@, pattern), ("source"@, source)],
    )
}

/// The outcome of compiling `pattern` anchored at both ends.
pub open spec fn compiled_pattern(pattern: Seq<char>) -> Result<Seq<char>, AppErrorView> {
    match regex_compile_error(anchored(pattern)) {
        None => Ok(anchored(pattern)),
        Some(source) => Err(invalid_regex_error(pattern, source)),
    }
}

pub proof fn lemma_compiled_pattern(pattern: Seq<char>)
    ensures
        compiled_pattern(pattern) is Ok <==> regex_compiles(anchored(pattern)),
{
}

pub fn compile_document_regex(pattern: &str) -> (r: Result<DocumentRegex, AppError>)
    ensures
        r is Ok <==> regex_compiles(anchored(pattern@)),
        r matches Ok(re) ==> re.source() == anchored(pattern@),
        r matches Err(e) ==> compiled_pattern(pattern@) == Err::<Seq<char>, AppErrorView>(e@),
        known_pattern(anchored(pattern@)) ==> r is Ok,
        r matches Ok(re) ==> (known_pattern(anchored(pattern@)) ==> forall|t: Seq<char>|
            #[trigger] regex_is_match(anchored(pattern@), t) == known_match(anchored(pattern@), t)),
{
    let full = concat3("^(?:", pattern, ")$");
    match regex_new(full.as_str()) {
        Ok(re) => Ok(re),
        Err(source) => {
            let mut d = Vec::new();
            d.push(detail("document_name_regex", pattern));
            d.push(detail("source", source.as_str()));
            assert(details_view(d@) =~= seq![
                ("document_name_regex"@, pattern@),
                ("source"@, source@),
            ]);
            Err(
                AppError::input_with_details(
                    "invalid_document_name_regex",
                    "document_name_regex is not a valid regex",
                    d,
                ),
            )
        },
    }
}

// ---------------------------------------------------------------------------
// Path components (Unix rules of `std::path::Path::components`)
// ---------------------------------------------------------------------------

pub open spec fn is_normal_segment(s: Seq<char>) -> bool {
    s.len() > 0 && s != "."@
}

/// The components of a path as `Path::iter` yields them: `/` for a root, `.`
/// only at the very start of a relative path, and every other non-empty
/// segment that is not `.`; repeated and trailing separators vanish.
pub open spec fn path_components(p: Seq<char>) -> Seq<Seq<char>> {
    let segs = split_on(p, '/');
    let rooted = p.len() > 0 && p[0] == '/';
    let cur = !rooted && segs[0] == "."@;
    (if rooted {
        seq!["/"@]
    } else {
        Seq::empty()
    }) + (if cur {
        seq!["."@]
    } else {
        Seq::empty()
    }) + segs.filter(normal_segment_pred())
}

pub open spec fn normal_segment_pred() -> spec_fn(Seq<char>) -> bool {
    |s: Seq<char>| is_normal_segment(s)
}

/// `path` relative to `root`, as `strip_prefix(root).unwrap_or(path)` and
/// then its components joined by `/`.
pub open spec fn relative_display(root: Seq<char>, path: Seq<char>) -> Seq<char> {
    let rc = path_components(root);
    let pc = path_components(path);
    if rc.len() <= pc.len() && pc.take(rc.len() as int) == rc {
        join(pc.skip(rc.len() as int), "/"@)
    } else {
        join(pc, "/"@)
    }
}

fn is_normal_segment_exec(s: &Vec<char>) -> (r: bool)
    ensures
        r == is_normal_segment(s@),
{
    let t = string_from_chars(s);
    proof {
        reveal_strlit(".");
    }
    s.len() > 0 && !str_eq(t.as_str(), ".")
}

/// The components of a path.
pub fn path_components_of(p: &str) -> (r: Vec<String>)
    ensures
        views(r@) == path_components(p@),
{
    let v = chars_of(p);
    let segs = split_chars(&v, '/');
    proof {
        lemma_split_on_nonempty(p@, '/');
        reveal_strlit("/");
        reveal_strlit(".");
    }
    let ghost sv = split_on(p@, '/');
    let rooted = v.len() > 0 && v[0] == '/';
    let mut out: Vec<String> = Vec::new();
    let ghost head: Seq<Seq<char>> = Seq::empty();
    if rooted {
        out.push(owned("/"));
        proof {
            head = seq!["/"@];
        }
    } else if segs[0].len() == 1 && segs[0][0] == '.' {
        out.push(owned("."));
        proof {
            head = seq!["."@];
            assert(sv[0] =~= "."@);
        }
    }
    proof {
        if !rooted && !(segs@[0]@.len() == 1 && segs@[0]@[0] == '.') {
            assert(sv[0] != "."@);
        }
        assert(views(out@) =~= head);
    }
    let ghost pred = normal_segment_pred();
    let mut i: usize = 0;
    assert(sv.take(0).filter(pred) =~= Seq::<Seq<char>>::empty());
    while i < segs.len()
        invariant
            i <= segs@.len() == sv.len(),
            pred == normal_segment_pred(),
            forall|k: int| 0 <= k < segs@.len() ==> #[trigger] segs@[k]@ == sv[k],
            views(out@) == head + sv.take(i as int).filter(pred),
        decreases segs.len() - i,
    {
        proof {
            assert(sv.take(i + 1) =~= sv.take(i as int).push(sv[i as int]));
            sv.take(i as int).lemma_filter_push(sv[i as int], pred);
        }
        let ghost f0 = sv.take(i as int).filter(pred);
        if is_normal_segment_exec(&segs[i]) {
            let ghost before = out@;
            out.push(string_from_chars(&segs[i]));
            proof {
                assert(pred(sv[i as int]));
                assert(sv.take(i + 1).filter(pred) == f0.push(sv[i as int]));
                assert(views(out@) =~= views(before).push(sv[i as int]));
                assert(views(out@) =~= head + f0.push(sv[i as int]));
            }
        } else {
            proof {
                assert(!pred(sv[i as int]));
                assert(sv.take(i + 1).filter(pred) == f0);
            }
        }
        i = i + 1;
    }
    proof {
        assert(sv.take(sv.len() as int) =~= sv);
    }
    out
}

fn components_prefix(rc: &Vec<String>, pc: &Vec<String>) -> (r: bool)
    ensures
        r == (rc@.len() <= pc@.len() && views(pc@).take(rc@.len() as int) == views(rc@)),
{
    if rc.len() > pc.len() {
        return false;
    }
    let mut i: usize = 0;
    while i < rc.len()
        invariant
            i <= rc@.len() <= pc@.len(),
            forall|k: int| 0 <= k < i ==> rc@[k]@ == pc@[k]@,
        decreases rc.len() - i,
    {
        if !str_eq(rc[i].as_str(), pc[i].as_str()) {
            assert(views(pc@).take(rc@.len() as int)[i as int] != views(rc@)[i as int]);
            return false;
        }
        i = i + 1;
    }
    assert(views(pc@).take(rc@.len() as int) =~= views(rc@));
    true
}

/// `path.strip_prefix(root).unwrap_or(path)` with its components joined by `/`.
pub fn relative_path_from_root(root: &str, path: &str) -> (r: String)
    ensures
        r@ == relative_display(root@, path@),
{
    let rc = path_components_of(root);
    let pc = path_components_of(path);
    if components_prefix(&rc, &pc) {
        let mut rest: Vec<String> = Vec::new();
        let mut i: usize = rc.len();
        while i < pc.len()
            invariant
                rc@.len() <= i <= pc@.len(),
                views(rest@) == views(pc@).subrange(rc@.len() as int, i as int),
            decreases pc.len() - i,
        {
            let ghost before = rest@;
            rest.push(pc[i].clone());
            proof {
                assert(views(rest@) =~= views(before).push(pc@[i as int]@));
                assert(views(pc@).subrange(rc@.len() as int, i + 1) =~= views(pc@).subrange(
                    rc@.len() as int,
                    i as int,
                ).push(pc@[i as int]@));
            }
            i = i + 1;
        }
        proof {
            assert(views(pc@).subrange(rc@.len() as int, pc@.len() as int) =~= views(pc@).skip(
                rc@.len() as int,
            ));
            reveal_strlit("/");
        }
        join_strings(&rest, "/")
    } else {
        join_strings(&pc, "/")
    }
}

} // verus!
