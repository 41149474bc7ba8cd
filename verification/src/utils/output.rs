//! The text that a command writes to standard output, on success and on
//! failure.
use vstd::prelude::*;

use crate::utils::error::{AppError, AppErrorView, decimal, decimal_string, details_view};
use crate::utils::text::{append_str, concat2, concat3, join, join_strings, owned, views};
use crate::utils::workspace::{InitOutput, WorkspaceRule, WorkspaceRules};

verus! {

/// What a command that succeeded reports.
#[derive(Debug)]
pub enum CommandOutput {
    RawText(String),
    WorkspaceInit(InitOutput),
    WorkspaceRules(WorkspaceRules),
    Namespaces(Vec<NamespaceRow>),
    NamespaceDocuments(Vec<NamespaceDocuments>),
    Documents(Vec<DocumentRow>),
    Fix(Vec<FixRow>),
    Path(String),
    NamespaceName(String),
    Tree(String),
    CheckOk,
}

#[derive(Debug)]
pub struct NamespaceRow {
    pub namespace: String,
    pub path: String,
}

#[derive(Debug)]
pub struct DocumentRow {
    pub document: String,
    pub path: String,
}

#[derive(Debug)]
pub struct NamespaceDocuments {
    pub namespace: String,
    pub documents: Vec<DocumentRow>,
}

#[derive(Debug)]
pub struct FixRow {
    pub old_path: String,
    pub new_path: String,
}

// ---------------------------------------------------------------------------
// The text, stated
// ---------------------------------------------------------------------------

/// Lines each followed by a newline; nothing for no lines.
pub open spec fn lines_text(lines: Seq<Seq<char>>) -> Seq<char> {
    if lines.len() == 0 {
        Seq::empty()
    } else {
        join(lines, "\n"@) + "\n"@
    }
}

pub open spec fn namespace_row_lines(rows: Seq<NamespaceRow>) -> Seq<Seq<char>> {
    Seq::new(rows.len(), |k: int| rows[k].namespace@ + " "@ + rows[k].path@)
}

pub open spec fn document_row_lines(rows: Seq<DocumentRow>) -> Seq<Seq<char>> {
    Seq::new(rows.len(), |k: int| rows[k].document@ + " "@ + rows[k].path@)
}

pub open spec fn fix_row_lines(rows: Seq<FixRow>) -> Seq<Seq<char>> {
    Seq::new(rows.len(), |k: int| rows[k].old_path@ + " -> "@ + rows[k].new_path@)
}

/// Each namespace followed by its documents, indented.
pub open spec fn namespace_document_lines(namespaces: Seq<NamespaceDocuments>) -> Seq<Seq<char>>
    decreases namespaces.len(),
{
    if namespaces.len() == 0 {
        Seq::empty()
    } else {
        let n = namespaces.last();
        namespace_document_lines(namespaces.drop_last()) + seq![n.namespace@ + "/"@]
            + Seq::new(
            n.documents@.len(),
            |k: int| "  "@ + n.documents@[k].document@ + " "@ + n.documents@[k].path@,
        )
    }
}

pub open spec fn rules_text(rules: Seq<WorkspaceRule>) -> Seq<char>
    decreases rules.len(),
{
    if rules.len() == 0 {
        Seq::empty()
    } else {
        let k = decimal((rules.len() - 1) as nat);
        rules_text(rules.drop_last()) + "rules["@ + k + "].content "@ + rules.last().content@
            + "\n"@ + "rules["@ + k + "].path "@ + rules.last().path@ + "\n"@
    }
}

pub open spec fn workspace_rules_text(r: WorkspaceRules) -> Seq<char> {
    "agents_file "@ + r.agents_file@ + "\n"@ + "documents_directory "@ + r.documents_directory@
        + "\n"@ + "index_file "@ + r.index_file@ + "\n"@ + "repository "@ + r.repository@ + "\n"@
        + rules_text(r.rules@)
}

pub open spec fn with_newline(t: Seq<char>) -> Seq<char> {
    if t.len() > 0 && t.last() == '\n' {
        t
    } else {
        t + "\n"@
    }
}

/// The text written for a command that succeeded.
pub open spec fn success_text(output: CommandOutput) -> Seq<char> {
    match output {
        CommandOutput::RawText(t) => t@,
        CommandOutput::WorkspaceInit(init) => "index_path "@ + init.index_path@ + "\n"@
            + "doc_dir "@ + init.documents_directory@ + "\n"@ + "naming_style "@
            + init.naming_style@ + "\n"@,
        CommandOutput::WorkspaceRules(rules) => workspace_rules_text(rules),
        CommandOutput::Namespaces(rows) => lines_text(namespace_row_lines(rows@)),
        CommandOutput::NamespaceDocuments(nss) => lines_text(namespace_document_lines(nss@)),
        CommandOutput::Documents(rows) => lines_text(document_row_lines(rows@)),
        CommandOutput::Fix(rows) => if rows@.len() == 0 {
            "OK\n"@
        } else {
            lines_text(fix_row_lines(rows@))
        },
        CommandOutput::Path(p) => p@ + "\n"@,
        CommandOutput::NamespaceName(n) => n@ + "\n"@,
        CommandOutput::Tree(t) => with_newline(t@),
        CommandOutput::CheckOk => "OK\n"@,
    }
}

/// One line per detail, under `details`.
pub open spec fn details_text(details: Seq<(Seq<char>, Seq<char>)>) -> Seq<char>
    decreases details.len(),
{
    if details.len() == 0 {
        Seq::empty()
    } else {
        details_text(details.drop_last()) + "details."@ + details.last().0 + ": "@
            + details.last().1 + "\n"@
    }
}

/// The text written for a command that failed.
pub open spec fn error_text(e: AppErrorView) -> Seq<char> {
    "error: "@ + e.code + ": "@ + e.message + "\n"@ + details_text(e.details)
}

// ---------------------------------------------------------------------------
// Writing it
// ---------------------------------------------------------------------------

/// `lines.join("\n") + "\n"`, or nothing for no lines.
pub fn format_lines(lines: &Vec<String>) -> (r: String)
    ensures
        r@ == lines_text(views(lines@)),
{
    if lines.len() == 0 {
        String::new()
    } else {
        let joined = join_strings(lines, "\n");
        concat2(joined.as_str(), "\n")
    }
}

/// `value` with a newline at the end unless it has one.
pub fn ensure_newline(value: &str) -> (r: String)
    ensures
        r@ == with_newline(value@),
{
    let v = crate::utils::text::chars_of(value);
    if v.len() > 0 && v[v.len() - 1] == '\n' {
        owned(value)
    } else {
        concat2(value, "\n")
    }
}

fn format_workspace_rules(rules: &WorkspaceRules) -> (r: String)
    ensures
        r@ == workspace_rules_text(*rules),
{
    let mut output = String::new();
    append_str(&mut output, "agents_file ");
    append_str(&mut output, rules.agents_file.as_str());
    append_str(&mut output, "\n");
    append_str(&mut output, "documents_directory ");
    append_str(&mut output, rules.documents_directory.as_str());
    append_str(&mut output, "\n");
    append_str(&mut output, "index_file ");
    append_str(&mut output, rules.index_file.as_str());
    append_str(&mut output, "\n");
    append_str(&mut output, "repository ");
    append_str(&mut output, rules.repository.as_str());
    append_str(&mut output, "\n");
    let ghost head = output@;
    let mut k: usize = 0;
    assert(rules.rules@.take(0) =~= Seq::<WorkspaceRule>::empty());
    while k < rules.rules.len()
        invariant
            k <= rules.rules@.len(),
            output@ == head + rules_text(rules.rules@.take(k as int)),
        decreases rules.rules.len() - k,
    {
        let index = decimal_string(k);
        let rule = &rules.rules[k];
        append_str(&mut output, "rules[");
        append_str(&mut output, index.as_str());
        append_str(&mut output, "].content ");
        append_str(&mut output, rule.content.as_str());
        append_str(&mut output, "\n");
        append_str(&mut output, "rules[");
        append_str(&mut output, index.as_str());
        append_str(&mut output, "].path ");
        append_str(&mut output, rule.path.as_str());
        append_str(&mut output, "\n");
        proof {
            let t = rules.rules@.take(k + 1);
            assert(t.drop_last() =~= rules.rules@.take(k as int));
            assert(t.last() == *rule);
            assert(output@ =~= head + rules_text(t));
        }
        k = k + 1;
    }
    assert(rules.rules@.take(rules.rules@.len() as int) =~= rules.rules@);
    assert(output@ =~= workspace_rules_text(*rules));
    output
}

fn format_namespace_docs(namespaces: &Vec<NamespaceDocuments>) -> (r: String)
    ensures
        r@ == lines_text(namespace_document_lines(namespaces@)),
{
    let mut lines: Vec<String> = Vec::new();
    let mut i: usize = 0;
    assert(namespaces@.take(0) =~= Seq::<NamespaceDocuments>::empty());
    assert(views(lines@) =~= Seq::<Seq<char>>::empty());
    while i < namespaces.len()
        invariant
            i <= namespaces@.len(),
            views(lines@) == namespace_document_lines(namespaces@.take(i as int)),
        decreases namespaces.len() - i,
    {
        let n = &namespaces[i];
        let ghost before = views(lines@);
        lines.push(concat2(n.namespace.as_str(), "/"));
        let ghost mid = views(lines@);
        assert(mid =~= before + seq![n.namespace@ + "/"@]);
        let mut k: usize = 0;
        assert(mid + Seq::new(0, |m: int| "  "@ + n.documents@[m].document@ + " "@ + n.documents@[m].path@) =~= mid);
        while k < n.documents.len()
            invariant
                k <= n.documents@.len(),
                views(lines@) == mid + Seq::new(
                    k as nat,
                    |m: int| "  "@ + n.documents@[m].document@ + " "@ + n.documents@[m].path@,
                ),
            decreases n.documents.len() - k,
        {
            let d = &n.documents[k];
            let mut line = concat3("  ", d.document.as_str(), " ");
            append_str(&mut line, d.path.as_str());
            let ghost b = views(lines@);
            lines.push(line);
            proof {
                assert(views(lines@) =~= b.push("  "@ + d.document@ + " "@ + d.path@));
                assert(Seq::new(
                    (k + 1) as nat,
                    |m: int| "  "@ + n.documents@[m].document@ + " "@ + n.documents@[m].path@,
                ) =~= Seq::new(
                    k as nat,
                    |m: int| "  "@ + n.documents@[m].document@ + " "@ + n.documents@[m].path@,
                ).push("  "@ + d.document@ + " "@ + d.path@));
            }
            k = k + 1;
        }
        proof {
            let t = namespaces@.take(i + 1);
            assert(t.drop_last() =~= namespaces@.take(i as int));
            assert(t.last() == *n);
            assert(views(lines@) =~= namespace_document_lines(t));
        }
        i = i + 1;
    }
    assert(namespaces@.take(namespaces@.len() as int) =~= namespaces@);
    format_lines(&lines)
}

fn pair_lines(firsts: &Vec<&String>, sep: &str, seconds: &Vec<&String>) -> (r: Vec<String>)
    requires
        firsts@.len() == seconds@.len(),
    ensures
        views(r@) == Seq::new(firsts@.len(), |k: int| firsts@[k]@ + sep@ + seconds@[k]@),
{
    let mut out: Vec<String> = Vec::new();
    let mut k: usize = 0;
    while k < firsts.len()
        invariant
            k <= firsts@.len() == seconds@.len(),
            views(out@) == Seq::new(k as nat, |m: int| firsts@[m]@ + sep@ + seconds@[m]@),
        decreases firsts.len() - k,
    {
        let ghost b = views(out@);
        out.push(concat3(firsts[k].as_str(), sep, seconds[k].as_str()));
        proof {
            assert(views(out@) =~= b.push(firsts@[k as int]@ + sep@ + seconds@[k as int]@));
            assert(Seq::new((k + 1) as nat, |m: int| firsts@[m]@ + sep@ + seconds@[m]@) =~= Seq::new(
                k as nat,
                |m: int| firsts@[m]@ + sep@ + seconds@[m]@,
            ).push(firsts@[k as int]@ + sep@ + seconds@[k as int]@));
        }
        k = k + 1;
    }
    out
}

/// The text of a command that succeeded.
pub fn format_success(output: &CommandOutput) -> (r: String)
    ensures
        r@ == success_text(*output),
{
    match output {
        CommandOutput::RawText(text) => owned(text.as_str()),
        CommandOutput::WorkspaceInit(init) => {
            let mut s = String::new();
            append_str(&mut s, "index_path ");
            append_str(&mut s, init.index_path.as_str());
            append_str(&mut s, "\n");
            append_str(&mut s, "doc_dir ");
            append_str(&mut s, init.documents_directory.as_str());
            append_str(&mut s, "\n");
            append_str(&mut s, "naming_style ");
            append_str(&mut s, init.naming_style.as_str());
            append_str(&mut s, "\n");
            s
        },
        CommandOutput::WorkspaceRules(rules) => format_workspace_rules(rules),
        CommandOutput::Namespaces(rows) => {
            let mut firsts: Vec<&String> = Vec::new();
            let mut seconds: Vec<&String> = Vec::new();
            let mut k: usize = 0;
            while k < rows.len()
                invariant
                    k <= rows@.len(),
                    firsts@.len() == k && seconds@.len() == k,
                    forall|m: int| 0 <= m < k ==> #[trigger] firsts@[m]@ == rows@[m].namespace@,
                    forall|m: int| 0 <= m < k ==> #[trigger] seconds@[m]@ == rows@[m].path@,
                decreases rows.len() - k,
            {
                firsts.push(&rows[k].namespace);
                seconds.push(&rows[k].path);
                k = k + 1;
            }
            let lines = pair_lines(&firsts, " ", &seconds);
            assert(views(lines@) =~= namespace_row_lines(rows@));
            format_lines(&lines)
        },
        CommandOutput::NamespaceDocuments(namespaces) => format_namespace_docs(namespaces),
        CommandOutput::Documents(rows) => {
            let mut firsts: Vec<&String> = Vec::new();
            let mut seconds: Vec<&String> = Vec::new();
            let mut k: usize = 0;
            while k < rows.len()
                invariant
                    k <= rows@.len(),
                    firsts@.len() == k && seconds@.len() == k,
                    forall|m: int| 0 <= m < k ==> #[trigger] firsts@[m]@ == rows@[m].document@,
                    forall|m: int| 0 <= m < k ==> #[trigger] seconds@[m]@ == rows@[m].path@,
                decreases rows.len() - k,
            {
                firsts.push(&rows[k].document);
                seconds.push(&rows[k].path);
                k = k + 1;
            }
            let lines = pair_lines(&firsts, " ", &seconds);
            assert(views(lines@) =~= document_row_lines(rows@));
            format_lines(&lines)
        },
        CommandOutput::Fix(rows) => {
            if rows.len() == 0 {
                return owned("OK\n");
            }
            let mut firsts: Vec<&String> = Vec::new();
            let mut seconds: Vec<&String> = Vec::new();
            let mut k: usize = 0;
            while k < rows.len()
                invariant
                    k <= rows@.len(),
                    firsts@.len() == k && seconds@.len() == k,
                    forall|m: int| 0 <= m < k ==> #[trigger] firsts@[m]@ == rows@[m].old_path@,
                    forall|m: int| 0 <= m < k ==> #[trigger] seconds@[m]@ == rows@[m].new_path@,
                decreases rows.len() - k,
            {
                firsts.push(&rows[k].old_path);
                seconds.push(&rows[k].new_path);
                k = k + 1;
            }
            let lines = pair_lines(&firsts, " -> ", &seconds);
            assert(views(lines@) =~= fix_row_lines(rows@));
            format_lines(&lines)
        },
        CommandOutput::Path(path) => concat2(path.as_str(), "\n"),
        CommandOutput::NamespaceName(namespace) => concat2(namespace.as_str(), "\n"),
        CommandOutput::Tree(tree) => ensure_newline(tree.as_str()),
        CommandOutput::CheckOk => owned("OK\n"),
    }
}

/// The text of a command that failed: its code and message, then one line
/// per detail.
pub fn format_error(error: &AppError) -> (r: String)
    ensures
        r@ == error_text(error@),
{
    let mut output = String::new();
    append_str(&mut output, "error: ");
    append_str(&mut output, error.code.as_str());
    append_str(&mut output, ": ");
    append_str(&mut output, error.message.as_str());
    append_str(&mut output, "\n");
    let ghost head = output@;
    let ghost ds = details_view(error.details@);
    let mut k: usize = 0;
    assert(ds.take(0) =~= Seq::<(Seq<char>, Seq<char>)>::empty());
    while k < error.details.len()
        invariant
            k <= error.details@.len(),
            ds == details_view(error.details@),
            output@ == head + details_text(ds.take(k as int)),
        decreases error.details.len() - k,
    {
        let d = &error.details[k];
        append_str(&mut output, "details.");
        append_str(&mut output, d.path.as_str());
        append_str(&mut output, ": ");
        append_str(&mut output, d.value.as_str());
        append_str(&mut output, "\n");
        proof {
            let t = ds.take(k + 1);
            assert(t.drop_last() =~= ds.take(k as int));
            assert(t.last() == d@);
            assert(output@ =~= head + details_text(t));
        }
        k = k + 1;
    }
    assert(ds.take(ds.len() as int) =~= ds);
    output
}

} // verus!
