//! The managed docs index block that `sync` writes into the index file.
use vstd::prelude::*;

use crate::utils::error::{AppError, detail, details_view, validation_error};
use crate::utils::index::{DocumentEntry, DocumentEntryView, entry_views};
use crate::utils::text::{
    append_str, chars_lt, chars_of, concat3, find_chars, find_from, first_occurrence, has_prefix,
    has_suffix, occurs_at,
    owned, seq_lt, str_eq, string_from_range, trim_end, views,
};

verus! {

pub const START_MARKER: &'static str = "<!-- adm:docs-index:start -->";

pub const END_MARKER: &'static str = "<!-- adm:docs-index:end -->";

// ---------------------------------------------------------------------------
// Rendering the block
// ---------------------------------------------------------------------------

/// Strictly ascending (no two equal names).
pub open spec fn strictly_sorted(s: Seq<Seq<char>>) -> bool {
    forall|i: int, j: int| 0 <= i < j < s.len() ==> seq_lt(#[trigger] s[i], #[trigger] s[j])
}

/// The namespaces that documents belong to (the root is not one).
pub open spec fn document_namespaces(docs: Seq<DocumentEntryView>) -> Set<Seq<char>> {
    Set::new(
        |ns: Seq<char>|
            ns.len() > 0 && exists|k: int| 0 <= k < docs.len() && (#[trigger] docs[k]).namespace == ns,
    )
}

pub open spec fn docs_in(docs: Seq<DocumentEntryView>, ns: Seq<char>) -> Seq<DocumentEntryView> {
    docs.filter(|d: DocumentEntryView| d.namespace == ns)
}

pub open spec fn index_line(d: DocumentEntryView) -> Seq<char> {
    "- `"@ + d.path + "` - "@ + d.title + " - "@ + d.description + "\n"@
}

pub open spec fn index_lines(ds: Seq<DocumentEntryView>) -> Seq<char>
    decreases ds.len(),
{
    if ds.len() == 0 {
        Seq::empty()
    } else {
        index_lines(ds.drop_last()) + index_line(ds.last())
    }
}

/// The lines of some documents followed by a blank line.
pub open spec fn document_list(ds: Seq<DocumentEntryView>) -> Seq<char> {
    index_lines(ds) + "\n"@
}

pub open spec fn namespace_sections(docs: Seq<DocumentEntryView>, nss: Seq<Seq<char>>) -> Seq<char>
    decreases nss.len(),
{
    if nss.len() == 0 {
        Seq::empty()
    } else {
        namespace_sections(docs, nss.drop_last()) + "### "@ + nss.last() + "\n\n"@
            + document_list(docs_in(docs, nss.last()))
    }
}

/// The block for some documents, given their namespaces in ascending order.
pub open spec fn index_block(
    dir: Seq<char>,
    docs: Seq<DocumentEntryView>,
    nss: Seq<Seq<char>>,
) -> Seq<char> {
    START_MARKER@ + index_body(dir, docs, nss) + END_MARKER@ + "\n"@
}

/// What stands between the markers of the block.
pub open spec fn index_body(
    dir: Seq<char>,
    docs: Seq<DocumentEntryView>,
    nss: Seq<Seq<char>>,
) -> Seq<char> {
    let root = docs_in(docs, Seq::empty());
    "\n## Docs Index\n\n"@ + "Source: `"@ + dir + "/`\n\n"@ + (if root.len() == 0 && nss.len()
        == 0 {
        "No documents found.\n\n"@
    } else {
        Seq::empty()
    }) + (if root.len() > 0 {
        "### Root Documents\n\n"@ + document_list(root)
    } else {
        Seq::empty()
    }) + namespace_sections(docs, nss)
}

fn push_document_lines(output: &mut String, documents: &Vec<&DocumentEntry>)
    ensures
        final(output)@ == old(output)@ + document_list(
            documents@.map_values(|d: &DocumentEntry| d@),
        ),
{
    let ghost ds = documents@.map_values(|d: &DocumentEntry| d@);
    let ghost start = output@;
    let mut i: usize = 0;
    assert(ds.take(0) =~= Seq::<DocumentEntryView>::empty());
    while i < documents.len()
        invariant
            i <= documents@.len(),
            ds == documents@.map_values(|d: &DocumentEntry| d@),
            output@ == start + index_lines(ds.take(i as int)),
        decreases documents.len() - i,
    {
        let d = documents[i];
        append_str(output, "- `");
        append_str(output, d.path.as_str());
        append_str(output, "` - ");
        append_str(output, d.title.as_str());
        append_str(output, " - ");
        append_str(output, d.description.as_str());
        append_str(output, "\n");
        proof {
            assert(ds.take(i + 1).drop_last() =~= ds.take(i as int));
            assert(ds.take(i + 1).last() == d@);
            assert(output@ =~= start + index_lines(ds.take(i + 1)));
        }
        i = i + 1;
    }
    append_str(output, "\n");
    assert(ds.take(documents@.len() as int) =~= ds);
}

pub fn documents_in<'a>(documents: &'a Vec<DocumentEntry>, namespace: &str) -> (r: Vec<
    &'a DocumentEntry,
>)
    ensures
        r@.map_values(|d: &DocumentEntry| d@) == docs_in(entry_views(documents@), namespace@),
{
    let ghost all = entry_views(documents@);
    let ghost pred = |d: DocumentEntryView| d.namespace == namespace@;
    let mut r: Vec<&'a DocumentEntry> = Vec::new();
    let mut i: usize = 0;
    assert(all.take(0).filter(pred) =~= Seq::<DocumentEntryView>::empty());
    assert(r@.map_values(|d: &DocumentEntry| d@) =~= Seq::<DocumentEntryView>::empty());
    while i < documents.len()
        invariant
            i <= documents@.len(),
            all == entry_views(documents@),
            pred == (|d: DocumentEntryView| d.namespace == namespace@),
            r@.map_values(|d: &DocumentEntry| d@) == all.take(i as int).filter(pred),
        decreases documents.len() - i,
    {
        proof {
            assert(all.take(i + 1) =~= all.take(i as int).push(all[i as int]));
            all.take(i as int).lemma_filter_push(all[i as int], pred);
            assert(all[i as int] == documents@[i as int]@);
        }
        let d = &documents[i];
        let ghost before = r@;
        if str_eq(d.namespace.as_str(), namespace) {
            r.push(d);
            assert(r@.map_values(|d: &DocumentEntry| d@) =~= before.map_values(
                |d: &DocumentEntry| d@,
            ).push(d@));
        }
        i = i + 1;
    }
    assert(all.take(documents@.len() as int) =~= all);
    r
}

/// Inserts `x` into a strictly ascending list unless it is there already.
fn insert_unique_sorted(v: &mut Vec<String>, x: &str)
    requires
        strictly_sorted(views(old(v)@)),
    ensures
        strictly_sorted(views(final(v)@)),
        views(final(v)@).to_set() == views(old(v)@).to_set().insert(x@),
{
    let xc = chars_of(x);
    let mut pos: usize = 0;
    while pos < v.len() && chars_lt(&chars_of(v[pos].as_str()), &xc)
        invariant
            pos <= v@.len(),
            xc@ == x@,
            forall|k: int| 0 <= k < pos ==> seq_lt(#[trigger] v@[k]@, x@),
        decreases v.len() - pos,
    {
        pos = pos + 1;
    }
    let ghost ov = views(v@);
    if pos < v.len() && str_eq(v[pos].as_str(), x) {
        assert(ov[pos as int] == x@);
        assert(ov.to_set().insert(x@) =~= ov.to_set());
        return;
    }
    v.insert(pos, owned(x));
    proof {
        let nv = views(v@);
        assert(nv =~= ov.insert(pos as int, x@));
        if pos < ov.len() {
            crate::utils::text::lemma_seq_lt_total(ov[pos as int], x@);
            assert(seq_lt(x@, ov[pos as int]));
        }
        assert forall|a: int, b: int| 0 <= a < b < nv.len() implies seq_lt(
            #[trigger] nv[a],
            #[trigger] nv[b],
        ) by {
            if b < pos {
                assert(nv[a] == ov[a] && nv[b] == ov[b]);
            } else if a > pos {
                assert(nv[a] == ov[a - 1] && nv[b] == ov[b - 1]);
            } else if a == pos {
                assert(nv[b] == ov[b - 1]);
                if b - 1 > pos {
                    crate::utils::text::lemma_seq_lt_transitive(x@, ov[pos as int], ov[b - 1]);
                }
            } else if b == pos {
                assert(nv[a] == ov[a]);
                assert(seq_lt(v@[a]@, x@));
            } else {
                assert(nv[a] == ov[a] && nv[b] == ov[b - 1]);
            }
        }
        assert forall|y: Seq<char>| nv.to_set().contains(y) <==> ov.to_set().insert(x@).contains(
            y,
        ) by {
            if nv.to_set().contains(y) {
                let k = choose|k: int| 0 <= k < nv.len() && nv[k] == y;
                if k < pos {
                    assert(ov[k] == y);
                } else if k > pos {
                    assert(ov[k - 1] == y);
                }
            }
            if ov.to_set().contains(y) {
                let k = choose|k: int| 0 <= k < ov.len() && ov[k] == y;
                if k < pos {
                    assert(nv[k] == y);
                } else {
                    assert(nv[k + 1] == y);
                }
            }
            if y == x@ {
                assert(nv[pos as int] == y);
            }
        }
        assert(nv.to_set() =~= ov.to_set().insert(x@));
    }
}

/// The namespaces of the documents, ascending and without repetition.
fn sorted_document_namespaces(documents: &Vec<DocumentEntry>) -> (r: Vec<String>)
    ensures
        strictly_sorted(views(r@)),
        views(r@).to_set() == document_namespaces(entry_views(documents@)),
{
    let ghost all = entry_views(documents@);
    let mut r: Vec<String> = Vec::new();
    let mut i: usize = 0;
    assert(views(r@).to_set() =~= Set::<Seq<char>>::empty());
    while i < documents.len()
        invariant
            i <= documents@.len(),
            all == entry_views(documents@),
            strictly_sorted(views(r@)),
            views(r@).to_set() == document_namespaces(all.take(i as int)),
        decreases documents.len() - i,
    {
        let ghost before = views(r@).to_set();
        if documents[i].namespace.as_str().unicode_len() > 0 {
            insert_unique_sorted(&mut r, documents[i].namespace.as_str());
        }
        proof {
            assert(all[i as int] == documents@[i as int]@);
            let t1 = all.take(i + 1);
            let t0 = all.take(i as int);
            assert forall|ns: Seq<char>| document_namespaces(t1).contains(ns)
                == views(r@).to_set().contains(ns) by {
                if document_namespaces(t1).contains(ns) {
                    let k = choose|k: int| 0 <= k < t1.len() && (#[trigger] t1[k]).namespace == ns;
                    if k < i {
                        assert(t0[k] == t1[k]);
                        assert(document_namespaces(t0).contains(ns));
                    }
                }
                if document_namespaces(t0).contains(ns) {
                    let k = choose|k: int| 0 <= k < t0.len() && (#[trigger] t0[k]).namespace == ns;
                    assert(t1[k] == t0[k]);
                }
                if ns == all[i as int].namespace && ns.len() > 0 {
                    assert(t1[i as int] == all[i as int]);
                }
            }
            assert(views(r@).to_set() =~= document_namespaces(t1));
        }
        i = i + 1;
    }
    assert(all.take(documents@.len() as int) =~= all);
    r
}

/// The managed block listing the documents: root documents first, then one
/// section per namespace in ascending order.
pub fn render_index_block(documents_directory: &str, documents: &Vec<DocumentEntry>) -> (r: String)
    ensures
        exists|nss: Seq<Seq<char>>|
            strictly_sorted(nss) && nss.to_set() == document_namespaces(entry_views(documents@))
                && r@ == index_block(documents_directory@, entry_views(documents@), nss),
{
    let mut output = String::new();
    append_str(&mut output, START_MARKER);
    append_str(&mut output, "\n## Docs Index\n\n");
    append_str(&mut output, "Source: `");
    append_str(&mut output, documents_directory);
    append_str(&mut output, "/`\n\n");
    let root_documents = documents_in(documents, "");
    proof {
        reveal_strlit("");
        assert(""@ =~= Seq::<char>::empty());
    }
    let namespaces = sorted_document_namespaces(documents);
    let ghost nss = views(namespaces@);
    let ghost all = entry_views(documents@);
    if root_documents.len() == 0 && namespaces.len() == 0 {
        append_str(&mut output, "No documents found.\n\n");
    }
    if root_documents.len() > 0 {
        append_str(&mut output, "### Root Documents\n\n");
        push_document_lines(&mut output, &root_documents);
    }
    let ghost before_sections = output@;
    let mut i: usize = 0;
    assert(nss.take(0) =~= Seq::<Seq<char>>::empty());
    while i < namespaces.len()
        invariant
            i <= namespaces@.len(),
            nss == views(namespaces@),
            all == entry_views(documents@),
            output@ == before_sections + namespace_sections(all, nss.take(i as int)),
        decreases namespaces.len() - i,
    {
        let ns = namespaces[i].as_str();
        append_str(&mut output, "### ");
        append_str(&mut output, ns);
        append_str(&mut output, "\n\n");
        let in_ns = documents_in(documents, ns);
        push_document_lines(&mut output, &in_ns);
        proof {
            assert(nss.take(i + 1).drop_last() =~= nss.take(i as int));
            assert(nss.take(i + 1).last() == ns@);
            assert(output@ =~= before_sections + namespace_sections(all, nss.take(i + 1)));
        }
        i = i + 1;
    }
    append_str(&mut output, END_MARKER);
    append_str(&mut output, "\n");
    proof {
        assert(nss.take(nss.len() as int) =~= nss);
        assert(output@ =~= index_block(documents_directory@, all, nss));
    }
    output
}

// ---------------------------------------------------------------------------
// Merging the block into the index file
// ---------------------------------------------------------------------------

/// The index file after a sync, or `None` when its markers are out of order
/// or only one of them is there. Outside the block everything is kept; one
/// newline right after the old block goes with it.
pub open spec fn merged_index(existing: Option<Seq<char>>, block: Seq<char>) -> Option<Seq<char>> {
    match existing {
        None => Some(block),
        Some(e) => match (
            first_occurrence(e, START_MARKER@),
            first_occurrence(e, END_MARKER@),
        ) {
            (None, None) => {
                let t = trim_end(e);
                if t.len() == 0 {
                    Some(block)
                } else {
                    Some(t + "\n\n"@ + block)
                }
            },
            (Some(start), Some(end)) => if start <= end {
                let after0 = e.skip(end + END_MARKER@.len());
                let after = if after0.len() > 0 && after0[0] == '\n' {
                    after0.skip(1)
                } else {
                    after0
                };
                Some(e.take(start) + block + after)
            } else {
                None
            },
            _ => None,
        },
    }
}

pub open spec fn invalid_markers_error(relative_path: Seq<char>) -> crate::utils::error::AppErrorView {
    validation_error(
        "invalid_index_file_markers"@,
        "index file contains invalid adm sync markers"@,
        seq![
            ("end_marker"@, END_MARKER@),
            ("path"@, relative_path),
            ("start_marker"@, START_MARKER@),
        ],
    )
}

pub fn merge_index_block(existing: Option<&str>, block: &str, relative_path: &str) -> (r: Result<
    String,
    AppError,
>)
    ensures
        match existing {
            None => merged_index(None, block@),
            Some(e) => merged_index(Some(e@), block@),
        } matches Some(m) ==> (r matches Ok(s) && s@ == m),
        match existing {
            None => merged_index(None, block@),
            Some(e) => merged_index(Some(e@), block@),
        } is None ==> (r matches Err(err) && err@ == invalid_markers_error(relative_path@)),
{
    let existing = match existing {
        None => return Ok(owned(block)),
        Some(e) => e,
    };
    let ev = chars_of(existing);
    let start_marker = chars_of(START_MARKER);
    let end_marker = chars_of(END_MARKER);
    let start = find_chars(&ev, &start_marker);
    let end = find_chars(&ev, &end_marker);
    match (start, end) {
        (None, None) => {
            let trimmed_end = trim_end_bounds(&ev);
            if trimmed_end == 0 {
                Ok(owned(block))
            } else {
                let t = string_from_range(&ev, 0, trimmed_end);
                Ok(concat3(t.as_str(), "\n\n", block))
            }
        },
        (Some(s), Some(e)) if s <= e => {
            proof {
                crate::utils::text::lemma_find_from(ev@, end_marker@, 0);
                assert(first_occurrence(ev@, end_marker@) == Some(e as int));
                assert(e + end_marker@.len() <= ev@.len());
                assert(ev@.len() == ev.len());
                assert(end_marker@.len() == end_marker.len());
            }
            let after_start = e + end_marker.len();
            let mut after_from = after_start;
            if after_start < ev.len() && ev[after_start] == '\n' {
                after_from = after_start + 1;
            }
            let head = string_from_range(&ev, 0, s);
            let after = string_from_range(&ev, after_from, ev.len());
            proof {
                assert(ev@.subrange(0, s as int) =~= ev@.take(s as int));
                let after0 = ev@.skip(after_start as int);
                if after0.len() > 0 && after0[0] == '\n' {
                    assert(ev@.subrange(after_from as int, ev@.len() as int) =~= after0.skip(1));
                } else {
                    assert(ev@.subrange(after_from as int, ev@.len() as int) =~= after0);
                }
            }
            Ok(concat3(head.as_str(), block, after.as_str()))
        },
        _ => {
            let mut d = Vec::new();
            d.push(detail("end_marker", END_MARKER));
            d.push(detail("path", relative_path));
            d.push(detail("start_marker", START_MARKER));
            assert(details_view(d@) =~= seq![
                ("end_marker"@, END_MARKER@),
                ("path"@, relative_path@),
                ("start_marker"@, START_MARKER@),
            ]);
            Err(
                AppError::validation(
                    "invalid_index_file_markers",
                    "index file contains invalid adm sync markers",
                    d,
                ),
            )
        },
    }
}

proof fn lemma_trim_end_take(s: Seq<char>, j: int)
    requires
        0 <= j <= s.len(),
        forall|k: int| j <= k < s.len() ==> crate::utils::text::is_white(#[trigger] s[k]),
        j == 0 || !crate::utils::text::is_white(s[j - 1]),
    ensures
        trim_end(s) == s.take(j),
    decreases s.len() - j,
{
    if j == s.len() {
        assert(s.take(j) =~= s);
    } else {
        let t = s.drop_last();
        assert forall|k: int| j <= k < t.len() implies crate::utils::text::is_white(
            #[trigger] t[k],
        ) by {
            assert(t[k] == s[k]);
        }
        lemma_trim_end_take(t, j);
        assert(t.take(j) =~= s.take(j));
    }
}

/// The length of `v` with trailing whitespace removed.
fn trim_end_bounds(v: &Vec<char>) -> (j: usize)
    ensures
        j <= v@.len(),
        trim_end(v@) == v@.take(j as int),
{
    let mut j: usize = v.len();
    while j > 0 && crate::utils::text::is_whitespace(v[j - 1])
        invariant
            j <= v@.len(),
            forall|k: int| j <= k < v@.len() ==> crate::utils::text::is_white(#[trigger] v@[k]),
        decreases j,
    {
        j = j - 1;
    }
    proof {
        lemma_trim_end_take(v@, j as int);
    }
    j
}

} // verus!

verus! {

// ---------------------------------------------------------------------------
// Syncing twice
// ---------------------------------------------------------------------------

/// The shape of both markers: `<` first and nowhere else, and no newline.
pub open spec fn marker_shape(m: Seq<char>) -> bool {
    m.len() > 0 && m[0] == '<' && forall|k: int| 1 <= k < m.len() ==> #[trigger] m[k] != '<' && m[k] != '\n'
}

/// A block as `sync` writes it: it starts with the start marker, its only
/// end marker closes it, and a newline follows.
pub open spec fn block_shape(b: Seq<char>) -> bool {
    &&& b.len() >= END_MARKER@.len() + 1
    &&& b.last() == '\n'
    &&& first_occurrence(b, START_MARKER@) == Some(0int)
    &&& first_occurrence(b, END_MARKER@) == Some(b.len() - END_MARKER@.len() - 1)
}

/// No marker occurs anywhere in `x`.
pub open spec fn marker_free(x: Seq<char>) -> bool {
    forall|j: int| !occurs_at(x, START_MARKER@, j) && !occurs_at(x, END_MARKER@, j)
}

proof fn lemma_markers_shape()
    ensures
        marker_shape(START_MARKER@),
        marker_shape(END_MARKER@),
{
    reveal_strlit("<!-- adm:docs-index:start -->");
    reveal_strlit("<!-- adm:docs-index:end -->");
}

proof fn lemma_find_from_at(s: Seq<char>, p: Seq<char>, i: int, k: int)
    requires
        0 <= i <= k,
        occurs_at(s, p, k),
        forall|j: int| i <= j < k ==> !occurs_at(s, p, j),
    ensures
        find_from(s, p, i) == Some(k),
    decreases k - i,
{
    if i < k {
        lemma_find_from_at(s, p, i + 1, k);
    }
}

/// In `x + b + y`, with `x` free of markers and `b` starting with `<`, a
/// marker occurs before `x.len()` nowhere.
proof fn lemma_no_marker_before(x: Seq<char>, b: Seq<char>, y: Seq<char>, m: Seq<char>, j: int)
    requires
        marker_shape(m),
        b.len() > 0,
        b[0] == '<',
        !occurs_at(x, m, j),
        j < x.len(),
    ensures
        !occurs_at(x + b + y, m, j),
{
    let s = x + b + y;
    if occurs_at(s, m, j) {
        if j + m.len() <= x.len() {
            assert(x.subrange(j, j + m.len()) =~= s.subrange(j, j + m.len()));
        } else {
            let k = x.len() - j;
            assert(s.subrange(j, j + m.len())[k] == s[x.len() as int]);
            assert(s[x.len() as int] == b[0]);
            assert(m[k] == '<');
        }
    }
}

/// Syncing `x + b + y` with the block `b` gives it back unchanged.
proof fn lemma_merge_fixed(x: Seq<char>, b: Seq<char>, y: Seq<char>)
    requires
        marker_free(x),
        block_shape(b),
    ensures
        merged_index(Some(x + b + y), b) == Some(x + b + y),
{
    lemma_markers_shape();
    let s = x + b + y;
    let sm = START_MARKER@;
    let em = END_MARKER@;
    let q = b.len() - em.len() - 1;
    crate::utils::text::lemma_find_from(b, sm, 0);
    crate::utils::text::lemma_find_from(b, em, 0);
    assert(b[0] == '<') by {
        assert(b.subrange(0, sm.len() as int)[0] == sm[0]);
    }
    assert forall|j: int| 0 <= j < x.len() implies !occurs_at(s, sm, j) && !occurs_at(s, em, j) by {
        lemma_no_marker_before(x, b, y, sm, j);
        lemma_no_marker_before(x, b, y, em, j);
    }
    assert(occurs_at(s, sm, x.len() as int)) by {
        assert(s.subrange(x.len() as int, x.len() + sm.len() as int) =~= b.subrange(0, sm.len() as int));
    }
    lemma_find_from_at(s, sm, 0, x.len() as int);
    assert(occurs_at(s, em, x.len() + q)) by {
        assert(s.subrange(x.len() + q, x.len() + q + em.len()) =~= b.subrange(q, q + em.len()));
    }
    assert forall|j: int| x.len() <= j < x.len() + q implies !occurs_at(s, em, j) by {
        if occurs_at(s, em, j) {
            assert(s.subrange(j, j + em.len()) =~= b.subrange(j - x.len(), j - x.len() + em.len() as int));
            assert(occurs_at(b, em, j - x.len()));
        }
    }
    lemma_find_from_at(s, em, 0, x.len() + q);
    let after_start = x.len() + q + em.len();
    let after0 = s.skip(after_start);
    assert(after0.len() > 0 && after0[0] == '\n') by {
        assert(after0[0] == s[x.len() + b.len() - 1]);
        assert(s[x.len() + b.len() - 1] == b[b.len() - 1]);
    }
    assert(after0.skip(1) =~= y);
    assert(s.take(x.len() as int) =~= x);
}

/// Syncing a second time with the same block changes nothing: the block that
/// the first sync wrote is found again and replaced by itself, and what is
/// outside it stays. (It holds for a block as `sync` writes it: one whose
/// only markers are its first and last line.)
pub proof fn lemma_sync_twice(existing: Option<Seq<char>>, block: Seq<char>)
    requires
        block_shape(block),
        merged_index(existing, block) is Some,
    ensures
        merged_index(Some(merged_index(existing, block)->0), block) == merged_index(
            existing,
            block,
        ),
{
    lemma_markers_shape();
    let sm = START_MARKER@;
    let em = END_MARKER@;
    let empty = Seq::<char>::empty();
    match existing {
        None => {
            assert(empty + block + empty =~= block);
            lemma_merge_fixed(empty, block, empty);
        },
        Some(e) => {
            crate::utils::text::lemma_find_from(e, sm, 0);
            crate::utils::text::lemma_find_from(e, em, 0);
            match (first_occurrence(e, sm), first_occurrence(e, em)) {
                (None, None) => {
                    let t = trim_end(e);
                    if t.len() == 0 {
                        assert(empty + block + empty =~= block);
                        lemma_merge_fixed(empty, block, empty);
                    } else {
                        let x = t + "\n\n"@;
                        lemma_trim_end_is_prefix(e);
                        assert(x.len() == t.len() + 2) by {
                            reveal_strlit("\n\n");
                        }
                        assert forall|j: int| !occurs_at(x, sm, j) && !occurs_at(x, em, j) by {
                            lemma_prefix_free(e, t, x, sm, j);
                            lemma_prefix_free(e, t, x, em, j);
                        }
                        assert(x + block + empty =~= t + "\n\n"@ + block);
                        lemma_merge_fixed(x, block, empty);
                    }
                },
                (Some(s0), Some(e0)) => {
                    if s0 <= e0 {
                        let x = e.take(s0);
                        assert(find_from(e, sm, 0) == Some(s0));
                        assert(find_from(e, em, 0) == Some(e0));
                        assert(occurs_at(e, sm, s0));
                        assert(x.len() == s0);
                        assert forall|j: int| !occurs_at(x, sm, j) && !occurs_at(x, em, j) by {
                            if occurs_at(x, sm, j) {
                                assert(e.subrange(j, j + sm.len()) =~= x.subrange(j, j + sm.len()));
                                assert(occurs_at(e, sm, j));
                                assert(j < s0);
                            }
                            if occurs_at(x, em, j) {
                                assert(e.subrange(j, j + em.len()) =~= x.subrange(j, j + em.len()));
                                assert(occurs_at(e, em, j));
                                assert(j < e0);
                            }
                        }
                        let after0 = e.skip(e0 + em.len());
                        let after = if after0.len() > 0 && after0[0] == '\n' {
                            after0.skip(1)
                        } else {
                            after0
                        };
                        lemma_merge_fixed(x, block, after);
                    }
                },
                _ => {},
            }
        },
    }
}

proof fn lemma_trim_end_is_prefix(s: Seq<char>)
    ensures
        trim_end(s).len() <= s.len(),
        trim_end(s) == s.take(trim_end(s).len() as int),
    decreases s.len(),
{
    if s.len() > 0 && crate::utils::text::is_white(s.last()) {
        lemma_trim_end_is_prefix(s.drop_last());
        assert(s.drop_last().take(trim_end(s).len() as int) =~= s.take(trim_end(s).len() as int));
    } else {
        assert(s.take(s.len() as int) =~= s);
    }
}

/// A marker does not occur in `t + "\n\n"` when it does not occur in `e`,
/// of which `t` is a prefix.
proof fn lemma_prefix_free(e: Seq<char>, t: Seq<char>, x: Seq<char>, m: Seq<char>, j: int)
    requires
        marker_shape(m),
        t.len() <= e.len(),
        t == e.take(t.len() as int),
        x == t + "\n\n"@,
        forall|k: int| !occurs_at(e, m, k),
    ensures
        !occurs_at(x, m, j),
{
    reveal_strlit("\n\n");
    if occurs_at(x, m, j) {
        if j + m.len() <= t.len() {
            assert(e.subrange(j, j + m.len()) =~= x.subrange(j, j + m.len()));
            assert(occurs_at(e, m, j));
        } else {
            let k = t.len() - j;
            if k >= 0 {
                assert(x.subrange(j, j + m.len())[k] == x[t.len() as int]);
                assert(x[t.len() as int] == '\n');
            } else {
                assert(x.subrange(j, j + m.len())[0] == x[j]);
                assert(x[j] == '\n');
            }
        }
    }
}

/// Between the markers of a rendered block no marker occurs; then the block
/// has the shape that `sync` recognises again.
proof fn lemma_block_shape(body: Seq<char>)
    requires
        marker_free(body),
    ensures
        block_shape(START_MARKER@ + body + END_MARKER@ + "\n"@),
{
    lemma_markers_shape();
    reveal_strlit("\n");
    reveal_strlit("<!-- adm:docs-index:start -->");
    reveal_strlit("<!-- adm:docs-index:end -->");
    let sm = START_MARKER@;
    let em = END_MARKER@;
    let b = sm + body + em + "\n"@;
    let at: int = (sm.len() + body.len()) as int;
    assert(occurs_at(b, sm, 0)) by {
        assert(b.subrange(0, sm.len() as int) =~= sm);
    }
    lemma_find_from_at(b, sm, 0, 0);
    assert(occurs_at(b, em, at)) by {
        assert(b.subrange(at, at + em.len() as int) =~= em);
    }
    assert forall|j: int| 0 <= j < at implies !occurs_at(b, em, j) by {
        if occurs_at(b, em, j) {
            let w = b.subrange(j, j + em.len());
            if j == 0 {
                assert(w[20] == b[20]);
                assert(b[20] == sm[20]);
            } else if j < sm.len() {
                assert(w[0] == b[j]);
                assert(b[j] == sm[j]);
            } else if j + em.len() <= at {
                assert(body.subrange(j - sm.len(), j - sm.len() + em.len()) =~= w);
                assert(occurs_at(body, em, j - sm.len()));
            } else {
                let k = at - j;
                assert(w[k] == b[at]);
                assert(b[at] == em[0]);
            }
        }
    }
    lemma_find_from_at(b, em, 0, at);
}

/// Merging a block into the text that the same merge gave returns that text
/// unchanged, for any block that starts with the start marker, ends with the
/// end marker and a newline, and holds the end marker nowhere else.
pub proof fn lemma_merge_same_block_twice(existing: Option<Seq<char>>, block: Seq<char>)
    requires
        has_prefix(block, START_MARKER@),
        has_suffix(block, END_MARKER@ + "\n"@),
        forall|j: int|
            #[trigger] occurs_at(block, END_MARKER@, j) ==> j == block.len() - END_MARKER@.len()
                - 1,
        merged_index(existing, block) is Some,
    ensures
        merged_index(Some(merged_index(existing, block)->0), block) == merged_index(
            existing,
            block,
        ),
{
    reveal_strlit("\n");
    let sm = START_MARKER@;
    let em = END_MARKER@;
    let tail = em + "\n"@;
    let k = block.len() - em.len() - 1;
    assert(block.subrange(0, sm.len() as int) =~= block.take(sm.len() as int));
    assert(occurs_at(block, sm, 0));
    lemma_find_from_at(block, sm, 0, 0);
    assert(block.skip(k) == tail);
    assert(block.subrange(k, k + em.len()) =~= tail.subrange(0, em.len() as int));
    assert(tail.subrange(0, em.len() as int) =~= em);
    assert(occurs_at(block, em, k));
    lemma_find_from_at(block, em, 0, k);
    assert(block.last() == tail.last());
    lemma_sync_twice(existing, block);
}

/// Syncing a second time with the same documents changes nothing, as long
/// as no document text holds a marker.
pub proof fn lemma_sync_twice_documents(
    existing: Option<Seq<char>>,
    dir: Seq<char>,
    docs: Seq<DocumentEntryView>,
    nss: Seq<Seq<char>>,
)
    requires
        marker_free(index_body(dir, docs, nss)),
        merged_index(existing, index_block(dir, docs, nss)) is Some,
    ensures
        merged_index(
            Some(merged_index(existing, index_block(dir, docs, nss))->0),
            index_block(dir, docs, nss),
        ) == merged_index(existing, index_block(dir, docs, nss)),
{
    lemma_block_shape(index_body(dir, docs, nss));
    lemma_sync_twice(existing, index_block(dir, docs, nss));
}

proof fn lemma_sections_start_with_heading(docs: Seq<DocumentEntryView>, nss: Seq<Seq<char>>)
    requires
        nss.len() > 0,
    ensures
        has_prefix(namespace_sections(docs, nss), "### "@),
    decreases nss.len(),
{
    reveal_strlit("### ");
    let h = "### "@;
    let init = nss.drop_last();
    let last = h + nss.last() + "\n\n"@ + document_list(docs_in(docs, nss.last()));
    assert(namespace_sections(docs, nss) == namespace_sections(docs, init) + last);
    if init.len() == 0 {
        assert(namespace_sections(docs, init) == Seq::<char>::empty());
        assert(namespace_sections(docs, nss).take(4) =~= h);
    } else {
        lemma_sections_start_with_heading(docs, init);
        let a = namespace_sections(docs, init);
        assert((a + last).take(4) =~= a.take(4));
    }
}

/// The index block says `No documents found.` exactly when there is no
/// document at all: after its heading and source line it holds that line
/// for no documents, and otherwise starts with a `### ` section (the root
/// documents or the first namespace), whether the documents are at the root
/// or only in namespaces. `nss` is the set of the documents' namespaces, as
/// `render_index_block` promises.
pub proof fn lemma_index_reports_no_documents_only_when_empty(
    dir: Seq<char>,
    docs: Seq<DocumentEntryView>,
    nss: Seq<Seq<char>>,
)
    requires
        nss.to_set() == document_namespaces(docs),
    ensures
        has_prefix(
            index_body(dir, docs, nss),
            "\n## Docs Index\n\n"@ + "Source: `"@ + dir + "/`\n\n"@,
        ),
        docs.len() == 0 ==> index_body(dir, docs, nss) == "\n## Docs Index\n\n"@ + "Source: `"@
            + dir + "/`\n\n"@ + "No documents found.\n\n"@,
        docs.len() > 0 ==> has_prefix(
            index_body(dir, docs, nss).skip(
                ("\n## Docs Index\n\n"@ + "Source: `"@ + dir + "/`\n\n"@).len() as int,
            ),
            "### "@,
        ),
{
    reveal(Seq::filter);
    reveal_strlit("### ");
    reveal_strlit("### Root Documents\n\n");
    let head = "\n## Docs Index\n\n"@ + "Source: `"@ + dir + "/`\n\n"@;
    let body = index_body(dir, docs, nss);
    let rp = |d: DocumentEntryView| d.namespace == Seq::<char>::empty();
    let root = docs_in(docs, Seq::empty());
    assert(root == docs.filter(rp));
    let mid = if root.len() == 0 && nss.len() == 0 {
        "No documents found.\n\n"@
    } else {
        Seq::<char>::empty()
    };
    let rs = if root.len() > 0 {
        "### Root Documents\n\n"@ + document_list(root)
    } else {
        Seq::<char>::empty()
    };
    let secs = namespace_sections(docs, nss);
    assert(body == head + mid + rs + secs);
    assert(body.take(head.len() as int) =~= head);
    assert(body.skip(head.len() as int) =~= mid + rs + secs);
    if docs.len() == 0 {
        assert(root =~= Seq::<DocumentEntryView>::empty());
        if nss.len() > 0 {
            assert(nss.to_set().contains(nss[0]));
            assert(!document_namespaces(docs).contains(nss[0]));
        }
        assert(secs == Seq::<char>::empty());
        assert(body =~= head + "No documents found.\n\n"@);
    } else if root.len() > 0 {
        assert(mid == Seq::<char>::empty());
        assert((mid + rs + secs).take(4) =~= "### "@);
    } else {
        if !rp(docs[0]) {
            if docs[0].namespace.len() == 0 {
                assert(docs[0].namespace =~= Seq::<char>::empty());
            }
        } else {
            docs.lemma_filter_contains(rp, 0);
            assert(root.contains(docs[0]));
        }
        let ns = docs[0].namespace;
        assert(document_namespaces(docs).contains(ns));
        assert(nss.to_set().contains(ns));
        assert(nss.len() > 0);
        lemma_sections_start_with_heading(docs, nss);
        assert(mid + rs + secs =~= secs);
    }
}

} // verus!
