//! The fixed metadata header of a managed markdown document: a level-one
//! title on the first line, then a paragraph `本文说明<description>。`.
use vstd::prelude::*;

use crate::utils::text::{
    chars_of, ends_with_chars, has_prefix, has_suffix, join, join_strings, lemma_split_on_nonempty,
    matches_at, split_chars, split_on, starts_with_chars, string_from_range, trim, trim_bounds, views,
};

verus! {

#[derive(Debug)]
pub struct DocumentMetadata {
    pub title: String,
    pub description: String,
}

#[derive(Clone, Copy, Debug, PartialEq, Eq, Structural)]
pub enum DocumentMetadataError {
    MissingTitle,
    MissingDescription,
    InvalidDescription,
}

pub open spec fn metadata_error_message(e: DocumentMetadataError) -> Seq<char> {
    match e {
        DocumentMetadataError::MissingTitle => "document must start with a level-one title"@,
        DocumentMetadataError::MissingDescription => "document must include a metadata paragraph after the title"@,
        DocumentMetadataError::InvalidDescription => "document metadata paragraph must match: 本文说明<description>。"@,
    }
}

impl DocumentMetadataError {
    pub fn message(self) -> (r: &'static str)
        ensures
            r@ == metadata_error_message(self),
    {
        match self {
            DocumentMetadataError::MissingTitle => "document must start with a level-one title",
            DocumentMetadataError::MissingDescription => {
                "document must include a metadata paragraph after the title"
            },
            DocumentMetadataError::InvalidDescription => {
                "document metadata paragraph must match: 本文说明<description>。"
            },
        }
    }
}

/// The lines of a document. Pieces between `\n`; a carriage return before the
/// newline stays in the piece, which does not matter here because every line
/// is trimmed before use, and an empty last piece is blank.
pub open spec fn doc_lines(content: Seq<char>) -> Seq<Seq<char>> {
    split_on(content, '\n')
}

/// The title of a title line: the trimmed line must start with `# ` and what
/// follows, trimmed, must not be empty.
pub open spec fn title_of_line(line: Seq<char>) -> Option<Seq<char>> {
    let t = trim(line);
    if has_prefix(t, "# "@) && trim(t.skip(2)).len() > 0 {
        Some(trim(t.skip(2)))
    } else {
        None
    }
}

pub open spec fn is_blank_line(line: Seq<char>) -> bool {
    trim(line).len() == 0
}

/// How many blank lines open the list.
pub open spec fn leading_blank(lines: Seq<Seq<char>>) -> nat
    decreases lines.len(),
{
    if lines.len() > 0 && is_blank_line(lines[0]) {
        1 + leading_blank(lines.drop_first())
    } else {
        0
    }
}

/// The trimmed lines before the first blank line.
pub open spec fn nonblank_prefix(lines: Seq<Seq<char>>) -> Seq<Seq<char>>
    decreases lines.len(),
{
    if lines.len() > 0 && !is_blank_line(lines[0]) {
        seq![trim(lines[0])] + nonblank_prefix(lines.drop_first())
    } else {
        Seq::empty()
    }
}

/// The first paragraph of `lines`, its lines trimmed and joined by a space.
pub open spec fn first_paragraph(lines: Seq<Seq<char>>) -> Option<Seq<char>> {
    let p = nonblank_prefix(lines.skip(leading_blank(lines) as int));
    if p.len() == 0 {
        None
    } else {
        Some(join(p, " "@))
    }
}

/// `s` with every leading copy of `p` removed (`str::trim_start_matches`).
pub open spec fn strip_prefix_all(s: Seq<char>, p: Seq<char>) -> Seq<char>
    decreases s.len(),
{
    if p.len() > 0 && has_prefix(s, p) {
        strip_prefix_all(s.skip(p.len() as int), p)
    } else {
        s
    }
}

/// `s` with every trailing `c` removed (`str::trim_end_matches`).
pub open spec fn strip_suffix_all(s: Seq<char>, c: char) -> Seq<char>
    decreases s.len(),
{
    if s.len() > 0 && s.last() == c {
        strip_suffix_all(s.drop_last(), c)
    } else {
        s
    }
}

pub open spec fn description_marker() -> Seq<char> {
    "本文说明"@
}

/// A description starts with `本文说明`, ends with `。` and holds something that
/// is not whitespace between them.
pub open spec fn valid_description(d: Seq<char>) -> bool {
    &&& has_prefix(d, description_marker())
    &&& has_suffix(d, seq!['。'])
    &&& trim(strip_suffix_all(strip_prefix_all(d, description_marker()), '。')).len() > 0
}

/// What `extract_metadata` returns, as title and description.
pub open spec fn metadata_of(content: Seq<char>) -> Result<
    (Seq<char>, Seq<char>),
    DocumentMetadataError,
> {
    let ls = doc_lines(content);
    match title_of_line(ls[0]) {
        None => Err(DocumentMetadataError::MissingTitle),
        Some(title) => match first_paragraph(ls.drop_first()) {
            None => Err(DocumentMetadataError::MissingDescription),
            Some(d) => if valid_description(d) {
                Ok((title, d))
            } else {
                Err(DocumentMetadataError::InvalidDescription)
            },
        },
    }
}

fn trimmed_string(v: &Vec<char>) -> (r: String)
    ensures
        r@ == trim(v@),
{
    let (i, j) = trim_bounds(v);
    string_from_range(v, i, j)
}

fn extract_title_from_line(line: &Vec<char>) -> (r: Option<String>)
    ensures
        r is Some <==> title_of_line(line@) is Some,
        r matches Some(t) ==> title_of_line(line@) == Some(t@),
{
    let (i, j) = trim_bounds(line);
    let t = vec_range(line, i, j);
    let marker = chars_of("# ");
    proof {
        reveal_strlit("# ");
    }
    if !starts_with_chars(&t, &marker) {
        return None;
    }
    let rest = vec_range(&t, 2, t.len());
    assert(rest@ =~= t@.skip(2));
    let title = trimmed_string(&rest);
    if title.as_str().unicode_len() == 0 {
        None
    } else {
        Some(title)
    }
}

fn vec_range(v: &Vec<char>, from: usize, to: usize) -> (r: Vec<char>)
    requires
        from <= to <= v@.len(),
    ensures
        r@ == v@.subrange(from as int, to as int),
{
    let mut r = Vec::new();
    let mut k = from;
    while k < to
        invariant
            from <= k <= to <= v@.len(),
            r@ == v@.subrange(from as int, k as int),
        decreases to - k,
    {
        r.push(v[k]);
        k = k + 1;
        assert(r@ =~= v@.subrange(from as int, k as int));
    }
    r
}

fn is_blank_chars(v: &Vec<char>) -> (r: bool)
    ensures
        r == is_blank_line(v@),
{
    let (i, j) = trim_bounds(v);
    i == j
}

proof fn lemma_leading_blank_step(lines: Seq<Seq<char>>, i: int)
    requires
        0 <= i < lines.len(),
        forall|k: int| 0 <= k < i ==> is_blank_line(#[trigger] lines[k]),
    ensures
        is_blank_line(lines[i]) ==> leading_blank(lines.skip(i)) == 1 + leading_blank(
            lines.skip(i + 1),
        ),
        !is_blank_line(lines[i]) ==> leading_blank(lines.skip(i)) == 0,
{
    assert(lines.skip(i)[0] == lines[i]);
    assert(lines.skip(i).drop_first() =~= lines.skip(i + 1));
}

proof fn lemma_leading_blank_split(lines: Seq<Seq<char>>, i: int)
    requires
        0 <= i <= lines.len(),
        forall|k: int| 0 <= k < i ==> is_blank_line(#[trigger] lines[k]),
    ensures
        leading_blank(lines) == i + leading_blank(lines.skip(i)),
    decreases i,
{
    if i == 0 {
        assert(lines.skip(0) =~= lines);
    } else {
        let t = lines.drop_first();
        assert forall|k: int| 0 <= k < i - 1 implies is_blank_line(#[trigger] t[k]) by {
            assert(t[k] == lines[k + 1]);
        }
        lemma_leading_blank_split(t, i - 1);
        assert(t.skip(i - 1) =~= lines.skip(i));
        assert(is_blank_line(lines[0]));
    }
}

fn extract_metadata_paragraph(lines: &Vec<Vec<char>>, from: usize) -> (r: Option<String>)
    requires
        from <= lines@.len(),
    ensures
        ({
            let ls = Seq::new((lines@.len() - from) as nat, |k: int| lines@[k + from]@);
            &&& r is Some <==> first_paragraph(ls) is Some
            &&& r matches Some(p) ==> first_paragraph(ls) == Some(p@)
        }),
{
    let ghost ls = Seq::new((lines@.len() - from) as nat, |k: int| lines@[k + from]@);
    let n = lines.len();
    let mut i = from;
    while i < n && is_blank_chars(&lines[i])
        invariant
            from <= i <= n == lines@.len(),
            ls == Seq::new((lines@.len() - from) as nat, |k: int| lines@[k + from]@),
            forall|k: int| 0 <= k < i - from ==> is_blank_line(#[trigger] ls[k]),
        decreases n - i,
    {
        assert(ls[i - from] == lines@[i as int]@);
        i = i + 1;
    }
    let ghost start = (i - from) as int;
    proof {
        lemma_leading_blank_split(ls, start);
        if start < ls.len() {
            assert(ls[start] == lines@[i as int]@);
            lemma_leading_blank_step(ls, start);
        } else {
            assert(ls.skip(start).len() == 0);
        }
        assert(leading_blank(ls) == start);
    }
    let ghost rest = ls.skip(start);
    let mut paragraph: Vec<String> = Vec::new();
    let mut j = i;
    assert(rest.skip(0) =~= rest);
    while j < n && !is_blank_chars(&lines[j])
        invariant
            from <= i <= j <= n == lines@.len(),
            start == i - from,
            rest == ls.skip(start),
            ls == Seq::new((lines@.len() - from) as nat, |k: int| lines@[k + from]@),
            nonblank_prefix(rest) == views(paragraph@) + nonblank_prefix(rest.skip(j - i)),
            paragraph@.len() == j - i,
        decreases n - j,
    {
        let ghost r2 = rest.skip(j - i);
        proof {
            assert(ls[j - from] == lines@[j as int]@);
            assert(r2[0] == lines@[j as int]@);
            assert(r2.drop_first() =~= rest.skip(j - i + 1));
        }
        let t = trimmed_string(&lines[j]);
        let ghost old_p = paragraph@;
        paragraph.push(t);
        proof {
            assert(views(paragraph@) =~= views(old_p).push(trim(lines@[j as int]@)));
            assert(views(old_p) + (seq![trim(r2[0])] + nonblank_prefix(r2.drop_first()))
                =~= views(paragraph@) + nonblank_prefix(r2.drop_first()));
        }
        j = j + 1;
    }
    proof {
        let r2 = rest.skip(j - i);
        if j < n {
            assert(ls[j - from] == lines@[j as int]@);
            assert(r2[0] == lines@[j as int]@);
        } else {
            assert(r2.len() == 0);
        }
        assert(nonblank_prefix(r2) =~= Seq::<Seq<char>>::empty());
        assert(nonblank_prefix(rest) =~= views(paragraph@));
    }
    if paragraph.len() == 0 {
        None
    } else {
        Some(join_strings(&paragraph, " "))
    }
}

proof fn lemma_strip_prefix_all_step(s: Seq<char>, p: Seq<char>)
    requires
        p.len() > 0,
        has_prefix(s, p),
    ensures
        strip_prefix_all(s, p) == strip_prefix_all(s.skip(p.len() as int), p),
{
}

fn is_valid_metadata_description(d: &Vec<char>) -> (r: bool)
    ensures
        r == valid_description(d@),
{
    let marker = chars_of("本文说明");
    let end = chars_of("。");
    proof {
        reveal_strlit("本文说明");
        reveal_strlit("。");
        assert(end@ =~= seq!['。']);
    }
    if !starts_with_chars(d, &marker) || !ends_with_chars(d, &end) {
        return false;
    }
    // drop every leading copy of the marker
    let mut i: usize = 0;
    assert(d@.skip(0) =~= d@);
    while matches_at(d, &marker, i)
        invariant
            i <= d.len(),
            marker@ == description_marker(),
            marker@.len() == 4,
            strip_prefix_all(d@, marker@) == strip_prefix_all(d@.skip(i as int), marker@),
        decreases d@.len() - i,
    {
        proof {
            let s = d@.skip(i as int);
            assert(s.take(4) =~= d@.subrange(i as int, i + 4));
            lemma_strip_prefix_all_step(s, marker@);
            assert(s.skip(4) =~= d@.skip(i + 4));
        }
        i = i + 4;
    }
    proof {
        let s = d@.skip(i as int);
        if has_prefix(s, marker@) {
            assert(s.take(4) =~= d@.subrange(i as int, i + 4));
        }
    }
    // then every trailing full stop
    let mut j: usize = d.len();
    assert(d@.subrange(i as int, d@.len() as int) =~= d@.skip(i as int));
    while j > i && d[j - 1] == '。'
        invariant
            i <= j <= d@.len(),
            strip_suffix_all(d@.skip(i as int), '。') == strip_suffix_all(
                d@.subrange(i as int, j as int),
                '。',
            ),
        decreases j,
    {
        proof {
            let s = d@.subrange(i as int, j as int);
            assert(s.drop_last() =~= d@.subrange(i as int, j - 1));
        }
        j = j - 1;
    }
    let core = vec_range(d, i, j);
    let (a, b) = trim_bounds(&core);
    a < b
}

/// Reads the title and the description from a document.
pub fn extract_metadata(content: &str) -> (r: Result<DocumentMetadata, DocumentMetadataError>)
    ensures
        match (r, metadata_of(content@)) {
            (Ok(m), Ok((t, d))) => m.title@ == t && m.description@ == d,
            (Err(e), Err(e2)) => e == e2,
            _ => false,
        },
{
    let chars = chars_of(content);
    let lines = split_chars(&chars, '\n');
    proof {
        lemma_split_on_nonempty(content@, '\n');
    }
    let title = match extract_title_from_line(&lines[0]) {
        Some(t) => t,
        None => return Err(DocumentMetadataError::MissingTitle),
    };
    let description = match extract_metadata_paragraph(&lines, 1) {
        Some(d) => d,
        None => {
            proof {
                let ls = Seq::new((lines@.len() - 1) as nat, |k: int| lines@[k + 1]@);
                assert(ls =~= doc_lines(content@).drop_first());
            }
            return Err(DocumentMetadataError::MissingDescription);
        },
    };
    proof {
        let ls = Seq::new((lines@.len() - 1) as nat, |k: int| lines@[k + 1]@);
        assert(ls =~= doc_lines(content@).drop_first());
    }
    let dchars = chars_of(description.as_str());
    if !is_valid_metadata_description(&dchars) {
        return Err(DocumentMetadataError::InvalidDescription);
    }
    Ok(DocumentMetadata { title, description })
}

// ---------------------------------------------------------------------------
// Reading back what was written
// ---------------------------------------------------------------------------

proof fn lemma_split_after(a: Seq<char>, b: Seq<char>, c: char)
    requires
        !a.contains(c),
    ensures
        split_on(a + seq![c] + b, c) == seq![a] + split_on(b, c),
    decreases a.len(),
{
    let s = a + seq![c] + b;
    if a.len() == 0 {
        assert(s.drop_first() =~= b);
        assert(s[0] == c);
        assert(a =~= Seq::<char>::empty());
        assert(split_on(s, c) == seq![Seq::<char>::empty()] + split_on(s.drop_first(), c));
    } else {
        let a1 = a.drop_first();
        assert(!a1.contains(c)) by {
            if a1.contains(c) {
                let k = choose|k: int| 0 <= k < a1.len() && a1[k] == c;
                assert(a[k + 1] == c);
            }
        }
        lemma_split_after(a1, b, c);
        assert(s.drop_first() =~= a1 + seq![c] + b);
        assert(s[0] == a[0]);
        assert(a[0] != c) by {
            if a[0] == c {
                assert(a.contains(c));
            }
        }
        assert(seq![a[0]] + a1 =~= a);
        assert(split_on(s, c) =~= seq![a] + split_on(b, c));
    }
}

proof fn lemma_trim_keeps(s: Seq<char>)
    requires
        s.len() > 0,
        !crate::utils::text::is_white(s[0]),
        !crate::utils::text::is_white(s.last()),
    ensures
        trim(s) == s,
{
}

/// A document written as its title line `# <title>`, a blank line and its
/// description line reads back as that title and description, whatever
/// follows after a blank line.
pub proof fn lemma_metadata_round_trip(title: Seq<char>, description: Seq<char>, rest: Seq<char>)
    requires
        title.len() > 0,
        !crate::utils::text::is_white(title[0]),
        !crate::utils::text::is_white(title.last()),
        !title.contains('\n'),
        valid_description(description),
        !description.contains('\n'),
        rest.len() == 0 || rest[0] == '\n',
    ensures
        metadata_of("# "@ + title + "\n\n"@ + description + "\n"@ + rest) == Ok::<
            (Seq<char>, Seq<char>),
            DocumentMetadataError,
        >((title, description)),
{
    reveal_strlit("# ");
    reveal_strlit("\n\n");
    reveal_strlit("\n");
    reveal_strlit("本文说明");
    let nl = seq!['\n'];
    let head = "# "@ + title;
    let content = "# "@ + title + "\n\n"@ + description + "\n"@ + rest;
    let tail = description + nl + rest;
    assert(!head.contains('\n')) by {
        if head.contains('\n') {
            let k = choose|k: int| 0 <= k < head.len() && head[k] == '\n';
            if k >= 2 {
                assert(title[k - 2] == '\n');
            }
        }
    }
    assert(content =~= head + nl + (Seq::<char>::empty() + nl + tail));
    lemma_split_after(head, Seq::<char>::empty() + nl + tail, '\n');
    lemma_split_after(Seq::<char>::empty(), tail, '\n');
    lemma_split_after(description, rest, '\n');
    let sr = split_on(rest, '\n');
    crate::utils::text::lemma_split_on_nonempty(rest, '\n');
    if rest.len() == 0 {
        assert(sr =~= seq![Seq::<char>::empty()]);
    } else {
        assert(rest =~= Seq::<char>::empty() + nl + rest.drop_first());
        lemma_split_after(Seq::<char>::empty(), rest.drop_first(), '\n');
    }
    assert(sr[0] =~= Seq::<char>::empty());
    let ls = doc_lines(content);
    assert(ls =~= seq![head, Seq::<char>::empty(), description] + sr);
    // the title line
    lemma_trim_keeps(head);
    assert(head.skip(2) =~= title);
    lemma_trim_keeps(title);
    assert(has_prefix(head, "# "@)) by {
        assert(head.take(2) =~= "# "@);
    }
    assert(title_of_line(ls[0]) == Some(title));
    // the paragraph
    let desc_marker = description_marker();
    assert(description.len() > 0 && description[0] == desc_marker[0]) by {
        assert(description.take(desc_marker.len() as int)[0] == description[0]);
    }
    assert(description.last() == '。') by {
        let sfx = description.skip(description.len() - 1);
        assert(sfx[0] == description.last());
    }
    lemma_trim_keeps(description);
    let rest_lines = ls.drop_first();
    assert(rest_lines =~= seq![Seq::<char>::empty(), description] + sr);
    assert(is_blank_line(rest_lines[0]));
    assert(rest_lines.drop_first() =~= seq![description] + sr);
    assert(!is_blank_line(description));
    assert(leading_blank(rest_lines.drop_first()) == 0);
    assert(leading_blank(rest_lines) == 1);
    assert(rest_lines.skip(1) =~= seq![description] + sr);
    let after = (seq![description] + sr).drop_first();
    assert(after =~= sr);
    assert(is_blank_line(sr[0])) by {
        assert(trim(sr[0]) =~= Seq::<char>::empty());
    }
    assert(nonblank_prefix(sr) =~= Seq::<Seq<char>>::empty());
    assert(nonblank_prefix(seq![description] + sr) =~= seq![description]);
    assert(first_paragraph(rest_lines) == Some(join(seq![description], " "@)));
    assert(join(seq![description], " "@) == description);
}

} // verus!
