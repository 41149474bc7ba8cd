//! Naming styles: their name patterns, guessing the style of a name, and
//! converting a name to a style.
use vstd::prelude::*;

use crate::utils::error::{AppError, detail, details_view, input_error, validation_error};
use crate::utils::paths::{anchored, compile_document_regex};
use crate::utils::pattern::{
    known_match, known_pattern, regex_compiles, regex_is_match, regex_matches,
};
use crate::utils::text::{
    chars_of, concat2, contains_char, is_alnum, is_alpha, is_digit, is_lower, is_upper, join,
    join_strings,
    lower, owned, push_char, str_eq, string_from_chars, to_lower, to_upper, upper, views,
};

verus! {

pub const LOWERCASE_NAMING_STYLE: &'static str = "snake_case";

pub const UPPERCASE_NAMING_STYLE: &'static str = "PascalCase";

/// The name pattern of each supported naming style (two styles also accept a
/// misspelt name).
pub open spec fn style_pattern(style: Seq<char>) -> Option<Seq<char>> {
    if style == "snake_case"@ {
        Some("[a-z][a-z0-9_]*"@)
    } else if style == "PascalCase"@ || style == "PaselCase"@ {
        Some("[A-Z][A-Za-z0-9]*"@)
    } else if style == "camelCase"@ || style == "camalCase"@ {
        Some("[a-z][A-Za-z0-9]*"@)
    } else if style == "kebab-case"@ {
        Some("[a-z][a-z0-9-]*"@)
    } else if style == "SCREAMING_SNAKE_CASE"@ || style == "screaming_snake_case"@ {
        Some("[A-Z][A-Z0-9_]*"@)
    } else {
        None
    }
}

/// The details of the error for an unsupported naming style.
pub open spec fn unsupported_style_details(style: Seq<char>) -> Seq<(Seq<char>, Seq<char>)> {
    seq![
        ("naming_style"@, style),
        ("supported[0]"@, "snake_case"@),
        ("supported[1]"@, "PascalCase"@),
        ("supported[2]"@, "PaselCase"@),
        ("supported[3]"@, "camelCase"@),
        ("supported[4]"@, "camalCase"@),
        ("supported[5]"@, "kebab-case"@),
        ("supported[6]"@, "SCREAMING_SNAKE_CASE"@),
        ("supported[7]"@, "screaming_snake_case"@),
    ]
}

pub open spec fn unsupported_style_error(style: Seq<char>) -> crate::utils::error::AppErrorView {
    input_error(
        "invalid_naming_style"@,
        "naming_style is not supported"@,
        unsupported_style_details(style),
    )
}

fn unsupported_naming_style(style: &str) -> (r: AppError)
    ensures
        r@ == unsupported_style_error(style@),
{
    let mut d = Vec::new();
    d.push(detail("naming_style", style));
    d.push(detail("supported[0]", "snake_case"));
    d.push(detail("supported[1]", "PascalCase"));
    d.push(detail("supported[2]", "PaselCase"));
    d.push(detail("supported[3]", "camelCase"));
    d.push(detail("supported[4]", "camalCase"));
    d.push(detail("supported[5]", "kebab-case"));
    d.push(detail("supported[6]", "SCREAMING_SNAKE_CASE"));
    d.push(detail("supported[7]", "screaming_snake_case"));
    assert(details_view(d@) =~= unsupported_style_details(style@));
    AppError::input_with_details("invalid_naming_style", "naming_style is not supported", d)
}

/// The name pattern of a naming style.
pub fn naming_style_regex(naming_style: &str) -> (r: Result<String, AppError>)
    ensures
        r is Ok <==> style_pattern(naming_style@) is Some,
        r matches Ok(p) ==> p@ == style_pattern(naming_style@)->0,
        r matches Err(e) ==> e@ == unsupported_style_error(naming_style@),
{
    if str_eq(naming_style, "snake_case") {
        Ok(owned("[a-z][a-z0-9_]*"))
    } else if str_eq(naming_style, "PascalCase") || str_eq(naming_style, "PaselCase") {
        Ok(owned("[A-Z][A-Za-z0-9]*"))
    } else if str_eq(naming_style, "camelCase") || str_eq(naming_style, "camalCase") {
        Ok(owned("[a-z][A-Za-z0-9]*"))
    } else if str_eq(naming_style, "kebab-case") {
        Ok(owned("[a-z][a-z0-9-]*"))
    } else if str_eq(naming_style, "SCREAMING_SNAKE_CASE") || str_eq(
        naming_style,
        "screaming_snake_case",
    ) {
        Ok(owned("[A-Z][A-Z0-9_]*"))
    } else {
        Err(unsupported_naming_style(naming_style))
    }
}

/// Styles whose documents directory is `Docs` rather than `docs`.
pub open spec fn uses_uppercase_doc_dir(style: Seq<char>) -> bool {
    style == "PascalCase"@ || style == "PaselCase"@ || style == "SCREAMING_SNAKE_CASE"@
}

pub fn naming_style_uses_uppercase_doc_dir(naming_style: &str) -> (r: bool)
    ensures
        r == uses_uppercase_doc_dir(naming_style@),
{
    str_eq(naming_style, "PascalCase") || str_eq(naming_style, "PaselCase") || str_eq(
        naming_style,
        "SCREAMING_SNAKE_CASE",
    )
}

/// A style with an upper-case documents directory is a supported style.
pub proof fn lemma_uppercase_doc_dir_style_supported(style: Seq<char>)
    requires
        uses_uppercase_doc_dir(style),
    ensures
        style_pattern(style) is Some,
{
}

// ---------------------------------------------------------------------------
// Guessing the style of a name
// ---------------------------------------------------------------------------

/// Whether a whole name matches the pattern of a style; false when the style
/// is unknown or its pattern does not compile.
pub open spec fn style_matches(name: Seq<char>, style: Seq<char>) -> bool {
    match style_pattern(style) {
        None => false,
        Some(p) => regex_compiles(anchored(p)) && regex_is_match(anchored(p), name),
    }
}

fn matches_naming_style(name: &str, naming_style: &str) -> (r: bool)
    ensures
        r == style_matches(name@, naming_style@),
        style_pattern(naming_style@) is Some ==> r == fits_style(name@, naming_style@),
{
    let pattern = match naming_style_regex(naming_style) {
        Ok(p) => p,
        Err(_) => return false,
    };
    proof {
        lemma_style_pattern_matches_shape(naming_style@, name@);
    }
    let regex = match compile_document_regex(pattern.as_str()) {
        Ok(re) => re,
        Err(_) => return false,
    };
    regex_matches(&regex, name)
}

pub open spec fn has_upper(name: Seq<char>) -> bool {
    exists|k: int| 0 <= k < name.len() && is_upper(#[trigger] name[k])
}

/// The naming style a name appears to follow.
pub open spec fn inferred_style(name: Seq<char>) -> Seq<char> {
    if name.contains('-') && style_matches(name, "kebab-case"@) {
        "kebab-case"@
    } else if name.contains('_') && style_matches(name, "SCREAMING_SNAKE_CASE"@) {
        "SCREAMING_SNAKE_CASE"@
    } else if name.contains('_') && style_matches(name, "snake_case"@) {
        "snake_case"@
    } else if has_upper(name) && style_matches(name, "PascalCase"@) {
        "PascalCase"@
    } else if has_upper(name) && style_matches(name, "camelCase"@) {
        "camelCase"@
    } else {
        "snake_case"@
    }
}

fn has_ascii_uppercase(v: &Vec<char>) -> (r: bool)
    ensures
        r == has_upper(v@),
{
    let mut i: usize = 0;
    while i < v.len()
        invariant
            i <= v@.len(),
            forall|k: int| 0 <= k < i ==> !is_upper(#[trigger] v@[k]),
        decreases v.len() - i,
    {
        if 'A' <= v[i] && v[i] <= 'Z' {
            return true;
        }
        i = i + 1;
    }
    false
}

/// The style a name appears to follow, by the shapes of the styles: the
/// same choice as `inferred_style`, with each pattern read as what it
/// matches.
pub open spec fn inferred_shape_style(name: Seq<char>) -> Seq<char> {
    if name.contains('-') && fits_style(name, "kebab-case"@) {
        "kebab-case"@
    } else if name.contains('_') && fits_style(name, "SCREAMING_SNAKE_CASE"@) {
        "SCREAMING_SNAKE_CASE"@
    } else if name.contains('_') && fits_style(name, "snake_case"@) {
        "snake_case"@
    } else if has_upper(name) && fits_style(name, "PascalCase"@) {
        "PascalCase"@
    } else if has_upper(name) && fits_style(name, "camelCase"@) {
        "camelCase"@
    } else {
        "snake_case"@
    }
}

pub fn infer_naming_style_from_name(name: &str) -> (r: &'static str)
    ensures
        r@ == inferred_style(name@),
        r@ == inferred_shape_style(name@),
{
    proof {
        reveal_strlit("snake_case");
        reveal_strlit("kebab-case");
        reveal_strlit("SCREAMING_SNAKE_CASE");
        reveal_strlit("PascalCase");
        reveal_strlit("camelCase");
        assert(style_pattern("kebab-case"@) is Some);
        assert(style_pattern("SCREAMING_SNAKE_CASE"@) is Some);
        assert(style_pattern("snake_case"@) is Some);
        assert(style_pattern("PascalCase"@) is Some);
        assert(style_pattern("camelCase"@) is Some);
    }
    let v = chars_of(name);
    if contains_char(&v, '-') && matches_naming_style(name, "kebab-case") {
        return "kebab-case";
    }
    if contains_char(&v, '_') && matches_naming_style(name, "SCREAMING_SNAKE_CASE") {
        return "SCREAMING_SNAKE_CASE";
    }
    if contains_char(&v, '_') && matches_naming_style(name, "snake_case") {
        return "snake_case";
    }
    if has_ascii_uppercase(&v) {
        if matches_naming_style(name, "PascalCase") {
            return UPPERCASE_NAMING_STYLE;
        }
        if matches_naming_style(name, "camelCase") {
            return "camelCase";
        }
    }
    LOWERCASE_NAMING_STYLE
}

/// Every style that can be inferred is a supported style.
pub proof fn lemma_inferred_style_supported(name: Seq<char>)
    ensures
        style_pattern(inferred_style(name)) is Some,
{
}

// ---------------------------------------------------------------------------
// Words of a name
// ---------------------------------------------------------------------------

pub open spec fn push_word(words: Seq<Seq<char>>, cur: Seq<char>) -> Seq<Seq<char>> {
    if cur.len() > 0 {
        words.push(cur)
    } else {
        words
    }
}

/// An upper-case letter starts a new word inside a run of letters and digits
/// when it follows a lower-case letter or a digit, or when it ends a run of
/// capitals and a lower-case letter follows it (`HTTPServer`).
pub open spec fn starts_word(chars: Seq<char>, i: int, cur: Seq<char>) -> bool {
    &&& is_upper(chars[i])
    &&& cur.len() > 0
    &&& {
        let prev = chars[i - 1];
        let next_is_lower = i + 1 < chars.len() && is_lower(chars[i + 1]);
        is_lower(prev) || is_digit(prev) || (is_upper(prev) && next_is_lower)
    }
}

/// The words found from position `i` on, given the words found so far and
/// the word being read.
pub open spec fn words_from(
    chars: Seq<char>,
    i: int,
    words: Seq<Seq<char>>,
    cur: Seq<char>,
) -> Seq<Seq<char>>
    decreases chars.len() - i,
{
    if i < 0 || i >= chars.len() {
        push_word(words, cur)
    } else if !is_alnum(chars[i]) {
        words_from(chars, i + 1, push_word(words, cur), Seq::empty())
    } else if starts_word(chars, i, cur) {
        words_from(chars, i + 1, push_word(words, cur), seq![lower(chars[i])])
    } else {
        words_from(chars, i + 1, words, cur.push(lower(chars[i])))
    }
}

/// The lower-case words of a name: runs of ASCII letters and digits, split
/// further where the case changes.
pub open spec fn name_words(name: Seq<char>) -> Seq<Seq<char>> {
    words_from(name, 0, Seq::empty(), Seq::empty())
}

fn split_name_words(name: &str) -> (r: Vec<String>)
    ensures
        views(r@) == name_words(name@),
{
    let chars = chars_of(name);
    let mut words: Vec<String> = Vec::new();
    let mut current: Vec<char> = Vec::new();
    let mut index: usize = 0;
    assert(views(words@) =~= Seq::<Seq<char>>::empty());
    while index < chars.len()
        invariant
            index <= chars@.len(),
            current@.len() > 0 ==> index > 0,
            chars@ == name@,
            name_words(name@) == words_from(chars@, index as int, views(words@), current@),
        decreases chars.len() - index,
    {
        let character = chars[index];
        let is_alnum_c = ('a' <= character && character <= 'z') || ('A' <= character && character
            <= 'Z') || ('0' <= character && character <= '9');
        if !is_alnum_c {
            push_word_exec(&mut words, &mut current);
        } else {
            if 'A' <= character && character <= 'Z' && current.len() > 0 {
                let previous = chars[index - 1];
                let next_is_lowercase = index + 1 < chars.len() && 'a' <= chars[index + 1]
                    && chars[index + 1] <= 'z';
                if ('a' <= previous && previous <= 'z') || ('0' <= previous && previous <= '9') || (
                'A' <= previous && previous <= 'Z' && next_is_lowercase) {
                    push_word_exec(&mut words, &mut current);
                }
            }
            current.push(to_lower(character));
        }
        index = index + 1;
    }
    push_word_exec(&mut words, &mut current);
    words
}

fn push_word_exec(words: &mut Vec<String>, current: &mut Vec<char>)
    ensures
        views(final(words)@) == push_word(views(old(words)@), old(current)@),
        final(current)@ == Seq::<char>::empty(),
{
    if current.len() > 0 {
        let w = string_from_chars(current);
        let ghost before = words@;
        words.push(w);
        proof {
            assert(views(words@) =~= views(before).push(old(current)@));
        }
    }
    *current = Vec::new();
}

// ---------------------------------------------------------------------------
// Converting a name to a style
// ---------------------------------------------------------------------------

/// `word` with its first character in upper case.
pub open spec fn capitalize(word: Seq<char>) -> Seq<char> {
    if word.len() == 0 {
        word
    } else {
        seq![upper(word[0])] + word.skip(1)
    }
}

pub open spec fn upper_all(s: Seq<char>) -> Seq<char> {
    s.map_values(|c: char| upper(c))
}

pub open spec fn capitalize_all(words: Seq<Seq<char>>) -> Seq<Seq<char>> {
    words.map_values(|w: Seq<char>| capitalize(w))
}

/// A name written in a style, given its words; `None` for an unknown style.
/// The words are ASCII, so upper-casing them by ASCII rules is `to_uppercase`.
pub open spec fn styled(words: Seq<Seq<char>>, style: Seq<char>) -> Option<Seq<char>> {
    if style == "snake_case"@ {
        Some(join(words, "_"@))
    } else if style == "kebab-case"@ {
        Some(join(words, "-"@))
    } else if style == "SCREAMING_SNAKE_CASE"@ || style == "screaming_snake_case"@ {
        Some(upper_all(join(words, "_"@)))
    } else if style == "PascalCase"@ || style == "PaselCase"@ {
        Some(join(capitalize_all(words), Seq::empty()))
    } else if style == "camelCase"@ || style == "camalCase"@ {
        Some(words[0] + join(capitalize_all(words.drop_first()), Seq::empty()))
    } else {
        None
    }
}

pub open spec fn convert_error_details(name: Seq<char>, style: Seq<char>) -> Seq<
    (Seq<char>, Seq<char>),
> {
    seq![("document"@, name), ("naming_style"@, style)]
}

/// What converting `name` to `style` gives: the styled name, or why there is
/// none.
pub open spec fn converted_name(name: Seq<char>, style: Seq<char>) -> Result<
    Seq<char>,
    crate::utils::error::AppErrorView,
> {
    if name_words(name).len() == 0 {
        Err(
            validation_error(
                "invalid_document_name"@,
                "document name cannot be converted to naming_style"@,
                convert_error_details(name, style),
            ),
        )
    } else {
        match styled(name_words(name), style) {
            None => Err(unsupported_style_error(style)),
            Some(s) => Ok(s),
        }
    }
}

fn capitalize_ascii(word: &str) -> (r: String)
    ensures
        r@ == capitalize(word@),
{
    let v = chars_of(word);
    if v.len() == 0 {
        return String::new();
    }
    let mut output = String::new();
    push_char(&mut output, to_upper(v[0]));
    let mut i: usize = 1;
    while i < v.len()
        invariant
            1 <= i <= v@.len(),
            output@ == seq![upper(v@[0])] + v@.subrange(1, i as int),
        decreases v.len() - i,
    {
        push_char(&mut output, v[i]);
        i = i + 1;
        assert(output@ =~= seq![upper(v@[0])] + v@.subrange(1, i as int));
    }
    assert(v@.subrange(1, v@.len() as int) =~= v@.skip(1));
    output
}

fn capitalize_words(words: &Vec<String>, from: usize) -> (r: Vec<String>)
    requires
        from <= words@.len(),
    ensures
        views(r@) == capitalize_all(views(words@).skip(from as int)),
{
    let mut r: Vec<String> = Vec::new();
    let mut i = from;
    while i < words.len()
        invariant
            from <= i <= words@.len(),
            views(r@) == capitalize_all(views(words@).subrange(from as int, i as int)),
        decreases words.len() - i,
    {
        let c = capitalize_ascii(words[i].as_str());
        let ghost before = r@;
        r.push(c);
        proof {
            assert(views(r@) =~= views(before).push(capitalize(words@[i as int]@)));
            assert(views(words@).subrange(from as int, i + 1) =~= views(words@).subrange(
                from as int,
                i as int,
            ).push(words@[i as int]@));
            assert(capitalize_all(views(words@).subrange(from as int, i + 1)) =~= capitalize_all(
                views(words@).subrange(from as int, i as int),
            ).push(capitalize(words@[i as int]@)));
        }
        i = i + 1;
    }
    assert(views(words@).subrange(from as int, words@.len() as int) =~= views(words@).skip(
        from as int,
    ));
    r
}

fn ascii_uppercase(s: &str) -> (r: String)
    ensures
        r@ == upper_all(s@),
{
    let v = chars_of(s);
    let mut out: Vec<char> = Vec::new();
    let mut i: usize = 0;
    while i < v.len()
        invariant
            i <= v@.len(),
            out@ == upper_all(v@.take(i as int)),
        decreases v.len() - i,
    {
        out.push(to_upper(v[i]));
        i = i + 1;
        assert(out@ =~= upper_all(v@.take(i as int)));
    }
    assert(v@.take(v@.len() as int) =~= v@);
    string_from_chars(&out)
}

pub fn convert_name_to_naming_style(name: &str, naming_style: &str) -> (r: Result<
    String,
    AppError,
>)
    ensures
        name_words(name@).len() == 0 ==> (r matches Err(e) && e@ == validation_error(
            "invalid_document_name"@,
            "document name cannot be converted to naming_style"@,
            convert_error_details(name@, naming_style@),
        )),
        name_words(name@).len() > 0 && styled(name_words(name@), naming_style@) is None ==> (
        r matches Err(e) && e@ == unsupported_style_error(naming_style@)),
        name_words(name@).len() > 0 && styled(name_words(name@), naming_style@) is Some ==> (
        r matches Ok(s) && s@ == styled(name_words(name@), naming_style@)->0),
        r matches Ok(s) ==> converted_name(name@, naming_style@) == Ok::<
            Seq<char>,
            crate::utils::error::AppErrorView,
        >(s@),
        r matches Err(e) ==> converted_name(name@, naming_style@) == Err::<
            Seq<char>,
            crate::utils::error::AppErrorView,
        >(e@),
{
    let words = split_name_words(name);
    if words.len() == 0 {
        let mut d = Vec::new();
        d.push(detail("document", name));
        d.push(detail("naming_style", naming_style));
        assert(details_view(d@) =~= convert_error_details(name@, naming_style@));
        return Err(
            AppError::validation(
                "invalid_document_name",
                "document name cannot be converted to naming_style",
                d,
            ),
        );
    }
    if str_eq(naming_style, "snake_case") {
        Ok(join_strings(&words, "_"))
    } else if str_eq(naming_style, "kebab-case") {
        Ok(join_strings(&words, "-"))
    } else if str_eq(naming_style, "SCREAMING_SNAKE_CASE") || str_eq(
        naming_style,
        "screaming_snake_case",
    ) {
        let joined = join_strings(&words, "_");
        Ok(ascii_uppercase(joined.as_str()))
    } else if str_eq(naming_style, "PascalCase") || str_eq(naming_style, "PaselCase") {
        let caps = capitalize_words(&words, 0);
        assert(views(words@).skip(0) =~= views(words@));
        proof {
            reveal_strlit("");
            assert(""@ =~= Seq::<char>::empty());
        }
        Ok(join_strings(&caps, ""))
    } else if str_eq(naming_style, "camelCase") || str_eq(naming_style, "camalCase") {
        let caps = capitalize_words(&words, 1);
        assert(views(words@).skip(1) =~= views(words@).drop_first());
        proof {
            reveal_strlit("");
            assert(""@ =~= Seq::<char>::empty());
            assert(views(words@)[0] == words@[0]@);
        }
        let rest = join_strings(&caps, "");
        Ok(concat2(words[0].as_str(), rest.as_str()))
    } else {
        Err(unsupported_naming_style(naming_style))
    }
}

} // verus!

verus! {

// ---------------------------------------------------------------------------
// Converting twice
// ---------------------------------------------------------------------------

/// A word as `name_words` produces it: not empty, ASCII letters and digits,
/// no upper case.
pub open spec fn word_ok(w: Seq<char>) -> bool {
    w.len() > 0 && forall|k: int| 0 <= k < w.len() ==> is_alnum(#[trigger] w[k]) && !is_upper(w[k])
}

pub open spec fn chars_ok(w: Seq<char>) -> bool {
    forall|k: int| 0 <= k < w.len() ==> is_alnum(#[trigger] w[k]) && !is_upper(w[k])
}

proof fn lemma_words_from_ok(chars: Seq<char>, i: int, words: Seq<Seq<char>>, cur: Seq<char>)
    requires
        forall|k: int| 0 <= k < words.len() ==> word_ok(#[trigger] words[k]),
        chars_ok(cur),
    ensures
        forall|k: int|
            0 <= k < words_from(chars, i, words, cur).len() ==> word_ok(
                #[trigger] words_from(chars, i, words, cur)[k],
            ),
    decreases chars.len() - i,
{
    let pw = push_word(words, cur);
    assert forall|k: int| 0 <= k < pw.len() implies word_ok(#[trigger] pw[k]) by {
        if k < words.len() {
            assert(pw[k] == words[k]);
        } else {
            assert(cur.len() > 0 && pw[k] == cur);
        }
    }
    if i < 0 || i >= chars.len() {
    } else {
        let c = chars[i];
        crate::utils::text::lemma_lower_upper(c);
        if !is_alnum(c) {
            lemma_words_from_ok(chars, i + 1, pw, Seq::empty());
            assert(words_from(chars, i, words, cur) == words_from(chars, i + 1, pw, Seq::empty()));
        } else if starts_word(chars, i, cur) {
            let n = seq![lower(c)];
            assert(n[0] == lower(c));
            assert(chars_ok(n));
            lemma_words_from_ok(chars, i + 1, pw, n);
            assert(words_from(chars, i, words, cur) == words_from(chars, i + 1, pw, n));
        } else {
            let n = cur.push(lower(c));
            assert forall|k: int| 0 <= k < n.len() implies is_alnum(#[trigger] n[k]) && !is_upper(
                n[k],
            ) by {
                if k < cur.len() {
                    assert(n[k] == cur[k]);
                } else {
                    assert(n[k] == lower(c));
                }
            }
            lemma_words_from_ok(chars, i + 1, words, n);
            assert(words_from(chars, i, words, cur) == words_from(chars, i + 1, words, n));
        }
    }
}

/// Reading a word of lower-case letters and digits only extends the current
/// word.
proof fn lemma_read_ok_word(
    s: Seq<char>,
    i: int,
    w: Seq<char>,
    words: Seq<Seq<char>>,
    cur: Seq<char>,
)
    requires
        0 <= i,
        i + w.len() <= s.len(),
        s.subrange(i, i + w.len()) == w,
        chars_ok(w),
    ensures
        words_from(s, i, words, cur) == words_from(s, i + w.len(), words, cur + w),
    decreases w.len(),
{
    if w.len() == 0 {
        assert(cur + w =~= cur);
    } else {
        let c = w[0];
        assert(s[i] == s.subrange(i, i + w.len())[0]);
        crate::utils::text::lemma_lower_upper(c);
        let rest = w.drop_first();
        assert(s.subrange(i + 1, i + 1 + rest.len()) =~= rest) by {
            assert forall|k: int| 0 <= k < rest.len() implies s.subrange(
                i + 1,
                i + 1 + rest.len(),
            )[k] == rest[k] by {
                assert(s.subrange(i, i + w.len())[k + 1] == w[k + 1]);
            }
        }
        assert forall|k: int| 0 <= k < rest.len() implies is_alnum(#[trigger] rest[k]) && !is_upper(
            rest[k],
        ) by {
            assert(rest[k] == w[k + 1]);
        }
        lemma_read_ok_word(s, i + 1, rest, words, cur.push(c));
        assert(cur.push(c) + rest =~= cur + w);
    }
}

proof fn lemma_join_front(ws: Seq<Seq<char>>, sep: Seq<char>)
    requires
        ws.len() >= 2,
    ensures
        join(ws, sep) == ws[0] + sep + join(ws.drop_first(), sep),
    decreases ws.len(),
{
    if ws.len() == 2 {
        assert(ws.drop_last().len() == 1);
        assert(ws.drop_first().len() == 1);
        assert(ws.drop_first()[0] == ws[1]);
        assert(join(ws.drop_last(), sep) == ws[0]);
        assert(join(ws.drop_first(), sep) == ws[1]);
    } else {
        lemma_join_front(ws.drop_last(), sep);
        assert(ws.drop_last().drop_first() =~= ws.drop_first().drop_last());
        assert(ws.drop_first().last() == ws.last());
        assert(ws.drop_last()[0] == ws[0]);
        let a = ws[0];
        let m = join(ws.drop_first().drop_last(), sep);
        assert(join(ws.drop_first(), sep) == m + sep + ws.last());
        assert(join(ws, sep) == a + sep + m + sep + ws.last());
        assert(a + sep + m + sep + ws.last() =~= a + sep + (m + sep + ws.last()));
    }
}

/// Splitting the join of good words at a separator that is not a letter or a
/// digit gives the words back.
proof fn lemma_words_of_join(
    s: Seq<char>,
    i: int,
    ws: Seq<Seq<char>>,
    sep: char,
    words: Seq<Seq<char>>,
)
    requires
        0 <= i <= s.len(),
        ws.len() >= 1,
        forall|k: int| 0 <= k < ws.len() ==> word_ok(#[trigger] ws[k]),
        !is_alnum(sep),
        s.skip(i) == join(ws, seq![sep]),
    ensures
        words_from(s, i, words, Seq::empty()) == words + ws,
    decreases ws.len(),
{
    let w = ws[0];
    assert(word_ok(w));
    if ws.len() == 1 {
        assert(s.skip(i) == w);
        assert(s.subrange(i, i + w.len()) =~= w);
        lemma_read_ok_word(s, i, w, words, Seq::empty());
        assert(Seq::<char>::empty() + w =~= w);
        assert(words_from(s, i + w.len(), words, w) == push_word(words, w));
        assert(words.push(w) =~= words + ws);
    } else {
        lemma_join_front(ws, seq![sep]);
        let rest = ws.drop_first();
        let tail = join(rest, seq![sep]);
        assert(s.skip(i) == w + seq![sep] + tail);
        assert(s.subrange(i, i + w.len()) =~= w) by {
            assert forall|k: int| 0 <= k < w.len() implies s.subrange(i, i + w.len())[k] == w[k] by {
                assert(s.skip(i)[k] == (w + seq![sep] + tail)[k]);
            }
        }
        lemma_read_ok_word(s, i, w, words, Seq::empty());
        assert(Seq::<char>::empty() + w =~= w);
        let j = i + w.len();
        assert(s[j] == sep) by {
            assert(s.skip(i)[w.len() as int] == (w + seq![sep] + tail)[w.len() as int]);
        }
        assert(words_from(s, j, words, w) == words_from(s, j + 1, words.push(w), Seq::empty()));
        assert(s.skip(j + 1) =~= tail) by {
            assert forall|k: int| 0 <= k < tail.len() implies s.skip(j + 1)[k] == tail[k] by {
                assert(s.skip(i)[w.len() + 1 + k] == (w + seq![sep] + tail)[w.len() + 1 + k]);
            }
        }
        assert forall|k: int| 0 <= k < rest.len() implies word_ok(#[trigger] rest[k]) by {
            assert(rest[k] == ws[k + 1]);
        }
        lemma_words_of_join(s, j + 1, rest, sep, words.push(w));
        assert(words.push(w) + rest =~= words + ws);
    }
}

/// Converting a name to `snake_case` or `kebab-case` a second time changes
/// nothing: the words of the converted name are the words of the name.
pub proof fn lemma_convert_twice(name: Seq<char>, style: Seq<char>)
    requires
        style == "snake_case"@ || style == "kebab-case"@,
        name_words(name).len() > 0,
    ensures
        styled(name_words(name), style) is Some,
        name_words(styled(name_words(name), style)->0) == name_words(name),
        styled(name_words(styled(name_words(name), style)->0), style) == styled(
            name_words(name),
            style,
        ),
{
    reveal_strlit("_");
    reveal_strlit("-");
    reveal_strlit("snake_case");
    reveal_strlit("kebab-case");
    let ws = name_words(name);
    lemma_words_from_ok(name, 0, Seq::empty(), Seq::empty());
    let sep = if style == "snake_case"@ {
        '_'
    } else {
        '-'
    };
    assert(style == "snake_case"@ ==> "_"@ =~= seq![sep]);
    assert(style != "snake_case"@ ==> "-"@ =~= seq![sep]);
    let s = join(ws, seq![sep]);
    assert(styled(ws, style) == Some(s));
    assert(s.skip(0) =~= s);
    lemma_words_of_join(s, 0, ws, sep, Seq::empty());
    assert(Seq::<Seq<char>>::empty() + ws =~= ws);
}

// ---------------------------------------------------------------------------
// The shape of a converted name
// ---------------------------------------------------------------------------

/// The shape that the name pattern of `style` describes: a first letter of
/// the style's case, then letters, digits and the style's separator.
pub open spec fn fits_style(s: Seq<char>, style: Seq<char>) -> bool {
    s.len() > 0 && if style == "snake_case"@ {
        is_lower(s[0]) && forall|k: int|
            0 <= k < s.len() ==> is_lower(#[trigger] s[k]) || is_digit(s[k]) || s[k] == '_'
    } else if style == "kebab-case"@ {
        is_lower(s[0]) && forall|k: int|
            0 <= k < s.len() ==> is_lower(#[trigger] s[k]) || is_digit(s[k]) || s[k] == '-'
    } else if style == "SCREAMING_SNAKE_CASE"@ || style == "screaming_snake_case"@ {
        is_upper(s[0]) && forall|k: int|
            0 <= k < s.len() ==> is_upper(#[trigger] s[k]) || is_digit(s[k]) || s[k] == '_'
    } else if style == "PascalCase"@ || style == "PaselCase"@ {
        is_upper(s[0]) && forall|k: int| 0 <= k < s.len() ==> is_alnum(#[trigger] s[k])
    } else if style == "camelCase"@ || style == "camalCase"@ {
        is_lower(s[0]) && forall|k: int| 0 <= k < s.len() ==> is_alnum(#[trigger] s[k])
    } else {
        false
    }
}

proof fn lemma_join_chars(ws: Seq<Seq<char>>, sep: Seq<char>, ok: spec_fn(char) -> bool)
    requires
        forall|i: int, k: int|
            0 <= i < ws.len() && 0 <= k < ws[i].len() ==> #[trigger] ok(#[trigger] ws[i][k]),
        forall|k: int| 0 <= k < sep.len() ==> #[trigger] ok(sep[k]),
    ensures
        forall|k: int| 0 <= k < join(ws, sep).len() ==> #[trigger] ok(join(ws, sep)[k]),
    decreases ws.len(),
{
    if ws.len() == 1 {
        assert forall|k: int| 0 <= k < join(ws, sep).len() implies #[trigger] ok(join(ws, sep)[k]) by {
            assert(join(ws, sep)[k] == ws[0][k]);
        }
    } else if ws.len() > 1 {
        let a = join(ws.drop_last(), sep);
        lemma_join_chars(ws.drop_last(), sep, ok);
        assert forall|k: int| 0 <= k < join(ws, sep).len() implies #[trigger] ok(join(ws, sep)[k]) by {
            let j = join(ws, sep);
            assert(j == a + sep + ws.last());
            if k < a.len() {
                assert(j[k] == a[k]);
            } else if k < a.len() + sep.len() {
                assert(j[k] == sep[k - a.len()]);
            } else {
                assert(j[k] == ws[ws.len() - 1][k - a.len() - sep.len()]);
            }
        }
    }
}

proof fn lemma_join_head(ws: Seq<Seq<char>>, sep: Seq<char>)
    requires
        ws.len() > 0,
        ws[0].len() > 0,
    ensures
        join(ws, sep).len() > 0,
        join(ws, sep)[0] == ws[0][0],
    decreases ws.len(),
{
    if ws.len() > 1 {
        lemma_join_head(ws.drop_last(), sep);
        assert(join(ws, sep) == join(ws.drop_last(), sep) + sep + ws.last());
    }
}

proof fn lemma_capitalized_words(ws: Seq<Seq<char>>)
    requires
        forall|i: int| 0 <= i < ws.len() ==> word_ok(#[trigger] ws[i]),
    ensures
        forall|i: int, k: int|
            0 <= i < capitalize_all(ws).len() && 0 <= k < capitalize_all(ws)[i].len()
                ==> #[trigger] is_alnum(#[trigger] capitalize_all(ws)[i][k]),
        forall|i: int|
            0 <= i < ws.len() ==> capitalize_all(ws)[i].len() > 0 && is_upper(
                #[trigger] capitalize_all(ws)[i][0],
            ) || is_digit(capitalize_all(ws)[i][0]),
{
    assert forall|i: int, k: int|
        0 <= i < capitalize_all(ws).len() && 0 <= k < capitalize_all(ws)[i].len() implies
        #[trigger] is_alnum(#[trigger] capitalize_all(ws)[i][k]) by {
        let w = ws[i];
        assert(word_ok(w));
        assert(capitalize_all(ws)[i] == capitalize(w));
        crate::utils::text::lemma_lower_upper(w[0]);
        if k > 0 {
            assert(capitalize(w)[k] == w[k]);
        }
    }
    assert forall|i: int| 0 <= i < ws.len() implies capitalize_all(ws)[i].len() > 0 && is_upper(
        #[trigger] capitalize_all(ws)[i][0],
    ) || is_digit(capitalize_all(ws)[i][0]) by {
        let w = ws[i];
        assert(word_ok(w));
        assert(capitalize_all(ws)[i] == capitalize(w));
        crate::utils::text::lemma_lower_upper(w[0]);
    }
}

/// A name whose first word starts with a letter converts, in any supported
/// style, to a name of the shape that the style's pattern describes.
pub proof fn lemma_converted_name_fits_style(name: Seq<char>, style: Seq<char>)
    requires
        style_pattern(style) is Some,
        name_words(name).len() > 0,
        is_alpha(name_words(name)[0][0]),
    ensures
        converted_name(name, style) is Ok,
        fits_style(converted_name(name, style)->Ok_0, style),
{
    reveal_strlit("_");
    reveal_strlit("-");
    reveal_strlit("snake_case");
    reveal_strlit("kebab-case");
    reveal_strlit("SCREAMING_SNAKE_CASE");
    reveal_strlit("screaming_snake_case");
    reveal_strlit("PascalCase");
    reveal_strlit("PaselCase");
    reveal_strlit("camelCase");
    reveal_strlit("camalCase");
    let ws = name_words(name);
    lemma_words_from_ok(name, 0, Seq::empty(), Seq::empty());
    assert(word_ok(ws[0]));
    let c0 = ws[0][0];
    assert(is_lower(c0));
    assert forall|i: int, k: int| 0 <= i < ws.len() && 0 <= k < ws[i].len() implies
        #[trigger] is_lower(#[trigger] ws[i][k]) || is_digit(ws[i][k]) by {
        assert(word_ok(ws[i]));
    }
    if style == "snake_case"@ || style == "SCREAMING_SNAKE_CASE"@ || style
        == "screaming_snake_case"@ {
        let ok = |c: char| is_lower(c) || is_digit(c) || c == '_';
        assert forall|i: int, k: int| 0 <= i < ws.len() && 0 <= k < ws[i].len() implies
            #[trigger] ok(#[trigger] ws[i][k]) by {
            assert(word_ok(ws[i]));
        }
        lemma_join_chars(ws, "_"@, ok);
        lemma_join_head(ws, "_"@);
        let j = join(ws, "_"@);
        assert forall|k: int| 0 <= k < j.len() implies is_lower(#[trigger] j[k]) || is_digit(j[k])
            || j[k] == '_' by {
            assert(ok(j[k]));
        }
        if style != "snake_case"@ {
            let u = upper_all(j);
            assert forall|k: int| 0 <= k < u.len() implies is_upper(#[trigger] u[k]) || is_digit(
                u[k],
            ) || u[k] == '_' by {
                assert(ok(j[k]));
                crate::utils::text::lemma_lower_upper(j[k]);
            }
            crate::utils::text::lemma_lower_upper(c0);
            assert(u[0] == upper(j[0]));
            assert("kebab-case"@[0] == 'k');
            assert("SCREAMING_SNAKE_CASE"@[0] == 'S');
            assert("screaming_snake_case"@[0] == 's');
            assert(style != "kebab-case"@);
            assert(fits_style(u, style));
        } else {
            assert(fits_style(j, style));
        }
    } else if style == "kebab-case"@ {
        let ok = |c: char| is_lower(c) || is_digit(c) || c == '-';
        assert forall|i: int, k: int| 0 <= i < ws.len() && 0 <= k < ws[i].len() implies
            #[trigger] ok(#[trigger] ws[i][k]) by {
            assert(word_ok(ws[i]));
        }
        lemma_join_chars(ws, "-"@, ok);
        lemma_join_head(ws, "-"@);
        let j = join(ws, "-"@);
        assert forall|k: int| 0 <= k < j.len() implies is_lower(#[trigger] j[k]) || is_digit(j[k])
            || j[k] == '-' by {
            assert(ok(j[k]));
        }
        assert(fits_style(j, style));
    } else {
        let ok = |c: char| is_alnum(c);
        let empty = Seq::<char>::empty();
        if style == "PascalCase"@ || style == "PaselCase"@ {
            let cs = capitalize_all(ws);
            lemma_capitalized_words(ws);
            assert forall|i: int, k: int| 0 <= i < cs.len() && 0 <= k < cs[i].len() implies
                #[trigger] ok(#[trigger] cs[i][k]) by {
                assert(is_alnum(cs[i][k]));
            }
            lemma_join_chars(cs, empty, ok);
            assert(cs[0] == capitalize(ws[0]));
            crate::utils::text::lemma_lower_upper(c0);
            lemma_join_head(cs, empty);
            let j = join(cs, empty);
            assert forall|k: int| 0 <= k < j.len() implies is_alnum(#[trigger] j[k]) by {
                assert(ok(j[k]));
            }
            assert(fits_style(j, style));
        } else {
            let rest = ws.drop_first();
            assert forall|i: int| 0 <= i < rest.len() implies word_ok(#[trigger] rest[i]) by {
                assert(rest[i] == ws[i + 1]);
            }
            let cs = capitalize_all(rest);
            lemma_capitalized_words(rest);
            assert forall|i: int, k: int| 0 <= i < cs.len() && 0 <= k < cs[i].len() implies
                #[trigger] ok(#[trigger] cs[i][k]) by {
                assert(is_alnum(cs[i][k]));
            }
            lemma_join_chars(cs, empty, ok);
            let t = join(cs, empty);
            let r = ws[0] + t;
            assert forall|k: int| 0 <= k < r.len() implies is_alnum(#[trigger] r[k]) by {
                if k < ws[0].len() {
                    assert(r[k] == ws[0][k]);
                } else {
                    assert(r[k] == t[k - ws[0].len()]);
                    assert(ok(t[k - ws[0].len()]));
                }
            }
            assert(r[0] == c0);
            assert(fits_style(r, style));
        }
    }
}

/// The anchored pattern of every supported style is one of the known
/// patterns, and what it matches is exactly the shape of the style.
pub proof fn lemma_style_pattern_matches_shape(style: Seq<char>, t: Seq<char>)
    requires
        style_pattern(style) is Some,
    ensures
        known_pattern(anchored(style_pattern(style)->0)),
        known_match(anchored(style_pattern(style)->0), t) == fits_style(t, style),
{
    reveal_strlit("^(?:");
    reveal_strlit(")$");
    reveal_strlit("[a-z][a-z0-9_]*");
    reveal_strlit("[A-Z][A-Za-z0-9]*");
    reveal_strlit("[a-z][A-Za-z0-9]*");
    reveal_strlit("[a-z][a-z0-9-]*");
    reveal_strlit("[A-Z][A-Z0-9_]*");
    reveal_strlit("^(?:[a-z][a-z0-9_]*)$");
    reveal_strlit("^(?:[A-Z][A-Za-z0-9]*)$");
    reveal_strlit("^(?:[a-z][A-Za-z0-9]*)$");
    reveal_strlit("^(?:[a-z][a-z0-9-]*)$");
    reveal_strlit("^(?:[A-Z][A-Z0-9_]*)$");
    reveal_strlit("snake_case");
    reveal_strlit("kebab-case");
    reveal_strlit("SCREAMING_SNAKE_CASE");
    reveal_strlit("screaming_snake_case");
    reveal_strlit("PascalCase");
    reveal_strlit("PaselCase");
    reveal_strlit("camelCase");
    reveal_strlit("camalCase");
    let p = anchored(style_pattern(style)->0);
    let p1 = "^(?:[a-z][a-z0-9_]*)$"@;
    let p2 = "^(?:[A-Z][A-Za-z0-9]*)$"@;
    let p3 = "^(?:[a-z][A-Za-z0-9]*)$"@;
    let p4 = "^(?:[a-z][a-z0-9-]*)$"@;
    let p5 = "^(?:[A-Z][A-Z0-9_]*)$"@;
    assert(p1[5] == 'a' && p1[10] == 'a' && p1[16] == '_');
    assert(p2[5] == 'A' && p2[13] == 'a');
    assert(p3[5] == 'a' && p3[10] == 'A');
    assert(p4[5] == 'a' && p4[10] == 'a' && p4[16] == '-');
    assert(p5[5] == 'A' && p5[13] == '0');
    assert("kebab-case"@[0] == 'k');
    assert("SCREAMING_SNAKE_CASE"@[0] == 'S');
    assert("screaming_snake_case"@[0] == 's');
    assert("snake_case"@[0] == 's' && "snake_case"@[1] == 'n');
    assert("screaming_snake_case"@[1] == 'c');
    assert("PascalCase"@[0] == 'P' && "PaselCase"@[0] == 'P');
    assert("camelCase"@[0] == 'c' && "camalCase"@[0] == 'c');
    assert("camelCase"@[1] == 'a' && "screaming_snake_case"@[1] == 'c');
    if style == "snake_case"@ {
        assert(p =~= p1);
    } else if style == "PascalCase"@ || style == "PaselCase"@ {
        assert(p =~= p2);
    } else if style == "camelCase"@ || style == "camalCase"@ {
        assert(p =~= p3);
    } else if style == "kebab-case"@ {
        assert(p =~= p4);
    } else {
        assert(p =~= p5);
    }
}

/// A name whose first word starts with a letter converts, in any supported
/// style, to a name that the style's anchored pattern matches: the naming
/// check accepts it.
pub proof fn lemma_converted_name_matches_style(name: Seq<char>, style: Seq<char>)
    requires
        style_pattern(style) is Some,
        name_words(name).len() > 0,
        is_alpha(name_words(name)[0][0]),
    ensures
        converted_name(name, style) is Ok,
        known_pattern(anchored(style_pattern(style)->0)),
        known_match(anchored(style_pattern(style)->0), converted_name(name, style)->Ok_0),
{
    lemma_converted_name_fits_style(name, style);
    lemma_style_pattern_matches_shape(style, converted_name(name, style)->Ok_0);
}

// ---------------------------------------------------------------------------
// Words of a PascalCase name
// ---------------------------------------------------------------------------

/// A word as conversion produces it: lower-case letters and digits, starting
/// with a letter.
pub open spec fn letter_word(w: Seq<char>) -> bool {
    w.len() > 0 && is_lower(w[0]) && forall|k: int|
        0 <= k < w.len() ==> is_lower(#[trigger] w[k]) || is_digit(w[k])
}

proof fn lemma_pascal_words_from(
    s: Seq<char>,
    i: int,
    ws: Seq<Seq<char>>,
    words: Seq<Seq<char>>,
    cur: Seq<char>,
)
    requires
        0 <= i <= s.len(),
        ws.len() >= 1,
        s.skip(i) == join(capitalize_all(ws), Seq::empty()),
        forall|k: int| 0 <= k < ws.len() ==> letter_word(#[trigger] ws[k]),
        forall|k: int| 0 <= k < ws.len() - 1 ==> (#[trigger] ws[k]).len() >= 2,
        cur.len() == 0 || (i > 0 && (is_lower(s[i - 1]) || is_digit(s[i - 1]))),
    ensures
        words_from(s, i, words, cur) == push_word(words, cur) + ws,
    decreases ws.len(),
{
    let w = ws[0];
    assert(letter_word(w));
    let cw = capitalize(w);
    let rest = ws.drop_first();
    let tail = join(capitalize_all(rest), Seq::empty());
    assert(capitalize_all(ws)[0] == cw);
    if ws.len() == 1 {
        assert(capitalize_all(ws).len() == 1);
        assert(join(capitalize_all(ws), Seq::empty()) == cw);
    } else {
        lemma_join_front(capitalize_all(ws), Seq::empty());
        assert(capitalize_all(ws).drop_first() =~= capitalize_all(rest));
        assert(join(capitalize_all(ws), Seq::empty()) =~= cw + tail);
    }
    let rem = if ws.len() == 1 {
        Seq::<char>::empty()
    } else {
        tail
    };
    assert(s.skip(i) =~= cw + rem);
    assert(cw.len() == w.len());
    assert((cw + rem).len() > 0);
    assert(s.skip(i).len() == s.len() - i);
    assert(i < s.len());
    crate::utils::text::lemma_lower_upper(w[0]);
    let c = upper(w[0]);
    assert(s[i] == s.skip(i)[0]);
    assert(s[i] == c);
    assert(is_upper(c) && is_alnum(c));
    assert(lower(c) == w[0]);
    let pw = push_word(words, cur);
    assert(words_from(s, i, words, cur) == words_from(s, i + 1, pw, seq![w[0]])) by {
        if cur.len() == 0 {
            assert(!starts_word(s, i, cur));
            assert(cur.push(lower(c)) =~= seq![w[0]]);
        } else {
            assert(starts_word(s, i, cur));
        }
    }
    let wr = w.drop_first();
    assert(s.subrange(i + 1, i + 1 + wr.len()) =~= wr) by {
        assert forall|k: int| 0 <= k < wr.len() implies s.subrange(i + 1, i + 1 + wr.len())[k]
            == wr[k] by {
            assert(s.skip(i)[k + 1] == (cw + rem)[k + 1]);
            assert(cw[k + 1] == w[k + 1]);
        }
    }
    assert forall|k: int| 0 <= k < wr.len() implies is_alnum(#[trigger] wr[k]) && !is_upper(
        wr[k],
    ) by {
        assert(wr[k] == w[k + 1]);
    }
    lemma_read_ok_word(s, i + 1, wr, pw, seq![w[0]]);
    assert(seq![w[0]] + wr =~= w);
    let j = i + w.len();
    if ws.len() == 1 {
        assert(j == s.len());
        assert(words_from(s, j, pw, w) == push_word(pw, w));
        assert(pw.push(w) =~= pw + ws);
    } else {
        assert(w.len() >= 2);
        assert(s[j - 1] == w[w.len() - 1]) by {
            assert(s.skip(i)[w.len() - 1] == (cw + rem)[w.len() - 1]);
            assert(cw[w.len() - 1] == w[w.len() - 1]);
        }
        assert(is_lower(w[w.len() - 1]) || is_digit(w[w.len() - 1]));
        assert(s.skip(j) =~= tail) by {
            assert forall|k: int| 0 <= k < tail.len() implies s.skip(j)[k] == tail[k] by {
                assert(s.skip(i)[w.len() + k] == (cw + rem)[w.len() + k]);
            }
        }
        assert forall|k: int| 0 <= k < rest.len() implies letter_word(#[trigger] rest[k]) by {
            assert(rest[k] == ws[k + 1]);
        }
        assert forall|k: int| 0 <= k < rest.len() - 1 implies (#[trigger] rest[k]).len() >= 2 by {
            assert(rest[k] == ws[k + 1]);
        }
        lemma_pascal_words_from(s, j, rest, pw, w);
        assert(pw.push(w) + rest =~= pw + ws);
    }
}

/// Splitting a PascalCase name made of words gives the words back: an
/// upper-case letter after a lower-case letter or a digit starts a new word
/// (`Ipv4Address` has the words `ipv4` and `address`). Every word but the
/// last has two characters at least, since a one-letter word's capital runs
/// into the next capital (`AB` is one word).
pub proof fn lemma_pascal_case_words(ws: Seq<Seq<char>>)
    requires
        ws.len() >= 1,
        forall|k: int| 0 <= k < ws.len() ==> letter_word(#[trigger] ws[k]),
        forall|k: int| 0 <= k < ws.len() - 1 ==> (#[trigger] ws[k]).len() >= 2,
    ensures
        name_words(join(capitalize_all(ws), Seq::empty())) == ws,
{
    let s = join(capitalize_all(ws), Seq::empty());
    assert(s.skip(0) =~= s);
    lemma_pascal_words_from(s, 0, ws, Seq::empty(), Seq::empty());
    assert(push_word(Seq::<Seq<char>>::empty(), Seq::empty()) + ws =~= ws);
}

} // verus!
