//! Regular expressions, through the `regex` crate.
use vstd::prelude::*;

use crate::utils::text::{is_alnum, is_digit, is_lower, is_upper};

verus! {

#[verifier::external_type_specification]
#[verifier::external_body]
pub struct ExRegex(regex::Regex);

/// What `regex::Regex::new` reports for a pattern: `None` when it compiles,
/// else the text (`Display`) of its error. It depends on the pattern alone.
pub uninterp spec fn regex_compile_error(pattern: Seq<char>) -> Option<Seq<char>>;

/// Whether `regex::Regex::new` accepts the pattern.
pub open spec fn regex_compiles(pattern: Seq<char>) -> bool {
    regex_compile_error(pattern) is None
}

/// Whether the regex compiled from `pattern` finds a match in `text`
/// (`regex::Regex::is_match`).
pub uninterp spec fn regex_is_match(pattern: Seq<char>, text: Seq<char>) -> bool;

/// A whole text made of one character of the class `first` and then any
/// number of characters of the class `rest`.
pub open spec fn class_run(
    t: Seq<char>,
    first: spec_fn(char) -> bool,
    rest: spec_fn(char) -> bool,
) -> bool {
    t.len() > 0 && first(t[0]) && forall|k: int| 1 <= k < t.len() ==> rest(#[trigger] t[k])
}

/// The five anchored patterns `^(?:[x][y]*)$` built from ASCII ranges that
/// the naming styles use.
pub open spec fn known_pattern(pattern: Seq<char>) -> bool {
    ||| pattern == "^(?:[a-z][a-z0-9_]*)$"@
    ||| pattern == "^(?:[A-Z][A-Za-z0-9]*)$"@
    ||| pattern == "^(?:[a-z][A-Za-z0-9]*)$"@
    ||| pattern == "^(?:[a-z][a-z0-9-]*)$"@
    ||| pattern == "^(?:[A-Z][A-Z0-9_]*)$"@
}

/// What one of the known patterns matches, as the regex syntax documents
/// it: `^` and `$` hold only at the ends of the text, a bracket class
/// matches one character of its ASCII ranges and listed characters, and `*`
/// repeats it any number of times.
pub open spec fn known_match(pattern: Seq<char>, t: Seq<char>) -> bool {
    if pattern == "^(?:[a-z][a-z0-9_]*)$"@ {
        class_run(t, |c: char| is_lower(c), |c: char| is_lower(c) || is_digit(c) || c == '_')
    } else if pattern == "^(?:[A-Z][A-Za-z0-9]*)$"@ {
        class_run(t, |c: char| is_upper(c), |c: char| is_alnum(c))
    } else if pattern == "^(?:[a-z][A-Za-z0-9]*)$"@ {
        class_run(t, |c: char| is_lower(c), |c: char| is_alnum(c))
    } else if pattern == "^(?:[a-z][a-z0-9-]*)$"@ {
        class_run(t, |c: char| is_lower(c), |c: char| is_lower(c) || is_digit(c) || c == '-')
    } else if pattern == "^(?:[A-Z][A-Z0-9_]*)$"@ {
        class_run(t, |c: char| is_upper(c), |c: char| is_upper(c) || is_digit(c) || c == '_')
    } else {
        false
    }
}

/// A compiled regular expression together with the pattern it was compiled
/// from. Only `regex_new` builds one.
#[derive(Debug)]
pub struct DocumentRegex {
    pattern: String,
    regex: regex::Regex,
}

impl DocumentRegex {
    /// The pattern this regex was compiled from.
    pub closed spec fn source(&self) -> Seq<char> {
        self.pattern@
    }

    pub fn pattern(&self) -> (r: &str)
        ensures
            r@ == self.source(),
    {
        self.pattern.as_str()
    }
}

/// Calls `regex::Regex::new`. The claim: the outcome is a function of the
/// pattern alone (`regex_compile_error`), the error is handed on as its
/// `Display` text, and a compiled regex remembers its pattern. Of what a
/// regex accepts, only the five known patterns are stated (`known_match`):
/// they compile, and they match exactly what the regex syntax documentation
/// gives for their anchors, ASCII ranges and repetition.
#[verifier::external_body]
pub(crate) fn regex_new(pattern: &str) -> (r: Result<DocumentRegex, String>)
    ensures
        r is Ok <==> regex_compile_error(pattern@) is None,
        r matches Ok(re) ==> re.source() == pattern@,
        r matches Err(text) ==> regex_compile_error(pattern@) == Some(text@),
        known_pattern(pattern@) ==> r is Ok,
        r matches Ok(re) ==> (known_pattern(re.source()) ==> forall|t: Seq<char>|
            #[trigger] regex_is_match(re.source(), t) == known_match(re.source(), t)),
{
    match regex::Regex::new(pattern) {
        Ok(regex) => Ok(DocumentRegex { pattern: pattern.to_string(), regex }),
        Err(error) => Err(error.to_string()),
    }
}

/// Calls `regex::Regex::is_match`. The claim: the answer is a function of the
/// pattern the regex was compiled from and of the text.
#[verifier::external_body]
pub(crate) fn regex_matches(re: &DocumentRegex, text: &str) -> (r: bool)
    ensures
        r == regex_is_match(re.source(), text@),
{
    re.regex.is_match(text)
}

} // verus!
