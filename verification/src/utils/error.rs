//! The error that every command reports: a stable code, a message, detail
//! lines and the exit code of the process.
use vstd::prelude::*;

use crate::utils::text::{owned, push_char};

verus! {

/// One leaf of the error details, already placed under its path, such as
/// `namespace` or `invalid_documents[0].document`. Details are kept in the
/// order in which they are printed: object keys sorted, arrays in order.
#[derive(Debug)]
pub struct DetailLine {
    pub path: String,
    pub value: String,
}

#[derive(Debug)]
pub struct AppError {
    pub code: String,
    pub message: String,
    pub details: Vec<DetailLine>,
    pub exit_code: i32,
}

/// The mathematical value of an error.
pub struct AppErrorView {
    pub code: Seq<char>,
    pub message: Seq<char>,
    pub details: Seq<(Seq<char>, Seq<char>)>,
    pub exit_code: int,
}

pub type AppResult<T> = Result<T, AppError>;

impl View for DetailLine {
    type V = (Seq<char>, Seq<char>);

    open spec fn view(&self) -> (Seq<char>, Seq<char>) {
        (self.path@, self.value@)
    }
}

pub open spec fn details_view(d: Seq<DetailLine>) -> Seq<(Seq<char>, Seq<char>)> {
    d.map_values(|l: DetailLine| l@)
}

impl View for AppError {
    type V = AppErrorView;

    open spec fn view(&self) -> AppErrorView {
        AppErrorView {
            code: self.code@,
            message: self.message@,
            details: details_view(self.details@),
            exit_code: self.exit_code as int,
        }
    }
}

/// The error value with the given parts.
pub open spec fn error_value(
    code: Seq<char>,
    message: Seq<char>,
    details: Seq<(Seq<char>, Seq<char>)>,
    exit_code: int,
) -> AppErrorView {
    AppErrorView { code, message, details, exit_code }
}

/// A validation failure: the request is well formed but the repository state
/// refuses it (exit code 1).
pub open spec fn validation_error(
    code: Seq<char>,
    message: Seq<char>,
    details: Seq<(Seq<char>, Seq<char>)>,
) -> AppErrorView {
    error_value(code, message, details, 1)
}

/// An input failure: the request itself is refused (exit code 2).
pub open spec fn input_error(
    code: Seq<char>,
    message: Seq<char>,
    details: Seq<(Seq<char>, Seq<char>)>,
) -> AppErrorView {
    error_value(code, message, details, 2)
}

/// A filesystem failure at `path`, with the text of the system error.
pub open spec fn fs_error(
    code: Seq<char>,
    message: Seq<char>,
    path: Seq<char>,
    source: Seq<char>,
) -> AppErrorView {
    error_value(code, message, seq![("path"@, path), ("source"@, source)], 2)
}

pub fn detail(path: &str, value: &str) -> (r: DetailLine)
    ensures
        r@ == (path@, value@),
{
    DetailLine { path: owned(path), value: owned(value) }
}

pub fn detail1(path: &str, value: &str) -> (r: Vec<DetailLine>)
    ensures
        details_view(r@) == seq![(path@, value@)],
{
    let mut v = Vec::new();
    v.push(detail(path, value));
    assert(details_view(v@) =~= seq![(path@, value@)]);
    v
}

impl AppError {
    pub fn validation(code: &str, message: &str, details: Vec<DetailLine>) -> (r: Self)
        ensures
            r@ == validation_error(code@, message@, details_view(details@)),
    {
        AppError { code: owned(code), message: owned(message), details, exit_code: 1 }
    }

    pub fn input(code: &str, message: &str) -> (r: Self)
        ensures
            r@ == input_error(code@, message@, Seq::empty()),
    {
        let details: Vec<DetailLine> = Vec::new();
        assert(details_view(details@) =~= Seq::empty());
        AppError { code: owned(code), message: owned(message), details, exit_code: 2 }
    }

    pub fn input_with_details(code: &str, message: &str, details: Vec<DetailLine>) -> (r: Self)
        ensures
            r@ == input_error(code@, message@, details_view(details@)),
    {
        AppError { code: owned(code), message: owned(message), details, exit_code: 2 }
    }

    /// A copy of this error.
    pub fn duplicate(&self) -> (r: Self)
        ensures
            r@ == self@,
    {
        let mut details: Vec<DetailLine> = Vec::new();
        let mut i: usize = 0;
        while i < self.details.len()
            invariant
                i <= self.details@.len(),
                details_view(details@) == details_view(self.details@).take(i as int),
            decreases self.details.len() - i,
        {
            let line = &self.details[i];
            let ghost before = details@;
            details.push(DetailLine { path: line.path.clone(), value: line.value.clone() });
            assert(details@.last()@ == self.details@[i as int]@);
            assert(details_view(details@) =~= details_view(before).push(self.details@[i as int]@));
            assert(details_view(self.details@).take(i + 1) =~= details_view(self.details@).take(
                i as int,
            ).push(self.details@[i as int]@));
            i = i + 1;
        }
        assert(details_view(self.details@).take(self.details@.len() as int) =~= details_view(
            self.details@,
        ));
        AppError {
            code: self.code.clone(),
            message: self.message.clone(),
            details,
            exit_code: self.exit_code,
        }
    }

    /// A filesystem failure; `source` is the text of the system error.
    pub fn fs(code: &str, message: &str, path: &str, source: &str) -> (r: Self)
        ensures
            r@ == fs_error(code@, message@, path@, source@),
    {
        let mut details = Vec::new();
        details.push(detail("path", path));
        details.push(detail("source", source));
        assert(details_view(details@) =~= seq![("path"@, path@), ("source"@, source@)]);
        AppError { code: owned(code), message: owned(message), details, exit_code: 2 }
    }
}

// ---------------------------------------------------------------------------
// Decimal numbers in details
// ---------------------------------------------------------------------------

pub open spec fn digit_char(d: nat) -> char {
    if d == 0 { '0' }
    else if d == 1 { '1' }
    else if d == 2 { '2' }
    else if d == 3 { '3' }
    else if d == 4 { '4' }
    else if d == 5 { '5' }
    else if d == 6 { '6' }
    else if d == 7 { '7' }
    else if d == 8 { '8' }
    else { '9' }
}

/// The decimal text of `n`, as `usize`'s `Display` writes it.
pub open spec fn decimal(n: nat) -> Seq<char>
    decreases n,
{
    if n < 10 {
        seq![digit_char(n)]
    } else {
        decimal(n / 10).push(digit_char(n % 10))
    }
}

fn digit(d: usize) -> (c: char)
    requires
        d < 10,
    ensures
        c == digit_char(d as nat),
{
    if d == 0 { '0' }
    else if d == 1 { '1' }
    else if d == 2 { '2' }
    else if d == 3 { '3' }
    else if d == 4 { '4' }
    else if d == 5 { '5' }
    else if d == 6 { '6' }
    else if d == 7 { '7' }
    else if d == 8 { '8' }
    else { '9' }
}

/// `n.to_string()`.
pub fn decimal_string(n: usize) -> (s: String)
    ensures
        s@ == decimal(n as nat),
    decreases n,
{
    if n < 10 {
        let mut s = String::new();
        push_char(&mut s, digit(n));
        assert(s@ =~= seq![digit_char(n as nat)]);
        s
    } else {
        let mut s = decimal_string(n / 10);
        push_char(&mut s, digit(n % 10));
        s
    }
}

} // verus!
