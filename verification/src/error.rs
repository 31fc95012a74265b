//! The error of a failed normalisation, and what each of its messages says.
use vstd::prelude::*;
use vstd::string::StringExecFns;

use crate::parse_tree::{GrammarItem, ItemView, Span};

verus! {

/// Why a grammar could not be normalised, and where.
#[derive(Clone, Debug, PartialEq, Eq)]
pub struct NormError {
    pub message: String,
    pub span: Span,
}

/// What normalising something gives.
pub type NormResult<T> = Result<T, NormError>;

/// The model of a [`NormError`].
#[verifier::ext_equal]
pub struct ErrorView {
    pub message: Seq<char>,
    pub span: Span,
}

impl NormError {
    pub open spec fn view(&self) -> ErrorView {
        ErrorView { message: self.message@, span: self.span }
    }
}

/// The model of a yes or no that may fail.
pub open spec fn verdict_view(verdict: NormResult<bool>) -> Result<bool, ErrorView> {
    match verdict {
        Ok(yes) => Ok(yes),
        Err(error) => Err(error.view()),
    }
}

/// The model of an item that may fail.
pub open spec fn item_result_view(item: NormResult<GrammarItem>) -> Result<ItemView, ErrorView> {
    match item {
        Ok(item) => Ok(item.view()),
        Err(error) => Err(error.view()),
    }
}

/// The text of a decimal digit.
pub open spec fn digit(d: u8) -> Seq<char> {
    match d {
        0 => "0"@,
        1 => "1"@,
        2 => "2"@,
        3 => "3"@,
        4 => "4"@,
        5 => "5"@,
        6 => "6"@,
        7 => "7"@,
        8 => "8"@,
        _ => "9"@,
    }
}

/// The text of a number: its decimal digits, without leading zeros.
pub open spec fn decimal(n: nat) -> Seq<char>
    decreases n,
{
    if n < 10 {
        digit(n as u8)
    } else {
        decimal(n / 10) + digit((n % 10) as u8)
    }
}

/// Writes a number in decimal digits.
pub fn write_decimal(n: usize, out: &mut String)
    ensures
        final(out)@ == old(out)@ + decimal(n as nat),
    decreases n,
{
    let ghost start = out@;
    if n >= 10 {
        write_decimal(n / 10, out);
    }
    let text = match n % 10 {
        0 => "0",
        1 => "1",
        2 => "2",
        3 => "3",
        4 => "4",
        5 => "5",
        6 => "6",
        7 => "7",
        8 => "8",
        _ => "9",
    };
    out.append(text);
    assert(out@ =~= start + decimal(n as nat));
}

/// The error for a use of a macro that the grammar does not define.
pub open spec fn undefined_macro(span: Span, name: Seq<char>) -> ErrorView {
    ErrorView { message: "no macro definition found for `"@ + name + "`"@, span }
}

/// The error for a use of a macro with the wrong number of arguments.
pub open spec fn wrong_arity(
    span: Span,
    name: Seq<char>,
    expected: nat,
    found: nat,
) -> ErrorView {
    ErrorView {
        message: "expected "@ + decimal(expected) + " arguments to `"@ + name + "` but found "@
            + decimal(found),
        span,
    }
}

/// The error for a condition on an argument that is not a terminal.
pub open spec fn invalid_lhs(span: Span, lhs: Seq<char>, found: Seq<char>) -> ErrorView {
    ErrorView {
        message: "invalid condition LHS `"@ + lhs + "`, expected a terminal, not `"@ + found
            + "`"@,
        span,
    }
}

/// The error for a condition whose regular expression is rejected.
pub open spec fn invalid_regex(span: Span, regex: Seq<char>, reason: Seq<char>) -> ErrorView {
    ErrorView {
        message: "invalid regular expression `"@ + regex + "`: "@ + reason,
        span,
    }
}

/// The error for a named symbol inside a group.
pub open spec fn nested_name(span: Span, name: Seq<char>, symbol: Seq<char>) -> ErrorView {
    ErrorView {
        message: "named symbols like `~"@ + name + ":"@ + symbol
            + "` are only allowed at the top-level of a nonterminal"@,
        span,
    }
}

impl NormError {
    pub fn undefined_macro(span: Span, name: &str) -> (error: NormError)
        ensures
            error@ == undefined_macro(span, name@),
    {
        let mut message = String::from_str("no macro definition found for `");
        message.append(name);
        message.append("`");
        NormError { message, span }
    }

    pub fn wrong_arity(span: Span, name: &str, expected: usize, found: usize) -> (error: NormError)
        ensures
            error@ == wrong_arity(span, name@, expected as nat, found as nat),
    {
        let mut message = String::from_str("expected ");
        write_decimal(expected, &mut message);
        message.append(" arguments to `");
        message.append(name);
        message.append("` but found ");
        write_decimal(found, &mut message);
        NormError { message, span }
    }

    pub fn invalid_lhs(span: Span, lhs: &str, found: &str) -> (error: NormError)
        ensures
            error@ == invalid_lhs(span, lhs@, found@),
    {
        let mut message = String::from_str("invalid condition LHS `");
        message.append(lhs);
        message.append("`, expected a terminal, not `");
        message.append(found);
        message.append("`");
        NormError { message, span }
    }

    pub fn invalid_regex(span: Span, regex: &str, reason: &str) -> (error: NormError)
        ensures
            error@ == invalid_regex(span, regex@, reason@),
    {
        let mut message = String::from_str("invalid regular expression `");
        message.append(regex);
        message.append("`: ");
        message.append(reason);
        NormError { message, span }
    }

    pub fn nested_name(span: Span, name: &str, symbol: &str) -> (error: NormError)
        ensures
            error@ == nested_name(span, name@, symbol@),
    {
        let mut message = String::from_str("named symbols like `~");
        message.append(name);
        message.append(":");
        message.append(symbol);
        message.append("` are only allowed at the top-level of a nonterminal");
        NormError { message, span }
    }
}

} // verus!
