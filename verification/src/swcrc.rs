//! What is said when a `.swcrc` configuration file cannot be read as JSON.

use vstd::prelude::*;
use vstd::string::StringExecFns;

verus! {

/// What kind of failure a JSON error is.
#[derive(Clone, Copy, Debug, PartialEq, Eq, Structural)]
pub enum JsonErrorKind {
    /// The bytes could not be read.
    Io,
    /// The text is no JSON.
    Syntax,
    /// The text is JSON of another shape than was asked for.
    Data,
    /// The text ends too early.
    Eof,
}

impl JsonErrorKind {
    /// How the message names the kind.
    pub open spec fn text(self) -> Seq<char> {
        match self {
            JsonErrorKind::Io => "io error"@,
            JsonErrorKind::Syntax => "syntax error"@,
            JsonErrorKind::Data => "unmatched data"@,
            JsonErrorKind::Eof => "unexpected eof"@,
        }
    }

    fn as_str(self) -> (r: &'static str)
        ensures
            r@ == self.text(),
    {
        match self {
            JsonErrorKind::Io => "io error",
            JsonErrorKind::Syntax => "syntax error",
            JsonErrorKind::Data => "unmatched data",
            JsonErrorKind::Eof => "unexpected eof",
        }
    }
}

/// The decimal digit for a number below ten.
pub open spec fn digit(d: nat) -> char {
    if d == 0 {
        '0'
    } else if d == 1 {
        '1'
    } else if d == 2 {
        '2'
    } else if d == 3 {
        '3'
    } else if d == 4 {
        '4'
    } else if d == 5 {
        '5'
    } else if d == 6 {
        '6'
    } else if d == 7 {
        '7'
    } else if d == 8 {
        '8'
    } else {
        '9'
    }
}

/// A number in decimal, without leading zeros.
pub open spec fn decimal(n: nat) -> Seq<char>
    decreases n,
{
    if n < 10 {
        seq![digit(n)]
    } else {
        decimal(n / 10).push(digit(n % 10))
    }
}

fn digit_text(d: usize) -> (r: &'static str)
    requires
        d < 10,
    ensures
        r@ == seq![digit(d as nat)],
{
    proof {
        reveal_strlit("0");
        reveal_strlit("1");
        reveal_strlit("2");
        reveal_strlit("3");
        reveal_strlit("4");
        reveal_strlit("5");
        reveal_strlit("6");
        reveal_strlit("7");
        reveal_strlit("8");
        reveal_strlit("9");
    }
    if d == 0 {
        "0"
    } else if d == 1 {
        "1"
    } else if d == 2 {
        "2"
    } else if d == 3 {
        "3"
    } else if d == 4 {
        "4"
    } else if d == 5 {
        "5"
    } else if d == 6 {
        "6"
    } else if d == 7 {
        "7"
    } else if d == 8 {
        "8"
    } else {
        "9"
    }
}

/// Appends `n` in decimal to `out`.
pub fn push_decimal(n: usize, out: &mut String)
    ensures
        final(out)@ == old(out)@ + decimal(n as nat),
    decreases n,
{
    if n >= 10 {
        push_decimal(n / 10, out);
    }
    out.append(digit_text(n % 10));
}

/// The message for a `.swcrc` file that is no JSON of the right shape: the
/// kind of the failure, then the line and the column where it was noticed.
pub open spec fn swcrc_error_text(kind: JsonErrorKind, line: nat, column: nat) -> Seq<char> {
    "failed to deserialize .swcrc (json) file: "@ + kind.text() + ": "@ + decimal(line) + ":"@
        + decimal(column)
}

/// Writes the message for a `.swcrc` file that is no JSON of the right
/// shape.
pub fn swcrc_error_message(kind: JsonErrorKind, line: usize, column: usize) -> (r: String)
    ensures
        r@ == swcrc_error_text(kind, line as nat, column as nat),
{
    let mut out = "failed to deserialize .swcrc (json) file: ".to_owned();
    out.append(kind.as_str());
    out.append(": ");
    push_decimal(line, &mut out);
    out.append(":");
    push_decimal(column, &mut out);
    out
}

/// `serde_json::Error`: why a text could not be read as JSON. The library
/// looks into it only through the three functions below.
#[verifier::external_type_specification]
#[verifier::external_body]
pub struct ExJsonError(serde_json::Error);

/// `serde_json::Error::line`: the line at which the error was noticed.
/// Nothing is claimed of it.
#[verifier::external_body]
fn json_error_line(e: &serde_json::Error) -> usize {
    e.line()
}

/// `serde_json::Error::column`: the column at which the error was noticed.
/// Nothing is claimed of it.
#[verifier::external_body]
fn json_error_column(e: &serde_json::Error) -> usize {
    e.column()
}

/// `serde_json::Error::classify`, with the four categories told apart.
/// Nothing is claimed of which one comes.
#[verifier::external_body]
fn json_error_kind(e: &serde_json::Error) -> JsonErrorKind {
    match e.classify() {
        serde_json::error::Category::Io => JsonErrorKind::Io,
        serde_json::error::Category::Syntax => JsonErrorKind::Syntax,
        serde_json::error::Category::Data => JsonErrorKind::Data,
        serde_json::error::Category::Eof => JsonErrorKind::Eof,
    }
}

/// Writes the message for the error that reading a `.swcrc` file gave:
/// [`swcrc_error_text`] for the kind, line and column that the error
/// reports.
pub fn describe_json_error(e: &serde_json::Error) -> (r: String)
    ensures
        exists|kind: JsonErrorKind, line: nat, column: nat|
            r@ == swcrc_error_text(kind, line, column),
{
    let kind = json_error_kind(e);
    let line = json_error_line(e);
    let column = json_error_column(e);
    swcrc_error_message(kind, line, column)
}

} // verus!
