//! Lexical errors and the text in which they are reported.

use vstd::prelude::*;
use vstd::string::StringExecFns;

verus! {

/// The ways in which a source text can be malformed.
#[derive(Debug, Clone, Copy, PartialEq, Eq, Structural)]
pub enum LexErrorKind {
    /// A character that begins no lexeme.
    UnexpectedCharacter,
    /// A string literal whose closing quote is missing.
    UnterminatedString,
}

impl LexErrorKind {
    /// The message that goes with this kind of error.
    pub open spec fn text(self) -> Seq<char> {
        match self {
            LexErrorKind::UnexpectedCharacter => "Unexpected character."@,
            LexErrorKind::UnterminatedString => "Unterminated string."@,
        }
    }

    /// The message that goes with this kind of error.
    pub fn message(self) -> (message: &'static str)
        ensures
            message@ == self.text(),
    {
        match self {
            LexErrorKind::UnexpectedCharacter => "Unexpected character.",
            LexErrorKind::UnterminatedString => "Unterminated string.",
        }
    }
}

/// What a lexical error is, as a mathematical value.
pub struct LexErrorView {
    pub kind: LexErrorKind,
    /// The line of the source, counted from 1, at which the error was found.
    pub line: int,
}

/// A lexical error found at some line of the source.
#[derive(Debug, Clone, Copy, PartialEq, Eq, Structural)]
pub struct LexError {
    pub kind: LexErrorKind,
    pub line: i32,
}

impl View for LexError {
    type V = LexErrorView;

    open spec fn view(&self) -> LexErrorView {
        LexErrorView { kind: self.kind, line: self.line as int }
    }
}

impl DeepView for LexError {
    type V = LexErrorView;

    open spec fn deep_view(&self) -> LexErrorView {
        self@
    }
}

impl LexError {
    /// The diagnostic for this error.
    pub fn to_string(&self) -> (text: String)
        ensures
            text@ == report_text(self@.line, Seq::empty(), self@.kind.text()),
    {
        error(self.line, self.kind.message())
    }
}

/// The decimal digit that stands for `d`.
pub open spec fn digit_char(d: int) -> char
    recommends
        0 <= d < 10,
{
    seq!['0', '1', '2', '3', '4', '5', '6', '7', '8', '9'][d]
}

/// The decimal digits of `n`, most significant first.
pub open spec fn digits(n: nat) -> Seq<char>
    decreases n,
{
    if n < 10 {
        seq![digit_char(n as int)]
    } else {
        digits(n / 10).push(digit_char(n as int % 10))
    }
}

/// The decimal form of `n`, with a minus sign where `n` is negative.
pub open spec fn decimal(n: int) -> Seq<char> {
    if n < 0 {
        seq!['-'] + digits((-n) as nat)
    } else {
        digits(n as nat)
    }
}

/// The diagnostic for `message`, found at `line` and `location`.
pub open spec fn report_text(line: int, location: Seq<char>, message: Seq<char>) -> Seq<char> {
    "[line "@ + decimal(line) + "] Error "@ + location + ": "@ + message
}

fn digit(d: u32) -> (c: char)
    requires
        d < 10,
    ensures
        c == digit_char(d as int),
{
    match d {
        0 => '0',
        1 => '1',
        2 => '2',
        3 => '3',
        4 => '4',
        5 => '5',
        6 => '6',
        7 => '7',
        8 => '8',
        _ => '9',
    }
}

fn push_digits(text: &mut String, n: u32)
    ensures
        final(text)@ == old(text)@ + digits(n as nat),
    decreases n,
{
    if n >= 10 {
        push_digits(text, n / 10);
    }
    text.push(digit(n % 10));
}

fn push_decimal(text: &mut String, n: i32)
    ensures
        final(text)@ == old(text)@ + decimal(n as int),
{
    if n < 0 {
        text.push('-');
        let magnitude: i64 = -(n as i64);
        push_digits(text, magnitude as u32);
    } else {
        push_digits(text, n as u32);
    }
}

/// The diagnostic for `message`, found at `line` and `location`.
pub fn report(line: i32, location: &str, message: &str) -> (text: String)
    ensures
        text@ == report_text(line as int, location@, message@),
{
    let mut text = String::from_str("[line ");
    push_decimal(&mut text, line);
    text.append("] Error ");
    text.append(location);
    text.append(": ");
    text.append(message);
    text
}

/// The diagnostic for `message`, found at `line`.
pub fn error(line: i32, message: &str) -> (text: String)
    ensures
        text@ == report_text(line as int, Seq::empty(), message@),
{
    proof {
        reveal_strlit("");
    }
    report(line, "", message)
}

} // verus!
