//! The lexical grammar: which lexemes a source text is made of, and which
//! tokens and errors they give.
//!
//! A text is read from left to right. At each position the longest lexeme
//! that begins there is taken, and reading goes on behind it
//! ([`lexemes`]). Every character of the text belongs to exactly one lexeme
//! ([`lemma_lexemes_cover`]). Some lexemes are tokens, some are errors, the
//! others are discarded ([`tokens`], [`errors`]).

use crate::lox_error::{LexErrorKind, LexErrorView};
use crate::token::{TokenType, TokenView};
use vstd::prelude::*;

verus! {

/// What a lexeme is.
pub enum LexemeClass {
    /// A lexeme that is emitted as a token of the given category.
    Token(TokenType),
    /// A space, a tab, a carriage return or a newline.
    Whitespace,
    /// Two slashes and what follows them on the line.
    Comment,
    /// A piece of the text that is reported and left out.
    Error(LexErrorKind),
}

/// A piece of the source text.
pub struct Lexeme {
    pub class: LexemeClass,
    /// The characters of the lexeme.
    pub text: Seq<char>,
    /// The line, counted from 1, on which the lexeme begins.
    pub line: int,
}

/// The number of newline characters in `s`.
pub open spec fn newline_count(s: Seq<char>) -> nat
    decreases s.len(),
{
    if s.len() == 0 {
        0
    } else if s.last() == '\n' {
        newline_count(s.drop_last()) + 1
    } else {
        newline_count(s.drop_last())
    }
}

/// The length of the longest prefix of `s` in which `c` does not occur.
pub open spec fn run_before(s: Seq<char>, c: char) -> nat
    decreases s.len(),
{
    if s.len() == 0 || s[0] == c {
        0
    } else {
        1 + run_before(s.skip(1), c)
    }
}

/// The token that `c` makes by itself, whatever follows it.
pub open spec fn punctuation(c: char) -> Option<TokenType> {
    if c == '(' {
        Some(TokenType::LeftParen)
    } else if c == ')' {
        Some(TokenType::RightParen)
    } else if c == '{' {
        Some(TokenType::LeftBrace)
    } else if c == '}' {
        Some(TokenType::RightBrace)
    } else if c == ',' {
        Some(TokenType::Comma)
    } else if c == '.' {
        Some(TokenType::Dot)
    } else if c == '-' {
        Some(TokenType::Minus)
    } else if c == '+' {
        Some(TokenType::Plus)
    } else if c == ';' {
        Some(TokenType::Semicolon)
    } else if c == '*' {
        Some(TokenType::Star)
    } else {
        None
    }
}

/// The token that `c` makes alone, or together with a following `=`, where
/// `c` is one of the characters that can be followed by `=`.
pub open spec fn operator(c: char, with_equal: bool) -> Option<TokenType> {
    if c == '!' {
        Some(if with_equal { TokenType::BangEqual } else { TokenType::Bang })
    } else if c == '=' {
        Some(if with_equal { TokenType::EqualEqual } else { TokenType::Equal })
    } else if c == '<' {
        Some(if with_equal { TokenType::LessEqual } else { TokenType::Less })
    } else if c == '>' {
        Some(if with_equal { TokenType::GreaterEqual } else { TokenType::Greater })
    } else {
        None
    }
}

/// Whether `c` is whitespace that stays on the line.
pub open spec fn is_blank(c: char) -> bool {
    c == ' ' || c == '\r' || c == '\t'
}

/// The class and the length of the lexeme at the head of `s`.
pub open spec fn classify(s: Seq<char>) -> (LexemeClass, nat)
    recommends
        s.len() > 0,
{
    let c = s[0];
    if punctuation(c) is Some {
        (LexemeClass::Token(punctuation(c)->0), 1)
    } else if operator(c, false) is Some {
        if s.len() > 1 && s[1] == '=' {
            (LexemeClass::Token(operator(c, true)->0), 2)
        } else {
            (LexemeClass::Token(operator(c, false)->0), 1)
        }
    } else if c == '/' {
        if s.len() > 1 && s[1] == '/' {
            (LexemeClass::Comment, 2 + run_before(s.skip(2), '\n'))
        } else {
            (LexemeClass::Token(TokenType::Slash), 1)
        }
    } else if is_blank(c) || c == '\n' {
        (LexemeClass::Whitespace, 1)
    } else if c == '"' {
        let inside = run_before(s.skip(1), '"');
        if inside + 1 < s.len() {
            (LexemeClass::Token(TokenType::String), inside + 2)
        } else {
            (LexemeClass::Error(LexErrorKind::UnterminatedString), s.len())
        }
    } else {
        (LexemeClass::Error(LexErrorKind::UnexpectedCharacter), 1)
    }
}

impl Lexeme {
    /// The line on which the text goes on behind the lexeme.
    pub open spec fn end_line(self) -> int {
        self.line + newline_count(self.text)
    }

    /// The token that is emitted for the lexeme, if it is one. A token is on
    /// the line on which it begins. The value of a string is what stands
    /// between its quotes.
    pub open spec fn token(self) -> Option<TokenView> {
        match self.class {
            LexemeClass::Token(token_type) => Some(
                TokenView {
                    token_type,
                    lexeme: self.text,
                    literal: if token_type == TokenType::String {
                        Some(self.text.subrange(1, self.text.len() - 1))
                    } else {
                        None
                    },
                    line: self.line,
                },
            ),
            _ => None,
        }
    }

    /// The error that is reported for the lexeme, if it is one. An error is
    /// on the line on which the lexeme ends.
    pub open spec fn error(self) -> Option<LexErrorView> {
        match self.class {
            LexemeClass::Error(kind) => Some(LexErrorView { kind, line: self.end_line() }),
            _ => None,
        }
    }
}

/// The lexeme at the head of `s`, where `s` begins on line `line`.
pub open spec fn first_lexeme(s: Seq<char>, line: int) -> Lexeme
    recommends
        s.len() > 0,
{
    Lexeme { class: classify(s).0, text: s.take(classify(s).1 as int), line }
}

/// The lexemes of `s` in order, where `s` begins on line `line`.
pub open spec fn lexemes(s: Seq<char>, line: int) -> Seq<Lexeme>
    decreases s.len(),
{
    if s.len() == 0 {
        Seq::empty()
    } else {
        proof {
            lemma_classify_len(s);
        }
        let first = first_lexeme(s, line);
        seq![first] + lexemes(s.skip(classify(s).1 as int), first.end_line())
    }
}

/// The tokens that are emitted for `lexemes`.
pub open spec fn emitted(lexemes: Seq<Lexeme>) -> Seq<TokenView>
    decreases lexemes.len(),
{
    if lexemes.len() == 0 {
        Seq::empty()
    } else {
        match lexemes[0].token() {
            Some(token) => seq![token] + emitted(lexemes.skip(1)),
            None => emitted(lexemes.skip(1)),
        }
    }
}

/// The errors that are reported for `lexemes`.
pub open spec fn reported(lexemes: Seq<Lexeme>) -> Seq<LexErrorView>
    decreases lexemes.len(),
{
    if lexemes.len() == 0 {
        Seq::empty()
    } else {
        match lexemes[0].error() {
            Some(error) => seq![error] + reported(lexemes.skip(1)),
            None => reported(lexemes.skip(1)),
        }
    }
}

/// The token that marks the end of a text whose last line is `line`.
pub open spec fn end_token(line: int) -> TokenView {
    TokenView { token_type: TokenType::Eof, lexeme: Seq::empty(), literal: None, line }
}

/// The tokens of `s`, where `s` begins on line `line`: those of its lexemes,
/// and the end marker on the line on which `s` ends.
pub open spec fn tokens(s: Seq<char>, line: int) -> Seq<TokenView> {
    emitted(lexemes(s, line)).push(end_token(line + newline_count(s)))
}

/// The errors of `s`, where `s` begins on line `line`.
pub open spec fn errors(s: Seq<char>, line: int) -> Seq<LexErrorView> {
    reported(lexemes(s, line))
}

/// A run is no longer than the text, stops at the character it runs up to,
/// and does not hold it.
pub proof fn lemma_run_before(s: Seq<char>, c: char)
    ensures
        run_before(s, c) <= s.len(),
        run_before(s, c) < s.len() ==> s[run_before(s, c) as int] == c,
        forall|i: int| 0 <= i < run_before(s, c) ==> s[i] != c,
    decreases s.len(),
{
    if s.len() > 0 && s[0] != c {
        let rest = s.skip(1);
        lemma_run_before(rest, c);
        assert forall|i: int| 0 <= i < run_before(s, c) implies s[i] != c by {
            if i > 0 {
                assert(s[i] == rest[i - 1]);
            }
        }
    }
}

/// The newlines of a text are those of its two parts.
pub proof fn lemma_newline_count_add(a: Seq<char>, b: Seq<char>)
    ensures
        newline_count(a + b) == newline_count(a) + newline_count(b),
    decreases b.len(),
{
    if b.len() == 0 {
        assert(a + b =~= a);
    } else {
        lemma_newline_count_add(a, b.drop_last());
        assert((a + b).drop_last() =~= a + b.drop_last());
    }
}

/// A part of a text holds no more newlines than the text.
pub proof fn lemma_newline_count_subrange(s: Seq<char>, from: int, to: int)
    requires
        0 <= from <= to <= s.len(),
    ensures
        newline_count(s.subrange(from, to)) <= newline_count(s),
{
    lemma_newline_count_add(s.take(from), s.subrange(from, to));
    lemma_newline_count_add(s.take(from) + s.subrange(from, to), s.skip(to));
    assert(s =~= s.take(from) + s.subrange(from, to) + s.skip(to));
}

/// A text without a newline character holds no newline.
pub proof fn lemma_newline_count_none(s: Seq<char>)
    requires
        forall|i: int| 0 <= i < s.len() ==> s[i] != '\n',
    ensures
        newline_count(s) == 0,
    decreases s.len(),
{
    if s.len() > 0 {
        lemma_newline_count_none(s.drop_last());
    }
}

/// A lexeme holds at least one character and no more than the text has.
pub proof fn lemma_classify_len(s: Seq<char>)
    requires
        s.len() > 0,
    ensures
        1 <= classify(s).1 <= s.len(),
{
    if s.len() > 1 {
        lemma_run_before(s.skip(2), '\n');
    }
    lemma_run_before(s.skip(1), '"');
}

/// The texts of `lexemes`, one behind the other.
pub open spec fn joined(lexemes: Seq<Lexeme>) -> Seq<char>
    decreases lexemes.len(),
{
    if lexemes.len() == 0 {
        Seq::empty()
    } else {
        lexemes[0].text + joined(lexemes.skip(1))
    }
}

/// The lexemes of a text that is not empty are its first lexeme and the
/// lexemes of what follows it; its tokens and errors are made up likewise.
pub proof fn lemma_lexemes_unfold(s: Seq<char>, line: int)
    requires
        s.len() > 0,
    ensures
        ({
            let first = first_lexeme(s, line);
            let tail = lexemes(s.skip(first.text.len() as int), first.end_line());
            &&& 1 <= first.text.len() <= s.len()
            &&& first.text.len() == classify(s).1
            &&& lexemes(s, line) == seq![first] + tail
            &&& joined(lexemes(s, line)) == first.text + joined(tail)
            &&& emitted(lexemes(s, line)) == match first.token() {
                Some(token) => seq![token] + emitted(tail),
                None => emitted(tail),
            }
            &&& reported(lexemes(s, line)) == match first.error() {
                Some(error) => seq![error] + reported(tail),
                None => reported(tail),
            }
        }),
{
    lemma_classify_len(s);
    let first = first_lexeme(s, line);
    let tail = lexemes(s.skip(first.text.len() as int), first.end_line());
    assert((seq![first] + tail).skip(1) =~= tail);
}

/// Every character of a text belongs to exactly one of its lexemes: the
/// lexemes, none of which is empty, give the text back when they are put
/// one behind the other.
pub proof fn lemma_lexemes_cover(s: Seq<char>, line: int)
    ensures
        joined(lexemes(s, line)) == s,
        forall|i: int| 0 <= i < lexemes(s, line).len() ==> lexemes(s, line)[i].text.len() > 0,
    decreases s.len(),
{
    if s.len() > 0 {
        lemma_lexemes_unfold(s, line);
        let first = first_lexeme(s, line);
        let n = first.text.len() as int;
        lemma_lexemes_cover(s.skip(n), first.end_line());
        assert(s.take(n) + s.skip(n) =~= s);
    }
}

/// Every lexeme of a text is on the line on which it begins: the line on
/// which the text begins, and one line more for every newline that stands
/// before the lexeme.
pub proof fn lemma_lexeme_lines(s: Seq<char>, line: int)
    ensures
        forall|i: int|
            0 <= i < lexemes(s, line).len() ==> (#[trigger] lexemes(s, line)[i]).line == line
                + newline_count(joined(lexemes(s, line).take(i))),
    decreases s.len(),
{
    if s.len() > 0 {
        lemma_lexemes_unfold(s, line);
        let all = lexemes(s, line);
        let first = first_lexeme(s, line);
        let tail = lexemes(s.skip(first.text.len() as int), first.end_line());
        lemma_lexeme_lines(s.skip(first.text.len() as int), first.end_line());
        assert forall|i: int| 0 <= i < all.len() implies (#[trigger] all[i]).line == line
            + newline_count(joined(all.take(i))) by {
            if i == 0 {
                assert(all.take(0) =~= Seq::empty());
            } else {
                let before = tail.take(i - 1);
                assert(all[i] == tail[i - 1]);
                assert(all.take(i) =~= seq![first] + before);
                assert(all.take(i).skip(1) =~= before);
                lemma_newline_count_add(first.text, joined(before));
            }
        }
    }
}

/// The tokens of the lexemes of a text are on lines that do not go down, from
/// the line on which the text begins to the line on which it ends; none of
/// them is empty and none is the end marker.
pub proof fn lemma_emitted(s: Seq<char>, line: int)
    ensures
        forall|i: int|
            0 <= i < emitted(lexemes(s, line)).len() ==> {
                let token = #[trigger] emitted(lexemes(s, line))[i];
                &&& line <= token.line <= line + newline_count(s)
                &&& token.lexeme.len() > 0
                &&& token.token_type != TokenType::Eof
            },
        forall|i: int, j: int|
            0 <= i <= j < emitted(lexemes(s, line)).len() ==> emitted(lexemes(s, line))[i].line
                <= emitted(lexemes(s, line))[j].line,
    decreases s.len(),
{
    if s.len() > 0 {
        lemma_lexemes_unfold(s, line);
        let first = first_lexeme(s, line);
        let n = first.text.len() as int;
        lemma_emitted(s.skip(n), first.end_line());
        lemma_newline_count_add(s.take(n), s.skip(n));
        assert(s.take(n) + s.skip(n) =~= s);
    }
}

/// The tokens of a text end with the end marker, which stands on the last
/// line of the text and is the only token that is empty.
pub proof fn lemma_tokens_end(s: Seq<char>, line: int)
    ensures
        tokens(s, line).len() > 0,
        tokens(s, line).last() == end_token(line + newline_count(s)),
        forall|i: int|
            0 <= i < tokens(s, line).len() - 1 ==> {
                &&& (#[trigger] tokens(s, line)[i]).lexeme.len() > 0
                &&& tokens(s, line)[i].token_type != TokenType::Eof
            },
{
    lemma_emitted(s, line);
}

/// The lines of the tokens of a text do not go down.
pub proof fn lemma_token_lines_ascend(s: Seq<char>, line: int)
    ensures
        forall|i: int, j: int|
            0 <= i <= j < tokens(s, line).len() ==> tokens(s, line)[i].line <= tokens(
                s,
                line,
            )[j].line,
{
    lemma_emitted(s, line);
}

/// Whether a lexeme of `s` ends just before position `p`, or `p` is 0.
pub open spec fn is_boundary(s: Seq<char>, p: int) -> bool
    decreases s.len(),
{
    if p <= 0 || s.len() == 0 {
        p == 0
    } else {
        proof {
            lemma_classify_len(s);
        }
        classify(s).1 <= p && is_boundary(s.skip(classify(s).1 as int), p - classify(s).1)
    }
}

/// A run in a text of two parts ends in the first part where `c` occurs
/// there, and goes on into the second part where it does not.
pub proof fn lemma_run_before_add(x: Seq<char>, y: Seq<char>, c: char)
    ensures
        run_before(x + y, c) == if run_before(x, c) < x.len() {
            run_before(x, c)
        } else {
            x.len() + run_before(y, c)
        },
    decreases x.len(),
{
    lemma_run_before(x, c);
    if x.len() == 0 {
        assert(x + y =~= y);
    } else if x[0] != c {
        lemma_run_before_add(x.skip(1), y, c);
        assert((x + y).skip(1) =~= x.skip(1) + y);
    }
}

/// Whether every character of `w` is a blank.
pub open spec fn is_blanks(w: Seq<char>) -> bool {
    forall|i: int| 0 <= i < w.len() ==> is_blank(#[trigger] w[i])
}

/// Blanks hold neither a newline nor a quote.
proof fn lemma_blanks(w: Seq<char>)
    requires
        is_blanks(w),
    ensures
        newline_count(w) == 0,
        run_before(w, '\n') == w.len(),
        run_before(w, '"') == w.len(),
{
    lemma_run_before(w, '\n');
    lemma_run_before(w, '"');
    assert forall|i: int| 0 <= i < w.len() implies w[i] != '\n' by {
        assert(is_blank(w[i]));
    }
    lemma_newline_count_none(w);
    if run_before(w, '\n') < w.len() {
        assert(is_blank(w[run_before(w, '\n') as int]));
    }
    if run_before(w, '"') < w.len() {
        assert(is_blank(w[run_before(w, '"') as int]));
    }
}

/// Blanks behind a lexeme that is neither a comment nor a string leave it
/// as it is.
proof fn lemma_blanks_behind_plain(a: Seq<char>, w: Seq<char>, b: Seq<char>)
    requires
        a.len() > 0,
        w.len() > 0,
        is_blanks(w),
        classify(a + b).1 <= a.len(),
        classify(a + b).0 != LexemeClass::Comment,
        a[0] != '"',
    ensures
        classify(a + w + b) == classify(a + b),
{
    let s = a + b;
    let t = a + w + b;
    assert(t[0] == s[0]);
    if a.len() >= 2 {
        assert(t[1] == s[1]);
    } else {
        assert(t[1] == w[0]);
        assert(is_blank(w[0]));
    }
}

/// Blanks behind a comment leave it as it is where it ends before them,
/// and are taken into it where it ends with them.
proof fn lemma_blanks_behind_comment(a: Seq<char>, w: Seq<char>, b: Seq<char>)
    requires
        is_blanks(w),
        a.len() > 0,
        classify(a + b).1 <= a.len(),
        classify(a + b).0 == LexemeClass::Comment,
    ensures
        classify(a + w + b).0 == LexemeClass::Comment,
        classify(a + w + b).1 == classify(a + b).1 || (classify(a + b).1 == a.len() && classify(
            a + w + b,
        ).1 == a.len() + w.len()),
{
    let s = a + b;
    let t = a + w + b;
    let head = a.skip(2);
    assert(t[0] == s[0]);
    assert(t[1] == s[1]);
    assert(s.skip(2) =~= head + b);
    assert(t.skip(2) =~= head + (w + b));
    lemma_blanks(w);
    lemma_run_before_add(head, b, '\n');
    lemma_run_before_add(head, w + b, '\n');
    lemma_run_before_add(w, b, '\n');
    lemma_run_before(head, '\n');
}

/// Blanks behind a string leave it as it is where it has an end, and are
/// taken into it where it has none.
proof fn lemma_blanks_behind_string(a: Seq<char>, w: Seq<char>, b: Seq<char>)
    requires
        is_blanks(w),
        a.len() > 0,
        classify(a + b).1 <= a.len(),
        a[0] == '"',
    ensures
        classify(a + w + b) == classify(a + b) || (b.len() == 0 && classify(a + b) == (
            LexemeClass::Error(LexErrorKind::UnterminatedString),
            a.len(),
        ) && classify(a + w + b) == (
            LexemeClass::Error(LexErrorKind::UnterminatedString),
            a.len() + w.len(),
        )),
{
    let s = a + b;
    let t = a + w + b;
    let head = a.skip(1);
    assert(t[0] == s[0]);
    assert(s.skip(1) =~= head + b);
    assert(t.skip(1) =~= head + (w + b));
    lemma_blanks(w);
    lemma_run_before_add(head, b, '"');
    lemma_run_before_add(head, w + b, '"');
    lemma_run_before_add(w, b, '"');
    lemma_run_before(head, '"');
}

/// Blanks that stand between two lexemes of a text change neither the tokens
/// that are emitted for its lexemes nor the errors that are reported.
proof fn lemma_blanks_between(a: Seq<char>, w: Seq<char>, b: Seq<char>, line: int)
    requires
        is_boundary(a + b, a.len() as int),
        is_blanks(w),
    ensures
        emitted(lexemes(a + w + b, line)) == emitted(lexemes(a + b, line)),
        reported(lexemes(a + w + b, line)) == reported(lexemes(a + b, line)),
    decreases a.len(), w.len(),
{
    let s = a + b;
    let t = a + w + b;
    if w.len() == 0 {
        assert(t =~= s);
    } else if a.len() == 0 {
        // The first blank is a lexeme of its own.
        lemma_lexemes_unfold(t, line);
        assert(t[0] == w[0]);
        assert(is_blank(w[0]));
        assert(t.take(1).drop_last() =~= Seq::<char>::empty());
        assert(newline_count(Seq::<char>::empty()) == 0);
        assert(t.skip(1) =~= a + w.skip(1) + b);
        assert(a + w.skip(1) + b =~= w.skip(1) + b);
        assert(s =~= b);
        assert(is_blanks(w.skip(1))) by {
            assert forall|i: int| 0 <= i < w.skip(1).len() implies is_blank(
                #[trigger] w.skip(1)[i],
            ) by {
                assert(is_blank(w[i + 1]));
            }
        }
        lemma_blanks_between(a, w.skip(1), b, line);
    } else {
        lemma_lexemes_unfold(s, line);
        lemma_lexemes_unfold(t, line);
        let n = classify(s).1 as int;
        let m = classify(t).1 as int;
        let end_line = first_lexeme(s, line).end_line();
        if classify(s).0 == LexemeClass::Comment {
            lemma_blanks_behind_comment(a, w, b);
        } else if a[0] == '"' {
            lemma_blanks_behind_string(a, w, b);
        } else {
            lemma_blanks_behind_plain(a, w, b);
        }
        if m == n {
            assert(s.take(n) =~= t.take(n));
            assert(s.skip(n) =~= a.skip(n) + b);
            assert(t.skip(n) =~= a.skip(n) + w + b);
            lemma_blanks_between(a.skip(n), w, b, end_line);
        } else {
            // The lexeme takes the blanks in, and emits nothing.
            lemma_blanks(w);
            lemma_newline_count_add(a, w);
            assert(s.take(n) =~= a);
            assert(t.take(m) =~= a + w);
            assert(s.skip(n) =~= b);
            assert(t.skip(m) =~= b);
        }
    }
}

/// Spaces, tabs and carriage returns that are put between two lexemes of a
/// text change neither its tokens nor its errors.
pub proof fn lemma_blanks_between_lexemes(a: Seq<char>, w: Seq<char>, b: Seq<char>, line: int)
    requires
        is_boundary(a + b, a.len() as int),
        is_blanks(w),
    ensures
        tokens(a + w + b, line) == tokens(a + b, line),
        errors(a + w + b, line) == errors(a + b, line),
{
    lemma_blanks_between(a, w, b, line);
    lemma_blanks(w);
    lemma_newline_count_add(a, w);
    lemma_newline_count_add(a + w, b);
    lemma_newline_count_add(a, b);
}

} // verus!
