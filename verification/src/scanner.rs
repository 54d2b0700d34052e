//! The scanner: reads a source text and collects its tokens and errors.

use crate::grammar::{
    emitted, errors, first_lexeme, lemma_classify_len, lemma_newline_count_add,
    lemma_newline_count_none, lemma_newline_count_subrange, lemma_run_before, lexemes,
    newline_count, reported, run_before, tokens,
};
use crate::lox_error::{LexError, LexErrorKind, LexErrorView};
use crate::text::{substring, to_chars};
use crate::token::{Token, TokenType, TokenView};
use vstd::prelude::*;

verus! {

/// What a scanner holds, as a mathematical value.
pub struct ScannerView {
    /// The source text.
    pub source: Seq<char>,
    /// The number of characters read.
    pub position: nat,
    /// The line, counted from 1, on which the next character stands.
    pub line: int,
    /// The tokens found so far.
    pub tokens: Seq<TokenView>,
    /// The errors found so far.
    pub errors: Seq<LexErrorView>,
}

impl ScannerView {
    /// The part of the source that is still to be read.
    pub open spec fn rest(self) -> Seq<char> {
        self.source.skip(self.position as int)
    }
}

/// Takes a source text as a series of characters and groups it into tokens.
pub struct Scanner {
    /// The source text.
    source: String,
    /// The tokens found so far.
    tokens: Vec<Token>,
    /// The errors found so far.
    errors: Vec<LexError>,
    /// The characters of the source text.
    chars: Vec<char>,
    /// Where the lexeme being read begins.
    start: usize,
    /// The next character to read.
    current: usize,
    /// The line on which the next character stands.
    line: i32,
}

impl View for Scanner {
    type V = ScannerView;

    closed spec fn view(&self) -> ScannerView {
        ScannerView {
            source: self.source@,
            position: self.current as nat,
            line: self.line as int,
            tokens: self.tokens.deep_view(),
            errors: self.errors.deep_view(),
        }
    }
}

impl Scanner {
    /// The scanner holds the characters of its source, and the lexeme that it
    /// is reading lies inside the source.
    pub closed spec fn inv(&self) -> bool {
        &&& self.chars@ == self.source@
        &&& self.start <= self.current <= self.chars.len()
    }

    /// The scanner stands inside its text, and its line is one more than the
    /// number of newlines that it has read.
    pub open spec fn wf(&self) -> bool {
        &&& self.inv()
        &&& self@.position <= self@.source.len()
        &&& self@.line == 1 + newline_count(self@.source.take(self@.position as int))
    }

    /// A scanner at the beginning of `source`.
    #[must_use]
    pub fn new(source: String) -> (scanner: Self)
        ensures
            scanner.wf(),
            scanner@ == (ScannerView {
                source: source@,
                position: 0,
                line: 1,
                tokens: Seq::empty(),
                errors: Seq::empty(),
            }),
    {
        let chars = to_chars(source.as_str());
        let scanner = Scanner {
            source,
            tokens: Vec::new(),
            errors: Vec::new(),
            chars,
            start: 0,
            current: 0,
            line: 1,
        };
        assert(scanner.tokens.deep_view() =~= Seq::empty());
        assert(scanner.errors.deep_view() =~= Seq::empty());
        scanner
    }

    /// The source text.
    pub fn source(&self) -> (source: &String)
        ensures
            source@ == self@.source,
    {
        &self.source
    }

    /// The tokens found so far.
    pub fn tokens(&self) -> (tokens: &Vec<Token>)
        ensures
            tokens.deep_view() == self@.tokens,
    {
        &self.tokens
    }

    /// The errors found so far.
    pub fn errors(&self) -> (errors: &Vec<LexError>)
        ensures
            errors.deep_view() == self@.errors,
    {
        &self.errors
    }

    /// Whether the lines of the source can be counted in an `i32`.
    pub fn lines_fit(&self) -> (fit: bool)
        requires
            self.wf(),
        ensures
            fit == (1 + newline_count(self@.source) <= i32::MAX),
    {
        let mut newlines: usize = 0;
        let mut i: usize = 0;
        while i < self.chars.len()
            invariant
                self.inv(),
                i <= self.chars.len(),
                newlines <= i,
                newlines == newline_count(self.source@.take(i as int)),
            decreases self.chars.len() - i,
        {
            assert(self.source@.take(i + 1).drop_last() =~= self.source@.take(i as int));
            if self.chars[i] == '\n' {
                newlines += 1;
            }
            i += 1;
        }
        assert(self.source@.take(i as int) =~= self.source@);
        newlines < 0x7fff_ffff
    }

    /// Whether the whole source has been read.
    fn is_at_end(&self) -> (at_end: bool)
        ensures
            at_end == (self.current >= self.chars.len()),
    {
        self.current >= self.chars.len()
    }

    /// The next character, which stays unread; `'\0'` at the end.
    fn peek(&self) -> (c: char)
        ensures
            c == if self.current < self.chars.len() {
                self.chars@[self.current as int]
            } else {
                '\0'
            },
    {
        if self.is_at_end() {
            '\0'
        } else {
            self.chars[self.current]
        }
    }

    /// Reads the next character.
    fn advance(&mut self) -> (c: char)
        requires
            old(self).current < old(self).chars.len(),
        ensures
            c == old(self).chars@[old(self).current as int],
            *final(self) == (Scanner { current: (old(self).current + 1) as usize, ..*old(self) }),
    {
        let c = self.chars[self.current];
        self.current += 1;
        c
    }

    /// Reads the next character if it is `expected`, and says whether it was.
    fn match_char(&mut self, expected: char) -> (matched: bool)
        ensures
            matched == (old(self).current < old(self).chars.len() && old(self).chars@[old(
                self,
            ).current as int] == expected),
            *final(self) == (Scanner {
                current: if matched {
                    (old(self).current + 1) as usize
                } else {
                    old(self).current
                },
                ..*old(self)
            }),
    {
        if self.is_at_end() {
            return false;
        }
        let curr = self.chars[self.current];
        if curr != expected {
            return false;
        }
        self.current += 1;
        true
    }

    /// Emits a token for the lexeme that was read since `start`.
    fn push_token(&mut self, token: TokenType, literal: Option<String>, line: i32)
        requires
            old(self).inv(),
        ensures
            final(self).tokens.deep_view() == old(self).tokens.deep_view().push(
                TokenView {
                    token_type: token,
                    lexeme: old(self).source@.subrange(
                        old(self).start as int,
                        old(self).current as int,
                    ),
                    literal: match literal {
                        Some(value) => Some(value@),
                        None => None,
                    },
                    line: line as int,
                },
            ),
            *final(self) == (Scanner { tokens: final(self).tokens, ..*old(self) }),
    {
        let lexeme = substring(&self.chars, self.start, self.current);
        self.tokens.push(Token::new(token, lexeme, literal, line));
        assert(self.tokens.deep_view() =~= old(self).tokens.deep_view().push(
            self.tokens@.last().deep_view(),
        ));
    }

    /// Emits a token without a value, on the current line.
    fn add_token(&mut self, token: TokenType)
        requires
            old(self).inv(),
        ensures
            final(self).tokens.deep_view() == old(self).tokens.deep_view().push(
                TokenView {
                    token_type: token,
                    lexeme: old(self).source@.subrange(
                        old(self).start as int,
                        old(self).current as int,
                    ),
                    literal: None,
                    line: old(self).line as int,
                },
            ),
            *final(self) == (Scanner { tokens: final(self).tokens, ..*old(self) }),
    {
        self.push_token(token, None, self.line)
    }

    /// Emits a token with the value `literal`, for a lexeme that began on
    /// line `line`.
    fn add_string_lexeme(&mut self, token: TokenType, literal: String, line: i32)
        requires
            old(self).inv(),
        ensures
            final(self).tokens.deep_view() == old(self).tokens.deep_view().push(
                TokenView {
                    token_type: token,
                    lexeme: old(self).source@.subrange(
                        old(self).start as int,
                        old(self).current as int,
                    ),
                    literal: Some(literal@),
                    line: line as int,
                },
            ),
            *final(self) == (Scanner { tokens: final(self).tokens, ..*old(self) }),
    {
        self.push_token(token, Some(literal), line)
    }

    /// Emits `t1` if the next character is `expected`, which is then read,
    /// and `t2` if it is not.
    fn check_second_char(&mut self, expected: char, t1: TokenType, t2: TokenType)
        requires
            old(self).inv(),
        ensures
            ({
                let matched = old(self).current < old(self).chars.len() && old(self).chars@[old(
                    self,
                ).current as int] == expected;
                &&& final(self).current == if matched {
                    old(self).current + 1
                } else {
                    old(self).current as int
                }
                &&& final(self).tokens.deep_view() == old(self).tokens.deep_view().push(
                    TokenView {
                        token_type: if matched {
                            t1
                        } else {
                            t2
                        },
                        lexeme: old(self).source@.subrange(
                            old(self).start as int,
                            final(self).current as int,
                        ),
                        literal: None,
                        line: old(self).line as int,
                    },
                )
            }),
            *final(self) == (Scanner {
                current: final(self).current,
                tokens: final(self).tokens,
                ..*old(self)
            }),
    {
        if self.match_char(expected) {
            self.add_token(t1);
        } else {
            self.add_token(t2);
        }
    }

    /// Reads a comment up to the end of its line if the next character is a
    /// second slash, and emits a slash if it is not.
    fn handle_slash(&mut self)
        requires
            old(self).inv(),
        ensures
            ({
                let comment = old(self).current < old(self).chars.len() && old(self).chars@[old(
                    self,
                ).current as int] == '/';
                if comment {
                    &&& final(self).current == old(self).current + 1 + run_before(
                        old(self).source@.skip(old(self).current + 1),
                        '\n',
                    )
                    &&& final(self).tokens == old(self).tokens
                } else {
                    &&& final(self).current == old(self).current
                    &&& final(self).tokens.deep_view() == old(self).tokens.deep_view().push(
                        TokenView {
                            token_type: TokenType::Slash,
                            lexeme: old(self).source@.subrange(
                                old(self).start as int,
                                old(self).current as int,
                            ),
                            literal: None,
                            line: old(self).line as int,
                        },
                    )
                }
            }),
            *final(self) == (Scanner {
                current: final(self).current,
                tokens: final(self).tokens,
                ..*old(self)
            }),
    {
        match self.match_char('/') {
            true => {
                let ghost from = self.current as int;
                while (self.peek() != '\n') && !self.is_at_end()
                    invariant
                        self.inv(),
                        *self == (Scanner { current: self.current, ..*old(self) }),
                        0 <= from <= self.current,
                        run_before(self.source@.skip(from), '\n') == (self.current - from)
                            + run_before(self.source@.skip(self.current as int), '\n'),
                    decreases self.chars.len() - self.current,
                {
                    assert(self.source@.skip(self.current as int).skip(1)
                        =~= self.source@.skip(self.current + 1));
                    self.advance();
                }
            },
            false => self.add_token(TokenType::Slash),
        }
    }

    /// Records an error of the given kind on the current line.
    fn report(&mut self, kind: LexErrorKind)
        ensures
            final(self).errors.deep_view() == old(self).errors.deep_view().push(
                LexErrorView { kind, line: old(self).line as int },
            ),
            *final(self) == (Scanner { errors: final(self).errors, ..*old(self) }),
    {
        self.errors.push(LexError { kind, line: self.line });
        assert(self.errors.deep_view() =~= old(self).errors.deep_view().push(
            self.errors@.last().deep_view(),
        ));
    }

    /// Reads a string literal, whose opening quote was read, up to its
    /// closing quote, and emits it; reports it if the text ends before.
    fn string(&mut self)
        requires
            old(self).inv(),
            old(self).start < old(self).current,
            old(self).line + newline_count(old(self).source@.skip(old(self).current as int))
                <= i32::MAX,
        ensures
            ({
                let inside = run_before(old(self).source@.skip(old(self).current as int), '"');
                let closed = old(self).current + inside < old(self).chars.len();
                &&& final(self).current == if closed {
                    old(self).current + inside + 1
                } else {
                    old(self).chars.len() as int
                }
                &&& final(self).line == old(self).line + newline_count(
                    old(self).source@.subrange(
                        old(self).current as int,
                        final(self).current as int,
                    ),
                )
                &&& if closed {
                    &&& final(self).tokens.deep_view() == old(self).tokens.deep_view().push(
                        TokenView {
                            token_type: TokenType::String,
                            lexeme: old(self).source@.subrange(
                                old(self).start as int,
                                final(self).current as int,
                            ),
                            literal: Some(
                                old(self).source@.subrange(
                                    old(self).start + 1,
                                    final(self).current - 1,
                                ),
                            ),
                            line: old(self).line as int,
                        },
                    )
                    &&& final(self).errors == old(self).errors
                } else {
                    &&& final(self).tokens == old(self).tokens
                    &&& final(self).errors.deep_view() == old(self).errors.deep_view().push(
                        LexErrorView {
                            kind: LexErrorKind::UnterminatedString,
                            line: final(self).line as int,
                        },
                    )
                }
            }),
            *final(self) == (Scanner {
                current: final(self).current,
                line: final(self).line,
                tokens: final(self).tokens,
                errors: final(self).errors,
                ..*old(self)
            }),
    {
        let line = self.line;
        let ghost from = self.current as int;
        while (self.peek() != '"') && !self.is_at_end()
            invariant
                self.inv(),
                *self == (Scanner { current: self.current, line: self.line, ..*old(self) }),
                0 <= from <= self.current,
                line + newline_count(self.source@.skip(from)) <= i32::MAX,
                self.line == line + newline_count(
                    self.source@.subrange(from, self.current as int),
                ),
                run_before(self.source@.skip(from), '"') == (self.current - from) + run_before(
                    self.source@.skip(self.current as int),
                    '"',
                ),
            decreases self.chars.len() - self.current,
        {
            proof {
                let next = self.current + 1;
                assert(self.source@.skip(self.current as int).skip(1) =~= self.source@.skip(next));
                assert(self.source@.subrange(from, next).drop_last() =~= self.source@.subrange(
                    from,
                    self.current as int,
                ));
                lemma_newline_count_subrange(self.source@.skip(from), 0, next - from);
                assert(self.source@.skip(from).subrange(0, next - from) =~= self.source@.subrange(
                    from,
                    next,
                ));
            }
            if self.peek() == '\n' {
                self.line += 1;
            }
            self.advance();
        }
        if self.is_at_end() {
            self.report(LexErrorKind::UnterminatedString);
            return;
        }
        proof {
            let next = self.current + 1;
            assert(self.source@.subrange(from, next).drop_last() =~= self.source@.subrange(
                from,
                self.current as int,
            ));
        }
        // The closing quote.
        self.advance();
        // The value, without the surrounding quotes.
        let val = substring(&self.chars, self.start + 1, self.current - 1);
        self.add_string_lexeme(TokenType::String, val, line);
    }

    /// `self` is what `before` becomes when the lexeme that begins at its
    /// `start` has been read.
    spec fn finished(&self, before: &Scanner) -> bool {
        let lexeme = first_lexeme(before.source@.skip(before.start as int), before.line as int);
        &&& self.current == before.start + lexeme.text.len()
        &&& self.line == lexeme.end_line()
        &&& self.tokens.deep_view() == match lexeme.token() {
            Some(token) => before.tokens.deep_view().push(token),
            None => before.tokens.deep_view(),
        }
        &&& self.errors.deep_view() == match lexeme.error() {
            Some(error) => before.errors.deep_view().push(error),
            None => before.errors.deep_view(),
        }
        &&& *self == (Scanner {
            current: self.current,
            line: self.line,
            tokens: self.tokens,
            errors: self.errors,
            ..*before
        })
    }

    /// Reads one lexeme and emits or reports what it gives.
    fn scan_token(&mut self)
        requires
            old(self).inv(),
            old(self).start == old(self).current,
            old(self).current < old(self).chars.len(),
            old(self).line + newline_count(old(self).source@.skip(old(self).current as int))
                <= i32::MAX,
        ensures
            final(self).inv(),
            final(self).finished(old(self)),
    {
        let ghost start = self.start as int;
        let ghost rest = self.source@.skip(start);
        proof {
            assert(rest.take(1) =~= self.source@.subrange(start, start + 1));
            assert(rest.take(1).drop_last() =~= Seq::<char>::empty());
            assert(newline_count(Seq::<char>::empty()) == 0);
            assert(newline_count(rest.take(1)) == if rest[0] == '\n' {
                1nat
            } else {
                0nat
            });
            assert(rest.skip(1) =~= self.source@.skip(start + 1));
            assert(rest.skip(1) =~= rest.subrange(1, rest.len() as int));
            lemma_newline_count_subrange(rest, 1, rest.len() as int);
            if rest.len() > 1 {
                assert(rest.take(2) =~= self.source@.subrange(start, start + 2));
                assert(rest.skip(2) =~= self.source@.skip(start + 2));
                assert(rest.take(2).drop_last() =~= rest.take(1));
            }
        }
        let c = self.advance();
        match c {
            '(' => self.add_token(TokenType::LeftParen),
            ')' => self.add_token(TokenType::RightParen),
            '{' => self.add_token(TokenType::LeftBrace),
            '}' => self.add_token(TokenType::RightBrace),
            ',' => self.add_token(TokenType::Comma),
            '.' => self.add_token(TokenType::Dot),
            '-' => self.add_token(TokenType::Minus),
            '+' => self.add_token(TokenType::Plus),
            ';' => self.add_token(TokenType::Semicolon),
            '*' => self.add_token(TokenType::Star),
            // Lexemes of one or two characters.
            '!' => self.check_second_char('=', TokenType::BangEqual, TokenType::Bang),
            '=' => self.check_second_char('=', TokenType::EqualEqual, TokenType::Equal),
            '<' => self.check_second_char('=', TokenType::LessEqual, TokenType::Less),
            '>' => self.check_second_char('=', TokenType::GreaterEqual, TokenType::Greater),
            '/' => {
                self.handle_slash();
                proof {
                    let run = run_before(rest.skip(2), '\n');
                    if rest.len() > 1 && rest[1] == '/' {
                        lemma_run_before(rest.skip(2), '\n');
                        let text = rest.take(2 + run as int);
                        assert forall|i: int| 0 <= i < text.len() implies text[i] != '\n' by {
                            if i >= 2 {
                                assert(text[i] == rest.skip(2)[i - 2]);
                            }
                        }
                        lemma_newline_count_none(text);
                    }
                }
            },
            // Lexemes that give nothing.
            ' ' | '\r' | '\t' => (),
            '\n' => {
                proof {
                    lemma_newline_count_subrange(rest, 0, 1);
                }
                self.line += 1
            },
            '"' => {
                self.string();
                proof {
                    let inside = run_before(rest.skip(1), '"');
                    lemma_run_before(rest.skip(1), '"');
                    let end = self.current as int;
                    let text = self.source@.subrange(start, end);
                    lemma_newline_count_add(
                        self.source@.subrange(start, start + 1),
                        self.source@.subrange(start + 1, end),
                    );
                    assert(text =~= self.source@.subrange(start, start + 1)
                        + self.source@.subrange(start + 1, end));
                    assert(text =~= rest.take(end - start));
                    if inside + 1 < rest.len() {
                        assert(text.subrange(1, text.len() - 1) =~= self.source@.subrange(
                            start + 1,
                            end - 1,
                        ));
                    }
                }
            },
            _ => self.report(LexErrorKind::UnexpectedCharacter),
        }
    }

    /// Reads the rest of the source: emits the tokens of its lexemes and the
    /// end marker, and reports its errors.
    pub fn scan_tokens(&mut self)
        requires
            old(self).wf(),
            1 + newline_count(old(self)@.source) <= i32::MAX,
        ensures
            final(self).wf(),
            final(self)@ == (ScannerView {
                source: old(self)@.source,
                position: old(self)@.source.len(),
                line: old(self)@.line + newline_count(old(self)@.rest()),
                tokens: old(self)@.tokens + tokens(old(self)@.rest(), old(self)@.line),
                errors: old(self)@.errors + errors(old(self)@.rest(), old(self)@.line),
            }),
    {
        while !self.is_at_end()
            invariant
                self.wf(),
                self@.source == old(self)@.source,
                1 + newline_count(self@.source) <= i32::MAX,
                self@.tokens + emitted(lexemes(self@.rest(), self@.line)) == old(self)@.tokens
                    + emitted(lexemes(old(self)@.rest(), old(self)@.line)),
                self@.errors + reported(lexemes(self@.rest(), self@.line)) == old(self)@.errors
                    + reported(lexemes(old(self)@.rest(), old(self)@.line)),
            decreases self.chars.len() - self.current,
        {
            self.start = self.current;
            let ghost before = *self;
            proof {
                lemma_newline_count_add(
                    self.source@.take(self.current as int),
                    self.source@.skip(self.current as int),
                );
                assert(self.source@ =~= self.source@.take(self.current as int)
                    + self.source@.skip(self.current as int));
            }
            self.scan_token();
            proof {
                let rest = before@.rest();
                lemma_classify_len(rest);
                let first = first_lexeme(rest, before@.line);
                let len = first.text.len() as int;
                let tail = lexemes(rest.skip(len), first.end_line());
                assert(lexemes(rest, before@.line) == seq![first] + tail);
                assert((seq![first] + tail).skip(1) =~= tail);
                assert(rest.skip(len) =~= self@.rest());
                lemma_newline_count_add(before.source@.take(before.current as int), first.text);
                assert(self.source@.take(self.current as int) =~= before.source@.take(
                    before.current as int,
                ) + first.text);
            }
        }
        let ghost done = self@.tokens;
        self.tokens.push(Token::new(TokenType::Eof, String::new(), None, self.line));
        proof {
            assert(self@.rest().len() == 0);
            assert(lexemes(self@.rest(), self@.line) =~= Seq::empty());
            assert(emitted(Seq::empty()) =~= Seq::empty());
            assert(reported(Seq::empty()) =~= Seq::empty());
            assert(done =~= old(self)@.tokens + emitted(
                lexemes(old(self)@.rest(), old(self)@.line),
            ));
            assert(self.tokens.deep_view() =~= done.push(self.tokens@.last().deep_view()));
            let position = old(self).current as int;
            lemma_newline_count_add(
                old(self).source@.take(position),
                old(self).source@.skip(position),
            );
            assert(old(self).source@ =~= old(self).source@.take(position) + old(self).source@.skip(
                position,
            ));
            assert(self.source@.take(self.current as int) =~= self.source@);
            assert(self.tokens.deep_view() =~= old(self)@.tokens + tokens(
                old(self)@.rest(),
                old(self)@.line,
            ));
        }
    }
}

/// The tokens and the errors of `source`, or nothing where the lines of
/// `source` cannot be counted in an `i32`.
pub fn run(source: &String) -> (scanned: Option<(Vec<Token>, Vec<LexError>)>)
    ensures
        scanned is Some <==> 1 + newline_count(source@) <= i32::MAX,
        scanned matches Some((found, failed)) ==> {
            &&& found.deep_view() == tokens(source@, 1)
            &&& failed.deep_view() == errors(source@, 1)
        },
{
    let mut scanner = Scanner::new(source.clone());
    if !scanner.lines_fit() {
        return None;
    }
    scanner.scan_tokens();
    proof {
        assert(source@.skip(0) =~= source@);
        assert(scanner@.tokens =~= tokens(source@, 1));
        assert(scanner@.errors =~= errors(source@, 1));
    }
    Some((scanner.tokens, scanner.errors))
}

} // verus!
