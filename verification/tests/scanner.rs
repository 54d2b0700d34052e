use rslox::lox_error::{LexError, LexErrorKind};
use rslox::scanner::{run, Scanner};
use rslox::token::{Token, TokenType};

fn scan(source: &str) -> (Vec<Token>, Vec<LexError>) {
    let mut scanner = Scanner::new(source.to_string());
    assert!(scanner.lines_fit());
    scanner.scan_tokens();
    (scanner.tokens().clone(), scanner.errors().clone())
}

fn types(tokens: &[Token]) -> Vec<TokenType> {
    tokens.iter().map(|token| token.token_type()).collect()
}

fn lexemes(tokens: &[Token]) -> Vec<String> {
    tokens.iter().map(|token| token.lexeme().clone()).collect()
}

fn lines(tokens: &[Token]) -> Vec<i32> {
    tokens.iter().map(|token| token.line()).collect()
}

#[test]
fn empty_source_gives_the_end_marker_alone() {
    let (tokens, errors) = scan("");
    assert_eq!(types(&tokens), vec![TokenType::Eof]);
    assert_eq!(tokens[0].lexeme(), "");
    assert_eq!(tokens[0].literal(), &None);
    assert_eq!(tokens[0].line(), 1);
    assert!(errors.is_empty());
}

#[test]
fn single_character_tokens() {
    let (tokens, errors) = scan("(){},.-+;*/");
    assert_eq!(
        types(&tokens),
        vec![
            TokenType::LeftParen,
            TokenType::RightParen,
            TokenType::LeftBrace,
            TokenType::RightBrace,
            TokenType::Comma,
            TokenType::Dot,
            TokenType::Minus,
            TokenType::Plus,
            TokenType::Semicolon,
            TokenType::Star,
            TokenType::Slash,
            TokenType::Eof,
        ]
    );
    assert_eq!(
        lexemes(&tokens),
        vec!["(", ")", "{", "}", ",", ".", "-", "+", ";", "*", "/", ""]
    );
    assert!(tokens.iter().all(|token| token.literal().is_none()));
    assert!(tokens.iter().all(|token| token.line() == 1));
    assert!(errors.is_empty());
}

#[test]
fn operators_of_one_character() {
    let (tokens, errors) = scan("! = < >");
    assert_eq!(
        types(&tokens),
        vec![
            TokenType::Bang,
            TokenType::Equal,
            TokenType::Less,
            TokenType::Greater,
            TokenType::Eof,
        ]
    );
    assert_eq!(lexemes(&tokens), vec!["!", "=", "<", ">", ""]);
    assert!(errors.is_empty());
}

#[test]
fn operators_of_two_characters() {
    let (tokens, errors) = scan("!= == <= >=");
    assert_eq!(
        types(&tokens),
        vec![
            TokenType::BangEqual,
            TokenType::EqualEqual,
            TokenType::LessEqual,
            TokenType::GreaterEqual,
            TokenType::Eof,
        ]
    );
    assert_eq!(lexemes(&tokens), vec!["!=", "==", "<=", ">=", ""]);
    assert!(errors.is_empty());
}

#[test]
fn bang_equal_is_one_token() {
    let (tokens, errors) = scan("!=");
    assert_eq!(types(&tokens), vec![TokenType::BangEqual, TokenType::Eof]);
    assert_eq!(tokens[0].lexeme(), "!=");
    assert_eq!(tokens[0].line(), 1);
    assert!(errors.is_empty());
}

#[test]
fn bang_before_another_character_stands_alone() {
    let (tokens, errors) = scan("!+");
    assert_eq!(
        types(&tokens),
        vec![TokenType::Bang, TokenType::Plus, TokenType::Eof]
    );
    assert_eq!(lexemes(&tokens), vec!["!", "+", ""]);
    assert!(errors.is_empty());
}

#[test]
fn bang_at_the_end_stands_alone() {
    let (tokens, errors) = scan("!");
    assert_eq!(types(&tokens), vec![TokenType::Bang, TokenType::Eof]);
    assert!(errors.is_empty());
}

#[test]
fn the_longest_operator_is_taken_first() {
    let (tokens, _) = scan("===");
    assert_eq!(
        types(&tokens),
        vec![TokenType::EqualEqual, TokenType::Equal, TokenType::Eof]
    );
    let (tokens, _) = scan("<==");
    assert_eq!(
        types(&tokens),
        vec![TokenType::LessEqual, TokenType::Equal, TokenType::Eof]
    );
}

#[test]
fn a_comment_gives_no_token() {
    let (tokens, errors) = scan("// hello\n+");
    assert_eq!(types(&tokens), vec![TokenType::Plus, TokenType::Eof]);
    assert_eq!(tokens[0].lexeme(), "+");
    assert_eq!(tokens[0].line(), 2);
    assert_eq!(tokens[1].line(), 2);
    assert!(errors.is_empty());
}

#[test]
fn a_comment_runs_to_the_end_of_the_source() {
    let (tokens, errors) = scan("+ // ( ) \" @");
    assert_eq!(types(&tokens), vec![TokenType::Plus, TokenType::Eof]);
    assert_eq!(lines(&tokens), vec![1, 1]);
    assert!(errors.is_empty());
}

#[test]
fn a_comment_ends_before_the_newline() {
    let (tokens, errors) = scan("//\n//x\n\n*");
    assert_eq!(types(&tokens), vec![TokenType::Star, TokenType::Eof]);
    assert_eq!(lines(&tokens), vec![4, 4]);
    assert!(errors.is_empty());
}

#[test]
fn a_slash_before_another_character_is_a_token() {
    let (tokens, errors) = scan("/ /");
    assert_eq!(
        types(&tokens),
        vec![TokenType::Slash, TokenType::Slash, TokenType::Eof]
    );
    assert!(errors.is_empty());
}

#[test]
fn whitespace_gives_no_token() {
    let (tokens, errors) = scan(" \t\r ");
    assert_eq!(types(&tokens), vec![TokenType::Eof]);
    assert_eq!(tokens[0].line(), 1);
    assert!(errors.is_empty());
}

#[test]
fn newlines_count_the_lines() {
    let (tokens, errors) = scan("+\n-\n\n*\n");
    assert_eq!(
        types(&tokens),
        vec![
            TokenType::Plus,
            TokenType::Minus,
            TokenType::Star,
            TokenType::Eof,
        ]
    );
    assert_eq!(lines(&tokens), vec![1, 2, 4, 5]);
    assert!(errors.is_empty());
}

#[test]
fn a_string_keeps_its_newline_and_loses_its_quotes() {
    let (tokens, errors) = scan("\"ab\ncd\"");
    assert_eq!(types(&tokens), vec![TokenType::String, TokenType::Eof]);
    assert_eq!(tokens[0].lexeme(), "\"ab\ncd\"");
    assert_eq!(tokens[0].literal(), &Some("ab\ncd".to_string()));
    assert_eq!(tokens[0].line(), 1);
    assert_eq!(tokens[1].line(), 2);
    assert!(errors.is_empty());
}

#[test]
fn an_empty_string_has_an_empty_value() {
    let (tokens, errors) = scan("\"\"");
    assert_eq!(types(&tokens), vec![TokenType::String, TokenType::Eof]);
    assert_eq!(tokens[0].lexeme(), "\"\"");
    assert_eq!(tokens[0].literal(), &Some(String::new()));
    assert!(errors.is_empty());
}

#[test]
fn a_string_holds_what_would_else_be_lexemes() {
    let (tokens, errors) = scan("(\"// != @\")");
    assert_eq!(
        types(&tokens),
        vec![
            TokenType::LeftParen,
            TokenType::String,
            TokenType::RightParen,
            TokenType::Eof,
        ]
    );
    assert_eq!(tokens[1].lexeme(), "\"// != @\"");
    assert_eq!(tokens[1].literal(), &Some("// != @".to_string()));
    assert!(errors.is_empty());
}

#[test]
fn a_token_behind_a_string_of_two_lines_is_on_the_second() {
    let (tokens, errors) = scan("\"a\nb\"+");
    assert_eq!(
        types(&tokens),
        vec![TokenType::String, TokenType::Plus, TokenType::Eof]
    );
    assert_eq!(lines(&tokens), vec![1, 2, 2]);
    assert!(errors.is_empty());
}

#[test]
fn a_string_without_end_is_reported() {
    let (tokens, errors) = scan("\"abc");
    assert_eq!(types(&tokens), vec![TokenType::Eof]);
    assert_eq!(
        errors,
        vec![LexError { kind: LexErrorKind::UnterminatedString, line: 1 }]
    );
}

#[test]
fn a_string_without_end_is_reported_on_the_line_on_which_the_source_ends() {
    let (tokens, errors) = scan("+\"a\nb\n");
    assert_eq!(types(&tokens), vec![TokenType::Plus, TokenType::Eof]);
    assert_eq!(lines(&tokens), vec![1, 3]);
    assert_eq!(
        errors,
        vec![LexError { kind: LexErrorKind::UnterminatedString, line: 3 }]
    );
}

#[test]
fn a_lone_quote_is_a_string_without_end() {
    let (tokens, errors) = scan("\"");
    assert_eq!(types(&tokens), vec![TokenType::Eof]);
    assert_eq!(
        errors,
        vec![LexError { kind: LexErrorKind::UnterminatedString, line: 1 }]
    );
}

#[test]
fn scanning_goes_on_behind_an_unknown_character() {
    let (tokens, errors) = scan("@+");
    assert_eq!(types(&tokens), vec![TokenType::Plus, TokenType::Eof]);
    assert_eq!(tokens[0].lexeme(), "+");
    assert_eq!(
        errors,
        vec![LexError { kind: LexErrorKind::UnexpectedCharacter, line: 1 }]
    );
}

#[test]
fn every_unknown_character_is_reported_on_its_line() {
    let (tokens, errors) = scan("@\n#(\n\n$");
    assert_eq!(types(&tokens), vec![TokenType::LeftParen, TokenType::Eof]);
    assert_eq!(lines(&tokens), vec![2, 4]);
    assert_eq!(
        errors,
        vec![
            LexError { kind: LexErrorKind::UnexpectedCharacter, line: 1 },
            LexError { kind: LexErrorKind::UnexpectedCharacter, line: 2 },
            LexError { kind: LexErrorKind::UnexpectedCharacter, line: 4 },
        ]
    );
}

#[test]
fn letters_and_digits_begin_no_lexeme() {
    let (tokens, errors) = scan("a1");
    assert_eq!(types(&tokens), vec![TokenType::Eof]);
    assert_eq!(errors.len(), 2);
    assert!(errors
        .iter()
        .all(|error| error.kind == LexErrorKind::UnexpectedCharacter));
}

#[test]
fn a_character_of_several_bytes_is_one_character() {
    let (tokens, errors) = scan("\u{e9}+\"h\u{e9}llo \u{1f600}\"-");
    assert_eq!(
        types(&tokens),
        vec![
            TokenType::Plus,
            TokenType::String,
            TokenType::Minus,
            TokenType::Eof,
        ]
    );
    assert_eq!(tokens[1].lexeme(), "\"h\u{e9}llo \u{1f600}\"");
    assert_eq!(tokens[1].literal(), &Some("h\u{e9}llo \u{1f600}".to_string()));
    assert_eq!(
        errors,
        vec![LexError { kind: LexErrorKind::UnexpectedCharacter, line: 1 }]
    );
}

#[test]
fn a_nul_character_is_an_unknown_character() {
    let (tokens, errors) = scan("//a\0b\n\"c\0d\"\0");
    assert_eq!(types(&tokens), vec![TokenType::String, TokenType::Eof]);
    assert_eq!(tokens[0].literal(), &Some("c\0d".to_string()));
    assert_eq!(lines(&tokens), vec![2, 2]);
    assert_eq!(
        errors,
        vec![LexError { kind: LexErrorKind::UnexpectedCharacter, line: 2 }]
    );
}

#[test]
fn the_lexemes_and_what_is_discarded_make_up_the_source() {
    let source = "(!=)// c\n\"s\" \t<=";
    let (tokens, errors) = scan(source);
    assert!(errors.is_empty());
    let mut rest = source;
    for token in &tokens {
        let at = rest.find(token.lexeme().as_str()).unwrap();
        let skipped = &rest[..at];
        assert!(
            skipped.is_empty()
                || skipped.starts_with("//")
                || skipped.chars().all(|c| c == ' ' || c == '\t' || c == '\n')
        );
        rest = &rest[at + token.lexeme().len()..];
    }
    assert_eq!(rest, "");
    assert_eq!(lexemes(&tokens), vec!["(", "!=", ")", "\"s\"", "<=", ""]);
}

#[test]
fn the_end_marker_is_last_and_alone_is_empty() {
    for source in ["", "+", "\"a\" // b", "@@\n", "\"open", "( ) \n != \n"] {
        let (tokens, _) = scan(source);
        let (last, others) = tokens.split_last().unwrap();
        assert_eq!(last.token_type(), TokenType::Eof);
        assert_eq!(last.lexeme(), "");
        assert_eq!(last.literal(), &None);
        assert_eq!(
            last.line(),
            1 + source.chars().filter(|c| *c == '\n').count() as i32
        );
        for token in others {
            assert_ne!(token.token_type(), TokenType::Eof);
            assert!(!token.lexeme().is_empty());
        }
    }
}

#[test]
fn the_lines_of_the_tokens_do_not_go_down() {
    let (tokens, _) = scan("(\n\"a\nb\"\n// c\n+ @ \"d\n\n\" -\n\n");
    assert_eq!(lines(&tokens), vec![1, 2, 5, 5, 7, 9]);
    for pair in tokens.windows(2) {
        assert!(pair[0].line() <= pair[1].line());
    }
}

#[test]
fn blanks_between_lexemes_change_no_token() {
    let (plain, plain_errors) = scan("(!=\"a b\")@//c\n+");
    let (spaced, spaced_errors) = scan(" ( \t!=\r\"a b\"  )\t@ //c \r\n\t+ ");
    assert_eq!(types(&plain), types(&spaced));
    assert_eq!(lexemes(&plain), lexemes(&spaced));
    assert_eq!(lines(&plain), lines(&spaced));
    for (a, b) in plain.iter().zip(spaced.iter()) {
        assert_eq!(a.literal(), b.literal());
    }
    assert_eq!(plain_errors, spaced_errors);
}

#[test]
fn blanks_inside_an_operator_part_it() {
    let (tokens, errors) = scan("! =");
    assert_eq!(
        types(&tokens),
        vec![TokenType::Bang, TokenType::Equal, TokenType::Eof]
    );
    assert!(errors.is_empty());
}

#[test]
fn a_new_scanner_has_read_nothing() {
    let scanner = Scanner::new("+\n-".to_string());
    assert_eq!(scanner.source(), "+\n-");
    assert!(scanner.tokens().is_empty());
    assert!(scanner.errors().is_empty());
    assert!(scanner.lines_fit());
}

#[test]
fn the_scanner_keeps_its_source() {
    let mut scanner = Scanner::new("(\n)".to_string());
    scanner.scan_tokens();
    assert_eq!(scanner.source(), "(\n)");
    assert_eq!(scanner.tokens().len(), 3);
}

#[test]
fn scanning_again_adds_the_end_marker_again() {
    let mut scanner = Scanner::new("+\n".to_string());
    scanner.scan_tokens();
    scanner.scan_tokens();
    assert_eq!(
        types(scanner.tokens()),
        vec![TokenType::Plus, TokenType::Eof, TokenType::Eof]
    );
    assert_eq!(lines(scanner.tokens()), vec![1, 2, 2]);
}

#[test]
fn run_gives_the_tokens_and_the_errors() {
    let (tokens, errors) = run(&"{\n  @ \"x\" >= // y\n}".to_string()).unwrap();
    assert_eq!(
        types(&tokens),
        vec![
            TokenType::LeftBrace,
            TokenType::String,
            TokenType::GreaterEqual,
            TokenType::RightBrace,
            TokenType::Eof,
        ]
    );
    assert_eq!(lexemes(&tokens), vec!["{", "\"x\"", ">=", "}", ""]);
    assert_eq!(lines(&tokens), vec![1, 2, 2, 3, 3]);
    assert_eq!(
        errors,
        vec![LexError { kind: LexErrorKind::UnexpectedCharacter, line: 2 }]
    );
}
