use ka::diagnostic::{Diagnostic, FileId, Span};
use ka::intern::Interner;
use ka::lex::{Token, Tokens};

fn lex(input: &str) -> (Tokens, Vec<Diagnostic>) {
    let mut emitter = Vec::new();
    let mut interner = Interner::new();
    let tokens = Tokens::lex(&mut emitter, &mut interner, FileId { index: 0 }, input);
    (tokens, emitter)
}

fn kinds(tokens: &Tokens) -> Vec<Token> {
    tokens.iter().iter().map(|(t, _)| *t).collect()
}

fn spans(tokens: &Tokens) -> Vec<(u32, u32)> {
    tokens.iter().iter().map(|(_, s)| (s.start, s.end)).collect()
}

#[test]
fn simple_line() {
    let (tokens, diags) = lex("let x = 12");
    assert!(diags.is_empty());
    assert_eq!(
        kinds(&tokens),
        vec![
            Token::Let,
            Token::Whitespace,
            Token::Ident("x"),
            Token::Whitespace,
            Token::Eq,
            Token::Whitespace,
            Token::Number("12"),
        ]
    );
    assert_eq!(spans(&tokens), vec![(0, 3), (3, 4), (4, 5), (5, 6), (6, 7), (7, 8), (8, 10)]);
}

#[test]
fn nested_blocks_open_and_close() {
    let (tokens, diags) = lex("a\n  b\n    c\nd");
    assert!(diags.is_empty());
    assert_eq!(
        kinds(&tokens),
        vec![
            Token::Ident("a"),
            Token::Newline,
            Token::Indent,
            Token::Ident("b"),
            Token::Newline,
            Token::Indent,
            Token::Ident("c"),
            Token::Newline,
            Token::Dedent,
            Token::Dedent,
            Token::Ident("d"),
        ]
    );
    let s = spans(&tokens);
    assert_eq!(s[2], (2, 4));
    assert_eq!(s[5], (6, 10));
    assert_eq!(s[8], (12, 12));
    assert_eq!(s[9], (12, 12));
}

#[test]
fn open_blocks_close_at_end_of_input() {
    let (tokens, _) = lex("a\n  b");
    assert_eq!(
        kinds(&tokens),
        vec![Token::Ident("a"), Token::Newline, Token::Indent, Token::Ident("b"), Token::Dedent]
    );
    assert_eq!(spans(&tokens)[4], (5, 5));
}

#[test]
fn blank_lines_change_no_block() {
    let (tokens, _) = lex("a\n\n  b");
    assert_eq!(
        kinds(&tokens),
        vec![
            Token::Ident("a"),
            Token::Newline,
            Token::Newline,
            Token::Indent,
            Token::Ident("b"),
            Token::Dedent,
        ]
    );
}

#[test]
fn leading_line_breaks_are_read_first() {
    let (tokens, _) = lex("\n  a");
    assert_eq!(
        kinds(&tokens),
        vec![Token::Newline, Token::Indent, Token::Ident("a"), Token::Dedent]
    );
}

#[test]
fn unexpected_character_is_reported() {
    let (tokens, diags) = lex("a $ b");
    assert_eq!(
        kinds(&tokens),
        vec![
            Token::Ident("a"),
            Token::Whitespace,
            Token::Invalid('$'),
            Token::Whitespace,
            Token::Ident("b"),
        ]
    );
    assert_eq!(diags.len(), 1);
    assert_eq!(diags[0].message(), "unexpected character `$`");
    assert_eq!(diags[0].labels()[0].message(), "found here");
    assert_eq!(diags[0].labels()[0].span(), Span::new(FileId { index: 0 }, 2, 3));
}

#[test]
fn line_break_after_an_unexpected_character_is_unexpected_too() {
    let (tokens, diags) = lex("$\nx");
    assert_eq!(
        kinds(&tokens),
        vec![Token::Invalid('$'), Token::Invalid('\n'), Token::Ident("x")]
    );
    assert_eq!(diags.len(), 2);
}

#[test]
fn indentation_that_does_not_extend_the_block_is_reported() {
    let (tokens, diags) = lex("a\n  b\n\tc");
    assert_eq!(
        kinds(&tokens),
        vec![
            Token::Ident("a"),
            Token::Newline,
            Token::Indent,
            Token::Ident("b"),
            Token::Newline,
            Token::Ident("c"),
            Token::Dedent,
        ]
    );
    assert_eq!(diags.len(), 1);
    assert_eq!(diags[0].message(), "invalid indentation");
    assert_eq!(diags[0].labels()[0].span(), Span::new(FileId { index: 0 }, 6, 7));
}

#[test]
fn strings_and_escapes() {
    let (tokens, _) = lex("\"a\\nb\\t\\\\\"");
    assert_eq!(kinds(&tokens), vec![Token::String("a\nb\t\\")]);
    let (tokens, _) = lex("\"abc");
    assert_eq!(kinds(&tokens), vec![Token::String("abc")]);
    assert_eq!(spans(&tokens), vec![(0, 4)]);
}

#[test]
fn symbols_longest_first() {
    let (tokens, _) = lex("->|>::==!=>=<=<-=:;.,+-*/><|!\\'(){}[]");
    assert_eq!(
        kinds(&tokens),
        vec![
            Token::RightArrow,
            Token::PipeGt,
            Token::ColonColon,
            Token::EqEq,
            Token::BangEq,
            Token::GtEq,
            Token::LtEq,
            Token::LeftArrow,
            Token::Eq,
            Token::Colon,
            Token::Semi,
            Token::Dot,
            Token::Comma,
            Token::Plus,
            Token::Minus,
            Token::Star,
            Token::Slash,
            Token::Gt,
            Token::Lt,
            Token::Pipe,
            Token::Bang,
            Token::Back,
            Token::Quote,
            Token::OpenParen,
            Token::CloseParen,
            Token::OpenBrace,
            Token::CloseBrace,
            Token::OpenBracket,
            Token::CloseBracket,
        ]
    );
}

#[test]
fn keywords_and_identifiers() {
    let (tokens, _) = lex("as do extern import int is let match nat num str type _ and x-y' a_1");
    let words: Vec<Token> = kinds(&tokens).into_iter().filter(|t| *t != Token::Whitespace).collect();
    assert_eq!(
        words,
        vec![
            Token::As,
            Token::Do,
            Token::Extern,
            Token::Import,
            Token::Int,
            Token::Is,
            Token::Let,
            Token::Match,
            Token::Nat,
            Token::Num,
            Token::Str,
            Token::Type,
            Token::Under,
            Token::Ident("and"),
            Token::Ident("x-y'"),
            Token::Ident("a_1"),
        ]
    );
}

#[test]
fn spans_count_bytes() {
    let (tokens, _) = lex("é x");
    assert_eq!(kinds(&tokens), vec![Token::Ident("é"), Token::Whitespace, Token::Ident("x")]);
    assert_eq!(spans(&tokens), vec![(0, 2), (2, 3), (3, 4)]);
}

#[test]
fn past_the_end_is_end_of_file() {
    let (tokens, _) = lex("ab");
    assert_eq!(tokens.len(), 1);
    assert!(!tokens.is_empty());
    assert_eq!(tokens.get(0).0, Token::Ident("ab"));
    let (t, s) = tokens.get(5);
    assert_eq!(t, Token::Eof);
    assert_eq!(s, Span::new(FileId { index: 0 }, 2, 2));
    let (empty, _) = lex("");
    assert!(empty.is_empty());
}

#[test]
fn token_text() {
    assert_eq!(Token::Ident("x").to_string(), "x");
    assert_eq!(Token::String("s").to_string(), "\"s\"");
    assert_eq!(Token::Number("42").to_string(), "42");
    assert_eq!(Token::Invalid('$').to_string(), "`$`");
    assert_eq!(Token::Eof.to_string(), "end of file");
    assert_eq!(Token::OpenBrace.to_string(), "{");
    assert_eq!(Token::RightArrow.to_string(), "->");
    assert_eq!(Token::With.to_string(), "with");
}

#[test]
fn indents_and_dedents_balance() {
    let (tokens, _) = lex("a\n  b\n    c\n  d\ne\n  f");
    let mut depth = 0i32;
    for t in kinds(&tokens) {
        if t == Token::Indent {
            depth += 1;
        }
        if t == Token::Dedent {
            depth -= 1;
        }
        assert!(depth >= 0);
    }
    assert_eq!(depth, 0);
}

#[test]
fn numbers_lose_their_leading_zeros() {
    let (tokens, diags) = lex("007 0 000 120");
    assert!(diags.is_empty());
    assert_eq!(
        kinds(&tokens),
        vec![
            Token::Number("7"),
            Token::Whitespace,
            Token::Number("0"),
            Token::Whitespace,
            Token::Number("0"),
            Token::Whitespace,
            Token::Number("120"),
        ]
    );
    assert_eq!(spans(&tokens)[0], (0, 3));
}
