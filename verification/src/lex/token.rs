//! The tokens of `ka` source text.
use vstd::prelude::*;

use crate::text::{char_string, str_eq};

verus! {

/// A token. Identifiers, strings and numbers carry their text; a number
/// carries its decimal digits without leading zeros.
#[derive(Clone, Copy, Debug)]
pub enum Token {
    Ident(&'static str),
    String(&'static str),
    Number(&'static str),
    // special
    Invalid(char),
    Whitespace,
    Newline,
    Indent,
    Dedent,
    Eof,
    // keywords
    And,
    As,
    Do,
    Extern,
    Import,
    Int,
    Is,
    Let,
    Match,
    Nat,
    Num,
    Or,
    Str,
    Type,
    With,
    // one-character symbols
    Eq,
    Colon,
    Semi,
    Dot,
    Comma,
    Plus,
    Minus,
    Star,
    Slash,
    Gt,
    Lt,
    Pipe,
    Bang,
    Under,
    Back,
    Quote,
    OpenParen,
    CloseParen,
    OpenBrace,
    CloseBrace,
    OpenBracket,
    CloseBracket,
    // two-character symbols
    ColonColon,
    RightArrow,
    LeftArrow,
    PipeGt,
    EqEq,
    BangEq,
    GtEq,
    LtEq,
}

/// A token as plain values: the text of identifiers, strings and numbers as
/// characters, every other token as itself.
pub enum TokenView {
    Ident(Seq<char>),
    String(Seq<char>),
    Number(Seq<char>),
    Other(Token),
}

impl View for Token {
    type V = TokenView;

    open spec fn view(&self) -> TokenView {
        match *self {
            Token::Ident(s) => TokenView::Ident(s@),
            Token::String(s) => TokenView::String(s@),
            Token::Number(s) => TokenView::Number(s@),
            t => TokenView::Other(t),
        }
    }
}

impl PartialEq for Token {
    fn eq(&self, other: &Self) -> (r: bool) {
        match (self, other) {
            (Token::Ident(a), Token::Ident(b)) => str_eq(a, b),
            (Token::String(a), Token::String(b)) => str_eq(a, b),
            (Token::Number(a), Token::Number(b)) => str_eq(a, b),
            (Token::Invalid(a), Token::Invalid(b)) => *a == *b,
            (Token::Whitespace, Token::Whitespace) => true,
            (Token::Newline, Token::Newline) => true,
            (Token::Indent, Token::Indent) => true,
            (Token::Dedent, Token::Dedent) => true,
            (Token::Eof, Token::Eof) => true,
            (Token::And, Token::And) => true,
            (Token::As, Token::As) => true,
            (Token::Do, Token::Do) => true,
            (Token::Extern, Token::Extern) => true,
            (Token::Import, Token::Import) => true,
            (Token::Int, Token::Int) => true,
            (Token::Is, Token::Is) => true,
            (Token::Let, Token::Let) => true,
            (Token::Match, Token::Match) => true,
            (Token::Nat, Token::Nat) => true,
            (Token::Num, Token::Num) => true,
            (Token::Or, Token::Or) => true,
            (Token::Str, Token::Str) => true,
            (Token::Type, Token::Type) => true,
            (Token::With, Token::With) => true,
            (Token::Eq, Token::Eq) => true,
            (Token::Colon, Token::Colon) => true,
            (Token::Semi, Token::Semi) => true,
            (Token::Dot, Token::Dot) => true,
            (Token::Comma, Token::Comma) => true,
            (Token::Plus, Token::Plus) => true,
            (Token::Minus, Token::Minus) => true,
            (Token::Star, Token::Star) => true,
            (Token::Slash, Token::Slash) => true,
            (Token::Gt, Token::Gt) => true,
            (Token::Lt, Token::Lt) => true,
            (Token::Pipe, Token::Pipe) => true,
            (Token::Bang, Token::Bang) => true,
            (Token::Under, Token::Under) => true,
            (Token::Back, Token::Back) => true,
            (Token::Quote, Token::Quote) => true,
            (Token::OpenParen, Token::OpenParen) => true,
            (Token::CloseParen, Token::CloseParen) => true,
            (Token::OpenBrace, Token::OpenBrace) => true,
            (Token::CloseBrace, Token::CloseBrace) => true,
            (Token::OpenBracket, Token::OpenBracket) => true,
            (Token::CloseBracket, Token::CloseBracket) => true,
            (Token::ColonColon, Token::ColonColon) => true,
            (Token::RightArrow, Token::RightArrow) => true,
            (Token::LeftArrow, Token::LeftArrow) => true,
            (Token::PipeGt, Token::PipeGt) => true,
            (Token::EqEq, Token::EqEq) => true,
            (Token::BangEq, Token::BangEq) => true,
            (Token::GtEq, Token::GtEq) => true,
            (Token::LtEq, Token::LtEq) => true,
            _ => false,
        }
    }
}

impl vstd::std_specs::cmp::PartialEqSpecImpl for Token {
    open spec fn obeys_eq_spec() -> bool {
        true
    }

    open spec fn eq_spec(&self, other: &Token) -> bool {
        self@ == other@
    }
}

/// The keyword spelled `word`, if it is one.
pub open spec fn keyword(word: Seq<char>) -> Option<Token> {
    if word == "as"@ {
        Some(Token::As)
    } else if word == "do"@ {
        Some(Token::Do)
    } else if word == "extern"@ {
        Some(Token::Extern)
    } else if word == "import"@ {
        Some(Token::Import)
    } else if word == "int"@ {
        Some(Token::Int)
    } else if word == "is"@ {
        Some(Token::Is)
    } else if word == "let"@ {
        Some(Token::Let)
    } else if word == "match"@ {
        Some(Token::Match)
    } else if word == "nat"@ {
        Some(Token::Nat)
    } else if word == "num"@ {
        Some(Token::Num)
    } else if word == "str"@ {
        Some(Token::Str)
    } else if word == "type"@ {
        Some(Token::Type)
    } else if word == "_"@ {
        Some(Token::Under)
    } else {
        None
    }
}

/// The keyword spelled `word`, if it is one.
pub fn match_keyword(word: &str) -> (r: Option<Token>)
    ensures
        r == keyword(word@),
{
    if str_eq(word, "as") {
        Some(Token::As)
    } else if str_eq(word, "do") {
        Some(Token::Do)
    } else if str_eq(word, "extern") {
        Some(Token::Extern)
    } else if str_eq(word, "import") {
        Some(Token::Import)
    } else if str_eq(word, "int") {
        Some(Token::Int)
    } else if str_eq(word, "is") {
        Some(Token::Is)
    } else if str_eq(word, "let") {
        Some(Token::Let)
    } else if str_eq(word, "match") {
        Some(Token::Match)
    } else if str_eq(word, "nat") {
        Some(Token::Nat)
    } else if str_eq(word, "num") {
        Some(Token::Num)
    } else if str_eq(word, "str") {
        Some(Token::Str)
    } else if str_eq(word, "type") {
        Some(Token::Type)
    } else if str_eq(word, "_") {
        Some(Token::Under)
    } else {
        None
    }
}

/// The symbol written as the single character `c`, if it is one.
pub open spec fn one_character_symbol(c: char) -> Option<Token> {
    match c {
        '=' => Some(Token::Eq),
        ':' => Some(Token::Colon),
        ';' => Some(Token::Semi),
        '.' => Some(Token::Dot),
        ',' => Some(Token::Comma),
        '+' => Some(Token::Plus),
        '-' => Some(Token::Minus),
        '*' => Some(Token::Star),
        '/' => Some(Token::Slash),
        '>' => Some(Token::Gt),
        '<' => Some(Token::Lt),
        '|' => Some(Token::Pipe),
        '!' => Some(Token::Bang),
        '\\' => Some(Token::Back),
        '\'' => Some(Token::Quote),
        '(' => Some(Token::OpenParen),
        ')' => Some(Token::CloseParen),
        '{' => Some(Token::OpenBrace),
        '}' => Some(Token::CloseBrace),
        '[' => Some(Token::OpenBracket),
        ']' => Some(Token::CloseBracket),
        _ => None,
    }
}

/// The symbol written as the single character `c`, if it is one.
pub fn match_one_character_symbol(c: char) -> (r: Option<Token>)
    ensures
        r == one_character_symbol(c),
{
    match c {
        '=' => Some(Token::Eq),
        ':' => Some(Token::Colon),
        ';' => Some(Token::Semi),
        '.' => Some(Token::Dot),
        ',' => Some(Token::Comma),
        '+' => Some(Token::Plus),
        '-' => Some(Token::Minus),
        '*' => Some(Token::Star),
        '/' => Some(Token::Slash),
        '>' => Some(Token::Gt),
        '<' => Some(Token::Lt),
        '|' => Some(Token::Pipe),
        '!' => Some(Token::Bang),
        '\\' => Some(Token::Back),
        '\'' => Some(Token::Quote),
        '(' => Some(Token::OpenParen),
        ')' => Some(Token::CloseParen),
        '{' => Some(Token::OpenBrace),
        '}' => Some(Token::CloseBrace),
        '[' => Some(Token::OpenBracket),
        ']' => Some(Token::CloseBracket),
        _ => None,
    }
}

/// The symbol written as the characters `fst` then `snd`, if it is one.
pub open spec fn two_character_symbol(fst: char, snd: char) -> Option<Token> {
    match (fst, snd) {
        (':', ':') => Some(Token::ColonColon),
        ('-', '>') => Some(Token::RightArrow),
        ('<', '-') => Some(Token::LeftArrow),
        ('|', '>') => Some(Token::PipeGt),
        ('=', '=') => Some(Token::EqEq),
        ('!', '=') => Some(Token::BangEq),
        ('>', '=') => Some(Token::GtEq),
        ('<', '=') => Some(Token::LtEq),
        _ => None,
    }
}

/// The symbol written as the characters `fst` then `snd`, if it is one.
pub fn match_two_character_symbol(fst: char, snd: char) -> (r: Option<Token>)
    ensures
        r == two_character_symbol(fst, snd),
{
    match (fst, snd) {
        (':', ':') => Some(Token::ColonColon),
        ('-', '>') => Some(Token::RightArrow),
        ('<', '-') => Some(Token::LeftArrow),
        ('|', '>') => Some(Token::PipeGt),
        ('=', '=') => Some(Token::EqEq),
        ('!', '=') => Some(Token::BangEq),
        ('>', '=') => Some(Token::GtEq),
        ('<', '=') => Some(Token::LtEq),
        _ => None,
    }
}

/// How a token is written in messages.
pub open spec fn token_text(t: TokenView) -> Seq<char> {
    match t {
        TokenView::Ident(s) => s,
        TokenView::String(s) => "\""@ + s + "\""@,
        TokenView::Number(s) => s,
        TokenView::Other(t) => match t {
            Token::Invalid(c) => "`"@ + seq![c] + "`"@,
            Token::Whitespace => "whitespace"@,
            Token::Newline => "newline"@,
            Token::Indent => "indent"@,
            Token::Dedent => "dedent"@,
            Token::Eof => "end of file"@,
            Token::And => "and"@,
            Token::As => "as"@,
            Token::Do => "do"@,
            Token::Extern => "extern"@,
            Token::Import => "import"@,
            Token::Int => "int"@,
            Token::Is => "is"@,
            Token::Let => "let"@,
            Token::Match => "match"@,
            Token::Nat => "nat"@,
            Token::Num => "num"@,
            Token::Or => "or"@,
            Token::Str => "str"@,
            Token::Type => "type"@,
            Token::With => "with"@,
            Token::Eq => "="@,
            Token::Colon => ":"@,
            Token::Semi => ";"@,
            Token::Dot => "."@,
            Token::Comma => ","@,
            Token::Plus => "+"@,
            Token::Minus => "-"@,
            Token::Star => "*"@,
            Token::Slash => "/"@,
            Token::Gt => ">"@,
            Token::Lt => "<"@,
            Token::Pipe => "|"@,
            Token::Bang => "!"@,
            Token::Under => "_"@,
            Token::Back => "\\"@,
            Token::Quote => "'"@,
            Token::OpenParen => "("@,
            Token::CloseParen => ")"@,
            Token::OpenBrace => "{"@,
            Token::CloseBrace => "}"@,
            Token::OpenBracket => "["@,
            Token::CloseBracket => "]"@,
            Token::ColonColon => "::"@,
            Token::RightArrow => "->"@,
            Token::LeftArrow => "<-"@,
            Token::PipeGt => "|>"@,
            Token::EqEq => "=="@,
            Token::BangEq => "!="@,
            Token::GtEq => ">="@,
            Token::LtEq => "<="@,
            _ => Seq::empty(),
        },
    }
}

impl Token {
    /// How the token is written in messages.
    pub fn to_string(&self) -> (r: String)
        ensures
            r@ == token_text(self@),
    {
        match *self {
            Token::Ident(s) => String::from_str(s),
            Token::String(s) => String::from_str("\"").concat(s).concat("\""),
            Token::Number(s) => String::from_str(s),
            Token::Invalid(c) => String::from_str("`").concat(char_string(c).as_str()).concat("`"),
            Token::Whitespace => String::from_str("whitespace"),
            Token::Newline => String::from_str("newline"),
            Token::Indent => String::from_str("indent"),
            Token::Dedent => String::from_str("dedent"),
            Token::Eof => String::from_str("end of file"),
            Token::And => String::from_str("and"),
            Token::As => String::from_str("as"),
            Token::Do => String::from_str("do"),
            Token::Extern => String::from_str("extern"),
            Token::Import => String::from_str("import"),
            Token::Int => String::from_str("int"),
            Token::Is => String::from_str("is"),
            Token::Let => String::from_str("let"),
            Token::Match => String::from_str("match"),
            Token::Nat => String::from_str("nat"),
            Token::Num => String::from_str("num"),
            Token::Or => String::from_str("or"),
            Token::Str => String::from_str("str"),
            Token::Type => String::from_str("type"),
            Token::With => String::from_str("with"),
            Token::Eq => String::from_str("="),
            Token::Colon => String::from_str(":"),
            Token::Semi => String::from_str(";"),
            Token::Dot => String::from_str("."),
            Token::Comma => String::from_str(","),
            Token::Plus => String::from_str("+"),
            Token::Minus => String::from_str("-"),
            Token::Star => String::from_str("*"),
            Token::Slash => String::from_str("/"),
            Token::Gt => String::from_str(">"),
            Token::Lt => String::from_str("<"),
            Token::Pipe => String::from_str("|"),
            Token::Bang => String::from_str("!"),
            Token::Under => String::from_str("_"),
            Token::Back => String::from_str("\\"),
            Token::Quote => String::from_str("'"),
            Token::OpenParen => String::from_str("("),
            Token::CloseParen => String::from_str(")"),
            Token::OpenBrace => String::from_str("{"),
            Token::CloseBrace => String::from_str("}"),
            Token::OpenBracket => String::from_str("["),
            Token::CloseBracket => String::from_str("]"),
            Token::ColonColon => String::from_str("::"),
            Token::RightArrow => String::from_str("->"),
            Token::LeftArrow => String::from_str("<-"),
            Token::PipeGt => String::from_str("|>"),
            Token::EqEq => String::from_str("=="),
            Token::BangEq => String::from_str("!="),
            Token::GtEq => String::from_str(">="),
            Token::LtEq => String::from_str("<="),
        }
    }

    /// Whether this is the whitespace token.
    pub fn is_whitespace(&self) -> (r: bool)
        ensures
            r == (*self is Whitespace),
    {
        matches!(*self, Token::Whitespace)
    }

    /// Whether this is the end-of-file token.
    pub fn is_eof(&self) -> (r: bool)
        ensures
            r == (*self is Eof),
    {
        matches!(*self, Token::Eof)
    }
}

} // verus!
