//! The lexer and the token stream it produces.
//!
//! The lexer reads the source one token at a time, longest match first.
//! After each token it reads the line breaks that follow, each followed by
//! the indentation of the next line: deeper indentation than the enclosing
//! block yields an `Indent`, shallower yields one `Dedent` per block closed,
//! and a line that only holds indentation yields nothing. At the end of input
//! every open block is closed.
use vstd::prelude::*;
use vstd::string::StringSliceAdditionalSpecFns;

use crate::diagnostic::{Diagnostic, DiagnosticView, FileId, LabelView, Severity, Span};
use crate::intern::Interner;
use crate::lex::token::{
    keyword, match_keyword, match_one_character_symbol, match_two_character_symbol,
    one_character_symbol, two_character_symbol, Token, TokenView,
};
use crate::text::{
    byte_offset, char_string, chars_of, is_alphabetic, is_alphanumeric, is_ascii_digit,
    is_whitespace, len_utf8, lemma_byte_offset_mono, lemma_byte_offset_step,
    lemma_utf8_len_encode, push_char, replace_all, replace_all_chars, spec_is_ascii_digit,
    string_of, unicode_alphabetic, unicode_alphanumeric, unicode_whitespace, utf8_len,
};

verus! {

/// The classes of characters that the lexer reads runs of.
#[derive(Clone, Copy, Debug, PartialEq, Eq, Structural)]
pub enum CharClass {
    /// Whitespace other than a line break.
    Space,
    /// Characters that continue an identifier.
    IdentContinue,
    /// ASCII digits.
    Digit,
    /// Anything but a string delimiter.
    NotQuote,
    /// Spaces and tabs, which make up indentation.
    Indent,
}

pub open spec fn is_space(c: char) -> bool {
    unicode_whitespace(c) && c != '\n'
}

pub open spec fn is_ident_start(c: char) -> bool {
    unicode_alphabetic(c) || c == '_'
}

pub open spec fn is_ident_continue(c: char) -> bool {
    unicode_alphanumeric(c) || c == '_' || c == '-' || c == '\''
}

pub open spec fn in_class(c: char, class: CharClass) -> bool {
    match class {
        CharClass::Space => is_space(c),
        CharClass::IdentContinue => is_ident_continue(c),
        CharClass::Digit => spec_is_ascii_digit(c),
        CharClass::NotQuote => c != '"',
        CharClass::Indent => c == ' ' || c == '\t',
    }
}

/// Whether `c` belongs to `class`.
pub fn char_in_class(c: char, class: CharClass) -> (r: bool)
    ensures
        r == in_class(c, class),
{
    match class {
        CharClass::Space => is_whitespace(c) && c != '\n',
        CharClass::IdentContinue => is_alphanumeric(c) || c == '_' || c == '-' || c == '\'',
        CharClass::Digit => is_ascii_digit(c),
        CharClass::NotQuote => c != '"',
        CharClass::Indent => c == ' ' || c == '\t',
    }
}

/// The end of the run of `class` characters that starts at `p`.
pub open spec fn run_end(input: Seq<char>, p: nat, class: CharClass) -> nat
    decreases input.len() - p,
{
    if p < input.len() && in_class(input[p as int], class) {
        run_end(input, p + 1, class)
    } else {
        p
    }
}

/// A number's digits without its leading zeros, keeping the last digit: the
/// decimal numeral of the value the digits stand for.
pub open spec fn number_digits(d: Seq<char>) -> Seq<char>
    decreases d.len(),
{
    if d.len() > 1 && d[0] == '0' {
        number_digits(d.drop_first())
    } else {
        d
    }
}

pub proof fn lemma_run_end(input: Seq<char>, p: nat, class: CharClass)
    ensures
        p <= run_end(input, p, class),
        p <= input.len() ==> run_end(input, p, class) <= input.len(),
        forall|i: int| p <= i < run_end(input, p, class) ==> in_class(#[trigger] input[i], class),
        run_end(input, p, class) < input.len() ==> !in_class(
            input[run_end(input, p, class) as int],
            class,
        ),
    decreases input.len() - p,
{
    if p < input.len() && in_class(input[p as int], class) {
        lemma_run_end(input, p + 1, class);
    }
}

/// The text of a string literal: the escapes `\n`, `\r`, `\t`, `\0`, `\\`
/// and `\"` replaced, in that order, each throughout the text.
pub open spec fn unescape(s: Seq<char>) -> Seq<char> {
    let s = replace_all(s, seq!['\\', 'n'], seq!['\n']);
    let s = replace_all(s, seq!['\\', 'r'], seq!['\r']);
    let s = replace_all(s, seq!['\\', 't'], seq!['\t']);
    let s = replace_all(s, seq!['\\', '0'], seq!['\0']);
    let s = replace_all(s, seq!['\\', '\\'], seq!['\\']);
    replace_all(s, seq!['\\', '"'], seq!['"'])
}

/// The token that starts at `p` (which must hold a character) and where it
/// ends, or `None` when no token starts with that character.
pub open spec fn scan(input: Seq<char>, p: nat) -> Option<(TokenView, nat)> {
    let c = input[p as int];
    if is_space(c) {
        Some((TokenView::Other(Token::Whitespace), run_end(input, p, CharClass::Space)))
    } else if is_ident_start(c) {
        let e = run_end(input, p, CharClass::IdentContinue);
        let word = input.subrange(p as int, e as int);
        Some(
            (
                match keyword(word) {
                    Some(t) => TokenView::Other(t),
                    None => TokenView::Ident(word),
                },
                e,
            ),
        )
    } else if spec_is_ascii_digit(c) {
        let e = run_end(input, p, CharClass::Digit);
        Some((TokenView::Number(number_digits(input.subrange(p as int, e as int))), e))
    } else if c == '"' {
        let e = run_end(input, p + 1, CharClass::NotQuote);
        let end = if e < input.len() {
            e + 1
        } else {
            e
        };
        Some((TokenView::String(unescape(input.subrange((p + 1) as int, e as int))), end))
    } else if p + 1 < input.len() && two_character_symbol(c, input[(p + 1) as int]) is Some {
        Some((TokenView::Other(two_character_symbol(c, input[(p + 1) as int])->0), p + 2))
    } else if one_character_symbol(c) is Some {
        Some((TokenView::Other(one_character_symbol(c)->0), p + 1))
    } else {
        None
    }
}

pub proof fn lemma_scan(input: Seq<char>, p: nat)
    requires
        p < input.len(),
    ensures
        scan(input, p) matches Some((_, e)) ==> p < e <= input.len(),
{
    lemma_run_end(input, p, CharClass::Space);
    lemma_run_end(input, p, CharClass::IdentContinue);
    lemma_run_end(input, p, CharClass::Digit);
    lemma_run_end(input, p + 1, CharClass::NotQuote);
}

/// Where the lexer stands: the next character, the indentation of the open
/// blocks (innermost last), and what it has produced so far.
#[verifier::ext_equal]
pub struct LexState {
    pub pos: nat,
    pub indents: Seq<Seq<char>>,
    pub tokens: Seq<(TokenView, Span)>,
    pub diags: Seq<DiagnosticView>,
}

/// The span of the characters `p..e`, in bytes.
pub open spec fn span_at(input: Seq<char>, file: FileId, p: nat, e: nat) -> Span {
    Span { file, start: byte_offset(input, p as int) as u32, end: byte_offset(input, e as int) as u32 }
}

/// An error with one label, "found here", on `span`.
pub open spec fn error_at(message: Seq<char>, span: Span) -> DiagnosticView {
    DiagnosticView {
        severity: Severity::Error,
        message,
        labels: seq![LabelView { message: "found here"@, span }],
    }
}

/// The message for a character that starts no token.
pub open spec fn unexpected_message(c: char) -> Seq<char> {
    "unexpected character `"@ + seq![c] + "`"@
}

/// How a line's indentation relates to the open blocks.
pub enum IndentMatch {
    /// It closes this many of the innermost blocks.
    Dedent(nat),
    /// It opens a block with this much more indentation.
    Rest(Seq<char>),
    /// It does not extend the indentation of the enclosing blocks.
    Invalid,
}

/// Matches the indentation `indent` against the open blocks from the `k`-th
/// outward in.
pub open spec fn match_indents(indents: Seq<Seq<char>>, k: nat, indent: Seq<char>) -> IndentMatch
    decreases indents.len() - k,
{
    if indent.len() == 0 {
        IndentMatch::Dedent((indents.len() - k) as nat)
    } else if k >= indents.len() {
        IndentMatch::Rest(indent)
    } else if indents[k as int].len() <= indent.len() && indent.take(indents[k as int].len() as int)
        == indents[k as int] {
        match_indents(indents, k + 1, indent.skip(indents[k as int].len() as int))
    } else {
        IndentMatch::Invalid
    }
}

pub proof fn lemma_match_indents(indents: Seq<Seq<char>>, k: nat, indent: Seq<char>)
    requires
        k <= indents.len(),
    ensures
        match_indents(indents, k, indent) matches IndentMatch::Dedent(n) ==> n <= indents.len(),
        match_indents(indents, k, indent) matches IndentMatch::Rest(r) ==> r.len() > 0,
    decreases indents.len() - k,
{
    if indent.len() != 0 && k < indents.len() && indents[k as int].len() <= indent.len()
        && indent.take(indents[k as int].len() as int) == indents[k as int] {
        lemma_match_indents(indents, k + 1, indent.skip(indents[k as int].len() as int));
    }
}

/// `n` copies of a token at one span.
pub open spec fn repeat_token(t: TokenView, span: Span, n: nat) -> Seq<(TokenView, Span)> {
    Seq::new(n, |i: int| (t, span))
}

/// Reads the indentation that starts at `s.pos`, the start of a line.
pub open spec fn lex_indents(input: Seq<char>, file: FileId, s: LexState) -> LexState {
    let e = run_end(input, s.pos, CharClass::Indent);
    let span = span_at(input, file, s.pos, e);
    if e < input.len() && input[e as int] == '\n' {
        LexState { pos: e, ..s }
    } else {
        match match_indents(s.indents, 0, input.subrange(s.pos as int, e as int)) {
            IndentMatch::Dedent(n) => LexState {
                pos: e,
                indents: s.indents.take(s.indents.len() - n),
                tokens: s.tokens + repeat_token(TokenView::Other(Token::Dedent), span, n),
                diags: s.diags,
            },
            IndentMatch::Rest(rest) => LexState {
                pos: e,
                indents: s.indents.push(rest),
                tokens: s.tokens.push((TokenView::Other(Token::Indent), span)),
                diags: s.diags,
            },
            IndentMatch::Invalid => LexState {
                pos: e,
                diags: s.diags.push(error_at("invalid indentation"@, span)),
                ..s
            },
        }
    }
}

pub proof fn lemma_lex_indents_pos(input: Seq<char>, file: FileId, s: LexState)
    ensures
        lex_indents(input, file, s).pos >= s.pos,
        s.pos <= input.len() ==> lex_indents(input, file, s).pos <= input.len(),
{
    lemma_run_end(input, s.pos, CharClass::Indent);
}

/// Reads the line breaks at `s.pos`, each with the indentation after it.
pub open spec fn lex_newlines(input: Seq<char>, file: FileId, s: LexState) -> LexState
    decreases input.len() - s.pos,
{
    if s.pos < input.len() && input[s.pos as int] == '\n' {
        let s1 = LexState {
            pos: s.pos + 1,
            tokens: s.tokens.push(
                (TokenView::Other(Token::Newline), span_at(input, file, s.pos, s.pos + 1)),
            ),
            ..s
        };
        proof {
            lemma_lex_indents_pos(input, file, s1);
        }
        lex_newlines(input, file, lex_indents(input, file, s1))
    } else {
        s
    }
}

pub proof fn lemma_lex_newlines_pos(input: Seq<char>, file: FileId, s: LexState)
    ensures
        lex_newlines(input, file, s).pos >= s.pos,
        s.pos <= input.len() ==> lex_newlines(input, file, s).pos <= input.len(),
    decreases input.len() - s.pos,
{
    if s.pos < input.len() && input[s.pos as int] == '\n' {
        let s1 = LexState {
            pos: s.pos + 1,
            tokens: s.tokens.push(
                (TokenView::Other(Token::Newline), span_at(input, file, s.pos, s.pos + 1)),
            ),
            ..s
        };
        lemma_lex_indents_pos(input, file, s1);
        lemma_lex_newlines_pos(input, file, lex_indents(input, file, s1));
    }
}

/// At the end of input every open block is closed.
pub open spec fn lex_finish(input: Seq<char>, file: FileId, s: LexState) -> LexState {
    let span = span_at(input, file, input.len(), input.len());
    LexState {
        pos: s.pos,
        indents: Seq::empty(),
        tokens: s.tokens + repeat_token(TokenView::Other(Token::Dedent), span, s.indents.len()),
        diags: s.diags,
    }
}

/// Reads tokens from `s.pos` to the end of input.
pub open spec fn lex_loop(input: Seq<char>, file: FileId, s: LexState) -> LexState
    decreases input.len() - s.pos,
{
    if s.pos >= input.len() {
        lex_finish(input, file, s)
    } else {
        let c = input[s.pos as int];
        proof {
            lemma_scan(input, s.pos);
        }
        match scan(input, s.pos) {
            Some((t, e)) => {
                let s1 = LexState {
                    pos: e,
                    tokens: s.tokens.push((t, span_at(input, file, s.pos, e))),
                    ..s
                };
                proof {
                    lemma_lex_newlines_pos(input, file, s1);
                }
                lex_loop(input, file, lex_newlines(input, file, s1))
            },
            None => {
                let span = span_at(input, file, s.pos, s.pos + 1);
                lex_loop(
                    input,
                    file,
                    LexState {
                        pos: s.pos + 1,
                        tokens: s.tokens.push((TokenView::Other(Token::Invalid(c)), span)),
                        diags: s.diags.push(error_at(unexpected_message(c), span)),
                        ..s
                    },
                )
            },
        }
    }
}

/// The state the lexer starts in.
pub open spec fn initial_state() -> LexState {
    LexState { pos: 0, indents: Seq::empty(), tokens: Seq::empty(), diags: Seq::empty() }
}

/// The tokens and diagnostics of `input`: the line breaks that open the
/// input, then tokens to the end.
pub open spec fn lex(input: Seq<char>, file: FileId) -> LexState {
    lex_loop(input, file, lex_newlines(input, file, initial_state()))
}

pub open spec fn tokens_view(tokens: Seq<(Token, Span)>) -> Seq<(TokenView, Span)> {
    tokens.map_values(|p: (Token, Span)| (p.0@, p.1))
}

pub open spec fn diags_view(diags: Seq<Diagnostic>) -> Seq<DiagnosticView> {
    diags.map_values(|d: Diagnostic| d@)
}

pub open spec fn indents_view(indents: Seq<Vec<char>>) -> Seq<Seq<char>> {
    indents.map_values(|v: Vec<char>| v@)
}

/// The tokens of one source file, and where that file ends.
#[derive(Clone, Debug)]
pub struct Tokens {
    tokens: Vec<(Token, Span)>,
    file: FileId,
    eof: u32,
}

impl Tokens {
    /// The tokens, as plain values.
    pub closed spec fn spec_tokens(&self) -> Seq<(TokenView, Span)> {
        tokens_view(self.tokens@)
    }

    pub closed spec fn spec_file(&self) -> FileId {
        self.file
    }

    /// The byte length of the file.
    pub closed spec fn spec_eof(&self) -> u32 {
        self.eof
    }

    /// The empty span at the end of the file.
    pub open spec fn spec_eof_span(&self) -> Span {
        Span { file: self.spec_file(), start: self.spec_eof(), end: self.spec_eof() }
    }

    /// Lexes `input`, the text of `file`. Identifiers and strings are
    /// interned; diagnostics for characters that start no token and for bad
    /// indentation are appended to `emitter`, in source order.
    pub fn lex(emitter: &mut Vec<Diagnostic>, interner: &mut Interner, file: FileId, input: &str) -> (r: Self)
        requires
            input.spec_bytes().len() <= u32::MAX,
        ensures
            r.spec_tokens() == lex(input@, file).tokens,
            r.spec_file() == file,
            r.spec_eof() == input.spec_bytes().len(),
            diags_view(final(emitter)@) == diags_view(old(emitter)@) + lex(input@, file).diags,
    {
        let chars = chars_of(input);
        proof {
            vstd::string::is_ascii_spec_bytes(input);
            lemma_utf8_len_encode(input@);
            assert(chars@.take(0) =~= Seq::<char>::empty());
        }
        let mut lexer = Lexer {
            input: chars,
            file,
            offset: 0,
            byte: 0,
            indents: Vec::new(),
            tokens: Vec::new(),
            diagnostics: Vec::new(),
        };
        proof {
            assert(indents_view(lexer.indents@) =~= Seq::<Seq<char>>::empty());
            assert(tokens_view(lexer.tokens@) =~= Seq::<(TokenView, Span)>::empty());
            assert(diags_view(lexer.diagnostics@) =~= Seq::<DiagnosticView>::empty());
            assert(lexer.state() =~= initial_state());
        }
        lexer.advance_newlines();
        while lexer.offset < lexer.input.len()
            invariant
                lexer.wf(),
                lexer.input@ == input@,
                lexer.file == file,
                lex_loop(input@, file, lexer.state()) == lex(input@, file),
            decreases lexer.input@.len() - lexer.offset,
        {
            lexer.advance(interner);
        }
        let tokens = lexer.finish();
        proof {
            assert(byte_offset(input@, input@.len() as int) == utf8_len(input@)) by {
                assert(input@.take(input@.len() as int) =~= input@);
            }
        }
        let mut diags = lexer.diagnostics;
        let ghost before = emitter@;
        emitter.append(&mut diags);
        assert(diags_view(emitter@) =~= diags_view(before) + lex(input@, file).diags);
        tokens
    }

    /// The token at `index` with its span, or the end-of-file token with the
    /// empty span at the end of the file past the last token.
    pub fn get(&self, index: usize) -> (r: (Token, Span))
        ensures
            index < self.spec_tokens().len() ==> (r.0@, r.1) == self.spec_tokens()[index as int],
            index >= self.spec_tokens().len() ==> r == (Token::Eof, self.spec_eof_span()),
    {
        if index < self.tokens.len() {
            self.tokens[index]
        } else {
            (Token::Eof, self.eof_span())
        }
    }

    pub fn len(&self) -> (r: usize)
        ensures
            r == self.spec_tokens().len(),
    {
        self.tokens.len()
    }

    pub fn is_empty(&self) -> (r: bool)
        ensures
            r == (self.spec_tokens().len() == 0),
    {
        self.tokens.len() == 0
    }

    /// The tokens with their spans, in order.
    pub fn iter(&self) -> (r: &[(Token, Span)])
        ensures
            tokens_view(r@) == self.spec_tokens(),
    {
        self.tokens.as_slice()
    }

    fn eof_span(&self) -> (r: Span)
        ensures
            r == self.spec_eof_span(),
    {
        Span::new(self.file, self.eof, self.eof)
    }
}

struct Lexer {
    input: Vec<char>,
    file: FileId,
    offset: usize,
    byte: usize,
    indents: Vec<Vec<char>>,
    tokens: Vec<(Token, Span)>,
    diagnostics: Vec<Diagnostic>,
}

impl Lexer {
    spec fn wf(&self) -> bool {
        &&& self.offset <= self.input@.len()
        &&& self.byte == byte_offset(self.input@, self.offset as int)
        &&& utf8_len(self.input@) <= u32::MAX
    }

    spec fn state(&self) -> LexState {
        LexState {
            pos: self.offset as nat,
            indents: indents_view(self.indents@),
            tokens: tokens_view(self.tokens@),
            diags: diags_view(self.diagnostics@),
        }
    }

    proof fn lemma_bytes(&self, i: int)
        requires
            self.wf(),
            0 <= i <= self.input@.len(),
        ensures
            byte_offset(self.input@, i) <= u32::MAX,
    {
        lemma_byte_offset_mono(self.input@, i, self.input@.len() as int);
        assert(self.input@.take(self.input@.len() as int) =~= self.input@);
    }

    fn peek(&self) -> (r: Option<char>)
        requires
            self.wf(),
        ensures
            self.offset < self.input@.len() ==> r == Some(self.input@[self.offset as int]),
            self.offset >= self.input@.len() ==> r is None,
    {
        if self.offset < self.input.len() {
            Some(self.input[self.offset])
        } else {
            None
        }
    }

    /// Steps over one character, if there is one.
    fn consume(&mut self)
        requires
            old(self).wf(),
        ensures
            final(self).wf(),
            final(self).offset == if old(self).offset < old(self).input@.len() {
                old(self).offset + 1
            } else {
                old(self).offset as int
            },
            final(self).input == old(self).input,
            final(self).file == old(self).file,
            final(self).indents == old(self).indents,
            final(self).tokens == old(self).tokens,
            final(self).diagnostics == old(self).diagnostics,
    {
        if self.offset < self.input.len() {
            let c = self.input[self.offset];
            proof {
                lemma_byte_offset_step(self.input@, self.offset as int);
                self.lemma_bytes(self.offset + 1);
            }
            self.byte = self.byte + len_utf8(c);
            self.offset = self.offset + 1;
        }
    }

    /// Steps over the run of `class` characters at the current position.
    fn consume_while(&mut self, class: CharClass)
        requires
            old(self).wf(),
        ensures
            final(self).wf(),
            final(self).offset == run_end(old(self).input@, old(self).offset as nat, class),
            final(self).input == old(self).input,
            final(self).file == old(self).file,
            final(self).indents == old(self).indents,
            final(self).tokens == old(self).tokens,
            final(self).diagnostics == old(self).diagnostics,
    {
        let ghost start = self.offset as nat;
        while self.offset < self.input.len() && char_in_class(self.input[self.offset], class)
            invariant
                self.wf(),
                self.input == old(self).input,
                self.file == old(self).file,
                self.indents == old(self).indents,
                self.tokens == old(self).tokens,
                self.diagnostics == old(self).diagnostics,
                run_end(self.input@, self.offset as nat, class) == run_end(
                    self.input@,
                    start,
                    class,
                ),
            decreases self.input@.len() - self.offset,
        {
            self.consume();
        }
    }

    /// The characters `start..end` of the input, as a string.
    fn text(&self, start: usize, end: usize) -> (r: String)
        requires
            start <= end <= self.input@.len(),
        ensures
            r@ == self.input@.subrange(start as int, end as int),
    {
        let mut out = String::new();
        let mut i = start;
        while i < end
            invariant
                start <= i <= end <= self.input@.len(),
                out@ == self.input@.subrange(start as int, i as int),
            decreases end - i,
        {
            push_char(&mut out, self.input[i]);
            assert(self.input@.subrange(start as int, i + 1) =~= self.input@.subrange(
                start as int,
                i as int,
            ).push(self.input@[i as int]));
            i = i + 1;
        }
        out
    }

    /// The characters `start..end` of the input.
    fn chars(&self, start: usize, end: usize) -> (r: Vec<char>)
        requires
            start <= end <= self.input@.len(),
        ensures
            r@ == self.input@.subrange(start as int, end as int),
    {
        let mut out: Vec<char> = Vec::new();
        let mut i = start;
        while i < end
            invariant
                start <= i <= end <= self.input@.len(),
                out@ == self.input@.subrange(start as int, i as int),
            decreases end - i,
        {
            out.push(self.input[i]);
            assert(self.input@.subrange(start as int, i + 1) =~= self.input@.subrange(
                start as int,
                i as int,
            ).push(self.input@[i as int]));
            i = i + 1;
        }
        out
    }

    fn span(&self, start: usize) -> (r: Span)
        requires
            self.wf(),
            start <= self.offset,
        ensures
            r == span_at(self.input@, self.file, start as nat, self.offset as nat),
    {
        proof {
            self.lemma_bytes(self.offset as int);
            lemma_byte_offset_mono(self.input@, start as int, self.offset as int);
        }
        let sb = self.byte_at(start);
        Span::new(self.file, sb as u32, self.byte as u32)
    }

    /// The byte offset of the character at `index`.
    fn byte_at(&self, index: usize) -> (r: usize)
        requires
            self.wf(),
            index <= self.offset,
        ensures
            r == byte_offset(self.input@, index as int),
    {
        let mut i: usize = 0;
        let mut b: usize = 0;
        assert(self.input@.take(0) =~= Seq::<char>::empty());
        while i < index
            invariant
                self.wf(),
                i <= index <= self.offset,
                b == byte_offset(self.input@, i as int),
            decreases index - i,
        {
            proof {
                lemma_byte_offset_step(self.input@, i as int);
                lemma_byte_offset_mono(self.input@, i + 1, self.offset as int);
                self.lemma_bytes(self.offset as int);
            }
            b = b + len_utf8(self.input[i]);
            i = i + 1;
        }
        b
    }

    /// Reads one token, or one character that starts none.
    fn advance(&mut self, interner: &mut Interner)
        requires
            old(self).wf(),
            old(self).offset < old(self).input@.len(),
        ensures
            final(self).wf(),
            final(self).input == old(self).input,
            final(self).file == old(self).file,
            final(self).offset > old(self).offset,
            lex_loop(final(self).input@, final(self).file, final(self).state()) == lex_loop(
                old(self).input@,
                old(self).file,
                old(self).state(),
            ),
    {
        let c = self.input[self.offset];
        let start = self.offset;
        proof {
            lemma_scan(self.input@, self.offset as nat);
        }
        match self.consume_token(interner, c) {
            Some(token) => {
                let span = self.span(start);
                let ghost before = self.tokens@;
                self.tokens.push((token, span));
                assert(tokens_view(self.tokens@) =~= tokens_view(before).push((token@, span)));
                let ghost mid = self.state();
                self.advance_newlines();
                proof {
                    lemma_lex_newlines_pos(self.input@, self.file, mid);
                }
            },
            None => {
                self.advance_invalid(c);
            },
        }
    }

    /// Reads the line breaks at the current position, each with the
    /// indentation after it.
    fn advance_newlines(&mut self)
        requires
            old(self).wf(),
        ensures
            final(self).wf(),
            final(self).input == old(self).input,
            final(self).file == old(self).file,
            final(self).state() == lex_newlines(old(self).input@, old(self).file, old(self).state()),
    {
        while self.offset < self.input.len() && self.input[self.offset] == '\n'
            invariant
                self.wf(),
                self.input == old(self).input,
                self.file == old(self).file,
                lex_newlines(self.input@, self.file, self.state()) == lex_newlines(
                    old(self).input@,
                    old(self).file,
                    old(self).state(),
                ),
            decreases self.input@.len() - self.offset,
        {
            let start = self.offset;
            self.consume();
            let span = self.span(start);
            let ghost before = self.tokens@;
            self.tokens.push((Token::Newline, span));
            assert(tokens_view(self.tokens@) =~= tokens_view(before).push(
                (TokenView::Other(Token::Newline), span),
            ));
            let ghost mid = self.state();
            self.advance_indents();
            proof {
                lemma_lex_indents_pos(self.input@, self.file, mid);
            }
        }
    }

    /// Steps over a character that starts no token, reporting it.
    fn advance_invalid(&mut self, c: char)
        requires
            old(self).wf(),
            old(self).offset < old(self).input@.len(),
            c == old(self).input@[old(self).offset as int],
            scan(old(self).input@, old(self).offset as nat) is None,
        ensures
            final(self).wf(),
            final(self).input == old(self).input,
            final(self).file == old(self).file,
            final(self).offset == old(self).offset + 1,
            lex_loop(final(self).input@, final(self).file, final(self).state()) == lex_loop(
                old(self).input@,
                old(self).file,
                old(self).state(),
            ),
    {
        let start = self.offset;
        self.consume();
        let span = self.span(start);
        let message = String::from_str("unexpected character `").concat(char_string(c).as_str()).concat("`");
        let diagnostic = Diagnostic::error(message.as_str()).with_label(span, "found here");
        let ghost before = self.diagnostics@;
        self.diagnostics.push(diagnostic);
        assert(diags_view(self.diagnostics@) =~= diags_view(before).push(
            error_at(unexpected_message(c), span),
        ));
        let ghost tbefore = self.tokens@;
        self.tokens.push((Token::Invalid(c), span));
        assert(tokens_view(self.tokens@) =~= tokens_view(tbefore).push(
            (TokenView::Other(Token::Invalid(c)), span),
        ));
    }

    /// Closes the `n` innermost blocks, each with a `Dedent` at `span`.
    fn advance_dedents(&mut self, span: Span, n: usize)
        requires
            old(self).wf(),
            n <= old(self).indents@.len(),
        ensures
            final(self).wf(),
            final(self).input == old(self).input,
            final(self).file == old(self).file,
            final(self).offset == old(self).offset,
            final(self).diagnostics == old(self).diagnostics,
            indents_view(final(self).indents@) == indents_view(old(self).indents@).take(
                old(self).indents@.len() - n,
            ),
            tokens_view(final(self).tokens@) == tokens_view(old(self).tokens@) + repeat_token(
                TokenView::Other(Token::Dedent),
                span,
                n as nat,
            ),
    {
        let mut i: usize = 0;
        while i < n
            invariant
                self.wf(),
                self.input == old(self).input,
                self.file == old(self).file,
                self.offset == old(self).offset,
                self.diagnostics == old(self).diagnostics,
                i <= n <= old(self).indents@.len(),
                self.indents@ == old(self).indents@.take(old(self).indents@.len() - i),
                tokens_view(self.tokens@) == tokens_view(old(self).tokens@) + repeat_token(
                    TokenView::Other(Token::Dedent),
                    span,
                    i as nat,
                ),
            decreases n - i,
        {
            let ghost before = self.tokens@;
            self.tokens.push((Token::Dedent, span));
            assert(tokens_view(self.tokens@) =~= tokens_view(before).push(
                (TokenView::Other(Token::Dedent), span),
            ));
            assert(tokens_view(self.tokens@) =~= tokens_view(old(self).tokens@) + repeat_token(
                TokenView::Other(Token::Dedent),
                span,
                (i + 1) as nat,
            ));
            self.indents.pop();
            assert(self.indents@ =~= old(self).indents@.take(old(self).indents@.len() - (i + 1)));
            i = i + 1;
        }
        assert(indents_view(self.indents@) =~= indents_view(old(self).indents@).take(
            old(self).indents@.len() - n,
        ));
    }

    /// Reads the indentation at the start of a line.
    #[verifier::loop_isolation(false)]
    fn advance_indents(&mut self)
        requires
            old(self).wf(),
        ensures
            final(self).wf(),
            final(self).input == old(self).input,
            final(self).file == old(self).file,
            final(self).state() == lex_indents(old(self).input@, old(self).file, old(self).state()),
    {
        let start = self.offset;
        self.consume_while(CharClass::Indent);
        proof {
            lemma_run_end(self.input@, start as nat, CharClass::Indent);
        }
        let span = self.span(start);
        if self.offset < self.input.len() && self.input[self.offset] == '\n' {
            return;
        }
        let mut indent = self.chars(start, self.offset);
        let ghost whole = indent@;
        let ghost indents0 = indents_view(self.indents@);
        let mut k: usize = 0;
        loop
            invariant
                self.wf(),
                self.input == old(self).input,
                self.file == old(self).file,
                self.offset == run_end(old(self).input@, start as nat, CharClass::Indent),
                self.tokens == old(self).tokens,
                self.diagnostics == old(self).diagnostics,
                self.indents == old(self).indents,
                indents0 == indents_view(self.indents@),
                k <= self.indents@.len(),
                match_indents(indents0, k as nat, indent@) == match_indents(indents0, 0, whole),
            decreases self.indents@.len() - k,
        {
            if indent.len() == 0 {
                let n = self.indents.len() - k;
                self.advance_dedents(span, n);
                break;
            }
            if k >= self.indents.len() {
                break;
            }
            assert(indents0[k as int] == self.indents@[k as int]@);
            match strip_prefix(&indent, &self.indents[k]) {
                Some(rest) => {
                    indent = rest;
                    k = k + 1;
                },
                None => {
                    let diagnostic = Diagnostic::error("invalid indentation").with_label(span, "found here");
                    let ghost before = self.diagnostics@;
                    self.diagnostics.push(diagnostic);
                    assert(diags_view(self.diagnostics@) =~= diags_view(before).push(
                        error_at("invalid indentation"@, span),
                    ));
                    assert(match_indents(indents0, 0, whole) is Invalid);
                    let ghost target = lex_indents(old(self).input@, old(self).file, old(self).state());
                    assert(whole == old(self).input@.subrange(start as int, self.offset as int));
                    assert(self.offset == run_end(old(self).input@, old(self).state().pos, CharClass::Indent));
                    assert(target.pos == self.offset);
                    assert(target.tokens == self.state().tokens);
                    assert(target.indents == self.state().indents);
                    assert(target.diags == self.state().diags);
                    assert(self.state() =~= lex_indents(old(self).input@, old(self).file, old(self).state()));
                    return;
                },
            }
        }
        if indent.len() > 0 {
            let ghost ibefore = self.indents@;
            let ghost tbefore = self.tokens@;
            self.indents.push(indent);
            self.tokens.push((Token::Indent, span));
            assert(indents_view(self.indents@) =~= indents_view(ibefore).push(indent@));
            assert(tokens_view(self.tokens@) =~= tokens_view(tbefore).push(
                (TokenView::Other(Token::Indent), span),
            ));
        }
    }

    /// Reads the token that starts with `c`, the character at the current
    /// position, if one does.
    fn consume_token(&mut self, interner: &mut Interner, c: char) -> (r: Option<Token>)
        requires
            old(self).wf(),
            old(self).offset < old(self).input@.len(),
            c == old(self).input@[old(self).offset as int],
        ensures
            final(self).wf(),
            final(self).input == old(self).input,
            final(self).file == old(self).file,
            final(self).indents == old(self).indents,
            final(self).tokens == old(self).tokens,
            final(self).diagnostics == old(self).diagnostics,
            match scan(old(self).input@, old(self).offset as nat) {
                Some((t, e)) => r is Some && r->0@ == t && final(self).offset == e,
                None => r is None && final(self).offset == old(self).offset,
            },
    {
        let start = self.offset;
        proof {
            lemma_run_end(self.input@, start as nat, CharClass::Space);
            lemma_run_end(self.input@, start as nat, CharClass::IdentContinue);
            lemma_run_end(self.input@, start as nat, CharClass::Digit);
            lemma_run_end(self.input@, (start + 1) as nat, CharClass::NotQuote);
        }
        if is_whitespace(c) && c != '\n' {
            self.consume_while(CharClass::Space);
            return Some(Token::Whitespace);
        }
        if is_alphabetic(c) || c == '_' {
            self.consume_while(CharClass::IdentContinue);
            let word = self.text(start, self.offset);
            return match match_keyword(word.as_str()) {
                Some(token) => Some(token),
                None => Some(Token::Ident(interner.intern(word.as_str()))),
            };
        }
        if is_ascii_digit(c) {
            self.consume_while(CharClass::Digit);
            let ghost run = self.input@.subrange(start as int, self.offset as int);
            assert(start < self.offset);
            let mut first = start;
            while first + 1 < self.offset && self.input[first] == '0'
                invariant
                    start <= first < self.offset <= self.input@.len(),
                    run == self.input@.subrange(start as int, self.offset as int),
                    number_digits(run) == number_digits(
                        self.input@.subrange(first as int, self.offset as int),
                    ),
                decreases self.offset - first,
            {
                assert(self.input@.subrange(first as int, self.offset as int).drop_first()
                    =~= self.input@.subrange(first + 1, self.offset as int));
                first = first + 1;
            }
            let digits = self.text(first, self.offset);
            return Some(Token::Number(interner.intern(digits.as_str())));
        }
        if c == '"' {
            self.consume();
            let content_start = self.offset;
            self.consume_while(CharClass::NotQuote);
            let content = self.chars(content_start, self.offset);
            let string = unescape_chars(&content);
            let text = string_of(string.as_slice());
            let interned = interner.intern(text.as_str());
            self.consume();
            return Some(Token::String(interned));
        }
        if self.input.len() - self.offset > 1 {
            let snd = self.input[self.offset + 1];
            if let Some(token) = match_two_character_symbol(c, snd) {
                self.consume();
                self.consume();
                return Some(token);
            }
        }
        if let Some(token) = match_one_character_symbol(c) {
            self.consume();
            return Some(token);
        }
        None
    }

    /// Closes every open block at the end of input.
    fn finish(&mut self) -> (r: Tokens)
        requires
            old(self).wf(),
            old(self).offset == old(self).input@.len(),
        ensures
            r.spec_tokens() == lex_finish(old(self).input@, old(self).file, old(self).state()).tokens,
            r.spec_file() == old(self).file,
            r.spec_eof() == utf8_len(old(self).input@),
            final(self).diagnostics == old(self).diagnostics,
    {
        proof {
            self.lemma_bytes(self.offset as int);
            assert(self.input@.take(self.input@.len() as int) =~= self.input@);
        }
        let eof = self.byte as u32;
        let span = Span::new(self.file, eof, eof);
        let n = self.indents.len();
        self.advance_dedents(span, n);
        let mut tokens: Vec<(Token, Span)> = Vec::new();
        std::mem::swap(&mut tokens, &mut self.tokens);
        Tokens { tokens, file: self.file, eof }
    }
}

/// `strip_prefix` on characters: what follows `prefix` in `s`, if `s`
/// starts with it.
fn strip_prefix(s: &Vec<char>, prefix: &Vec<char>) -> (r: Option<Vec<char>>)
    ensures
        (prefix@.len() <= s@.len() && s@.take(prefix@.len() as int) == prefix@) ==> r is Some
            && r->0@ == s@.skip(prefix@.len() as int),
        !(prefix@.len() <= s@.len() && s@.take(prefix@.len() as int) == prefix@) ==> r is None,
{
    if prefix.len() > s.len() {
        return None;
    }
    let mut i: usize = 0;
    while i < prefix.len()
        invariant
            prefix@.len() <= s@.len(),
            i <= prefix@.len(),
            forall|j: int| 0 <= j < i ==> s@[j] == prefix@[j],
        decreases prefix@.len() - i,
    {
        if s[i] != prefix[i] {
            assert(s@.take(prefix@.len() as int)[i as int] != prefix@[i as int]);
            return None;
        }
        i = i + 1;
    }
    assert(s@.take(prefix@.len() as int) =~= prefix@);
    let mut rest: Vec<char> = Vec::new();
    let mut j = prefix.len();
    while j < s.len()
        invariant
            prefix@.len() <= j <= s@.len(),
            rest@ == s@.subrange(prefix@.len() as int, j as int),
        decreases s@.len() - j,
    {
        rest.push(s[j]);
        assert(s@.subrange(prefix@.len() as int, j + 1) =~= s@.subrange(
            prefix@.len() as int,
            j as int,
        ).push(s@[j as int]));
        j = j + 1;
    }
    assert(rest@ =~= s@.skip(prefix@.len() as int));
    Some(rest)
}

/// The text of a string literal with its escapes replaced.
fn unescape_chars(s: &Vec<char>) -> (r: Vec<char>)
    ensures
        r@ == unescape(s@),
{
    let (p1, r1) = (['\\', 'n'], ['\n']);
    let (p2, r2) = (['\\', 'r'], ['\r']);
    let (p3, r3) = (['\\', 't'], ['\t']);
    let (p4, r4) = (['\\', '0'], ['\0']);
    let (p5, r5) = (['\\', '\\'], ['\\']);
    let (p6, r6) = (['\\', '"'], ['"']);
    assert(p1@ =~= seq!['\\', 'n'] && r1@ =~= seq!['\n']);
    assert(p2@ =~= seq!['\\', 'r'] && r2@ =~= seq!['\r']);
    assert(p3@ =~= seq!['\\', 't'] && r3@ =~= seq!['\t']);
    assert(p4@ =~= seq!['\\', '0'] && r4@ =~= seq!['\0']);
    assert(p5@ =~= seq!['\\', '\\'] && r5@ =~= seq!['\\']);
    assert(p6@ =~= seq!['\\', '"'] && r6@ =~= seq!['"']);
    let s = replace_all_chars(s, p1.as_slice(), r1.as_slice());
    let s = replace_all_chars(&s, p2.as_slice(), r2.as_slice());
    let s = replace_all_chars(&s, p3.as_slice(), r3.as_slice());
    let s = replace_all_chars(&s, p4.as_slice(), r4.as_slice());
    let s = replace_all_chars(&s, p5.as_slice(), r5.as_slice());
    let s = replace_all_chars(&s, p6.as_slice(), r6.as_slice());
    s
}

} // verus!
