//! Lexer for the expression language: turns a source string into tokens.
//!
//! The specification-level tokenizer (`sp_next_token`, `sp_tokenize_from`)
//! defines the exact token stream and error positions; the executable
//! `Lexer` is proved to follow it.

use vstd::prelude::*;
use vstd::string::StringExecFns;

use crate::text::{is_ident_char, is_ident_start, is_space};
use crate::text::{is_ident_char_exec, is_ident_start_exec, is_space_exec};

verus! {

/// Tokens of the expression language.
#[derive(Debug, Clone, PartialEq)]
pub enum Token {
    /// String literal (decoded value)
    String(std::string::String),
    /// Identifier
    Ident(std::string::String),
    /// `(`
    LParen,
    /// `)`
    RParen,
    /// `,`
    Comma,
    /// `==`
    OpEq,
    /// `!=`
    OpNeq,
    /// `startsWith`
    OpStartsWith,
    /// `endsWith`
    OpEndsWith,
    /// `contains`
    OpContains,
    /// `matches`
    OpMatches,
    /// `AND`
    KwAnd,
    /// `OR`
    KwOr,
    /// `NOT`
    KwNot,
    /// End of input
    Eof,
}

/// Mathematical model of a token: string payloads as character sequences.
pub enum SpecToken {
    StrLit(Seq<char>),
    Ident(Seq<char>),
    LParen,
    RParen,
    Comma,
    OpEq,
    OpNeq,
    OpStartsWith,
    OpEndsWith,
    OpContains,
    OpMatches,
    KwAnd,
    KwOr,
    KwNot,
    Eof,
}

impl View for Token {
    type V = SpecToken;

    open spec fn view(&self) -> SpecToken {
        match self {
            Token::String(s) => SpecToken::StrLit(s@),
            Token::Ident(s) => SpecToken::Ident(s@),
            Token::LParen => SpecToken::LParen,
            Token::RParen => SpecToken::RParen,
            Token::Comma => SpecToken::Comma,
            Token::OpEq => SpecToken::OpEq,
            Token::OpNeq => SpecToken::OpNeq,
            Token::OpStartsWith => SpecToken::OpStartsWith,
            Token::OpEndsWith => SpecToken::OpEndsWith,
            Token::OpContains => SpecToken::OpContains,
            Token::OpMatches => SpecToken::OpMatches,
            Token::KwAnd => SpecToken::KwAnd,
            Token::KwOr => SpecToken::KwOr,
            Token::KwNot => SpecToken::KwNot,
            Token::Eof => SpecToken::Eof,
        }
    }
}

/// The token stream of a token vector, as spec values.
pub open spec fn toks_view(ts: Seq<Token>) -> Seq<SpecToken> {
    ts.map_values(|t: Token| t@)
}

/// Lexer error: position in the input (a character offset) and a message.
#[derive(Debug, Clone, PartialEq)]
pub struct LexError {
    pub pos: usize,
    pub message: std::string::String,
}

/// The ways lexing can fail.
pub enum LexFail {
    UnterminatedString,
    UnterminatedEscape,
    SingleEq,
    SingleBang,
    Unexpected(char),
}

/// The exact message reported for each failure.
pub open spec fn lex_fail_message(k: LexFail) -> Seq<char> {
    match k {
        LexFail::UnterminatedString => "Unterminated string literal"@,
        LexFail::UnterminatedEscape => "Unterminated escape sequence"@,
        LexFail::SingleEq => "Expected '==' but found single '='"@,
        LexFail::SingleBang => "Expected '!=' but found single '!'"@,
        LexFail::Unexpected(c) => "Unexpected character: '"@ + seq![c] + "'"@,
    }
}

/// Outcome of reading one token starting at some position.
pub enum LexStep {
    Token { tok: SpecToken, next: int },
    Fail { pos: int, kind: LexFail },
}

/// Position of the first non-whitespace character at or after `i`.
pub open spec fn sp_skip_ws(s: Seq<char>, i: int) -> int
    decreases s.len() - i,
{
    if 0 <= i < s.len() && is_space(s[i]) {
        sp_skip_ws(s, i + 1)
    } else {
        i
    }
}

/// End of the identifier that starts at `i`.
pub open spec fn sp_ident_end(s: Seq<char>, i: int) -> int
    decreases s.len() - i,
{
    if 0 <= i < s.len() && is_ident_char(s[i]) {
        sp_ident_end(s, i + 1)
    } else {
        i
    }
}

/// The character an escape sequence decodes to.
pub open spec fn sp_unescape(c: char) -> char {
    if c == 'n' {
        '\n'
    } else if c == 't' {
        '\t'
    } else if c == 'r' {
        '\r'
    } else {
        c
    }
}

/// Body of a string literal: `i` is inside the literal, `start` is the
/// position of the opening quote, `acc` the value decoded so far.
pub open spec fn sp_string_body(s: Seq<char>, i: int, start: int, acc: Seq<char>) -> LexStep
    decreases s.len() - i,
{
    if i < 0 || i >= s.len() {
        LexStep::Fail { pos: start, kind: LexFail::UnterminatedString }
    } else if s[i] == '"' {
        LexStep::Token { tok: SpecToken::StrLit(acc), next: i + 1 }
    } else if s[i] == '\\' {
        if i + 1 >= s.len() {
            LexStep::Fail { pos: s.len() as int, kind: LexFail::UnterminatedEscape }
        } else {
            sp_string_body(s, i + 2, start, acc.push(sp_unescape(s[i + 1])))
        }
    } else {
        sp_string_body(s, i + 1, start, acc.push(s[i]))
    }
}

/// The token an identifier word stands for: keyword, operator, or identifier.
pub open spec fn sp_keyword(w: Seq<char>) -> SpecToken {
    if w == "AND"@ {
        SpecToken::KwAnd
    } else if w == "OR"@ {
        SpecToken::KwOr
    } else if w == "NOT"@ {
        SpecToken::KwNot
    } else if w == "startsWith"@ {
        SpecToken::OpStartsWith
    } else if w == "endsWith"@ {
        SpecToken::OpEndsWith
    } else if w == "contains"@ {
        SpecToken::OpContains
    } else if w == "matches"@ {
        SpecToken::OpMatches
    } else {
        SpecToken::Ident(w)
    }
}

/// The next token of `s` starting at position `i`, and the position after it.
pub open spec fn sp_next_token(s: Seq<char>, i: int) -> LexStep {
    let j = sp_skip_ws(s, i);
    if j >= s.len() {
        LexStep::Token { tok: SpecToken::Eof, next: j }
    } else {
        let c = s[j];
        if c == '(' {
            LexStep::Token { tok: SpecToken::LParen, next: j + 1 }
        } else if c == ')' {
            LexStep::Token { tok: SpecToken::RParen, next: j + 1 }
        } else if c == ',' {
            LexStep::Token { tok: SpecToken::Comma, next: j + 1 }
        } else if c == '"' {
            sp_string_body(s, j + 1, j, Seq::<char>::empty())
        } else if c == '=' {
            if j + 1 < s.len() && s[j + 1] == '=' {
                LexStep::Token { tok: SpecToken::OpEq, next: j + 2 }
            } else {
                LexStep::Fail { pos: j, kind: LexFail::SingleEq }
            }
        } else if c == '!' {
            if j + 1 < s.len() && s[j + 1] == '=' {
                LexStep::Token { tok: SpecToken::OpNeq, next: j + 2 }
            } else {
                LexStep::Fail { pos: j, kind: LexFail::SingleBang }
            }
        } else if is_ident_start(c) {
            let e = sp_ident_end(s, j);
            LexStep::Token { tok: sp_keyword(s.subrange(j, e)), next: e }
        } else {
            LexStep::Fail { pos: j, kind: LexFail::Unexpected(c) }
        }
    }
}

/// The whole token stream of `s` from position `i`: all tokens up to and
/// including `Eof`, or the first lexical error.
pub open spec fn sp_tokenize_from(s: Seq<char>, i: int) -> Result<Seq<SpecToken>, (int, LexFail)>
    decreases s.len() - i,
{
    match sp_next_token(s, i) {
        LexStep::Fail { pos, kind } => Err((pos, kind)),
        LexStep::Token { tok, next } => {
            if tok is Eof {
                Ok(seq![SpecToken::Eof])
            } else if i < next <= s.len() {
                match sp_tokenize_from(s, next) {
                    Err(e) => Err(e),
                    Ok(rest) => Ok(seq![tok] + rest),
                }
            } else {
                // never taken: reading a non-Eof token advances (lemma_next_token_in_range)
                Err((i, LexFail::UnterminatedString))
            }
        },
    }
}

pub proof fn lemma_skip_ws_in_range(s: Seq<char>, i: int)
    requires
        0 <= i <= s.len(),
    ensures
        i <= sp_skip_ws(s, i) <= s.len(),
    decreases s.len() - i,
{
    if i < s.len() && is_space(s[i]) {
        lemma_skip_ws_in_range(s, i + 1);
    }
}

pub proof fn lemma_ident_end_in_range(s: Seq<char>, i: int)
    requires
        0 <= i <= s.len(),
    ensures
        i <= sp_ident_end(s, i) <= s.len(),
    decreases s.len() - i,
{
    if i < s.len() && is_ident_char(s[i]) {
        lemma_ident_end_in_range(s, i + 1);
    }
}

pub proof fn lemma_string_body_in_range(s: Seq<char>, i: int, start: int, acc: Seq<char>)
    requires
        0 <= i <= s.len(),
    ensures
        match sp_string_body(s, i, start, acc) {
            LexStep::Token { tok, next } => i < next <= s.len() && tok is StrLit,
            LexStep::Fail { pos, kind } => pos == start || pos == s.len(),
        },
    decreases s.len() - i,
{
    if i < s.len() {
        if s[i] == '"' {
        } else if s[i] == '\\' {
            if i + 1 < s.len() {
                lemma_string_body_in_range(s, i + 2, start, acc.push(sp_unescape(s[i + 1])));
            }
        } else {
            lemma_string_body_in_range(s, i + 1, start, acc.push(s[i]));
        }
    }
}

/// Reading one token stays within bounds and, except at end of input,
/// consumes at least one character.
pub proof fn lemma_next_token_in_range(s: Seq<char>, i: int)
    requires
        0 <= i <= s.len(),
    ensures
        match sp_next_token(s, i) {
            LexStep::Token { tok, next } => i <= next <= s.len() && (!(tok is Eof) ==> i < next),
            LexStep::Fail { pos, kind } => 0 <= pos <= s.len(),
        },
{
    lemma_skip_ws_in_range(s, i);
    let j = sp_skip_ws(s, i);
    if j < s.len() {
        if s[j] == '"' {
            lemma_string_body_in_range(s, j + 1, j, Seq::<char>::empty());
        }
        if is_ident_start(s[j]) {
            lemma_ident_end_in_range(s, j + 1);
            assert(sp_ident_end(s, j) == sp_ident_end(s, j + 1));
        }
    }
}


/// Skipping whitespace never looks left of the cursor: shifting the
/// input right shifts the result.
pub proof fn lemma_skip_ws_shift(a: Seq<char>, b: Seq<char>, i: int)
    requires
        0 <= i,
    ensures
        sp_skip_ws(a + b, a.len() + i) == a.len() + sp_skip_ws(b, i),
    decreases b.len() - i,
{
    let u = a + b;
    if i < b.len() {
        assert(u[a.len() + i] == b[i]);
        if is_space(b[i]) {
            lemma_skip_ws_shift(a, b, i + 1);
        }
    }
}

/// Reading an identifier never looks left of the cursor.
pub proof fn lemma_ident_end_shift(a: Seq<char>, b: Seq<char>, i: int)
    requires
        0 <= i,
    ensures
        sp_ident_end(a + b, a.len() + i) == a.len() + sp_ident_end(b, i),
    decreases b.len() - i,
{
    let u = a + b;
    if i < b.len() {
        assert(u[a.len() + i] == b[i]);
        if is_ident_char(b[i]) {
            lemma_ident_end_shift(a, b, i + 1);
        }
    }
}

/// Reading a string literal body never looks left of the cursor.
pub proof fn lemma_string_body_shift(
    a: Seq<char>,
    b: Seq<char>,
    i: int,
    start: int,
    acc: Seq<char>,
)
    requires
        0 <= i,
    ensures
        match sp_string_body(b, i, start, acc) {
            LexStep::Token { tok, next } => sp_string_body(a + b, a.len() + i, a.len() + start, acc)
                == (LexStep::Token { tok, next: a.len() + next }),
            LexStep::Fail { pos, kind } => sp_string_body(a + b, a.len() + i, a.len() + start, acc)
                == (LexStep::Fail { pos: a.len() + pos, kind }),
        },
    decreases b.len() - i,
{
    let u = a + b;
    if i < b.len() {
        assert(u[a.len() + i] == b[i]);
        if b[i] == '"' {
        } else if b[i] == '\\' {
            if i + 1 < b.len() {
                assert(u[a.len() + i + 1] == b[i + 1]);
                lemma_string_body_shift(a, b, i + 2, start, acc.push(sp_unescape(b[i + 1])));
            }
        } else {
            lemma_string_body_shift(a, b, i + 1, start, acc.push(b[i]));
        }
    }
}

/// Reading one token never looks left of the cursor: shifting the input
/// right shifts positions and keeps the token.
pub proof fn lemma_next_token_shift(a: Seq<char>, b: Seq<char>, i: int)
    requires
        0 <= i,
    ensures
        match sp_next_token(b, i) {
            LexStep::Token { tok, next } => sp_next_token(a + b, a.len() + i) == (LexStep::Token {
                tok,
                next: a.len() + next,
            }),
            LexStep::Fail { pos, kind } => sp_next_token(a + b, a.len() + i) == (LexStep::Fail {
                pos: a.len() + pos,
                kind,
            }),
        },
{
    let u = a + b;
    lemma_skip_ws_shift(a, b, i);
    let j = sp_skip_ws(b, i);
    if i <= b.len() {
        lemma_skip_ws_in_range(b, i);
    }
    if j < b.len() {
        assert(u[a.len() + j] == b[j]);
        let c = b[j];
        if c == '"' {
            lemma_string_body_shift(a, b, j + 1, j, Seq::<char>::empty());
        } else if c == '=' || c == '!' {
            if j + 1 < b.len() {
                assert(u[a.len() + j + 1] == b[j + 1]);
            }
        } else if is_ident_start(c) {
            lemma_ident_end_shift(a, b, j);
            let e = sp_ident_end(b, j);
            lemma_ident_end_in_range(b, j);
            assert(u.subrange(a.len() + j, a.len() + e) =~= b.subrange(j, e));
        }
    }
}

/// Tokenizing never looks left of the cursor: the tokens of a suffix
/// are the same wherever the suffix stands.
pub proof fn lemma_tokenize_shift(a: Seq<char>, b: Seq<char>, i: int)
    requires
        0 <= i,
    ensures
        match sp_tokenize_from(b, i) {
            Ok(ts) => sp_tokenize_from(a + b, a.len() + i) == Ok::<Seq<SpecToken>, (int, LexFail)>(
                ts,
            ),
            Err((p, k)) => sp_tokenize_from(a + b, a.len() + i) == Err::<
                Seq<SpecToken>,
                (int, LexFail),
            >((a.len() + p, k)),
        },
    decreases b.len() - i,
{
    lemma_next_token_shift(a, b, i);
    match sp_next_token(b, i) {
        LexStep::Fail { pos, kind } => {},
        LexStep::Token { tok, next } => {
            if tok is Eof {
            } else {
                if i < next <= b.len() {
                    lemma_tokenize_shift(a, b, next);
                }
            }
        },
    }
}

/// Lexer over a source string.
pub struct Lexer {
    input: Vec<char>,
    pos: usize,
    current_char: Option<char>,
}

impl Lexer {
    /// The source being tokenized.
    pub closed spec fn src(&self) -> Seq<char> {
        self.input@
    }

    /// The current position.
    pub closed spec fn at(&self) -> int {
        self.pos as int
    }

    /// Internal consistency: position in bounds, lookahead character matches.
    pub closed spec fn wf(&self) -> bool {
        &&& self.pos <= self.input.len()
        &&& (self.pos < self.input.len() ==> self.current_char == Some(
            self.input@[self.pos as int],
        ))
        &&& (self.pos >= self.input.len() ==> self.current_char is None)
    }

    /// Create a lexer positioned at the start of `input`.
    pub fn new(input: &str) -> (r: Lexer)
        ensures
            r.wf(),
            r.src() == input@,
            r.at() == 0,
    {
        let chars = crate::text::str_to_chars(input);
        let current_char = if chars.len() > 0 {
            Some(chars[0])
        } else {
            None
        };
        Lexer { input: chars, pos: 0, current_char }
    }

    /// Advance to the next character.
    fn advance(&mut self)
        requires
            old(self).wf(),
            old(self).at() < old(self).src().len(),
        ensures
            final(self).wf(),
            final(self).src() == old(self).src(),
            final(self).at() == old(self).at() + 1,
    {
        self.pos = self.pos + 1;
        self.current_char = if self.pos < self.input.len() {
            Some(self.input[self.pos])
        } else {
            None
        };
    }

    /// Peek at the next character without advancing.
    fn peek(&self) -> (r: Option<char>)
        requires
            self.wf(),
        ensures
            r == if self.at() + 1 < self.src().len() {
                Some(self.src()[self.at() + 1])
            } else {
                None::<char>
            },
    {
        if self.pos < usize::MAX && self.pos + 1 < self.input.len() {
            Some(self.input[self.pos + 1])
        } else {
            None
        }
    }

    /// Skip whitespace characters.
    #[verifier::loop_isolation(false)]
    fn skip_whitespace(&mut self)
        requires
            old(self).wf(),
        ensures
            final(self).wf(),
            final(self).src() == old(self).src(),
            final(self).at() == sp_skip_ws(old(self).src(), old(self).at()),
            sp_skip_ws(final(self).src(), final(self).at()) == final(self).at(),
    {
        let ghost s = old(self).src();
        let ghost i0 = old(self).at();
        while self.pos < self.input.len() && is_space_exec(self.input[self.pos])
            invariant
                self.wf(),
                self.src() == s,
                sp_skip_ws(s, i0) == sp_skip_ws(s, self.at()),
            decreases s.len() - self.at(),
        {
            self.advance();
        }
    }

    /// Read a string literal; the lexer stands on the opening quote.
    #[verifier::loop_isolation(false)]
    fn read_string(&mut self) -> (r: Result<std::string::String, LexError>)
        requires
            old(self).wf(),
            old(self).at() < old(self).src().len(),
            old(self).src()[old(self).at()] == '"',
        ensures
            final(self).wf(),
            final(self).src() == old(self).src(),
            match sp_string_body(
                old(self).src(),
                old(self).at() + 1,
                old(self).at(),
                Seq::<char>::empty(),
            ) {
                LexStep::Token { tok, next } => {
                    &&& r is Ok
                    &&& tok == SpecToken::StrLit(r->Ok_0@)
                    &&& final(self).at() == next
                },
                LexStep::Fail { pos, kind } => {
                    &&& r is Err
                    &&& r->Err_0.pos == pos
                    &&& r->Err_0.message@ == lex_fail_message(kind)
                },
            },
    {
        let ghost s = old(self).src();
        let ghost start = old(self).at();
        let start_pos = self.pos;
        let mut result = String::new();

        // Skip opening quote
        self.advance();

        loop
            invariant
                self.wf(),
                self.src() == s,
                start == start_pos as int,
                0 <= start < s.len(),
                0 <= self.at() <= s.len(),
                sp_string_body(s, start + 1, start, Seq::<char>::empty()) == sp_string_body(
                    s,
                    self.at(),
                    start,
                    result@,
                ),
            decreases s.len() - self.at(),
        {
            match self.current_char {
                None => {
                    return Err(
                        LexError { pos: start_pos, message: "Unterminated string literal".to_owned() },
                    );
                },
                Some(ch) => {
                    if ch == '"' {
                        self.advance();
                        return Ok(result);
                    } else if ch == '\\' {
                        self.advance();
                        match self.current_char {
                            Some(e) => {
                                let d = unescape_exec(e);
                                crate::text::push_char(&mut result, d);
                                self.advance();
                            },
                            None => {
                                return Err(
                                    LexError {
                                        pos: self.pos,
                                        message: "Unterminated escape sequence".to_owned(),
                                    },
                                );
                            },
                        }
                    } else {
                        crate::text::push_char(&mut result, ch);
                        self.advance();
                    }
                },
            }
        }
    }

    /// Read an identifier or keyword word.
    #[verifier::loop_isolation(false)]
    fn read_ident_or_keyword(&mut self) -> (r: std::string::String)
        requires
            old(self).wf(),
        ensures
            final(self).wf(),
            final(self).src() == old(self).src(),
            final(self).at() == sp_ident_end(old(self).src(), old(self).at()),
            r@ == old(self).src().subrange(old(self).at(), final(self).at()),
    {
        let ghost s = old(self).src();
        let ghost start = old(self).at();
        let mut result = String::new();

        while self.pos < self.input.len() && is_ident_char_exec(self.input[self.pos])
            invariant
                self.wf(),
                self.src() == s,
                0 <= start <= self.at() <= s.len(),
                sp_ident_end(s, start) == sp_ident_end(s, self.at()),
                result@ == s.subrange(start, self.at()),
            decreases s.len() - self.at(),
        {
            proof {
                assert(s.subrange(start, self.at()).push(s[self.at()]) =~= s.subrange(
                    start,
                    self.at() + 1,
                ));
            }
            let ch = self.input[self.pos];
            crate::text::push_char(&mut result, ch);
            self.advance();
        }
        result
    }

    /// Get the next token.
    pub fn next_token(&mut self) -> (r: Result<Token, LexError>)
        requires
            old(self).wf(),
        ensures
            final(self).wf(),
            final(self).src() == old(self).src(),
            match sp_next_token(old(self).src(), old(self).at()) {
                LexStep::Token { tok, next } => {
                    &&& r is Ok
                    &&& r->Ok_0@ == tok
                    &&& final(self).at() == next
                },
                LexStep::Fail { pos, kind } => {
                    &&& r is Err
                    &&& r->Err_0.pos == pos
                    &&& r->Err_0.message@ == lex_fail_message(kind)
                },
            },
    {
        let ghost s = old(self).src();
        self.skip_whitespace();

        match self.current_char {
            None => Ok(Token::Eof),
            Some(ch) => {
                if ch == '(' {
                    self.advance();
                    Ok(Token::LParen)
                } else if ch == ')' {
                    self.advance();
                    Ok(Token::RParen)
                } else if ch == ',' {
                    self.advance();
                    Ok(Token::Comma)
                } else if ch == '"' {
                    match self.read_string() {
                        Ok(v) => Ok(Token::String(v)),
                        Err(e) => Err(e),
                    }
                } else if ch == '=' {
                    match self.peek() {
                        Some(c2) => {
                            if c2 == '=' {
                                self.advance();
                                self.advance();
                                Ok(Token::OpEq)
                            } else {
                                Err(
                                    LexError {
                                        pos: self.pos,
                                        message: "Expected '==' but found single '='".to_owned(),
                                    },
                                )
                            }
                        },
                        None => Err(
                            LexError {
                                pos: self.pos,
                                message: "Expected '==' but found single '='".to_owned(),
                            },
                        ),
                    }
                } else if ch == '!' {
                    match self.peek() {
                        Some(c2) => {
                            if c2 == '=' {
                                self.advance();
                                self.advance();
                                Ok(Token::OpNeq)
                            } else {
                                Err(
                                    LexError {
                                        pos: self.pos,
                                        message: "Expected '!=' but found single '!'".to_owned(),
                                    },
                                )
                            }
                        },
                        None => Err(
                            LexError {
                                pos: self.pos,
                                message: "Expected '!=' but found single '!'".to_owned(),
                            },
                        ),
                    }
                } else if is_ident_start_exec(ch) {
                    let w = self.read_ident_or_keyword();
                    let t = if crate::text::str_eq(w.as_str(), "AND") {
                        Token::KwAnd
                    } else if crate::text::str_eq(w.as_str(), "OR") {
                        Token::KwOr
                    } else if crate::text::str_eq(w.as_str(), "NOT") {
                        Token::KwNot
                    } else if crate::text::str_eq(w.as_str(), "startsWith") {
                        Token::OpStartsWith
                    } else if crate::text::str_eq(w.as_str(), "endsWith") {
                        Token::OpEndsWith
                    } else if crate::text::str_eq(w.as_str(), "contains") {
                        Token::OpContains
                    } else if crate::text::str_eq(w.as_str(), "matches") {
                        Token::OpMatches
                    } else {
                        Token::Ident(w)
                    };
                    Ok(t)
                } else {
                    let mut m = "Unexpected character: '".to_owned();
                    crate::text::push_char(&mut m, ch);
                    m.append("'");
                    proof {
                        assert(m@ =~= lex_fail_message(LexFail::Unexpected(ch)));
                    }
                    Err(LexError { pos: self.pos, message: m })
                }
            },
        }
    }

    /// Tokenize the remaining input into a vector of tokens ending in `Eof`.
    #[verifier::loop_isolation(false)]
    pub fn tokenize(&mut self) -> (r: Result<Vec<Token>, LexError>)
        requires
            old(self).wf(),
            old(self).at() >= 0,
        ensures
            final(self).wf(),
            final(self).src() == old(self).src(),
            match sp_tokenize_from(old(self).src(), old(self).at()) {
                Ok(ts) => r is Ok && toks_view(r->Ok_0@) == ts,
                Err((pos, kind)) => {
                    &&& r is Err
                    &&& r->Err_0.pos == pos
                    &&& r->Err_0.message@ == lex_fail_message(kind)
                },
            },
    {
        let ghost s = old(self).src();
        let ghost start = old(self).at();
        let mut tokens: Vec<Token> = Vec::new();

        proof {
            assert(toks_view(tokens@) + sp_tokenize_from(s, start)->Ok_0 =~= sp_tokenize_from(
                s,
                start,
            )->Ok_0);
        }

        loop
            invariant
                self.wf(),
                self.src() == s,
                0 <= self.at() <= s.len(),
                sp_tokenize_from(s, start) == (match sp_tokenize_from(s, self.at()) {
                    Ok(rest) => Ok::<Seq<SpecToken>, (int, LexFail)>(toks_view(tokens@) + rest),
                    Err(e) => Err::<Seq<SpecToken>, (int, LexFail)>(e),
                }),
            decreases s.len() - self.at(),
        {
            let ghost i = self.at();
            proof {
                lemma_next_token_in_range(s, i);
            }
            let t = match self.next_token() {
                Ok(t) => t,
                Err(e) => {
                    return Err(e);
                },
            };
            let is_eof = match &t {
                Token::Eof => true,
                _ => false,
            };
            let ghost tv = t@;
            let ghost old_toks = tokens@;
            tokens.push(t);
            proof {
                assert(toks_view(tokens@) =~= toks_view(old_toks) + seq![tv]);
            }
            if is_eof {
                proof {
                    assert(sp_tokenize_from(s, i) == Ok::<Seq<SpecToken>, (int, LexFail)>(
                        seq![SpecToken::Eof],
                    ));
                    assert(toks_view(old_toks) + seq![SpecToken::Eof] =~= toks_view(tokens@));
                }
                return Ok(tokens);
            }
            proof {
                let next = self.at();
                if sp_tokenize_from(s, next) is Ok {
                    let rest = sp_tokenize_from(s, next)->Ok_0;
                    assert(toks_view(old_toks) + (seq![tv] + rest) =~= toks_view(tokens@) + rest);
                }
            }
        }
    }
}

/// Decode the character after a backslash.
fn unescape_exec(c: char) -> (r: char)
    ensures
        r == sp_unescape(c),
{
    if c == 'n' {
        '\n'
    } else if c == 't' {
        '\t'
    } else if c == 'r' {
        '\r'
    } else {
        c
    }
}

} // verus!
