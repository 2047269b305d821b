//! Recursive-descent parser for the expression language.
//!
//! Grammar, lowest precedence first:
//!
//! ```text
//! or_expr     = and_expr ( "OR" and_expr )*
//! and_expr    = not_expr ( "AND" not_expr )*
//! not_expr    = "NOT" not_expr | comparison
//! comparison  = op "(" or_expr "," or_expr ")"
//!             | value ( op value )?
//! value       = STRING
//!             | IDENT                  ( method | path | host )
//!             | IDENT "(" [ or_expr ( "," or_expr )* ] ")"
//!             | "(" or_expr ")"
//! op          = "==" | "!=" | startsWith | endsWith | contains | matches
//! ```
//!
//! The specification-level parser (`sp_parse_or` and friends) defines the
//! exact expression and error positions (token indices); the executable
//! `Parser` is proved to follow it. The whole input is tokenized up front,
//! so a lexical error anywhere in the input is reported before any parse
//! error; a lexical error keeps its character offset as the position.

use vstd::prelude::*;
use vstd::string::StringExecFns;

use crate::ast::{exprs_view, lemma_exprs_view_push, BinOp, Expr, Ident, SpecExpr};
use crate::lexer::{lex_fail_message, sp_tokenize_from, toks_view, Lexer, SpecToken, Token};

verus! {

/// Parser error: a position (token index, or character offset for a
/// lexical error) and a message.
#[derive(Debug, Clone, PartialEq)]
pub struct ParseError {
    pub pos: usize,
    pub message: std::string::String,
}

/// Outcome of parsing one construct starting at some token index.
pub enum PStep {
    Done { v: SpecExpr, next: int },
    Fail { pos: int },
}

/// Outcome of parsing a `","`-separated argument list.
pub enum AStep {
    Done { args: Seq<SpecExpr>, next: int },
    Fail { pos: int },
}

/// A well-formed token stream: non-empty, ends with `Eof`, and `Eof`
/// appears nowhere else. `Lexer::tokenize` only produces such streams.
pub open spec fn wf_toks(ts: Seq<SpecToken>) -> bool {
    &&& ts.len() >= 1
    &&& ts.last() is Eof
    &&& forall|k: int| 0 <= k < ts.len() - 1 ==> !(#[trigger] ts[k] is Eof)
}

/// Stepping through a printed string literal body: from inside the
/// quotes, the lexer decodes exactly the remaining characters and stops
/// at the closing quote, whatever follows it.
proof fn lemma_lex_printed_literal_body(s: Seq<char>, suf: Seq<char>, i: int, acc: Seq<char>)
    requires
        forall|k: int| 0 <= k < s.len() ==> s[k] != '"' && s[k] != '\\',
        0 <= i <= s.len(),
    ensures
        crate::lexer::sp_string_body(("\""@ + s + "\""@) + suf, 1 + i, 0, acc)
            == (crate::lexer::LexStep::Token {
            tok: SpecToken::StrLit(acc + s.subrange(i, s.len() as int)),
            next: s.len() as int + 2,
        }),
    decreases s.len() - i,
{
    let u = ("\""@ + s + "\""@) + suf;
    proof_strlit_quote();
    assert(u.len() == s.len() + 2 + suf.len());
    if i < s.len() {
        assert(u[1 + i] == s[i]);
        lemma_lex_printed_literal_body(s, suf, i + 1, acc.push(s[i]));
        assert(acc.push(s[i]) + s.subrange(i + 1, s.len() as int) =~= acc + s.subrange(
            i,
            s.len() as int,
        ));
    } else {
        assert(u[1 + i] == '"');
        assert(acc + s.subrange(i, s.len() as int) =~= acc);
    }
}

/// The view of the one-character quote literal.
proof fn proof_strlit_quote()
    ensures
        "\""@.len() == 1,
        "\""@[0] == '"',
{
    reveal_strlit("\"");
}

/// Print-parse round trip for string literals: printing a string
/// literal (whose text holds no quote and no backslash) and lexing and
/// parsing the result yields the same literal back.
pub proof fn lemma_round_trip_str_literal(s: Seq<char>)
    requires
        forall|k: int| 0 <= k < s.len() ==> s[k] != '"' && s[k] != '\\',
    ensures
        sp_tokenize_from(crate::ast::sp_print(SpecExpr::StrLit(s)), 0) == Ok::<
            Seq<SpecToken>,
            (int, crate::lexer::LexFail),
        >(seq![SpecToken::StrLit(s), SpecToken::Eof]),
        sp_parse_value(seq![SpecToken::StrLit(s), SpecToken::Eof], 0) == (PStep::Done {
            v: SpecExpr::StrLit(s),
            next: 1,
        }),
{
    let u = crate::ast::sp_print(SpecExpr::StrLit(s));
    proof_strlit_quote();
    assert(u == "\""@ + s + "\""@);
    assert(u.len() == s.len() + 2);
    assert(u[0] == '"');
    assert(!crate::text::is_space('"'));
    assert(crate::lexer::sp_skip_ws(u, 0) == 0);
    assert(("\""@ + s + "\""@) + Seq::<char>::empty() =~= u);
    lemma_lex_printed_literal_body(s, Seq::empty(), 0, Seq::empty());
    assert(Seq::<char>::empty() + s.subrange(0, s.len() as int) =~= s);
    assert(crate::lexer::sp_next_token(u, 0) == (crate::lexer::LexStep::Token {
        tok: SpecToken::StrLit(s),
        next: s.len() as int + 2,
    }));
    let e: int = s.len() as int + 2;
    assert(crate::lexer::sp_skip_ws(u, e) == e);
    assert(crate::lexer::sp_next_token(u, e) == (crate::lexer::LexStep::Token {
        tok: SpecToken::Eof,
        next: e,
    }));
    assert(sp_tokenize_from(u, e) == Ok::<Seq<SpecToken>, (int, crate::lexer::LexFail)>(
        seq![SpecToken::Eof],
    ));
    assert(seq![SpecToken::StrLit(s)] + seq![SpecToken::Eof] =~= seq![
        SpecToken::StrLit(s),
        SpecToken::Eof,
    ]);
}

/// Print-parse round trip for built-in identifiers: printing `method`,
/// `path`, or `host` and lexing and parsing the result yields the same
/// identifier back.
pub proof fn lemma_round_trip_ident(id: Ident)
    ensures
        sp_tokenize_from(crate::ast::sp_print(SpecExpr::Ident(id)), 0) == Ok::<
            Seq<SpecToken>,
            (int, crate::lexer::LexFail),
        >(seq![SpecToken::Ident(crate::ast::sp_print(SpecExpr::Ident(id))), SpecToken::Eof]),
        sp_parse_value(
            seq![SpecToken::Ident(crate::ast::sp_print(SpecExpr::Ident(id))), SpecToken::Eof],
            0,
        ) == (PStep::Done { v: SpecExpr::Ident(id), next: 1 }),
{
    reveal_strlit("method");
    reveal_strlit("path");
    reveal_strlit("host");
    reveal_strlit("AND");
    reveal_strlit("OR");
    reveal_strlit("NOT");
    reveal_strlit("startsWith");
    reveal_strlit("endsWith");
    reveal_strlit("contains");
    reveal_strlit("matches");
    let u = crate::ast::sp_print(SpecExpr::Ident(id));
    reveal_with_fuel(crate::lexer::sp_ident_end, 9);
    let n = u.len() as int;
    assert(crate::lexer::sp_skip_ws(u, 0) == 0);
    assert(crate::lexer::sp_ident_end(u, 0) == n);
    assert(u.subrange(0, n) =~= u);
    assert(crate::lexer::sp_keyword(u) == SpecToken::Ident(u));
    assert(crate::lexer::sp_next_token(u, 0) == (crate::lexer::LexStep::Token {
        tok: SpecToken::Ident(u),
        next: n,
    }));
    assert(crate::lexer::sp_skip_ws(u, n) == n);
    assert(crate::lexer::sp_next_token(u, n) == (crate::lexer::LexStep::Token {
        tok: SpecToken::Eof,
        next: n,
    }));
    assert(sp_tokenize_from(u, n) == Ok::<Seq<SpecToken>, (int, crate::lexer::LexFail)>(
        seq![SpecToken::Eof],
    ));
    assert(seq![SpecToken::Ident(u)] + seq![SpecToken::Eof] =~= seq![
        SpecToken::Ident(u),
        SpecToken::Eof,
    ]);
    assert(sp_builtin(u) == Some(id));
}

/// The token a binary operator prints as.
pub open spec fn sp_op_token(op: BinOp) -> SpecToken {
    match op {
        BinOp::Eq => SpecToken::OpEq,
        BinOp::Neq => SpecToken::OpNeq,
        BinOp::StartsWith => SpecToken::OpStartsWith,
        BinOp::EndsWith => SpecToken::OpEndsWith,
        BinOp::Contains => SpecToken::OpContains,
        BinOp::Matches => SpecToken::OpMatches,
    }
}

/// Print-parse round trip, parser half, for parenthesized comparisons:
/// the token stream a comparison `(IDENT op "LITERAL")` prints as
/// parses back to the same comparison.
#[verifier::rlimit(60)]
pub proof fn lemma_parse_printed_comparison(id: Ident, op: BinOp, s: Seq<char>)
    ensures
        sp_parse_full(
            seq![
                SpecToken::LParen,
                SpecToken::Ident(crate::ast::sp_print(SpecExpr::Ident(id))),
                sp_op_token(op),
                SpecToken::StrLit(s),
                SpecToken::RParen,
                SpecToken::Eof,
            ],
            0,
        ) == (PStep::Done {
            v: SpecExpr::Binary {
                op,
                left: Box::new(SpecExpr::Ident(id)),
                right: Box::new(SpecExpr::StrLit(s)),
            },
            next: 5,
        }),
{
    reveal_strlit("method");
    reveal_strlit("path");
    reveal_strlit("host");
    let name = crate::ast::sp_print(SpecExpr::Ident(id));
    match id {
        Ident::Method => {
            assert(name == "method"@);
        },
        Ident::Path => {
            assert(name == "path"@);
            assert("path"@ != "method"@) by {
                assert("path"@.len() == 4);
                assert("method"@.len() == 6);
            }
        },
        Ident::Host => {
            assert(name == "host"@);
            assert("host"@ != "method"@) by {
                assert("host"@.len() == 4);
                assert("method"@.len() == 6);
            }
            assert("host"@ != "path"@) by {
                assert("host"@[0] == 'h');
                assert("path"@[0] == 'p');
            }
        },
    }
    assert(sp_builtin(name) == Some(id));
    let ts = seq![
        SpecToken::LParen,
        SpecToken::Ident(name),
        sp_op_token(op),
        SpecToken::StrLit(s),
        SpecToken::RParen,
        SpecToken::Eof,
    ];
    let cmp = SpecExpr::Binary {
        op,
        left: Box::new(SpecExpr::Ident(id)),
        right: Box::new(SpecExpr::StrLit(s)),
    };
    assert(sp_parse_value(ts, 1) == (PStep::Done { v: SpecExpr::Ident(id), next: 2 }));
    assert(sp_parse_value(ts, 3) == (PStep::Done { v: SpecExpr::StrLit(s), next: 4 }));
    assert(sp_op_of(ts[2]) == Some(op));
    assert(sp_parse_cmp(ts, 1) == (PStep::Done { v: cmp, next: 4 }));
    assert(sp_parse_not(ts, 1) == (PStep::Done { v: cmp, next: 4 }));
    assert(sp_and_tail(ts, cmp, 4) == (PStep::Done { v: cmp, next: 4 }));
    assert(sp_parse_and(ts, 1) == (PStep::Done { v: cmp, next: 4 }));
    assert(sp_or_tail(ts, cmp, 4) == (PStep::Done { v: cmp, next: 4 }));
    assert(sp_parse_or(ts, 1) == (PStep::Done { v: cmp, next: 4 }));
    assert(sp_parse_value(ts, 0) == (PStep::Done { v: cmp, next: 5 }));
    assert(sp_parse_cmp(ts, 0) == (PStep::Done { v: cmp, next: 5 }));
    assert(sp_parse_not(ts, 0) == (PStep::Done { v: cmp, next: 5 }));
    assert(sp_and_tail(ts, cmp, 5) == (PStep::Done { v: cmp, next: 5 }));
    assert(sp_parse_and(ts, 0) == (PStep::Done { v: cmp, next: 5 }));
    assert(sp_or_tail(ts, cmp, 5) == (PStep::Done { v: cmp, next: 5 }));
    assert(sp_parse_or(ts, 0) == (PStep::Done { v: cmp, next: 5 }));
}

/// Lexing a printed built-in identifier followed by anything that does
/// not extend it: the identifier token, ending where the name ends.
proof fn lemma_lex_printed_ident(id: Ident, tail: Seq<char>)
    requires
        tail.len() > 0,
        !crate::text::is_ident_char(tail[0]),
        !crate::text::is_space(crate::ast::sp_print(SpecExpr::Ident(id))[0]),
    ensures
        crate::lexer::sp_next_token(crate::ast::sp_print(SpecExpr::Ident(id)) + tail, 0)
            == (crate::lexer::LexStep::Token {
            tok: SpecToken::Ident(crate::ast::sp_print(SpecExpr::Ident(id))),
            next: crate::ast::sp_print(SpecExpr::Ident(id)).len() as int,
        }),
{
    reveal_strlit("method");
    reveal_strlit("path");
    reveal_strlit("host");
    reveal_strlit("AND");
    reveal_strlit("OR");
    reveal_strlit("NOT");
    reveal_strlit("startsWith");
    reveal_strlit("endsWith");
    reveal_strlit("contains");
    reveal_strlit("matches");
    reveal_with_fuel(crate::lexer::sp_ident_end, 9);
    let name = crate::ast::sp_print(SpecExpr::Ident(id));
    let u = name + tail;
    let n = name.len() as int;
    assert(u[0] == name[0]);
    assert(crate::lexer::sp_skip_ws(u, 0) == 0);
    assert forall|k: int| 0 <= k < n implies u[k] == name[k] by {}
    assert(u[n] == tail[0]);
    match id {
        Ident::Method => {
            assert(crate::lexer::sp_ident_end(u, 0) == n);
        },
        Ident::Path => {
            assert(crate::lexer::sp_ident_end(u, 0) == n);
        },
        Ident::Host => {
            assert(crate::lexer::sp_ident_end(u, 0) == n);
        },
    }
    assert(u.subrange(0, n) =~= name);
    assert(crate::lexer::sp_keyword(name) == SpecToken::Ident(name));
}

/// Lexing a printed operator preceded by one space and followed by
/// anything that does not extend it: the operator token.
proof fn lemma_lex_printed_op(op: BinOp, tail: Seq<char>)
    requires
        tail.len() > 0,
        !crate::text::is_ident_char(tail[0]),
        tail[0] != '=',
    ensures
        crate::lexer::sp_next_token(" "@ + (crate::ast::sp_op_str(op) + tail), 0)
            == (crate::lexer::LexStep::Token {
            tok: sp_op_token(op),
            next: 1 + crate::ast::sp_op_str(op).len() as int,
        }),
{
    reveal_strlit(" ");
    reveal_strlit("==");
    reveal_strlit("!=");
    reveal_strlit("AND");
    reveal_strlit("OR");
    reveal_strlit("NOT");
    reveal_strlit("startsWith");
    reveal_strlit("endsWith");
    reveal_strlit("contains");
    reveal_strlit("matches");
    reveal_with_fuel(crate::lexer::sp_ident_end, 12);
    let opstr = crate::ast::sp_op_str(op);
    let b = opstr + tail;
    let u = " "@ + b;
    let n = opstr.len() as int;
    assert(u[0] == ' ');
    assert(u[1] == b[0]);
    assert(b[0] == opstr[0]);
    assert(crate::lexer::sp_skip_ws(u, 1) == 1);
    assert(crate::lexer::sp_skip_ws(u, 0) == 1);
    assert forall|k: int| 0 <= k < n implies b[k] == opstr[k] by {}
    assert(b[n] == tail[0]);
    crate::lexer::lemma_next_token_shift(" "@, b, 0);
    match op {
        BinOp::Eq => {
            assert(b[1] == '=');
            assert(crate::lexer::sp_next_token(b, 0) == (crate::lexer::LexStep::Token {
                tok: SpecToken::OpEq,
                next: 2,
            }));
        },
        BinOp::Neq => {
            assert(b[1] == '=');
            assert(crate::lexer::sp_next_token(b, 0) == (crate::lexer::LexStep::Token {
                tok: SpecToken::OpNeq,
                next: 2,
            }));
        },
        BinOp::StartsWith => {
            assert(crate::lexer::sp_ident_end(b, 0) == n);
            assert(b.subrange(0, n) =~= opstr);
            assert(crate::lexer::sp_keyword(opstr) == SpecToken::OpStartsWith);
        },
        BinOp::EndsWith => {
            assert(crate::lexer::sp_ident_end(b, 0) == n);
            assert(b.subrange(0, n) =~= opstr);
            assert(crate::lexer::sp_keyword(opstr) == SpecToken::OpEndsWith);
        },
        BinOp::Contains => {
            assert(crate::lexer::sp_ident_end(b, 0) == n);
            assert(b.subrange(0, n) =~= opstr);
            assert(crate::lexer::sp_keyword(opstr) == SpecToken::OpContains);
        },
        BinOp::Matches => {
            assert(crate::lexer::sp_ident_end(b, 0) == n);
            assert(b.subrange(0, n) =~= opstr);
            assert(crate::lexer::sp_keyword(opstr) == SpecToken::OpMatches);
        },
    }
}

/// Print-lex round trip for parenthesized comparisons: the printed form
/// of `(IDENT op "LITERAL")` (the literal holding no quote and no
/// backslash) tokenizes to exactly its six tokens.
#[verifier::rlimit(80)]
pub proof fn lemma_lex_printed_comparison(id: Ident, op: BinOp, s: Seq<char>)
    requires
        forall|k: int| 0 <= k < s.len() ==> s[k] != '"' && s[k] != '\\',
    ensures
        sp_tokenize_from(
            crate::ast::sp_print(
                SpecExpr::Binary {
                    op,
                    left: Box::new(SpecExpr::Ident(id)),
                    right: Box::new(SpecExpr::StrLit(s)),
                },
            ),
            0,
        ) == Ok::<Seq<SpecToken>, (int, crate::lexer::LexFail)>(
            seq![
                SpecToken::LParen,
                SpecToken::Ident(crate::ast::sp_print(SpecExpr::Ident(id))),
                sp_op_token(op),
                SpecToken::StrLit(s),
                SpecToken::RParen,
                SpecToken::Eof,
            ],
        ),
{
    reveal_strlit("(");
    reveal_strlit(")");
    reveal_strlit(" ");
    reveal_strlit("\"");
    reveal_strlit("method");
    reveal_strlit("path");
    reveal_strlit("host");
    reveal_strlit("==");
    reveal_strlit("!=");
    reveal_strlit("startsWith");
    reveal_strlit("endsWith");
    reveal_strlit("contains");
    reveal_strlit("matches");
    let name = crate::ast::sp_print(SpecExpr::Ident(id));
    let opstr = crate::ast::sp_op_str(op);
    let lit = "\""@ + s + "\""@;
    let cmp = SpecExpr::Binary {
        op,
        left: Box::new(SpecExpr::Ident(id)),
        right: Box::new(SpecExpr::StrLit(s)),
    };
    let u = crate::ast::sp_print(cmp);
    let r4 = ")"@;
    let r3 = " "@ + (lit + r4);
    let r2 = " "@ + (opstr + r3);
    let r1 = name + r2;
    assert(crate::ast::sp_print(SpecExpr::StrLit(s)) == lit);
    assert(u == "("@ + name + " "@ + opstr + " "@ + lit + ")"@);
    assert(u =~= "("@ + r1);
    assert(name.len() >= 4) by {
        match id {
            Ident::Method => {},
            Ident::Path => {},
            Ident::Host => {},
        }
    }
    assert(opstr.len() >= 2 && !crate::text::is_space(opstr[0]) && opstr[0] != '(' && opstr[0]
        != ')' && opstr[0] != ',' && opstr[0] != '"') by {
        match op {
            BinOp::Eq => {},
            BinOp::Neq => {},
            BinOp::StartsWith => {},
            BinOp::EndsWith => {},
            BinOp::Contains => {},
            BinOp::Matches => {},
        }
    }
    // ")" ends the input: RParen then Eof.
    assert(crate::lexer::sp_next_token(r4, 0) == (crate::lexer::LexStep::Token {
        tok: SpecToken::RParen,
        next: 1,
    }));
    assert(crate::lexer::sp_next_token(r4, 1) == (crate::lexer::LexStep::Token {
        tok: SpecToken::Eof,
        next: 1,
    }));
    assert(sp_tokenize_from(r4, 1) == Ok::<Seq<SpecToken>, (int, crate::lexer::LexFail)>(
        seq![SpecToken::Eof],
    ));
    assert(sp_tokenize_from(r4, 0) == Ok::<Seq<SpecToken>, (int, crate::lexer::LexFail)>(
        seq![SpecToken::RParen] + seq![SpecToken::Eof],
    ));
    // r3 = " " ++ literal ++ ")": the literal token, then the rest.
    assert(r3[0] == ' ');
    assert(crate::lexer::sp_skip_ws(r3, 1) == 1) by {
        assert(r3[1] == '"');
    }
    assert(crate::lexer::sp_skip_ws(r3, 0) == 1);
    crate::lexer::lemma_string_body_shift(" "@, lit + r4, 1, 0, Seq::<char>::empty());
    lemma_lex_printed_literal_body(s, r4, 0, Seq::<char>::empty());
    assert(Seq::<char>::empty() + s.subrange(0, s.len() as int) =~= s);
    assert(crate::lexer::sp_next_token(r3, 0) == (crate::lexer::LexStep::Token {
        tok: SpecToken::StrLit(s),
        next: s.len() as int + 3,
    })) by {
        assert(r3[1] == '"');
        assert(crate::lexer::sp_string_body(r3, 2, 1, Seq::<char>::empty())
            == (crate::lexer::LexStep::Token {
            tok: SpecToken::StrLit(s),
            next: 1 + (s.len() as int + 2),
        }));
    }
    let a3 = " "@ + lit;
    assert(r3 =~= a3 + r4);
    crate::lexer::lemma_tokenize_shift(a3, r4, 0);
    assert(sp_tokenize_from(r3, s.len() as int + 3) == Ok::<
        Seq<SpecToken>,
        (int, crate::lexer::LexFail),
    >(seq![SpecToken::RParen] + seq![SpecToken::Eof]));
    assert(sp_tokenize_from(r3, 0) == Ok::<Seq<SpecToken>, (int, crate::lexer::LexFail)>(
        seq![SpecToken::StrLit(s)] + (seq![SpecToken::RParen] + seq![SpecToken::Eof]),
    ));
    // r2 = " " ++ operator ++ r3: the operator token, then the rest.
    lemma_lex_printed_op(op, r3);
    assert(crate::lexer::sp_next_token(r2, 0) == (crate::lexer::LexStep::Token {
        tok: sp_op_token(op),
        next: 1 + opstr.len() as int,
    }));
    let a2 = " "@ + opstr;
    assert(r2 =~= a2 + r3);
    crate::lexer::lemma_tokenize_shift(a2, r3, 0);
    assert(sp_tokenize_from(r2, 1 + opstr.len() as int) == Ok::<
        Seq<SpecToken>,
        (int, crate::lexer::LexFail),
    >(seq![SpecToken::StrLit(s)] + (seq![SpecToken::RParen] + seq![SpecToken::Eof])));
    assert(sp_tokenize_from(r2, 0) == Ok::<Seq<SpecToken>, (int, crate::lexer::LexFail)>(
        seq![sp_op_token(op)] + (seq![SpecToken::StrLit(s)] + (seq![SpecToken::RParen]
            + seq![SpecToken::Eof])),
    ));
    // r1 = name ++ r2: the identifier token, then the rest.
    assert(r2[0] == ' ');
    lemma_lex_printed_ident(id, r2);
    assert(crate::lexer::sp_next_token(r1, 0) == (crate::lexer::LexStep::Token {
        tok: SpecToken::Ident(name),
        next: name.len() as int,
    }));
    crate::lexer::lemma_tokenize_shift(name, r2, 0);
    assert(sp_tokenize_from(r1, name.len() as int) == Ok::<
        Seq<SpecToken>,
        (int, crate::lexer::LexFail),
    >(seq![sp_op_token(op)] + (seq![SpecToken::StrLit(s)] + (seq![SpecToken::RParen]
        + seq![SpecToken::Eof]))));
    assert(sp_tokenize_from(r1, 0) == Ok::<Seq<SpecToken>, (int, crate::lexer::LexFail)>(
        seq![SpecToken::Ident(name)] + (seq![sp_op_token(op)] + (seq![SpecToken::StrLit(s)]
            + (seq![SpecToken::RParen] + seq![SpecToken::Eof]))),
    ));
    // u = "(" ++ r1: the opening parenthesis, then the rest.
    assert(u[0] == '(');
    assert(crate::lexer::sp_skip_ws(u, 0) == 0);
    assert(crate::lexer::sp_next_token(u, 0) == (crate::lexer::LexStep::Token {
        tok: SpecToken::LParen,
        next: 1,
    }));
    crate::lexer::lemma_tokenize_shift("("@, r1, 0);
    assert(sp_tokenize_from(u, 1) == Ok::<Seq<SpecToken>, (int, crate::lexer::LexFail)>(
        seq![SpecToken::Ident(name)] + (seq![sp_op_token(op)] + (seq![SpecToken::StrLit(s)]
            + (seq![SpecToken::RParen] + seq![SpecToken::Eof]))),
    ));
    assert(sp_tokenize_from(u, 0) == Ok::<Seq<SpecToken>, (int, crate::lexer::LexFail)>(
        seq![SpecToken::LParen] + (seq![SpecToken::Ident(name)] + (seq![sp_op_token(op)] + (
        seq![SpecToken::StrLit(s)] + (seq![SpecToken::RParen] + seq![SpecToken::Eof])))),
    ));
    assert(seq![SpecToken::LParen] + (seq![SpecToken::Ident(name)] + (seq![sp_op_token(op)] + (
    seq![SpecToken::StrLit(s)] + (seq![SpecToken::RParen] + seq![SpecToken::Eof])))) =~= seq![
        SpecToken::LParen,
        SpecToken::Ident(name),
        sp_op_token(op),
        SpecToken::StrLit(s),
        SpecToken::RParen,
        SpecToken::Eof,
    ]);
}

/// Parser round trip for comparisons: printing a parsed comparison
/// `(IDENT op "LITERAL")` (the literal holding no quote and no
/// backslash) and lexing and parsing the printed text yields the same
/// comparison back.
pub proof fn lemma_round_trip_comparison(id: Ident, op: BinOp, s: Seq<char>)
    requires
        forall|k: int| 0 <= k < s.len() ==> s[k] != '"' && s[k] != '\\',
    ensures
        ({
            let cmp = SpecExpr::Binary {
                op,
                left: Box::new(SpecExpr::Ident(id)),
                right: Box::new(SpecExpr::StrLit(s)),
            };
            match sp_tokenize_from(crate::ast::sp_print(cmp), 0) {
                Ok(ts) => sp_parse_full(ts, 0) matches PStep::Done { v, next } && v == cmp,
                Err(_) => false,
            }
        }),
{
    lemma_lex_printed_comparison(id, op, s);
    lemma_parse_printed_comparison(id, op, s);
}

/// The binary operator a token stands for, if any.
pub open spec fn sp_op_of(t: SpecToken) -> Option<BinOp> {
    match t {
        SpecToken::OpEq => Some(BinOp::Eq),
        SpecToken::OpNeq => Some(BinOp::Neq),
        SpecToken::OpStartsWith => Some(BinOp::StartsWith),
        SpecToken::OpEndsWith => Some(BinOp::EndsWith),
        SpecToken::OpContains => Some(BinOp::Contains),
        SpecToken::OpMatches => Some(BinOp::Matches),
        _ => None,
    }
}

/// The built-in identifier a name stands for, if any.
pub open spec fn sp_builtin(name: Seq<char>) -> Option<Ident> {
    if name == "method"@ {
        Some(Ident::Method)
    } else if name == "path"@ {
        Some(Ident::Path)
    } else if name == "host"@ {
        Some(Ident::Host)
    } else {
        None
    }
}

/// `or_expr = and_expr ( "OR" and_expr )*`
pub open spec fn sp_parse_or(ts: Seq<SpecToken>, i: int) -> PStep
    decreases ts.len() - i, 4int,
{
    match sp_parse_and(ts, i) {
        PStep::Fail { pos } => PStep::Fail { pos },
        PStep::Done { v, next } => {
            if i < next <= ts.len() {
                sp_or_tail(ts, v, next)
            } else {
                // not reached: every sub-parse consumes at least one token
                PStep::Fail { pos: next }
            }
        },
    }
}

/// The `( "OR" and_expr )*` tail, left-associating onto `left`.
pub open spec fn sp_or_tail(ts: Seq<SpecToken>, left: SpecExpr, i: int) -> PStep
    decreases ts.len() - i, 0int,
{
    if 0 <= i < ts.len() && ts[i] is KwOr {
        match sp_parse_and(ts, i + 1) {
            PStep::Fail { pos } => PStep::Fail { pos },
            PStep::Done { v, next } => {
                if i < next <= ts.len() {
                    sp_or_tail(ts, SpecExpr::Or(Box::new(left), Box::new(v)), next)
                } else {
                    PStep::Fail { pos: next }
                }
            },
        }
    } else {
        PStep::Done { v: left, next: i }
    }
}

/// `and_expr = not_expr ( "AND" not_expr )*`
pub open spec fn sp_parse_and(ts: Seq<SpecToken>, i: int) -> PStep
    decreases ts.len() - i, 3int,
{
    match sp_parse_not(ts, i) {
        PStep::Fail { pos } => PStep::Fail { pos },
        PStep::Done { v, next } => {
            if i < next <= ts.len() {
                sp_and_tail(ts, v, next)
            } else {
                PStep::Fail { pos: next }
            }
        },
    }
}

/// The `( "AND" not_expr )*` tail, left-associating onto `left`.
pub open spec fn sp_and_tail(ts: Seq<SpecToken>, left: SpecExpr, i: int) -> PStep
    decreases ts.len() - i, 0int,
{
    if 0 <= i < ts.len() && ts[i] is KwAnd {
        match sp_parse_not(ts, i + 1) {
            PStep::Fail { pos } => PStep::Fail { pos },
            PStep::Done { v, next } => {
                if i < next <= ts.len() {
                    sp_and_tail(ts, SpecExpr::And(Box::new(left), Box::new(v)), next)
                } else {
                    PStep::Fail { pos: next }
                }
            },
        }
    } else {
        PStep::Done { v: left, next: i }
    }
}

/// `not_expr = "NOT" not_expr | comparison`
pub open spec fn sp_parse_not(ts: Seq<SpecToken>, i: int) -> PStep
    decreases ts.len() - i, 2int,
{
    if 0 <= i < ts.len() && ts[i] is KwNot {
        match sp_parse_not(ts, i + 1) {
            PStep::Fail { pos } => PStep::Fail { pos },
            PStep::Done { v, next } => PStep::Done { v: SpecExpr::Not(Box::new(v)), next },
        }
    } else {
        sp_parse_cmp(ts, i)
    }
}

/// `comparison = op "(" or_expr "," or_expr ")" | value ( op value )?`
pub open spec fn sp_parse_cmp(ts: Seq<SpecToken>, i: int) -> PStep
    decreases ts.len() - i, 1int,
{
    if 0 <= i < ts.len() && sp_op_of(ts[i]) is Some && i + 1 < ts.len() && ts[i + 1] is LParen {
        let op = sp_op_of(ts[i])->Some_0;
        match sp_parse_or(ts, i + 2) {
            PStep::Fail { pos } => PStep::Fail { pos },
            PStep::Done { v: l, next: j } => {
                if 0 <= j < ts.len() && i <= j && ts[j] is Comma {
                    match sp_parse_or(ts, j + 1) {
                        PStep::Fail { pos } => PStep::Fail { pos },
                        PStep::Done { v: r, next: k } => {
                            if 0 <= k < ts.len() && ts[k] is RParen {
                                PStep::Done {
                                    v: SpecExpr::Binary {
                                        op,
                                        left: Box::new(l),
                                        right: Box::new(r),
                                    },
                                    next: k + 1,
                                }
                            } else {
                                PStep::Fail { pos: k }
                            }
                        },
                    }
                } else {
                    PStep::Fail { pos: j }
                }
            },
        }
    } else {
        match sp_parse_value(ts, i) {
            PStep::Fail { pos } => PStep::Fail { pos },
            PStep::Done { v: l, next: j } => {
                if 0 <= j < ts.len() && i < j && sp_op_of(ts[j]) is Some {
                    let op = sp_op_of(ts[j])->Some_0;
                    match sp_parse_value(ts, j + 1) {
                        PStep::Fail { pos } => PStep::Fail { pos },
                        PStep::Done { v: r, next: k } => PStep::Done {
                            v: SpecExpr::Binary { op, left: Box::new(l), right: Box::new(r) },
                            next: k,
                        },
                    }
                } else {
                    PStep::Done { v: l, next: j }
                }
            },
        }
    }
}

/// `value = STRING | IDENT | IDENT "(" args ")" | "(" or_expr ")"`
pub open spec fn sp_parse_value(ts: Seq<SpecToken>, i: int) -> PStep
    decreases ts.len() - i, 0int,
{
    if !(0 <= i < ts.len()) {
        PStep::Fail { pos: i }
    } else {
        match ts[i] {
            SpecToken::StrLit(s) => PStep::Done { v: SpecExpr::StrLit(s), next: i + 1 },
            SpecToken::Ident(name) => {
                if i + 1 < ts.len() && ts[i + 1] is LParen {
                    sp_parse_call(ts, name, i + 1)
                } else {
                    match sp_builtin(name) {
                        Some(id) => PStep::Done { v: SpecExpr::Ident(id), next: i + 1 },
                        None => PStep::Fail { pos: i },
                    }
                }
            },
            SpecToken::LParen => {
                match sp_parse_or(ts, i + 1) {
                    PStep::Fail { pos } => PStep::Fail { pos },
                    PStep::Done { v, next: j } => {
                        if 0 <= j < ts.len() && ts[j] is RParen {
                            PStep::Done { v, next: j + 1 }
                        } else {
                            PStep::Fail { pos: j }
                        }
                    },
                }
            },
            _ => PStep::Fail { pos: i },
        }
    }
}

/// A function call's parenthesized argument list; `i` stands on the
/// `"("` after the function name.
pub open spec fn sp_parse_call(ts: Seq<SpecToken>, name: Seq<char>, i: int) -> PStep
    decreases ts.len() - i, 0int,
{
    if !(0 <= i < ts.len()) {
        PStep::Fail { pos: i }
    } else if i + 1 < ts.len() && ts[i + 1] is RParen {
        PStep::Done { v: SpecExpr::Call { name, args: Seq::empty() }, next: i + 2 }
    } else {
        match sp_parse_args(ts, i + 1) {
            AStep::Fail { pos } => PStep::Fail { pos },
            AStep::Done { args, next } => PStep::Done { v: SpecExpr::Call { name, args }, next },
        }
    }
}

/// A non-empty argument list followed by `")"`; `i` stands on the first
/// argument.
pub open spec fn sp_parse_args(ts: Seq<SpecToken>, i: int) -> AStep
    decreases ts.len() - i, 5int,
{
    match sp_parse_or(ts, i) {
        PStep::Fail { pos } => AStep::Fail { pos },
        PStep::Done { v, next: j } => {
            if 0 <= j < ts.len() && i < j {
                if ts[j] is Comma {
                    match sp_parse_args(ts, j + 1) {
                        AStep::Fail { pos } => AStep::Fail { pos },
                        AStep::Done { args, next } => AStep::Done {
                            args: seq![v] + args,
                            next,
                        },
                    }
                } else if ts[j] is RParen {
                    AStep::Done { args: seq![v], next: j + 1 }
                } else {
                    AStep::Fail { pos: j }
                }
            } else {
                AStep::Fail { pos: j }
            }
        },
    }
}

/// A whole expression: `or_expr` followed by end of input.
pub open spec fn sp_parse_full(ts: Seq<SpecToken>, i: int) -> PStep {
    match sp_parse_or(ts, i) {
        PStep::Fail { pos } => PStep::Fail { pos },
        PStep::Done { v, next } => {
            if 0 <= next < ts.len() && ts[next] is Eof {
                PStep::Done { v, next }
            } else {
                PStep::Fail { pos: next }
            }
        },
    }
}

/// Tokenizing never puts `Eof` anywhere but at the end.
pub proof fn lemma_tokenize_wf(s: Seq<char>, i: int)
    requires
        sp_tokenize_from(s, i) is Ok,
    ensures
        wf_toks(sp_tokenize_from(s, i)->Ok_0),
    decreases s.len() - i,
{
    let ts = sp_tokenize_from(s, i)->Ok_0;
    match crate::lexer::sp_next_token(s, i) {
        crate::lexer::LexStep::Token { tok, next } => {
            if tok is Eof {
            } else {
                if i < next <= s.len() {
                    lemma_tokenize_wf(s, next);
                    let rest = sp_tokenize_from(s, next)->Ok_0;
                    assert(ts =~= seq![tok] + rest);
                    assert(ts.last() == rest.last());
                    assert forall|k: int| 0 <= k < ts.len() - 1 implies !(#[trigger] ts[k]
                        is Eof) by {
                        if k > 0 {
                            assert(ts[k] == rest[k - 1]);
                        }
                    }
                }
            }
        },
        crate::lexer::LexStep::Fail { pos, kind } => {},
    }
}

/// Recursive descent parser over a token stream produced by the lexer.
pub struct Parser {
    tokens: Vec<Token>,
    idx: usize,
}

impl Parser {
    /// The token stream, as spec values.
    pub closed spec fn toks(&self) -> Seq<SpecToken> {
        toks_view(self.tokens@)
    }

    /// The index of the current token.
    pub closed spec fn idx(&self) -> int {
        self.idx as int
    }

    /// Internal consistency: the stream is well formed and the index is
    /// within it.
    pub closed spec fn wf(&self) -> bool {
        wf_toks(self.toks()) && 0 <= self.idx() < self.toks().len()
    }

    /// Create a parser from an input string, tokenizing the whole input.
    /// A lexical error is returned as a `ParseError` carrying its
    /// character offset.
    pub fn new(input: &str) -> (r: Result<Parser, ParseError>)
        ensures
            match sp_tokenize_from(input@, 0) {
                Ok(ts) => {
                    &&& r is Ok
                    &&& r->Ok_0.wf()
                    &&& r->Ok_0.toks() == ts
                    &&& r->Ok_0.idx() == 0
                },
                Err((pos, kind)) => {
                    &&& r is Err
                    &&& r->Err_0.pos == pos
                    &&& r->Err_0.message@ == lex_fail_message(kind)
                },
            },
    {
        let mut lexer = Lexer::new(input);
        match lexer.tokenize() {
            Ok(tokens) => {
                proof {
                    lemma_tokenize_wf(input@, 0);
                }
                Ok(Parser { tokens, idx: 0 })
            },
            Err(e) => Err(ParseError { pos: e.pos, message: e.message }),
        }
    }

    /// Parse an expression and require that all input was consumed.
    pub fn parse(&mut self) -> (r: Result<Expr, ParseError>)
        requires
            old(self).wf(),
        ensures
            final(self).wf(),
            final(self).toks() == old(self).toks(),
            match sp_parse_full(old(self).toks(), old(self).idx()) {
                PStep::Done { v, next } => r is Ok && r->Ok_0@ == v,
                PStep::Fail { pos } => r is Err && r->Err_0.pos == pos,
            },
    {
        let (expr, j) = match Self::parse_or_expr(&self.tokens, self.idx) {
            Ok(p) => p,
            Err(e) => {
                return Err(e);
            },
        };
        self.idx = j;
        match &self.tokens[j] {
            Token::Eof => Ok(expr),
            t => {
                let mut m = "Unexpected token after expression: ".to_owned();
                m.append(token_desc(t).as_str());
                Err(ParseError { pos: j, message: m })
            },
        }
    }

    /// `or_expr = and_expr ( "OR" and_expr )*`
    #[verifier::loop_isolation(false)]
    fn parse_or_expr(tokens: &Vec<Token>, i: usize) -> (r: Result<(Expr, usize), ParseError>)
        requires
            wf_toks(toks_view(tokens@)),
            i < tokens.len(),
        ensures
            match sp_parse_or(toks_view(tokens@), i as int) {
                PStep::Done { v, next } => {
                    &&& r is Ok
                    &&& r->Ok_0.0@ == v
                    &&& r->Ok_0.1 == next
                    &&& i < r->Ok_0.1 < tokens.len()
                },
                PStep::Fail { pos } => r is Err && r->Err_0.pos == pos,
            },
        decreases tokens.len() - i, 4int,
    {
        let ghost ts = toks_view(tokens@);
        let (first, j0) = match Self::parse_and_expr(tokens, i) {
            Ok(p) => p,
            Err(e) => {
                return Err(e);
            },
        };
        let mut left = first;
        let mut j = j0;
        loop
            invariant
                i < j < tokens.len(),
                sp_parse_or(ts, i as int) == sp_or_tail(ts, left@, j as int),
            decreases tokens.len() - j,
        {
            let go = match &tokens[j] {
                Token::KwOr => true,
                _ => false,
            };
            if !go {
                return Ok((left, j));
            }
            let (right, j2) = match Self::parse_and_expr(tokens, j + 1) {
                Ok(p) => p,
                Err(e) => {
                    return Err(e);
                },
            };
            left = Expr::Or(Box::new(left), Box::new(right));
            j = j2;
        }
    }

    /// `and_expr = not_expr ( "AND" not_expr )*`
    #[verifier::loop_isolation(false)]
    fn parse_and_expr(tokens: &Vec<Token>, i: usize) -> (r: Result<(Expr, usize), ParseError>)
        requires
            wf_toks(toks_view(tokens@)),
            i < tokens.len(),
        ensures
            match sp_parse_and(toks_view(tokens@), i as int) {
                PStep::Done { v, next } => {
                    &&& r is Ok
                    &&& r->Ok_0.0@ == v
                    &&& r->Ok_0.1 == next
                    &&& i < r->Ok_0.1 < tokens.len()
                },
                PStep::Fail { pos } => r is Err && r->Err_0.pos == pos,
            },
        decreases tokens.len() - i, 3int,
    {
        let ghost ts = toks_view(tokens@);
        let (first, j0) = match Self::parse_not_expr(tokens, i) {
            Ok(p) => p,
            Err(e) => {
                return Err(e);
            },
        };
        let mut left = first;
        let mut j = j0;
        loop
            invariant
                i < j < tokens.len(),
                sp_parse_and(ts, i as int) == sp_and_tail(ts, left@, j as int),
            decreases tokens.len() - j,
        {
            let go = match &tokens[j] {
                Token::KwAnd => true,
                _ => false,
            };
            if !go {
                return Ok((left, j));
            }
            let (right, j2) = match Self::parse_not_expr(tokens, j + 1) {
                Ok(p) => p,
                Err(e) => {
                    return Err(e);
                },
            };
            left = Expr::And(Box::new(left), Box::new(right));
            j = j2;
        }
    }

    /// `not_expr = "NOT" not_expr | comparison`
    fn parse_not_expr(tokens: &Vec<Token>, i: usize) -> (r: Result<(Expr, usize), ParseError>)
        requires
            wf_toks(toks_view(tokens@)),
            i < tokens.len(),
        ensures
            match sp_parse_not(toks_view(tokens@), i as int) {
                PStep::Done { v, next } => {
                    &&& r is Ok
                    &&& r->Ok_0.0@ == v
                    &&& r->Ok_0.1 == next
                    &&& i < r->Ok_0.1 < tokens.len()
                },
                PStep::Fail { pos } => r is Err && r->Err_0.pos == pos,
            },
        decreases tokens.len() - i, 2int,
    {
        let is_not = match &tokens[i] {
            Token::KwNot => true,
            _ => false,
        };
        if is_not {
            match Self::parse_not_expr(tokens, i + 1) {
                Ok((e, j)) => Ok((Expr::Not(Box::new(e)), j)),
                Err(e) => Err(e),
            }
        } else {
            Self::parse_comparison(tokens, i)
        }
    }

    /// `comparison = op "(" or_expr "," or_expr ")" | value ( op value )?`
    fn parse_comparison(tokens: &Vec<Token>, i: usize) -> (r: Result<(Expr, usize), ParseError>)
        requires
            wf_toks(toks_view(tokens@)),
            i < tokens.len(),
        ensures
            match sp_parse_cmp(toks_view(tokens@), i as int) {
                PStep::Done { v, next } => {
                    &&& r is Ok
                    &&& r->Ok_0.0@ == v
                    &&& r->Ok_0.1 == next
                    &&& i < r->Ok_0.1 < tokens.len()
                },
                PStep::Fail { pos } => r is Err && r->Err_0.pos == pos,
            },
        decreases tokens.len() - i, 1int,
    {
        let op0 = op_of_token(&tokens[i]);
        let call_form = match op0 {
            Some(_) => match &tokens[i + 1] {
                Token::LParen => true,
                _ => false,
            },
            None => false,
        };
        if call_form {
            let op = match op0 {
                Some(op) => op,
                None => {
                    return Err(ParseError { pos: i, message: "Expected operator".to_owned() });
                },
            };
            let (l, j) = match Self::parse_or_expr(tokens, i + 2) {
                Ok(p) => p,
                Err(e) => {
                    return Err(e);
                },
            };
            let comma_ok = match &tokens[j] {
                Token::Comma => true,
                _ => false,
            };
            if !comma_ok {
                let mut m = "Expected Comma, got ".to_owned();
                m.append(token_desc(&tokens[j]).as_str());
                return Err(ParseError { pos: j, message: m });
            }
            let (rr, k) = match Self::parse_or_expr(tokens, j + 1) {
                Ok(p) => p,
                Err(e) => {
                    return Err(e);
                },
            };
            let rparen_ok = match &tokens[k] {
                Token::RParen => true,
                _ => false,
            };
            if !rparen_ok {
                let mut m = "Expected RParen, got ".to_owned();
                m.append(token_desc(&tokens[k]).as_str());
                return Err(ParseError { pos: k, message: m });
            }
            Ok((Expr::BinaryOp { op, left: Box::new(l), right: Box::new(rr) }, k + 1))
        } else {
            let (l, j) = match Self::parse_value(tokens, i) {
                Ok(p) => p,
                Err(e) => {
                    return Err(e);
                },
            };
            match op_of_token(&tokens[j]) {
                Some(op) => {
                    let (rr, k) = match Self::parse_value(tokens, j + 1) {
                        Ok(p) => p,
                        Err(e) => {
                            return Err(e);
                        },
                    };
                    Ok((Expr::BinaryOp { op, left: Box::new(l), right: Box::new(rr) }, k))
                },
                None => Ok((l, j)),
            }
        }
    }

    /// `value = STRING | IDENT | IDENT "(" args ")" | "(" or_expr ")"`
    fn parse_value(tokens: &Vec<Token>, i: usize) -> (r: Result<(Expr, usize), ParseError>)
        requires
            wf_toks(toks_view(tokens@)),
            i < tokens.len(),
        ensures
            match sp_parse_value(toks_view(tokens@), i as int) {
                PStep::Done { v, next } => {
                    &&& r is Ok
                    &&& r->Ok_0.0@ == v
                    &&& r->Ok_0.1 == next
                    &&& i < r->Ok_0.1 < tokens.len()
                },
                PStep::Fail { pos } => r is Err && r->Err_0.pos == pos,
            },
        decreases tokens.len() - i, 0int,
    {
        match &tokens[i] {
            Token::String(s) => Ok((Expr::StringLiteral(s.clone()), i + 1)),
            Token::Ident(name) => {
                let is_call = match &tokens[i + 1] {
                    Token::LParen => true,
                    _ => false,
                };
                if is_call {
                    Self::parse_func_call(tokens, i + 1, name.clone())
                } else if crate::text::str_eq(name.as_str(), "method") {
                    Ok((Expr::Ident(Ident::Method), i + 1))
                } else if crate::text::str_eq(name.as_str(), "path") {
                    Ok((Expr::Ident(Ident::Path), i + 1))
                } else if crate::text::str_eq(name.as_str(), "host") {
                    Ok((Expr::Ident(Ident::Host), i + 1))
                } else {
                    let mut m = "Unknown identifier '".to_owned();
                    m.append(name.as_str());
                    m.append("'. Expected: method, path, host, or function call");
                    Err(ParseError { pos: i, message: m })
                }
            },
            Token::LParen => {
                let (e, j) = match Self::parse_or_expr(tokens, i + 1) {
                    Ok(p) => p,
                    Err(e) => {
                        return Err(e);
                    },
                };
                let rparen_ok = match &tokens[j] {
                    Token::RParen => true,
                    _ => false,
                };
                if rparen_ok {
                    Ok((e, j + 1))
                } else {
                    let mut m = "Expected RParen, got ".to_owned();
                    m.append(token_desc(&tokens[j]).as_str());
                    Err(ParseError { pos: j, message: m })
                }
            },
            t => {
                let mut m = "Expected value, got ".to_owned();
                m.append(token_desc(t).as_str());
                Err(ParseError { pos: i, message: m })
            },
        }
    }

    /// A function call; `i` stands on the `"("` after the function name.
    #[verifier::loop_isolation(false)]
    fn parse_func_call(tokens: &Vec<Token>, i: usize, name: std::string::String) -> (r: Result<
        (Expr, usize),
        ParseError,
    >)
        requires
            wf_toks(toks_view(tokens@)),
            i < tokens.len(),
            toks_view(tokens@)[i as int] is LParen,
        ensures
            match sp_parse_call(toks_view(tokens@), name@, i as int) {
                PStep::Done { v, next } => {
                    &&& r is Ok
                    &&& r->Ok_0.0@ == v
                    &&& r->Ok_0.1 == next
                    &&& i < r->Ok_0.1 < tokens.len()
                },
                PStep::Fail { pos } => r is Err && r->Err_0.pos == pos,
            },
        decreases tokens.len() - i, 1int,
    {
        let ghost ts = toks_view(tokens@);
        let ghost name0 = name@;
        let empty = match &tokens[i + 1] {
            Token::RParen => true,
            _ => false,
        };
        if empty {
            proof {
                assert(exprs_view(Seq::<Expr>::empty()) =~= Seq::<SpecExpr>::empty());
            }
            return Ok((Expr::FuncCall { name, args: Vec::new() }, i + 2));
        }
        let mut args: Vec<Expr> = Vec::new();
        let mut j = i + 1;
        proof {
            assert(exprs_view(args@) =~= Seq::<SpecExpr>::empty());
        }
        loop
            invariant
                i < j < tokens.len(),
                match sp_parse_args(ts, j as int) {
                    AStep::Done { args: rest, next } => sp_parse_call(ts, name0, i as int)
                        == (PStep::Done {
                        v: SpecExpr::Call { name: name0, args: exprs_view(args@) + rest },
                        next,
                    }),
                    AStep::Fail { pos } => sp_parse_call(ts, name0, i as int) == (PStep::Fail {
                        pos,
                    }),
                },
            decreases tokens.len() - j,
        {
            let (a, j2) = match Self::parse_or_expr(tokens, j) {
                Ok(p) => p,
                Err(e) => {
                    return Err(e);
                },
            };
            let ghost ae = a;
            let ghost av = a@;
            let ghost old_args = args@;
            args.push(a);
            proof {
                lemma_exprs_view_push(old_args, ae);
            }
            let is_comma = match &tokens[j2] {
                Token::Comma => true,
                _ => false,
            };
            if is_comma {
                proof {
                    if sp_parse_args(ts, j2 + 1) is Done {
                        let rest2 = sp_parse_args(ts, j2 + 1)->Done_args;
                        assert(exprs_view(old_args) + (seq![av] + rest2) =~= exprs_view(args@)
                            + rest2);
                    }
                }
                j = j2 + 1;
            } else {
                let is_rparen = match &tokens[j2] {
                    Token::RParen => true,
                    _ => false,
                };
                if is_rparen {
                    proof {
                        assert(exprs_view(old_args) + seq![av] =~= exprs_view(args@));
                    }
                    return Ok((Expr::FuncCall { name, args }, j2 + 1));
                }
                let mut m = "Expected ',' or ')' in function call, got ".to_owned();
                m.append(token_desc(&tokens[j2]).as_str());
                return Err(ParseError { pos: j2, message: m });
            }
        }
    }
}

/// The binary operator a token stands for, if any.
fn op_of_token(t: &Token) -> (r: Option<BinOp>)
    ensures
        r == sp_op_of(t@),
{
    match t {
        Token::OpEq => Some(BinOp::Eq),
        Token::OpNeq => Some(BinOp::Neq),
        Token::OpStartsWith => Some(BinOp::StartsWith),
        Token::OpEndsWith => Some(BinOp::EndsWith),
        Token::OpContains => Some(BinOp::Contains),
        Token::OpMatches => Some(BinOp::Matches),
        _ => None,
    }
}

/// A short description of a token for diagnostics.
fn token_desc(t: &Token) -> std::string::String {
    match t {
        Token::String(s) => {
            let mut m = "String(\"".to_owned();
            m.append(s.as_str());
            m.append("\")");
            m
        },
        Token::Ident(s) => {
            let mut m = "Ident(\"".to_owned();
            m.append(s.as_str());
            m.append("\")");
            m
        },
        Token::LParen => "LParen".to_owned(),
        Token::RParen => "RParen".to_owned(),
        Token::Comma => "Comma".to_owned(),
        Token::OpEq => "OpEq".to_owned(),
        Token::OpNeq => "OpNeq".to_owned(),
        Token::OpStartsWith => "OpStartsWith".to_owned(),
        Token::OpEndsWith => "OpEndsWith".to_owned(),
        Token::OpContains => "OpContains".to_owned(),
        Token::OpMatches => "OpMatches".to_owned(),
        Token::KwAnd => "KwAnd".to_owned(),
        Token::KwOr => "KwOr".to_owned(),
        Token::KwNot => "KwNot".to_owned(),
        Token::Eof => "Eof".to_owned(),
    }
}

/// Parse an expression from a string.
pub fn parse(input: &str) -> (r: Result<Expr, ParseError>)
    ensures
        match sp_tokenize_from(input@, 0) {
            Ok(ts) => match sp_parse_full(ts, 0) {
                PStep::Done { v, next } => r is Ok && r->Ok_0@ == v,
                PStep::Fail { pos } => r is Err && r->Err_0.pos == pos,
            },
            Err((pos, kind)) => {
                &&& r is Err
                &&& r->Err_0.pos == pos
                &&& r->Err_0.message@ == lex_fail_message(kind)
            },
        },
{
    let mut parser = match Parser::new(input) {
        Ok(p) => p,
        Err(e) => {
            return Err(e);
        },
    };
    parser.parse()
}

} // verus!
