//! Type checker and compiler for the expression language.
//!
//! `sp_type_of` is the static type discipline; `sp_compile` is the one
//! program transformation: every `matches` operation whose pattern is a
//! string literal becomes a `RegexMatch` node holding a pattern compiled
//! ahead of evaluation. `Program::compile` accepts exactly the sources
//! that lex, parse, type to `Bool` at the root, and carry only valid,
//! literal regex patterns.

use vstd::prelude::*;
use vstd::string::StringExecFns;

use crate::ast::{exprs_view, lemma_exprs_view, BinOp, Expr, SpecExpr};
use crate::lexer::sp_tokenize_from;
use crate::parser::{sp_parse_full, PStep};
use crate::pattern::{regex_valid, CompiledRegex};
use crate::text::{str_eq, usize_to_string};

verus! {

/// Types in the expression language.
#[derive(Debug, Clone, Copy, PartialEq, Eq, Structural)]
pub enum Type {
    /// String type
    Str,
    /// String list type
    StrList,
    /// Boolean type
    Bool,
}

impl Type {
    /// The name of the type as it appears in diagnostics.
    pub fn name(&self) -> (r: &'static str)
        ensures
            *self is Str ==> r@ == "string"@,
            *self is StrList ==> r@ == "[]string"@,
            *self is Bool ==> r@ == "bool"@,
    {
        match self {
            Type::Str => "string",
            Type::StrList => "[]string",
            Type::Bool => "bool",
        }
    }
}

/// Compile-time error.
#[derive(Debug, Clone, PartialEq)]
pub struct CompileError {
    pub message: std::string::String,
}

/// The result type of a function call, given its name and argument types.
/// This is the signature table of the built-in functions.
pub open spec fn sp_sig(name: Seq<char>, ts: Seq<Type>) -> Option<Type> {
    if name == "header"@ {
        if ts.len() == 1 && ts[0] is Str {
            Some(Type::Str)
        } else {
            None
        }
    } else if name == "headerValues"@ {
        if ts.len() == 1 && ts[0] is Str {
            Some(Type::StrList)
        } else {
            None
        }
    } else if name == "headerList"@ {
        if ts.len() == 1 && ts[0] is Str {
            Some(Type::StrList)
        } else {
            None
        }
    } else if name == "contains"@ {
        if ts.len() == 2 && ts[0] is StrList && ts[1] is Str {
            Some(Type::Bool)
        } else {
            None
        }
    } else if name == "anyOf"@ || name == "allOf"@ {
        if ts.len() >= 2 && ts[0] is StrList && (forall|k: int|
            1 <= k < ts.len() ==> #[trigger] ts[k] is Str) {
            Some(Type::Bool)
        } else {
            None
        }
    } else {
        None
    }
}

/// The types of a list of expressions, or `None` if any fails to type.
pub open spec fn sp_types_of(args: Seq<SpecExpr>) -> Option<Seq<Type>>
    decreases args,
{
    if args.len() == 0 {
        Some(Seq::empty())
    } else {
        match (sp_types_of(args.drop_last()), sp_type_of(args.last())) {
            (Some(ts), Some(t)) => Some(ts.push(t)),
            _ => None,
        }
    }
}

/// The static type of an expression, or `None` if it is ill-typed.
///
/// The `matches` operator types only when its right operand is
/// syntactically a string literal that is a valid regex: expressions are
/// trusted configuration but their inputs are not, so dynamic patterns
/// are rejected, and invalid patterns are rejected before evaluation.
pub open spec fn sp_type_of(e: SpecExpr) -> Option<Type>
    decreases e,
{
    match e {
        SpecExpr::BoolLit(_) => Some(Type::Bool),
        SpecExpr::StrLit(_) => Some(Type::Str),
        SpecExpr::Ident(_) => Some(Type::Str),
        SpecExpr::Call { name, args } => match sp_types_of(args) {
            Some(ts) => sp_sig(name, ts),
            None => None,
        },
        SpecExpr::Binary { op, left, right } => {
            let lt = sp_type_of(*left);
            let rt = sp_type_of(*right);
            match op {
                BinOp::Eq | BinOp::Neq | BinOp::StartsWith | BinOp::EndsWith => {
                    if lt == Some(Type::Str) && rt == Some(Type::Str) {
                        Some(Type::Bool)
                    } else {
                        None
                    }
                },
                BinOp::Matches => {
                    if lt == Some(Type::Str) && *right is StrLit && regex_valid(
                        (*right)->StrLit_0,
                    ) {
                        Some(Type::Bool)
                    } else {
                        None
                    }
                },
                BinOp::Contains => {
                    if lt == Some(Type::StrList) && rt == Some(Type::Str) {
                        Some(Type::Bool)
                    } else {
                        None
                    }
                },
            }
        },
        SpecExpr::Not(inner) => {
            if sp_type_of(*inner) == Some(Type::Bool) {
                Some(Type::Bool)
            } else {
                None
            }
        },
        SpecExpr::And(l, r) => {
            if sp_type_of(*l) == Some(Type::Bool) && sp_type_of(*r) == Some(Type::Bool) {
                Some(Type::Bool)
            } else {
                None
            }
        },
        SpecExpr::Or(l, r) => {
            if sp_type_of(*l) == Some(Type::Bool) && sp_type_of(*r) == Some(Type::Bool) {
                Some(Type::Bool)
            } else {
                None
            }
        },
        SpecExpr::RegexMatch { expr, pattern } => {
            if sp_type_of(*expr) == Some(Type::Str) {
                Some(Type::Bool)
            } else {
                None
            }
        },
    }
}

/// The compiled form of each expression in a list.
pub open spec fn sp_compile_args(args: Seq<SpecExpr>) -> Seq<SpecExpr>
    decreases args,
{
    if args.len() == 0 {
        Seq::empty()
    } else {
        sp_compile_args(args.drop_last()).push(sp_compile(args.last()))
    }
}

/// The compiled form of an expression: every `matches` operation with a
/// literal pattern becomes a `RegexMatch` node; everything else keeps its
/// shape.
pub open spec fn sp_compile(e: SpecExpr) -> SpecExpr
    decreases e,
{
    match e {
        SpecExpr::BoolLit(_) => e,
        SpecExpr::StrLit(_) => e,
        SpecExpr::Ident(_) => e,
        SpecExpr::Call { name, args } => SpecExpr::Call { name, args: sp_compile_args(args) },
        SpecExpr::Binary { op, left, right } => {
            if op == BinOp::Matches && *right is StrLit {
                SpecExpr::RegexMatch {
                    expr: Box::new(sp_compile(*left)),
                    pattern: (*right)->StrLit_0,
                }
            } else {
                SpecExpr::Binary {
                    op,
                    left: Box::new(sp_compile(*left)),
                    right: Box::new(sp_compile(*right)),
                }
            }
        },
        SpecExpr::Not(inner) => SpecExpr::Not(Box::new(sp_compile(*inner))),
        SpecExpr::And(l, r) => SpecExpr::And(Box::new(sp_compile(*l)), Box::new(sp_compile(*r))),
        SpecExpr::Or(l, r) => SpecExpr::Or(Box::new(sp_compile(*l)), Box::new(sp_compile(*r))),
        SpecExpr::RegexMatch { expr, pattern } => SpecExpr::RegexMatch {
            expr: Box::new(sp_compile(*expr)),
            pattern,
        },
    }
}

/// No `matches` operation left in any expression of a list.
pub open spec fn no_matches_args(args: Seq<SpecExpr>) -> bool
    decreases args,
{
    if args.len() == 0 {
        true
    } else {
        no_matches_args(args.drop_last()) && no_matches_op(args.last())
    }
}

/// No `matches` operation left anywhere in the expression: every regex
/// it can ever consult was compiled ahead of time.
pub open spec fn no_matches_op(e: SpecExpr) -> bool
    decreases e,
{
    match e {
        SpecExpr::BoolLit(_) => true,
        SpecExpr::StrLit(_) => true,
        SpecExpr::Ident(_) => true,
        SpecExpr::Call { name, args } => no_matches_args(args),
        SpecExpr::Binary { op, left, right } => {
            &&& op != BinOp::Matches
            &&& no_matches_op(*left)
            &&& no_matches_op(*right)
        },
        SpecExpr::Not(inner) => no_matches_op(*inner),
        SpecExpr::And(l, r) => no_matches_op(*l) && no_matches_op(*r),
        SpecExpr::Or(l, r) => no_matches_op(*l) && no_matches_op(*r),
        SpecExpr::RegexMatch { expr, pattern } => no_matches_op(*expr),
    }
}

/// Some expression in the list contains a `matches` whose pattern is not
/// a string literal.
pub open spec fn any_dynamic_args(args: Seq<SpecExpr>) -> bool
    decreases args,
{
    if args.len() == 0 {
        false
    } else {
        any_dynamic_args(args.drop_last()) || has_dynamic_matches(args.last())
    }
}

/// The expression contains a `matches` whose pattern is not a string
/// literal.
pub open spec fn has_dynamic_matches(e: SpecExpr) -> bool
    decreases e,
{
    match e {
        SpecExpr::BoolLit(_) => false,
        SpecExpr::StrLit(_) => false,
        SpecExpr::Ident(_) => false,
        SpecExpr::Call { name, args } => any_dynamic_args(args),
        SpecExpr::Binary { op, left, right } => {
            ||| (op == BinOp::Matches && !(*right is StrLit))
            ||| has_dynamic_matches(*left)
            ||| has_dynamic_matches(*right)
        },
        SpecExpr::Not(inner) => has_dynamic_matches(*inner),
        SpecExpr::And(l, r) => has_dynamic_matches(*l) || has_dynamic_matches(*r),
        SpecExpr::Or(l, r) => has_dynamic_matches(*l) || has_dynamic_matches(*r),
        SpecExpr::RegexMatch { expr, pattern } => has_dynamic_matches(*expr),
    }
}

/// `sp_types_of` is the pointwise typing of the list.
pub proof fn lemma_types_of_index(vs: Seq<SpecExpr>)
    ensures
        sp_types_of(vs) is Some ==> {
            &&& sp_types_of(vs)->Some_0.len() == vs.len()
            &&& forall|k: int|
                0 <= k < vs.len() ==> sp_type_of(#[trigger] vs[k]) == Some(
                    sp_types_of(vs)->Some_0[k],
                )
        },
        sp_types_of(vs) is None ==> exists|k: int|
            0 <= k < vs.len() && sp_type_of(#[trigger] vs[k]) is None,
        (forall|k: int| 0 <= k < vs.len() ==> sp_type_of(#[trigger] vs[k]) is Some)
            ==> sp_types_of(vs) is Some,
    decreases vs,
{
    if vs.len() > 0 {
        lemma_types_of_index(vs.drop_last());
        assert(sp_types_of(vs) == match (sp_types_of(vs.drop_last()), sp_type_of(vs.last())) {
            (Some(ts), Some(t)) => Some::<Seq<Type>>(ts.push(t)),
            _ => None::<Seq<Type>>,
        });
        assert forall|k: int| 0 <= k < vs.len() - 1 implies #[trigger] vs[k] == vs.drop_last()[
            k
        ] by {}
        assert(vs.last() == vs[vs.len() - 1]);
    }
}

/// `sp_compile_args` is the pointwise compilation of the list.
pub proof fn lemma_compile_args_index(vs: Seq<SpecExpr>)
    ensures
        sp_compile_args(vs).len() == vs.len(),
        forall|k: int|
            0 <= k < vs.len() ==> sp_compile_args(vs)[k] == sp_compile(#[trigger] vs[k]),
    decreases vs,
{
    if vs.len() > 0 {
        lemma_compile_args_index(vs.drop_last());
        assert(sp_compile_args(vs) == sp_compile_args(vs.drop_last()).push(
            sp_compile(vs.last()),
        ));
        assert forall|k: int| 0 <= k < vs.len() - 1 implies #[trigger] vs[k] == vs.drop_last()[
            k
        ] by {}
        assert(vs.last() == vs[vs.len() - 1]);
    }
}

/// Only a string literal compiles to a string literal, and it compiles
/// to itself.
pub proof fn lemma_compile_strlit(e: SpecExpr)
    ensures
        sp_compile(e) is StrLit <==> e is StrLit,
        e is StrLit ==> sp_compile(e) == e,
{
    match e {
        SpecExpr::BoolLit(_) => {},
        SpecExpr::StrLit(_) => {},
        SpecExpr::Ident(_) => {},
        SpecExpr::Call { name, args } => {},
        SpecExpr::Binary { op, left, right } => {},
        SpecExpr::Not(inner) => {},
        SpecExpr::And(l, r) => {},
        SpecExpr::Or(l, r) => {},
        SpecExpr::RegexMatch { expr, pattern } => {},
    }
}

/// Compilation preserves the static type and leaves no `matches`
/// operation behind (the lists' version).
pub proof fn lemma_compile_preserves_types_args(args: Seq<SpecExpr>)
    ensures
        sp_types_of(args) is Some ==> {
            &&& sp_types_of(sp_compile_args(args)) == sp_types_of(args)
            &&& no_matches_args(sp_compile_args(args))
        },
    decreases args,
{
    if args.len() > 0 {
        lemma_compile_preserves_types_args(args.drop_last());
        lemma_compile_preserves_type(args.last());
        assert(sp_compile_args(args) == sp_compile_args(args.drop_last()).push(
            sp_compile(args.last()),
        ));
        if sp_types_of(args) is Some {
            let ca = sp_compile_args(args);
            assert(ca.len() > 0);
            assert(ca.drop_last() =~= sp_compile_args(args.drop_last()));
            assert(ca.last() == sp_compile(args.last()));
        }
    }
}

/// Compilation preserves the static type and leaves no `matches`
/// operation behind.
pub proof fn lemma_compile_preserves_type(e: SpecExpr)
    ensures
        sp_type_of(e) is Some ==> {
            &&& sp_type_of(sp_compile(e)) == sp_type_of(e)
            &&& no_matches_op(sp_compile(e))
        },
    decreases e,
{
    match e {
        SpecExpr::BoolLit(_) => {},
        SpecExpr::StrLit(_) => {},
        SpecExpr::Ident(_) => {},
        SpecExpr::Call { name, args } => {
            lemma_compile_preserves_types_args(args);
        },
        SpecExpr::Binary { op, left, right } => {
            lemma_compile_preserves_type(*left);
            lemma_compile_preserves_type(*right);
        },
        SpecExpr::Not(inner) => {
            lemma_compile_preserves_type(*inner);
        },
        SpecExpr::And(l, r) => {
            lemma_compile_preserves_type(*l);
            lemma_compile_preserves_type(*r);
        },
        SpecExpr::Or(l, r) => {
            lemma_compile_preserves_type(*l);
            lemma_compile_preserves_type(*r);
        },
        SpecExpr::RegexMatch { expr, pattern } => {
            lemma_compile_preserves_type(*expr);
        },
    }
}

/// Regex literal enforcement: an expression containing a `matches` whose
/// pattern is not syntactically a string literal never types, so the
/// compiler rejects it (the lists' version).
pub proof fn lemma_dynamic_pattern_rejected_args(args: Seq<SpecExpr>)
    ensures
        any_dynamic_args(args) ==> sp_types_of(args) is None,
    decreases args,
{
    if args.len() > 0 {
        lemma_dynamic_pattern_rejected_args(args.drop_last());
        lemma_dynamic_pattern_rejected(args.last());
    }
}

/// Regex literal enforcement: an expression containing a `matches` whose
/// pattern is not syntactically a string literal never types, so the
/// compiler rejects it.
pub proof fn lemma_dynamic_pattern_rejected(e: SpecExpr)
    ensures
        has_dynamic_matches(e) ==> sp_type_of(e) is None,
    decreases e,
{
    match e {
        SpecExpr::BoolLit(_) => {},
        SpecExpr::StrLit(_) => {},
        SpecExpr::Ident(_) => {},
        SpecExpr::Call { name, args } => {
            lemma_dynamic_pattern_rejected_args(args);
        },
        SpecExpr::Binary { op, left, right } => {
            lemma_dynamic_pattern_rejected(*left);
            lemma_dynamic_pattern_rejected(*right);
        },
        SpecExpr::Not(inner) => {
            lemma_dynamic_pattern_rejected(*inner);
        },
        SpecExpr::And(l, r) => {
            lemma_dynamic_pattern_rejected(*l);
            lemma_dynamic_pattern_rejected(*r);
        },
        SpecExpr::Or(l, r) => {
            lemma_dynamic_pattern_rejected(*l);
            lemma_dynamic_pattern_rejected(*r);
        },
        SpecExpr::RegexMatch { expr, pattern } => {
            lemma_dynamic_pattern_rejected(*expr);
        },
    }
}

/// The message reported when the pattern of `matches` is not a string
/// literal.
pub open spec fn dyn_pattern_msg() -> Seq<char> {
    "Operator matches requires a string literal as the pattern; dynamic patterns are not allowed"@
}

/// The name of a type as it appears in diagnostics.
pub open spec fn sp_type_name(t: Type) -> Seq<char> {
    match t {
        Type::Str => "string"@,
        Type::StrList => "[]string"@,
        Type::Bool => "bool"@,
    }
}

/// What `Program::compile` accepts and produces: the source must lex,
/// parse, type to `Bool` at the root; the result is the compiled root.
pub open spec fn sp_compile_src(s: Seq<char>) -> Option<SpecExpr> {
    match sp_tokenize_from(s, 0) {
        Err(_) => None,
        Ok(ts) => match sp_parse_full(ts, 0) {
            PStep::Fail { pos } => None,
            PStep::Done { v, next } => {
                if sp_type_of(v) == Some(Type::Bool) {
                    Some(sp_compile(v))
                } else {
                    None
                }
            },
        },
    }
}

/// A compiled program ready for evaluation.
#[derive(Debug)]
pub struct Program {
    pub root: Expr,
}

impl Program {
    /// A well-formed program: its root types to `Bool` and holds no
    /// `matches` operation, only pre-compiled `RegexMatch` nodes.
    pub open spec fn wf(&self) -> bool {
        &&& sp_type_of(self.root@) == Some(Type::Bool)
        &&& no_matches_op(self.root@)
    }

    /// Compile an expression from a string: parse, type check, and
    /// pre-compile every regex pattern.
    pub fn compile(input: &str) -> (r: Result<Program, CompileError>)
        ensures
            r is Ok <==> sp_compile_src(input@) is Some,
            r is Ok ==> r->Ok_0.root@ == sp_compile_src(input@)->Some_0 && r->Ok_0.wf(),
            (match sp_tokenize_from(input@, 0) {
                Ok(ts) => sp_parse_full(ts, 0) is Fail,
                Err(_) => true,
            }) ==> r is Err && (exists|rest: Seq<char>|
                r->Err_0.message@ == "Parse error: "@ + rest),
            match sp_tokenize_from(input@, 0) {
                Ok(ts) => match sp_parse_full(ts, 0) {
                    PStep::Done { v, next } => (sp_type_of(v) is Some && sp_type_of(v) != Some(
                        Type::Bool,
                    )) ==> r is Err && r->Err_0.message@
                        == "Top-level expression must be boolean, got "@ + sp_type_name(
                        sp_type_of(v)->Some_0,
                    ),
                    PStep::Fail { pos } => true,
                },
                Err(_) => true,
            },
    {
        let parsed = match crate::parser::parse(input) {
            Ok(e) => e,
            Err(pe) => {
                let mut m = "Parse error: ".to_owned();
                m.append(pe.message.as_str());
                return Err(CompileError { message: m });
            },
        };
        let ghost pv = parsed@;
        let (t, root) = match type_check(parsed) {
            Ok(p) => p,
            Err(ce) => {
                return Err(ce);
            },
        };
        if t != Type::Bool {
            let mut m = "Top-level expression must be boolean, got ".to_owned();
            m.append(t.name());
            return Err(CompileError { message: m });
        }
        proof {
            lemma_compile_preserves_type(pv);
        }
        Ok(Program { root })
    }
}

/// Regex literal enforcement at the compile boundary: a source whose
/// parsed form contains a `matches` with a non-literal pattern is never
/// accepted.
pub proof fn lemma_compile_src_rejects_dynamic(s: Seq<char>)
    ensures
        match sp_tokenize_from(s, 0) {
            Ok(ts) => match sp_parse_full(ts, 0) {
                PStep::Done { v, next } => has_dynamic_matches(v) ==> sp_compile_src(s) is None,
                PStep::Fail { pos } => true,
            },
            Err(_) => true,
        },
{
    match sp_tokenize_from(s, 0) {
        Ok(ts) => {
            match sp_parse_full(ts, 0) {
                PStep::Done { v, next } => {
                    lemma_dynamic_pattern_rejected(v);
                },
                PStep::Fail { pos } => {},
            }
        },
        Err(_) => {},
    }
}

/// Ahead-of-time regex compilation: every program the compiler accepts
/// holds no `matches` operation — only `RegexMatch` nodes with patterns
/// compiled up front — and its root types to `Bool`.
pub proof fn lemma_compile_src_wf(s: Seq<char>)
    ensures
        sp_compile_src(s) is Some ==> {
            &&& no_matches_op(sp_compile_src(s)->Some_0)
            &&& sp_type_of(sp_compile_src(s)->Some_0) == Some(Type::Bool)
        },
{
    if sp_compile_src(s) is Some {
        match sp_tokenize_from(s, 0) {
            Ok(ts) => {
                match sp_parse_full(ts, 0) {
                    PStep::Done { v, next } => {
                        lemma_compile_preserves_type(v);
                    },
                    PStep::Fail { pos } => {},
                }
            },
            Err(_) => {},
        }
    }
}

/// The name of an operator as it appears in diagnostics.
fn op_name(op: &BinOp) -> &'static str {
    match op {
        BinOp::Eq => "==",
        BinOp::Neq => "!=",
        BinOp::StartsWith => "startsWith",
        BinOp::EndsWith => "endsWith",
        BinOp::Contains => "contains",
        BinOp::Matches => "matches",
    }
}

/// Build the message `"Operator OP requires string operands, got T on SIDE"`.
fn operand_msg(op: &BinOp, kind: &str, t: Type, side: &str) -> std::string::String {
    let mut m = "Operator ".to_owned();
    m.append(op_name(op));
    m.append(" requires ");
    m.append(kind);
    m.append(", got ");
    m.append(t.name());
    m.append(side);
    m
}

/// Type check an expression, rewriting `matches` into `RegexMatch`.
/// Returns the type and the compiled expression.
pub fn type_check(expr: Expr) -> (r: Result<(Type, Expr), CompileError>)
    ensures
        match sp_type_of(expr@) {
            Some(t) => {
                &&& r is Ok
                &&& r->Ok_0.0 == t
                &&& r->Ok_0.1@ == sp_compile(expr@)
            },
            None => {
                &&& r is Err
                &&& (match expr@ {
                    SpecExpr::Binary { op, left, right } => {
                        (op == BinOp::Matches && sp_type_of(*left) == Some(Type::Str)
                            && sp_type_of(*right) is Some && !(*right is StrLit))
                            ==> r->Err_0.message@ == dyn_pattern_msg()
                    },
                    _ => true,
                })
                &&& (match expr@ {
                    SpecExpr::Binary { op, left, right } => {
                        (op == BinOp::Matches && sp_type_of(*left) == Some(Type::Str) && *right
                            is StrLit && !regex_valid((*right)->StrLit_0)) ==> exists|
                            rest: Seq<char>,
                        |
                            r->Err_0.message@ == "Invalid regex pattern '"@ + (*right)->StrLit_0
                                + "': "@ + rest
                    },
                    _ => true,
                })
            },
        },
    decreases expr@,
{
    match expr {
        Expr::BoolLiteral(b) => Ok((Type::Bool, Expr::BoolLiteral(b))),
        Expr::StringLiteral(s) => Ok((Type::Str, Expr::StringLiteral(s))),
        Expr::Ident(id) => Ok((Type::Str, Expr::Ident(id))),
        Expr::BinaryOp { op, left, right } => {
            let ghost lv = (*left)@;
            let ghost rv = (*right)@;
            let (lt, lc) = match type_check(*left) {
                Ok(p) => p,
                Err(e) => {
                    return Err(e);
                },
            };
            let (rt, rc) = match type_check(*right) {
                Ok(p) => p,
                Err(e) => {
                    return Err(e);
                },
            };
            match op {
                BinOp::Eq | BinOp::Neq | BinOp::StartsWith | BinOp::EndsWith => {
                    if lt != Type::Str {
                        return Err(
                            CompileError {
                                message: operand_msg(&op, "string operands", lt, " on left"),
                            },
                        );
                    }
                    if rt != Type::Str {
                        return Err(
                            CompileError {
                                message: operand_msg(&op, "string operands", rt, " on right"),
                            },
                        );
                    }
                    Ok(
                        (
                            Type::Bool,
                            Expr::BinaryOp { op, left: Box::new(lc), right: Box::new(rc) },
                        ),
                    )
                },
                BinOp::Matches => {
                    if lt != Type::Str {
                        return Err(
                            CompileError {
                                message: operand_msg(&op, "string operands", lt, " on left"),
                            },
                        );
                    }
                    proof {
                        lemma_compile_strlit(rv);
                    }
                    match rc {
                        Expr::StringLiteral(p) => {
                            match CompiledRegex::new(p.as_str()) {
                                Ok(cr) => Ok(
                                    (
                                        Type::Bool,
                                        Expr::RegexMatch { expr: Box::new(lc), regex: cr },
                                    ),
                                ),
                                Err(etext) => {
                                    let mut m = "Invalid regex pattern '".to_owned();
                                    m.append(p.as_str());
                                    m.append("': ");
                                    m.append(etext.as_str());
                                    proof {
                                        assert(m@ =~= "Invalid regex pattern '"@ + rv->StrLit_0
                                            + "': "@ + etext@);
                                    }
                                    Err(CompileError { message: m })
                                },
                            }
                        },
                        _ => Err(
                            CompileError {
                                message:
                                    "Operator matches requires a string literal as the pattern; dynamic patterns are not allowed".to_owned(),
                            },
                        ),
                    }
                },
                BinOp::Contains => {
                    if lt != Type::StrList {
                        return Err(
                            CompileError {
                                message: operand_msg(
                                    &op,
                                    "[]string as first operand",
                                    lt,
                                    "",
                                ),
                            },
                        );
                    }
                    if rt != Type::Str {
                        return Err(
                            CompileError {
                                message: operand_msg(
                                    &op,
                                    "string as second operand",
                                    rt,
                                    "",
                                ),
                            },
                        );
                    }
                    Ok(
                        (
                            Type::Bool,
                            Expr::BinaryOp { op, left: Box::new(lc), right: Box::new(rc) },
                        ),
                    )
                },
            }
        },
        Expr::Not(inner) => {
            let (t, c) = match type_check(*inner) {
                Ok(p) => p,
                Err(e) => {
                    return Err(e);
                },
            };
            if t != Type::Bool {
                let mut m = "NOT operator requires bool operand, got ".to_owned();
                m.append(t.name());
                return Err(CompileError { message: m });
            }
            Ok((Type::Bool, Expr::Not(Box::new(c))))
        },
        Expr::And(l, r) => {
            let (lt, lc) = match type_check(*l) {
                Ok(p) => p,
                Err(e) => {
                    return Err(e);
                },
            };
            let (rt, rc) = match type_check(*r) {
                Ok(p) => p,
                Err(e) => {
                    return Err(e);
                },
            };
            if lt != Type::Bool {
                let mut m = "Boolean operator requires bool operands, got ".to_owned();
                m.append(lt.name());
                m.append(" on left");
                return Err(CompileError { message: m });
            }
            if rt != Type::Bool {
                let mut m = "Boolean operator requires bool operands, got ".to_owned();
                m.append(rt.name());
                m.append(" on right");
                return Err(CompileError { message: m });
            }
            Ok((Type::Bool, Expr::And(Box::new(lc), Box::new(rc))))
        },
        Expr::Or(l, r) => {
            let (lt, lc) = match type_check(*l) {
                Ok(p) => p,
                Err(e) => {
                    return Err(e);
                },
            };
            let (rt, rc) = match type_check(*r) {
                Ok(p) => p,
                Err(e) => {
                    return Err(e);
                },
            };
            if lt != Type::Bool {
                let mut m = "Boolean operator requires bool operands, got ".to_owned();
                m.append(lt.name());
                m.append(" on left");
                return Err(CompileError { message: m });
            }
            if rt != Type::Bool {
                let mut m = "Boolean operator requires bool operands, got ".to_owned();
                m.append(rt.name());
                m.append(" on right");
                return Err(CompileError { message: m });
            }
            Ok((Type::Bool, Expr::Or(Box::new(lc), Box::new(rc))))
        },
        Expr::RegexMatch { expr: inner, regex } => {
            let (t, c) = match type_check(*inner) {
                Ok(p) => p,
                Err(e) => {
                    return Err(e);
                },
            };
            if t != Type::Str {
                let mut m = "Regex match requires string operand, got ".to_owned();
                m.append(t.name());
                return Err(CompileError { message: m });
            }
            Ok((Type::Bool, Expr::RegexMatch { expr: Box::new(c), regex }))
        },
        Expr::FuncCall { name, args } => type_check_function(name, args),
    }
}

/// Type check a function call. Checks the arity and the argument types
/// against the signature table and compiles the arguments.
#[verifier::loop_isolation(false)]
pub fn type_check_function(name: std::string::String, args: Vec<Expr>) -> (r: Result<
    (Type, Expr),
    CompileError,
>)
    ensures
        match sp_type_of(SpecExpr::Call { name: name@, args: exprs_view(args@) }) {
            Some(t) => {
                &&& r is Ok
                &&& r->Ok_0.0 == t
                &&& r->Ok_0.1@ == sp_compile(
                    SpecExpr::Call { name: name@, args: exprs_view(args@) },
                )
            },
            None => r is Err,
        },
    decreases exprs_view(args@),
{
    let ghost ga = args@;
    let ghost vs = exprs_view(args@);
    let ghost name0 = name@;
    proof {
        lemma_exprs_view(ga);
        lemma_types_of_index(vs);
        lemma_compile_args_index(vs);
        assert(sp_type_of(SpecExpr::Call { name: name0, args: vs }) == (match sp_types_of(vs) {
            Some(ts) => sp_sig(name0, ts),
            None => None::<Type>,
        }));
        assert(sp_compile(SpecExpr::Call { name: name0, args: vs }) == (SpecExpr::Call {
            name: name0,
            args: sp_compile_args(vs),
        }));
    }
    let n = args.len();
    let unary: Option<(&'static str, Type)> = if str_eq(name.as_str(), "header") {
        Some(("header", Type::Str))
    } else if str_eq(name.as_str(), "headerValues") {
        Some(("headerValues", Type::StrList))
    } else if str_eq(name.as_str(), "headerList") {
        Some(("headerList", Type::StrList))
    } else {
        None
    };
    match unary {
        Some((fname, rtype)) => {
            if n != 1 {
                let mut m = "Function '".to_owned();
                m.append(fname);
                m.append("' expects 1 argument, got ");
                m.append(usize_to_string(n).as_str());
                return Err(CompileError { message: m });
            }
            let mut args2 = args;
            let a = args2.remove(0);
            proof {
                assert(a == ga[0]);
                assert(vs[0] == ga[0]@);
                assert(a@ == vs[0]);
                assert(decreases_to!(vs => vs[0]));
            }
            let (t, c) = match type_check(a) {
                Ok(p) => p,
                Err(e) => {
                    return Err(e);
                },
            };
            if t != Type::Str {
                let mut m = "Function '".to_owned();
                m.append(fname);
                m.append("' expects string argument, got ");
                m.append(t.name());
                return Err(CompileError { message: m });
            }
            let mut out_args: Vec<Expr> = Vec::new();
            out_args.push(c);
            proof {
                lemma_exprs_view(out_args@);
                assert(exprs_view(out_args@) =~= sp_compile_args(vs));
                assert(forall|k: int| 0 <= k < 1 ==> sp_type_of(#[trigger] vs[k]) is Some);
            }
            return Ok((rtype, Expr::FuncCall { name, args: out_args }));
        },
        None => {},
    }
    if str_eq(name.as_str(), "contains") {
        if n != 2 {
            let mut m = "Function 'contains' expects 2 arguments, got ".to_owned();
            m.append(usize_to_string(n).as_str());
            return Err(CompileError { message: m });
        }
        let mut args2 = args;
        let a0 = args2.remove(0);
        let a1 = args2.remove(0);
        proof {
            ga.remove_ensures(0);
            assert(a0 == ga[0]);
            assert(a1 == ga.remove(0)[0]);
            assert(ga.remove(0)[0] == ga[1]);
            assert(vs[0] == ga[0]@);
            assert(vs[1] == ga[1]@);
            assert(a0@ == vs[0]);
            assert(a1@ == vs[1]);
            assert(decreases_to!(vs => vs[0]));
            assert(decreases_to!(vs => vs[1]));
        }
        let (t0, c0) = match type_check(a0) {
            Ok(p) => p,
            Err(e) => {
                return Err(e);
            },
        };
        let (t1, c1) = match type_check(a1) {
            Ok(p) => p,
            Err(e) => {
                return Err(e);
            },
        };
        if t0 != Type::StrList {
            let mut m = "Function 'contains' expects []string as first argument, got ".to_owned();
            m.append(t0.name());
            return Err(CompileError { message: m });
        }
        if t1 != Type::Str {
            let mut m = "Function 'contains' expects string as second argument, got ".to_owned();
            m.append(t1.name());
            return Err(CompileError { message: m });
        }
        let mut out_args: Vec<Expr> = Vec::new();
        out_args.push(c0);
        out_args.push(c1);
        proof {
            lemma_exprs_view(out_args@);
            assert(forall|k: int| 0 <= k < 2 ==> sp_type_of(#[trigger] vs[k]) is Some);
            assert(sp_types_of(vs) is Some);
            let ts = sp_types_of(vs)->Some_0;
            assert(sp_type_of(vs[0]) == Some(ts[0]));
            assert(sp_type_of(vs[1]) == Some(ts[1]));
            assert(sp_sig(name0, ts) == Some(Type::Bool));
            assert(exprs_view(out_args@) =~= sp_compile_args(vs)) by {
                assert(exprs_view(out_args@).len() == 2);
                assert(exprs_view(out_args@)[0] == out_args@[0]@);
                assert(exprs_view(out_args@)[1] == out_args@[1]@);
                assert(sp_compile_args(vs)[0] == sp_compile(vs[0]));
                assert(sp_compile_args(vs)[1] == sp_compile(vs[1]));
            }
        }
        return Ok((Type::Bool, Expr::FuncCall { name, args: out_args }));
    }
    let is_any = str_eq(name.as_str(), "anyOf");
    let is_all = str_eq(name.as_str(), "allOf");
    if is_any || is_all {
        let fname: &'static str = if is_any {
            "anyOf"
        } else {
            "allOf"
        };
        if n < 2 {
            let mut m = "Function '".to_owned();
            m.append(fname);
            m.append("' expects at least 2 arguments, got ");
            m.append(usize_to_string(n).as_str());
            return Err(CompileError { message: m });
        }
        let mut args2 = args;
        let a0 = args2.remove(0);
        proof {
            assert(a0@ == vs[0]);
            assert(decreases_to!(vs => vs[0]));
            assert(args2@ =~= ga.subrange(1, n as int));
        }
        let (t0, c0) = match type_check(a0) {
            Ok(p) => p,
            Err(e) => {
                return Err(e);
            },
        };
        if t0 != Type::StrList {
            let mut m = "Function '".to_owned();
            m.append(fname);
            m.append("' expects []string as first argument, got ");
            m.append(t0.name());
            return Err(CompileError { message: m });
        }
        let mut compiled: Vec<Expr> = Vec::new();
        compiled.push(c0);
        let mut i: usize = 1;
        while args2.len() > 0
            invariant
                1 <= i <= n,
                n == vs.len(),
                i + args2.len() == n,
                args2@ == ga.subrange(i as int, n as int),
                compiled@.len() == i,
                forall|k: int| 0 <= k < i ==> (#[trigger] compiled@[k])@ == sp_compile(vs[k]),
                sp_type_of(vs[0]) == Some(Type::StrList),
                forall|k: int| 1 <= k < i ==> sp_type_of(#[trigger] vs[k]) == Some(Type::Str),
            decreases args2.len(),
        {
            let ghost old_rest = args2@;
            let a = args2.remove(0);
            proof {
                old_rest.remove_ensures(0);
                assert(a == old_rest[0]);
                assert(old_rest[0] == ga[i as int]);
                assert(vs[i as int] == ga[i as int]@);
                assert(a@ == vs[i as int]);
                assert(args2@ =~= ga.subrange(i + 1 as int, n as int)) by {
                    assert(args2@ == old_rest.remove(0));
                }
                assert(decreases_to!(vs => vs[i as int]));
            }
            let (t, c) = match type_check(a) {
                Ok(p) => p,
                Err(e) => {
                    return Err(e);
                },
            };
            if t != Type::Str {
                let mut m = "Function '".to_owned();
                m.append(fname);
                m.append("' expects string arguments, got ");
                m.append(t.name());
                m.append(" at position ");
                m.append(usize_to_string(i + 1).as_str());
                return Err(CompileError { message: m });
            }
            compiled.push(c);
            i = i + 1;
        }
        proof {
            assert(forall|k: int| 0 <= k < n ==> sp_type_of(#[trigger] vs[k]) is Some);
            assert(sp_types_of(vs) is Some);
            let ts = sp_types_of(vs)->Some_0;
            assert(sp_type_of(vs[0]) == Some(ts[0]));
            assert(ts[0] is StrList);
            assert(forall|k: int| 1 <= k < n ==> #[trigger] ts[k] is Str) by {
                assert forall|k: int| 1 <= k < n implies #[trigger] ts[k] is Str by {
                    assert(sp_type_of(vs[k]) == Some(Type::Str));
                    assert(sp_type_of(vs[k]) == Some(ts[k]));
                }
            }
            assert(sp_sig(name0, ts) == Some(Type::Bool));
            lemma_exprs_view(compiled@);
            assert(exprs_view(compiled@) =~= sp_compile_args(vs)) by {
                assert forall|k: int|
                    0 <= k < n implies exprs_view(compiled@)[k] == sp_compile_args(vs)[k] by {
                    assert(exprs_view(compiled@)[k] == compiled@[k]@);
                    assert(compiled@[k]@ == sp_compile(vs[k]));
                    assert(sp_compile_args(vs)[k] == sp_compile(vs[k]));
                }
            }
        }
        return Ok((Type::Bool, Expr::FuncCall { name, args: compiled }));
    }
    let mut m = "Unknown function '".to_owned();
    m.append(name.as_str());
    m.append("'");
    Err(CompileError { message: m })
}

} // verus!

