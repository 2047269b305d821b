//! Evaluator: runs a compiled expression against a request context.
//!
//! `sp_eval` gives the exact semantics over the context model; the
//! executable evaluator is proved to follow it. `AND`/`OR` short-circuit:
//! the right operand is not consulted when the left fixes the outcome
//! (`lemma_and_short_circuit`, `lemma_or_short_circuit`). For programs
//! the compiler accepted, evaluation cannot fail and yields a boolean
//! (`lemma_type_soundness`).

use vstd::prelude::*;
use vstd::string::StringExecFns;

use crate::ast::{exprs_view, lemma_exprs_view, BinOp, Expr, Ident, SpecExpr};
use crate::compiler::{lemma_types_of_index, sp_type_of, sp_types_of, Program, Type};
use crate::context::{CtxModel, RequestContext};
use crate::pattern::{regex_match, regex_valid, CompiledRegex};
use crate::text::{contains_string, ends_with_str, sp_ends_with, sp_starts_with, starts_with_str,
    str_eq, view_strings};

verus! {

/// Values produced by evaluation.
#[derive(Debug, Clone, PartialEq)]
pub enum Value {
    Str(std::string::String),
    StrList(Vec<std::string::String>),
    Bool(bool),
}

/// Mathematical model of a value.
pub enum SpecValue {
    Str(Seq<char>),
    StrList(Seq<Seq<char>>),
    Bool(bool),
}

impl View for Value {
    type V = SpecValue;

    open spec fn view(&self) -> SpecValue {
        match self {
            Value::Str(s) => SpecValue::Str(s@),
            Value::StrList(v) => SpecValue::StrList(view_strings(v@)),
            Value::Bool(b) => SpecValue::Bool(*b),
        }
    }
}

/// The type of a value.
pub open spec fn sp_value_type(v: SpecValue) -> Type {
    match v {
        SpecValue::Str(_) => Type::Str,
        SpecValue::StrList(_) => Type::StrList,
        SpecValue::Bool(_) => Type::Bool,
    }
}

/// Runtime evaluation error.
#[derive(Debug, Clone, PartialEq)]
pub struct EvalError {
    pub message: std::string::String,
}

/// The value of a binary operation, or an error on a type mismatch. A
/// `matches` reaching evaluation compiles its pattern on the spot and
/// errs when the pattern is invalid (the compiler never emits this:
/// it rewrites `matches` into `RegexMatch` nodes).
pub open spec fn sp_binop(op: BinOp, lv: SpecValue, rv: SpecValue) -> Result<SpecValue, ()> {
    match (op, lv, rv) {
        (BinOp::Eq, SpecValue::Str(l), SpecValue::Str(r)) => Ok(SpecValue::Bool(l == r)),
        (BinOp::Neq, SpecValue::Str(l), SpecValue::Str(r)) => Ok(SpecValue::Bool(l != r)),
        (BinOp::StartsWith, SpecValue::Str(l), SpecValue::Str(r)) => Ok(
            SpecValue::Bool(sp_starts_with(l, r)),
        ),
        (BinOp::EndsWith, SpecValue::Str(l), SpecValue::Str(r)) => Ok(
            SpecValue::Bool(sp_ends_with(l, r)),
        ),
        (BinOp::Contains, SpecValue::StrList(list), SpecValue::Str(item)) => Ok(
            SpecValue::Bool(list.contains(item)),
        ),
        (BinOp::Matches, SpecValue::Str(t), SpecValue::Str(p)) => {
            if regex_valid(p) {
                Ok(SpecValue::Bool(regex_match(p, t)))
            } else {
                Err(())
            }
        },
        _ => Err(()),
    }
}

/// The value of an expression under a context model, or an error.
pub open spec fn sp_eval(e: SpecExpr, m: CtxModel) -> Result<SpecValue, ()>
    decreases e,
{
    match e {
        SpecExpr::BoolLit(b) => Ok(SpecValue::Bool(b)),
        SpecExpr::StrLit(s) => Ok(SpecValue::Str(s)),
        SpecExpr::Ident(id) => Ok(
            SpecValue::Str(
                match id {
                    Ident::Method => m.method,
                    Ident::Path => m.path,
                    Ident::Host => m.host,
                },
            ),
        ),
        SpecExpr::Binary { op, left, right } => {
            match (sp_eval(*left, m), sp_eval(*right, m)) {
                (Ok(lv), Ok(rv)) => sp_binop(op, lv, rv),
                _ => Err(()),
            }
        },
        SpecExpr::And(l, r) => {
            match sp_eval(*l, m) {
                Ok(SpecValue::Bool(false)) => Ok(SpecValue::Bool(false)),
                Ok(SpecValue::Bool(true)) => match sp_eval(*r, m) {
                    Ok(SpecValue::Bool(b)) => Ok(SpecValue::Bool(b)),
                    _ => Err(()),
                },
                _ => Err(()),
            }
        },
        SpecExpr::Or(l, r) => {
            match sp_eval(*l, m) {
                Ok(SpecValue::Bool(true)) => Ok(SpecValue::Bool(true)),
                Ok(SpecValue::Bool(false)) => match sp_eval(*r, m) {
                    Ok(SpecValue::Bool(b)) => Ok(SpecValue::Bool(b)),
                    _ => Err(()),
                },
                _ => Err(()),
            }
        },
        SpecExpr::Not(inner) => {
            match sp_eval(*inner, m) {
                Ok(SpecValue::Bool(b)) => Ok(SpecValue::Bool(!b)),
                _ => Err(()),
            }
        },
        SpecExpr::Call { name, args } => sp_eval_call(name, args, m),
        SpecExpr::RegexMatch { expr, pattern } => {
            match sp_eval(*expr, m) {
                Ok(SpecValue::Str(t)) => Ok(SpecValue::Bool(regex_match(pattern, t))),
                _ => Err(()),
            }
        },
    }
}

/// Whether any of the items (each must evaluate to a string) is a member
/// of `list`; items after the first member found are not evaluated.
pub open spec fn sp_any_of(args: Seq<SpecExpr>, m: CtxModel, list: Seq<Seq<char>>) -> Result<
    bool,
    (),
>
    decreases args,
{
    if args.len() == 0 {
        Ok(false)
    } else {
        match sp_eval(args[0], m) {
            Ok(SpecValue::Str(s)) => {
                if list.contains(s) {
                    Ok(true)
                } else {
                    sp_any_of(args.drop_first(), m, list)
                }
            },
            _ => Err(()),
        }
    }
}

/// Whether all of the items (each must evaluate to a string) are members
/// of `list`; items after the first non-member are not evaluated.
pub open spec fn sp_all_of(args: Seq<SpecExpr>, m: CtxModel, list: Seq<Seq<char>>) -> Result<
    bool,
    (),
>
    decreases args,
{
    if args.len() == 0 {
        Ok(true)
    } else {
        match sp_eval(args[0], m) {
            Ok(SpecValue::Str(s)) => {
                if !list.contains(s) {
                    Ok(false)
                } else {
                    sp_all_of(args.drop_first(), m, list)
                }
            },
            _ => Err(()),
        }
    }
}

/// The value of a function call under a context model.
pub open spec fn sp_eval_call(name: Seq<char>, args: Seq<SpecExpr>, m: CtxModel) -> Result<
    SpecValue,
    (),
>
    decreases args,
{
    if name == "header"@ {
        if args.len() == 1 {
            match sp_eval(args[0], m) {
                Ok(SpecValue::Str(nm)) => Ok(SpecValue::Str(m.header_of(nm))),
                _ => Err(()),
            }
        } else {
            Err(())
        }
    } else if name == "headerValues"@ {
        if args.len() == 1 {
            match sp_eval(args[0], m) {
                Ok(SpecValue::Str(nm)) => Ok(SpecValue::StrList(m.values_of(nm))),
                _ => Err(()),
            }
        } else {
            Err(())
        }
    } else if name == "headerList"@ {
        if args.len() == 1 {
            match sp_eval(args[0], m) {
                Ok(SpecValue::Str(nm)) => Ok(SpecValue::StrList(m.list_of(nm))),
                _ => Err(()),
            }
        } else {
            Err(())
        }
    } else if name == "contains"@ {
        if args.len() == 2 {
            match (sp_eval(args[0], m), sp_eval(args[1], m)) {
                (Ok(SpecValue::StrList(list)), Ok(SpecValue::Str(item))) => Ok(
                    SpecValue::Bool(list.contains(item)),
                ),
                _ => Err(()),
            }
        } else {
            Err(())
        }
    } else if name == "anyOf"@ {
        if args.len() >= 1 {
            match sp_eval(args[0], m) {
                Ok(SpecValue::StrList(list)) => {
                    match sp_any_of(args.subrange(1, args.len() as int), m, list) {
                        Ok(b) => Ok(SpecValue::Bool(b)),
                        Err(()) => Err(()),
                    }
                },
                _ => Err(()),
            }
        } else {
            Err(())
        }
    } else if name == "allOf"@ {
        if args.len() >= 1 {
            match sp_eval(args[0], m) {
                Ok(SpecValue::StrList(list)) => {
                    match sp_all_of(args.subrange(1, args.len() as int), m, list) {
                        Ok(b) => Ok(SpecValue::Bool(b)),
                        Err(()) => Err(()),
                    }
                },
                _ => Err(()),
            }
        } else {
            Err(())
        }
    } else {
        Err(())
    }
}

/// What a program evaluates to: the root's boolean, or an error when
/// evaluation fails or yields a non-boolean.
pub open spec fn sp_program_eval(root: SpecExpr, m: CtxModel) -> Result<bool, ()> {
    match sp_eval(root, m) {
        Ok(SpecValue::Bool(b)) => Ok(b),
        _ => Err(()),
    }
}

/// Short-circuit fidelity for `AND`: when the left operand evaluates to
/// `false`, the conjunction is `false` whatever the right operand is —
/// including when the right operand would itself fail to evaluate.
pub proof fn lemma_and_short_circuit(a: SpecExpr, b: SpecExpr, m: CtxModel)
    requires
        sp_eval(a, m) == Ok::<SpecValue, ()>(SpecValue::Bool(false)),
    ensures
        sp_eval(SpecExpr::And(Box::new(a), Box::new(b)), m) == Ok::<SpecValue, ()>(
            SpecValue::Bool(false),
        ),
{
}

/// Short-circuit fidelity for `OR`: when the left operand evaluates to
/// `true`, the disjunction is `true` whatever the right operand is —
/// including when the right operand would itself fail to evaluate.
pub proof fn lemma_or_short_circuit(a: SpecExpr, b: SpecExpr, m: CtxModel)
    requires
        sp_eval(a, m) == Ok::<SpecValue, ()>(SpecValue::Bool(true)),
    ensures
        sp_eval(SpecExpr::Or(Box::new(a), Box::new(b)), m) == Ok::<SpecValue, ()>(
            SpecValue::Bool(true),
        ),
{
}

/// Every list of items that all type to `Str` evaluates without error
/// in `anyOf`.
proof fn lemma_any_of_total(args: Seq<SpecExpr>, m: CtxModel, list: Seq<Seq<char>>)
    requires
        forall|k: int| 0 <= k < args.len() ==> sp_type_of(#[trigger] args[k]) == Some(Type::Str),
    ensures
        sp_any_of(args, m, list) is Ok,
    decreases args,
{
    if args.len() > 0 {
        lemma_type_soundness(args[0], m);
        assert forall|k: int| 0 <= k < args.drop_first().len() implies sp_type_of(
            #[trigger] args.drop_first()[k],
        ) == Some(Type::Str) by {
            assert(args.drop_first()[k] == args[k + 1]);
        }
        lemma_any_of_total(args.drop_first(), m, list);
    }
}

/// Every list of items that all type to `Str` evaluates without error
/// in `allOf`.
proof fn lemma_all_of_total(args: Seq<SpecExpr>, m: CtxModel, list: Seq<Seq<char>>)
    requires
        forall|k: int| 0 <= k < args.len() ==> sp_type_of(#[trigger] args[k]) == Some(Type::Str),
    ensures
        sp_all_of(args, m, list) is Ok,
    decreases args,
{
    if args.len() > 0 {
        lemma_type_soundness(args[0], m);
        assert forall|k: int| 0 <= k < args.drop_first().len() implies sp_type_of(
            #[trigger] args.drop_first()[k],
        ) == Some(Type::Str) by {
            assert(args.drop_first()[k] == args[k + 1]);
        }
        lemma_all_of_total(args.drop_first(), m, list);
    }
}

/// Type soundness for function calls: a call that types evaluates
/// without error to a value of its type.
proof fn lemma_call_soundness(name: Seq<char>, args: Seq<SpecExpr>, m: CtxModel)
    requires
        sp_type_of(SpecExpr::Call { name, args }) is Some,
    ensures
        sp_eval_call(name, args, m) is Ok,
        sp_value_type(sp_eval_call(name, args, m)->Ok_0) == sp_type_of(
            SpecExpr::Call { name, args },
        )->Some_0,
    decreases args,
{
    lemma_types_of_index(args);
    let ts = sp_types_of(args)->Some_0;
    if name == "header"@ || name == "headerValues"@ || name == "headerList"@ {
        assert(sp_type_of(args[0]) == Some(ts[0]));
        lemma_type_soundness(args[0], m);
    } else if name == "contains"@ {
        assert(sp_type_of(args[0]) == Some(ts[0]));
        assert(sp_type_of(args[1]) == Some(ts[1]));
        lemma_type_soundness(args[0], m);
        lemma_type_soundness(args[1], m);
    } else if name == "anyOf"@ || name == "allOf"@ {
        assert(sp_type_of(args[0]) == Some(ts[0]));
        lemma_type_soundness(args[0], m);
        let items = args.subrange(1, args.len() as int);
        assert forall|k: int| 0 <= k < items.len() implies sp_type_of(#[trigger] items[k])
            == Some(Type::Str) by {
            assert(items[k] == args[k + 1]);
            assert(sp_type_of(args[k + 1]) == Some(ts[k + 1]));
        }
        let list = sp_eval(args[0], m)->Ok_0->StrList_0;
        if name == "anyOf"@ {
            lemma_any_of_total(items, m, list);
        } else {
            lemma_all_of_total(items, m, list);
        }
    }
}

/// Type soundness: an expression the type checker accepts evaluates
/// without error, to a value of its static type — under every context.
pub proof fn lemma_type_soundness(e: SpecExpr, m: CtxModel)
    requires
        sp_type_of(e) is Some,
    ensures
        sp_eval(e, m) is Ok,
        sp_value_type(sp_eval(e, m)->Ok_0) == sp_type_of(e)->Some_0,
    decreases e,
{
    match e {
        SpecExpr::BoolLit(_) => {},
        SpecExpr::StrLit(_) => {},
        SpecExpr::Ident(_) => {},
        SpecExpr::Call { name, args } => {
            lemma_call_soundness(name, args, m);
        },
        SpecExpr::Binary { op, left, right } => {
            lemma_type_soundness(*left, m);
            lemma_type_soundness(*right, m);
        },
        SpecExpr::Not(inner) => {
            lemma_type_soundness(*inner, m);
        },
        SpecExpr::And(l, r) => {
            lemma_type_soundness(*l, m);
            lemma_type_soundness(*r, m);
        },
        SpecExpr::Or(l, r) => {
            lemma_type_soundness(*l, m);
            lemma_type_soundness(*r, m);
        },
        SpecExpr::RegexMatch { expr, pattern } => {
            lemma_type_soundness(*expr, m);
        },
    }
}

impl Program {
    /// Evaluate the program against a request context. For a program
    /// built by `Program::compile` this cannot fail: it returns the
    /// boolean the expression denotes under the context.
    pub fn eval(&self, ctx: &RequestContext) -> (r: Result<bool, EvalError>)
        ensures
            match sp_program_eval(self.root@, ctx.model()) {
                Ok(b) => r is Ok && r->Ok_0 == b,
                Err(_) => r is Err,
            },
            self.wf() ==> r is Ok,
    {
        proof {
            if self.wf() {
                lemma_type_soundness(self.root@, ctx.model());
            }
        }
        match eval_expr(&self.root, ctx) {
            Ok(Value::Bool(b)) => Ok(b),
            Ok(_) => Err(
                EvalError { message: "Expression did not evaluate to boolean".to_owned() },
            ),
            Err(e) => Err(e),
        }
    }
}

/// Evaluate an expression recursively.
pub fn eval_expr(expr: &Expr, ctx: &RequestContext) -> (r: Result<Value, EvalError>)
    ensures
        match sp_eval(expr@, ctx.model()) {
            Ok(v) => r is Ok && r->Ok_0@ == v,
            Err(_) => r is Err,
        },
    decreases expr@,
{
    match expr {
        Expr::BoolLiteral(b) => Ok(Value::Bool(*b)),
        Expr::StringLiteral(s) => Ok(Value::Str(s.clone())),
        Expr::Ident(id) => {
            match id {
                Ident::Method => Ok(Value::Str(ctx.method.clone())),
                Ident::Path => Ok(Value::Str(ctx.path.clone())),
                Ident::Host => Ok(Value::Str(ctx.host.clone())),
            }
        },
        Expr::BinaryOp { op, left, right } => {
            let lv = match eval_expr(&**left, ctx) {
                Ok(v) => v,
                Err(e) => {
                    return Err(e);
                },
            };
            let rv = match eval_expr(&**right, ctx) {
                Ok(v) => v,
                Err(e) => {
                    return Err(e);
                },
            };
            eval_binop(op, lv, rv)
        },
        Expr::And(l, r) => {
            let lv = match eval_expr(&**l, ctx) {
                Ok(v) => v,
                Err(e) => {
                    return Err(e);
                },
            };
            match lv {
                Value::Bool(false) => Ok(Value::Bool(false)),
                Value::Bool(true) => {
                    let rv = match eval_expr(&**r, ctx) {
                        Ok(v) => v,
                        Err(e) => {
                            return Err(e);
                        },
                    };
                    match rv {
                        Value::Bool(b) => Ok(Value::Bool(b)),
                        _ => Err(
                            EvalError {
                                message: "AND operator requires boolean operands".to_owned(),
                            },
                        ),
                    }
                },
                _ => Err(
                    EvalError { message: "AND operator requires boolean operands".to_owned() },
                ),
            }
        },
        Expr::Or(l, r) => {
            let lv = match eval_expr(&**l, ctx) {
                Ok(v) => v,
                Err(e) => {
                    return Err(e);
                },
            };
            match lv {
                Value::Bool(true) => Ok(Value::Bool(true)),
                Value::Bool(false) => {
                    let rv = match eval_expr(&**r, ctx) {
                        Ok(v) => v,
                        Err(e) => {
                            return Err(e);
                        },
                    };
                    match rv {
                        Value::Bool(b) => Ok(Value::Bool(b)),
                        _ => Err(
                            EvalError {
                                message: "OR operator requires boolean operands".to_owned(),
                            },
                        ),
                    }
                },
                _ => Err(
                    EvalError { message: "OR operator requires boolean operands".to_owned() },
                ),
            }
        },
        Expr::Not(inner) => {
            let v = match eval_expr(&**inner, ctx) {
                Ok(v) => v,
                Err(e) => {
                    return Err(e);
                },
            };
            match v {
                Value::Bool(b) => Ok(Value::Bool(!b)),
                _ => Err(
                    EvalError { message: "NOT operator requires boolean operand".to_owned() },
                ),
            }
        },
        Expr::FuncCall { name, args } => eval_function(name.as_str(), args, ctx),
        Expr::RegexMatch { expr: inner, regex } => {
            let v = match eval_expr(&**inner, ctx) {
                Ok(v) => v,
                Err(e) => {
                    return Err(e);
                },
            };
            match v {
                Value::Str(t) => Ok(Value::Bool(regex.is_match(t.as_str()))),
                _ => Err(
                    EvalError { message: "Regex match requires string operand".to_owned() },
                ),
            }
        },
    }
}

/// Evaluate a binary operator applied to two values.
fn eval_binop(op: &BinOp, left: Value, right: Value) -> (r: Result<Value, EvalError>)
    ensures
        match sp_binop(*op, left@, right@) {
            Ok(v) => r is Ok && r->Ok_0@ == v,
            Err(_) => r is Err,
        },
{
    match (op, left, right) {
        (BinOp::Eq, Value::Str(l), Value::Str(r)) => Ok(
            Value::Bool(str_eq(l.as_str(), r.as_str())),
        ),
        (BinOp::Neq, Value::Str(l), Value::Str(r)) => Ok(
            Value::Bool(!str_eq(l.as_str(), r.as_str())),
        ),
        (BinOp::StartsWith, Value::Str(l), Value::Str(r)) => Ok(
            Value::Bool(starts_with_str(l.as_str(), r.as_str())),
        ),
        (BinOp::EndsWith, Value::Str(l), Value::Str(r)) => Ok(
            Value::Bool(ends_with_str(l.as_str(), r.as_str())),
        ),
        (BinOp::Contains, Value::StrList(list), Value::Str(item)) => Ok(
            Value::Bool(contains_string(&list, item.as_str())),
        ),
        (BinOp::Matches, Value::Str(t), Value::Str(p)) => {
            match CompiledRegex::new(p.as_str()) {
                Ok(re) => Ok(Value::Bool(re.is_match(t.as_str()))),
                Err(etext) => {
                    let mut m = "Invalid regex pattern '".to_owned();
                    m.append(p.as_str());
                    m.append("': ");
                    m.append(etext.as_str());
                    Err(EvalError { message: m })
                },
            }
        },
        _ => Err(EvalError { message: "Type mismatch in binary operator".to_owned() }),
    }
}

/// Evaluate a function call.
#[verifier::loop_isolation(false)]
fn eval_function(name: &str, args: &Vec<Expr>, ctx: &RequestContext) -> (r: Result<
    Value,
    EvalError,
>)
    ensures
        match sp_eval_call(name@, exprs_view(args@), ctx.model()) {
            Ok(v) => r is Ok && r->Ok_0@ == v,
            Err(_) => r is Err,
        },
    decreases exprs_view(args@),
{
    let ghost vs = exprs_view(args@);
    let ghost m = ctx.model();
    proof {
        lemma_exprs_view(args@);
    }
    let n = args.len();
    let unary: Option<u8> = if str_eq(name, "header") {
        Some(0u8)
    } else if str_eq(name, "headerValues") {
        Some(1u8)
    } else if str_eq(name, "headerList") {
        Some(2u8)
    } else {
        None
    };
    match unary {
        Some(which) => {
            if n != 1 {
                return Err(EvalError { message: "expects 1 argument".to_owned() });
            }
            proof {
                assert(vs[0] == args@[0]@);
                assert(decreases_to!(vs => vs[0]));
            }
            let nv = match eval_expr(&args[0], ctx) {
                Ok(v) => v,
                Err(e) => {
                    return Err(e);
                },
            };
            match nv {
                Value::Str(nm) => {
                    if which == 0 {
                        Ok(Value::Str(ctx.header(nm.as_str()).to_owned()))
                    } else if which == 1 {
                        Ok(Value::StrList(ctx.header_values(nm.as_str())))
                    } else {
                        Ok(Value::StrList(ctx.header_list(nm.as_str())))
                    }
                },
                _ => Err(EvalError { message: "expects string argument".to_owned() }),
            }
        },
        None => {
            if str_eq(name, "contains") {
                if n != 2 {
                    return Err(EvalError { message: "contains() expects 2 arguments".to_owned() });
                }
                proof {
                    assert(vs[0] == args@[0]@);
                    assert(vs[1] == args@[1]@);
                    assert(decreases_to!(vs => vs[0]));
                    assert(decreases_to!(vs => vs[1]));
                }
                let lv = match eval_expr(&args[0], ctx) {
                    Ok(v) => v,
                    Err(e) => {
                        return Err(e);
                    },
                };
                let iv = match eval_expr(&args[1], ctx) {
                    Ok(v) => v,
                    Err(e) => {
                        return Err(e);
                    },
                };
                match (lv, iv) {
                    (Value::StrList(list), Value::Str(item)) => Ok(
                        Value::Bool(contains_string(&list, item.as_str())),
                    ),
                    _ => Err(
                        EvalError { message: "contains() expects ([]string, string)".to_owned() },
                    ),
                }
            } else if str_eq(name, "anyOf") || str_eq(name, "allOf") {
                let is_any = str_eq(name, "anyOf");
                if n < 1 {
                    return Err(
                        EvalError { message: "expects []string as first argument".to_owned() },
                    );
                }
                proof {
                    assert(vs[0] == args@[0]@);
                    assert(decreases_to!(vs => vs[0]));
                }
                let lv = match eval_expr(&args[0], ctx) {
                    Ok(v) => v,
                    Err(e) => {
                        return Err(e);
                    },
                };
                let list = match lv {
                    Value::StrList(l) => l,
                    _ => {
                        return Err(
                            EvalError { message: "expects []string as first argument".to_owned() },
                        );
                    },
                };
                let ghost lvv = view_strings(list@);
                let ghost items = vs.subrange(1, n as int);
                let mut i: usize = 1;
                proof {
                    assert(items.subrange(0, items.len() as int) =~= items);
                    assert(vs.subrange(i as int, n as int) =~= items);
                }
                while i < n
                    invariant
                        1 <= i <= n,
                        n == vs.len(),
                        (if is_any {
                            sp_any_of(items, m, lvv) == sp_any_of(
                                vs.subrange(i as int, n as int),
                                m,
                                lvv,
                            )
                        } else {
                            sp_all_of(items, m, lvv) == sp_all_of(
                                vs.subrange(i as int, n as int),
                                m,
                                lvv,
                            )
                        }),
                    decreases n - i,
                {
                    let ghost rest = vs.subrange(i as int, n as int);
                    proof {
                        assert(rest[0] == vs[i as int]);
                        assert(vs[i as int] == args@[i as int]@);
                        assert(rest.drop_first() =~= vs.subrange(i + 1 as int, n as int));
                        assert(decreases_to!(vs => vs[i as int]));
                    }
                    let item = match eval_expr(&args[i], ctx) {
                        Ok(v) => v,
                        Err(e) => {
                            return Err(e);
                        },
                    };
                    match item {
                        Value::Str(s) => {
                            let hit = contains_string(&list, s.as_str());
                            if is_any && hit {
                                return Ok(Value::Bool(true));
                            }
                            if !is_any && !hit {
                                return Ok(Value::Bool(false));
                            }
                        },
                        _ => {
                            return Err(
                                EvalError { message: "expects string arguments".to_owned() },
                            );
                        },
                    }
                    i = i + 1;
                }
                proof {
                    assert(vs.subrange(n as int, n as int).len() == 0);
                }
                if is_any {
                    Ok(Value::Bool(false))
                } else {
                    Ok(Value::Bool(true))
                }
            } else {
                let mut msg = "Unknown function '".to_owned();
                msg.append(name);
                msg.append("'");
                Err(EvalError { message: msg })
            }
        },
    }
}

} // verus!
