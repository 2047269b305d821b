//! Abstract syntax tree for the expression language, together with its
//! mathematical model `SpecExpr` (string payloads as character sequences).

use vstd::prelude::*;
use vstd::string::StringExecFns;

use crate::pattern::CompiledRegex;

verus! {

/// Built-in identifiers.
#[derive(Debug, Clone, Copy, PartialEq, Eq, Structural)]
pub enum Ident {
    Method,
    Path,
    Host,
}

/// Binary comparison operators.
#[derive(Debug, Clone, Copy, PartialEq, Eq, Structural)]
pub enum BinOp {
    /// String equality (`==`)
    Eq,
    /// String inequality (`!=`)
    Neq,
    /// String prefix match (`startsWith`)
    StartsWith,
    /// String suffix match (`endsWith`)
    EndsWith,
    /// List membership (`contains`)
    Contains,
    /// Regex match (`matches`)
    Matches,
}

/// Expression AST node. The parser produces the first eight variants;
/// `RegexMatch` is introduced by the compiler, which replaces every
/// `BinaryOp { op: Matches, .. }` with a pre-compiled pattern.
#[derive(Debug, PartialEq)]
pub enum Expr {
    /// Boolean literal (true/false)
    BoolLiteral(bool),
    /// String literal
    StringLiteral(std::string::String),
    /// Built-in identifier (method, path, host)
    Ident(Ident),
    /// Function call
    FuncCall { name: std::string::String, args: Vec<Expr> },
    /// Binary operation (comparison operators)
    BinaryOp { op: BinOp, left: Box<Expr>, right: Box<Expr> },
    /// NOT expression
    Not(Box<Expr>),
    /// AND expression
    And(Box<Expr>, Box<Expr>),
    /// OR expression
    Or(Box<Expr>, Box<Expr>),
    /// Regex match against a pattern compiled ahead of time
    RegexMatch { expr: Box<Expr>, regex: CompiledRegex },
}

/// Mathematical model of an expression.
pub enum SpecExpr {
    BoolLit(bool),
    StrLit(Seq<char>),
    Ident(Ident),
    Call { name: Seq<char>, args: Seq<SpecExpr> },
    Binary { op: BinOp, left: Box<SpecExpr>, right: Box<SpecExpr> },
    Not(Box<SpecExpr>),
    And(Box<SpecExpr>, Box<SpecExpr>),
    Or(Box<SpecExpr>, Box<SpecExpr>),
    RegexMatch { expr: Box<SpecExpr>, pattern: Seq<char> },
}

/// The models of a sequence of expressions.
pub open spec fn exprs_view(es: Seq<Expr>) -> Seq<SpecExpr>
    decreases es,
{
    if es.len() == 0 {
        Seq::empty()
    } else {
        exprs_view(es.drop_last()).push(es.last()@)
    }
}

impl View for Expr {
    type V = SpecExpr;

    open spec fn view(&self) -> SpecExpr
        decreases self,
    {
        match self {
            Expr::BoolLiteral(b) => SpecExpr::BoolLit(*b),
            Expr::StringLiteral(s) => SpecExpr::StrLit(s@),
            Expr::Ident(id) => SpecExpr::Ident(*id),
            Expr::FuncCall { name, args } => SpecExpr::Call {
                name: name@,
                args: exprs_view(args@),
            },
            Expr::BinaryOp { op, left, right } => SpecExpr::Binary {
                op: *op,
                left: Box::new((**left)@),
                right: Box::new((**right)@),
            },
            Expr::Not(inner) => SpecExpr::Not(Box::new((**inner)@)),
            Expr::And(l, r) => SpecExpr::And(Box::new((**l)@), Box::new((**r)@)),
            Expr::Or(l, r) => SpecExpr::Or(Box::new((**l)@), Box::new((**r)@)),
            Expr::RegexMatch { expr, regex } => SpecExpr::RegexMatch {
                expr: Box::new((**expr)@),
                pattern: regex@,
            },
        }
    }
}

/// `exprs_view` maps the view over the sequence, element by element.
pub proof fn lemma_exprs_view(es: Seq<Expr>)
    ensures
        exprs_view(es).len() == es.len(),
        forall|i: int| 0 <= i < es.len() ==> exprs_view(es)[i] == #[trigger] es[i]@,
    decreases es,
{
    if es.len() > 0 {
        lemma_exprs_view(es.drop_last());
        assert(exprs_view(es) == exprs_view(es.drop_last()).push(es.last()@));
        assert forall|i: int| 0 <= i < es.len() implies exprs_view(es)[i] == #[trigger] es[i]@ by {
            if i < es.len() - 1 {
                assert(es.drop_last()[i] == es[i]);
                assert(exprs_view(es.drop_last())[i] == es.drop_last()[i]@);
            } else {
                assert(es[i] == es.last());
            }
        }
    }
}

/// The source text of an operator.
pub open spec fn sp_op_str(op: BinOp) -> Seq<char> {
    match op {
        BinOp::Eq => "=="@,
        BinOp::Neq => "!="@,
        BinOp::StartsWith => "startsWith"@,
        BinOp::EndsWith => "endsWith"@,
        BinOp::Contains => "contains"@,
        BinOp::Matches => "matches"@,
    }
}

/// The source text an expression prints as: parenthesized infix form.
/// String literals are printed verbatim, without re-escaping.
pub open spec fn sp_print(e: SpecExpr) -> Seq<char>
    decreases e,
{
    match e {
        SpecExpr::BoolLit(b) => if b {
            "true"@
        } else {
            "false"@
        },
        SpecExpr::StrLit(s) => "\""@ + s + "\""@,
        SpecExpr::Ident(id) => match id {
            Ident::Method => "method"@,
            Ident::Path => "path"@,
            Ident::Host => "host"@,
        },
        SpecExpr::Call { name, args } => name + "("@ + sp_print_args(args) + ")"@,
        SpecExpr::Binary { op, left, right } => "("@ + sp_print(*left) + " "@ + sp_op_str(op)
            + " "@ + sp_print(*right) + ")"@,
        SpecExpr::Not(inner) => "(NOT "@ + sp_print(*inner) + ")"@,
        SpecExpr::And(l, r) => "("@ + sp_print(*l) + " AND "@ + sp_print(*r) + ")"@,
        SpecExpr::Or(l, r) => "("@ + sp_print(*l) + " OR "@ + sp_print(*r) + ")"@,
        SpecExpr::RegexMatch { expr, pattern } => "("@ + sp_print(*expr) + " matches "@ + "\""@
            + pattern + "\""@ + ")"@,
    }
}

/// The source text of a comma-separated argument list.
pub open spec fn sp_print_args(args: Seq<SpecExpr>) -> Seq<char>
    decreases args,
{
    if args.len() == 0 {
        Seq::empty()
    } else if args.len() == 1 {
        sp_print(args[0])
    } else {
        sp_print_args(args.drop_last()) + ", "@ + sp_print(args.last())
    }
}

impl Expr {
    /// Print the expression back to source text, fully parenthesized.
    /// String literals are printed verbatim, without re-escaping.
    pub fn to_source(&self) -> (r: std::string::String)
        ensures
            r@ == sp_print(self@),
        decreases self@,
    {
        match self {
            Expr::BoolLiteral(b) => {
                if *b {
                    "true".to_owned()
                } else {
                    "false".to_owned()
                }
            },
            Expr::StringLiteral(s) => {
                let mut m = "\"".to_owned();
                m.append(s.as_str());
                m.append("\"");
                proof {
                    assert(m@ =~= sp_print(self@));
                }
                m
            },
            Expr::Ident(id) => {
                match id {
                    Ident::Method => "method".to_owned(),
                    Ident::Path => "path".to_owned(),
                    Ident::Host => "host".to_owned(),
                }
            },
            Expr::FuncCall { name, args } => {
                let mut m = name.clone();
                m.append("(");
                proof {
                    assert(self@ == SpecExpr::Call { name: name@, args: exprs_view(args@) });
                    assert(decreases_to!(self@ => self@->Call_args));
                }
                let inner = Self::args_to_source(args);
                m.append(inner.as_str());
                m.append(")");
                proof {
                    assert(m@ =~= sp_print(self@));
                }
                m
            },
            Expr::BinaryOp { op, left, right } => {
                let mut m = "(".to_owned();
                let ls = (&**left).to_source();
                m.append(ls.as_str());
                m.append(" ");
                m.append(op_src(op));
                m.append(" ");
                let rs = (&**right).to_source();
                m.append(rs.as_str());
                m.append(")");
                proof {
                    assert(m@ =~= sp_print(self@));
                }
                m
            },
            Expr::Not(inner) => {
                let mut m = "(NOT ".to_owned();
                let is = (&**inner).to_source();
                m.append(is.as_str());
                m.append(")");
                proof {
                    assert(m@ =~= sp_print(self@));
                }
                m
            },
            Expr::And(l, r) => {
                let mut m = "(".to_owned();
                let ls = (&**l).to_source();
                m.append(ls.as_str());
                m.append(" AND ");
                let rs = (&**r).to_source();
                m.append(rs.as_str());
                m.append(")");
                proof {
                    assert(m@ =~= sp_print(self@));
                }
                m
            },
            Expr::Or(l, r) => {
                let mut m = "(".to_owned();
                let ls = (&**l).to_source();
                m.append(ls.as_str());
                m.append(" OR ");
                let rs = (&**r).to_source();
                m.append(rs.as_str());
                m.append(")");
                proof {
                    assert(m@ =~= sp_print(self@));
                }
                m
            },
            Expr::RegexMatch { expr, regex } => {
                let mut m = "(".to_owned();
                let es = (&**expr).to_source();
                m.append(es.as_str());
                m.append(" matches ");
                m.append("\"");
                m.append(regex.pattern());
                m.append("\"");
                m.append(")");
                proof {
                    assert(m@ =~= sp_print(self@));
                }
                m
            },
        }
    }

    /// Print a comma-separated argument list.
    #[verifier::loop_isolation(false)]
    fn args_to_source(args: &Vec<Expr>) -> (r: std::string::String)
        ensures
            r@ == sp_print_args(exprs_view(args@)),
        decreases exprs_view(args@),
    {
        let ghost vs = exprs_view(args@);
        proof {
            lemma_exprs_view(args@);
        }
        let n = args.len();
        let mut m = String::new();
        let mut i: usize = 0;
        proof {
            assert(m@ =~= sp_print_args(vs.subrange(0, 0)));
        }
        while i < n
            invariant
                0 <= i <= n,
                n == vs.len(),
                m@ == sp_print_args(vs.subrange(0, i as int)),
            decreases n - i,
        {
            if i > 0 {
                m.append(", ");
            }
            proof {
                assert(vs[i as int] == args@[i as int]@);
                assert(decreases_to!(vs => vs[i as int]));
            }
            let s = (&args[i]).to_source();
            m.append(s.as_str());
            proof {
                let pre = vs.subrange(0, i + 1 as int);
                assert(pre.drop_last() =~= vs.subrange(0, i as int));
                assert(pre.last() == vs[i as int]);
                if i == 0 {
                    assert(m@ =~= sp_print_args(pre));
                } else {
                    assert(m@ =~= sp_print_args(pre));
                }
            }
            i = i + 1;
        }
        proof {
            assert(vs.subrange(0, n as int) =~= vs);
        }
        m
    }
}

/// The source text of an operator.
fn op_src(op: &BinOp) -> (r: &'static str)
    ensures
        r@ == sp_op_str(*op),
{
    match op {
        BinOp::Eq => "==",
        BinOp::Neq => "!=",
        BinOp::StartsWith => "startsWith",
        BinOp::EndsWith => "endsWith",
        BinOp::Contains => "contains",
        BinOp::Matches => "matches",
    }
}

/// Appending one expression appends its model.
pub proof fn lemma_exprs_view_push(es: Seq<Expr>, e: Expr)
    ensures
        exprs_view(es.push(e)) == exprs_view(es).push(e@),
{
    assert(es.push(e).len() == es.len() + 1);
    assert(es.push(e).drop_last() =~= es);
    assert(es.push(e).last() == e);
    assert(exprs_view(es.push(e)) == exprs_view(es.push(e).drop_last()).push(es.push(e).last()@));
}

} // verus!

