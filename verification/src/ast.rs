//! The syntax tree of an equation program.
use vstd::prelude::*;
use crate::diagnostic::Span;

verus! {

#[derive(Debug)]
pub struct Program {
    pub statements: Vec<Statement>,
}

#[derive(Debug)]
pub struct Statement {
    pub kind: StatementKind,
    pub span: Span,
}

#[derive(Debug)]
pub enum StatementKind {
    Assignment { lhs: Expr, rhs: Expr },
}

#[derive(Debug)]
pub struct Expr {
    pub kind: ExprKind,
    pub span: Span,
}

/// An expression. A quantity literal keeps the text of its number as it
/// stands in the source, next to the text of its unit.
#[derive(Debug)]
#[allow(inconsistent_fields)]
pub enum ExprKind {
    Number(String),
    QuantityLiteral { value: String, unit: String, span: Span },
    Identifier(String),
    StringLiteral(String),
    Unary { op: UnaryOp, expr: Box<Expr> },
    Binary { op: BinaryOp, left: Box<Expr>, right: Box<Expr> },
    Call { callee: String, args: Vec<CallArg> },
    Group(Box<Expr>),
}

#[derive(Debug)]
pub enum CallArg {
    Positional(Expr),
    Keyword { name: String, value: Expr, span: Span },
}

#[derive(Debug, Clone, Copy, PartialEq, Eq, Structural)]
pub enum UnaryOp {
    Plus,
    Minus,
}

#[derive(Debug, Clone, Copy, PartialEq, Eq, Structural)]
pub enum BinaryOp {
    Add,
    Subtract,
    Multiply,
    Divide,
    Power,
}

// ---------------------------------------------------------------------------
// The same tree over plain values
// ---------------------------------------------------------------------------

pub struct SpecExpr {
    pub kind: SpecExprKind,
    pub span: Span,
}

#[allow(inconsistent_fields)]
pub enum SpecExprKind {
    Number(Seq<char>),
    QuantityLiteral { value: Seq<char>, unit: Seq<char>, span: Span },
    Identifier(Seq<char>),
    StringLiteral(Seq<char>),
    Unary { op: UnaryOp, expr: Box<SpecExpr> },
    Binary { op: BinaryOp, left: Box<SpecExpr>, right: Box<SpecExpr> },
    Call { callee: Seq<char>, args: Seq<SpecCallArg> },
    Group(Box<SpecExpr>),
}

pub enum SpecCallArg {
    Positional(SpecExpr),
    Keyword { name: Seq<char>, value: SpecExpr, span: Span },
}

pub struct SpecStatement {
    pub lhs: SpecExpr,
    pub rhs: SpecExpr,
    pub span: Span,
}

pub open spec fn expr_view(e: Expr) -> SpecExpr
    decreases e,
{
    SpecExpr { kind: expr_kind_view(e.kind), span: e.span }
}

pub open spec fn expr_kind_view(k: ExprKind) -> SpecExprKind
    decreases k,
{
    match k {
        ExprKind::Number(s) => SpecExprKind::Number(s@),
        ExprKind::QuantityLiteral { value, unit, span } => SpecExprKind::QuantityLiteral {
            value: value@,
            unit: unit@,
            span,
        },
        ExprKind::Identifier(s) => SpecExprKind::Identifier(s@),
        ExprKind::StringLiteral(s) => SpecExprKind::StringLiteral(s@),
        ExprKind::Unary { op, expr } => SpecExprKind::Unary {
            op,
            expr: Box::new(expr_view(*expr)),
        },
        ExprKind::Binary { op, left, right } => SpecExprKind::Binary {
            op,
            left: Box::new(expr_view(*left)),
            right: Box::new(expr_view(*right)),
        },
        ExprKind::Call { callee, args } => SpecExprKind::Call {
            callee: callee@,
            args: args_view(args@),
        },
        ExprKind::Group(inner) => SpecExprKind::Group(Box::new(expr_view(*inner))),
    }
}

pub open spec fn arg_view(a: CallArg) -> SpecCallArg
    decreases a,
{
    match a {
        CallArg::Positional(e) => SpecCallArg::Positional(expr_view(e)),
        CallArg::Keyword { name, value, span } => SpecCallArg::Keyword {
            name: name@,
            value: expr_view(value),
            span,
        },
    }
}

pub open spec fn args_view(args: Seq<CallArg>) -> Seq<SpecCallArg>
    decreases args,
{
    if args.len() == 0 {
        Seq::empty()
    } else {
        args_view(args.subrange(0, args.len() - 1)).push(arg_view(args[args.len() - 1]))
    }
}

impl View for Expr {
    type V = SpecExpr;

    open spec fn view(&self) -> SpecExpr {
        expr_view(*self)
    }
}

impl View for CallArg {
    type V = SpecCallArg;

    open spec fn view(&self) -> SpecCallArg {
        arg_view(*self)
    }
}

impl View for Statement {
    type V = SpecStatement;

    open spec fn view(&self) -> SpecStatement {
        match self.kind {
            StatementKind::Assignment { lhs, rhs } => SpecStatement {
                lhs: lhs@,
                rhs: rhs@,
                span: self.span,
            },
        }
    }
}

pub open spec fn statements_view(ss: Seq<Statement>) -> Seq<SpecStatement> {
    ss.map_values(|s: Statement| s@)
}

impl View for Program {
    type V = Seq<SpecStatement>;

    open spec fn view(&self) -> Seq<SpecStatement> {
        statements_view(self.statements@)
    }
}

pub proof fn lemma_args_view_len(args: Seq<CallArg>)
    ensures
        args_view(args).len() == args.len(),
        forall|i: int| 0 <= i < args.len() ==> #[trigger] args_view(args)[i] == arg_view(args[i]),
    decreases args.len(),
{
    if args.len() > 0 {
        lemma_args_view_len(args.subrange(0, args.len() - 1));
    }
}

} // verus!
