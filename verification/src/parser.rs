//! Recursive-descent parser for equation programs and single expressions.
//!
//! Grammar, loosest binding first:
//!
//! ```text
//! program    := (statement (NEWLINE+ | EOF))*
//! statement  := expression '=' expression
//! expression := term (('+' | '-') term)*
//! term       := power (('*' | '/') power)*
//! power      := unary ('^' power)?              right associative
//! unary      := ('+' | '-') unary | primary
//! primary    := NUMBER UNIT? | IDENT | IDENT '(' args? ')' | STRING | '(' expression ')'
//! args       := arg (',' arg)* ','?
//! arg        := IDENT '=' expression | expression
//! ```
use vstd::prelude::*;
use crate::ast::{
    args_view, expr_view, BinaryOp, CallArg, Expr, ExprKind, Program, SpecCallArg, SpecExpr,
    SpecExprKind, SpecStatement, Statement, StatementKind, UnaryOp, statements_view,
};
use crate::diagnostic::{diag, diags_view, Diagnostic, Span, SpecDiagnostic};
use crate::lexer::{lex, lex_spec, tokens_view, SpecToken, SpecTokenKind, Token, TokenKind};

verus! {

broadcast use vstd::string::group_string_axioms;

// ---------------------------------------------------------------------------
// The grammar over plain values
// ---------------------------------------------------------------------------

/// Tokens the parser can work on: at least one, the last being `Eof`.
pub open spec fn tokens_wf(t: Seq<SpecToken>) -> bool {
    t.len() > 0 && t.last().kind is Eof
}

pub open spec fn kind_at(t: Seq<SpecToken>, p: int) -> SpecTokenKind {
    if 0 <= p < t.len() {
        t[p].kind
    } else {
        SpecTokenKind::Eof
    }
}

pub open spec fn at_end(t: Seq<SpecToken>, p: int) -> bool {
    kind_at(t, p) is Eof
}

/// Outcome of parsing one expression from a token position.
pub struct PExpr {
    pub expr: Option<SpecExpr>,
    pub pos: int,
    pub diags: Seq<SpecDiagnostic>,
}

pub struct PArg {
    pub arg: Option<SpecCallArg>,
    pub pos: int,
    pub diags: Seq<SpecDiagnostic>,
}

pub struct PArgs {
    pub args: Option<Seq<SpecCallArg>>,
    pub pos: int,
    pub diags: Seq<SpecDiagnostic>,
}

pub struct PStatement {
    pub stmt: Option<SpecStatement>,
    pub pos: int,
    pub diags: Seq<SpecDiagnostic>,
}

pub open spec fn fail(pos: int, diags: Seq<SpecDiagnostic>) -> PExpr {
    PExpr { expr: None, pos, diags }
}

pub open spec fn done(e: SpecExpr, pos: int, diags: Seq<SpecDiagnostic>) -> PExpr {
    PExpr { expr: Some(e), pos, diags }
}

pub open spec fn mk(kind: SpecExprKind, span: Span) -> SpecExpr {
    SpecExpr { kind, span }
}

pub open spec fn join(a: Span, b: Span) -> Span {
    Span { start: a.start, end: b.end }
}

pub open spec fn binary(op: BinaryOp, left: SpecExpr, right: SpecExpr) -> SpecExpr {
    mk(
        SpecExprKind::Binary { op, left: Box::new(left), right: Box::new(right) },
        join(left.span, right.span),
    )
}

/// How a token is named in "expected expression" messages.
pub open spec fn description(k: SpecTokenKind) -> Seq<char> {
    match k {
        SpecTokenKind::Identifier(_) => "identifier"@,
        SpecTokenKind::Number(_) => "number"@,
        SpecTokenKind::StringLiteral(_) => "string"@,
        SpecTokenKind::UnitAnnotation(_) => "unit annotation"@,
        SpecTokenKind::Equal => "'='"@,
        SpecTokenKind::Plus => "'+'"@,
        SpecTokenKind::Minus => "'-'"@,
        SpecTokenKind::Star => "'*'"@,
        SpecTokenKind::Slash => "'/'"@,
        SpecTokenKind::Caret => "'^'"@,
        SpecTokenKind::LParen => "'('"@,
        SpecTokenKind::RParen => "')'"@,
        SpecTokenKind::Comma => "','"@,
        SpecTokenKind::Newline => "end of line"@,
        SpecTokenKind::Eof => "end of input"@,
    }
}

pub open spec fn keyword_hint(name: Seq<char>) -> Seq<char> {
    "Expected ',' or ')' after argument '"@ + name
        + "'; did you mean to use '=' for a keyword argument?"@
}

/// Tokens that can begin an operand.
pub open spec fn starts_operand(k: SpecTokenKind) -> bool {
    k is Number || k is Identifier || k is StringLiteral || k is LParen
}

pub open spec fn p_expression(t: Seq<SpecToken>, p: int, d: Seq<SpecDiagnostic>) -> PExpr
    decreases t.len() - p, 28int,
{
    p_add_sub(t, p, d)
}

pub open spec fn p_add_sub(t: Seq<SpecToken>, p: int, d: Seq<SpecDiagnostic>) -> PExpr
    decreases t.len() - p, 27int,
{
    if !(0 <= p < t.len()) {
        fail(p, d)
    } else {
        let l = p_mul_div(t, p, d);
        match l.expr {
            Some(e) => if p <= l.pos < t.len() {
                p_add_sub_tail(t, e, l.pos, l.diags)
            } else {
                l
            },
            None => l,
        }
    }
}

pub open spec fn p_add_sub_tail(t: Seq<SpecToken>, left: SpecExpr, p: int, d: Seq<SpecDiagnostic>) -> PExpr
    decreases t.len() - p, 26int,
{
    if !(0 <= p < t.len()) {
        done(left, p, d)
    } else if kind_at(t, p) is Plus || kind_at(t, p) is Minus {
        let op = if kind_at(t, p) is Plus {
            BinaryOp::Add
        } else {
            BinaryOp::Subtract
        };
        let r = p_mul_div(t, p + 1, d);
        match r.expr {
            Some(right) => if p < r.pos < t.len() {
                p_add_sub_tail(t, binary(op, left, right), r.pos, r.diags)
            } else {
                done(binary(op, left, right), r.pos, r.diags)
            },
            None => fail(r.pos, r.diags),
        }
    } else {
        done(left, p, d)
    }
}

pub open spec fn p_mul_div(t: Seq<SpecToken>, p: int, d: Seq<SpecDiagnostic>) -> PExpr
    decreases t.len() - p, 25int,
{
    if !(0 <= p < t.len()) {
        fail(p, d)
    } else {
        let l = p_power(t, p, d);
        match l.expr {
            Some(e) => if p <= l.pos < t.len() {
                p_mul_div_tail(t, e, l.pos, l.diags)
            } else {
                l
            },
            None => l,
        }
    }
}

pub open spec fn p_mul_div_tail(t: Seq<SpecToken>, left: SpecExpr, p: int, d: Seq<SpecDiagnostic>) -> PExpr
    decreases t.len() - p, 24int,
{
    if !(0 <= p < t.len()) {
        done(left, p, d)
    } else if kind_at(t, p) is Star || kind_at(t, p) is Slash {
        let op = if kind_at(t, p) is Star {
            BinaryOp::Multiply
        } else {
            BinaryOp::Divide
        };
        let r = p_power(t, p + 1, d);
        match r.expr {
            Some(right) => if p < r.pos < t.len() {
                p_mul_div_tail(t, binary(op, left, right), r.pos, r.diags)
            } else {
                done(binary(op, left, right), r.pos, r.diags)
            },
            None => fail(r.pos, r.diags),
        }
    } else {
        done(left, p, d)
    }
}

pub open spec fn p_power(t: Seq<SpecToken>, p: int, d: Seq<SpecDiagnostic>) -> PExpr
    decreases t.len() - p, 23int,
{
    if !(0 <= p < t.len()) {
        fail(p, d)
    } else {
        let l = p_unary(t, p, d);
        match l.expr {
            Some(left) => if p <= l.pos < t.len() && kind_at(t, l.pos) is Caret {
                let r = p_power(t, l.pos + 1, l.diags);
                match r.expr {
                    Some(right) => done(binary(BinaryOp::Power, left, right), r.pos, r.diags),
                    None => fail(r.pos, r.diags),
                }
            } else {
                l
            },
            None => l,
        }
    }
}

pub open spec fn p_unary(t: Seq<SpecToken>, p: int, d: Seq<SpecDiagnostic>) -> PExpr
    decreases t.len() - p, 22int,
{
    if !(0 <= p < t.len()) {
        fail(p, d)
    } else if kind_at(t, p) is Plus || kind_at(t, p) is Minus {
        let op = if kind_at(t, p) is Plus {
            UnaryOp::Plus
        } else {
            UnaryOp::Minus
        };
        let r = p_unary(t, p + 1, d);
        match r.expr {
            Some(e) => done(
                mk(SpecExprKind::Unary { op, expr: Box::new(e) }, join(t[p].span, e.span)),
                r.pos,
                r.diags,
            ),
            None => fail(r.pos, r.diags),
        }
    } else {
        p_primary(t, p, d)
    }
}

pub open spec fn p_primary(t: Seq<SpecToken>, p: int, d: Seq<SpecDiagnostic>) -> PExpr
    decreases t.len() - p, 21int,
{
    if !(0 <= p < t.len()) {
        fail(p, d)
    } else {
        match kind_at(t, p) {
            SpecTokenKind::Number(n) => p_number(t, p, n, d),
            SpecTokenKind::Identifier(name) => p_name(t, p, name, d),
            SpecTokenKind::StringLiteral(s) => done(
                mk(SpecExprKind::StringLiteral(s), t[p].span),
                p + 1,
                d,
            ),
            SpecTokenKind::LParen => p_group(t, p, d),
            k => fail(
                p,
                d.push(diag("Expected expression, found "@ + description(k), t[p].span)),
            ),
        }
    }
}

/// A number at `p`, with the unit annotation that may follow it.
pub open spec fn p_number(t: Seq<SpecToken>, p: int, n: Seq<char>, d: Seq<SpecDiagnostic>) -> PExpr {
    match kind_at(t, p + 1) {
        SpecTokenKind::UnitAnnotation(u) => {
            let span = join(t[p].span, t[p + 1].span);
            done(mk(SpecExprKind::QuantityLiteral { value: n, unit: u, span }, span), p + 2, d)
        },
        _ => done(mk(SpecExprKind::Number(n), t[p].span), p + 1, d),
    }
}

/// An identifier at `p`: a call when `(` follows it, a variable otherwise.
pub open spec fn p_name(t: Seq<SpecToken>, p: int, name: Seq<char>, d: Seq<SpecDiagnostic>) -> PExpr
    decreases t.len() - p, 20int,
{
    if !(0 <= p < t.len()) {
        fail(p, d)
    } else if kind_at(t, p + 1) is LParen {
        let a = if kind_at(t, p + 2) is RParen {
            PArgs { args: Some(Seq::empty()), pos: p + 2, diags: d }
        } else {
            p_args(t, p + 2, d)
        };
        match a.args {
            Some(args) => if kind_at(t, a.pos) is RParen {
                done(
                    mk(SpecExprKind::Call { callee: name, args }, join(t[p].span, t[a.pos].span)),
                    a.pos + 1,
                    a.diags,
                )
            } else {
                fail(
                    a.pos,
                    a.diags.push(diag("Expected ')' after function arguments"@, t[a.pos].span)),
                )
            },
            None => fail(a.pos, a.diags),
        }
    } else {
        done(mk(SpecExprKind::Identifier(name), t[p].span), p + 1, d)
    }
}

/// A parenthesised expression opening at `p`.
pub open spec fn p_group(t: Seq<SpecToken>, p: int, d: Seq<SpecDiagnostic>) -> PExpr
    decreases t.len() - p, 20int,
{
    if !(0 <= p < t.len()) {
        fail(p, d)
    } else {
        let r = p_expression(t, p + 1, d);
        match r.expr {
            Some(inner) => if kind_at(t, r.pos) is RParen {
                done(
                    mk(SpecExprKind::Group(Box::new(inner)), join(t[p].span, t[r.pos].span)),
                    r.pos + 1,
                    r.diags,
                )
            } else {
                fail(r.pos, r.diags.push(diag("Expected ')' after expression"@, t[r.pos].span)))
            },
            None => fail(r.pos, r.diags),
        }
    }
}

pub open spec fn keyword_at(t: Seq<SpecToken>, p: int) -> bool {
    kind_at(t, p) is Identifier && kind_at(t, p + 1) is Equal
}

pub open spec fn p_call_arg(t: Seq<SpecToken>, p: int, d: Seq<SpecDiagnostic>) -> PArg
    decreases t.len() - p, 29int,
{
    if !(0 <= p < t.len()) {
        PArg { arg: None, pos: p, diags: d }
    } else if keyword_at(t, p) {
        let name = kind_at(t, p)->Identifier_0;
        let r = p_expression(t, p + 2, d);
        match r.expr {
            Some(v) => PArg {
                arg: Some(SpecCallArg::Keyword { name, value: v, span: join(t[p].span, v.span) }),
                pos: r.pos,
                diags: r.diags,
            },
            None => PArg { arg: None, pos: r.pos, diags: r.diags },
        }
    } else {
        let r = p_expression(t, p, d);
        match r.expr {
            Some(e) => PArg { arg: Some(SpecCallArg::Positional(e)), pos: r.pos, diags: r.diags },
            None => PArg { arg: None, pos: r.pos, diags: r.diags },
        }
    }
}

/// The name of a bare variable argument, if the argument is one.
pub open spec fn bare_name(a: SpecCallArg) -> Option<Seq<char>> {
    match a {
        SpecCallArg::Positional(e) => match e.kind {
            SpecExprKind::Identifier(name) => Some(name),
            _ => None,
        },
        _ => None,
    }
}

pub open spec fn p_args(t: Seq<SpecToken>, p: int, d: Seq<SpecDiagnostic>) -> PArgs
    decreases t.len() - p, 30int,
{
    if !(0 <= p < t.len()) {
        PArgs { args: None, pos: p, diags: d }
    } else {
        let r = p_call_arg(t, p, d);
        match r.arg {
            None => PArgs { args: None, pos: r.pos, diags: r.diags },
            Some(a) => if p < r.pos < t.len() {
                p_args_after(t, a, r.pos, r.diags)
            } else {
                PArgs { args: None, pos: r.pos, diags: r.diags }
            },
        }
    }
}

/// What follows an argument `a` that ends at `p`: a comma and more
/// arguments, a trailing comma, or the end of the list.
pub open spec fn p_args_after(t: Seq<SpecToken>, a: SpecCallArg, p: int, d: Seq<SpecDiagnostic>) -> PArgs
    decreases t.len() - p, 31int,
{
    if !(0 <= p < t.len()) {
        PArgs { args: None, pos: p, diags: d }
    } else if kind_at(t, p) is Comma {
        if kind_at(t, p + 1) is RParen {
            PArgs { args: Some(seq![a]), pos: p + 1, diags: d }
        } else {
            let rest = p_args(t, p + 1, d);
            match rest.args {
                Some(more) => PArgs { args: Some(seq![a] + more), pos: rest.pos, diags: rest.diags },
                None => PArgs { args: None, pos: rest.pos, diags: rest.diags },
            }
        }
    } else if bare_name(a) is Some && starts_operand(kind_at(t, p)) {
        PArgs {
            args: None,
            pos: p,
            diags: d.push(diag(keyword_hint(bare_name(a).unwrap()), t[p].span)),
        }
    } else {
        PArgs { args: Some(seq![a]), pos: p, diags: d }
    }
}

/// Position after any line breaks at `p`.
pub open spec fn skip_newlines(t: Seq<SpecToken>, p: int) -> int
    decreases t.len() - p,
{
    if 0 <= p < t.len() && kind_at(t, p) is Newline {
        skip_newlines(t, p + 1)
    } else {
        p
    }
}

pub proof fn lemma_skip_newlines(t: Seq<SpecToken>, p: int)
    requires
        0 <= p < t.len(),
    ensures
        p <= skip_newlines(t, p) < t.len() || (p <= skip_newlines(t, p) && at_end(t, skip_newlines(t, p))),
        !(kind_at(t, skip_newlines(t, p)) is Newline),
    decreases t.len() - p,
{
    if kind_at(t, p) is Newline {
        lemma_skip_newlines_any(t, p + 1);
    }
}

pub proof fn lemma_skip_newlines_any(t: Seq<SpecToken>, p: int)
    requires
        0 <= p,
    ensures
        p <= skip_newlines(t, p),
        p <= t.len() ==> skip_newlines(t, p) <= t.len(),
        !(kind_at(t, skip_newlines(t, p)) is Newline),
    decreases t.len() - p,
{
    if 0 <= p < t.len() && kind_at(t, p) is Newline {
        lemma_skip_newlines_any(t, p + 1);
    }
}

/// Position just after the next line break, or at the end.
pub open spec fn sync_line(t: Seq<SpecToken>, p: int) -> int
    decreases t.len() - p,
{
    if !(0 <= p < t.len()) || at_end(t, p) {
        p
    } else if kind_at(t, p) is Newline {
        p + 1
    } else {
        sync_line(t, p + 1)
    }
}

pub proof fn lemma_sync_line(t: Seq<SpecToken>, p: int)
    requires
        0 <= p <= t.len(),
    ensures
        p <= sync_line(t, p) <= t.len(),
        p < t.len() && !at_end(t, p) ==> p < sync_line(t, p),
    decreases t.len() - p,
{
    if p < t.len() && !at_end(t, p) && !(kind_at(t, p) is Newline) {
        lemma_sync_line(t, p + 1);
    }
}

pub open spec fn p_statement(t: Seq<SpecToken>, p: int, d: Seq<SpecDiagnostic>) -> PStatement {
    let l = p_expression(t, p, d);
    match l.expr {
        None => PStatement { stmt: None, pos: l.pos, diags: l.diags },
        Some(lhs) => {
            let q = l.pos;
            if !(kind_at(t, q) is Equal) {
                let message = if kind_at(t, q) is UnitAnnotation {
                    "Unit annotations are only allowed on numeric literals"@
                } else {
                    "Expected '=' in assignment"@
                };
                PStatement { stmt: None, pos: q, diags: l.diags.push(diag(message, t[q].span)) }
            } else {
                p_statement_rhs(t, lhs, q + 1, l.diags)
            }
        },
    }
}

/// The right-hand side of an assignment whose left-hand side is `lhs`,
/// from token `q` on.
pub open spec fn p_statement_rhs(t: Seq<SpecToken>, lhs: SpecExpr, q: int, d: Seq<SpecDiagnostic>) -> PStatement {
    let r = p_expression(t, q, d);
    match r.expr {
        None => PStatement {
            stmt: None,
            pos: r.pos,
            diags: r.diags.push(diag("Expected right-hand side expression"@, t[r.pos].span)),
        },
        Some(rhs) => if !(kind_at(t, r.pos) is Newline || kind_at(t, r.pos) is Eof) {
            PStatement {
                stmt: None,
                pos: r.pos,
                diags: r.diags.push(diag("Expected end of line after assignment"@, t[r.pos].span)),
            }
        } else {
            PStatement {
                stmt: Some(SpecStatement { lhs, rhs, span: join(lhs.span, rhs.span) }),
                pos: skip_newlines(t, r.pos),
                diags: r.diags,
            }
        },
    }
}

/// The statements and diagnostics of the program from token `p` on,
/// after the statements `acc` already read.
pub open spec fn p_program(
    t: Seq<SpecToken>,
    p: int,
    d: Seq<SpecDiagnostic>,
    acc: Seq<SpecStatement>,
) -> (Seq<SpecStatement>, Seq<SpecDiagnostic>)
    decreases t.len() - p,
{
    if !(0 <= p < t.len()) || at_end(t, p) {
        (acc, d)
    } else {
        let p1 = skip_newlines(t, p);
        if !(0 <= p1 < t.len()) || at_end(t, p1) {
            (acc, d)
        } else {
            let r = p_statement(t, p1, d);
            let next = match r.stmt {
                Some(_) => r.pos,
                None => sync_line(t, r.pos),
            };
            let acc2 = match r.stmt {
                Some(st) => acc.push(st),
                None => acc,
            };
            if p < next <= t.len() {
                p_program(t, next, r.diags, acc2)
            } else {
                (acc2, r.diags)
            }
        }
    }
}

/// What parsing a whole program gives.
pub open spec fn parse_program_spec(s: Seq<char>) -> Result<Seq<SpecStatement>, Seq<SpecDiagnostic>> {
    match lex_spec(s) {
        Err(ds) => Err(ds),
        Ok(t) => {
            let r = p_program(t, 0, Seq::empty(), Seq::empty());
            if r.1.len() == 0 {
                Ok(r.0)
            } else {
                Err(r.1)
            }
        },
    }
}

/// What parsing a single expression gives.
pub open spec fn parse_expression_spec(s: Seq<char>) -> Result<SpecExpr, Seq<SpecDiagnostic>> {
    match lex_spec(s) {
        Err(ds) => Err(ds),
        Ok(t) => {
            let r = p_expression(t, skip_newlines(t, 0), Seq::empty());
            match r.expr {
                None => Err(r.diags),
                Some(e) => {
                    let q = skip_newlines(t, r.pos);
                    let ds = if at_end(t, q) {
                        r.diags
                    } else {
                        r.diags.push(diag("Expected end of input"@, t[q].span))
                    };
                    if ds.len() == 0 {
                        Ok(e)
                    } else {
                        Err(ds)
                    }
                },
            }
        },
    }
}

} // verus!

verus! {

// ---------------------------------------------------------------------------
// The parser
// ---------------------------------------------------------------------------

/// Parses a whole program: its statements, or every diagnostic of the
/// lexer or, when the lexer found none, of the parser.
pub fn parse_program(input: &str) -> (r: Result<Program, Vec<Diagnostic>>)
    requires
        input@.len() < usize::MAX,
    ensures
        match r {
            Ok(program) => parse_program_spec(input@) == Ok::<
                Seq<SpecStatement>,
                Seq<SpecDiagnostic>,
            >(program@),
            Err(ds) => parse_program_spec(input@) == Err::<Seq<SpecStatement>, Seq<SpecDiagnostic>>(
                diags_view(ds@),
            ),
        },
{
    let tokens = match lex(input) {
        Ok(ts) => ts,
        Err(ds) => return Err(ds),
    };
    proof {
        crate::lexer::lemma_lex_ends_with_eof(input@);
    }
    let mut parser = Parser::new(tokens);
    let statements = parser.parse_program();
    if parser.diagnostics.len() == 0 {
        Ok(Program { statements })
    } else {
        Err(parser.diagnostics)
    }
}

/// Parses one expression, with line breaks allowed around it.
pub fn parse_expression(input: &str) -> (r: Result<Expr, Vec<Diagnostic>>)
    requires
        input@.len() < usize::MAX,
    ensures
        match r {
            Ok(e) => parse_expression_spec(input@) == Ok::<SpecExpr, Seq<SpecDiagnostic>>(e@),
            Err(ds) => parse_expression_spec(input@) == Err::<SpecExpr, Seq<SpecDiagnostic>>(
                diags_view(ds@),
            ),
        },
{
    let tokens = match lex(input) {
        Ok(ts) => ts,
        Err(ds) => return Err(ds),
    };
    proof {
        crate::lexer::lemma_lex_ends_with_eof(input@);
    }
    let ghost t = tokens_view(tokens@);
    let mut parser = Parser::new(tokens);
    assert(parser.dv() =~= Seq::<SpecDiagnostic>::empty());
    parser.skip_newlines();
    let ghost r = p_expression(t, skip_newlines(t, 0), Seq::empty());
    let expr = match parser.parse_expression() {
        Some(e) => e,
        None => return Err(parser.diagnostics),
    };
    assert(r.expr == Some(expr@));
    let ghost d1 = parser.dv();
    parser.skip_newlines();
    let ghost q = parser.current as int;
    assert(q == skip_newlines(t, r.pos));
    if !parser.is_at_end() {
        let span = parser.tokens[parser.current].span;
        assert(span == t[q].span);
        parser.push_diagnostic(Diagnostic::from_str("Expected end of input", span));
        assert(parser.dv() == r.diags.push(diag("Expected end of input"@, t[q].span)));
    }
    if parser.diagnostics.len() == 0 {
        Ok(expr)
    } else {
        Err(parser.diagnostics)
    }
}

/// A copy of a token kind.
fn copy_kind(k: &TokenKind) -> (r: TokenKind)
    ensures
        r@ == k@,
{
    match k {
        TokenKind::Identifier(s) => TokenKind::Identifier(s.clone()),
        TokenKind::Number(s) => TokenKind::Number(s.clone()),
        TokenKind::StringLiteral(s) => TokenKind::StringLiteral(s.clone()),
        TokenKind::UnitAnnotation(s) => TokenKind::UnitAnnotation(s.clone()),
        TokenKind::Equal => TokenKind::Equal,
        TokenKind::Plus => TokenKind::Plus,
        TokenKind::Minus => TokenKind::Minus,
        TokenKind::Star => TokenKind::Star,
        TokenKind::Slash => TokenKind::Slash,
        TokenKind::Caret => TokenKind::Caret,
        TokenKind::LParen => TokenKind::LParen,
        TokenKind::RParen => TokenKind::RParen,
        TokenKind::Comma => TokenKind::Comma,
        TokenKind::Newline => TokenKind::Newline,
        TokenKind::Eof => TokenKind::Eof,
    }
}

/// How a token is named in "expected expression" messages.
pub fn token_description(kind: &TokenKind) -> (r: &'static str)
    ensures
        r@ == description(kind@),
{
    match kind {
        TokenKind::Identifier(_) => "identifier",
        TokenKind::Number(_) => "number",
        TokenKind::StringLiteral(_) => "string",
        TokenKind::UnitAnnotation(_) => "unit annotation",
        TokenKind::Equal => "'='",
        TokenKind::Plus => "'+'",
        TokenKind::Minus => "'-'",
        TokenKind::Star => "'*'",
        TokenKind::Slash => "'/'",
        TokenKind::Caret => "'^'",
        TokenKind::LParen => "'('",
        TokenKind::RParen => "')'",
        TokenKind::Comma => "','",
        TokenKind::Newline => "end of line",
        TokenKind::Eof => "end of input",
    }
}

struct Parser {
    tokens: Vec<Token>,
    current: usize,
    diagnostics: Vec<Diagnostic>,
}

spec fn expr_outcome(before: Parser, after: Parser, r: Option<Expr>, o: PExpr) -> bool {
    &&& after.wf()
    &&& after.tokens@ == before.tokens@
    &&& after.current == o.pos
    &&& after.dv() == o.diags
    &&& match r {
        Some(e) => o.expr == Some(e@),
        None => o.expr is None,
    }
    &&& before.current <= after.current
    &&& r is Some ==> before.current < after.current
}

spec fn arg_outcome(before: Parser, after: Parser, r: Option<CallArg>, o: PArg) -> bool {
    &&& after.wf()
    &&& after.tokens@ == before.tokens@
    &&& after.current == o.pos
    &&& after.dv() == o.diags
    &&& match r {
        Some(a) => o.arg == Some(a@),
        None => o.arg is None,
    }
    &&& before.current <= after.current
    &&& r is Some ==> before.current < after.current
}

spec fn args_outcome(before: Parser, after: Parser, r: Option<Vec<CallArg>>, o: PArgs) -> bool {
    &&& after.wf()
    &&& after.tokens@ == before.tokens@
    &&& after.current == o.pos
    &&& after.dv() == o.diags
    &&& match r {
        Some(a) => o.args == Some(args_view(a@)),
        None => o.args is None,
    }
    &&& before.current <= after.current
}

impl Parser {
    spec fn t(&self) -> Seq<SpecToken> {
        tokens_view(self.tokens@)
    }

    spec fn dv(&self) -> Seq<SpecDiagnostic> {
        diags_view(self.diagnostics@)
    }

    spec fn wf(&self) -> bool {
        &&& tokens_wf(self.t())
        &&& self.current < self.tokens.len()
    }

    fn new(tokens: Vec<Token>) -> (p: Self)
        requires
            tokens_wf(tokens_view(tokens@)),
        ensures
            p.wf(),
            p.tokens@ == tokens@,
            p.current == 0,
            p.diagnostics@.len() == 0,
    {
        Parser { tokens, current: 0, diagnostics: Vec::new() }
    }

    /// The token at the cursor.
    fn peek(&self) -> (r: &Token)
        requires
            self.wf(),
        ensures
            r@ == self.t()[self.current as int],
    {
        &self.tokens[self.current]
    }

    fn is_at_end(&self) -> (b: bool)
        requires
            self.wf(),
        ensures
            b == at_end(self.t(), self.current as int),
    {
        match self.peek().kind {
            TokenKind::Eof => true,
            _ => false,
        }
    }

    /// Moves past the token at the cursor unless it is `Eof`.
    fn advance(&mut self)
        requires
            old(self).wf(),
        ensures
            final(self).wf(),
            final(self).tokens@ == old(self).tokens@,
            final(self).diagnostics@ == old(self).diagnostics@,
            final(self).current == if at_end(old(self).t(), old(self).current as int) {
                old(self).current as int
            } else {
                old(self).current + 1
            },
    {
        if !self.is_at_end() {
            proof {
                assert(self.t()[self.current as int] == self.tokens@[self.current as int]@);
            }
            self.current = self.current + 1;
        }
    }

    fn kind_is_newline(&self) -> (b: bool)
        requires
            self.wf(),
        ensures
            b == (kind_at(self.t(), self.current as int) is Newline),
    {
        match self.peek().kind {
            TokenKind::Newline => true,
            _ => false,
        }
    }

    fn push_diagnostic(&mut self, d: Diagnostic)
        ensures
            final(self).dv() == old(self).dv().push(d@),
            final(self).tokens@ == old(self).tokens@,
            final(self).current == old(self).current,
    {
        self.diagnostics.push(d);
        assert(self.dv() =~= old(self).dv().push(d@));
    }

    /// Moves past any line breaks.
    fn skip_newlines(&mut self)
        requires
            old(self).wf(),
        ensures
            final(self).wf(),
            final(self).tokens@ == old(self).tokens@,
            final(self).diagnostics@ == old(self).diagnostics@,
            final(self).current == skip_newlines(old(self).t(), old(self).current as int),
    {
        while self.kind_is_newline()
            invariant
                self.wf(),
                self.tokens@ == old(self).tokens@,
                self.diagnostics@ == old(self).diagnostics@,
                skip_newlines(self.t(), self.current as int) == skip_newlines(
                    old(self).t(),
                    old(self).current as int,
                ),
            decreases self.tokens.len() - self.current,
        {
            self.advance();
        }
    }

    /// Moves past the next line break, or to the end.
    fn synchronize_line(&mut self)
        requires
            old(self).wf(),
        ensures
            final(self).wf(),
            final(self).tokens@ == old(self).tokens@,
            final(self).diagnostics@ == old(self).diagnostics@,
            final(self).current == sync_line(old(self).t(), old(self).current as int),
    {
        while !self.is_at_end()
            invariant
                self.wf(),
                self.tokens@ == old(self).tokens@,
                self.diagnostics@ == old(self).diagnostics@,
                sync_line(self.t(), self.current as int) == sync_line(
                    old(self).t(),
                    old(self).current as int,
                ),
            decreases self.tokens.len() - self.current,
        {
            if self.kind_is_newline() {
                self.advance();
                return;
            }
            self.advance();
        }
    }

    fn parse_expression(&mut self) -> (r: Option<Expr>)
        requires
            old(self).wf(),
        ensures
            expr_outcome(
                *old(self),
                *final(self),
                r,
                p_expression(old(self).t(), old(self).current as int, old(self).dv()),
            ),
        decreases old(self).tokens.len() - old(self).current, 28int,
    {
        self.parse_add_sub()
    }

    /// Whether the token at the cursor is `+` or `-`; which one.
    fn add_op(&self) -> (r: Option<BinaryOp>)
        requires
            self.wf(),
        ensures
            r == (if kind_at(self.t(), self.current as int) is Plus {
                Some(BinaryOp::Add)
            } else if kind_at(self.t(), self.current as int) is Minus {
                Some(BinaryOp::Subtract)
            } else {
                None::<BinaryOp>
            }),
    {
        match self.peek().kind {
            TokenKind::Plus => Some(BinaryOp::Add),
            TokenKind::Minus => Some(BinaryOp::Subtract),
            _ => None,
        }
    }

    fn mul_op(&self) -> (r: Option<BinaryOp>)
        requires
            self.wf(),
        ensures
            r == (if kind_at(self.t(), self.current as int) is Star {
                Some(BinaryOp::Multiply)
            } else if kind_at(self.t(), self.current as int) is Slash {
                Some(BinaryOp::Divide)
            } else {
                None::<BinaryOp>
            }),
    {
        match self.peek().kind {
            TokenKind::Star => Some(BinaryOp::Multiply),
            TokenKind::Slash => Some(BinaryOp::Divide),
            _ => None,
        }
    }

    fn parse_add_sub(&mut self) -> (r: Option<Expr>)
        requires
            old(self).wf(),
        ensures
            expr_outcome(
                *old(self),
                *final(self),
                r,
                p_add_sub(old(self).t(), old(self).current as int, old(self).dv()),
            ),
        decreases old(self).tokens.len() - old(self).current, 27int,
    {
        let ghost t = self.t();
        let ghost p0 = self.current as int;
        let ghost target = p_add_sub(t, p0, self.dv());
        let mut expr = match self.parse_mul_div() {
            Some(e) => e,
            None => return None,
        };
        loop
            invariant
                self.wf(),
                self.t() == t,
                self.tokens@ == old(self).tokens@,
                p0 == old(self).current,
                target == p_add_sub(old(self).t(), old(self).current as int, old(self).dv()),
                p0 < self.current,
                p_add_sub_tail(t, expr@, self.current as int, self.dv()) == target,
            decreases self.tokens.len() - self.current,
        {
            let op = match self.add_op() {
                Some(op) => op,
                None => {
                    return Some(expr);
                },
            };
            let ghost before = self.current as int;
            self.current = self.current + 1;
            let right = match self.parse_mul_div() {
                Some(e) => e,
                None => return None,
            };
            let span = Span { start: expr.span.start, end: right.span.end };
            expr = Expr {
                kind: ExprKind::Binary { op, left: Box::new(expr), right: Box::new(right) },
                span,
            };
        }
    }

    fn parse_mul_div(&mut self) -> (r: Option<Expr>)
        requires
            old(self).wf(),
        ensures
            expr_outcome(
                *old(self),
                *final(self),
                r,
                p_mul_div(old(self).t(), old(self).current as int, old(self).dv()),
            ),
        decreases old(self).tokens.len() - old(self).current, 25int,
    {
        let ghost t = self.t();
        let ghost p0 = self.current as int;
        let ghost target = p_mul_div(t, p0, self.dv());
        let mut expr = match self.parse_power() {
            Some(e) => e,
            None => return None,
        };
        loop
            invariant
                self.wf(),
                self.t() == t,
                self.tokens@ == old(self).tokens@,
                p0 == old(self).current,
                target == p_mul_div(old(self).t(), old(self).current as int, old(self).dv()),
                p0 < self.current,
                p_mul_div_tail(t, expr@, self.current as int, self.dv()) == target,
            decreases self.tokens.len() - self.current,
        {
            let op = match self.mul_op() {
                Some(op) => op,
                None => {
                    return Some(expr);
                },
            };
            self.current = self.current + 1;
            let right = match self.parse_power() {
                Some(e) => e,
                None => return None,
            };
            let span = Span { start: expr.span.start, end: right.span.end };
            expr = Expr {
                kind: ExprKind::Binary { op, left: Box::new(expr), right: Box::new(right) },
                span,
            };
        }
    }

    fn parse_power(&mut self) -> (r: Option<Expr>)
        requires
            old(self).wf(),
        ensures
            expr_outcome(
                *old(self),
                *final(self),
                r,
                p_power(old(self).t(), old(self).current as int, old(self).dv()),
            ),
        decreases old(self).tokens.len() - old(self).current, 23int,
    {
        let left = match self.parse_unary() {
            Some(e) => e,
            None => return None,
        };
        let caret = match self.peek().kind {
            TokenKind::Caret => true,
            _ => false,
        };
        if caret {
            self.current = self.current + 1;
            let right = match self.parse_power() {
                Some(e) => e,
                None => return None,
            };
            let span = Span { start: left.span.start, end: right.span.end };
            Some(
                Expr {
                    kind: ExprKind::Binary {
                        op: BinaryOp::Power,
                        left: Box::new(left),
                        right: Box::new(right),
                    },
                    span,
                },
            )
        } else {
            Some(left)
        }
    }

    fn parse_unary(&mut self) -> (r: Option<Expr>)
        requires
            old(self).wf(),
        ensures
            expr_outcome(
                *old(self),
                *final(self),
                r,
                p_unary(old(self).t(), old(self).current as int, old(self).dv()),
            ),
        decreases old(self).tokens.len() - old(self).current, 22int,
    {
        let op = match self.peek().kind {
            TokenKind::Plus => Some(UnaryOp::Plus),
            TokenKind::Minus => Some(UnaryOp::Minus),
            _ => None,
        };
        match op {
            Some(op) => {
                let start = self.peek().span;
                self.current = self.current + 1;
                let inner = match self.parse_unary() {
                    Some(e) => e,
                    None => return None,
                };
                let span = Span { start: start.start, end: inner.span.end };
                let ghost tt = old(self).t();
                let ghost pp = old(self).current as int;
                assert(self.t() == tt);
                assert(kind_at(tt, pp) is Plus || kind_at(tt, pp) is Minus);
                let ghost rr = p_unary(tt, pp + 1, old(self).dv());
                assert(rr.pos == self.current);
                assert(rr.diags == self.dv());
                assert(rr.expr == Some(inner@));
                let res = Expr { kind: ExprKind::Unary { op, expr: Box::new(inner) }, span };
                assert(res@ == mk(SpecExprKind::Unary { op, expr: Box::new(inner@) }, join(tt[pp].span, inner@.span)));
                assert(p_unary(tt, pp, old(self).dv()).expr == Some(res@));
                Some(res)
            },
            None => self.parse_primary(),
        }
    }

    fn parse_primary(&mut self) -> (r: Option<Expr>)
        requires
            old(self).wf(),
        ensures
            expr_outcome(
                *old(self),
                *final(self),
                r,
                p_primary(old(self).t(), old(self).current as int, old(self).dv()),
            ),
        decreases old(self).tokens.len() - old(self).current, 21int,
    {
        let token_span = self.peek().span;
        let kind = copy_kind(&self.peek().kind);
        match kind {
            TokenKind::Number(n) => {
                self.current = self.current + 1;
                let unit = match &self.peek().kind {
                    TokenKind::UnitAnnotation(u) => Some(u.clone()),
                    _ => None,
                };
                match unit {
                    Some(u) => {
                        let end = self.peek().span;
                        self.current = self.current + 1;
                        let span = Span { start: token_span.start, end: end.end };
                        Some(Expr { kind: ExprKind::QuantityLiteral { value: n, unit: u, span }, span })
                    },
                    None => Some(Expr { kind: ExprKind::Number(n), span: token_span }),
                }
            },
            TokenKind::Identifier(name) => self.parse_name(name),
            TokenKind::StringLiteral(text) => {
                self.current = self.current + 1;
                Some(Expr { kind: ExprKind::StringLiteral(text), span: token_span })
            },
            TokenKind::LParen => self.parse_group(),
            other => {
                let mut message = String::from_str("Expected expression, found ");
                message.append(token_description(&other));
                self.push_diagnostic(Diagnostic::new(message, token_span));
                None
            },
        }
    }

    fn next_is_rparen(&self) -> (b: bool)
        requires
            self.wf(),
        ensures
            b == (kind_at(self.t(), self.current as int) is RParen),
    {
        match self.peek().kind {
            TokenKind::RParen => true,
            _ => false,
        }
    }

    /// An identifier at the cursor, named `name`: a call or a variable.
    #[verifier::spinoff_prover]
    #[verifier::rlimit(40)]
    fn parse_name(&mut self, name: String) -> (r: Option<Expr>)
        requires
            old(self).wf(),
            kind_at(old(self).t(), old(self).current as int) == SpecTokenKind::Identifier(name@),
        ensures
            expr_outcome(
                *old(self),
                *final(self),
                r,
                p_name(old(self).t(), old(self).current as int, name@, old(self).dv()),
            ),
        decreases old(self).tokens.len() - old(self).current, 20int,
    {
        let ghost t = self.t();
        let ghost p = self.current as int;
        let token_span = self.peek().span;
        self.current = self.current + 1;
        let call = match self.peek().kind {
            TokenKind::LParen => true,
            _ => false,
        };
        if !call {
            return Some(Expr { kind: ExprKind::Identifier(name), span: token_span });
        }
        self.current = self.current + 1;
        let args = if self.next_is_rparen() {
            let v: Vec<CallArg> = Vec::new();
            assert(args_view(v@) =~= Seq::<SpecCallArg>::empty());
            v
        } else {
            match self.parse_args() {
                Some(a) => a,
                None => return None,
            }
        };
        if !self.next_is_rparen() {
            let span = self.peek().span;
            self.push_diagnostic(Diagnostic::from_str("Expected ')' after function arguments", span));
            return None;
        }
        let end = self.peek().span;
        self.current = self.current + 1;
        Some(
            Expr {
                kind: ExprKind::Call { callee: name, args },
                span: Span { start: token_span.start, end: end.end },
            },
        )
    }

    /// A parenthesised expression opening at the cursor.
    fn parse_group(&mut self) -> (r: Option<Expr>)
        requires
            old(self).wf(),
            kind_at(old(self).t(), old(self).current as int) is LParen,
        ensures
            expr_outcome(
                *old(self),
                *final(self),
                r,
                p_group(old(self).t(), old(self).current as int, old(self).dv()),
            ),
        decreases old(self).tokens.len() - old(self).current, 20int,
    {
        let ghost t = self.t();
        let ghost p = self.current as int;
        let ghost d = self.dv();
        let token_span = self.peek().span;
        self.current = self.current + 1;
        let ghost r = p_expression(t, p + 1, d);
        assert(self.t() == t);
        assert(self.dv() == d);
        let inner = match self.parse_expression() {
            Some(e) => e,
            None => {
                assert(r.expr is None);
                assert(self.current == r.pos);
                assert(self.dv() == r.diags);
                assert(0 <= p < t.len());
                assert(p_group(t, p, d).expr is None);
                assert(p_group(t, p, d).pos == r.pos);
                assert(p_group(t, p, d).diags == r.diags);
                return None;
            },
        };
        if !self.next_is_rparen() {
            let span = self.peek().span;
            self.push_diagnostic(Diagnostic::from_str("Expected ')' after expression", span));
            return None;
        }
        let end = self.peek().span;
        self.current = self.current + 1;
        Some(
            Expr {
                kind: ExprKind::Group(Box::new(inner)),
                span: Span { start: token_span.start, end: end.end },
            },
        )
    }

    /// The name of a keyword argument that starts at the cursor.
    fn keyword_start(&self) -> (r: Option<String>)
        requires
            self.wf(),
        ensures
            r is Some == keyword_at(self.t(), self.current as int),
            r matches Some(name) ==> kind_at(self.t(), self.current as int) == SpecTokenKind::Identifier(
                name@,
            ),
    {
        match &self.peek().kind {
            TokenKind::Identifier(name) => {
                let equal = match self.tokens[self.current + 1].kind {
                    TokenKind::Equal => true,
                    _ => false,
                };
                if equal {
                    Some(name.clone())
                } else {
                    None
                }
            },
            _ => None,
        }
    }

    fn parse_call_arg(&mut self) -> (r: Option<CallArg>)
        requires
            old(self).wf(),
        ensures
            arg_outcome(
                *old(self),
                *final(self),
                r,
                p_call_arg(old(self).t(), old(self).current as int, old(self).dv()),
            ),
        decreases old(self).tokens.len() - old(self).current, 29int,
    {
        let ghost t = self.t();
        let ghost p = self.current as int;
        let ghost d = self.dv();
        let token_span = self.peek().span;
        match self.keyword_start() {
            Some(name) => {
                self.current = self.current + 2;
                let ghost r = p_expression(t, p + 2, d);
                let value = match self.parse_expression() {
                    Some(e) => e,
                    None => {
                        assert(p_call_arg(t, p, d) == PArg { arg: None, pos: r.pos, diags: r.diags });
                        return None;
                    },
                };
                let span = Span { start: token_span.start, end: value.span.end };
                let arg = CallArg::Keyword { name, value, span };
                assert(arg@ == SpecCallArg::Keyword {
                    name: kind_at(t, p)->Identifier_0,
                    value: value@,
                    span: join(t[p].span, value@.span),
                });
                Some(arg)
            },
            None => {
                let ghost r = p_expression(t, p, d);
                match self.parse_expression() {
                    Some(e) => Some(CallArg::Positional(e)),
                    None => {
                        assert(p_call_arg(t, p, d) == PArg { arg: None, pos: r.pos, diags: r.diags });
                        None
                    },
                }
            },
        }
    }

    fn parse_args(&mut self) -> (r: Option<Vec<CallArg>>)
        requires
            old(self).wf(),
        ensures
            args_outcome(
                *old(self),
                *final(self),
                r,
                p_args(old(self).t(), old(self).current as int, old(self).dv()),
            ),
        decreases old(self).tokens.len() - old(self).current, 30int,
    {
        let arg = match self.parse_call_arg() {
            Some(a) => a,
            None => return None,
        };
        self.parse_args_after(arg)
    }

    /// The name of a bare variable argument.
    fn bare_name_of(arg: &CallArg) -> (r: Option<String>)
        ensures
            r matches Some(n) ==> bare_name(arg@) == Some(n@),
            r is None ==> bare_name(arg@) is None,
    {
        match arg {
            CallArg::Positional(e) => match &e.kind {
                ExprKind::Identifier(name) => Some(name.clone()),
                _ => None,
            },
            _ => None,
        }
    }

    fn starts_operand_here(&self) -> (b: bool)
        requires
            self.wf(),
        ensures
            b == starts_operand(kind_at(self.t(), self.current as int)),
    {
        match self.peek().kind {
            TokenKind::Number(_) => true,
            TokenKind::Identifier(_) => true,
            TokenKind::StringLiteral(_) => true,
            TokenKind::LParen => true,
            _ => false,
        }
    }

    fn parse_args_after(&mut self, arg: CallArg) -> (r: Option<Vec<CallArg>>)
        requires
            old(self).wf(),
        ensures
            args_outcome(
                *old(self),
                *final(self),
                r,
                p_args_after(old(self).t(), arg@, old(self).current as int, old(self).dv()),
            ),
            r is Some ==> old(self).current <= final(self).current,
        decreases old(self).tokens.len() - old(self).current, 31int,
    {
        let ghost t = self.t();
        let ghost p = self.current as int;
        let ghost d = self.dv();
        let comma = match self.peek().kind {
            TokenKind::Comma => true,
            _ => false,
        };
        if comma {
            let trailing = match self.tokens[self.current + 1].kind {
                TokenKind::RParen => true,
                _ => false,
            };
            self.current = self.current + 1;
            if trailing {
                let mut one = Vec::new();
                one.push(arg);
                proof {
                    crate::ast::lemma_args_view_len(one@);
                }
                assert(args_view(one@) =~= seq![arg@]);
                return Some(one);
            }
            let ghost rest_spec = p_args(t, p + 1, d);
            let mut rest = match self.parse_args() {
                Some(more) => more,
                None => return None,
            };
            let ghost more = rest@;
            rest.insert(0, arg);
            proof {
                crate::ast::lemma_args_view_len(more);
                crate::ast::lemma_args_view_len(rest@);
                assert(args_view(rest@) =~= seq![arg@] + args_view(more));
            }
            return Some(rest);
        }
        match Self::bare_name_of(&arg) {
            Some(name) => {
                if self.starts_operand_here() {
                    let mut message = String::from_str("Expected ',' or ')' after argument '");
                    message.append(name.as_str());
                    message.append("'; did you mean to use '=' for a keyword argument?");
                    let span = self.peek().span;
                    self.push_diagnostic(Diagnostic::new(message, span));
                    return None;
                }
            },
            None => {},
        }
        let mut one = Vec::new();
        one.push(arg);
        proof {
                    crate::ast::lemma_args_view_len(one@);
                }
                assert(args_view(one@) =~= seq![arg@]);
        Some(one)
    }

    fn parse_statement(&mut self) -> (r: Option<Statement>)
        requires
            old(self).wf(),
        ensures
            final(self).wf(),
            final(self).tokens@ == old(self).tokens@,
            ({
                let o = p_statement(old(self).t(), old(self).current as int, old(self).dv());
                &&& final(self).current == o.pos
                &&& final(self).dv() == o.diags
                &&& match r {
                    Some(st) => o.stmt == Some(st@),
                    None => o.stmt is None,
                }
            }),
            old(self).current <= final(self).current,
            r is Some ==> old(self).current < final(self).current,
    {
        let lhs = match self.parse_expression() {
            Some(e) => e,
            None => return None,
        };
        let (equal, annotation) = match self.peek().kind {
            TokenKind::Equal => (true, false),
            TokenKind::UnitAnnotation(_) => (false, true),
            _ => (false, false),
        };
        if !equal {
            let span = self.peek().span;
            if annotation {
                self.push_diagnostic(
                    Diagnostic::from_str("Unit annotations are only allowed on numeric literals", span),
                );
            } else {
                self.push_diagnostic(Diagnostic::from_str("Expected '=' in assignment", span));
            }
            return None;
        }
        self.current = self.current + 1;
        self.parse_statement_rhs(lhs)
    }

    fn parse_statement_rhs(&mut self, lhs: Expr) -> (r: Option<Statement>)
        requires
            old(self).wf(),
        ensures
            final(self).wf(),
            final(self).tokens@ == old(self).tokens@,
            ({
                let o = p_statement_rhs(old(self).t(), lhs@, old(self).current as int, old(self).dv());
                &&& final(self).current == o.pos
                &&& final(self).dv() == o.diags
                &&& match r {
                    Some(st) => o.stmt == Some(st@),
                    None => o.stmt is None,
                }
            }),
            old(self).current <= final(self).current,
            r is Some ==> old(self).current < final(self).current,
    {
        let rhs = match self.parse_expression() {
            Some(e) => e,
            None => {
                let span = self.peek().span;
                self.push_diagnostic(Diagnostic::from_str("Expected right-hand side expression", span));
                return None;
            },
        };
        let line_end = match self.peek().kind {
            TokenKind::Newline => true,
            TokenKind::Eof => true,
            _ => false,
        };
        if !line_end {
            let span = self.peek().span;
            self.push_diagnostic(Diagnostic::from_str("Expected end of line after assignment", span));
            return None;
        }
        proof {
            lemma_skip_newlines_any(self.t(), self.current as int);
        }
        self.skip_newlines();
        let span = Span { start: lhs.span.start, end: rhs.span.end };
        let st = Statement { kind: StatementKind::Assignment { lhs, rhs }, span };
        Some(st)
    }

    fn parse_program(&mut self) -> (statements: Vec<Statement>)
        requires
            old(self).wf(),
            old(self).current == 0,
            old(self).diagnostics@.len() == 0,
        ensures
            ({
                let o = p_program(old(self).t(), 0, Seq::empty(), Seq::empty());
                &&& statements_view(statements@) == o.0
                &&& final(self).dv() == o.1
            }),
    {
        let ghost t = self.t();
        let mut statements: Vec<Statement> = Vec::new();
        assert(self.dv() =~= Seq::<SpecDiagnostic>::empty());
        assert(statements_view(statements@) =~= Seq::<SpecStatement>::empty());
        loop
            invariant
                self.wf(),
                self.t() == t,
                t == old(self).t(),
                p_program(t, self.current as int, self.dv(), statements_view(statements@))
                    == p_program(t, 0, Seq::empty(), Seq::empty()),
            ensures
                self.wf(),
                self.t() == t,
                at_end(t, self.current as int),
                p_program(t, self.current as int, self.dv(), statements_view(statements@))
                    == p_program(t, 0, Seq::empty(), Seq::empty()),
            decreases self.tokens.len() - self.current,
        {
            if self.is_at_end() {
                break;
            }
            let ghost p = self.current as int;
            let ghost acc = statements_view(statements@);
            self.skip_newlines();
            proof {
                lemma_skip_newlines(t, p);
            }
            if self.is_at_end() {
                break;
            }
            let ghost p1 = self.current as int;
            match self.parse_statement() {
                Some(st) => {
                    statements.push(st);
                    assert(statements_view(statements@) =~= acc.push(st@));
                },
                None => {
                    proof {
                        lemma_sync_line(t, self.current as int);
                    }
                    self.synchronize_line();
                },
            }
        }
        statements
    }
}

} // verus!

verus! {

/// At the additive level the operator of the tree is the operator token
/// that was read: after an operand `left`, a `-` and then an operand
/// `right` that no further `+` or `-` follows give `left - right`, and a
/// `+` gives `left + right`.
pub proof fn lemma_additive_operator_is_the_token_read(
    t: Seq<SpecToken>,
    left: SpecExpr,
    p: int,
    d: Seq<SpecDiagnostic>,
)
    requires
        0 <= p < t.len(),
        kind_at(t, p) is Plus || kind_at(t, p) is Minus,
        p_mul_div(t, p + 1, d).expr is Some,
        !(kind_at(t, p_mul_div(t, p + 1, d).pos) is Plus),
        !(kind_at(t, p_mul_div(t, p + 1, d).pos) is Minus),
    ensures
        ({
            let right = p_mul_div(t, p + 1, d).expr.unwrap();
            let r = p_add_sub_tail(t, left, p, d).expr;
            &&& r is Some
            &&& r.unwrap().kind matches SpecExprKind::Binary { op, left: l, right: rr } && *l
                == left && *rr == right && (kind_at(t, p) is Minus ==> op == BinaryOp::Subtract)
                && (kind_at(t, p) is Plus ==> op == BinaryOp::Add)
        }),
{
    let r = p_mul_div(t, p + 1, d);
    if p < r.pos < t.len() {
        let op = if kind_at(t, p) is Plus {
            BinaryOp::Add
        } else {
            BinaryOp::Subtract
        };
        assert(p_add_sub_tail(t, binary(op, left, r.expr.unwrap()), r.pos, r.diags).expr == Some(
            binary(op, left, r.expr.unwrap()),
        ));
    }
}

} // verus!
