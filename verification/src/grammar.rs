//! The grammar, written as spec functions over the token stream.
//!
//! Each function consumes tokens from position `pos` and yields the
//! derived node together with the position just after it, or the error
//! the parser reports. Operators `* / %` bind tighter than `+ -`;
//! comparisons and the boolean operators join two atoms at the additive
//! tier. These functions are the contract of the executable parser in
//! `parser`.
//!
//! A recursive call is made only behind a check that the inner parse
//! advanced and stayed in bounds (`Err(no_advance_err())` otherwise);
//! every sub-parser does advance, so those branches are never taken,
//! but they make termination evident.

use vstd::prelude::*;
use crate::ast::Symbol;
use crate::lexer::{Span, SpecToken};
use crate::parser::{SpecExpr, SpecExpr_};

verus! {

/// What the parser reports on ill-formed input: the offending token, if
/// any (none at the end of the stream), and a static message.
pub struct SpecParseErr {
    pub at: Option<(SpecToken, Span)>,
    pub msg: Seq<char>,
}

pub open spec fn tok_at(ts: Seq<(SpecToken, Span)>, pos: int) -> Option<SpecToken> {
    if 0 <= pos < ts.len() {
        Some(ts[pos].0)
    } else {
        None
    }
}

pub open spec fn span_at(ts: Seq<(SpecToken, Span)>, pos: int) -> Span {
    if 0 <= pos < ts.len() {
        ts[pos].1
    } else {
        Span { lo: 0, hi: 0 }
    }
}

pub open spec fn err_at(ts: Seq<(SpecToken, Span)>, pos: int, msg: Seq<char>) -> SpecParseErr {
    SpecParseErr {
        at: if 0 <= pos < ts.len() {
            Some(ts[pos])
        } else {
            None
        },
        msg,
    }
}

/// The error behind the advance checks; never reported.
pub open spec fn no_advance_err() -> SpecParseErr {
    SpecParseErr { at: None, msg: Seq::empty() }
}

/// The comparison or boolean node an operator token builds.
pub open spec fn cmp_node(t: SpecToken, a: SpecExpr, b: SpecExpr) -> Option<SpecExpr> {
    let span = Span { lo: a.span.lo, hi: b.span.hi };
    match t {
        SpecToken::Sym(Symbol::Equality) => Some(
            SpecExpr { span, node: SpecExpr_::Eq(Box::new(a), Box::new(b)) },
        ),
        SpecToken::Sym(Symbol::InEquality) => Some(
            SpecExpr { span, node: SpecExpr_::NEq(Box::new(a), Box::new(b)) },
        ),
        SpecToken::Sym(Symbol::Greater) => Some(
            SpecExpr { span, node: SpecExpr_::Gt(Box::new(a), Box::new(b)) },
        ),
        SpecToken::Sym(Symbol::Less) => Some(
            SpecExpr { span, node: SpecExpr_::Lt(Box::new(a), Box::new(b)) },
        ),
        SpecToken::Sym(Symbol::GreaterEqual) => Some(
            SpecExpr { span, node: SpecExpr_::EGt(Box::new(a), Box::new(b)) },
        ),
        SpecToken::Sym(Symbol::LessEqual) => Some(
            SpecExpr { span, node: SpecExpr_::ELt(Box::new(a), Box::new(b)) },
        ),
        SpecToken::AndAnd => Some(
            SpecExpr { span, node: SpecExpr_::LAnd(Box::new(a), Box::new(b)) },
        ),
        SpecToken::OrOr => Some(SpecExpr { span, node: SpecExpr_::LOr(Box::new(a), Box::new(b)) }),
        _ => None,
    }
}

pub open spec fn is_cmp_tok(t: SpecToken) -> bool {
    match t {
        SpecToken::Sym(Symbol::Equality) => true,
        SpecToken::Sym(Symbol::InEquality) => true,
        SpecToken::Sym(Symbol::Greater) => true,
        SpecToken::Sym(Symbol::Less) => true,
        SpecToken::Sym(Symbol::GreaterEqual) => true,
        SpecToken::Sym(Symbol::LessEqual) => true,
        SpecToken::AndAnd => true,
        SpecToken::OrOr => true,
        _ => false,
    }
}

/// An atom: a variable, a byte literal, a parenthesized expression, or
/// a unary negation (read as subtraction from zero).
pub open spec fn spec_parse_atom(ts: Seq<(SpecToken, Span)>, pos: int) -> Result<
    (SpecExpr, int),
    SpecParseErr,
>
    decreases ts.len() - pos, 0int,
{
    match tok_at(ts, pos) {
        Some(SpecToken::Ident(x)) => Ok(
            (SpecExpr { span: span_at(ts, pos), node: SpecExpr_::Var(x) }, pos + 1),
        ),
        Some(SpecToken::Byte(v)) => Ok(
            (SpecExpr { span: span_at(ts, pos), node: SpecExpr_::Byte(v) }, pos + 1),
        ),
        Some(SpecToken::LParen) => match spec_parse_term(ts, pos + 1) {
            Ok((e, p)) => {
                if tok_at(ts, p) matches Some(SpecToken::RParen) {
                    Ok((e, p + 1))
                } else {
                    Err(err_at(ts, p, "expected a closing parenthesis"@))
                }
            },
            Err(e) => Err(e),
        },
        Some(SpecToken::Minus) => match spec_parse_atom(ts, pos + 1) {
            Ok((b, p)) => {
                let span = Span { lo: span_at(ts, pos).lo, hi: b.span.hi };
                Ok(
                    (
                        SpecExpr {
                            span,
                            node: SpecExpr_::Sub(
                                Box::new(SpecExpr { span, node: SpecExpr_::Byte(0) }),
                                Box::new(b),
                            ),
                        },
                        p,
                    ),
                )
            },
            Err(e) => Err(e),
        },
        _ => Err(err_at(ts, pos, "expected an expression"@)),
    }
}

/// Left-associative chains of `* / %` continuing the factor `acc`.
pub open spec fn spec_parse_fact_rest(ts: Seq<(SpecToken, Span)>, pos: int, acc: SpecExpr) -> Result<
    (SpecExpr, int),
    SpecParseErr,
>
    decreases ts.len() - pos, 1int,
{
    let op = tok_at(ts, pos);
    if op matches Some(SpecToken::Star) || op matches Some(SpecToken::Slash) || op matches Some(
        SpecToken::Percent,
    ) {
        match spec_parse_atom(ts, pos + 1) {
            Ok((b, p2)) => {
                let span = Span { lo: acc.span.lo, hi: b.span.hi };
                let n = SpecExpr {
                    span,
                    node: if op matches Some(SpecToken::Star) {
                        SpecExpr_::Mul(Box::new(acc), Box::new(b))
                    } else if op matches Some(SpecToken::Slash) {
                        SpecExpr_::Div(Box::new(acc), Box::new(b))
                    } else {
                        SpecExpr_::Mod(Box::new(acc), Box::new(b))
                    },
                };
                if pos < p2 <= ts.len() {
                    spec_parse_fact_rest(ts, p2, n)
                } else {
                    Err(no_advance_err())
                }
            },
            Err(e) => Err(e),
        }
    } else {
        Ok((acc, pos))
    }
}

/// A factor: an atom and any `* / %` chain after it.
pub open spec fn spec_parse_fact(ts: Seq<(SpecToken, Span)>, pos: int) -> Result<
    (SpecExpr, int),
    SpecParseErr,
>
    decreases ts.len() - pos, 2int,
{
    match spec_parse_atom(ts, pos) {
        Ok((a, p1)) => {
            if pos < p1 <= ts.len() {
                spec_parse_fact_rest(ts, p1, a)
            } else {
                Err(no_advance_err())
            }
        },
        Err(e) => Err(e),
    }
}

/// Left-associative chains of `+ -` continuing the term `acc`; the
/// right-hand side of each is a factor.
pub open spec fn spec_parse_term_rest(ts: Seq<(SpecToken, Span)>, pos: int, acc: SpecExpr) -> Result<
    (SpecExpr, int),
    SpecParseErr,
>
    decreases ts.len() - pos, 3int,
{
    let op = tok_at(ts, pos);
    if op matches Some(SpecToken::Plus) || op matches Some(SpecToken::Minus) {
        match spec_parse_fact(ts, pos + 1) {
            Ok((b, p2)) => {
                let span = Span { lo: acc.span.lo, hi: b.span.hi };
                let n = SpecExpr {
                    span,
                    node: if op matches Some(SpecToken::Plus) {
                        SpecExpr_::Add(Box::new(acc), Box::new(b))
                    } else {
                        SpecExpr_::Sub(Box::new(acc), Box::new(b))
                    },
                };
                if pos < p2 <= ts.len() {
                    spec_parse_term_rest(ts, p2, n)
                } else {
                    Err(no_advance_err())
                }
            },
            Err(e) => Err(e),
        }
    } else {
        Ok((acc, pos))
    }
}

/// A term: a whole expression. A comparison or boolean operator joins
/// exactly two atoms; the result may continue in a `+ -` chain.
pub open spec fn spec_parse_term(ts: Seq<(SpecToken, Span)>, pos: int) -> Result<
    (SpecExpr, int),
    SpecParseErr,
>
    decreases ts.len() - pos, 4int,
{
    match spec_parse_atom(ts, pos) {
        Ok((a, p1)) => {
            if pos < p1 <= ts.len() {
                match tok_at(ts, p1) {
                    Some(t) if is_cmp_tok(t) => match spec_parse_atom(ts, p1 + 1) {
                        Ok((b, p2)) => match cmp_node(t, a, b) {
                            Some(n) => {
                                if pos < p2 <= ts.len() {
                                    spec_parse_term_rest(ts, p2, n)
                                } else {
                                    Err(no_advance_err())
                                }
                            },
                            None => Err(no_advance_err()),
                        },
                        Err(e) => Err(e),
                    },
                    _ => match spec_parse_fact_rest(ts, p1, a) {
                        Ok((f, p2)) => {
                            if pos < p2 <= ts.len() {
                                spec_parse_term_rest(ts, p2, f)
                            } else {
                                Err(no_advance_err())
                            }
                        },
                        Err(e) => Err(e),
                    },
                }
            } else {
                Err(no_advance_err())
            }
        },
        Err(e) => Err(e),
    }
}

pub open spec fn is_stmt_start(t: Option<SpecToken>) -> bool {
    match t {
        Some(SpecToken::Variable) => true,
        Some(SpecToken::Mutate) => true,
        Some(SpecToken::Return) => true,
        Some(SpecToken::If) => true,
        Some(SpecToken::For) => true,
        Some(SpecToken::Pass) => true,
        _ => false,
    }
}

/// One statement. `var x = e;` binds, `mutate x = e;` stores to an
/// existing binding, `return e;` yields the bare expression node,
/// `if c; { .. }; else; { .. };` and `for init; c; step; { .. };` carry
/// their bodies, and `pass;` does nothing.
pub open spec fn spec_parse_stmt(ts: Seq<(SpecToken, Span)>, pos: int) -> Result<
    (SpecExpr, int),
    SpecParseErr,
>
    decreases ts.len() - pos, 0int,
{
    match tok_at(ts, pos) {
        Some(SpecToken::Variable) => match tok_at(ts, pos + 1) {
            Some(SpecToken::Ident(x)) => {
                if tok_at(ts, pos + 2) matches Some(SpecToken::Sym(Symbol::Equal)) {
                    match spec_parse_term(ts, pos + 3) {
                        Ok((e, p)) => {
                            if tok_at(ts, p) matches Some(SpecToken::Sym(Symbol::SemiColon)) {
                                Ok(
                                    (
                                        SpecExpr {
                                            span: Span {
                                                lo: span_at(ts, pos).lo,
                                                hi: span_at(ts, p).hi,
                                            },
                                            node: SpecExpr_::Assign(x, Box::new(e)),
                                        },
                                        p + 1,
                                    ),
                                )
                            } else {
                                Err(err_at(ts, p, "expected a semicolon"@))
                            }
                        },
                        Err(e) => Err(e),
                    }
                } else {
                    Err(err_at(ts, pos + 2, "expected an equals sign"@))
                }
            },
            _ => Err(err_at(ts, pos + 1, "expected a variable name"@)),
        },
        Some(SpecToken::Mutate) => match tok_at(ts, pos + 1) {
            Some(SpecToken::Ident(x)) => {
                if tok_at(ts, pos + 2) matches Some(SpecToken::Sym(Symbol::Equal)) {
                    match spec_parse_term(ts, pos + 3) {
                        Ok((e, p)) => {
                            if tok_at(ts, p) matches Some(SpecToken::Sym(Symbol::SemiColon)) {
                                Ok(
                                    (
                                        SpecExpr {
                                            span: Span {
                                                lo: span_at(ts, pos).lo,
                                                hi: span_at(ts, p).hi,
                                            },
                                            node: SpecExpr_::ReAssign(x, Box::new(e)),
                                        },
                                        p + 1,
                                    ),
                                )
                            } else {
                                Err(err_at(ts, p, "expected a semicolon"@))
                            }
                        },
                        Err(e) => Err(e),
                    }
                } else {
                    Err(err_at(ts, pos + 2, "expected an equals sign"@))
                }
            },
            _ => Err(err_at(ts, pos + 1, "expected a variable name"@)),
        },
        Some(SpecToken::Return) => match spec_parse_term(ts, pos + 1) {
            Ok((e, p)) => {
                if tok_at(ts, p) matches Some(SpecToken::Sym(Symbol::SemiColon)) {
                    Ok(
                        (
                            SpecExpr {
                                span: Span { lo: span_at(ts, pos).lo, hi: span_at(ts, p).hi },
                                node: e.node,
                            },
                            p + 1,
                        ),
                    )
                } else {
                    Err(err_at(ts, p, "expected a semicolon"@))
                }
            },
            Err(e) => Err(e),
        },
        Some(SpecToken::If) => match spec_parse_term(ts, pos + 1) {
            Ok((c, p)) => {
                if tok_at(ts, p) matches Some(SpecToken::Sym(Symbol::SemiColon)) && tok_at(
                    ts,
                    p + 1,
                ) matches Some(SpecToken::LBrace) {
                    if pos < p + 2 <= ts.len() {
                        match spec_parse_stmts(ts, p + 2) {
                            Ok((tb, pt)) => {
                                if tok_at(ts, pt) matches Some(SpecToken::RBrace) && tok_at(
                                    ts,
                                    pt + 1,
                                ) matches Some(SpecToken::Sym(Symbol::SemiColon)) && tok_at(
                                    ts,
                                    pt + 2,
                                ) matches Some(SpecToken::Else) && tok_at(ts, pt + 3) matches Some(
                                    SpecToken::Sym(Symbol::SemiColon),
                                ) && tok_at(ts, pt + 4) matches Some(SpecToken::LBrace) {
                                    if pos < pt + 5 <= ts.len() {
                                        match spec_parse_stmts(ts, pt + 5) {
                                            Ok((eb, pe)) => {
                                                if tok_at(ts, pe) matches Some(SpecToken::RBrace)
                                                    && tok_at(ts, pe + 1) matches Some(
                                                    SpecToken::Sym(Symbol::SemiColon),
                                                ) {
                                                    Ok(
                                                        (
                                                            SpecExpr {
                                                                span: Span {
                                                                    lo: span_at(ts, pos).lo,
                                                                    hi: span_at(ts, pe + 1).hi,
                                                                },
                                                                node: SpecExpr_::IfElse(
                                                                    Box::new(c),
                                                                    tb,
                                                                    eb,
                                                                ),
                                                            },
                                                            pe + 2,
                                                        ),
                                                    )
                                                } else {
                                                    Err(
                                                        err_at(
                                                            ts,
                                                            pe,
                                                            "expected the else branch to close"@,
                                                        ),
                                                    )
                                                }
                                            },
                                            Err(e) => Err(e),
                                        }
                                    } else {
                                        Err(no_advance_err())
                                    }
                                } else {
                                    Err(err_at(ts, pt, "expected an else branch"@))
                                }
                            },
                            Err(e) => Err(e),
                        }
                    } else {
                        Err(no_advance_err())
                    }
                } else {
                    Err(err_at(ts, p, "expected a braced branch after the condition"@))
                }
            },
            Err(e) => Err(e),
        },
        Some(SpecToken::For) => {
            if pos + 1 <= ts.len() {
                match spec_parse_stmt(ts, pos + 1) {
                    Ok((init, p1)) => {
                        if pos + 1 < p1 <= ts.len() {
                            match spec_parse_term(ts, p1) {
                                Ok((c, p2)) => {
                                    if tok_at(ts, p2) matches Some(
                                        SpecToken::Sym(Symbol::SemiColon),
                                    ) && p1 <= p2 {
                                        match spec_parse_stmt(ts, p2 + 1) {
                                            Ok((st, p3)) => {
                                                if tok_at(ts, p3) matches Some(SpecToken::LBrace)
                                                    && p2 + 1 < p3 {
                                                    match spec_parse_stmts(ts, p3 + 1) {
                                                        Ok((b, p4)) => {
                                                            if tok_at(ts, p4) matches Some(
                                                                SpecToken::RBrace,
                                                            ) && tok_at(ts, p4 + 1) matches Some(
                                                                SpecToken::Sym(Symbol::SemiColon),
                                                            ) {
                                                                Ok(
                                                                    (
                                                                        SpecExpr {
                                                                            span: Span {
                                                                                lo: span_at(
                                                                                    ts,
                                                                                    pos,
                                                                                ).lo,
                                                                                hi: span_at(
                                                                                    ts,
                                                                                    p4 + 1,
                                                                                ).hi,
                                                                            },
                                                                            node: SpecExpr_::ForLoop(
                                                                                Box::new(init),
                                                                                Box::new(c),
                                                                                Box::new(st),
                                                                                b,
                                                                            ),
                                                                        },
                                                                        p4 + 2,
                                                                    ),
                                                                )
                                                            } else {
                                                                Err(
                                                                    err_at(
                                                                        ts,
                                                                        p4,
                                                                        "expected the loop body to close"@,
                                                                    ),
                                                                )
                                                            }
                                                        },
                                                        Err(e) => Err(e),
                                                    }
                                                } else {
                                                    Err(
                                                        err_at(
                                                            ts,
                                                            p3,
                                                            "expected a braced loop body"@,
                                                        ),
                                                    )
                                                }
                                            },
                                            Err(e) => Err(e),
                                        }
                                    } else {
                                        Err(
                                            err_at(
                                                ts,
                                                p2,
                                                "expected a semicolon after the loop condition"@,
                                            ),
                                        )
                                    }
                                },
                                Err(e) => Err(e),
                            }
                        } else {
                            Err(no_advance_err())
                        }
                    },
                    Err(e) => Err(e),
                }
            } else {
                Err(no_advance_err())
            }
        },
        Some(SpecToken::Pass) => {
            if tok_at(ts, pos + 1) matches Some(SpecToken::Sym(Symbol::SemiColon)) {
                Ok(
                    (
                        SpecExpr {
                            span: Span { lo: span_at(ts, pos).lo, hi: span_at(ts, pos + 1).hi },
                            node: SpecExpr_::Pass,
                        },
                        pos + 2,
                    ),
                )
            } else {
                Err(err_at(ts, pos + 1, "expected a semicolon"@))
            }
        },
        _ => Err(err_at(ts, pos, "expected a statement"@)),
    }
}

/// One or more statements, as many as follow each other.
pub open spec fn spec_parse_stmts(ts: Seq<(SpecToken, Span)>, pos: int) -> Result<
    (Seq<SpecExpr>, int),
    SpecParseErr,
>
    decreases ts.len() - pos, 1int,
{
    match spec_parse_stmt(ts, pos) {
        Ok((e, p)) => {
            if is_stmt_start(tok_at(ts, p)) {
                if pos < p <= ts.len() {
                    match spec_parse_stmts(ts, p) {
                        Ok((rest, p2)) => Ok((seq![e] + rest, p2)),
                        Err(er) => Err(er),
                    }
                } else {
                    Err(no_advance_err())
                }
            } else {
                Ok((seq![e], p))
            }
        },
        Err(e) => Err(e),
    }
}

/// A function body: a braced statement list, or a single bare
/// expression.
pub open spec fn spec_parse_block(ts: Seq<(SpecToken, Span)>, pos: int) -> Result<
    (Seq<SpecExpr>, int),
    SpecParseErr,
> {
    if tok_at(ts, pos) matches Some(SpecToken::LBrace) {
        match spec_parse_stmts(ts, pos + 1) {
            Ok((b, p)) => {
                if tok_at(ts, p) matches Some(SpecToken::RBrace) {
                    Ok((b, p + 1))
                } else {
                    Err(err_at(ts, p, "expected the block to close"@))
                }
            },
            Err(e) => Err(e),
        }
    } else {
        match spec_parse_term(ts, pos) {
            Ok((e, p)) => Ok((seq![e], p)),
            Err(e) => Err(e),
        }
    }
}

/// A declaration's type chain: names or the void sentinel `!`, joined
/// by arrows; the last element is the return type.
pub open spec fn spec_parse_declare_args(ts: Seq<(SpecToken, Span)>, pos: int) -> Result<
    (Seq<Seq<char>>, int),
    SpecParseErr,
>
    decreases ts.len() - pos,
{
    let first = match tok_at(ts, pos) {
        Some(SpecToken::Ident(x)) => Some(x),
        Some(SpecToken::Sym(Symbol::Bang)) => Some("void"@),
        _ => None,
    };
    match first {
        Some(x) => {
            if tok_at(ts, pos + 1) matches Some(SpecToken::Sym(Symbol::Arrow)) {
                match spec_parse_declare_args(ts, pos + 2) {
                    Ok((rest, p)) => Ok((seq![x] + rest, p)),
                    Err(e) => Err(e),
                }
            } else {
                Ok((seq![x], pos + 1))
            }
        },
        None => Err(err_at(ts, pos, "expected a type"@)),
    }
}

/// A definition's parameter names: one or more identifiers.
pub open spec fn spec_parse_define_args(ts: Seq<(SpecToken, Span)>, pos: int) -> Result<
    (Seq<Seq<char>>, int),
    SpecParseErr,
>
    decreases ts.len() - pos,
{
    match tok_at(ts, pos) {
        Some(SpecToken::Ident(x)) => {
            if tok_at(ts, pos + 1) matches Some(SpecToken::Ident(_)) {
                match spec_parse_define_args(ts, pos + 1) {
                    Ok((rest, p)) => Ok((seq![x] + rest, p)),
                    Err(e) => Err(e),
                }
            } else {
                Ok((seq![x], pos + 1))
            }
        },
        _ => Err(err_at(ts, pos, "expected a parameter name"@)),
    }
}

/// A top-level item: a declaration or a definition.
pub open spec fn spec_parse_outer(ts: Seq<(SpecToken, Span)>, pos: int) -> Result<
    (SpecExpr, int),
    SpecParseErr,
> {
    match tok_at(ts, pos) {
        Some(SpecToken::Declare) => match tok_at(ts, pos + 1) {
            Some(SpecToken::Ident(x)) => {
                if tok_at(ts, pos + 2) matches Some(SpecToken::Sym(Symbol::Equal)) {
                    match spec_parse_declare_args(ts, pos + 3) {
                        Ok((args, p)) => Ok(
                            (
                                SpecExpr {
                                    span: Span {
                                        lo: span_at(ts, pos).lo,
                                        hi: span_at(ts, p - 1).hi,
                                    },
                                    node: SpecExpr_::Declare(x, args),
                                },
                                p,
                            ),
                        ),
                        Err(e) => Err(e),
                    }
                } else {
                    Err(err_at(ts, pos + 2, "expected an equals sign"@))
                }
            },
            _ => Err(err_at(ts, pos + 1, "expected a function name"@)),
        },
        Some(SpecToken::Define) => match tok_at(ts, pos + 1) {
            Some(SpecToken::Ident(x)) => {
                if tok_at(ts, pos + 2) matches Some(SpecToken::Sym(Symbol::Equal)) {
                    match spec_parse_block(ts, pos + 3) {
                        Ok((body, p)) => Ok(
                            (
                                SpecExpr {
                                    span: Span {
                                        lo: span_at(ts, pos).lo,
                                        hi: span_at(ts, p - 1).hi,
                                    },
                                    node: SpecExpr_::Define(x, Seq::empty(), body),
                                },
                                p,
                            ),
                        ),
                        Err(e) => Err(e),
                    }
                } else {
                    match spec_parse_define_args(ts, pos + 2) {
                        Ok((args, p1)) => {
                            if tok_at(ts, p1) matches Some(SpecToken::Sym(Symbol::Equal)) {
                                match spec_parse_block(ts, p1 + 1) {
                                    Ok((body, p)) => Ok(
                                        (
                                            SpecExpr {
                                                span: Span {
                                                    lo: span_at(ts, pos).lo,
                                                    hi: span_at(ts, p - 1).hi,
                                                },
                                                node: SpecExpr_::Define(x, args, body),
                                            },
                                            p,
                                        ),
                                    ),
                                    Err(e) => Err(e),
                                }
                            } else {
                                Err(err_at(ts, p1, "expected an equals sign"@))
                            }
                        },
                        Err(e) => Err(e),
                    }
                }
            },
            _ => Err(err_at(ts, pos + 1, "expected a function name"@)),
        },
        _ => Err(err_at(ts, pos, "expected a declaration or definition"@)),
    }
}

/// A whole program: top-level items, each closed by a semicolon, up to
/// the end of the stream.
pub open spec fn spec_parse_program(ts: Seq<(SpecToken, Span)>, pos: int) -> Result<
    (Seq<SpecExpr>, int),
    SpecParseErr,
>
    decreases ts.len() - pos,
{
    if pos >= ts.len() {
        Ok((Seq::empty(), pos))
    } else {
        match spec_parse_outer(ts, pos) {
            Ok((e, p)) => {
                if tok_at(ts, p) matches Some(SpecToken::Sym(Symbol::SemiColon)) && pos <= p {
                    match spec_parse_program(ts, p + 1) {
                        Ok((rest, p2)) => Ok((seq![e] + rest, p2)),
                        Err(er) => Err(er),
                    }
                } else {
                    Err(err_at(ts, p, "expected a semicolon"@))
                }
            },
            Err(e) => Err(e),
        }
    }
}

/// What `parse` returns on the given token stream.
pub open spec fn spec_parse(ts: Seq<(SpecToken, Span)>) -> Result<Seq<SpecExpr>, SpecParseErr> {
    match spec_parse_program(ts, 0) {
        Ok((es, _)) => Ok(es),
        Err(e) => Err(e),
    }
}

} // verus!
