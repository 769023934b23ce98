//! The abstract syntax tree and the recursive-descent parser.
//!
//! `Expr_` is the tree the code generator consumes; `SpecExpr` is its
//! mathematical value (names as character sequences, children as
//! sequences). The grammar itself is defined by the spec functions in
//! `grammar`; `parse` is proved to return exactly what the grammar
//! derives.

use vstd::prelude::*;
use crate::lexer::{Span, Token, SpecToken, toks_view};
use crate::ast::Symbol;
use crate::grammar::{
    SpecParseErr, err_at, tok_at, span_at, cmp_node, is_cmp_tok, is_stmt_start, spec_parse_atom,
    spec_parse_fact, spec_parse_fact_rest, spec_parse_term, spec_parse_term_rest, spec_parse_stmt,
    spec_parse_stmts, spec_parse_block, spec_parse_declare_args, spec_parse_define_args,
    spec_parse_outer, spec_parse_program, spec_parse,
};

verus! {

/// A whole source file: its top-level statements in order.
#[derive(Debug)]
pub struct Program {
    pub stmts: Vec<Expr>,
}

/// An expression or statement node, with the source range it came from.
#[derive(Debug)]
pub struct Expr {
    pub span: Span,
    pub node: Expr_,
}

/// The shape of a node. Statements and expressions share one tree: a
/// bare expression in statement position is the block's value-producing
/// (returning) statement.
#[derive(Debug)]
pub enum Expr_ {
    Add(Box<Expr>, Box<Expr>),
    Sub(Box<Expr>, Box<Expr>),
    Mul(Box<Expr>, Box<Expr>),
    Div(Box<Expr>, Box<Expr>),
    Mod(Box<Expr>, Box<Expr>),
    Eq(Box<Expr>, Box<Expr>),
    NEq(Box<Expr>, Box<Expr>),
    Gt(Box<Expr>, Box<Expr>),
    Lt(Box<Expr>, Box<Expr>),
    EGt(Box<Expr>, Box<Expr>),
    ELt(Box<Expr>, Box<Expr>),
    LNot(Box<Expr>),
    LAnd(Box<Expr>, Box<Expr>),
    LOr(Box<Expr>, Box<Expr>),
    Var(String),
    /// A function signature: its name and its type chain, parameter
    /// types first, the return type last.
    Declare(String, Vec<String>),
    /// A function body: its name, its parameter names, its statements.
    Define(String, Vec<String>, Vec<Expr>),
    FunctionCall(String, Vec<Expr>),
    /// First binding of a variable.
    Assign(String, Box<Expr>),
    /// Mutation of an existing binding.
    ReAssign(String, Box<Expr>),
    IfElse(Box<Expr>, Vec<Expr>, Vec<Expr>),
    /// Initialisation, condition, step, body.
    ForLoop(Box<Expr>, Box<Expr>, Box<Expr>, Vec<Expr>),
    Byte(u8),
    Pass,
}

/// The mathematical value of an `Expr`.
pub struct SpecExpr {
    pub span: Span,
    pub node: SpecExpr_,
}

pub enum SpecExpr_ {
    Add(Box<SpecExpr>, Box<SpecExpr>),
    Sub(Box<SpecExpr>, Box<SpecExpr>),
    Mul(Box<SpecExpr>, Box<SpecExpr>),
    Div(Box<SpecExpr>, Box<SpecExpr>),
    Mod(Box<SpecExpr>, Box<SpecExpr>),
    Eq(Box<SpecExpr>, Box<SpecExpr>),
    NEq(Box<SpecExpr>, Box<SpecExpr>),
    Gt(Box<SpecExpr>, Box<SpecExpr>),
    Lt(Box<SpecExpr>, Box<SpecExpr>),
    EGt(Box<SpecExpr>, Box<SpecExpr>),
    ELt(Box<SpecExpr>, Box<SpecExpr>),
    LNot(Box<SpecExpr>),
    LAnd(Box<SpecExpr>, Box<SpecExpr>),
    LOr(Box<SpecExpr>, Box<SpecExpr>),
    Var(Seq<char>),
    Declare(Seq<char>, Seq<Seq<char>>),
    Define(Seq<char>, Seq<Seq<char>>, Seq<SpecExpr>),
    FunctionCall(Seq<char>, Seq<SpecExpr>),
    Assign(Seq<char>, Box<SpecExpr>),
    ReAssign(Seq<char>, Box<SpecExpr>),
    IfElse(Box<SpecExpr>, Seq<SpecExpr>, Seq<SpecExpr>),
    ForLoop(Box<SpecExpr>, Box<SpecExpr>, Box<SpecExpr>, Seq<SpecExpr>),
    Byte(u8),
    Pass,
}

/// The views of a list of names.
pub open spec fn strings_view(v: Seq<String>) -> Seq<Seq<char>> {
    v.map(|i: int, s: String| s@)
}

/// The views of a list of nodes.
pub open spec fn exprs_view(v: Seq<Expr>) -> Seq<SpecExpr>
    decreases v,
{
    Seq::new(
        v.len(),
        |i: int|
            if 0 <= i < v.len() {
                expr_view(v[i])
            } else {
                SpecExpr { span: Span { lo: 0, hi: 0 }, node: SpecExpr_::Pass }
            },
    )
}

pub open spec fn expr_view(e: Expr) -> SpecExpr
    decreases e,
{
    SpecExpr { span: e.span, node: node_view(e.node) }
}

pub open spec fn node_view(n: Expr_) -> SpecExpr_
    decreases n,
{
    match n {
        Expr_::Add(a, b) => SpecExpr_::Add(Box::new(expr_view(*a)), Box::new(expr_view(*b))),
        Expr_::Sub(a, b) => SpecExpr_::Sub(Box::new(expr_view(*a)), Box::new(expr_view(*b))),
        Expr_::Mul(a, b) => SpecExpr_::Mul(Box::new(expr_view(*a)), Box::new(expr_view(*b))),
        Expr_::Div(a, b) => SpecExpr_::Div(Box::new(expr_view(*a)), Box::new(expr_view(*b))),
        Expr_::Mod(a, b) => SpecExpr_::Mod(Box::new(expr_view(*a)), Box::new(expr_view(*b))),
        Expr_::Eq(a, b) => SpecExpr_::Eq(Box::new(expr_view(*a)), Box::new(expr_view(*b))),
        Expr_::NEq(a, b) => SpecExpr_::NEq(Box::new(expr_view(*a)), Box::new(expr_view(*b))),
        Expr_::Gt(a, b) => SpecExpr_::Gt(Box::new(expr_view(*a)), Box::new(expr_view(*b))),
        Expr_::Lt(a, b) => SpecExpr_::Lt(Box::new(expr_view(*a)), Box::new(expr_view(*b))),
        Expr_::EGt(a, b) => SpecExpr_::EGt(Box::new(expr_view(*a)), Box::new(expr_view(*b))),
        Expr_::ELt(a, b) => SpecExpr_::ELt(Box::new(expr_view(*a)), Box::new(expr_view(*b))),
        Expr_::LNot(a) => SpecExpr_::LNot(Box::new(expr_view(*a))),
        Expr_::LAnd(a, b) => SpecExpr_::LAnd(Box::new(expr_view(*a)), Box::new(expr_view(*b))),
        Expr_::LOr(a, b) => SpecExpr_::LOr(Box::new(expr_view(*a)), Box::new(expr_view(*b))),
        Expr_::Var(x) => SpecExpr_::Var(x@),
        Expr_::Declare(x, tys) => SpecExpr_::Declare(x@, strings_view(tys@)),
        Expr_::Define(x, args, body) => SpecExpr_::Define(
            x@,
            strings_view(args@),
            exprs_view(body@),
        ),
        Expr_::FunctionCall(x, args) => SpecExpr_::FunctionCall(x@, exprs_view(args@)),
        Expr_::Assign(x, e) => SpecExpr_::Assign(x@, Box::new(expr_view(*e))),
        Expr_::ReAssign(x, e) => SpecExpr_::ReAssign(x@, Box::new(expr_view(*e))),
        Expr_::IfElse(c, t, f) => SpecExpr_::IfElse(
            Box::new(expr_view(*c)),
            exprs_view(t@),
            exprs_view(f@),
        ),
        Expr_::ForLoop(i, c, s, body) => SpecExpr_::ForLoop(
            Box::new(expr_view(*i)),
            Box::new(expr_view(*c)),
            Box::new(expr_view(*s)),
            exprs_view(body@),
        ),
        Expr_::Byte(x) => SpecExpr_::Byte(x),
        Expr_::Pass => SpecExpr_::Pass,
    }
}

impl View for Expr {
    type V = SpecExpr;

    open spec fn view(&self) -> SpecExpr {
        expr_view(*self)
    }
}

impl View for Program {
    type V = Seq<SpecExpr>;

    open spec fn view(&self) -> Seq<SpecExpr> {
        exprs_view(self.stmts@)
    }
}

pub broadcast proof fn lemma_exprs_view_push(v: Seq<Expr>, e: Expr)
    ensures
        #[trigger] exprs_view(v.push(e)) =~= exprs_view(v).push(expr_view(e)),
{
}

pub broadcast proof fn lemma_exprs_view_insert_front(v: Seq<Expr>, e: Expr)
    ensures
        #[trigger] exprs_view(v.insert(0, e)) =~= seq![expr_view(e)] + exprs_view(v),
{
}

pub broadcast proof fn lemma_strings_view_push(v: Seq<String>, s: String)
    ensures
        #[trigger] strings_view(v.push(s)) =~= strings_view(v).push(s@),
{
}

pub broadcast proof fn lemma_strings_view_insert_front(v: Seq<String>, s: String)
    ensures
        #[trigger] strings_view(v.insert(0, s)) =~= seq![s@] + strings_view(v),
{
}

/// What the parser reports: the offending token, if any, and a static
/// message.
pub type ParseError = (Option<(Token, Span)>, &'static str);

/// The value of a reported error.
pub open spec fn perr_view(e: ParseError) -> SpecParseErr {
    SpecParseErr {
        at: match e.0 {
            Some((t, s)) => Some((t@, s)),
            None => None,
        },
        msg: e.1@,
    }
}

/// A copy of a token.
fn dup_token(t: &Token) -> (r: Token)
    ensures
        r@ == t@,
{
    match t {
        Token::Ident(s) => Token::Ident(s.clone()),
        Token::Byte(x) => Token::Byte(*x),
        Token::Variable => Token::Variable,
        Token::Mutate => Token::Mutate,
        Token::Define => Token::Define,
        Token::Declare => Token::Declare,
        Token::Return => Token::Return,
        Token::If => Token::If,
        Token::Else => Token::Else,
        Token::For => Token::For,
        Token::Pass => Token::Pass,
        Token::Plus => Token::Plus,
        Token::Minus => Token::Minus,
        Token::Star => Token::Star,
        Token::Slash => Token::Slash,
        Token::Percent => Token::Percent,
        Token::Ampersand => Token::Ampersand,
        Token::Pipe => Token::Pipe,
        Token::AndAnd => Token::AndAnd,
        Token::OrOr => Token::OrOr,
        Token::Sym(s) => Token::Sym(*s),
        Token::LParen => Token::LParen,
        Token::RParen => Token::RParen,
        Token::LBrace => Token::LBrace,
        Token::RBrace => Token::RBrace,
        Token::LBracket => Token::LBracket,
        Token::RBracket => Token::RBracket,
    }
}

/// The error report at a position: the token there, or none at the end
/// of the stream.
fn err_here(ts: &Vec<(Token, Span)>, pos: usize, msg: &'static str) -> (e: ParseError)
    ensures
        perr_view(e) == err_at(toks_view(ts@), pos as int, msg@),
{
    if pos < ts.len() {
        let t = dup_token(&ts[pos].0);
        let sp = ts[pos].1;
        proof {
            assert(toks_view(ts@)[pos as int] == (ts@[pos as int].0@, ts@[pos as int].1));
        }
        (Some((t, sp)), msg)
    } else {
        (None, msg)
    }
}

/// The comparison or boolean node built by an operator token.
fn mk_cmp(t: &Token, a: Expr, b: Expr) -> (r: Result<Expr, (Expr, Expr)>)
    ensures
        match r {
            Ok(e) => cmp_node(t@, a@, b@) == Some(e@),
            Err(ab) => cmp_node(t@, a@, b@) is None && ab.0 == a && ab.1 == b,
        },
{
    let span = Span { lo: a.span.lo, hi: b.span.hi };
    match t {
        Token::Sym(Symbol::Equality) => Ok(
            Expr { span, node: Expr_::Eq(Box::new(a), Box::new(b)) },
        ),
        Token::Sym(Symbol::InEquality) => Ok(
            Expr { span, node: Expr_::NEq(Box::new(a), Box::new(b)) },
        ),
        Token::Sym(Symbol::Greater) => Ok(Expr { span, node: Expr_::Gt(Box::new(a), Box::new(b)) }),
        Token::Sym(Symbol::Less) => Ok(Expr { span, node: Expr_::Lt(Box::new(a), Box::new(b)) }),
        Token::Sym(Symbol::GreaterEqual) => Ok(
            Expr { span, node: Expr_::EGt(Box::new(a), Box::new(b)) },
        ),
        Token::Sym(Symbol::LessEqual) => Ok(
            Expr { span, node: Expr_::ELt(Box::new(a), Box::new(b)) },
        ),
        Token::AndAnd => Ok(Expr { span, node: Expr_::LAnd(Box::new(a), Box::new(b)) }),
        Token::OrOr => Ok(Expr { span, node: Expr_::LOr(Box::new(a), Box::new(b)) }),
        _ => Err((a, b)),
    }
}

/// An atom: a variable, a byte literal, a parenthesized expression, or
/// a unary negation.
fn parse_atom(ts: &Vec<(Token, Span)>, pos: usize) -> (r: Result<(Expr, usize), ParseError>)
    requires
        pos <= ts@.len(),
    ensures
        match r {
            Ok(ep) => spec_parse_atom(toks_view(ts@), pos as int) == Ok::<
                (SpecExpr, int),
                SpecParseErr,
            >((ep.0@, ep.1 as int)) && pos < ep.1 <= ts@.len(),
            Err(er) => spec_parse_atom(toks_view(ts@), pos as int) == Err::<
                (SpecExpr, int),
                SpecParseErr,
            >(perr_view(er)),
        },
    decreases ts@.len() - pos, 0int,
{
    let ghost tv = toks_view(ts@);
    if pos < ts.len() {
        proof {
            assert(tv[pos as int] == (ts@[pos as int].0@, ts@[pos as int].1));
        }
        let sp = ts[pos].1;
        match &ts[pos].0 {
            Token::Ident(x) => Ok((Expr { span: sp, node: Expr_::Var(x.clone()) }, pos + 1)),
            Token::Byte(v) => Ok((Expr { span: sp, node: Expr_::Byte(*v) }, pos + 1)),
            Token::LParen => {
                match parse_term(ts, pos + 1) {
                    Ok((e, p)) => {
                        if p < ts.len() {
                            proof {
                                assert(tv[p as int] == (ts@[p as int].0@, ts@[p as int].1));
                            }
                            if matches!(&ts[p].0, Token::RParen) {
                                return Ok((e, p + 1));
                            }
                        }
                        Err(err_here(ts, p, "expected a closing parenthesis"))
                    },
                    Err(e) => Err(e),
                }
            },
            Token::Minus => {
                match parse_atom(ts, pos + 1) {
                    Ok((b, p)) => {
                        let span = Span { lo: sp.lo, hi: b.span.hi };
                        let zero = Expr { span, node: Expr_::Byte(0) };
                        proof {
                            assert(expr_view(zero) == SpecExpr { span, node: SpecExpr_::Byte(0) });
                        }
                        Ok((Expr { span, node: Expr_::Sub(Box::new(zero), Box::new(b)) }, p))
                    },
                    Err(e) => Err(e),
                }
            },
            _ => Err(err_here(ts, pos, "expected an expression")),
        }
    } else {
        Err(err_here(ts, pos, "expected an expression"))
    }
}

/// Left-associative chains of `* / %` continuing `acc`.
fn parse_fact_rest(ts: &Vec<(Token, Span)>, pos: usize, acc: Expr) -> (r: Result<
    (Expr, usize),
    ParseError,
>)
    requires
        pos <= ts@.len(),
    ensures
        match r {
            Ok(ep) => spec_parse_fact_rest(toks_view(ts@), pos as int, acc@) == Ok::<
                (SpecExpr, int),
                SpecParseErr,
            >((ep.0@, ep.1 as int)) && pos <= ep.1 <= ts@.len(),
            Err(er) => spec_parse_fact_rest(toks_view(ts@), pos as int, acc@) == Err::<
                (SpecExpr, int),
                SpecParseErr,
            >(perr_view(er)),
        },
    decreases ts@.len() - pos, 1int,
{
    let ghost tv = toks_view(ts@);
    if pos < ts.len() {
        proof {
            assert(tv[pos as int] == (ts@[pos as int].0@, ts@[pos as int].1));
        }
        let is_star = matches!(&ts[pos].0, Token::Star);
        let is_slash = matches!(&ts[pos].0, Token::Slash);
        let is_percent = matches!(&ts[pos].0, Token::Percent);
        if is_star || is_slash || is_percent {
            match parse_atom(ts, pos + 1) {
                Ok((b, p2)) => {
                    let span = Span { lo: acc.span.lo, hi: b.span.hi };
                    let n = Expr {
                        span,
                        node: if is_star {
                            Expr_::Mul(Box::new(acc), Box::new(b))
                        } else if is_slash {
                            Expr_::Div(Box::new(acc), Box::new(b))
                        } else {
                            Expr_::Mod(Box::new(acc), Box::new(b))
                        },
                    };
                    parse_fact_rest(ts, p2, n)
                },
                Err(e) => Err(e),
            }
        } else {
            Ok((acc, pos))
        }
    } else {
        Ok((acc, pos))
    }
}

/// A factor: an atom and any `* / %` chain after it.
fn parse_fact(ts: &Vec<(Token, Span)>, pos: usize) -> (r: Result<(Expr, usize), ParseError>)
    requires
        pos <= ts@.len(),
    ensures
        match r {
            Ok(ep) => spec_parse_fact(toks_view(ts@), pos as int) == Ok::<
                (SpecExpr, int),
                SpecParseErr,
            >((ep.0@, ep.1 as int)) && pos < ep.1 <= ts@.len(),
            Err(er) => spec_parse_fact(toks_view(ts@), pos as int) == Err::<
                (SpecExpr, int),
                SpecParseErr,
            >(perr_view(er)),
        },
    decreases ts@.len() - pos, 2int,
{
    match parse_atom(ts, pos) {
        Ok((a, p1)) => parse_fact_rest(ts, p1, a),
        Err(e) => Err(e),
    }
}

/// Left-associative chains of `+ -` continuing `acc`.
fn parse_term_rest(ts: &Vec<(Token, Span)>, pos: usize, acc: Expr) -> (r: Result<
    (Expr, usize),
    ParseError,
>)
    requires
        pos <= ts@.len(),
    ensures
        match r {
            Ok(ep) => spec_parse_term_rest(toks_view(ts@), pos as int, acc@) == Ok::<
                (SpecExpr, int),
                SpecParseErr,
            >((ep.0@, ep.1 as int)) && pos <= ep.1 <= ts@.len(),
            Err(er) => spec_parse_term_rest(toks_view(ts@), pos as int, acc@) == Err::<
                (SpecExpr, int),
                SpecParseErr,
            >(perr_view(er)),
        },
    decreases ts@.len() - pos, 3int,
{
    let ghost tv = toks_view(ts@);
    if pos < ts.len() {
        proof {
            assert(tv[pos as int] == (ts@[pos as int].0@, ts@[pos as int].1));
        }
        let is_plus = matches!(&ts[pos].0, Token::Plus);
        let is_minus = matches!(&ts[pos].0, Token::Minus);
        if is_plus || is_minus {
            match parse_fact(ts, pos + 1) {
                Ok((b, p2)) => {
                    let span = Span { lo: acc.span.lo, hi: b.span.hi };
                    let n = Expr {
                        span,
                        node: if is_plus {
                            Expr_::Add(Box::new(acc), Box::new(b))
                        } else {
                            Expr_::Sub(Box::new(acc), Box::new(b))
                        },
                    };
                    parse_term_rest(ts, p2, n)
                },
                Err(e) => Err(e),
            }
        } else {
            Ok((acc, pos))
        }
    } else {
        Ok((acc, pos))
    }
}

/// Whether the token at `pos` is a comparison or boolean operator.
fn cmp_tok_at(ts: &Vec<(Token, Span)>, pos: usize) -> (r: bool)
    requires
        pos < ts@.len(),
    ensures
        r == is_cmp_tok(ts@[pos as int].0@),
{
    match &ts[pos].0 {
        Token::Sym(Symbol::Equality) => true,
        Token::Sym(Symbol::InEquality) => true,
        Token::Sym(Symbol::Greater) => true,
        Token::Sym(Symbol::Less) => true,
        Token::Sym(Symbol::GreaterEqual) => true,
        Token::Sym(Symbol::LessEqual) => true,
        Token::AndAnd => true,
        Token::OrOr => true,
        _ => false,
    }
}

/// A whole expression.
fn parse_term(ts: &Vec<(Token, Span)>, pos: usize) -> (r: Result<(Expr, usize), ParseError>)
    requires
        pos <= ts@.len(),
    ensures
        match r {
            Ok(ep) => spec_parse_term(toks_view(ts@), pos as int) == Ok::<
                (SpecExpr, int),
                SpecParseErr,
            >((ep.0@, ep.1 as int)) && pos < ep.1 <= ts@.len(),
            Err(er) => spec_parse_term(toks_view(ts@), pos as int) == Err::<
                (SpecExpr, int),
                SpecParseErr,
            >(perr_view(er)),
        },
    decreases ts@.len() - pos, 4int,
{
    let ghost tv = toks_view(ts@);
    match parse_atom(ts, pos) {
        Ok((a, p1)) => {
            if p1 < ts.len() {
                proof {
                    assert(tv[p1 as int] == (ts@[p1 as int].0@, ts@[p1 as int].1));
                }
                if cmp_tok_at(ts, p1) {
                    match parse_atom(ts, p1 + 1) {
                        Ok((b, p2)) => {
                            match mk_cmp(&ts[p1].0, a, b) {
                                Ok(n) => parse_term_rest(ts, p2, n),
                                Err(_) => {
                                    proof {
                                        assert(false);
                                    }
                                    Err(err_here(ts, p1, "expected an expression"))
                                },
                            }
                        },
                        Err(e) => Err(e),
                    }
                } else {
                    match parse_fact_rest(ts, p1, a) {
                        Ok((f, p2)) => parse_term_rest(ts, p2, f),
                        Err(e) => Err(e),
                    }
                }
            } else {
                match parse_fact_rest(ts, p1, a) {
                    Ok((f, p2)) => parse_term_rest(ts, p2, f),
                    Err(e) => Err(e),
                }
            }
        },
        Err(e) => Err(e),
    }
}

/// Whether the token at `pos` (if any) can start a statement.
fn stmt_start_at(ts: &Vec<(Token, Span)>, pos: usize) -> (r: bool)
    requires
        pos <= ts@.len(),
    ensures
        r == is_stmt_start(tok_at(toks_view(ts@), pos as int)),
{
    if pos < ts.len() {
        proof {
            assert(toks_view(ts@)[pos as int] == (ts@[pos as int].0@, ts@[pos as int].1));
        }
        match &ts[pos].0 {
            Token::Variable => true,
            Token::Mutate => true,
            Token::Return => true,
            Token::If => true,
            Token::For => true,
            Token::Pass => true,
            _ => false,
        }
    } else {
        false
    }
}

/// Whether the token at `pos` is exactly `sym`.
fn sym_at(ts: &Vec<(Token, Span)>, pos: usize, sym: Symbol) -> (r: bool)
    requires
        pos <= ts@.len(),
    ensures
        r == (tok_at(toks_view(ts@), pos as int) == Some(SpecToken::Sym(sym))),
{
    if pos < ts.len() {
        proof {
            assert(toks_view(ts@)[pos as int] == (ts@[pos as int].0@, ts@[pos as int].1));
        }
        match &ts[pos].0 {
            Token::Sym(s) => *s == sym,
            _ => false,
        }
    } else {
        false
    }
}

/// One statement.
#[verifier::rlimit(100)]
#[verifier::spinoff_prover]
fn parse_stmt(ts: &Vec<(Token, Span)>, pos: usize) -> (r: Result<(Expr, usize), ParseError>)
    requires
        pos <= ts@.len(),
    ensures
        match r {
            Ok(ep) => spec_parse_stmt(toks_view(ts@), pos as int) == Ok::<
                (SpecExpr, int),
                SpecParseErr,
            >((ep.0@, ep.1 as int)) && pos < ep.1 <= ts@.len(),
            Err(er) => spec_parse_stmt(toks_view(ts@), pos as int) == Err::<
                (SpecExpr, int),
                SpecParseErr,
            >(perr_view(er)),
        },
    decreases ts@.len() - pos, 0int,
{
    let ghost tv = toks_view(ts@);
    if pos >= ts.len() {
        return Err(err_here(ts, pos, "expected a statement"));
    }
    proof {
        assert(tv[pos as int] == (ts@[pos as int].0@, ts@[pos as int].1));
    }
    let sp = ts[pos].1;
    let is_var = matches!(&ts[pos].0, Token::Variable);
    let is_mut = matches!(&ts[pos].0, Token::Mutate);
    if is_var || is_mut {
        if pos + 1 < ts.len() {
            proof {
                assert(tv[pos as int + 1] == (ts@[pos as int + 1].0@, ts@[pos as int + 1].1));
            }
            let name = match &ts[pos + 1].0 {
                Token::Ident(x) => Some(x.clone()),
                _ => None,
            };
            match name {
                Some(x) => {
                    if sym_at(ts, pos + 2, Symbol::Equal) {
                        match parse_term(ts, pos + 3) {
                            Ok((e, p)) => {
                                if sym_at(ts, p, Symbol::SemiColon) {
                                    let span = Span { lo: sp.lo, hi: ts[p].1.hi };
                                    proof {
                                        assert(tv[p as int] == (
                                            ts@[p as int].0@,
                                            ts@[p as int].1,
                                        ));
                                    }
                                    let node = if is_var {
                                        Expr_::Assign(x, Box::new(e))
                                    } else {
                                        Expr_::ReAssign(x, Box::new(e))
                                    };
                                    Ok((Expr { span, node }, p + 1))
                                } else {
                                    Err(err_here(ts, p, "expected a semicolon"))
                                }
                            },
                            Err(e) => Err(e),
                        }
                    } else {
                        Err(err_here(ts, pos + 2, "expected an equals sign"))
                    }
                },
                None => Err(err_here(ts, pos + 1, "expected a variable name")),
            }
        } else {
            Err(err_here(ts, pos + 1, "expected a variable name"))
        }
    } else if matches!(&ts[pos].0, Token::Return) {
        match parse_term(ts, pos + 1) {
            Ok((e, p)) => {
                if sym_at(ts, p, Symbol::SemiColon) {
                    proof {
                        assert(tv[p as int] == (ts@[p as int].0@, ts@[p as int].1));
                    }
                    let span = Span { lo: sp.lo, hi: ts[p].1.hi };
                    let Expr { span: _, node } = e;
                    Ok((Expr { span, node }, p + 1))
                } else {
                    Err(err_here(ts, p, "expected a semicolon"))
                }
            },
            Err(e) => Err(e),
        }
    } else if matches!(&ts[pos].0, Token::If) {
        match parse_term(ts, pos + 1) {
            Ok((c, p)) => {
                if sym_at(ts, p, Symbol::SemiColon) && p + 1 < ts.len() && matches!(
                    &ts[p + 1].0,
                    Token::LBrace,
                ) {
                    proof {
                        assert(tv[p as int + 1] == (ts@[p as int + 1].0@, ts@[p as int + 1].1));
                    }
                    match parse_stmts(ts, p + 2) {
                        Ok((tb, pt)) => {
                            let branch_ok = pt < ts.len() && matches!(&ts[pt].0, Token::RBrace)
                                && sym_at(ts, pt + 1, Symbol::SemiColon) && pt + 2 < ts.len()
                                && matches!(&ts[pt + 2].0, Token::Else) && sym_at(
                                ts,
                                pt + 3,
                                Symbol::SemiColon,
                            ) && pt + 4 < ts.len() && matches!(&ts[pt + 4].0, Token::LBrace);
                            proof {
                                if pt < ts.len() {
                                    assert(tv[pt as int] == (ts@[pt as int].0@, ts@[pt as int].1));
                                }
                                if pt + 2 < ts.len() {
                                    assert(tv[pt as int + 2] == (
                                        ts@[pt as int + 2].0@,
                                        ts@[pt as int + 2].1,
                                    ));
                                }
                                if pt + 4 < ts.len() {
                                    assert(tv[pt as int + 4] == (
                                        ts@[pt as int + 4].0@,
                                        ts@[pt as int + 4].1,
                                    ));
                                }
                            }
                            if branch_ok {
                                match parse_stmts(ts, pt + 5) {
                                    Ok((eb, pe)) => {
                                        let close_ok = pe < ts.len() && matches!(
                                            &ts[pe].0,
                                            Token::RBrace,
                                        ) && sym_at(ts, pe + 1, Symbol::SemiColon);
                                        proof {
                                            if pe < ts.len() {
                                                assert(tv[pe as int] == (
                                                    ts@[pe as int].0@,
                                                    ts@[pe as int].1,
                                                ));
                                            }
                                            if pe + 1 < ts.len() {
                                                assert(tv[pe as int + 1] == (
                                                    ts@[pe as int + 1].0@,
                                                    ts@[pe as int + 1].1,
                                                ));
                                            }
                                        }
                                        if close_ok {
                                            let span = Span { lo: sp.lo, hi: ts[pe + 1].1.hi };
                                            Ok(
                                                (
                                                    Expr {
                                                        span,
                                                        node: Expr_::IfElse(Box::new(c), tb, eb),
                                                    },
                                                    pe + 2,
                                                ),
                                            )
                                        } else {
                                            Err(
                                                err_here(
                                                    ts,
                                                    pe,
                                                    "expected the else branch to close",
                                                ),
                                            )
                                        }
                                    },
                                    Err(e) => Err(e),
                                }
                            } else {
                                Err(err_here(ts, pt, "expected an else branch"))
                            }
                        },
                        Err(e) => Err(e),
                    }
                } else {
                    proof {
                        if p + 1 < ts.len() {
                            assert(tv[p as int + 1] == (ts@[p as int + 1].0@, ts@[p as int + 1].1));
                        }
                    }
                    Err(err_here(ts, p, "expected a braced branch after the condition"))
                }
            },
            Err(e) => Err(e),
        }
    } else if matches!(&ts[pos].0, Token::For) {
        match parse_stmt(ts, pos + 1) {
            Ok((init, p1)) => {
                match parse_term(ts, p1) {
                    Ok((c, p2)) => {
                        if sym_at(ts, p2, Symbol::SemiColon) {
                            match parse_stmt(ts, p2 + 1) {
                                Ok((st, p3)) => {
                                    let brace_ok = p3 < ts.len() && matches!(
                                        &ts[p3].0,
                                        Token::LBrace,
                                    );
                                    proof {
                                        if p3 < ts.len() {
                                            assert(tv[p3 as int] == (
                                                ts@[p3 as int].0@,
                                                ts@[p3 as int].1,
                                            ));
                                        }
                                    }
                                    if brace_ok {
                                        match parse_stmts(ts, p3 + 1) {
                                            Ok((b, p4)) => {
                                                let close_ok = p4 < ts.len() && matches!(
                                                    &ts[p4].0,
                                                    Token::RBrace,
                                                ) && sym_at(ts, p4 + 1, Symbol::SemiColon);
                                                proof {
                                                    if p4 < ts.len() {
                                                        assert(tv[p4 as int] == (
                                                            ts@[p4 as int].0@,
                                                            ts@[p4 as int].1,
                                                        ));
                                                    }
                                                    if p4 + 1 < ts.len() {
                                                        assert(tv[p4 as int + 1] == (
                                                            ts@[p4 as int + 1].0@,
                                                            ts@[p4 as int + 1].1,
                                                        ));
                                                    }
                                                }
                                                if close_ok {
                                                    let span = Span {
                                                        lo: sp.lo,
                                                        hi: ts[p4 + 1].1.hi,
                                                    };
                                                    Ok(
                                                        (
                                                            Expr {
                                                                span,
                                                                node: Expr_::ForLoop(
                                                                    Box::new(init),
                                                                    Box::new(c),
                                                                    Box::new(st),
                                                                    b,
                                                                ),
                                                            },
                                                            p4 + 2,
                                                        ),
                                                    )
                                                } else {
                                                    Err(
                                                        err_here(
                                                            ts,
                                                            p4,
                                                            "expected the loop body to close",
                                                        ),
                                                    )
                                                }
                                            },
                                            Err(e) => Err(e),
                                        }
                                    } else {
                                        Err(err_here(ts, p3, "expected a braced loop body"))
                                    }
                                },
                                Err(e) => Err(e),
                            }
                        } else {
                            Err(err_here(ts, p2, "expected a semicolon after the loop condition"))
                        }
                    },
                    Err(e) => Err(e),
                }
            },
            Err(e) => Err(e),
        }
    } else if matches!(&ts[pos].0, Token::Pass) {
        if sym_at(ts, pos + 1, Symbol::SemiColon) {
            proof {
                assert(tv[pos as int + 1] == (ts@[pos as int + 1].0@, ts@[pos as int + 1].1));
            }
            let span = Span { lo: sp.lo, hi: ts[pos + 1].1.hi };
            Ok((Expr { span, node: Expr_::Pass }, pos + 2))
        } else {
            Err(err_here(ts, pos + 1, "expected a semicolon"))
        }
    } else {
        Err(err_here(ts, pos, "expected a statement"))
    }
}

/// One or more statements, as many as follow each other.
fn parse_stmts(ts: &Vec<(Token, Span)>, pos: usize) -> (r: Result<(Vec<Expr>, usize), ParseError>)
    requires
        pos <= ts@.len(),
    ensures
        match r {
            Ok(ep) => spec_parse_stmts(toks_view(ts@), pos as int) == Ok::<
                (Seq<SpecExpr>, int),
                SpecParseErr,
            >((exprs_view(ep.0@), ep.1 as int)) && pos < ep.1 <= ts@.len(),
            Err(er) => spec_parse_stmts(toks_view(ts@), pos as int) == Err::<
                (Seq<SpecExpr>, int),
                SpecParseErr,
            >(perr_view(er)),
        },
    decreases ts@.len() - pos, 1int,
{
    match parse_stmt(ts, pos) {
        Ok((e, p)) => {
            if stmt_start_at(ts, p) {
                match parse_stmts(ts, p) {
                    Ok((mut rest, p2)) => {
                        proof {
                            lemma_exprs_view_insert_front(rest@, e);
                        }
                        rest.insert(0, e);
                        Ok((rest, p2))
                    },
                    Err(er) => Err(er),
                }
            } else {
                let v = vec![e];
                proof {
                    assert(exprs_view(v@) =~= seq![expr_view(e)]);
                }
                Ok((v, p))
            }
        },
        Err(e) => Err(e),
    }
}

/// A function body: a braced statement list, or a single bare
/// expression.
fn parse_block(ts: &Vec<(Token, Span)>, pos: usize) -> (r: Result<(Vec<Expr>, usize), ParseError>)
    requires
        pos <= ts@.len(),
    ensures
        match r {
            Ok(ep) => spec_parse_block(toks_view(ts@), pos as int) == Ok::<
                (Seq<SpecExpr>, int),
                SpecParseErr,
            >((exprs_view(ep.0@), ep.1 as int)) && pos < ep.1 <= ts@.len(),
            Err(er) => spec_parse_block(toks_view(ts@), pos as int) == Err::<
                (Seq<SpecExpr>, int),
                SpecParseErr,
            >(perr_view(er)),
        },
{
    let ghost tv = toks_view(ts@);
    let braced = pos < ts.len() && matches!(&ts[pos].0, Token::LBrace);
    proof {
        if pos < ts.len() {
            assert(tv[pos as int] == (ts@[pos as int].0@, ts@[pos as int].1));
        }
    }
    if braced {
        match parse_stmts(ts, pos + 1) {
            Ok((b, p)) => {
                let close_ok = p < ts.len() && matches!(&ts[p].0, Token::RBrace);
                proof {
                    if p < ts.len() {
                        assert(tv[p as int] == (ts@[p as int].0@, ts@[p as int].1));
                    }
                }
                if close_ok {
                    Ok((b, p + 1))
                } else {
                    Err(err_here(ts, p, "expected the block to close"))
                }
            },
            Err(e) => Err(e),
        }
    } else {
        match parse_term(ts, pos) {
            Ok((e, p)) => {
                let v = vec![e];
                proof {
                    assert(exprs_view(v@) =~= seq![expr_view(e)]);
                }
                Ok((v, p))
            },
            Err(e) => Err(e),
        }
    }
}

/// A declaration's type chain.
fn parse_declare_args(ts: &Vec<(Token, Span)>, pos: usize) -> (r: Result<
    (Vec<String>, usize),
    ParseError,
>)
    requires
        pos <= ts@.len(),
    ensures
        match r {
            Ok(ep) => spec_parse_declare_args(toks_view(ts@), pos as int) == Ok::<
                (Seq<Seq<char>>, int),
                SpecParseErr,
            >((strings_view(ep.0@), ep.1 as int)) && pos < ep.1 <= ts@.len(),
            Err(er) => spec_parse_declare_args(toks_view(ts@), pos as int) == Err::<
                (Seq<Seq<char>>, int),
                SpecParseErr,
            >(perr_view(er)),
        },
    decreases ts@.len() - pos,
{
    let ghost tv = toks_view(ts@);
    if pos >= ts.len() {
        return Err(err_here(ts, pos, "expected a type"));
    }
    proof {
        assert(tv[pos as int] == (ts@[pos as int].0@, ts@[pos as int].1));
    }
    let first = match &ts[pos].0 {
        Token::Ident(x) => Some(x.clone()),
        Token::Sym(Symbol::Bang) => Some("void".to_owned()),
        _ => None,
    };
    match first {
        Some(x) => {
            if sym_at(ts, pos + 1, Symbol::Arrow) {
                match parse_declare_args(ts, pos + 2) {
                    Ok((mut rest, p)) => {
                        proof {
                            lemma_strings_view_insert_front(rest@, x);
                        }
                        rest.insert(0, x);
                        Ok((rest, p))
                    },
                    Err(e) => Err(e),
                }
            } else {
                let v = vec![x];
                proof {
                    assert(strings_view(v@) =~= seq![v@[0]@]);
                }
                Ok((v, pos + 1))
            }
        },
        None => Err(err_here(ts, pos, "expected a type")),
    }
}

/// A definition's parameter names.
fn parse_define_args(ts: &Vec<(Token, Span)>, pos: usize) -> (r: Result<
    (Vec<String>, usize),
    ParseError,
>)
    requires
        pos <= ts@.len(),
    ensures
        match r {
            Ok(ep) => spec_parse_define_args(toks_view(ts@), pos as int) == Ok::<
                (Seq<Seq<char>>, int),
                SpecParseErr,
            >((strings_view(ep.0@), ep.1 as int)) && pos < ep.1 <= ts@.len(),
            Err(er) => spec_parse_define_args(toks_view(ts@), pos as int) == Err::<
                (Seq<Seq<char>>, int),
                SpecParseErr,
            >(perr_view(er)),
        },
    decreases ts@.len() - pos,
{
    let ghost tv = toks_view(ts@);
    if pos >= ts.len() {
        return Err(err_here(ts, pos, "expected a parameter name"));
    }
    proof {
        assert(tv[pos as int] == (ts@[pos as int].0@, ts@[pos as int].1));
    }
    match &ts[pos].0 {
        Token::Ident(x) => {
            let more = pos + 1 < ts.len() && matches!(&ts[pos + 1].0, Token::Ident(_));
            proof {
                if pos + 1 < ts.len() {
                    assert(tv[pos as int + 1] == (ts@[pos as int + 1].0@, ts@[pos as int + 1].1));
                }
            }
            if more {
                match parse_define_args(ts, pos + 1) {
                    Ok((mut rest, p)) => {
                        let xo = x.clone();
                        proof {
                            lemma_strings_view_insert_front(rest@, xo);
                        }
                        rest.insert(0, xo);
                        Ok((rest, p))
                    },
                    Err(e) => Err(e),
                }
            } else {
                let v = vec![x.clone()];
                proof {
                    assert(strings_view(v@) =~= seq![v@[0]@]);
                }
                Ok((v, pos + 1))
            }
        },
        _ => Err(err_here(ts, pos, "expected a parameter name")),
    }
}

/// A top-level item: a declaration or a definition.
fn parse_outer(ts: &Vec<(Token, Span)>, pos: usize) -> (r: Result<(Expr, usize), ParseError>)
    requires
        pos <= ts@.len(),
    ensures
        match r {
            Ok(ep) => spec_parse_outer(toks_view(ts@), pos as int) == Ok::<
                (SpecExpr, int),
                SpecParseErr,
            >((ep.0@, ep.1 as int)) && pos < ep.1 <= ts@.len(),
            Err(er) => spec_parse_outer(toks_view(ts@), pos as int) == Err::<
                (SpecExpr, int),
                SpecParseErr,
            >(perr_view(er)),
        },
{
    let ghost tv = toks_view(ts@);
    if pos >= ts.len() {
        return Err(err_here(ts, pos, "expected a declaration or definition"));
    }
    proof {
        assert(tv[pos as int] == (ts@[pos as int].0@, ts@[pos as int].1));
    }
    let sp = ts[pos].1;
    let is_declare = matches!(&ts[pos].0, Token::Declare);
    let is_define = matches!(&ts[pos].0, Token::Define);
    if !(is_declare || is_define) {
        return Err(err_here(ts, pos, "expected a declaration or definition"));
    }
    if pos + 1 >= ts.len() {
        return Err(err_here(ts, pos + 1, "expected a function name"));
    }
    proof {
        assert(tv[pos as int + 1] == (ts@[pos as int + 1].0@, ts@[pos as int + 1].1));
    }
    let name = match &ts[pos + 1].0 {
        Token::Ident(x) => Some(x.clone()),
        _ => None,
    };
    let name = match name {
        Some(x) => x,
        None => {
            return Err(err_here(ts, pos + 1, "expected a function name"));
        },
    };
    if is_declare {
        if sym_at(ts, pos + 2, Symbol::Equal) {
            match parse_declare_args(ts, pos + 3) {
                Ok((args, p)) => {
                    proof {
                        assert(tv[p as int - 1] == (ts@[p as int - 1].0@, ts@[p as int - 1].1));
                    }
                    let span = Span { lo: sp.lo, hi: ts[p - 1].1.hi };
                    Ok((Expr { span, node: Expr_::Declare(name, args) }, p))
                },
                Err(e) => Err(e),
            }
        } else {
            Err(err_here(ts, pos + 2, "expected an equals sign"))
        }
    } else {
        if sym_at(ts, pos + 2, Symbol::Equal) {
            match parse_block(ts, pos + 3) {
                Ok((body, p)) => {
                    proof {
                        assert(tv[p as int - 1] == (ts@[p as int - 1].0@, ts@[p as int - 1].1));
                    }
                    let span = Span { lo: sp.lo, hi: ts[p - 1].1.hi };
                    let args: Vec<String> = Vec::new();
                    proof {
                        assert(strings_view(args@) =~= Seq::<Seq<char>>::empty());
                    }
                    Ok((Expr { span, node: Expr_::Define(name, args, body) }, p))
                },
                Err(e) => Err(e),
            }
        } else {
            match parse_define_args(ts, pos + 2) {
                Ok((args, p1)) => {
                    if sym_at(ts, p1, Symbol::Equal) {
                        match parse_block(ts, p1 + 1) {
                            Ok((body, p)) => {
                                proof {
                                    assert(tv[p as int - 1] == (
                                        ts@[p as int - 1].0@,
                                        ts@[p as int - 1].1,
                                    ));
                                }
                                let span = Span { lo: sp.lo, hi: ts[p - 1].1.hi };
                                Ok((Expr { span, node: Expr_::Define(name, args, body) }, p))
                            },
                            Err(e) => Err(e),
                        }
                    } else {
                        Err(err_here(ts, p1, "expected an equals sign"))
                    }
                },
                Err(e) => Err(e),
            }
        }
    }
}

/// Parses a whole token stream into a `Program`: top-level declarations
/// and definitions, each closed by a semicolon. Returns exactly what
/// the grammar in `grammar` derives, or the error it reports.
pub fn parse(tokens: Vec<(Token, Span)>) -> (r: Result<Program, ParseError>)
    ensures
        match spec_parse(toks_view(tokens@)) {
            Ok(es) => r matches Ok(p) && p@ == es,
            Err(se) => r matches Err(er) && perr_view(er) == se,
        },
{
    let ts = &tokens;
    let ghost tv = toks_view(tokens@);
    let mut acc: Vec<Expr> = Vec::new();
    let mut pos: usize = 0;
    loop
        invariant_except_break
            pos <= ts@.len(),
            tv == toks_view(ts@),
            ts == &tokens,
            spec_parse_program(tv, 0) == (match spec_parse_program(tv, pos as int) {
                Ok((rest, p)) => Ok::<(Seq<SpecExpr>, int), SpecParseErr>(
                    (exprs_view(acc@) + rest, p),
                ),
                Err(e) => Err::<(Seq<SpecExpr>, int), SpecParseErr>(e),
            }),
        ensures
            match spec_parse_program(tv, 0) {
                Ok((es, _)) => exprs_view(acc@) == es && pos == ts@.len(),
                Err(_) => false,
            },
        decreases ts@.len() - pos,
    {
        if pos >= ts.len() {
            proof {
                assert(exprs_view(acc@) + Seq::<SpecExpr>::empty() =~= exprs_view(acc@));
            }
            break ;
        }
        match parse_outer(ts, pos) {
            Ok((e, p)) => {
                if sym_at(ts, p, Symbol::SemiColon) {
                    proof {
                        let step = spec_parse_program(tv, pos as int);
                        let inner = spec_parse_program(tv, p as int + 1);
                        lemma_exprs_view_push(acc@, e);
                        if inner is Ok {
                            assert(exprs_view(acc@) + (seq![expr_view(e)] + inner->Ok_0.0)
                                =~= exprs_view(acc@.push(e)) + inner->Ok_0.0);
                        }
                    }
                    acc.push(e);
                    pos = p + 1;
                } else {
                    return Err(err_here(ts, p, "expected a semicolon"));
                }
            },
            Err(e) => {
                return Err(e);
            },
        }
    }
    Ok(Program { stmts: acc })
}

} // verus!
