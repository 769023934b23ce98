//! The code generator: lowers a parsed `Program` into an IR `Module`.
//!
//! `CodeGen::run` performs the two passes of `lowering` — signatures
//! first, bodies second — appends the synthetic `_start` entry, and
//! runs the structural verification over the result. Every function
//! here returns exactly what its spec counterpart in `lowering`
//! computes.

use vstd::prelude::*;
use crate::ir::{BinOp, Block, CmpOp, Func, Instr, Module, Operand, Term, Ty, SpecBlock, SpecInstr,
    SpecModule, SpecOperand, blocks_view, funcs_view, instrs_view, module_ok, ops_view, verify_module};
use crate::lexer::str_range_eq;
use crate::lowering::{ErrorKind, SpecBinding, SpecCodegenError, SpecCur, SpecFnCtx, func_lookup,
    func_lookup_from, lookup, lookup_from, param_table, resolve_ty, shift_op, spec_entry,
    spec_generate, spec_lower_args, spec_lower_define, spec_lower_expr, spec_lower_stmt,
    spec_lower_stmts, spec_param_count, spec_pass1, spec_pass2};
use crate::parser::{Expr, Expr_, Program, exprs_view, strings_view};
use crate::sound::{ctx_wf, cur_ok, lemma_lower_expr_wf, lemma_lower_stmt_wf, step_post,
    table_wf};

verus! {

/// Why generation failed, and the name it concerns (empty where none
/// applies).
#[derive(Debug, Clone, PartialEq)]
pub struct CodegenError {
    pub kind: ErrorKind,
    pub name: String,
}

impl View for CodegenError {
    type V = SpecCodegenError;

    open spec fn view(&self) -> SpecCodegenError {
        SpecCodegenError { kind: self.kind, name: self.name@ }
    }
}

/// How a variable name is bound.
#[derive(Debug, Clone, Copy, PartialEq, Eq, Structural)]
pub enum Binding {
    Slot(usize),
    ParamReg(usize),
}

impl View for Binding {
    type V = SpecBinding;

    open spec fn view(&self) -> SpecBinding {
        match self {
            Binding::Slot(s) => SpecBinding::Slot(*s as int),
            Binding::ParamReg(i) => SpecBinding::ParamReg(*i as int),
        }
    }
}

/// The value of a variable table.
pub open spec fn table_view(t: Seq<(String, Binding)>) -> Seq<(Seq<char>, SpecBinding)> {
    t.map(|i: int, p: (String, Binding)| (p.0@, p.1@))
}

/// The value of the block list under construction.
pub open spec fn opt_blocks_view(v: Seq<Option<Block>>) -> Seq<Option<SpecBlock>> {
    v.map(
        |i: int, b: Option<Block>|
            match b {
                Some(bb) => Some(bb@),
                None => None,
            },
    )
}

/// The innermost binding of `name`.
fn lookup_var(table: &Vec<(String, Binding)>, name: &String) -> (r: Option<Binding>)
    ensures
        match r {
            Some(b) => lookup(table_view(table@), name@) == Some(b@),
            None => lookup(table_view(table@), name@) is None,
        },
{
    let ghost tv = table_view(table@);
    let mut i = table.len();
    loop
        invariant_except_break
            i <= table@.len(),
            tv == table_view(table@),
            lookup(tv, name@) == lookup_from(tv, name@, i as int),
        ensures
            match lookup(tv, name@) {
                Some(_) => false,
                None => true,
            },
        decreases i,
    {
        if i == 0 {
            break ;
        }
        proof {
            assert(tv[i - 1] == (table@[i - 1].0@, table@[i - 1].1@));
        }
        if table[i - 1].0.eq(name) {
            return Some(table[i - 1].1);
        }
        i = i - 1;
    }
    None
}

/// The index of the first function of that name.
fn lookup_func(funcs: &Vec<Func>, name: &String) -> (r: Option<usize>)
    ensures
        match r {
            Some(i) => func_lookup(funcs_view(funcs@), name@) == Some(i as int) && i < funcs@.len(),
            None => func_lookup(funcs_view(funcs@), name@) is None,
        },
{
    let ghost fv = funcs_view(funcs@);
    let mut i: usize = 0;
    loop
        invariant_except_break
            i <= funcs@.len(),
            fv == funcs_view(funcs@),
            func_lookup(fv, name@) == func_lookup_from(fv, name@, i as int),
        ensures
            match func_lookup(fv, name@) {
                Some(_) => false,
                None => true,
            },
        decreases funcs@.len() - i,
    {
        if i >= funcs.len() {
            break ;
        }
        proof {
            assert(fv[i as int] == funcs@[i as int]@);
        }
        if funcs[i].name.eq(name) {
            return Some(i);
        }
        i = i + 1;
    }
    None
}

/// The type a spelling names.
fn resolve_type(s: &String) -> (r: Option<Ty>)
    ensures
        r == resolve_ty(s@),
{
    let st = s.as_str();
    let len = st.unicode_len();
    if str_range_eq(st, 0, len, "byte") {
        proof {
            assert(st@.subrange(0, st@.len() as int) =~= s@);
        }
        Some(Ty::Byte)
    } else if str_range_eq(st, 0, len, "void") {
        proof {
            assert(st@.subrange(0, st@.len() as int) =~= s@);
        }
        Some(Ty::Void)
    } else {
        proof {
            assert(st@.subrange(0, st@.len() as int) =~= s@);
        }
        None
    }
}

pub broadcast proof fn lemma_instrs_view_push(v: Seq<Instr>, i: Instr)
    ensures
        #[trigger] instrs_view(v.push(i)) =~= instrs_view(v).push(i@),
{
}

pub broadcast proof fn lemma_instrs_view_append(a: Seq<Instr>, b: Seq<Instr>)
    ensures
        #[trigger] instrs_view(a + b) =~= instrs_view(a) + instrs_view(b),
{
}

pub broadcast proof fn lemma_ops_view_push(v: Seq<Operand>, o: Operand)
    ensures
        #[trigger] ops_view(v.push(o)) =~= ops_view(v).push(o@),
{
}

pub broadcast proof fn lemma_opt_blocks_view_push(v: Seq<Option<Block>>, b: Option<Block>)
    ensures
        #[trigger] opt_blocks_view(v.push(b)) =~= opt_blocks_view(v).push(
            match b {
                Some(bb) => Some(bb@),
                None => None,
            },
        ),
{
}

pub broadcast proof fn lemma_opt_blocks_view_update(v: Seq<Option<Block>>, i: int, b: Option<Block>)
    requires
        0 <= i < v.len(),
    ensures
        #[trigger] opt_blocks_view(v.update(i, b)) =~= opt_blocks_view(v).update(
            i,
            match b {
                Some(bb) => Some(bb@),
                None => None,
            },
        ),
{
}

pub broadcast proof fn lemma_table_view_push(v: Seq<(String, Binding)>, p: (String, Binding))
    ensures
        #[trigger] table_view(v.push(p)) =~= table_view(v).push((p.0@, p.1@)),
{
}

pub broadcast proof fn lemma_funcs_view_push(v: Seq<Func>, f: Func)
    ensures
        #[trigger] funcs_view(v.push(f)) =~= funcs_view(v).push(f@),
{
}

pub broadcast proof fn lemma_funcs_view_update(v: Seq<Func>, i: int, f: Func)
    requires
        0 <= i < v.len(),
    ensures
        #[trigger] funcs_view(v.update(i, f)) =~= funcs_view(v).update(i, f@),
{
}

pub broadcast proof fn lemma_blocks_view_push(v: Seq<Block>, b: Block)
    ensures
        #[trigger] blocks_view(v.push(b)) =~= blocks_view(v).push(b@),
{
}

/// Shifts a relative operand over `k` appended instructions.
fn shift_operand(o: Operand, k: usize) -> (r: Operand)
    requires
        o matches Operand::Rel(d) ==> d + k <= usize::MAX,
    ensures
        r@ == shift_op(o@, k as int),
{
    match o {
        Operand::Rel(d) => Operand::Rel(d + k),
        x => x,
    }
}

/// The binary operator nodes.
pub open spec fn is_binary_node(n: crate::parser::SpecExpr_) -> bool {
    ||| n is Add
    ||| n is Sub
    ||| n is Mul
    ||| n is Div
    ||| n is Mod
    ||| n is LAnd
    ||| n is LOr
    ||| n is Eq
    ||| n is NEq
    ||| n is Gt
    ||| n is Lt
    ||| n is EGt
    ||| n is ELt
}

/// Lowers the two children of a binary node.
fn lower_two(
    funcs: &Vec<Func>,
    table: &Vec<(String, Binding)>,
    a: &Expr,
    b: &Expr,
    Ghost(e): Ghost<Expr>,
    Ghost(params): Ghost<int>,
    Ghost(slots): Ghost<int>,
) -> (r: Result<((Vec<Instr>, Operand), (Vec<Instr>, Operand)), CodegenError>)
    requires
        table_wf(table_view(table@), params, slots),
        decreases_to!(e => *a),
        decreases_to!(e => *b),
    ensures
        match r {
            Ok(p) => {
                &&& spec_lower_expr(funcs_view(funcs@), table_view(table@), a@) == Ok::<
                    (Seq<SpecInstr>, SpecOperand),
                    SpecCodegenError,
                >((instrs_view(p.0.0@), p.0.1@))
                &&& spec_lower_expr(funcs_view(funcs@), table_view(table@), b@) == Ok::<
                    (Seq<SpecInstr>, SpecOperand),
                    SpecCodegenError,
                >((instrs_view(p.1.0@), p.1.1@))
                &&& (p.0.1@ matches SpecOperand::Rel(d) ==> 1 <= d <= p.0.0@.len())
            },
            Err(er) => {
                let ra = spec_lower_expr(funcs_view(funcs@), table_view(table@), a@);
                let rb = spec_lower_expr(funcs_view(funcs@), table_view(table@), b@);
                (ra matches Err(e1) && e1 == er@) || (ra is Ok && (rb matches Err(e2) && e2 == er@))
            },
        },
    decreases e, 0int,
{
    let ghost fv = funcs_view(funcs@);
    let ghost tv = table_view(table@);
    match lower_expr(funcs, table, a, Ghost(params), Ghost(slots)) {
        Err(er) => Err(er),
        Ok((ia, oa)) => {
            match lower_expr(funcs, table, b, Ghost(params), Ghost(slots)) {
                Err(er) => Err(er),
                Ok((ib, ob)) => {
                    proof {
                        lemma_lower_expr_wf(fv, tv, params, slots, a@);
                        assert(crate::ir::operand_ok(
                            fv,
                            params,
                            instrs_view(ia@),
                            instrs_view(ia@).len() as int,
                            oa@,
                            crate::ir::VTy::Byte,
                        ));
                    }
                    Ok(((ia, oa), (ib, ob)))
                },
            }
        },
    }
}

/// Lowers an arithmetic, bitwise, or comparison node.
#[verifier::rlimit(100)]
#[verifier::spinoff_prover]
fn lower_binary(
    funcs: &Vec<Func>,
    table: &Vec<(String, Binding)>,
    e: &Expr,
    Ghost(params): Ghost<int>,
    Ghost(slots): Ghost<int>,
) -> (r: Result<(Vec<Instr>, Operand), CodegenError>)
    requires
        table_wf(table_view(table@), params, slots),
        is_binary_node(e@.node),
    ensures
        match r {
            Ok(io) => spec_lower_expr(funcs_view(funcs@), table_view(table@), e@) == Ok::<
                (Seq<SpecInstr>, SpecOperand),
                SpecCodegenError,
            >((instrs_view(io.0@), io.1@)),
            Err(er) => spec_lower_expr(funcs_view(funcs@), table_view(table@), e@) == Err::<
                (Seq<SpecInstr>, SpecOperand),
                SpecCodegenError,
            >(er@),
        },
    decreases e, 1int,
{
    let ghost fv = funcs_view(funcs@);
    let ghost tv = table_view(table@);
    match &e.node {
        Expr_::Add(a, b) => {
            match lower_two(funcs, table, a, b, Ghost(*e), Ghost(params), Ghost(slots)) {
                Err(er) => Err(er),
                Ok((pa, pb)) => Ok(join_bin(pa.0, pa.1, pb.0, pb.1, BinOp::Add)),
            }
        },
        Expr_::Sub(a, b) => {
            match lower_two(funcs, table, a, b, Ghost(*e), Ghost(params), Ghost(slots)) {
                Err(er) => Err(er),
                Ok((pa, pb)) => Ok(join_bin(pa.0, pa.1, pb.0, pb.1, BinOp::Sub)),
            }
        },
        Expr_::Mul(a, b) => {
            match lower_two(funcs, table, a, b, Ghost(*e), Ghost(params), Ghost(slots)) {
                Err(er) => Err(er),
                Ok((pa, pb)) => Ok(join_bin(pa.0, pa.1, pb.0, pb.1, BinOp::Mul)),
            }
        },
        Expr_::Div(a, b) => {
            match lower_two(funcs, table, a, b, Ghost(*e), Ghost(params), Ghost(slots)) {
                Err(er) => Err(er),
                Ok((pa, pb)) => Ok(join_bin(pa.0, pa.1, pb.0, pb.1, BinOp::Div)),
            }
        },
        Expr_::Mod(a, b) => {
            match lower_two(funcs, table, a, b, Ghost(*e), Ghost(params), Ghost(slots)) {
                Err(er) => Err(er),
                Ok((pa, pb)) => Ok(join_bin(pa.0, pa.1, pb.0, pb.1, BinOp::Rem)),
            }
        },
        Expr_::LAnd(a, b) => {
            match lower_two(funcs, table, a, b, Ghost(*e), Ghost(params), Ghost(slots)) {
                Err(er) => Err(er),
                Ok((pa, pb)) => Ok(join_bin(pa.0, pa.1, pb.0, pb.1, BinOp::And)),
            }
        },
        Expr_::LOr(a, b) => {
            match lower_two(funcs, table, a, b, Ghost(*e), Ghost(params), Ghost(slots)) {
                Err(er) => Err(er),
                Ok((pa, pb)) => Ok(join_bin(pa.0, pa.1, pb.0, pb.1, BinOp::Or)),
            }
        },
        Expr_::Eq(a, b) => {
            match lower_two(funcs, table, a, b, Ghost(*e), Ghost(params), Ghost(slots)) {
                Err(er) => Err(er),
                Ok((pa, pb)) => Ok(join_cmp(pa.0, pa.1, pb.0, pb.1, CmpOp::Eq)),
            }
        },
        Expr_::NEq(a, b) => {
            match lower_two(funcs, table, a, b, Ghost(*e), Ghost(params), Ghost(slots)) {
                Err(er) => Err(er),
                Ok((pa, pb)) => Ok(join_cmp(pa.0, pa.1, pb.0, pb.1, CmpOp::Ne)),
            }
        },
        Expr_::Gt(a, b) => {
            match lower_two(funcs, table, a, b, Ghost(*e), Ghost(params), Ghost(slots)) {
                Err(er) => Err(er),
                Ok((pa, pb)) => Ok(join_cmp(pa.0, pa.1, pb.0, pb.1, CmpOp::Gt)),
            }
        },
        Expr_::Lt(a, b) => {
            match lower_two(funcs, table, a, b, Ghost(*e), Ghost(params), Ghost(slots)) {
                Err(er) => Err(er),
                Ok((pa, pb)) => Ok(join_cmp(pa.0, pa.1, pb.0, pb.1, CmpOp::Lt)),
            }
        },
        Expr_::EGt(a, b) => {
            match lower_two(funcs, table, a, b, Ghost(*e), Ghost(params), Ghost(slots)) {
                Err(er) => Err(er),
                Ok((pa, pb)) => Ok(join_cmp(pa.0, pa.1, pb.0, pb.1, CmpOp::Ge)),
            }
        },
        Expr_::ELt(a, b) => {
            match lower_two(funcs, table, a, b, Ghost(*e), Ghost(params), Ghost(slots)) {
                Err(er) => Err(er),
                Ok((pa, pb)) => Ok(join_cmp(pa.0, pa.1, pb.0, pb.1, CmpOp::Le)),
            }
        },
        _ => {
            proof {
                assert(false);
            }
            Err(CodegenError { kind: ErrorKind::InvalidExpression, name: String::new() })
        },
    }
}

/// Lowers one expression: the instructions to append to the open block
/// and the operand naming the expression's value at their end.
#[verifier::rlimit(100)]
#[verifier::spinoff_prover]
fn lower_expr(
    funcs: &Vec<Func>,
    table: &Vec<(String, Binding)>,
    e: &Expr,
    Ghost(params): Ghost<int>,
    Ghost(slots): Ghost<int>,
) -> (r: Result<(Vec<Instr>, Operand), CodegenError>)
    requires
        table_wf(table_view(table@), params, slots),
    ensures
        match r {
            Ok(io) => spec_lower_expr(funcs_view(funcs@), table_view(table@), e@) == Ok::<
                (Seq<SpecInstr>, SpecOperand),
                SpecCodegenError,
            >((instrs_view(io.0@), io.1@)),
            Err(er) => spec_lower_expr(funcs_view(funcs@), table_view(table@), e@) == Err::<
                (Seq<SpecInstr>, SpecOperand),
                SpecCodegenError,
            >(er@),
        },
    decreases e, 2int,
{
    broadcast use lemma_instrs_view_push, lemma_instrs_view_append, lemma_ops_view_push;

    let ghost fv = funcs_view(funcs@);
    let ghost tv = table_view(table@);
    match &e.node {
        Expr_::Byte(x) => {
            let v: Vec<Instr> = Vec::new();
            proof {
                assert(instrs_view(v@) =~= Seq::<SpecInstr>::empty());
            }
            Ok((v, Operand::Const(*x)))
        },
        Expr_::Var(x) => {
            match lookup_var(table, x) {
                Some(Binding::Slot(s)) => {
                    let mut v: Vec<Instr> = Vec::new();
                    v.push(Instr::Load(s));
                    proof {
                        assert(instrs_view(v@) =~= seq![SpecInstr::Load(s as int)]);
                    }
                    Ok((v, Operand::Rel(1)))
                },
                Some(Binding::ParamReg(i)) => {
                    let v: Vec<Instr> = Vec::new();
                    proof {
                        assert(instrs_view(v@) =~= Seq::<SpecInstr>::empty());
                    }
                    Ok((v, Operand::Param(i)))
                },
                None => Err(CodegenError { kind: ErrorKind::UnboundVariable, name: x.clone() }),
            }
        },
        Expr_::Add(_, _)
        | Expr_::Sub(_, _)
        | Expr_::Mul(_, _)
        | Expr_::Div(_, _)
        | Expr_::Mod(_, _)
        | Expr_::LAnd(_, _)
        | Expr_::LOr(_, _)
        | Expr_::Eq(_, _)
        | Expr_::NEq(_, _)
        | Expr_::Gt(_, _)
        | Expr_::Lt(_, _)
        | Expr_::EGt(_, _)
        | Expr_::ELt(_, _) => lower_binary(funcs, table, e, Ghost(params), Ghost(slots)),
        Expr_::LNot(a) => {
            match lower_expr(funcs, table, a, Ghost(params), Ghost(slots)) {
                Ok((mut ia, oa)) => {
                    let ghost ia0 = ia@;
                    ia.push(Instr::Not(oa));
                    proof {
                        assert(instrs_view(ia@) =~= instrs_view(ia0) + seq![SpecInstr::Not(oa@)]);
                    }
                    Ok((ia, Operand::Rel(1)))
                },
                Err(er) => Err(er),
            }
        },
        Expr_::FunctionCall(name, args) => {
            match lookup_func(funcs, name) {
                None => Err(CodegenError { kind: ErrorKind::UnboundFunction, name: name.clone() }),
                Some(fi) => {
                    proof {
                        assert(fv[fi as int] == funcs@[fi as int]@);
                    }
                    if !matches!(funcs[fi].ret, Ty::Byte) {
                        Err(CodegenError { kind: ErrorKind::TypeMismatch, name: name.clone() })
                    } else if args.len() != funcs[fi].params {
                        Err(CodegenError { kind: ErrorKind::ArityMismatch, name: name.clone() })
                    } else {
                        proof {
                            assert(args@.subrange(0, args@.len() as int) =~= args@);
                            assert(exprs_view(args@).subrange(0, args@.len() as int)
                                =~= exprs_view(args@));
                        }
                        match lower_args(funcs, table, args, 0, Ghost(params), Ghost(slots)) {
                            Ok((mut ias, ops)) => {
                                let ghost ias0 = ias@;
                                let ghost ops0 = ops@;
                                ias.push(Instr::Call(fi, ops));
                                proof {
                                    assert(instrs_view(ias@) =~= instrs_view(ias0) + seq![
                                        SpecInstr::Call(fi as int, ops_view(ops0)),
                                    ]);
                                }
                                Ok((ias, Operand::Rel(1)))
                            },
                            Err(er) => Err(er),
                        }
                    }
                },
            }
        },
        _ => Err(CodegenError { kind: ErrorKind::InvalidExpression, name: String::new() }),
    }
}

/// Joins two lowered operands with an arithmetic or bitwise
/// instruction.
fn join_bin(ia: Vec<Instr>, oa: Operand, ib: Vec<Instr>, ob: Operand, op: BinOp) -> (r: (
    Vec<Instr>,
    Operand,
))
    requires
        oa@ matches SpecOperand::Rel(d) ==> 1 <= d <= ia@.len(),
    ensures
        (instrs_view(r.0@), r.1@) == crate::lowering::combine_bin(
            op,
            instrs_view(ia@),
            oa@,
            instrs_view(ib@),
            ob@,
        ),
{
    broadcast use lemma_instrs_view_push, lemma_instrs_view_append;

    let ghost ia0 = ia@;
    let ghost ib0 = ib@;
    let mut ia = ia;
    let mut ib = ib;
    let nb = ib.len();
    ia.append(&mut ib);
    let total = ia.len();
    proof {
        assert(total == ia0.len() + ib0.len());
    }
    let sha = shift_operand(oa, nb);
    ia.push(Instr::Bin(op, sha, ob));
    proof {
        assert(instrs_view(ia@) =~= instrs_view(ia0) + instrs_view(ib0) + seq![
            SpecInstr::Bin(op, shift_op(oa@, nb as int), ob@),
        ]);
    }
    (ia, Operand::Rel(1))
}

/// Joins two lowered operands with the comparison and the widening cast
/// back to the byte.
fn join_cmp(ia: Vec<Instr>, oa: Operand, ib: Vec<Instr>, ob: Operand, op: CmpOp) -> (r: (
    Vec<Instr>,
    Operand,
))
    requires
        oa@ matches SpecOperand::Rel(d) ==> 1 <= d <= ia@.len(),
    ensures
        (instrs_view(r.0@), r.1@) == crate::lowering::combine_cmp(
            op,
            instrs_view(ia@),
            oa@,
            instrs_view(ib@),
            ob@,
        ),
{
    broadcast use lemma_instrs_view_push, lemma_instrs_view_append;

    let ghost ia0 = ia@;
    let ghost ib0 = ib@;
    let mut ia = ia;
    let mut ib = ib;
    let nb = ib.len();
    ia.append(&mut ib);
    let total = ia.len();
    proof {
        assert(total == ia0.len() + ib0.len());
    }
    let sha = shift_operand(oa, nb);
    ia.push(Instr::Cmp(op, sha, ob));
    ia.push(Instr::Zext(Operand::Rel(1)));
    proof {
        assert(instrs_view(ia@) =~= instrs_view(ia0) + instrs_view(ib0) + seq![
            SpecInstr::Cmp(op, shift_op(oa@, nb as int), ob@),
            SpecInstr::Zext(SpecOperand::Rel(1)),
        ]);
    }
    (ia, Operand::Rel(1))
}

/// Lowers the call arguments `args[from..]` left to right.
fn lower_args(
    funcs: &Vec<Func>,
    table: &Vec<(String, Binding)>,
    args: &Vec<Expr>,
    from: usize,
    Ghost(params): Ghost<int>,
    Ghost(slots): Ghost<int>,
) -> (r: Result<(Vec<Instr>, Vec<Operand>), CodegenError>)
    requires
        table_wf(table_view(table@), params, slots),
        from <= args@.len(),
    ensures
        match r {
            Ok(io) => spec_lower_args(
                funcs_view(funcs@),
                table_view(table@),
                exprs_view(args@).subrange(from as int, args@.len() as int),
            ) == Ok::<(Seq<SpecInstr>, Seq<SpecOperand>), SpecCodegenError>(
                (instrs_view(io.0@), ops_view(io.1@)),
            ),
            Err(er) => spec_lower_args(
                funcs_view(funcs@),
                table_view(table@),
                exprs_view(args@).subrange(from as int, args@.len() as int),
            ) == Err::<(Seq<SpecInstr>, Seq<SpecOperand>), SpecCodegenError>(er@),
        },
    decreases args@.subrange(from as int, args@.len() as int), 0int,
{
    broadcast use lemma_instrs_view_push, lemma_instrs_view_append, lemma_ops_view_push;

    let ghost fv = funcs_view(funcs@);
    let ghost tv = table_view(table@);
    let ghost sub = exprs_view(args@).subrange(from as int, args@.len() as int);
    if from >= args.len() {
        let vi: Vec<Instr> = Vec::new();
        let vo: Vec<Operand> = Vec::new();
        proof {
            assert(sub.len() == 0);
            assert(instrs_view(vi@) =~= Seq::<SpecInstr>::empty());
            assert(ops_view(vo@) =~= Seq::<SpecOperand>::empty());
        }
        Ok((vi, vo))
    } else {
        proof {
            assert(sub[0] == exprs_view(args@)[from as int]);
            assert(exprs_view(args@)[from as int] == args@[from as int]@);
            assert(args@.subrange(from as int, args@.len() as int)[0] == args@[from as int]);
            assert(decreases_to!(args@.subrange(from as int, args@.len() as int) => args@[from as int]));
        }
        match lower_expr(funcs, table, &args[from], Ghost(params), Ghost(slots)) {
            Err(er) => Err(er),
            Ok((mut ia, oa)) => {
                proof {
                    assert(args@.subrange(from + 1, args@.len() as int) =~= args@.subrange(
                        from as int,
                        args@.len() as int,
                    ).subrange(1, args@.len() - from));
                    assert(sub.drop_first() =~= exprs_view(args@).subrange(
                        from + 1,
                        args@.len() as int,
                    ));
                }
                match lower_args(funcs, table, args, from + 1, Ghost(params), Ghost(slots)) {
                    Err(er) => Err(er),
                    Ok((mut irest, mut orest)) => {
                        let ghost irest0 = irest@;
                        let ghost orest0 = orest@;
                        proof {
                            assert(sub.drop_first() =~= exprs_view(args@).subrange(
                                from + 1,
                                args@.len() as int,
                            ));
                            lemma_lower_expr_wf(fv, tv, params, slots, args@[from as int]@);
                        }
                        let ghost ia0 = ia@;
                        let nrest = irest.len();
                        ia.append(&mut irest);
                        let total = ia.len();
                        proof {
                            assert(total == ia0.len() + irest0.len());
                        }
                        let sha = shift_operand(oa, nrest);
                        let mut ops: Vec<Operand> = Vec::new();
                        ops.push(sha);
                        ops.append(&mut orest);
                        proof {
                            assert(ops_view(ops@) =~= seq![
                                shift_op(oa@, nrest as int),
                            ] + ops_view(orest0));
                        }
                        Ok((ia, ops))
                    },
                }
            },
        }
    }
}

/// The function-body builder.
pub struct FnCtx {
    pub blocks: Vec<Option<Block>>,
    pub slots: usize,
    pub table: Vec<(String, Binding)>,
}

impl View for FnCtx {
    type V = SpecFnCtx;

    open spec fn view(&self) -> SpecFnCtx {
        SpecFnCtx {
            blocks: opt_blocks_view(self.blocks@),
            slots: self.slots as int,
            table: table_view(self.table@),
        }
    }
}

/// The open block the cursor stands in.
pub struct Cur {
    pub id: usize,
    pub instrs: Vec<Instr>,
}

impl View for Cur {
    type V = SpecCur;

    open spec fn view(&self) -> SpecCur {
        SpecCur { id: self.id as int, instrs: instrs_view(self.instrs@) }
    }
}

pub open spec fn opt_cur_view(t: Option<Cur>) -> Option<SpecCur> {
    match t {
        Some(c) => Some(c@),
        None => None,
    }
}

/// A copy of a variable table.
fn dup_table(t: &Vec<(String, Binding)>) -> (r: Vec<(String, Binding)>)
    ensures
        table_view(r@) == table_view(t@),
{
    let mut r: Vec<(String, Binding)> = Vec::new();
    let mut i: usize = 0;
    while i < t.len()
        invariant
            i <= t@.len(),
            table_view(r@) =~= table_view(t@).subrange(0, i as int),
        decreases t@.len() - i,
    {
        let ghost r0 = r@;
        r.push((t[i].0.clone(), t[i].1));
        proof {
            lemma_table_view_push(r0, (t@[i as int].0, t@[i as int].1));
            assert(table_view(t@)[i as int] == (t@[i as int].0@, t@[i as int].1@));
            assert(table_view(r@) =~= table_view(t@).subrange(0, i + 1));
        }
        i = i + 1;
    }
    proof {
        assert(table_view(t@).subrange(0, t@.len() as int) =~= table_view(t@));
    }
    r
}

/// Lowers one `IfElse` statement.
#[verifier::rlimit(100)]
#[verifier::spinoff_prover]
fn lower_ifelse(
    funcs: &Vec<Func>,
    ret: Ty,
    st: FnCtx,
    cur: Cur,
    s: &Expr,
    Ghost(params): Ghost<int>,
) -> (r: Result<(FnCtx, Option<Cur>), CodegenError>)
    requires
        ctx_wf(funcs_view(funcs@), params, ret, st@),
        cur_ok(funcs_view(funcs@), params, st@, cur@),
        s.node is IfElse,
    ensures
        match r {
            Ok(p) => spec_lower_stmt(funcs_view(funcs@), ret, st@, cur@, s@) == Ok::<
                (SpecFnCtx, Option<SpecCur>),
                SpecCodegenError,
            >((p.0@, opt_cur_view(p.1))),
            Err(er) => spec_lower_stmt(funcs_view(funcs@), ret, st@, cur@, s@) == Err::<
                (SpecFnCtx, Option<SpecCur>),
                SpecCodegenError,
            >(er@),
        },
    decreases s, 0int,
{
    broadcast use
        lemma_instrs_view_push,
        lemma_instrs_view_append,
        lemma_opt_blocks_view_push,
        lemma_opt_blocks_view_update,
        lemma_table_view_push;

    let ghost fv = funcs_view(funcs@);
    let ghost st0 = st@;
    let ghost cur0 = cur@;
    match &s.node {
        Expr_::IfElse(c, tb, eb) => {
            match lower_expr(funcs, &st.table, c, Ghost(params), Ghost(st@.slots)) {
                Err(er) => Err(er),
                Ok((mut ic, oc)) => {
                    let ghost ic0 = ic@;
                    proof {
                        lemma_lower_expr_wf(fv, table_view(st.table@), params, st@.slots, (**c)@);
                    }
                    let mut st = st;
                    let then_id = st.blocks.len();
                    st.blocks.push(None);
                    st.blocks.push(None);
                    st.blocks.push(None);
                    let grown_len = st.blocks.len();
                    proof {
                        assert(grown_len == then_id + 3);
                    }
                    let else_id = then_id + 1;
                    let end_id = then_id + 2;
                    let mut ci = cur.instrs;
                    let ghost ci0 = ci@;
                    ci.append(&mut ic);
                    ci.push(Instr::Cmp(CmpOp::Ne, oc, Operand::Const(0)));
                    let entry_block = Block {
                        instrs: ci,
                        term: Term::CondBr(Operand::Rel(1), then_id, else_id),
                    };
                    proof {
                        assert(instrs_view(entry_block.instrs@) =~= crate::lowering::cond_instrs(
                            instrs_view(ci0),
                            instrs_view(ic0),
                            oc@,
                        ));
                    }
                    st.blocks[cur.id] = Some(entry_block);
                    let ghost st1 = st@;
                    proof {
                        assert(st1.blocks =~= (st0.blocks + seq![None, None, None]).update(
                            cur0.id,
                            Some(st1.blocks[cur0.id]->0),
                        ));
                        crate::sound::lemma_cond_seal(
                            fv,
                            params,
                            st0.slots,
                            instrs_view(ci0),
                            instrs_view(ic0),
                            oc@,
                        );
                        crate::sound::lemma_blocks_wf_grow(
                            fv,
                            params,
                            ret,
                            st0.slots,
                            st0.slots,
                            st0.blocks,
                            seq![None, None, None],
                        );
                        crate::sound::lemma_blocks_wf_seal(
                            fv,
                            params,
                            ret,
                            st0.slots,
                            st0.blocks + seq![None, None, None],
                            cur0.id,
                            st1.blocks[cur0.id]->0,
                        );
                        assert(ctx_wf(fv, params, ret, st1));
                    }
                    let saved = dup_table(&st.table);
                    proof {
                        assert(decreases_to!(*s => s.node));
                        assert(decreases_to!(s.node => s.node->IfElse_1));
                        assert(decreases_to!(s.node->IfElse_1 => s.node->IfElse_1@));
                        assert(tb@.subrange(0, tb@.len() as int) =~= tb@);
                        assert(exprs_view(tb@).subrange(0, tb@.len() as int) =~= exprs_view(tb@));
                    }
                    let tcur = Cur { id: then_id, instrs: Vec::new() };
                    proof {
                        assert(instrs_view(tcur.instrs@) =~= Seq::<SpecInstr>::empty());
                        assert(cur_ok(fv, params, st1, tcur@));
                    }
                    match lower_stmts(funcs, ret, st, tcur, tb, 0, Ghost(params)) {
                        Err(er) => Err(er),
                        Ok((st2, curt)) => {
                            let ghost st2pre = st2@;
                            let ghost curtg = opt_cur_view(curt);
                            proof {
                                crate::sound::lemma_lower_stmts_wf(
                                    fv,
                                    params,
                                    ret,
                                    st1,
                                    SpecCur { id: then_id as int, instrs: Seq::empty() },
                                    exprs_view(tb@),
                                );
                                assert(step_post(fv, params, ret, st1, then_id as int, st2pre, curtg));
                                assert(st1.blocks[else_id as int] is None);
                                assert(st2pre.blocks[else_id as int] is None);
                                assert(st1.blocks[end_id as int] is None);
                                assert(st2pre.blocks[end_id as int] is None);
                                if curtg is Some {
                                    assert(curtg->0.id == then_id as int || curtg->0.id
                                        >= st1.blocks.len());
                                    assert(curtg->0.id != else_id as int);
                                    assert(curtg->0.id != end_id as int);
                                    assert(0 <= curtg->0.id < st2pre.blocks.len());
                                    assert(end_id < st2pre.blocks.len());
                                    crate::sound::lemma_blocks_wf_seal(
                                        fv,
                                        params,
                                        ret,
                                        st2pre.slots,
                                        st2pre.blocks,
                                        curtg->0.id,
                                        SpecBlock {
                                            instrs: curtg->0.instrs,
                                            term: crate::ir::SpecTerm::Br(end_id as int),
                                        },
                                    );
                                }
                            }
                            let mut st2 = st2;
                            match curt {
                                Some(ct) => {
                                    st2.blocks[ct.id] = Some(
                                        Block { instrs: ct.instrs, term: Term::Br(end_id) },
                                    );
                                },
                                None => {},
                            }
                            // restore the enclosing scope's table
                            let saved2 = dup_table(&saved);
                            let mut st3 = st2;
                            st3.table = saved;
                            let ghost st3g = st3@;
                            proof {
                                crate::sound::lemma_table_wf_mono(
                                    table_view(st3.table@),
                                    params,
                                    st0.slots,
                                    st3g.slots,
                                );
                                assert(ctx_wf(fv, params, ret, st3g));
                                assert(st3g.blocks[else_id as int] is None);
                            }
                            let ecur = Cur { id: else_id, instrs: Vec::new() };
                            proof {
                                assert(decreases_to!(*s => s.node));
                                assert(decreases_to!(s.node => s.node->IfElse_2));
                                assert(decreases_to!(s.node->IfElse_2 => s.node->IfElse_2@));
                                assert(eb@.subrange(0, eb@.len() as int) =~= eb@);
                                assert(exprs_view(eb@).subrange(0, eb@.len() as int)
                                    =~= exprs_view(eb@));
                                assert(instrs_view(ecur.instrs@) =~= Seq::<SpecInstr>::empty());
                                assert(cur_ok(fv, params, st3g, ecur@));
                            }
                            match lower_stmts(funcs, ret, st3, ecur, eb, 0, Ghost(params)) {
                                Err(er) => Err(er),
                                Ok((st4, cure)) => {
                                    proof {
                                        crate::sound::lemma_lower_stmts_wf(
                                            fv,
                                            params,
                                            ret,
                                            st3g,
                                            SpecCur { id: else_id as int, instrs: Seq::empty() },
                                            exprs_view(eb@),
                                        );
                                    }
                                    let mut st4 = st4;
                                    match cure {
                                        Some(ce) => {
                                            st4.blocks[ce.id] = Some(
                                                Block {
                                                    instrs: ce.instrs,
                                                    term: Term::Br(end_id),
                                                },
                                            );
                                        },
                                        None => {},
                                    }
                                    let mut st5 = st4;
                                    st5.table = saved2;
                                    let endc = Cur { id: end_id, instrs: Vec::new() };
                                    proof {
                                        assert(instrs_view(endc.instrs@) =~= Seq::<
                                            SpecInstr,
                                        >::empty());
                                    }
                                    Ok((st5, Some(endc)))
                                },
                            }
                        },
                    }
                },
            }
        },
        _ => {
            proof {
                assert(false);
            }
            Err(CodegenError { kind: ErrorKind::InvalidExpression, name: String::new() })
        },
    }
}

/// Lowers one `ForLoop` statement.
#[verifier::rlimit(100)]
#[verifier::spinoff_prover]
fn lower_forloop(
    funcs: &Vec<Func>,
    ret: Ty,
    st: FnCtx,
    cur: Cur,
    s: &Expr,
    Ghost(params): Ghost<int>,
) -> (r: Result<(FnCtx, Option<Cur>), CodegenError>)
    requires
        ctx_wf(funcs_view(funcs@), params, ret, st@),
        cur_ok(funcs_view(funcs@), params, st@, cur@),
        s.node is ForLoop,
    ensures
        match r {
            Ok(p) => spec_lower_stmt(funcs_view(funcs@), ret, st@, cur@, s@) == Ok::<
                (SpecFnCtx, Option<SpecCur>),
                SpecCodegenError,
            >((p.0@, opt_cur_view(p.1))),
            Err(er) => spec_lower_stmt(funcs_view(funcs@), ret, st@, cur@, s@) == Err::<
                (SpecFnCtx, Option<SpecCur>),
                SpecCodegenError,
            >(er@),
        },
    decreases s, 0int,
{
    broadcast use
        lemma_instrs_view_push,
        lemma_instrs_view_append,
        lemma_opt_blocks_view_push,
        lemma_opt_blocks_view_update,
        lemma_table_view_push;

    let ghost fv = funcs_view(funcs@);
    let ghost st0 = st@;
    let ghost cur0 = cur@;
    match &s.node {
        Expr_::ForLoop(init, c, step, body) => {
            match lower_stmt(funcs, ret, st, cur, init, Ghost(params)) {
                Err(er) => Err(er),
                Ok((st1, None)) => Ok((st1, None)),
                Ok((st1, Some(cur1))) => {
                    proof {
                        lemma_lower_stmt_wf(fv, params, ret, st0, cur0, (**init)@);
                    }
                    match lower_expr(funcs, &st1.table, c, Ghost(params), Ghost(st1@.slots)) {
                        Err(er) => Err(er),
                        Ok((mut ic, oc)) => {
                            let ghost ic0 = ic@;
                            let ghost st1g = st1@;
                            let ghost cur1g = cur1@;
                            proof {
                                lemma_lower_expr_wf(
                                    fv,
                                    table_view(st1.table@),
                                    params,
                                    st1g.slots,
                                    (**c)@,
                                );
                            }
                            let mut st1 = st1;
                            let loop_id = st1.blocks.len();
                            st1.blocks.push(None);
                            st1.blocks.push(None);
                            let grown_len = st1.blocks.len();
                            proof {
                                assert(grown_len == loop_id + 2);
                            }
                            let end_id = loop_id + 1;
                            let mut ci = cur1.instrs;
                            let ghost ci0 = ci@;
                            ci.append(&mut ic);
                            ci.push(Instr::Cmp(CmpOp::Ne, oc, Operand::Const(0)));
                            let entry_block = Block {
                                instrs: ci,
                                term: Term::CondBr(Operand::Rel(1), loop_id, end_id),
                            };
                            proof {
                                assert(instrs_view(entry_block.instrs@)
                                    =~= crate::lowering::cond_instrs(
                                    instrs_view(ci0),
                                    instrs_view(ic0),
                                    oc@,
                                ));
                            }
                            st1.blocks[cur1.id] = Some(entry_block);
                            let ghost st2g = st1@;
                            proof {
                                assert(st2g.blocks =~= (st1g.blocks + seq![None, None]).update(
                                    cur1g.id,
                                    Some(st2g.blocks[cur1g.id]->0),
                                ));
                                crate::sound::lemma_cond_seal(
                                    fv,
                                    params,
                                    st1g.slots,
                                    instrs_view(ci0),
                                    instrs_view(ic0),
                                    oc@,
                                );
                                crate::sound::lemma_blocks_wf_grow(
                                    fv,
                                    params,
                                    ret,
                                    st1g.slots,
                                    st1g.slots,
                                    st1g.blocks,
                                    seq![None, None],
                                );
                                crate::sound::lemma_blocks_wf_seal(
                                    fv,
                                    params,
                                    ret,
                                    st1g.slots,
                                    st1g.blocks + seq![None, None],
                                    cur1g.id,
                                    st2g.blocks[cur1g.id]->0,
                                );
                                assert(ctx_wf(fv, params, ret, st2g));
                            }
                            let saved = dup_table(&st1.table);
                            let bcur = Cur { id: loop_id, instrs: Vec::new() };
                            proof {
                                assert(decreases_to!(*s => s.node));
                                assert(decreases_to!(s.node => s.node->ForLoop_3));
                                assert(decreases_to!(s.node->ForLoop_3 => s.node->ForLoop_3@));
                                assert(body@.subrange(0, body@.len() as int) =~= body@);
                                assert(exprs_view(body@).subrange(0, body@.len() as int)
                                    =~= exprs_view(body@));
                                assert(instrs_view(bcur.instrs@) =~= Seq::<SpecInstr>::empty());
                                assert(cur_ok(fv, params, st2g, bcur@));
                            }
                            match lower_stmts(funcs, ret, st1, bcur, body, 0, Ghost(params)) {
                                Err(er) => Err(er),
                                Ok((st3, curb)) => {
                                    proof {
                                        crate::sound::lemma_lower_stmts_wf(
                                            fv,
                                            params,
                                            ret,
                                            st2g,
                                            SpecCur { id: loop_id as int, instrs: Seq::empty() },
                                            exprs_view(body@),
                                        );
                                    }
                                    let mut st3 = st3;
                                    st3.table = saved;
                                    let ghost st3g = st3@;
                                    proof {
                                        crate::sound::lemma_table_wf_mono(
                                            table_view(st3.table@),
                                            params,
                                            st1g.slots,
                                            st3g.slots,
                                        );
                                        assert(ctx_wf(fv, params, ret, st3g));
                                    }
                                    match curb {
                                        None => {
                                            let endc = Cur { id: end_id, instrs: Vec::new() };
                                            proof {
                                                assert(instrs_view(endc.instrs@) =~= Seq::<
                                                    SpecInstr,
                                                >::empty());
                                            }
                                            Ok((st3, Some(endc)))
                                        },
                                        Some(cb) => {
                                            let ghost cbg = cb@;
                                            match lower_stmt(
                                                funcs,
                                                ret,
                                                st3,
                                                cb,
                                                step,
                                                Ghost(params),
                                            ) {
                                                Err(er) => Err(er),
                                                Ok((st4, None)) => {
                                                    let endc = Cur {
                                                        id: end_id,
                                                        instrs: Vec::new(),
                                                    };
                                                    proof {
                                                        assert(instrs_view(endc.instrs@) =~= Seq::<
                                                            SpecInstr,
                                                        >::empty());
                                                    }
                                                    Ok((st4, Some(endc)))
                                                },
                                                Ok((st4, Some(cs))) => {
                                                    proof {
                                                        lemma_lower_stmt_wf(
                                                            fv, params, ret, st3g, cbg, (**step)@,
                                                        );
                                                    }
                                                    match lower_expr(
                                                        funcs,
                                                        &st4.table,
                                                        c,
                                                        Ghost(params),
                                                        Ghost(st4@.slots),
                                                    ) {
                                                        Err(er) => Err(er),
                                                        Ok((mut ic2, oc2)) => {
                                                            let ghost ic20 = ic2@;
                                                            let ghost st4g = st4@;
                                                            let ghost csg = cs@;
                                                            let mut st4 = st4;
                                                            let mut ci2 = cs.instrs;
                                                            let ghost ci20 = ci2@;
                                                            ci2.append(&mut ic2);
                                                            ci2.push(
                                                                Instr::Cmp(
                                                                    CmpOp::Ne,
                                                                    oc2,
                                                                    Operand::Const(0),
                                                                ),
                                                            );
                                                            let latch = Block {
                                                                instrs: ci2,
                                                                term: Term::CondBr(
                                                                    Operand::Rel(1),
                                                                    loop_id,
                                                                    end_id,
                                                                ),
                                                            };
                                                            proof {
                                                                assert(instrs_view(latch.instrs@)
                                                                    =~= crate::lowering::cond_instrs(
                                                                    instrs_view(ci20),
                                                                    instrs_view(ic20),
                                                                    oc2@,
                                                                ));
                                                                assert(0 <= csg.id
                                                                    < st4g.blocks.len());
                                                            }
                                                            st4.blocks[cs.id] = Some(latch);
                                                            let endc = Cur {
                                                                id: end_id,
                                                                instrs: Vec::new(),
                                                            };
                                                            proof {
                                                                assert(instrs_view(endc.instrs@)
                                                                    =~= Seq::<SpecInstr>::empty());
                                                            }
                                                            Ok((st4, Some(endc)))
                                                        },
                                                    }
                                                },
                                            }
                                        },
                                    }
                                },
                            }
                        },
                    }
                },
            }
        },
        _ => {
            proof {
                assert(false);
            }
            Err(CodegenError { kind: ErrorKind::InvalidExpression, name: String::new() })
        },
    }
}

/// Lowers one statement into the open block.
#[verifier::rlimit(100)]
#[verifier::spinoff_prover]
fn lower_stmt(
    funcs: &Vec<Func>,
    ret: Ty,
    st: FnCtx,
    cur: Cur,
    s: &Expr,
    Ghost(params): Ghost<int>,
) -> (r: Result<(FnCtx, Option<Cur>), CodegenError>)
    requires
        ctx_wf(funcs_view(funcs@), params, ret, st@),
        cur_ok(funcs_view(funcs@), params, st@, cur@),
    ensures
        match r {
            Ok(p) => spec_lower_stmt(funcs_view(funcs@), ret, st@, cur@, s@) == Ok::<
                (SpecFnCtx, Option<SpecCur>),
                SpecCodegenError,
            >((p.0@, opt_cur_view(p.1))),
            Err(er) => spec_lower_stmt(funcs_view(funcs@), ret, st@, cur@, s@) == Err::<
                (SpecFnCtx, Option<SpecCur>),
                SpecCodegenError,
            >(er@),
        },
    decreases s, 1int,
{
    broadcast use
        lemma_instrs_view_push,
        lemma_instrs_view_append,
        lemma_opt_blocks_view_push,
        lemma_opt_blocks_view_update,
        lemma_table_view_push;

    let ghost fv = funcs_view(funcs@);
    let ghost st0 = st@;
    let ghost cur0 = cur@;
    match &s.node {
        Expr_::Pass => Ok((st, Some(cur))),
        Expr_::Assign(x, e2) => {
            match lower_expr(funcs, &st.table, e2, Ghost(params), Ghost(st@.slots)) {
                Err(er) => Err(er),
                Ok((mut ie, oe)) => {
                    if st.slots == usize::MAX {
                        Err(CodegenError { kind: ErrorKind::SlotLimit, name: x.clone() })
                    } else {
                        let ghost ie0 = ie@;
                        let slot = st.slots;
                        let mut st = st;
                        st.slots = slot + 1;
                        st.table.push((x.clone(), Binding::Slot(slot)));
                        let mut ci = cur.instrs;
                        let ghost ci0 = ci@;
                        ci.append(&mut ie);
                        ci.push(Instr::Store(slot, oe));
                        proof {
                            assert(instrs_view(ci@) =~= instrs_view(ci0) + instrs_view(ie0)
                                + seq![SpecInstr::Store(slot as int, oe@)]);
                            assert(table_view(st.table@) =~= st0.table.push(
                                (x@, SpecBinding::Slot(slot as int)),
                            ));
                        }
                        Ok((st, Some(Cur { id: cur.id, instrs: ci })))
                    }
                },
            }
        },
        Expr_::ReAssign(x, e2) => {
            match lookup_var(&st.table, x) {
                None => Err(CodegenError { kind: ErrorKind::UnboundVariable, name: x.clone() }),
                Some(Binding::Slot(slot)) => {
                    match lower_expr(funcs, &st.table, e2, Ghost(params), Ghost(st@.slots)) {
                        Err(er) => Err(er),
                        Ok((mut ie, oe)) => {
                            let ghost ie0 = ie@;
                            let mut ci = cur.instrs;
                            let ghost ci0 = ci@;
                            ci.append(&mut ie);
                            ci.push(Instr::Store(slot, oe));
                            proof {
                                assert(instrs_view(ci@) =~= instrs_view(ci0) + instrs_view(ie0)
                                    + seq![SpecInstr::Store(slot as int, oe@)]);
                            }
                            Ok((st, Some(Cur { id: cur.id, instrs: ci })))
                        },
                    }
                },
                Some(Binding::ParamReg(_)) => {
                    match lower_expr(funcs, &st.table, e2, Ghost(params), Ghost(st@.slots)) {
                        Err(er) => Err(er),
                        Ok((mut ie, oe)) => {
                            if st.slots == usize::MAX {
                                Err(CodegenError { kind: ErrorKind::SlotLimit, name: x.clone() })
                            } else {
                                let ghost ie0 = ie@;
                                let slot = st.slots;
                                let mut st = st;
                                st.slots = slot + 1;
                                st.table.push((x.clone(), Binding::Slot(slot)));
                                let mut ci = cur.instrs;
                                let ghost ci0 = ci@;
                                ci.append(&mut ie);
                                ci.push(Instr::Store(slot, oe));
                                proof {
                                    assert(instrs_view(ci@) =~= instrs_view(ci0) + instrs_view(ie0)
                                        + seq![SpecInstr::Store(slot as int, oe@)]);
                                }
                                Ok((st, Some(Cur { id: cur.id, instrs: ci })))
                            }
                        },
                    }
                },
            }
        },
        Expr_::IfElse(_, _, _) => lower_ifelse(funcs, ret, st, cur, s, Ghost(params)),
        Expr_::ForLoop(_, _, _, _) => lower_forloop(funcs, ret, st, cur, s, Ghost(params)),
        _ => {
            match lower_expr(funcs, &st.table, s, Ghost(params), Ghost(st@.slots)) {
                Err(er) => Err(er),
                Ok((mut ie, oe)) => {
                    if matches!(ret, Ty::Byte) {
                        let ghost ie0 = ie@;
                        let mut ci = cur.instrs;
                        let ghost ci0 = ci@;
                        ci.append(&mut ie);
                        let mut st = st;
                        let sealed = Block { instrs: ci, term: Term::Ret(Some(oe)) };
                        proof {
                            assert(instrs_view(sealed.instrs@) =~= instrs_view(ci0) + instrs_view(
                                ie0,
                            ));
                        }
                        st.blocks[cur.id] = Some(sealed);
                        Ok((st, None))
                    } else {
                        Err(CodegenError { kind: ErrorKind::TypeMismatch, name: String::new() })
                    }
                },
            }
        },
    }
}

/// Lowers the statements `list[from..]` in order.
fn lower_stmts(
    funcs: &Vec<Func>,
    ret: Ty,
    st: FnCtx,
    cur: Cur,
    list: &Vec<Expr>,
    from: usize,
    Ghost(params): Ghost<int>,
) -> (r: Result<(FnCtx, Option<Cur>), CodegenError>)
    requires
        ctx_wf(funcs_view(funcs@), params, ret, st@),
        cur_ok(funcs_view(funcs@), params, st@, cur@),
        from <= list@.len(),
    ensures
        match r {
            Ok(p) => spec_lower_stmts(
                funcs_view(funcs@),
                ret,
                st@,
                cur@,
                exprs_view(list@).subrange(from as int, list@.len() as int),
            ) == Ok::<(SpecFnCtx, Option<SpecCur>), SpecCodegenError>((p.0@, opt_cur_view(p.1))),
            Err(er) => spec_lower_stmts(
                funcs_view(funcs@),
                ret,
                st@,
                cur@,
                exprs_view(list@).subrange(from as int, list@.len() as int),
            ) == Err::<(SpecFnCtx, Option<SpecCur>), SpecCodegenError>(er@),
        },
    decreases list@.subrange(from as int, list@.len() as int), 0int,
{
    let ghost fv = funcs_view(funcs@);
    let ghost sub = exprs_view(list@).subrange(from as int, list@.len() as int);
    if from >= list.len() {
        proof {
            assert(sub.len() == 0);
        }
        Ok((st, Some(cur)))
    } else {
        let ghost st0 = st@;
        let ghost cur0 = cur@;
        proof {
            assert(sub[0] == exprs_view(list@)[from as int]);
            assert(exprs_view(list@)[from as int] == list@[from as int]@);
            assert(list@.subrange(from as int, list@.len() as int)[0] == list@[from as int]);
            assert(decreases_to!(list@.subrange(from as int, list@.len() as int) => list@[
                from as int]));
        }
        match lower_stmt(funcs, ret, st, cur, &list[from], Ghost(params)) {
            Err(er) => Err(er),
            Ok((st1, None)) => Ok((st1, None)),
            Ok((st1, Some(cur1))) => {
                proof {
                    lemma_lower_stmt_wf(fv, params, ret, st0, cur0, list@[from as int]@);
                    assert(sub.drop_first() =~= exprs_view(list@).subrange(
                        from + 1,
                        list@.len() as int,
                    ));
                    assert(list@.subrange(from + 1, list@.len() as int) =~= list@.subrange(
                        from as int,
                        list@.len() as int,
                    ).subrange(1, list@.len() - from));
                }
                lower_stmts(funcs, ret, st1, cur1, list, from + 1, Ghost(params))
            },
        }
    }
}

/// Counts the byte parameters among the chain entries `tys[..endp]`.
fn param_count(tys: &Vec<String>, endp: usize) -> (r: Result<usize, CodegenError>)
    requires
        endp <= tys@.len(),
    ensures
        match r {
            Ok(c) => spec_param_count(strings_view(tys@), 0, endp as int) == Ok::<int, Seq<char>>(
                c as int,
            ) && c <= endp,
            Err(er) => er@.kind == ErrorKind::UnknownType && spec_param_count(
                strings_view(tys@),
                0,
                endp as int,
            ) == Err::<int, Seq<char>>(er@.name),
        },
{
    let ghost tv = strings_view(tys@);
    let mut count: usize = 0;
    let mut i: usize = endp;
    loop
        invariant_except_break
            i <= endp <= tys@.len(),
            tv == strings_view(tys@),
            count <= endp - i,
            spec_param_count(tv, i as int, endp as int) == Ok::<int, Seq<char>>(count as int),
        ensures
            spec_param_count(tv, 0, endp as int) == Ok::<int, Seq<char>>(count as int) && count
                <= endp,
        decreases i,
    {
        if i == 0 {
            break ;
        }
        proof {
            assert(tv[i - 1] == tys@[i - 1]@);
        }
        match resolve_type(&tys[i - 1]) {
            None => {
                // report the first unknown spelling
                let mut j: usize = 0;
                loop
                    invariant_except_break
                        j < endp <= tys@.len(),
                        tv == strings_view(tys@),
                        resolve_ty(tv[i - 1]) is None,
                        0 < i <= endp,
                        j <= i - 1,
                        forall|k: int| 0 <= k < j ==> resolve_ty(#[trigger] tv[k]) is Some,
                    ensures
                        j < endp <= tys@.len(),
                        resolve_ty(tv[j as int]) is None,
                        forall|k: int| 0 <= k < j ==> resolve_ty(#[trigger] tv[k]) is Some,
                    decreases endp - j,
                {
                    proof {
                        assert(tv[j as int] == tys@[j as int]@);
                    }
                    match resolve_type(&tys[j]) {
                        None => {
                            break ;
                        },
                        Some(_) => {
                            j = j + 1;
                        },
                    }
                }
                proof {
                    if j < endp {
                        assert(spec_param_count(tv, j as int, endp as int) == Err::<
                            int,
                            Seq<char>,
                        >(tv[j as int]));
                        if j > 0 {
                            lemma_param_count_err(tv, 0, j as int, endp as int);
                        }
                    }
                }
                return Err(
                    CodegenError { kind: ErrorKind::UnknownType, name: tys[j].clone() },
                );
            },
            Some(ty) => {
                if matches!(ty, Ty::Byte) {
                    count = count + 1;
                }
                i = i - 1;
            },
        }
    }
    Ok(count)
}

/// Where every entry of `tys[i..j)` resolves and `tys[j]` does not, the
/// count from `i` reports `tys[j]`.
proof fn lemma_param_count_err(tys: Seq<Seq<char>>, i: int, j: int, endp: int)
    requires
        0 <= i <= j < endp <= tys.len(),
        forall|k: int| i <= k < j ==> resolve_ty(#[trigger] tys[k]) is Some,
        spec_param_count(tys, j, endp) == Err::<int, Seq<char>>(tys[j]),
    ensures
        spec_param_count(tys, i, endp) == Err::<int, Seq<char>>(tys[j]),
    decreases j - i,
{
    if i < j {
        lemma_param_count_err(tys, i + 1, j, endp);
    }
}

/// The first pass: registers every declared signature.
fn pass1(prog: &Vec<Expr>) -> (r: Result<Vec<Func>, CodegenError>)
    ensures
        match r {
            Ok(fs) => spec_pass1(exprs_view(prog@), 0, Seq::empty()) == Ok::<
                Seq<crate::ir::SpecFunc>,
                SpecCodegenError,
            >(funcs_view(fs@)),
            Err(er) => spec_pass1(exprs_view(prog@), 0, Seq::empty()) == Err::<
                Seq<crate::ir::SpecFunc>,
                SpecCodegenError,
            >(er@),
        },
{
    broadcast use lemma_funcs_view_push;

    let ghost pv = exprs_view(prog@);
    let mut funcs: Vec<Func> = Vec::new();
    let mut i: usize = 0;
    proof {
        assert(funcs_view(funcs@) =~= Seq::<crate::ir::SpecFunc>::empty());
    }
    loop
        invariant_except_break
            i <= prog@.len(),
            pv == exprs_view(prog@),
            spec_pass1(pv, 0, Seq::empty()) == spec_pass1(pv, i as int, funcs_view(funcs@)),
        ensures
            spec_pass1(pv, 0, Seq::empty()) == Ok::<Seq<crate::ir::SpecFunc>, SpecCodegenError>(
                funcs_view(funcs@),
            ),
        decreases prog@.len() - i,
    {
        if i >= prog.len() {
            break ;
        }
        proof {
            assert(pv[i as int] == prog@[i as int]@);
        }
        match &prog[i].node {
            Expr_::Declare(name, tys) => {
                if tys.len() == 0 {
                    return Err(
                        CodegenError { kind: ErrorKind::EmptyDeclare, name: name.clone() },
                    );
                }
                let endp = tys.len() - 1;
                match param_count(tys, endp) {
                    Err(er) => {
                        return Err(er);
                    },
                    Ok(count) => {
                        proof {
                            assert(strings_view(tys@).last() == tys@[tys@.len() - 1]@);
                        }
                        match resolve_type(&tys[tys.len() - 1]) {
                            None => {
                                return Err(
                                    CodegenError {
                                        kind: ErrorKind::UnknownType,
                                        name: tys[tys.len() - 1].clone(),
                                    },
                                );
                            },
                            Some(ret) => {
                                let ghost f0 = funcs@;
                                funcs.push(
                                    Func {
                                        name: name.clone(),
                                        params: count,
                                        ret,
                                        slots: 0,
                                        blocks: Vec::new(),
                                    },
                                );
                                proof {
                                    assert(blocks_view(funcs@.last().blocks@) =~= Seq::<
                                        SpecBlock,
                                    >::empty());
                                    assert(funcs@.last()@ == crate::ir::SpecFunc {
                                        name: name@,
                                        params: count as int,
                                        ret,
                                        slots: 0,
                                        blocks: Seq::empty(),
                                    });
                                    assert(funcs_view(funcs@) =~= funcs_view(f0).push(
                                        funcs@.last()@,
                                    ));
                                }
                            },
                        }
                    },
                }
            },
            Expr_::Define(_, _, _) => {},
            _ => {
                return Err(
                    CodegenError { kind: ErrorKind::UnexpectedTopLevel, name: String::new() },
                );
            },
        }
        i = i + 1;
    }
    Ok(funcs)
}

/// A copy of an operand list.
fn dup_operands(v: &Vec<Operand>) -> (r: Vec<Operand>)
    ensures
        r@ == v@,
{
    let mut r: Vec<Operand> = Vec::new();
    let mut i: usize = 0;
    while i < v.len()
        invariant
            i <= v@.len(),
            r@ =~= v@.subrange(0, i as int),
        decreases v@.len() - i,
    {
        r.push(v[i]);
        proof {
            assert(r@ =~= v@.subrange(0, i + 1));
        }
        i = i + 1;
    }
    proof {
        assert(v@.subrange(0, v@.len() as int) =~= v@);
    }
    r
}

/// A copy of an instruction.
fn dup_instr(x: &Instr) -> (r: Instr)
    ensures
        r@ == x@,
{
    match x {
        Instr::Load(s) => Instr::Load(*s),
        Instr::Store(s, v) => Instr::Store(*s, *v),
        Instr::Bin(op, a, b) => Instr::Bin(*op, *a, *b),
        Instr::Not(a) => Instr::Not(*a),
        Instr::Cmp(op, a, b) => Instr::Cmp(*op, *a, *b),
        Instr::Zext(a) => Instr::Zext(*a),
        Instr::Call(f, args2) => Instr::Call(*f, dup_operands(args2)),
    }
}

/// A copy of a sealed block.
fn dup_block(b: &Block) -> (r: Block)
    ensures
        r@ == b@,
{
    let mut instrs: Vec<Instr> = Vec::new();
    let mut i: usize = 0;
    while i < b.instrs.len()
        invariant
            i <= b.instrs@.len(),
            instrs_view(instrs@) =~= instrs_view(b.instrs@).subrange(0, i as int),
        decreases b.instrs@.len() - i,
    {
        let ghost i0 = instrs@;
        instrs.push(dup_instr(&b.instrs[i]));
        proof {
            lemma_instrs_view_push(i0, b.instrs@[i as int]);
            assert(instrs_view(b.instrs@)[i as int] == b.instrs@[i as int]@);
            assert(instrs_view(instrs@) =~= instrs_view(b.instrs@).subrange(0, i + 1));
        }
        i = i + 1;
    }
    proof {
        assert(instrs_view(b.instrs@).subrange(0, b.instrs@.len() as int) =~= instrs_view(
            b.instrs@,
        ));
    }
    let term = match &b.term {
        Term::Br(t) => Term::Br(*t),
        Term::CondBr(c, t1, t2) => Term::CondBr(*c, *t1, *t2),
        Term::Ret(Some(v)) => Term::Ret(Some(*v)),
        Term::Ret(None) => Term::Ret(None),
    };
    Block { instrs, term }
}

/// Lowers one defined body into its declared function.
#[verifier::rlimit(100)]
#[verifier::spinoff_prover]
fn lower_define(funcs: Vec<Func>, name: &String, args: &Vec<String>, body: &Vec<Expr>) -> (r:
    Result<Vec<Func>, CodegenError>)
    ensures
        match r {
            Ok(fs) => spec_lower_define(
                funcs_view(funcs@),
                name@,
                strings_view(args@),
                exprs_view(body@),
            ) == Ok::<Seq<crate::ir::SpecFunc>, SpecCodegenError>(funcs_view(fs@)),
            Err(er) => spec_lower_define(
                funcs_view(funcs@),
                name@,
                strings_view(args@),
                exprs_view(body@),
            ) == Err::<Seq<crate::ir::SpecFunc>, SpecCodegenError>(er@),
        },
{
    broadcast use
        lemma_funcs_view_update,
        lemma_blocks_view_push,
        lemma_opt_blocks_view_push,
        lemma_opt_blocks_view_update,
        lemma_table_view_push;

    let ghost fv = funcs_view(funcs@);
    match lookup_func(&funcs, name) {
        None => Err(CodegenError { kind: ErrorKind::UnboundFunction, name: name.clone() }),
        Some(fi) => {
            proof {
                assert(fv[fi as int] == funcs@[fi as int]@);
            }
            if funcs[fi].blocks.len() != 0 {
                Err(CodegenError { kind: ErrorKind::Redefinition, name: name.clone() })
            } else if args.len() != funcs[fi].params {
                Err(CodegenError { kind: ErrorKind::ArityMismatch, name: name.clone() })
            } else {
                let ghost params = funcs@[fi as int].params as int;
                // bind each parameter name to its incoming register
                let mut table: Vec<(String, Binding)> = Vec::new();
                let mut k: usize = 0;
                while k < args.len()
                    invariant
                        k <= args@.len(),
                        table_view(table@).len() == k,
                        forall|x: int|
                            0 <= x < k ==> table_view(table@)[x] == (
                                args@[x]@,
                                SpecBinding::ParamReg(x),
                            ),
                    decreases args@.len() - k,
                {
                    let ghost t0 = table@;
                    table.push((args[k].clone(), Binding::ParamReg(k)));
                    proof {
                        assert(table_view(table@) =~= table_view(t0).push(
                            (args@[k as int]@, SpecBinding::ParamReg(k as int)),
                        ));
                    }
                    k = k + 1;
                }
                proof {
                    assert(table_view(table@) =~= param_table(strings_view(args@)));
                }
                let mut blocks: Vec<Option<Block>> = Vec::new();
                blocks.push(None);
                let st = FnCtx { blocks, slots: 0, table };
                let cur = Cur { id: 0, instrs: Vec::new() };
                let ret = funcs[fi].ret;
                let ghost st0g = st@;
                proof {
                    assert(st0g.blocks =~= seq![Option::<SpecBlock>::None]);
                    assert(instrs_view(cur.instrs@) =~= Seq::<SpecInstr>::empty());
                    assert(table_wf(st0g.table, params, 0));
                    assert(ctx_wf(fv, params, ret, st0g));
                    assert(cur_ok(fv, params, st0g, cur@));
                    assert(exprs_view(body@).subrange(0, body@.len() as int) =~= exprs_view(
                        body@,
                    ));
                }
                match lower_stmts(&funcs, ret, st, cur, body, 0, Ghost(params)) {
                    Err(er) => Err(er),
                    Ok((st1, tail)) => {
                        proof {
                            crate::sound::lemma_lower_stmts_wf(
                                fv,
                                params,
                                ret,
                                st0g,
                                SpecCur { id: 0, instrs: Seq::empty() },
                                exprs_view(body@),
                            );
                        }
                        let mut st1 = st1;
                        match tail {
                            Some(ct) => {
                                let term = if matches!(ret, Ty::Byte) {
                                    Term::Ret(Some(Operand::Const(0)))
                                } else {
                                    Term::Ret(None)
                                };
                                st1.blocks[ct.id] = Some(Block { instrs: ct.instrs, term });
                            },
                            None => {},
                        }
                        // every block is sealed now
                        let mut out: Vec<Block> = Vec::new();
                        let ghost sealed = st1@.blocks;
                        let mut j: usize = 0;
                        while j < st1.blocks.len()
                            invariant
                                j <= st1.blocks@.len(),
                                sealed == opt_blocks_view(st1.blocks@),
                                blocks_view(out@) =~= crate::lowering::unwrap_blocks(
                                    sealed,
                                ).subrange(0, j as int),
                            decreases st1.blocks@.len() - j,
                        {
                            let ghost out0 = out@;
                            proof {
                                assert(sealed[j as int] == (match st1.blocks@[j as int] {
                                    Some(bb) => Some(bb@),
                                    None => None,
                                }));
                            }
                            match &st1.blocks[j] {
                                Some(b) => {
                                    out.push(dup_block(b));
                                },
                                None => {
                                    out.push(Block { instrs: Vec::new(), term: Term::Ret(None) });
                                },
                            }
                            proof {
                                assert(instrs_view(out@.last().instrs@) =~= instrs_view(
                                    out@.last().instrs@,
                                ));
                                if st1.blocks@[j as int] is None {
                                    assert(instrs_view(out@.last().instrs@) =~= Seq::<
                                        SpecInstr,
                                    >::empty());
                                }
                                assert(out@.last()@ == crate::lowering::unwrap_blocks(
                                    sealed,
                                )[j as int]);
                                assert(blocks_view(out@) =~= blocks_view(out0).push(
                                    out@.last()@,
                                ));
                                assert(crate::lowering::unwrap_blocks(sealed).subrange(0, j + 1)
                                    =~= crate::lowering::unwrap_blocks(sealed).subrange(
                                    0,
                                    j as int,
                                ).push(crate::lowering::unwrap_blocks(sealed)[j as int]));
                                assert(blocks_view(out@) =~= crate::lowering::unwrap_blocks(
                                    sealed,
                                ).subrange(0, j + 1));
                            }
                            j = j + 1;
                        }
                        proof {
                            assert(crate::lowering::unwrap_blocks(sealed).subrange(
                                0,
                                sealed.len() as int,
                            ) =~= crate::lowering::unwrap_blocks(sealed));
                        }
                        let slots = st1.slots;
                        let fname = funcs[fi].name.clone();
                        let fparams = funcs[fi].params;
                        let fret = funcs[fi].ret;
                        let mut funcs = funcs;
                        funcs[fi] = Func { name: fname, params: fparams, ret: fret, slots, blocks: out };
                        Ok(funcs)
                    },
                }
            }
        },
    }
}

/// The second pass: lowers every defined body.
#[verifier::loop_isolation(false)]
fn pass2(prog: &Vec<Expr>, funcs: Vec<Func>) -> (r: Result<Vec<Func>, CodegenError>)
    ensures
        match r {
            Ok(fs) => spec_pass2(exprs_view(prog@), 0, funcs_view(funcs@)) == Ok::<
                Seq<crate::ir::SpecFunc>,
                SpecCodegenError,
            >(funcs_view(fs@)),
            Err(er) => spec_pass2(exprs_view(prog@), 0, funcs_view(funcs@)) == Err::<
                Seq<crate::ir::SpecFunc>,
                SpecCodegenError,
            >(er@),
        },
{
    let ghost pv = exprs_view(prog@);
    let ghost fv0 = funcs_view(funcs@);
    let mut funcs = funcs;
    let mut i: usize = 0;
    while i < prog.len()
        invariant
            i <= prog@.len(),
            spec_pass2(pv, 0, fv0) == spec_pass2(pv, i as int, funcs_view(funcs@)),
        decreases prog@.len() - i,
    {
        proof {
            assert(pv[i as int] == prog@[i as int]@);
        }
        let is_define = matches!(&prog[i].node, Expr_::Define(_, _, _));
        if is_define {
            match &prog[i].node {
                Expr_::Define(name, args, body) => {
                    proof {
                        assert(pv[i as int].node == crate::parser::SpecExpr_::Define(
                            name@,
                            strings_view(args@),
                            exprs_view(body@),
                        ));
                    }
                    let ghost fvcur = funcs_view(funcs@);
                    match lower_define(funcs, name, args, body) {
                        Ok(f2) => {
                            proof {
                                assert(spec_lower_define(
                                    fvcur,
                                    name@,
                                    strings_view(args@),
                                    exprs_view(body@),
                                ) == Ok::<Seq<crate::ir::SpecFunc>, SpecCodegenError>(
                                    funcs_view(f2@),
                                ));
                                assert(spec_pass2(pv, i as int, fvcur) == spec_pass2(
                                    pv,
                                    i + 1,
                                    funcs_view(f2@),
                                ));
                            }
                            funcs = f2;
                        },
                        Err(er) => {
                            proof {
                                assert(spec_lower_define(
                                    fvcur,
                                    name@,
                                    strings_view(args@),
                                    exprs_view(body@),
                                ) == Err::<Seq<crate::ir::SpecFunc>, SpecCodegenError>(er@));
                                assert(spec_pass2(pv, i as int, fvcur) == Err::<
                                    Seq<crate::ir::SpecFunc>,
                                    SpecCodegenError,
                                >(er@));
                            }
                            return Err(er);
                        },
                    }
                },
                _ => {
                    proof {
                        assert(false);
                    }
                },
            }
        }
        i = i + 1;
    }
    Ok(funcs)
}

/// Appends the synthetic process entry `_start`.
fn append_entry(funcs: Vec<Func>) -> (r: Vec<Func>)
    ensures
        funcs_view(r@) == spec_entry(funcs_view(funcs@)),
{
    broadcast use lemma_funcs_view_push, lemma_blocks_view_push, lemma_instrs_view_push,
        lemma_ops_view_push;

    let ghost fv = funcs_view(funcs@);
    let main_name: String = "main".to_owned();
    let mut body: Vec<Instr> = Vec::new();
    proof {
        assert(instrs_view(body@) =~= Seq::<SpecInstr>::empty());
    }
    match lookup_func(&funcs, &main_name) {
        Some(fi) => {
            proof {
                assert(fv[fi as int] == funcs@[fi as int]@);
            }
            if funcs[fi].params == 0 {
                let nops: Vec<Operand> = Vec::new();
                proof {
                    assert(ops_view(nops@) =~= Seq::<SpecOperand>::empty());
                }
                body.push(Instr::Call(fi, nops));
                proof {
                    assert(instrs_view(body@) =~= seq![
                        SpecInstr::Call(fi as int, Seq::empty()),
                    ]);
                }
            }
        },
        None => {},
    }
    let block = Block { instrs: body, term: Term::Ret(None) };
    let mut blocks: Vec<Block> = Vec::new();
    blocks.push(block);
    let ghost f0 = funcs@;
    let mut funcs = funcs;
    funcs.push(
        Func { name: "_start".to_owned(), params: 0, ret: Ty::Void, slots: 0, blocks },
    );
    proof {
        assert(blocks_view(funcs@.last().blocks@) =~= seq![funcs@.last().blocks@[0]@]);
        assert(funcs_view(funcs@) =~= funcs_view(f0).push(funcs@.last()@));
        assert(funcs_view(funcs@) =~= spec_entry(fv));
    }
    funcs
}

/// The code generator: owns the parsed program for one run.
pub struct CodeGen {
    pub program: Program,
}

impl CodeGen {
    pub fn new(program: Program) -> (g: Self)
        ensures
            g.program@ == program@,
    {
        Self { program }
    }

    /// Lowers the program to a module: signatures first, bodies second,
    /// the process entry appended last, and the structural verification
    /// run over the result. Returns exactly what `spec_generate`
    /// derives, or the first fatal error; a returned module always
    /// passes `verify_module`.
    pub fn run(self) -> (r: Result<Module, CodegenError>)
        ensures
            match r {
                Ok(m) => spec_generate(self.program@) == Ok::<SpecModule, SpecCodegenError>(m@)
                    && module_ok(m@),
                Err(er) => spec_generate(self.program@) == Err::<SpecModule, SpecCodegenError>(
                    er@,
                ),
            },
    {
        let ghost pv = self.program@;
        let stmts = self.program.stmts;
        match pass1(&stmts) {
            Err(er) => Err(er),
            Ok(f1) => {
                match pass2(&stmts, f1) {
                    Err(er) => Err(er),
                    Ok(f2) => {
                        let f3 = append_entry(f2);
                        let m = Module { funcs: f3 };
                        proof {
                            crate::sound::lemma_generate_verifies(pv);
                        }
                        let checked = verify_module(&m);
                        proof {
                            assert(checked);
                        }
                        Ok(m)
                    },
                }
            },
        }
    }
}

} // verus!