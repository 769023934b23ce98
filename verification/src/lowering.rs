//! Lowering of the syntax tree to the intermediate representation,
//! written as spec functions. These functions are the contract of the
//! executable generator in `codegen`.
//!
//! The generator runs two passes over the top-level statements: the
//! first registers every declared signature, the second lowers every
//! defined body. Expression lowering is pure: it yields an instruction
//! sequence and the operand naming its value, and every expression's
//! value is a byte (comparisons yield a one-bit predicate that is
//! widened back to a byte at once). Statement lowering threads the
//! function builder: the open blocks, the slot counter, and the
//! variable table. Finally one synthetic function named `_start` is
//! appended; it calls `main` where a zero-parameter `main` was
//! declared, so the compiled artifact has one fixed process entry.

use vstd::prelude::*;
use crate::ir::{BinOp, CmpOp, SpecBlock, SpecFunc, SpecInstr, SpecModule, SpecOperand, SpecTerm,
    Ty};
use crate::parser::{SpecExpr, SpecExpr_};

verus! {

/// Why generation failed.
#[derive(Debug, Clone, Copy, PartialEq, Eq, Structural)]
pub enum ErrorKind {
    /// A declaration names a type that is neither `byte` nor `void`.
    UnknownType,
    /// A declaration with an empty type chain.
    EmptyDeclare,
    /// A `mutate` target or a variable read that was never bound.
    UnboundVariable,
    /// A definition or call of a function that was never declared.
    UnboundFunction,
    /// A second definition of an already defined function.
    Redefinition,
    /// A definition or call whose argument count differs from the
    /// declared parameter count.
    ArityMismatch,
    /// A value returned from a void function, or a call to a void
    /// function where a byte is needed.
    TypeMismatch,
    /// A top-level statement that is neither a declaration nor a
    /// definition.
    UnexpectedTopLevel,
    /// A statement form in expression position.
    InvalidExpression,
    /// The function needs more stack slots than exist.
    SlotLimit,
}

/// The value of a reported generation error: its kind and the name it
/// concerns (empty where none applies).
pub struct SpecCodegenError {
    pub kind: ErrorKind,
    pub name: Seq<char>,
}

/// How a variable name is bound: to a stack slot, or directly to an
/// incoming parameter that was never reassigned.
pub enum SpecBinding {
    Slot(int),
    ParamReg(int),
}

/// The binding of `name`, innermost (latest) first.
pub open spec fn lookup_from(
    table: Seq<(Seq<char>, SpecBinding)>,
    name: Seq<char>,
    i: int,
) -> Option<SpecBinding>
    decreases i,
{
    if i <= 0 || i > table.len() {
        None
    } else if table[i - 1].0 == name {
        Some(table[i - 1].1)
    } else {
        lookup_from(table, name, i - 1)
    }
}

pub open spec fn lookup(table: Seq<(Seq<char>, SpecBinding)>, name: Seq<char>) -> Option<
    SpecBinding,
> {
    lookup_from(table, name, table.len() as int)
}

/// The index of the first function of that name.
pub open spec fn func_lookup_from(funcs: Seq<SpecFunc>, name: Seq<char>, i: int) -> Option<int>
    decreases funcs.len() - i,
{
    if i < 0 || i >= funcs.len() {
        None
    } else if funcs[i].name == name {
        Some(i)
    } else {
        func_lookup_from(funcs, name, i + 1)
    }
}

pub open spec fn func_lookup(funcs: Seq<SpecFunc>, name: Seq<char>) -> Option<int> {
    func_lookup_from(funcs, name, 0)
}

/// The type a spelling names.
pub open spec fn resolve_ty(s: Seq<char>) -> Option<Ty> {
    if s == "byte"@ {
        Some(Ty::Byte)
    } else if s == "void"@ {
        Some(Ty::Void)
    } else {
        None
    }
}

/// How many byte parameters the chain entries `tys[i..endp]` declare
/// (`void` entries declare none), or the first unknown spelling.
pub open spec fn spec_param_count(tys: Seq<Seq<char>>, i: int, endp: int) -> Result<int, Seq<char>>
    decreases endp - i,
{
    if i >= endp {
        Ok(0)
    } else {
        match resolve_ty(tys[i]) {
            None => Err(tys[i]),
            Some(t) => match spec_param_count(tys, i + 1, endp) {
                Ok(c) => Ok(
                    if t == Ty::Byte {
                        c + 1
                    } else {
                        c
                    },
                ),
                Err(e) => Err(e),
            },
        }
    }
}

/// Registers one declared signature: all entries but the last are
/// parameter types, the last is the return type.
pub open spec fn spec_register(
    funcs: Seq<SpecFunc>,
    name: Seq<char>,
    tys: Seq<Seq<char>>,
) -> Result<Seq<SpecFunc>, SpecCodegenError> {
    if tys.len() == 0 {
        Err(SpecCodegenError { kind: ErrorKind::EmptyDeclare, name })
    } else {
        match spec_param_count(tys, 0, tys.len() - 1) {
            Err(s) => Err(SpecCodegenError { kind: ErrorKind::UnknownType, name: s }),
            Ok(count) => match resolve_ty(tys.last()) {
                None => Err(SpecCodegenError { kind: ErrorKind::UnknownType, name: tys.last() }),
                Some(ret) => Ok(
                    funcs.push(
                        SpecFunc { name, params: count, ret, slots: 0, blocks: Seq::empty() },
                    ),
                ),
            },
        }
    }
}

/// The first pass: registers every `Declare` in order; anything at the
/// top level that is neither a declaration nor a definition is refused.
pub open spec fn spec_pass1(prog: Seq<SpecExpr>, i: int, funcs: Seq<SpecFunc>) -> Result<
    Seq<SpecFunc>,
    SpecCodegenError,
>
    decreases prog.len() - i,
{
    if i < 0 || i >= prog.len() {
        Ok(funcs)
    } else {
        match prog[i].node {
            SpecExpr_::Declare(name, tys) => match spec_register(funcs, name, tys) {
                Ok(f2) => spec_pass1(prog, i + 1, f2),
                Err(e) => Err(e),
            },
            SpecExpr_::Define(_, _, _) => spec_pass1(prog, i + 1, funcs),
            _ => Err(
                SpecCodegenError { kind: ErrorKind::UnexpectedTopLevel, name: Seq::empty() },
            ),
        }
    }
}

/// Shifts a relative operand over `k` appended instructions.
pub open spec fn shift_op(o: SpecOperand, k: int) -> SpecOperand {
    match o {
        SpecOperand::Rel(d) => SpecOperand::Rel(d + k),
        x => x,
    }
}

/// Joins two lowered operands with an arithmetic or bitwise
/// instruction.
pub open spec fn combine_bin(
    op: BinOp,
    ia: Seq<SpecInstr>,
    oa: SpecOperand,
    ib: Seq<SpecInstr>,
    ob: SpecOperand,
) -> (Seq<SpecInstr>, SpecOperand) {
    (ia + ib + seq![SpecInstr::Bin(op, shift_op(oa, ib.len() as int), ob)], SpecOperand::Rel(1))
}

/// Joins two lowered operands with a comparison and widens the
/// predicate back to a byte, so every expression stays byte-valued.
pub open spec fn combine_cmp(
    op: CmpOp,
    ia: Seq<SpecInstr>,
    oa: SpecOperand,
    ib: Seq<SpecInstr>,
    ob: SpecOperand,
) -> (Seq<SpecInstr>, SpecOperand) {
    (
        ia + ib + seq![
            SpecInstr::Cmp(op, shift_op(oa, ib.len() as int), ob),
            SpecInstr::Zext(SpecOperand::Rel(1)),
        ],
        SpecOperand::Rel(1),
    )
}

/// Lowers one expression: the instructions to append to the current
/// block, and the operand naming the expression's byte value at the end
/// of them. Pure: it neither creates blocks nor touches the table.
pub open spec fn spec_lower_expr(
    funcs: Seq<SpecFunc>,
    table: Seq<(Seq<char>, SpecBinding)>,
    e: SpecExpr,
) -> Result<(Seq<SpecInstr>, SpecOperand), SpecCodegenError>
    decreases e,
{
    match e.node {
        SpecExpr_::Byte(x) => Ok((Seq::empty(), SpecOperand::Const(x))),
        SpecExpr_::Var(x) => match lookup(table, x) {
            Some(SpecBinding::Slot(s)) => Ok((seq![SpecInstr::Load(s)], SpecOperand::Rel(1))),
            Some(SpecBinding::ParamReg(i)) => Ok((Seq::empty(), SpecOperand::Param(i))),
            None => Err(SpecCodegenError { kind: ErrorKind::UnboundVariable, name: x }),
        },
        SpecExpr_::Add(a, b) => match (spec_lower_expr(funcs, table, *a), spec_lower_expr(
            funcs,
            table,
            *b,
        )) {
            (Ok((ia, oa)), Ok((ib, ob))) => Ok(combine_bin(BinOp::Add, ia, oa, ib, ob)),
            (Err(e1), _) => Err(e1),
            (_, Err(e2)) => Err(e2),
        },
        SpecExpr_::Sub(a, b) => match (spec_lower_expr(funcs, table, *a), spec_lower_expr(
            funcs,
            table,
            *b,
        )) {
            (Ok((ia, oa)), Ok((ib, ob))) => Ok(combine_bin(BinOp::Sub, ia, oa, ib, ob)),
            (Err(e1), _) => Err(e1),
            (_, Err(e2)) => Err(e2),
        },
        SpecExpr_::Mul(a, b) => match (spec_lower_expr(funcs, table, *a), spec_lower_expr(
            funcs,
            table,
            *b,
        )) {
            (Ok((ia, oa)), Ok((ib, ob))) => Ok(combine_bin(BinOp::Mul, ia, oa, ib, ob)),
            (Err(e1), _) => Err(e1),
            (_, Err(e2)) => Err(e2),
        },
        SpecExpr_::Div(a, b) => match (spec_lower_expr(funcs, table, *a), spec_lower_expr(
            funcs,
            table,
            *b,
        )) {
            (Ok((ia, oa)), Ok((ib, ob))) => Ok(combine_bin(BinOp::Div, ia, oa, ib, ob)),
            (Err(e1), _) => Err(e1),
            (_, Err(e2)) => Err(e2),
        },
        SpecExpr_::Mod(a, b) => match (spec_lower_expr(funcs, table, *a), spec_lower_expr(
            funcs,
            table,
            *b,
        )) {
            (Ok((ia, oa)), Ok((ib, ob))) => Ok(combine_bin(BinOp::Rem, ia, oa, ib, ob)),
            (Err(e1), _) => Err(e1),
            (_, Err(e2)) => Err(e2),
        },
        SpecExpr_::LAnd(a, b) => match (spec_lower_expr(funcs, table, *a), spec_lower_expr(
            funcs,
            table,
            *b,
        )) {
            (Ok((ia, oa)), Ok((ib, ob))) => Ok(combine_bin(BinOp::And, ia, oa, ib, ob)),
            (Err(e1), _) => Err(e1),
            (_, Err(e2)) => Err(e2),
        },
        SpecExpr_::LOr(a, b) => match (spec_lower_expr(funcs, table, *a), spec_lower_expr(
            funcs,
            table,
            *b,
        )) {
            (Ok((ia, oa)), Ok((ib, ob))) => Ok(combine_bin(BinOp::Or, ia, oa, ib, ob)),
            (Err(e1), _) => Err(e1),
            (_, Err(e2)) => Err(e2),
        },
        SpecExpr_::Eq(a, b) => match (spec_lower_expr(funcs, table, *a), spec_lower_expr(
            funcs,
            table,
            *b,
        )) {
            (Ok((ia, oa)), Ok((ib, ob))) => Ok(combine_cmp(CmpOp::Eq, ia, oa, ib, ob)),
            (Err(e1), _) => Err(e1),
            (_, Err(e2)) => Err(e2),
        },
        SpecExpr_::NEq(a, b) => match (spec_lower_expr(funcs, table, *a), spec_lower_expr(
            funcs,
            table,
            *b,
        )) {
            (Ok((ia, oa)), Ok((ib, ob))) => Ok(combine_cmp(CmpOp::Ne, ia, oa, ib, ob)),
            (Err(e1), _) => Err(e1),
            (_, Err(e2)) => Err(e2),
        },
        SpecExpr_::Gt(a, b) => match (spec_lower_expr(funcs, table, *a), spec_lower_expr(
            funcs,
            table,
            *b,
        )) {
            (Ok((ia, oa)), Ok((ib, ob))) => Ok(combine_cmp(CmpOp::Gt, ia, oa, ib, ob)),
            (Err(e1), _) => Err(e1),
            (_, Err(e2)) => Err(e2),
        },
        SpecExpr_::Lt(a, b) => match (spec_lower_expr(funcs, table, *a), spec_lower_expr(
            funcs,
            table,
            *b,
        )) {
            (Ok((ia, oa)), Ok((ib, ob))) => Ok(combine_cmp(CmpOp::Lt, ia, oa, ib, ob)),
            (Err(e1), _) => Err(e1),
            (_, Err(e2)) => Err(e2),
        },
        SpecExpr_::EGt(a, b) => match (spec_lower_expr(funcs, table, *a), spec_lower_expr(
            funcs,
            table,
            *b,
        )) {
            (Ok((ia, oa)), Ok((ib, ob))) => Ok(combine_cmp(CmpOp::Ge, ia, oa, ib, ob)),
            (Err(e1), _) => Err(e1),
            (_, Err(e2)) => Err(e2),
        },
        SpecExpr_::ELt(a, b) => match (spec_lower_expr(funcs, table, *a), spec_lower_expr(
            funcs,
            table,
            *b,
        )) {
            (Ok((ia, oa)), Ok((ib, ob))) => Ok(combine_cmp(CmpOp::Le, ia, oa, ib, ob)),
            (Err(e1), _) => Err(e1),
            (_, Err(e2)) => Err(e2),
        },
        SpecExpr_::LNot(a) => match spec_lower_expr(funcs, table, *a) {
            Ok((ia, oa)) => Ok((ia + seq![SpecInstr::Not(oa)], SpecOperand::Rel(1))),
            Err(e1) => Err(e1),
        },
        SpecExpr_::FunctionCall(name, args) => match func_lookup(funcs, name) {
            None => Err(SpecCodegenError { kind: ErrorKind::UnboundFunction, name }),
            Some(fi) => {
                if funcs[fi].ret != Ty::Byte {
                    Err(SpecCodegenError { kind: ErrorKind::TypeMismatch, name })
                } else if args.len() != funcs[fi].params {
                    Err(SpecCodegenError { kind: ErrorKind::ArityMismatch, name })
                } else {
                    match spec_lower_args(funcs, table, args) {
                        Ok((ias, ops)) => Ok(
                            (ias + seq![SpecInstr::Call(fi, ops)], SpecOperand::Rel(1)),
                        ),
                        Err(e1) => Err(e1),
                    }
                }
            },
        },
        _ => Err(SpecCodegenError { kind: ErrorKind::InvalidExpression, name: Seq::empty() }),
    }
}

/// Lowers call arguments left to right: all their instructions, and one
/// operand per argument, each valid at the end of the whole sequence.
pub open spec fn spec_lower_args(
    funcs: Seq<SpecFunc>,
    table: Seq<(Seq<char>, SpecBinding)>,
    args: Seq<SpecExpr>,
) -> Result<(Seq<SpecInstr>, Seq<SpecOperand>), SpecCodegenError>
    decreases args,
{
    if args.len() == 0 {
        Ok((Seq::empty(), Seq::empty()))
    } else {
        match spec_lower_expr(funcs, table, args[0]) {
            Ok((ia, oa)) => match spec_lower_args(funcs, table, args.drop_first()) {
                Ok((irest, orest)) => Ok(
                    (ia + irest, seq![shift_op(oa, irest.len() as int)] + orest),
                ),
                Err(e) => Err(e),
            },
            Err(e) => Err(e),
        }
    }
}

/// The function-body builder: the blocks so far (`None` marks a block
/// that is created but still open), the count of stack slots, and the
/// variable table.
pub struct SpecFnCtx {
    pub blocks: Seq<Option<SpecBlock>>,
    pub slots: int,
    pub table: Seq<(Seq<char>, SpecBinding)>,
}

/// The open block the cursor stands in: its index and its instructions
/// so far.
pub struct SpecCur {
    pub id: int,
    pub instrs: Seq<SpecInstr>,
}

/// The nonzero test that turns a byte condition into a one-bit
/// predicate, ready for a conditional branch.
pub open spec fn cond_instrs(cur: Seq<SpecInstr>, ic: Seq<SpecInstr>, oc: SpecOperand) -> Seq<
    SpecInstr,
> {
    cur + ic + seq![SpecInstr::Cmp(CmpOp::Ne, oc, SpecOperand::Const(0))]
}

/// Lowers one statement into the open block `cur`, threading the
/// builder; yields the builder and the open block after it, or `None`
/// where the statement closed the block with a return (statements after
/// it in the same list are dead and are dropped).
pub open spec fn spec_lower_stmt(
    funcs: Seq<SpecFunc>,
    ret: Ty,
    st: SpecFnCtx,
    cur: SpecCur,
    s: SpecExpr,
) -> Result<(SpecFnCtx, Option<SpecCur>), SpecCodegenError>
    decreases s,
{
    match s.node {
        SpecExpr_::Pass => Ok((st, Some(cur))),
        SpecExpr_::Assign(x, e) => match spec_lower_expr(funcs, st.table, *e) {
            Ok((ie, oe)) => {
                if st.slots >= usize::MAX as int {
                    Err(SpecCodegenError { kind: ErrorKind::SlotLimit, name: x })
                } else {
                    let slot = st.slots;
                    Ok(
                        (
                            SpecFnCtx {
                                blocks: st.blocks,
                                slots: slot + 1,
                                table: st.table.push((x, SpecBinding::Slot(slot))),
                            },
                            Some(
                                SpecCur {
                                    id: cur.id,
                                    instrs: cur.instrs + ie + seq![SpecInstr::Store(slot, oe)],
                                },
                            ),
                        ),
                    )
                }
            },
            Err(e1) => Err(e1),
        },
        SpecExpr_::ReAssign(x, e) => match lookup(st.table, x) {
            None => Err(SpecCodegenError { kind: ErrorKind::UnboundVariable, name: x }),
            Some(SpecBinding::Slot(slot)) => match spec_lower_expr(funcs, st.table, *e) {
                Ok((ie, oe)) => Ok(
                    (
                        st,
                        Some(
                            SpecCur {
                                id: cur.id,
                                instrs: cur.instrs + ie + seq![SpecInstr::Store(slot, oe)],
                            },
                        ),
                    ),
                ),
                Err(e1) => Err(e1),
            },
            Some(SpecBinding::ParamReg(_)) => match spec_lower_expr(funcs, st.table, *e) {
                // the parameter gets its stack slot lazily, at its
                // first reassignment; reads before this point used the
                // incoming register directly
                Ok((ie, oe)) => {
                    if st.slots >= usize::MAX as int {
                        Err(SpecCodegenError { kind: ErrorKind::SlotLimit, name: x })
                    } else {
                        let slot = st.slots;
                        Ok(
                            (
                                SpecFnCtx {
                                    blocks: st.blocks,
                                    slots: slot + 1,
                                    table: st.table.push((x, SpecBinding::Slot(slot))),
                                },
                                Some(
                                    SpecCur {
                                        id: cur.id,
                                        instrs: cur.instrs + ie + seq![SpecInstr::Store(slot, oe)],
                                    },
                                ),
                            ),
                        )
                    }
                },
                Err(e1) => Err(e1),
            },
        },
        SpecExpr_::IfElse(c, tb, eb) => match spec_lower_expr(funcs, st.table, *c) {
            Err(e1) => Err(e1),
            Ok((ic, oc)) => {
                let then_id = st.blocks.len() as int;
                let else_id = then_id + 1;
                let end_id = then_id + 2;
                let blocks1 = (st.blocks + seq![None, None, None]).update(
                    cur.id,
                    Some(
                        SpecBlock {
                            instrs: cond_instrs(cur.instrs, ic, oc),
                            term: SpecTerm::CondBr(SpecOperand::Rel(1), then_id, else_id),
                        },
                    ),
                );
                let st1 = SpecFnCtx { blocks: blocks1, slots: st.slots, table: st.table };
                match spec_lower_stmts(funcs, ret, st1, SpecCur { id: then_id, instrs: Seq::empty() }, tb) {
                    Err(e1) => Err(e1),
                    Ok((st2, curt)) => {
                        let blocks2 = match curt {
                            Some(ct) => st2.blocks.update(
                                ct.id,
                                Some(SpecBlock { instrs: ct.instrs, term: SpecTerm::Br(end_id) }),
                            ),
                            None => st2.blocks,
                        };
                        let st3 = SpecFnCtx { blocks: blocks2, slots: st2.slots, table: st.table };
                        match spec_lower_stmts(funcs, ret, st3, SpecCur { id: else_id, instrs: Seq::empty() }, eb) {
                            Err(e1) => Err(e1),
                            Ok((st4, cure)) => {
                                let blocks3 = match cure {
                                    Some(ce) => st4.blocks.update(
                                        ce.id,
                                        Some(
                                            SpecBlock {
                                                instrs: ce.instrs,
                                                term: SpecTerm::Br(end_id),
                                            },
                                        ),
                                    ),
                                    None => st4.blocks,
                                };
                                let st5 = SpecFnCtx {
                                    blocks: blocks3,
                                    slots: st4.slots,
                                    table: st.table,
                                };
                                Ok((st5, Some(SpecCur { id: end_id, instrs: Seq::empty() })))
                            },
                        }
                    },
                }
            },
        },
        SpecExpr_::ForLoop(init, c, step, body) => match spec_lower_stmt(funcs, ret, st, cur, *init) {
            Err(e1) => Err(e1),
            Ok((st1, None)) => Ok((st1, None)),
            Ok((st1, Some(cur1))) => match spec_lower_expr(funcs, st1.table, *c) {
                Err(e1) => Err(e1),
                Ok((ic, oc)) => {
                    let loop_id = st1.blocks.len() as int;
                    let end_id = loop_id + 1;
                    let blocks1 = (st1.blocks + seq![None, None]).update(
                        cur1.id,
                        Some(
                            SpecBlock {
                                instrs: cond_instrs(cur1.instrs, ic, oc),
                                term: SpecTerm::CondBr(SpecOperand::Rel(1), loop_id, end_id),
                            },
                        ),
                    );
                    let st2 = SpecFnCtx { blocks: blocks1, slots: st1.slots, table: st1.table };
                    match spec_lower_stmts(funcs, ret, st2, SpecCur { id: loop_id, instrs: Seq::empty() }, body) {
                        Err(e1) => Err(e1),
                        Ok((st3, curb)) => {
                            let st3b = SpecFnCtx {
                                blocks: st3.blocks,
                                slots: st3.slots,
                                table: st1.table,
                            };
                            match curb {
                                None => Ok(
                                    (st3b, Some(SpecCur { id: end_id, instrs: Seq::empty() })),
                                ),
                                Some(cb) => match spec_lower_stmt(funcs, ret, st3b, cb, *step) {
                                    Err(e1) => Err(e1),
                                    Ok((st4, None)) => Ok(
                                        (st4, Some(SpecCur { id: end_id, instrs: Seq::empty() })),
                                    ),
                                    Ok((st4, Some(cs))) => {
                                        // the condition is lowered a
                                        // second time for the back edge
                                        match spec_lower_expr(funcs, st4.table, *c) {
                                            Err(e1) => Err(e1),
                                            Ok((ic2, oc2)) => {
                                                let blocks2 = st4.blocks.update(
                                                    cs.id,
                                                    Some(
                                                        SpecBlock {
                                                            instrs: cond_instrs(
                                                                cs.instrs,
                                                                ic2,
                                                                oc2,
                                                            ),
                                                            term: SpecTerm::CondBr(
                                                                SpecOperand::Rel(1),
                                                                loop_id,
                                                                end_id,
                                                            ),
                                                        },
                                                    ),
                                                );
                                                let st5 = SpecFnCtx {
                                                    blocks: blocks2,
                                                    slots: st4.slots,
                                                    table: st4.table,
                                                };
                                                Ok(
                                                    (
                                                        st5,
                                                        Some(
                                                            SpecCur {
                                                                id: end_id,
                                                                instrs: Seq::empty(),
                                                            },
                                                        ),
                                                    ),
                                                )
                                            },
                                        }
                                    },
                                },
                            }
                        },
                    }
                },
            },
        },
        // every other node is a bare expression in statement position:
        // the block's value-producing statement, lowered to a return
        _ => match spec_lower_expr(funcs, st.table, s) {
            Err(e1) => Err(e1),
            Ok((ie, oe)) => {
                if ret == Ty::Byte {
                    let blocks1 = st.blocks.update(
                        cur.id,
                        Some(
                            SpecBlock {
                                instrs: cur.instrs + ie,
                                term: SpecTerm::Ret(Some(oe)),
                            },
                        ),
                    );
                    Ok((SpecFnCtx { blocks: blocks1, slots: st.slots, table: st.table }, None))
                } else {
                    Err(SpecCodegenError { kind: ErrorKind::TypeMismatch, name: Seq::empty() })
                }
            },
        },
    }
}

/// Lowers a statement list in order; statements after one that returned
/// are dead and are dropped.
pub open spec fn spec_lower_stmts(
    funcs: Seq<SpecFunc>,
    ret: Ty,
    st: SpecFnCtx,
    cur: SpecCur,
    list: Seq<SpecExpr>,
) -> Result<(SpecFnCtx, Option<SpecCur>), SpecCodegenError>
    decreases list,
{
    if list.len() == 0 {
        Ok((st, Some(cur)))
    } else {
        match spec_lower_stmt(funcs, ret, st, cur, list[0]) {
            Ok((st1, Some(cur1))) => spec_lower_stmts(funcs, ret, st1, cur1, list.drop_first()),
            Ok((st1, None)) => Ok((st1, None)),
            Err(e) => Err(e),
        }
    }
}

/// Closes every block: all are sealed when a body has been lowered.
pub open spec fn unwrap_blocks(bs: Seq<Option<SpecBlock>>) -> Seq<SpecBlock> {
    Seq::new(
        bs.len(),
        |i: int|
            match bs[i] {
                Some(b) => b,
                None => SpecBlock { instrs: Seq::empty(), term: SpecTerm::Ret(None) },
            },
    )
}

/// The parameter table a body starts from: each name bound to its
/// incoming parameter, in order.
pub open spec fn param_table(params: Seq<Seq<char>>) -> Seq<(Seq<char>, SpecBinding)> {
    Seq::new(params.len(), |i: int| (params[i], SpecBinding::ParamReg(i)))
}

/// Lowers one defined body into its declared function: the entry block
/// is the first; a body that falls through returns zero from a byte
/// function and nothing from a void one.
pub open spec fn spec_lower_define(
    funcs: Seq<SpecFunc>,
    name: Seq<char>,
    params: Seq<Seq<char>>,
    body: Seq<SpecExpr>,
) -> Result<Seq<SpecFunc>, SpecCodegenError> {
    match func_lookup(funcs, name) {
        None => Err(SpecCodegenError { kind: ErrorKind::UnboundFunction, name }),
        Some(fi) => {
            let f = funcs[fi];
            if f.blocks.len() != 0 {
                Err(SpecCodegenError { kind: ErrorKind::Redefinition, name })
            } else if params.len() != f.params {
                Err(SpecCodegenError { kind: ErrorKind::ArityMismatch, name })
            } else {
                let st0 = SpecFnCtx {
                    blocks: seq![None],
                    slots: 0,
                    table: param_table(params),
                };
                match spec_lower_stmts(funcs, f.ret, st0, SpecCur { id: 0, instrs: Seq::empty() }, body) {
                    Err(e) => Err(e),
                    Ok((st1, tail)) => {
                        let sealed = match tail {
                            Some(ct) => st1.blocks.update(
                                ct.id,
                                Some(
                                    SpecBlock {
                                        instrs: ct.instrs,
                                        term: if f.ret == Ty::Byte {
                                            SpecTerm::Ret(Some(SpecOperand::Const(0)))
                                        } else {
                                            SpecTerm::Ret(None)
                                        },
                                    },
                                ),
                            ),
                            None => st1.blocks,
                        };
                        Ok(
                            funcs.update(
                                fi,
                                SpecFunc {
                                    name: f.name,
                                    params: f.params,
                                    ret: f.ret,
                                    slots: st1.slots,
                                    blocks: unwrap_blocks(sealed),
                                },
                            ),
                        )
                    },
                }
            }
        },
    }
}

/// The second pass: lowers every `Define` in order.
pub open spec fn spec_pass2(prog: Seq<SpecExpr>, i: int, funcs: Seq<SpecFunc>) -> Result<
    Seq<SpecFunc>,
    SpecCodegenError,
>
    decreases prog.len() - i,
{
    if i < 0 || i >= prog.len() {
        Ok(funcs)
    } else {
        match prog[i].node {
            SpecExpr_::Define(name, args, body) => match spec_lower_define(
                funcs,
                name,
                args,
                body,
            ) {
                Ok(f2) => spec_pass2(prog, i + 1, f2),
                Err(e) => Err(e),
            },
            _ => spec_pass2(prog, i + 1, funcs),
        }
    }
}

/// Appends the synthetic process entry `_start`: it calls `main` where
/// a zero-parameter `main` was declared, and does nothing otherwise.
pub open spec fn spec_entry(funcs: Seq<SpecFunc>) -> Seq<SpecFunc> {
    let body = match func_lookup(funcs, "main"@) {
        Some(fi) => {
            if funcs[fi].params == 0 {
                seq![SpecInstr::Call(fi, Seq::empty())]
            } else {
                Seq::empty()
            }
        },
        None => Seq::empty(),
    };
    funcs.push(
        SpecFunc {
            name: "_start"@,
            params: 0,
            ret: Ty::Void,
            slots: 0,
            blocks: seq![SpecBlock { instrs: body, term: SpecTerm::Ret(None) }],
        },
    )
}

/// What the generator produces from a program: signatures registered
/// first, bodies lowered second, the process entry appended last.
pub open spec fn spec_generate(prog: Seq<SpecExpr>) -> Result<SpecModule, SpecCodegenError> {
    match spec_pass1(prog, 0, Seq::empty()) {
        Err(e) => Err(e),
        Ok(f1) => match spec_pass2(prog, 0, f1) {
            Err(e) => Err(e),
            Ok(f2) => Ok(SpecModule { funcs: spec_entry(f2) }),
        },
    }
}

} // verus!
