//! Soundness of the generator: whatever `spec_generate` produces passes
//! the structural verification `module_ok`.
//!
//! The argument follows the lowering. An expression lowers to a
//! self-contained instruction sequence whose operands stay within it,
//! so the sequence stays well-formed wherever in a block it lands
//! (`lemma_lower_expr_wf`). Statement lowering keeps every sealed block
//! well-formed and leaves open exactly the block the cursor stands in
//! (`lemma_lower_stmts_wf`). A defined body therefore seals every block
//! it created (`lemma_lower_define_wf`), and the two passes plus the
//! entry function yield a module every function of which checks out
//! (`lemma_generate_verifies`).

use vstd::prelude::*;
use crate::ir::{SpecBlock, SpecFunc, SpecInstr, SpecModule, SpecOperand, SpecTerm, Ty, VTy,
    instr_ok, instr_val_ty, operand_ok, term_ok, block_ok, func_ok, module_ok};
use crate::lowering::{SpecBinding, SpecCodegenError, SpecCur, SpecFnCtx, combine_bin, combine_cmp,
    cond_instrs, func_lookup, func_lookup_from, lookup, lookup_from, param_table, shift_op,
    spec_entry, spec_generate, spec_lower_args, spec_lower_define, spec_lower_expr,
    spec_lower_stmt, spec_lower_stmts, spec_param_count, spec_pass1, spec_pass2, spec_register,
    unwrap_blocks};
use crate::parser::{SpecExpr, SpecExpr_};

verus! {

/// A binding stays within the function's parameters and slots.
pub open spec fn binding_wf(b: SpecBinding, params: int, slots: int) -> bool {
    match b {
        SpecBinding::Slot(s) => 0 <= s < slots,
        SpecBinding::ParamReg(i) => 0 <= i < params,
    }
}

pub open spec fn table_wf(t: Seq<(Seq<char>, SpecBinding)>, params: int, slots: int) -> bool {
    forall|k: int| 0 <= k < t.len() ==> binding_wf(#[trigger] t[k].1, params, slots)
}

/// Every instruction of the sequence is well-formed within it.
pub open spec fn eseq_wf(funcs: Seq<SpecFunc>, params: int, slots: int, s: Seq<SpecInstr>) -> bool {
    forall|j: int| 0 <= j < s.len() ==> instr_ok(funcs, params, slots, s, j)
}

pub proof fn lemma_lookup_wf(
    t: Seq<(Seq<char>, SpecBinding)>,
    params: int,
    slots: int,
    name: Seq<char>,
    i: int,
)
    requires
        table_wf(t, params, slots),
    ensures
        lookup_from(t, name, i) matches Some(b) ==> binding_wf(b, params, slots),
    decreases i,
{
    if !(i <= 0 || i > t.len()) && !(t[i - 1].0 == name) {
        lemma_lookup_wf(t, params, slots, name, i - 1);
    }
}

pub proof fn lemma_func_lookup_range(funcs: Seq<SpecFunc>, name: Seq<char>, i: int)
    ensures
        func_lookup_from(funcs, name, i) matches Some(fi) ==> i <= fi < funcs.len()
            && funcs[fi].name == name,
    decreases funcs.len() - i,
{
    if !(i < 0 || i >= funcs.len()) && !(funcs[i].name == name) {
        lemma_func_lookup_range(funcs, name, i + 1);
    }
}

/// An operand that reads within a prefix keeps reading the same value
/// after more instructions follow.
pub proof fn lemma_operand_ok_prefix(
    funcs: Seq<SpecFunc>,
    params: int,
    s: Seq<SpecInstr>,
    r: Seq<SpecInstr>,
    j: int,
    op: SpecOperand,
    t: VTy,
)
    requires
        operand_ok(funcs, params, s, j, op, t),
        j <= s.len(),
    ensures
        operand_ok(funcs, params, s + r, j, op, t),
{
    match op {
        SpecOperand::Rel(k) => {
            assert((s + r)[j - k] == s[j - k]);
        },
        _ => {},
    }
}

/// An instruction well-formed at `j` within `s` is well-formed at
/// `c.len() + j` within `c + s`: its relative operands reach the same
/// instructions.
pub proof fn lemma_operand_ok_embed(
    funcs: Seq<SpecFunc>,
    params: int,
    c: Seq<SpecInstr>,
    s: Seq<SpecInstr>,
    j: int,
    op: SpecOperand,
    t: VTy,
)
    requires
        operand_ok(funcs, params, s, j, op, t),
    ensures
        operand_ok(funcs, params, c + s, c.len() + j, op, t),
{
    match op {
        SpecOperand::Rel(k) => {
            assert((c + s)[c.len() + j - k] == s[j - k]);
        },
        _ => {},
    }
}

pub proof fn lemma_instr_ok_embed(
    funcs: Seq<SpecFunc>,
    params: int,
    slots: int,
    c: Seq<SpecInstr>,
    s: Seq<SpecInstr>,
    j: int,
)
    requires
        0 <= j < s.len(),
        instr_ok(funcs, params, slots, s, j),
    ensures
        instr_ok(funcs, params, slots, c + s, c.len() + j),
{
    assert((c + s)[c.len() + j] == s[j]);
    match s[j] {
        SpecInstr::Store(_, v) => {
            lemma_operand_ok_embed(funcs, params, c, s, j, v, VTy::Byte);
        },
        SpecInstr::Bin(_, a, b) => {
            lemma_operand_ok_embed(funcs, params, c, s, j, a, VTy::Byte);
            lemma_operand_ok_embed(funcs, params, c, s, j, b, VTy::Byte);
        },
        SpecInstr::Not(a) => {
            lemma_operand_ok_embed(funcs, params, c, s, j, a, VTy::Byte);
        },
        SpecInstr::Cmp(_, a, b) => {
            lemma_operand_ok_embed(funcs, params, c, s, j, a, VTy::Byte);
            lemma_operand_ok_embed(funcs, params, c, s, j, b, VTy::Byte);
        },
        SpecInstr::Zext(a) => {
            lemma_operand_ok_embed(funcs, params, c, s, j, a, VTy::Bit);
        },
        SpecInstr::Call(_, args) => {
            assert forall|i: int| 0 <= i < args.len() implies operand_ok(
                funcs,
                params,
                c + s,
                c.len() + j,
                #[trigger] args[i],
                VTy::Byte,
            ) by {
                lemma_operand_ok_embed(funcs, params, c, s, j, args[i], VTy::Byte);
            }
        },
        _ => {},
    }
}

pub proof fn lemma_instr_ok_extend(
    funcs: Seq<SpecFunc>,
    params: int,
    slots: int,
    s: Seq<SpecInstr>,
    r: Seq<SpecInstr>,
    j: int,
)
    requires
        0 <= j < s.len(),
        instr_ok(funcs, params, slots, s, j),
    ensures
        instr_ok(funcs, params, slots, s + r, j),
{
    assert((s + r)[j] == s[j]);
    match s[j] {
        SpecInstr::Store(_, v) => {
            lemma_operand_ok_prefix(funcs, params, s, r, j, v, VTy::Byte);
        },
        SpecInstr::Bin(_, a, b) => {
            lemma_operand_ok_prefix(funcs, params, s, r, j, a, VTy::Byte);
            lemma_operand_ok_prefix(funcs, params, s, r, j, b, VTy::Byte);
        },
        SpecInstr::Not(a) => {
            lemma_operand_ok_prefix(funcs, params, s, r, j, a, VTy::Byte);
        },
        SpecInstr::Cmp(_, a, b) => {
            lemma_operand_ok_prefix(funcs, params, s, r, j, a, VTy::Byte);
            lemma_operand_ok_prefix(funcs, params, s, r, j, b, VTy::Byte);
        },
        SpecInstr::Zext(a) => {
            lemma_operand_ok_prefix(funcs, params, s, r, j, a, VTy::Bit);
        },
        SpecInstr::Call(_, args) => {
            assert forall|i: int| 0 <= i < args.len() implies operand_ok(
                funcs,
                params,
                s + r,
                j,
                #[trigger] args[i],
                VTy::Byte,
            ) by {
                lemma_operand_ok_prefix(funcs, params, s, r, j, args[i], VTy::Byte);
            }
        },
        _ => {},
    }
}

pub proof fn lemma_eseq_append(
    funcs: Seq<SpecFunc>,
    params: int,
    slots: int,
    a: Seq<SpecInstr>,
    b: Seq<SpecInstr>,
)
    requires
        eseq_wf(funcs, params, slots, a),
        eseq_wf(funcs, params, slots, b),
    ensures
        eseq_wf(funcs, params, slots, a + b),
{
    assert forall|j: int| 0 <= j < (a + b).len() implies instr_ok(
        funcs,
        params,
        slots,
        a + b,
        j,
    ) by {
        if j < a.len() {
            lemma_instr_ok_extend(funcs, params, slots, a, b, j);
        } else {
            lemma_instr_ok_embed(funcs, params, slots, a, b, j - a.len());
            assert(a.len() + (j - a.len()) == j);
        }
    }
}

/// A shifted result operand reads the same value from the end of the
/// longer sequence.
pub proof fn lemma_shift_ok(
    funcs: Seq<SpecFunc>,
    params: int,
    a: Seq<SpecInstr>,
    b: Seq<SpecInstr>,
    oa: SpecOperand,
    t: VTy,
)
    requires
        operand_ok(funcs, params, a, a.len() as int, oa, t),
    ensures
        operand_ok(funcs, params, a + b, (a + b).len() as int, shift_op(oa, b.len() as int), t),
{
    match oa {
        SpecOperand::Rel(k) => {
            assert((a + b)[(a + b).len() - (k + b.len())] == a[a.len() - k]);
        },
        _ => {},
    }
}

/// What an expression lowers to is self-contained and byte-valued: the
/// sequence is well-formed, and the result operand names a byte at its
/// end.
#[verifier::rlimit(100)]
#[verifier::spinoff_prover]
pub proof fn lemma_lower_expr_wf(
    funcs: Seq<SpecFunc>,
    table: Seq<(Seq<char>, SpecBinding)>,
    params: int,
    slots: int,
    e: SpecExpr,
)
    requires
        table_wf(table, params, slots),
    ensures
        spec_lower_expr(funcs, table, e) matches Ok(so) ==> eseq_wf(funcs, params, slots, so.0)
            && operand_ok(funcs, params, so.0, so.0.len() as int, so.1, VTy::Byte),
    decreases e,
{
    let r = spec_lower_expr(funcs, table, e);
    match e.node {
        SpecExpr_::Byte(_) => {},
        SpecExpr_::Var(x) => {
            lemma_lookup_wf(table, params, slots, x, table.len() as int);
            if r is Ok {
                let (s, o) = r->Ok_0;
                assert forall|j: int| 0 <= j < s.len() implies instr_ok(
                    funcs,
                    params,
                    slots,
                    s,
                    j,
                ) by {}
            }
        },
        SpecExpr_::Add(a, b) => {
            lemma_lower_expr_wf(funcs, table, params, slots, *a);
            lemma_lower_expr_wf(funcs, table, params, slots, *b);
            {
                let ra = spec_lower_expr(funcs, table, *a);
                let rb = spec_lower_expr(funcs, table, *b);
                if ra is Ok && rb is Ok {
                    lemma_combine_bin_wf(funcs, params, slots, ra->Ok_0.0, ra->Ok_0.1, rb->Ok_0.0,
                        rb->Ok_0.1, crate::ir::BinOp::Add);
                }
            }
        },
        SpecExpr_::Sub(a, b) => {
            lemma_lower_expr_wf(funcs, table, params, slots, *a);
            lemma_lower_expr_wf(funcs, table, params, slots, *b);
            {
                let ra = spec_lower_expr(funcs, table, *a);
                let rb = spec_lower_expr(funcs, table, *b);
                if ra is Ok && rb is Ok {
                    lemma_combine_bin_wf(funcs, params, slots, ra->Ok_0.0, ra->Ok_0.1, rb->Ok_0.0,
                        rb->Ok_0.1, crate::ir::BinOp::Sub);
                }
            }
        },
        SpecExpr_::Mul(a, b) => {
            lemma_lower_expr_wf(funcs, table, params, slots, *a);
            lemma_lower_expr_wf(funcs, table, params, slots, *b);
            {
                let ra = spec_lower_expr(funcs, table, *a);
                let rb = spec_lower_expr(funcs, table, *b);
                if ra is Ok && rb is Ok {
                    lemma_combine_bin_wf(funcs, params, slots, ra->Ok_0.0, ra->Ok_0.1, rb->Ok_0.0,
                        rb->Ok_0.1, crate::ir::BinOp::Mul);
                }
            }
        },
        SpecExpr_::Div(a, b) => {
            lemma_lower_expr_wf(funcs, table, params, slots, *a);
            lemma_lower_expr_wf(funcs, table, params, slots, *b);
            {
                let ra = spec_lower_expr(funcs, table, *a);
                let rb = spec_lower_expr(funcs, table, *b);
                if ra is Ok && rb is Ok {
                    lemma_combine_bin_wf(funcs, params, slots, ra->Ok_0.0, ra->Ok_0.1, rb->Ok_0.0,
                        rb->Ok_0.1, crate::ir::BinOp::Div);
                }
            }
        },
        SpecExpr_::Mod(a, b) => {
            lemma_lower_expr_wf(funcs, table, params, slots, *a);
            lemma_lower_expr_wf(funcs, table, params, slots, *b);
            {
                let ra = spec_lower_expr(funcs, table, *a);
                let rb = spec_lower_expr(funcs, table, *b);
                if ra is Ok && rb is Ok {
                    lemma_combine_bin_wf(funcs, params, slots, ra->Ok_0.0, ra->Ok_0.1, rb->Ok_0.0,
                        rb->Ok_0.1, crate::ir::BinOp::Rem);
                }
            }
        },
        SpecExpr_::LAnd(a, b) => {
            lemma_lower_expr_wf(funcs, table, params, slots, *a);
            lemma_lower_expr_wf(funcs, table, params, slots, *b);
            {
                let ra = spec_lower_expr(funcs, table, *a);
                let rb = spec_lower_expr(funcs, table, *b);
                if ra is Ok && rb is Ok {
                    lemma_combine_bin_wf(funcs, params, slots, ra->Ok_0.0, ra->Ok_0.1, rb->Ok_0.0,
                        rb->Ok_0.1, crate::ir::BinOp::And);
                }
            }
        },
        SpecExpr_::LOr(a, b) => {
            lemma_lower_expr_wf(funcs, table, params, slots, *a);
            lemma_lower_expr_wf(funcs, table, params, slots, *b);
            {
                let ra = spec_lower_expr(funcs, table, *a);
                let rb = spec_lower_expr(funcs, table, *b);
                if ra is Ok && rb is Ok {
                    lemma_combine_bin_wf(funcs, params, slots, ra->Ok_0.0, ra->Ok_0.1, rb->Ok_0.0,
                        rb->Ok_0.1, crate::ir::BinOp::Or);
                }
            }
        },
        SpecExpr_::Eq(a, b) => {
            lemma_lower_expr_wf(funcs, table, params, slots, *a);
            lemma_lower_expr_wf(funcs, table, params, slots, *b);
            {
                let ra = spec_lower_expr(funcs, table, *a);
                let rb = spec_lower_expr(funcs, table, *b);
                if ra is Ok && rb is Ok {
                    lemma_combine_cmp_wf(funcs, params, slots, ra->Ok_0.0, ra->Ok_0.1, rb->Ok_0.0,
                        rb->Ok_0.1, crate::ir::CmpOp::Eq);
                }
            }
        },
        SpecExpr_::NEq(a, b) => {
            lemma_lower_expr_wf(funcs, table, params, slots, *a);
            lemma_lower_expr_wf(funcs, table, params, slots, *b);
            {
                let ra = spec_lower_expr(funcs, table, *a);
                let rb = spec_lower_expr(funcs, table, *b);
                if ra is Ok && rb is Ok {
                    lemma_combine_cmp_wf(funcs, params, slots, ra->Ok_0.0, ra->Ok_0.1, rb->Ok_0.0,
                        rb->Ok_0.1, crate::ir::CmpOp::Ne);
                }
            }
        },
        SpecExpr_::Gt(a, b) => {
            lemma_lower_expr_wf(funcs, table, params, slots, *a);
            lemma_lower_expr_wf(funcs, table, params, slots, *b);
            {
                let ra = spec_lower_expr(funcs, table, *a);
                let rb = spec_lower_expr(funcs, table, *b);
                if ra is Ok && rb is Ok {
                    lemma_combine_cmp_wf(funcs, params, slots, ra->Ok_0.0, ra->Ok_0.1, rb->Ok_0.0,
                        rb->Ok_0.1, crate::ir::CmpOp::Gt);
                }
            }
        },
        SpecExpr_::Lt(a, b) => {
            lemma_lower_expr_wf(funcs, table, params, slots, *a);
            lemma_lower_expr_wf(funcs, table, params, slots, *b);
            {
                let ra = spec_lower_expr(funcs, table, *a);
                let rb = spec_lower_expr(funcs, table, *b);
                if ra is Ok && rb is Ok {
                    lemma_combine_cmp_wf(funcs, params, slots, ra->Ok_0.0, ra->Ok_0.1, rb->Ok_0.0,
                        rb->Ok_0.1, crate::ir::CmpOp::Lt);
                }
            }
        },
        SpecExpr_::EGt(a, b) => {
            lemma_lower_expr_wf(funcs, table, params, slots, *a);
            lemma_lower_expr_wf(funcs, table, params, slots, *b);
            {
                let ra = spec_lower_expr(funcs, table, *a);
                let rb = spec_lower_expr(funcs, table, *b);
                if ra is Ok && rb is Ok {
                    lemma_combine_cmp_wf(funcs, params, slots, ra->Ok_0.0, ra->Ok_0.1, rb->Ok_0.0,
                        rb->Ok_0.1, crate::ir::CmpOp::Ge);
                }
            }
        },
        SpecExpr_::ELt(a, b) => {
            lemma_lower_expr_wf(funcs, table, params, slots, *a);
            lemma_lower_expr_wf(funcs, table, params, slots, *b);
            {
                let ra = spec_lower_expr(funcs, table, *a);
                let rb = spec_lower_expr(funcs, table, *b);
                if ra is Ok && rb is Ok {
                    lemma_combine_cmp_wf(funcs, params, slots, ra->Ok_0.0, ra->Ok_0.1, rb->Ok_0.0,
                        rb->Ok_0.1, crate::ir::CmpOp::Le);
                }
            }
        },
        SpecExpr_::LNot(a) => {
            lemma_lower_expr_wf(funcs, table, params, slots, *a);
            let ra = spec_lower_expr(funcs, table, *a);
            if ra is Ok {
                let (ia, oa) = ra->Ok_0;
                let s = ia + seq![SpecInstr::Not(oa)];
                assert(s[s.len() - 1] == SpecInstr::Not(oa));
                lemma_operand_ok_prefix(
                    funcs,
                    params,
                    ia,
                    seq![SpecInstr::Not(oa)],
                    ia.len() as int,
                    oa,
                    VTy::Byte,
                );
                assert forall|j: int| 0 <= j < s.len() implies instr_ok(
                    funcs,
                    params,
                    slots,
                    s,
                    j,
                ) by {
                    if j < ia.len() {
                        lemma_instr_ok_extend(funcs, params, slots, ia, seq![SpecInstr::Not(oa)], j);
                    }
                }
            }
        },
        SpecExpr_::FunctionCall(name, args) => {
            lemma_func_lookup_range(funcs, name, 0);
            match func_lookup(funcs, name) {
                Some(fi) => {
                    if funcs[fi].ret == Ty::Byte && args.len() == funcs[fi].params {
                        lemma_lower_args_wf(funcs, table, params, slots, args);
                        let ra = spec_lower_args(funcs, table, args);
                        if ra is Ok {
                            let (ias, ops) = ra->Ok_0;
                            let call = SpecInstr::Call(fi, ops);
                            let s = ias + seq![call];
                            assert(s[s.len() - 1] == call);
                            assert forall|i: int| 0 <= i < ops.len() implies operand_ok(
                                funcs,
                                params,
                                s,
                                ias.len() as int,
                                #[trigger] ops[i],
                                VTy::Byte,
                            ) by {
                                lemma_operand_ok_prefix(
                                    funcs,
                                    params,
                                    ias,
                                    seq![call],
                                    ias.len() as int,
                                    ops[i],
                                    VTy::Byte,
                                );
                            }
                            assert forall|j: int| 0 <= j < s.len() implies instr_ok(
                                funcs,
                                params,
                                slots,
                                s,
                                j,
                            ) by {
                                if j < ias.len() {
                                    lemma_instr_ok_extend(funcs, params, slots, ias, seq![call], j);
                                }
                            }
                        }
                    }
                },
                None => {},
            }
        },
        _ => {},
    }
}

/// Both operands of an arithmetic or bitwise join stay valid, and the
/// joined sequence is well-formed.
#[verifier::spinoff_prover]
proof fn lemma_combine_bin_wf(
    funcs: Seq<SpecFunc>,
    params: int,
    slots: int,
    ia: Seq<SpecInstr>,
    oa: SpecOperand,
    ib: Seq<SpecInstr>,
    ob: SpecOperand,
    op: crate::ir::BinOp,
)
    requires
        eseq_wf(funcs, params, slots, ia),
        operand_ok(funcs, params, ia, ia.len() as int, oa, VTy::Byte),
        eseq_wf(funcs, params, slots, ib),
        operand_ok(funcs, params, ib, ib.len() as int, ob, VTy::Byte),
    ensures
        eseq_wf(funcs, params, slots, combine_bin(op, ia, oa, ib, ob).0),
        operand_ok(
            funcs,
            params,
            combine_bin(op, ia, oa, ib, ob).0,
            combine_bin(op, ia, oa, ib, ob).0.len() as int,
            combine_bin(op, ia, oa, ib, ob).1,
            VTy::Byte,
        ),
{
    let last = SpecInstr::Bin(op, shift_op(oa, ib.len() as int), ob);
    let ab = ia + ib;
    let s = ab + seq![last];
    lemma_eseq_append(funcs, params, slots, ia, ib);
    lemma_shift_ok(funcs, params, ia, ib, oa, VTy::Byte);
    lemma_operand_ok_embed(funcs, params, ia, ib, ib.len() as int, ob, VTy::Byte);
    lemma_operand_ok_prefix(
        funcs,
        params,
        ab,
        seq![last],
        ab.len() as int,
        shift_op(oa, ib.len() as int),
        VTy::Byte,
    );
    lemma_operand_ok_prefix(funcs, params, ab, seq![last], ab.len() as int, ob, VTy::Byte);
    assert(s[s.len() - 1] == last);
    assert forall|j: int| 0 <= j < s.len() implies instr_ok(funcs, params, slots, s, j) by {
        if j < ab.len() {
            lemma_instr_ok_extend(funcs, params, slots, ab, seq![last], j);
        } else {
            assert(s[j] == last);
        }
    }
    assert(combine_bin(op, ia, oa, ib, ob).0 =~= s);
}

/// The comparison join: a compare and a widening cast back to the byte,
/// whose value the result operand names.
#[verifier::spinoff_prover]
proof fn lemma_combine_cmp_wf(
    funcs: Seq<SpecFunc>,
    params: int,
    slots: int,
    ia: Seq<SpecInstr>,
    oa: SpecOperand,
    ib: Seq<SpecInstr>,
    ob: SpecOperand,
    op: crate::ir::CmpOp,
)
    requires
        eseq_wf(funcs, params, slots, ia),
        operand_ok(funcs, params, ia, ia.len() as int, oa, VTy::Byte),
        eseq_wf(funcs, params, slots, ib),
        operand_ok(funcs, params, ib, ib.len() as int, ob, VTy::Byte),
    ensures
        eseq_wf(funcs, params, slots, combine_cmp(op, ia, oa, ib, ob).0),
        operand_ok(
            funcs,
            params,
            combine_cmp(op, ia, oa, ib, ob).0,
            combine_cmp(op, ia, oa, ib, ob).0.len() as int,
            combine_cmp(op, ia, oa, ib, ob).1,
            VTy::Byte,
        ),
{
    let cmp = SpecInstr::Cmp(op, shift_op(oa, ib.len() as int), ob);
    let zext = SpecInstr::Zext(SpecOperand::Rel(1));
    let ab = ia + ib;
    let s = ab + seq![cmp, zext];
    lemma_eseq_append(funcs, params, slots, ia, ib);
    lemma_shift_ok(funcs, params, ia, ib, oa, VTy::Byte);
    lemma_operand_ok_embed(funcs, params, ia, ib, ib.len() as int, ob, VTy::Byte);
    lemma_operand_ok_prefix(
        funcs,
        params,
        ab,
        seq![cmp, zext],
        ab.len() as int,
        shift_op(oa, ib.len() as int),
        VTy::Byte,
    );
    lemma_operand_ok_prefix(funcs, params, ab, seq![cmp, zext], ab.len() as int, ob, VTy::Byte);
    assert(s[ab.len() as int] == cmp);
    assert(s[s.len() - 1] == zext);
    assert forall|j: int| 0 <= j < s.len() implies instr_ok(funcs, params, slots, s, j) by {
        if j < ab.len() {
            lemma_instr_ok_extend(funcs, params, slots, ab, seq![cmp, zext], j);
        } else if j == ab.len() {
            assert(s[j] == cmp);
        } else {
            assert(s[j] == zext);
            assert(s[j - 1] == cmp);
        }
    }
    assert(combine_cmp(op, ia, oa, ib, ob).0 =~= s);
}

/// Lowered call arguments: the sequence is well-formed and every
/// argument operand names a byte at its end.
pub proof fn lemma_lower_args_wf(
    funcs: Seq<SpecFunc>,
    table: Seq<(Seq<char>, SpecBinding)>,
    params: int,
    slots: int,
    args: Seq<SpecExpr>,
)
    requires
        table_wf(table, params, slots),
    ensures
        spec_lower_args(funcs, table, args) matches Ok(so) ==> {
            &&& eseq_wf(funcs, params, slots, so.0)
            &&& so.1.len() == args.len()
            &&& forall|i: int|
                0 <= i < so.1.len() ==> operand_ok(
                    funcs,
                    params,
                    so.0,
                    so.0.len() as int,
                    #[trigger] so.1[i],
                    VTy::Byte,
                )
        },
    decreases args,
{
    if args.len() != 0 {
        lemma_lower_expr_wf(funcs, table, params, slots, args[0]);
        lemma_lower_args_wf(funcs, table, params, slots, args.drop_first());
        let ra = spec_lower_expr(funcs, table, args[0]);
        let rr = spec_lower_args(funcs, table, args.drop_first());
        if ra is Ok && rr is Ok {
            let (ia, oa) = ra->Ok_0;
            let (irest, orest) = rr->Ok_0;
            let s = ia + irest;
            let ops = seq![shift_op(oa, irest.len() as int)] + orest;
            lemma_eseq_append(funcs, params, slots, ia, irest);
            lemma_shift_ok(funcs, params, ia, irest, oa, VTy::Byte);
            assert forall|i: int| 0 <= i < ops.len() implies operand_ok(
                funcs,
                params,
                s,
                s.len() as int,
                #[trigger] ops[i],
                VTy::Byte,
            ) by {
                if i > 0 {
                    assert(ops[i] == orest[i - 1]);
                    lemma_operand_ok_embed(
                        funcs,
                        params,
                        ia,
                        irest,
                        irest.len() as int,
                        orest[i - 1],
                        VTy::Byte,
                    );
                }
            }
        }
    }
}

/// Terminator well-formedness against explicit signature parts, used
/// while the block list is still growing; agrees with `term_ok` once
/// the function is assembled.
pub open spec fn term_ok_n(
    funcs: Seq<SpecFunc>,
    params: int,
    ret: Ty,
    nblocks: int,
    instrs: Seq<SpecInstr>,
    t: SpecTerm,
) -> bool {
    match t {
        SpecTerm::Br(b) => 0 <= b < nblocks,
        SpecTerm::CondBr(c, b1, b2) => operand_ok(funcs, params, instrs, instrs.len() as int, c, VTy::Bit)
            && 0 <= b1 < nblocks && 0 <= b2 < nblocks,
        SpecTerm::Ret(Some(v)) => ret == Ty::Byte && operand_ok(
            funcs,
            params,
            instrs,
            instrs.len() as int,
            v,
            VTy::Byte,
        ),
        SpecTerm::Ret(None) => ret == Ty::Void,
    }
}

/// Every sealed block of the builder is well-formed; open slots are
/// unconstrained.
pub open spec fn blocks_wf(
    funcs: Seq<SpecFunc>,
    params: int,
    ret: Ty,
    slots: int,
    blocks: Seq<Option<SpecBlock>>,
) -> bool {
    forall|bi: int|
        0 <= bi < blocks.len() && blocks[bi] is Some ==> {
            let b = (#[trigger] blocks[bi])->0;
            eseq_wf(funcs, params, slots, b.instrs) && term_ok_n(
                funcs,
                params,
                ret,
                blocks.len() as int,
                b.instrs,
                b.term,
            )
        }
}

/// The builder invariant.
pub open spec fn ctx_wf(funcs: Seq<SpecFunc>, params: int, ret: Ty, st: SpecFnCtx) -> bool {
    &&& 0 <= st.slots <= usize::MAX
    &&& table_wf(st.table, params, st.slots)
    &&& blocks_wf(funcs, params, ret, st.slots, st.blocks)
}

/// The cursor invariant: the open block exists, is unsealed, and its
/// instructions so far are well-formed.
pub open spec fn cur_ok(funcs: Seq<SpecFunc>, params: int, st: SpecFnCtx, cur: SpecCur) -> bool {
    &&& 0 <= cur.id < st.blocks.len()
    &&& st.blocks[cur.id] is None
    &&& eseq_wf(funcs, params, st.slots, cur.instrs)
}

pub proof fn lemma_instr_ok_mono_slots(
    funcs: Seq<SpecFunc>,
    params: int,
    slots1: int,
    slots2: int,
    s: Seq<SpecInstr>,
    j: int,
)
    requires
        0 <= j < s.len(),
        instr_ok(funcs, params, slots1, s, j),
        slots1 <= slots2,
    ensures
        instr_ok(funcs, params, slots2, s, j),
{
}

pub proof fn lemma_eseq_mono_slots(
    funcs: Seq<SpecFunc>,
    params: int,
    slots1: int,
    slots2: int,
    s: Seq<SpecInstr>,
)
    requires
        eseq_wf(funcs, params, slots1, s),
        slots1 <= slots2,
    ensures
        eseq_wf(funcs, params, slots2, s),
{
    assert forall|j: int| 0 <= j < s.len() implies instr_ok(funcs, params, slots2, s, j) by {
        lemma_instr_ok_mono_slots(funcs, params, slots1, slots2, s, j);
    }
}

pub proof fn lemma_table_wf_mono(
    t: Seq<(Seq<char>, SpecBinding)>,
    params: int,
    slots1: int,
    slots2: int,
)
    requires
        table_wf(t, params, slots1),
        slots1 <= slots2,
    ensures
        table_wf(t, params, slots2),
{
}

/// Appending open slots and raising the slot count keeps the sealed
/// blocks well-formed.
pub proof fn lemma_blocks_wf_grow(
    funcs: Seq<SpecFunc>,
    params: int,
    ret: Ty,
    slots1: int,
    slots2: int,
    blocks: Seq<Option<SpecBlock>>,
    nones: Seq<Option<SpecBlock>>,
)
    requires
        blocks_wf(funcs, params, ret, slots1, blocks),
        slots1 <= slots2,
        forall|i: int| 0 <= i < nones.len() ==> #[trigger] nones[i] is None,
    ensures
        blocks_wf(funcs, params, ret, slots2, blocks + nones),
{
    let g = blocks + nones;
    assert forall|bi: int| 0 <= bi < g.len() && g[bi] is Some implies {
        let b = (#[trigger] g[bi])->0;
        eseq_wf(funcs, params, slots2, b.instrs) && term_ok_n(
            funcs,
            params,
            ret,
            g.len() as int,
            b.instrs,
            b.term,
        )
    } by {
        assert(bi < blocks.len() && g[bi] == blocks[bi]);
        let b = g[bi]->0;
        lemma_eseq_mono_slots(funcs, params, slots1, slots2, b.instrs);
    }
}

/// Sealing an open slot with a well-formed block keeps the invariant.
pub proof fn lemma_blocks_wf_seal(
    funcs: Seq<SpecFunc>,
    params: int,
    ret: Ty,
    slots: int,
    blocks: Seq<Option<SpecBlock>>,
    id: int,
    b: SpecBlock,
)
    requires
        blocks_wf(funcs, params, ret, slots, blocks),
        0 <= id < blocks.len(),
        eseq_wf(funcs, params, slots, b.instrs),
        term_ok_n(funcs, params, ret, blocks.len() as int, b.instrs, b.term),
    ensures
        blocks_wf(funcs, params, ret, slots, blocks.update(id, Some(b))),
{
    let g = blocks.update(id, Some(b));
    assert forall|bi: int| 0 <= bi < g.len() && g[bi] is Some implies {
        let bb = (#[trigger] g[bi])->0;
        eseq_wf(funcs, params, slots, bb.instrs) && term_ok_n(
            funcs,
            params,
            ret,
            g.len() as int,
            bb.instrs,
            bb.term,
        )
    } by {
        if bi != id {
            assert(g[bi] == blocks[bi]);
        }
    }
}

/// A condition sequence: the open block's instructions, the lowered
/// condition, and the nonzero test, whose predicate `Rel(1)` names.
pub proof fn lemma_cond_seal(
    funcs: Seq<SpecFunc>,
    params: int,
    slots: int,
    cur: Seq<SpecInstr>,
    ic: Seq<SpecInstr>,
    oc: SpecOperand,
)
    requires
        eseq_wf(funcs, params, slots, cur),
        eseq_wf(funcs, params, slots, ic),
        operand_ok(funcs, params, ic, ic.len() as int, oc, VTy::Byte),
    ensures
        eseq_wf(funcs, params, slots, cond_instrs(cur, ic, oc)),
        operand_ok(
            funcs,
            params,
            cond_instrs(cur, ic, oc),
            cond_instrs(cur, ic, oc).len() as int,
            SpecOperand::Rel(1),
            VTy::Bit,
        ),
{
    let cmp = SpecInstr::Cmp(crate::ir::CmpOp::Ne, oc, SpecOperand::Const(0));
    let ci = cur + ic;
    let s = ci + seq![cmp];
    lemma_eseq_append(funcs, params, slots, cur, ic);
    lemma_operand_ok_embed(funcs, params, cur, ic, ic.len() as int, oc, VTy::Byte);
    lemma_operand_ok_prefix(funcs, params, ci, seq![cmp], ci.len() as int, oc, VTy::Byte);
    assert(s[s.len() - 1] == cmp);
    assert forall|j: int| 0 <= j < s.len() implies instr_ok(funcs, params, slots, s, j) by {
        if j < ci.len() {
            lemma_instr_ok_extend(funcs, params, slots, ci, seq![cmp], j);
        } else {
            assert(s[j] == cmp);
        }
    }
    assert(cond_instrs(cur, ic, oc) =~= s);
}

/// An expression appended to the open block, followed by one `Store` of
/// its value.
pub proof fn lemma_store_append(
    funcs: Seq<SpecFunc>,
    params: int,
    slots: int,
    cur: Seq<SpecInstr>,
    ie: Seq<SpecInstr>,
    oe: SpecOperand,
    slot: int,
)
    requires
        eseq_wf(funcs, params, slots, cur),
        eseq_wf(funcs, params, slots, ie),
        operand_ok(funcs, params, ie, ie.len() as int, oe, VTy::Byte),
        0 <= slot < slots,
    ensures
        eseq_wf(funcs, params, slots, cur + ie + seq![SpecInstr::Store(slot, oe)]),
{
    let store = SpecInstr::Store(slot, oe);
    let ci = cur + ie;
    let s = ci + seq![store];
    lemma_eseq_append(funcs, params, slots, cur, ie);
    lemma_operand_ok_embed(funcs, params, cur, ie, ie.len() as int, oe, VTy::Byte);
    lemma_operand_ok_prefix(funcs, params, ci, seq![store], ci.len() as int, oe, VTy::Byte);
    assert(s[s.len() - 1] == store);
    assert forall|j: int| 0 <= j < s.len() implies instr_ok(funcs, params, slots, s, j) by {
        if j < ci.len() {
            lemma_instr_ok_extend(funcs, params, slots, ci, seq![store], j);
        } else {
            assert(s[j] == store);
        }
    }
    assert(cur + ie + seq![store] =~= s);
}

/// What one lowering step guarantees: the invariant holds again, blocks
/// only grow, sealed blocks stay, pending blocks other than the old
/// cursor stay pending, every open slot is accounted for, and the new
/// cursor is either the old one or a block created by the step.
pub open spec fn step_post(
    funcs: Seq<SpecFunc>,
    params: int,
    ret: Ty,
    st: SpecFnCtx,
    cur_id: int,
    st2: SpecFnCtx,
    tail: Option<SpecCur>,
) -> bool {
    &&& ctx_wf(funcs, params, ret, st2)
    &&& st2.blocks.len() >= st.blocks.len()
    &&& st2.slots >= st.slots
    &&& forall|j: int|
        0 <= j < st.blocks.len() && (#[trigger] st.blocks[j]) is Some ==> st2.blocks[j]
            == st.blocks[j]
    &&& forall|j: int|
        0 <= j < st.blocks.len() && (#[trigger] st.blocks[j]) is None && j != cur_id
            ==> st2.blocks[j] is None
    &&& forall|j: int|
        0 <= j < st2.blocks.len() && (#[trigger] st2.blocks[j]) is None ==> ((j < st.blocks.len()
            && st.blocks[j] is None && j != cur_id) || (tail matches Some(c) && j == c.id))
    &&& tail matches Some(c) ==> {
        &&& 0 <= c.id < st2.blocks.len()
        &&& st2.blocks[c.id] is None
        &&& eseq_wf(funcs, params, st2.slots, c.instrs)
        &&& (c.id == cur_id || c.id >= st.blocks.len())
    }
}

/// Two lowering steps compose.
pub proof fn lemma_step_post_trans(
    funcs: Seq<SpecFunc>,
    params: int,
    ret: Ty,
    st: SpecFnCtx,
    cur_id: int,
    st1: SpecFnCtx,
    cur1: SpecCur,
    st2: SpecFnCtx,
    tail: Option<SpecCur>,
)
    requires
        step_post(funcs, params, ret, st, cur_id, st1, Some(cur1)),
        step_post(funcs, params, ret, st1, cur1.id, st2, tail),
    ensures
        step_post(funcs, params, ret, st, cur_id, st2, tail),
{
    assert forall|j: int|
        0 <= j < st.blocks.len() && (#[trigger] st.blocks[j]) is Some implies st2.blocks[j]
        == st.blocks[j] by {
        assert(st1.blocks[j] == st.blocks[j]);
    }
    assert forall|j: int|
        0 <= j < st.blocks.len() && (#[trigger] st.blocks[j]) is None && j != cur_id
        implies st2.blocks[j] is None by {
        assert(st1.blocks[j] is None);
        assert(j != cur1.id);
    }
    assert forall|j: int|
        0 <= j < st2.blocks.len() && (#[trigger] st2.blocks[j]) is None implies ((j
            < st.blocks.len() && st.blocks[j] is None && j != cur_id) || (tail matches Some(c) && j
            == c.id)) by {
        if !(tail matches Some(c) && j == c.id) {
            assert(j < st1.blocks.len() && st1.blocks[j] is None && j != cur1.id);
        }
    }
}

/// One statement's lowering keeps the builder invariant.
#[verifier::rlimit(100)]
#[verifier::spinoff_prover]
pub proof fn lemma_lower_stmt_wf(
    funcs: Seq<SpecFunc>,
    params: int,
    ret: Ty,
    st: SpecFnCtx,
    cur: SpecCur,
    s: SpecExpr,
)
    requires
        ctx_wf(funcs, params, ret, st),
        cur_ok(funcs, params, st, cur),
    ensures
        spec_lower_stmt(funcs, ret, st, cur, s) matches Ok(o) ==> step_post(
            funcs,
            params,
            ret,
            st,
            cur.id,
            o.0,
            o.1,
        ),
    decreases s,
{
    let r = spec_lower_stmt(funcs, ret, st, cur, s);
    match s.node {
        SpecExpr_::Pass => {},
        SpecExpr_::Assign(x, e) => {
            lemma_lower_expr_wf(funcs, st.table, params, st.slots, *e);
            let re = spec_lower_expr(funcs, st.table, *e);
            if re is Ok && st.slots < usize::MAX as int {
                let (ie, oe) = re->Ok_0;
                let slot = st.slots;
                lemma_eseq_mono_slots(funcs, params, st.slots, slot + 1, cur.instrs);
                lemma_eseq_mono_slots(funcs, params, st.slots, slot + 1, ie);
                lemma_store_append(funcs, params, slot + 1, cur.instrs, ie, oe, slot);
                lemma_table_wf_mono(st.table, params, st.slots, slot + 1);
                lemma_blocks_wf_grow(
                    funcs,
                    params,
                    ret,
                    st.slots,
                    slot + 1,
                    st.blocks,
                    Seq::empty(),
                );
                assert(st.blocks + Seq::<Option<SpecBlock>>::empty() =~= st.blocks);
                let t2 = st.table.push((x, SpecBinding::Slot(slot)));
                assert forall|k: int| 0 <= k < t2.len() implies binding_wf(
                    #[trigger] t2[k].1,
                    params,
                    slot + 1,
                ) by {
                    if k < st.table.len() {
                        assert(binding_wf(st.table[k].1, params, st.slots));
                    }
                }
            }
        },
        SpecExpr_::ReAssign(x, e) => {
            lemma_lookup_wf(st.table, params, st.slots, x, st.table.len() as int);
            lemma_lower_expr_wf(funcs, st.table, params, st.slots, *e);
            let re = spec_lower_expr(funcs, st.table, *e);
            match lookup(st.table, x) {
                None => {},
                Some(SpecBinding::Slot(slot)) => {
                    if re is Ok {
                        let (ie, oe) = re->Ok_0;
                        lemma_store_append(funcs, params, st.slots, cur.instrs, ie, oe, slot);
                    }
                },
                Some(SpecBinding::ParamReg(_)) => {
                    if re is Ok && st.slots < usize::MAX as int {
                        let (ie, oe) = re->Ok_0;
                        let slot = st.slots;
                        lemma_eseq_mono_slots(funcs, params, st.slots, slot + 1, cur.instrs);
                        lemma_eseq_mono_slots(funcs, params, st.slots, slot + 1, ie);
                        lemma_store_append(funcs, params, slot + 1, cur.instrs, ie, oe, slot);
                        lemma_table_wf_mono(st.table, params, st.slots, slot + 1);
                        lemma_blocks_wf_grow(
                            funcs,
                            params,
                            ret,
                            st.slots,
                            slot + 1,
                            st.blocks,
                            Seq::empty(),
                        );
                        assert(st.blocks + Seq::<Option<SpecBlock>>::empty() =~= st.blocks);
                        let t2 = st.table.push((x, SpecBinding::Slot(slot)));
                        assert forall|k: int| 0 <= k < t2.len() implies binding_wf(
                            #[trigger] t2[k].1,
                            params,
                            slot + 1,
                        ) by {
                            if k < st.table.len() {
                                assert(binding_wf(st.table[k].1, params, st.slots));
                            }
                        }
                    }
                },
            }
        },
        SpecExpr_::IfElse(c, tb, eb) => {
            lemma_lower_expr_wf(funcs, st.table, params, st.slots, *c);
            let rc = spec_lower_expr(funcs, st.table, *c);
            if rc is Ok {
                let (ic, oc) = rc->Ok_0;
                let then_id = st.blocks.len() as int;
                let else_id = then_id + 1;
                let end_id = then_id + 2;
                let grown = st.blocks + seq![None, None, None];
                let sealed_entry = SpecBlock {
                    instrs: cond_instrs(cur.instrs, ic, oc),
                    term: SpecTerm::CondBr(SpecOperand::Rel(1), then_id, else_id),
                };
                let blocks1 = grown.update(cur.id, Some(sealed_entry));
                let st1 = SpecFnCtx { blocks: blocks1, slots: st.slots, table: st.table };
                lemma_cond_seal(funcs, params, st.slots, cur.instrs, ic, oc);
                lemma_blocks_wf_grow(
                    funcs,
                    params,
                    ret,
                    st.slots,
                    st.slots,
                    st.blocks,
                    seq![None, None, None],
                );
                lemma_blocks_wf_seal(
                    funcs,
                    params,
                    ret,
                    st.slots,
                    grown,
                    cur.id,
                    sealed_entry,
                );
                assert(ctx_wf(funcs, params, ret, st1));
                let cur_t = SpecCur { id: then_id, instrs: Seq::empty() };
                assert(cur_ok(funcs, params, st1, cur_t));
                lemma_lower_stmts_wf(funcs, params, ret, st1, cur_t, tb);
                let rt = spec_lower_stmts(funcs, ret, st1, cur_t, tb);
                if rt is Ok {
                    let (st2, curt) = rt->Ok_0;
                    let blocks2 = match curt {
                        Some(ct) => st2.blocks.update(
                            ct.id,
                            Some(SpecBlock { instrs: ct.instrs, term: SpecTerm::Br(end_id) }),
                        ),
                        None => st2.blocks,
                    };
                    if curt is Some {
                        lemma_blocks_wf_seal(
                            funcs,
                            params,
                            ret,
                            st2.slots,
                            st2.blocks,
                            curt->0.id,
                            SpecBlock { instrs: curt->0.instrs, term: SpecTerm::Br(end_id) },
                        );
                    }
                    let st3 = SpecFnCtx { blocks: blocks2, slots: st2.slots, table: st.table };
                    lemma_table_wf_mono(st.table, params, st.slots, st2.slots);
                    assert(ctx_wf(funcs, params, ret, st3));
                    let cur_e = SpecCur { id: else_id, instrs: Seq::empty() };
                    assert(st1.blocks[else_id] is None);
                    assert(st2.blocks[else_id] is None);
                    assert(blocks2[else_id] is None) by {
                        if curt is Some {
                            assert(curt->0.id == then_id || curt->0.id >= st1.blocks.len());
                        }
                    }
                    assert(cur_ok(funcs, params, st3, cur_e));
                    lemma_lower_stmts_wf(funcs, params, ret, st3, cur_e, eb);
                    let re = spec_lower_stmts(funcs, ret, st3, cur_e, eb);
                    if re is Ok {
                        let (st4, cure) = re->Ok_0;
                        let blocks3 = match cure {
                            Some(ce) => st4.blocks.update(
                                ce.id,
                                Some(SpecBlock { instrs: ce.instrs, term: SpecTerm::Br(end_id) }),
                            ),
                            None => st4.blocks,
                        };
                        if cure is Some {
                            lemma_blocks_wf_seal(
                                funcs,
                                params,
                                ret,
                                st4.slots,
                                st4.blocks,
                                cure->0.id,
                                SpecBlock { instrs: cure->0.instrs, term: SpecTerm::Br(end_id) },
                            );
                        }
                        let st5 = SpecFnCtx { blocks: blocks3, slots: st4.slots, table: st.table };
                        lemma_table_wf_mono(st.table, params, st.slots, st4.slots);
                        assert(ctx_wf(funcs, params, ret, st5));
                        // the end block is still open and becomes the cursor
                        assert(blocks3[end_id] is None) by {
                            assert(st2.blocks[end_id] is None);
                            assert(blocks2[end_id] is None) by {
                                if curt is Some {
                                    assert(curt->0.id == then_id || curt->0.id
                                        >= st1.blocks.len());
                                }
                            }
                            assert(st4.blocks[end_id] is None);
                            if cure is Some {
                                assert(cure->0.id == else_id || cure->0.id >= st3.blocks.len());
                            }
                        }
                        assert(step_post(
                            funcs,
                            params,
                            ret,
                            st,
                            cur.id,
                            st5,
                            Some(SpecCur { id: end_id, instrs: Seq::empty() }),
                        )) by {
                            assert forall|j: int|
                                0 <= j < st.blocks.len() && (#[trigger] st.blocks[j]) is Some
                                implies st5.blocks[j] == st.blocks[j] by {
                                assert(blocks1[j] == st.blocks[j]);
                                assert(st2.blocks[j] == st.blocks[j]);
                                assert(blocks2[j] == st.blocks[j]);
                                assert(st4.blocks[j] == st.blocks[j]);
                            }
                            assert forall|j: int|
                                0 <= j < st.blocks.len() && (#[trigger] st.blocks[j]) is None && j
                                    != cur.id implies st5.blocks[j] is None by {
                                assert(blocks1[j] is None);
                                assert(st2.blocks[j] is None);
                                assert(blocks2[j] is None) by {
                                    if curt is Some {
                                        assert(curt->0.id == then_id || curt->0.id
                                            >= st1.blocks.len());
                                    }
                                }
                                assert(st4.blocks[j] is None);
                                assert(blocks3[j] is None) by {
                                    if cure is Some {
                                        assert(cure->0.id == else_id || cure->0.id
                                            >= st3.blocks.len());
                                    }
                                }
                            }
                            assert forall|j: int|
                                0 <= j < st5.blocks.len() && (#[trigger] st5.blocks[j]) is None
                                implies ((j < st.blocks.len() && st.blocks[j] is None && j
                                    != cur.id) || j == end_id) by {
                                if j != end_id {
                                    assert(st4.blocks[j] is None || (cure is Some && j
                                        == cure->0.id));
                                    if cure is Some && j == cure->0.id {
                                        assert(blocks3[j] is Some);
                                    }
                                    assert(st4.blocks[j] is None);
                                    assert(j < st3.blocks.len() && blocks2[j] is None && j
                                        != else_id);
                                    assert(st2.blocks[j] is None);
                                    assert(j < st1.blocks.len() && blocks1[j] is None && j
                                        != then_id);
                                    assert(j != cur.id);
                                    if j >= st.blocks.len() {
                                        assert(j == else_id || j == end_id || j == then_id
                                            || blocks1[j] == st.blocks[j]);
                                    }
                                }
                            }
                        }
                    }
                }
            }
        },
        SpecExpr_::ForLoop(init, c, step, body) => {
            lemma_lower_stmt_wf(funcs, params, ret, st, cur, *init);
            let ri = spec_lower_stmt(funcs, ret, st, cur, *init);
            if ri is Ok && ri->Ok_0.1 is Some {
                let (st1, cur1o) = ri->Ok_0;
                let cur1 = cur1o->0;
                lemma_lower_expr_wf(funcs, st1.table, params, st1.slots, *c);
                let rc = spec_lower_expr(funcs, st1.table, *c);
                if rc is Ok {
                    let (ic, oc) = rc->Ok_0;
                    let loop_id = st1.blocks.len() as int;
                    let end_id = loop_id + 1;
                    let grown = st1.blocks + seq![None, None];
                    let sealed_entry = SpecBlock {
                        instrs: cond_instrs(cur1.instrs, ic, oc),
                        term: SpecTerm::CondBr(SpecOperand::Rel(1), loop_id, end_id),
                    };
                    let blocks1 = grown.update(cur1.id, Some(sealed_entry));
                    let st2 = SpecFnCtx { blocks: blocks1, slots: st1.slots, table: st1.table };
                    lemma_cond_seal(funcs, params, st1.slots, cur1.instrs, ic, oc);
                    lemma_blocks_wf_grow(
                        funcs,
                        params,
                        ret,
                        st1.slots,
                        st1.slots,
                        st1.blocks,
                        seq![None, None],
                    );
                    lemma_blocks_wf_seal(
                        funcs,
                        params,
                        ret,
                        st1.slots,
                        grown,
                        cur1.id,
                        sealed_entry,
                    );
                    assert(ctx_wf(funcs, params, ret, st2));
                    let cur_b = SpecCur { id: loop_id, instrs: Seq::empty() };
                    assert(cur_ok(funcs, params, st2, cur_b));
                    lemma_lower_stmts_wf(funcs, params, ret, st2, cur_b, body);
                    let rb = spec_lower_stmts(funcs, ret, st2, cur_b, body);
                    if rb is Ok {
                        let (st3, curb) = rb->Ok_0;
                        let st3b = SpecFnCtx {
                            blocks: st3.blocks,
                            slots: st3.slots,
                            table: st1.table,
                        };
                        lemma_table_wf_mono(st1.table, params, st1.slots, st3.slots);
                        assert(ctx_wf(funcs, params, ret, st3b));
                        // the end block stays open throughout the body
                        assert(st3.blocks[end_id] is None) by {
                            assert(blocks1[end_id] is None);
                        }
                        match curb {
                            None => {
                                lemma_forloop_end_post(
                                    funcs, params, ret, st, cur.id, st1, cur1, st2, cur_b.id,
                                    st3b, None, end_id, loop_id,
                                );
                            },
                            Some(cb) => {
                                lemma_lower_stmt_wf(funcs, params, ret, st3b, cb, *step);
                                let rs = spec_lower_stmt(funcs, ret, st3b, cb, *step);
                                if rs is Ok {
                                    let (st4, curs) = rs->Ok_0;
                                    match curs {
                                        None => {
                                            lemma_step_post_trans(
                                                funcs, params, ret, st2, cur_b.id, st3b, cb, st4,
                                                None,
                                            );
                                            lemma_forloop_end_post(
                                                funcs, params, ret, st, cur.id, st1, cur1, st2,
                                                cur_b.id, st4, None, end_id, loop_id,
                                            );
                                        },
                                        Some(cs) => {
                                            lemma_step_post_trans(
                                                funcs, params, ret, st2, cur_b.id, st3b, cb, st4,
                                                Some(cs),
                                            );
                                            lemma_lower_expr_wf(
                                                funcs, st4.table, params, st4.slots, *c,
                                            );
                                            let rc2 = spec_lower_expr(funcs, st4.table, *c);
                                            if rc2 is Ok {
                                                let (ic2, oc2) = rc2->Ok_0;
                                                let latch = SpecBlock {
                                                    instrs: cond_instrs(cs.instrs, ic2, oc2),
                                                    term: SpecTerm::CondBr(
                                                        SpecOperand::Rel(1),
                                                        loop_id,
                                                        end_id,
                                                    ),
                                                };
                                                lemma_cond_seal(
                                                    funcs, params, st4.slots, cs.instrs, ic2, oc2,
                                                );
                                                assert(0 <= loop_id < st4.blocks.len());
                                                assert(0 <= end_id < st4.blocks.len());
                                                lemma_blocks_wf_seal(
                                                    funcs,
                                                    params,
                                                    ret,
                                                    st4.slots,
                                                    st4.blocks,
                                                    cs.id,
                                                    latch,
                                                );
                                                let st5 = SpecFnCtx {
                                                    blocks: st4.blocks.update(
                                                        cs.id,
                                                        Some(latch),
                                                    ),
                                                    slots: st4.slots,
                                                    table: st4.table,
                                                };
                                                lemma_forloop_end_post(
                                                    funcs, params, ret, st, cur.id, st1, cur1,
                                                    st2, cur_b.id, st5, Some(cs.id), end_id,
                                                    loop_id,
                                                );
                                            }
                                        },
                                    }
                                }
                            },
                        }
                    }
                }
            }
        },
        _ => {
            lemma_lower_expr_wf(funcs, st.table, params, st.slots, s);
            let re = spec_lower_expr(funcs, st.table, s);
            if re is Ok && ret == Ty::Byte {
                let (ie, oe) = re->Ok_0;
                let sealed = SpecBlock {
                    instrs: cur.instrs + ie,
                    term: SpecTerm::Ret(Some(oe)),
                };
                lemma_eseq_append(funcs, params, st.slots, cur.instrs, ie);
                lemma_operand_ok_embed(
                    funcs,
                    params,
                    cur.instrs,
                    ie,
                    ie.len() as int,
                    oe,
                    VTy::Byte,
                );
                lemma_blocks_wf_seal(
                    funcs,
                    params,
                    ret,
                    st.slots,
                    st.blocks,
                    cur.id,
                    sealed,
                );
            }
        },
    }
}

/// The common tail of the for-loop case: from the post of the body (and
/// step) lowering, the post of the whole statement, with the end block
/// as the new cursor. `sealed_latch` is the block the latch sealed, if
/// the loop has a back edge.
#[verifier::rlimit(100)]
#[verifier::spinoff_prover]
proof fn lemma_forloop_end_post(
    funcs: Seq<SpecFunc>,
    params: int,
    ret: Ty,
    st: SpecFnCtx,
    cur_id: int,
    st1: SpecFnCtx,
    cur1: SpecCur,
    st2: SpecFnCtx,
    loop_cur_id: int,
    stk: SpecFnCtx,
    sealed_latch: Option<int>,
    end_id: int,
    loop_id: int,
)
    requires
        step_post(funcs, params, ret, st, cur_id, st1, Some(cur1)),
        loop_id == st1.blocks.len(),
        end_id == loop_id + 1,
        loop_cur_id == loop_id,
        st2.blocks.len() == st1.blocks.len() + 2,
        st2.blocks == (st1.blocks + seq![None, None]).update(
            cur1.id,
            Some(st2.blocks[cur1.id]->0),
        ),
        st2.blocks[cur1.id] is Some,
        st2.slots == st1.slots,
        ctx_wf(funcs, params, ret, stk),
        stk.slots >= st2.slots,
        match sealed_latch {
            Some(li) => {
                &&& exists|stp: SpecFnCtx, cs: SpecCur|
                    step_post(funcs, params, ret, st2, loop_cur_id, stp, Some(cs)) && cs.id == li
                        && stk.blocks == stp.blocks.update(li, Some(stk.blocks[li]->0))
                        && stk.blocks[li] is Some && stk.slots == stp.slots
            },
            None => step_post(funcs, params, ret, st2, loop_cur_id, stk, None),
        },
    ensures
        step_post(
            funcs,
            params,
            ret,
            st,
            cur_id,
            stk,
            Some(SpecCur { id: end_id, instrs: Seq::empty() }),
        ),
{
    if sealed_latch is Some {
        let li = sealed_latch->0;
        let (stp, cs): (SpecFnCtx, SpecCur) = choose|stp: SpecFnCtx, cs: SpecCur|
            step_post(funcs, params, ret, st2, loop_cur_id, stp, Some(cs)) && cs.id == li
                && stk.blocks == stp.blocks.update(li, Some(stk.blocks[li]->0)) && stk.blocks[li]
                is Some && stk.slots == stp.slots;
        assert forall|j: int|
            0 <= j < st.blocks.len() && (#[trigger] st.blocks[j]) is Some implies stk.blocks[j]
            == st.blocks[j] by {
            assert(st1.blocks[j] == st.blocks[j]);
            assert(st2.blocks[j] == st.blocks[j]);
            assert(stp.blocks[j] == st.blocks[j]);
            assert(j != li) by {
                assert(cs.id == loop_cur_id || cs.id >= st2.blocks.len());
            }
        }
        assert forall|j: int|
            0 <= j < st.blocks.len() && (#[trigger] st.blocks[j]) is None && j != cur_id
            implies stk.blocks[j] is None by {
            assert(st1.blocks[j] is None && j != cur1.id);
            assert(st2.blocks[j] is None);
            assert(stp.blocks[j] is None);
            assert(j != li) by {
                assert(cs.id == loop_cur_id || cs.id >= st2.blocks.len());
            }
        }
        assert(stk.blocks[end_id] is None) by {
            assert(st2.blocks[end_id] is None);
            assert(stp.blocks[end_id] is None);
            assert(end_id != li) by {
                assert(cs.id == loop_cur_id || cs.id >= st2.blocks.len());
            }
        }
        assert forall|j: int|
            0 <= j < stk.blocks.len() && (#[trigger] stk.blocks[j]) is None implies ((j
                < st.blocks.len() && st.blocks[j] is None && j != cur_id) || j == end_id) by {
            if j != end_id {
                assert(j != li);
                assert(stp.blocks[j] is None);
                assert(j < st2.blocks.len() && st2.blocks[j] is None && j != loop_cur_id);
                assert(j < st1.blocks.len() || j == end_id || j == loop_id);
                assert(st1.blocks[j] is None && j != cur1.id);
                assert(j < st.blocks.len() && st.blocks[j] is None && j != cur_id);
            }
        }
    } else {
        assert forall|j: int|
            0 <= j < st.blocks.len() && (#[trigger] st.blocks[j]) is Some implies stk.blocks[j]
            == st.blocks[j] by {
            assert(st1.blocks[j] == st.blocks[j]);
            assert(st2.blocks[j] == st.blocks[j]);
        }
        assert forall|j: int|
            0 <= j < st.blocks.len() && (#[trigger] st.blocks[j]) is None && j != cur_id
            implies stk.blocks[j] is None by {
            assert(st1.blocks[j] is None && j != cur1.id);
            assert(st2.blocks[j] is None);
        }
        assert(stk.blocks[end_id] is None) by {
            assert(st2.blocks[end_id] is None);
        }
        assert forall|j: int|
            0 <= j < stk.blocks.len() && (#[trigger] stk.blocks[j]) is None implies ((j
                < st.blocks.len() && st.blocks[j] is None && j != cur_id) || j == end_id) by {
            if j != end_id {
                assert(j < st2.blocks.len() && st2.blocks[j] is None && j != loop_cur_id);
                assert(j < st1.blocks.len() || j == end_id || j == loop_id);
                assert(st1.blocks[j] is None && j != cur1.id);
            }
        }
    }
}

/// A statement list's lowering keeps the builder invariant.
pub proof fn lemma_lower_stmts_wf(
    funcs: Seq<SpecFunc>,
    params: int,
    ret: Ty,
    st: SpecFnCtx,
    cur: SpecCur,
    list: Seq<SpecExpr>,
)
    requires
        ctx_wf(funcs, params, ret, st),
        cur_ok(funcs, params, st, cur),
    ensures
        spec_lower_stmts(funcs, ret, st, cur, list) matches Ok(o) ==> step_post(
            funcs,
            params,
            ret,
            st,
            cur.id,
            o.0,
            o.1,
        ),
    decreases list,
{
    if list.len() != 0 {
        lemma_lower_stmt_wf(funcs, params, ret, st, cur, list[0]);
        let r1 = spec_lower_stmt(funcs, ret, st, cur, list[0]);
        if r1 is Ok && r1->Ok_0.1 is Some {
            let (st1, cur1o) = r1->Ok_0;
            let cur1 = cur1o->0;
            lemma_lower_stmts_wf(funcs, params, ret, st1, cur1, list.drop_first());
            let r2 = spec_lower_stmts(funcs, ret, st1, cur1, list.drop_first());
            if r2 is Ok {
                lemma_step_post_trans(
                    funcs,
                    params,
                    ret,
                    st,
                    cur.id,
                    st1,
                    cur1,
                    r2->Ok_0.0,
                    r2->Ok_0.1,
                );
            }
        }
    }
}

/// The second list keeps the first's length prefix of signatures: names,
/// parameter counts, and return types. Lowered code only reads those
/// parts of the function list, so it stays well-formed as bodies are
/// filled in and functions are appended.
pub open spec fn sig_preserved(f1: Seq<SpecFunc>, f2: Seq<SpecFunc>) -> bool {
    &&& f1.len() <= f2.len()
    &&& forall|i: int|
        0 <= i < f1.len() ==> (#[trigger] f2[i]).name == f1[i].name && f2[i].params == f1[i].params
            && f2[i].ret == f1[i].ret
}

pub proof fn lemma_sig_instr_val_ty(f1: Seq<SpecFunc>, f2: Seq<SpecFunc>, i: SpecInstr, t: VTy)
    requires
        sig_preserved(f1, f2),
        instr_val_ty(f1, i) == Some(t),
    ensures
        instr_val_ty(f2, i) == Some(t),
{
}

pub proof fn lemma_sig_operand_ok(
    f1: Seq<SpecFunc>,
    f2: Seq<SpecFunc>,
    params: int,
    instrs: Seq<SpecInstr>,
    j: int,
    op: SpecOperand,
    t: VTy,
)
    requires
        sig_preserved(f1, f2),
        operand_ok(f1, params, instrs, j, op, t),
    ensures
        operand_ok(f2, params, instrs, j, op, t),
{
    match op {
        SpecOperand::Rel(k) => {
            lemma_sig_instr_val_ty(f1, f2, instrs[j - k], t);
        },
        _ => {},
    }
}

pub proof fn lemma_sig_instr_ok(
    f1: Seq<SpecFunc>,
    f2: Seq<SpecFunc>,
    params: int,
    slots: int,
    instrs: Seq<SpecInstr>,
    j: int,
)
    requires
        sig_preserved(f1, f2),
        0 <= j < instrs.len(),
        instr_ok(f1, params, slots, instrs, j),
    ensures
        instr_ok(f2, params, slots, instrs, j),
{
    match instrs[j] {
        SpecInstr::Store(_, v) => {
            lemma_sig_operand_ok(f1, f2, params, instrs, j, v, VTy::Byte);
        },
        SpecInstr::Bin(_, a, b) => {
            lemma_sig_operand_ok(f1, f2, params, instrs, j, a, VTy::Byte);
            lemma_sig_operand_ok(f1, f2, params, instrs, j, b, VTy::Byte);
        },
        SpecInstr::Not(a) => {
            lemma_sig_operand_ok(f1, f2, params, instrs, j, a, VTy::Byte);
        },
        SpecInstr::Cmp(_, a, b) => {
            lemma_sig_operand_ok(f1, f2, params, instrs, j, a, VTy::Byte);
            lemma_sig_operand_ok(f1, f2, params, instrs, j, b, VTy::Byte);
        },
        SpecInstr::Zext(a) => {
            lemma_sig_operand_ok(f1, f2, params, instrs, j, a, VTy::Bit);
        },
        SpecInstr::Call(_, args) => {
            assert forall|i: int| 0 <= i < args.len() implies operand_ok(
                f2,
                params,
                instrs,
                j,
                #[trigger] args[i],
                VTy::Byte,
            ) by {
                lemma_sig_operand_ok(f1, f2, params, instrs, j, args[i], VTy::Byte);
            }
        },
        _ => {},
    }
}

pub proof fn lemma_sig_func_ok(f1: Seq<SpecFunc>, f2: Seq<SpecFunc>, f: SpecFunc)
    requires
        sig_preserved(f1, f2),
        func_ok(f1, f),
    ensures
        func_ok(f2, f),
{
    assert forall|i: int| 0 <= i < f.blocks.len() implies block_ok(f2, f, #[trigger] f.blocks[i]) by {
        let b = f.blocks[i];
        assert(block_ok(f1, f, b));
        assert forall|j: int| 0 <= j < b.instrs.len() implies instr_ok(
            f2,
            f.params,
            f.slots,
            b.instrs,
            j,
        ) by {
            lemma_sig_instr_ok(f1, f2, f.params, f.slots, b.instrs, j);
        }
        match b.term {
            SpecTerm::CondBr(c, _, _) => {
                lemma_sig_operand_ok(f1, f2, f.params, b.instrs, b.instrs.len() as int, c, VTy::Bit);
            },
            SpecTerm::Ret(Some(v)) => {
                lemma_sig_operand_ok(
                    f1,
                    f2,
                    f.params,
                    b.instrs,
                    b.instrs.len() as int,
                    v,
                    VTy::Byte,
                );
            },
            _ => {},
        }
    }
}

/// The running invariant of the two passes: every function in the list
/// already checks out against the list itself.
pub open spec fn funcs_ok(funcs: Seq<SpecFunc>) -> bool {
    forall|i: int| 0 <= i < funcs.len() ==> func_ok(funcs, #[trigger] funcs[i])
}

pub proof fn lemma_sig_funcs_ok(f1: Seq<SpecFunc>, f2: Seq<SpecFunc>)
    requires
        sig_preserved(f1, f2),
        funcs_ok(f1),
        forall|i: int|
            0 <= i < f2.len() ==> (func_ok(f2, #[trigger] f2[i]) || (0 <= i < f1.len() && f2[i]
                == f1[i])),
    ensures
        funcs_ok(f2),
{
    assert forall|i: int| 0 <= i < f2.len() implies func_ok(f2, #[trigger] f2[i]) by {
        if !func_ok(f2, f2[i]) {
            lemma_sig_func_ok(f1, f2, f1[i]);
        }
    }
}

pub proof fn lemma_param_count_nonneg(tys: Seq<Seq<char>>, i: int, endp: int)
    ensures
        spec_param_count(tys, i, endp) matches Ok(c) ==> c >= 0,
    decreases endp - i,
{
    if i < endp {
        lemma_param_count_nonneg(tys, i + 1, endp);
    }
}

/// The first pass only appends declared, still-undefined functions, all
/// of which check out.
pub proof fn lemma_pass1_wf(prog: Seq<SpecExpr>, i: int, funcs: Seq<SpecFunc>)
    requires
        funcs_ok(funcs),
    ensures
        spec_pass1(prog, i, funcs) matches Ok(f1) ==> funcs_ok(f1),
    decreases prog.len() - i,
{
    if !(i < 0 || i >= prog.len()) {
        match prog[i].node {
            SpecExpr_::Declare(name, tys) => {
                if spec_register(funcs, name, tys) is Ok {
                    let f2 = spec_register(funcs, name, tys)->Ok_0;
                    if tys.len() != 0 {
                        lemma_param_count_nonneg(tys, 0, tys.len() - 1);
                    }
                    assert forall|k: int| 0 <= k < f2.len() implies func_ok(
                        f2,
                        #[trigger] f2[k],
                    ) by {
                        if k < funcs.len() {
                            assert(f2[k] == funcs[k]);
                            lemma_sig_func_ok(funcs, f2, funcs[k]);
                        }
                    }
                    lemma_pass1_wf(prog, i + 1, f2);
                }
            },
            SpecExpr_::Define(_, _, _) => {
                lemma_pass1_wf(prog, i + 1, funcs);
            },
            _ => {},
        }
    }
}

/// A lowered body fills its function with sealed, well-formed blocks.
#[verifier::rlimit(100)]
#[verifier::spinoff_prover]
pub proof fn lemma_lower_define_wf(
    funcs: Seq<SpecFunc>,
    name: Seq<char>,
    params: Seq<Seq<char>>,
    body: Seq<SpecExpr>,
)
    requires
        funcs_ok(funcs),
    ensures
        spec_lower_define(funcs, name, params, body) matches Ok(f2) ==> funcs_ok(f2)
            && sig_preserved(funcs, f2),
{
    lemma_func_lookup_range(funcs, name, 0);
    if func_lookup(funcs, name) is Some {
        let fi = func_lookup(funcs, name)->0;
        let f = funcs[fi];
        if f.blocks.len() == 0 && params.len() == f.params {
            let st0 = SpecFnCtx {
                blocks: seq![None],
                slots: 0,
                table: param_table(params),
            };
            let cur0 = SpecCur { id: 0, instrs: Seq::empty() };
            assert(table_wf(st0.table, f.params, 0));
            assert(blocks_wf(funcs, f.params, f.ret, 0, st0.blocks)) by {
                assert(forall|bi: int|
                    0 <= bi < st0.blocks.len() ==> !((#[trigger] st0.blocks[bi]) is Some));
            }
            assert(ctx_wf(funcs, f.params, f.ret, st0));
            assert(cur_ok(funcs, f.params, st0, cur0));
            lemma_lower_stmts_wf(funcs, f.params, f.ret, st0, cur0, body);
            let rs = spec_lower_stmts(funcs, f.ret, st0, cur0, body);
            if rs is Ok {
                let (st1, tail) = rs->Ok_0;
                let sealed = match tail {
                    Some(ct) => st1.blocks.update(
                        ct.id,
                        Some(
                            SpecBlock {
                                instrs: ct.instrs,
                                term: if f.ret == Ty::Byte {
                                    SpecTerm::Ret(Some(SpecOperand::Const(0)))
                                } else {
                                    SpecTerm::Ret(None)
                                },
                            },
                        ),
                    ),
                    None => st1.blocks,
                };
                if tail is Some {
                    lemma_blocks_wf_seal(
                        funcs,
                        f.params,
                        f.ret,
                        st1.slots,
                        st1.blocks,
                        tail->0.id,
                        sealed[tail->0.id]->0,
                    );
                }
                // every slot of the builder is sealed now
                assert(forall|j: int|
                    0 <= j < sealed.len() ==> (#[trigger] sealed[j]) is Some) by {
                    assert forall|j: int| 0 <= j < sealed.len() implies (
                    #[trigger] sealed[j]) is Some by {
                        if sealed[j] is None {
                            assert(st1.blocks[j] is None);
                            assert((j < st0.blocks.len() && st0.blocks[j] is None && j != 0) || (
                            tail matches Some(c) && j == c.id));
                        }
                    }
                }
                let newf = SpecFunc {
                    name: f.name,
                    params: f.params,
                    ret: f.ret,
                    slots: st1.slots,
                    blocks: unwrap_blocks(sealed),
                };
                let f2 = funcs.update(fi, newf);
                assert(sig_preserved(funcs, f2));
                assert(func_ok(f2, newf)) by {
                    assert forall|bi: int| 0 <= bi < newf.blocks.len() implies block_ok(
                        f2,
                        newf,
                        #[trigger] newf.blocks[bi],
                    ) by {
                        let b = newf.blocks[bi];
                        assert(sealed[bi] is Some && b == sealed[bi]->0);
                        assert(eseq_wf(funcs, f.params, st1.slots, b.instrs) && term_ok_n(
                            funcs,
                            f.params,
                            f.ret,
                            sealed.len() as int,
                            b.instrs,
                            b.term,
                        ));
                        assert forall|j: int| 0 <= j < b.instrs.len() implies instr_ok(
                            f2,
                            newf.params,
                            newf.slots,
                            b.instrs,
                            j,
                        ) by {
                            lemma_sig_instr_ok(funcs, f2, f.params, st1.slots, b.instrs, j);
                        }
                        assert(newf.blocks.len() == sealed.len());
                        match b.term {
                            SpecTerm::CondBr(c, _, _) => {
                                lemma_sig_operand_ok(
                                    funcs,
                                    f2,
                                    f.params,
                                    b.instrs,
                                    b.instrs.len() as int,
                                    c,
                                    VTy::Bit,
                                );
                            },
                            SpecTerm::Ret(Some(v)) => {
                                lemma_sig_operand_ok(
                                    funcs,
                                    f2,
                                    f.params,
                                    b.instrs,
                                    b.instrs.len() as int,
                                    v,
                                    VTy::Byte,
                                );
                            },
                            _ => {},
                        }
                        assert(term_ok(f2, newf, b.instrs, b.term));
                    }
                }
                lemma_sig_funcs_ok(funcs, f2);
            }
        }
    }
}

/// The second pass keeps every function well-formed.
pub proof fn lemma_pass2_wf(prog: Seq<SpecExpr>, i: int, funcs: Seq<SpecFunc>)
    requires
        funcs_ok(funcs),
    ensures
        spec_pass2(prog, i, funcs) matches Ok(f2) ==> funcs_ok(f2),
    decreases prog.len() - i,
{
    if !(i < 0 || i >= prog.len()) {
        match prog[i].node {
            SpecExpr_::Define(name, args, body) => {
                lemma_lower_define_wf(funcs, name, args, body);
                if spec_lower_define(funcs, name, args, body) is Ok {
                    lemma_pass2_wf(prog, i + 1, spec_lower_define(funcs, name, args, body)->Ok_0);
                }
            },
            _ => {
                lemma_pass2_wf(prog, i + 1, funcs);
            },
        }
    }
}

/// The appended process entry checks out, and so does everything before
/// it.
pub proof fn lemma_entry_wf(funcs: Seq<SpecFunc>)
    requires
        funcs_ok(funcs),
    ensures
        funcs_ok(spec_entry(funcs)),
{
    let f2 = spec_entry(funcs);
    lemma_func_lookup_range(funcs, "main"@, 0);
    assert(sig_preserved(funcs, f2));
    let start = f2[f2.len() - 1];
    assert(func_ok(f2, start)) by {
        let b = start.blocks[0];
        assert forall|j: int| 0 <= j < b.instrs.len() implies instr_ok(
            f2,
            start.params,
            start.slots,
            b.instrs,
            j,
        ) by {
            assert(j == 0);
            match func_lookup(funcs, "main"@) {
                Some(fi) => {
                    if funcs[fi].params == 0 {
                        assert(b.instrs[0] == SpecInstr::Call(fi, Seq::<SpecOperand>::empty()));
                        assert(f2[fi].params == 0);
                    }
                },
                None => {},
            }
        }
        assert(term_ok(f2, start, b.instrs, b.term));
        assert forall|bi: int| 0 <= bi < start.blocks.len() implies block_ok(
            f2,
            start,
            #[trigger] start.blocks[bi],
        ) by {
            assert(bi == 0);
        }
    }
    lemma_sig_funcs_ok(funcs, f2);
}

/// Round trip: whatever the generator produces passes the structural
/// verification. Together with the parser's contract this says that a
/// program that parses and generates always yields a module on which
/// `verify_module` holds — the fatal verification path never fires on
/// generated code.
pub proof fn lemma_generate_verifies(prog: Seq<SpecExpr>)
    ensures
        spec_generate(prog) matches Ok(m) ==> module_ok(m),
{
    assert(funcs_ok(Seq::<SpecFunc>::empty()));
    lemma_pass1_wf(prog, 0, Seq::empty());
    if spec_pass1(prog, 0, Seq::empty()) is Ok {
        let f1 = spec_pass1(prog, 0, Seq::empty())->Ok_0;
        lemma_pass2_wf(prog, 0, f1);
        if spec_pass2(prog, 0, f1) is Ok {
            let f2 = spec_pass2(prog, 0, f1)->Ok_0;
            lemma_entry_wf(f2);
        }
    }
}


/// Generation is a function of the tree alone: two runs over the same
/// program yield structurally identical modules.
pub proof fn lemma_generate_deterministic(prog: Seq<SpecExpr>, m1: SpecModule, m2: SpecModule)
    requires
        spec_generate(prog) == Ok::<SpecModule, SpecCodegenError>(m1),
        spec_generate(prog) == Ok::<SpecModule, SpecCodegenError>(m2),
    ensures
        m1 == m2,
{
}

/// Expression lowering reads the table only through `lookup`: two
/// tables that bind every name alike lower every expression alike. The
/// for-loop lowering evaluates its condition twice — once before the
/// loop and once on the back edge — so whenever the body and step leave
/// every name bound as before (in particular when the step only mutates
/// existing variables), the two lowerings emit identical instructions.
pub proof fn lemma_lower_expr_table_agree(
    funcs: Seq<SpecFunc>,
    t1: Seq<(Seq<char>, SpecBinding)>,
    t2: Seq<(Seq<char>, SpecBinding)>,
    e: SpecExpr,
)
    requires
        forall|x: Seq<char>| #[trigger] lookup(t1, x) == lookup(t2, x),
    ensures
        spec_lower_expr(funcs, t1, e) == spec_lower_expr(funcs, t2, e),
    decreases e,
{
    match e.node {
        SpecExpr_::Add(a, b) => {
            lemma_lower_expr_table_agree(funcs, t1, t2, *a);
            lemma_lower_expr_table_agree(funcs, t1, t2, *b);
        },
        SpecExpr_::Sub(a, b) => {
            lemma_lower_expr_table_agree(funcs, t1, t2, *a);
            lemma_lower_expr_table_agree(funcs, t1, t2, *b);
        },
        SpecExpr_::Mul(a, b) => {
            lemma_lower_expr_table_agree(funcs, t1, t2, *a);
            lemma_lower_expr_table_agree(funcs, t1, t2, *b);
        },
        SpecExpr_::Div(a, b) => {
            lemma_lower_expr_table_agree(funcs, t1, t2, *a);
            lemma_lower_expr_table_agree(funcs, t1, t2, *b);
        },
        SpecExpr_::Mod(a, b) => {
            lemma_lower_expr_table_agree(funcs, t1, t2, *a);
            lemma_lower_expr_table_agree(funcs, t1, t2, *b);
        },
        SpecExpr_::LAnd(a, b) => {
            lemma_lower_expr_table_agree(funcs, t1, t2, *a);
            lemma_lower_expr_table_agree(funcs, t1, t2, *b);
        },
        SpecExpr_::LOr(a, b) => {
            lemma_lower_expr_table_agree(funcs, t1, t2, *a);
            lemma_lower_expr_table_agree(funcs, t1, t2, *b);
        },
        SpecExpr_::Eq(a, b) => {
            lemma_lower_expr_table_agree(funcs, t1, t2, *a);
            lemma_lower_expr_table_agree(funcs, t1, t2, *b);
        },
        SpecExpr_::NEq(a, b) => {
            lemma_lower_expr_table_agree(funcs, t1, t2, *a);
            lemma_lower_expr_table_agree(funcs, t1, t2, *b);
        },
        SpecExpr_::Gt(a, b) => {
            lemma_lower_expr_table_agree(funcs, t1, t2, *a);
            lemma_lower_expr_table_agree(funcs, t1, t2, *b);
        },
        SpecExpr_::Lt(a, b) => {
            lemma_lower_expr_table_agree(funcs, t1, t2, *a);
            lemma_lower_expr_table_agree(funcs, t1, t2, *b);
        },
        SpecExpr_::EGt(a, b) => {
            lemma_lower_expr_table_agree(funcs, t1, t2, *a);
            lemma_lower_expr_table_agree(funcs, t1, t2, *b);
        },
        SpecExpr_::ELt(a, b) => {
            lemma_lower_expr_table_agree(funcs, t1, t2, *a);
            lemma_lower_expr_table_agree(funcs, t1, t2, *b);
        },
        SpecExpr_::LNot(a) => {
            lemma_lower_expr_table_agree(funcs, t1, t2, *a);
        },
        SpecExpr_::FunctionCall(_, args) => {
            lemma_lower_args_table_agree(funcs, t1, t2, args);
        },
        _ => {},
    }
}

pub proof fn lemma_lower_args_table_agree(
    funcs: Seq<SpecFunc>,
    t1: Seq<(Seq<char>, SpecBinding)>,
    t2: Seq<(Seq<char>, SpecBinding)>,
    args: Seq<SpecExpr>,
)
    requires
        forall|x: Seq<char>| #[trigger] lookup(t1, x) == lookup(t2, x),
    ensures
        spec_lower_args(funcs, t1, args) == spec_lower_args(funcs, t2, args),
    decreases args,
{
    if args.len() != 0 {
        lemma_lower_expr_table_agree(funcs, t1, t2, args[0]);
        lemma_lower_args_table_agree(funcs, t1, t2, args.drop_first());
    }
}


} // verus!
