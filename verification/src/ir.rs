//! The intermediate representation: a module of functions, each a list
//! of basic blocks.
//!
//! Every block is a straight-line instruction sequence closed by
//! exactly one terminator (the `term` field). An instruction names its
//! inputs as operands: `Rel(k)` is the value of the k-th previous
//! instruction of the same block, `Param(i)` an incoming parameter,
//! `Const(x)` a literal byte. Values never cross blocks; data that
//! outlives a block lives in a numbered stack slot, written by `Store`
//! and read by `Load`.
//!
//! `module_ok` is the structural well-formedness check: every operand
//! names an earlier value of the right type, every branch target and
//! slot is in range, and every call matches its callee's arity.
//! `verify_module` computes it.

use vstd::prelude::*;

verus! {

/// A language-level type: the byte, or no value.
#[derive(Debug, Clone, Copy, PartialEq, Eq, Structural)]
pub enum Ty {
    Byte,
    Void,
}

/// The type of an instruction value: a byte, or a one-bit predicate as
/// a comparison yields.
#[derive(Debug, Clone, Copy, PartialEq, Eq, Structural)]
pub enum VTy {
    Byte,
    Bit,
}

/// An instruction input.
#[derive(Debug, Clone, Copy, PartialEq, Eq, Structural)]
pub enum Operand {
    /// The value of the k-th previous instruction of this block; k >= 1.
    Rel(usize),
    /// The i-th incoming parameter of the enclosing function.
    Param(usize),
    /// A literal byte.
    Const(u8),
}

/// An arithmetic or bitwise operation on two bytes. Division and
/// remainder are unsigned.
#[derive(Debug, Clone, Copy, PartialEq, Eq, Structural)]
pub enum BinOp {
    Add,
    Sub,
    Mul,
    Div,
    Rem,
    And,
    Or,
}

/// An unsigned comparison of two bytes.
#[derive(Debug, Clone, Copy, PartialEq, Eq, Structural)]
pub enum CmpOp {
    Eq,
    Ne,
    Gt,
    Lt,
    Ge,
    Le,
}

/// One instruction.
#[derive(Debug, Clone, PartialEq)]
pub enum Instr {
    /// Reads a stack slot; yields a byte.
    Load(usize),
    /// Writes a value to a stack slot; yields nothing.
    Store(usize, Operand),
    /// Arithmetic or bitwise operation; yields a byte.
    Bin(BinOp, Operand, Operand),
    /// Bitwise complement; yields a byte.
    Not(Operand),
    /// Comparison; yields a one-bit predicate.
    Cmp(CmpOp, Operand, Operand),
    /// Widens a one-bit predicate to a byte (0 or 1).
    Zext(Operand),
    /// Calls the named function of the module with byte arguments;
    /// yields a byte where the callee returns one, nothing otherwise.
    Call(usize, Vec<Operand>),
}

/// A block terminator.
#[derive(Debug, Clone, PartialEq)]
pub enum Term {
    /// An unconditional branch to a block of the same function.
    Br(usize),
    /// Branches on a one-bit predicate: to the first target where it is
    /// set, to the second otherwise.
    CondBr(Operand, usize, usize),
    /// Returns a byte, or nothing from a void function.
    Ret(Option<Operand>),
}

/// A basic block: its instructions, then exactly one terminator.
#[derive(Debug, Clone, PartialEq)]
pub struct Block {
    pub instrs: Vec<Instr>,
    pub term: Term,
}

/// A function: its name, how many byte parameters it takes, what it
/// returns, how many stack slots its body uses, and its blocks. The
/// first block is the entry; a function with no blocks is declared but
/// not defined.
#[derive(Debug, Clone, PartialEq)]
pub struct Func {
    pub name: String,
    pub params: usize,
    pub ret: Ty,
    pub slots: usize,
    pub blocks: Vec<Block>,
}

/// A whole compiled module.
#[derive(Debug, Clone, PartialEq)]
pub struct Module {
    pub funcs: Vec<Func>,
}

/// The mathematical value of an `Operand`.
pub enum SpecOperand {
    Rel(int),
    Param(int),
    Const(u8),
}

/// The mathematical value of an `Instr`.
pub enum SpecInstr {
    Load(int),
    Store(int, SpecOperand),
    Bin(BinOp, SpecOperand, SpecOperand),
    Not(SpecOperand),
    Cmp(CmpOp, SpecOperand, SpecOperand),
    Zext(SpecOperand),
    Call(int, Seq<SpecOperand>),
}

pub enum SpecTerm {
    Br(int),
    CondBr(SpecOperand, int, int),
    Ret(Option<SpecOperand>),
}

pub struct SpecBlock {
    pub instrs: Seq<SpecInstr>,
    pub term: SpecTerm,
}

pub struct SpecFunc {
    pub name: Seq<char>,
    pub params: int,
    pub ret: Ty,
    pub slots: int,
    pub blocks: Seq<SpecBlock>,
}

pub struct SpecModule {
    pub funcs: Seq<SpecFunc>,
}

impl View for Operand {
    type V = SpecOperand;

    open spec fn view(&self) -> SpecOperand {
        match self {
            Operand::Rel(k) => SpecOperand::Rel(*k as int),
            Operand::Param(i) => SpecOperand::Param(*i as int),
            Operand::Const(x) => SpecOperand::Const(*x),
        }
    }
}

pub open spec fn ops_view(v: Seq<Operand>) -> Seq<SpecOperand> {
    v.map(|i: int, o: Operand| o@)
}

impl View for Instr {
    type V = SpecInstr;

    open spec fn view(&self) -> SpecInstr {
        match self {
            Instr::Load(s) => SpecInstr::Load(*s as int),
            Instr::Store(s, v) => SpecInstr::Store(*s as int, v@),
            Instr::Bin(op, a, b) => SpecInstr::Bin(*op, a@, b@),
            Instr::Not(a) => SpecInstr::Not(a@),
            Instr::Cmp(op, a, b) => SpecInstr::Cmp(*op, a@, b@),
            Instr::Zext(a) => SpecInstr::Zext(a@),
            Instr::Call(f, args) => SpecInstr::Call(*f as int, ops_view(args@)),
        }
    }
}

pub open spec fn instrs_view(v: Seq<Instr>) -> Seq<SpecInstr> {
    v.map(|i: int, x: Instr| x@)
}

impl View for Term {
    type V = SpecTerm;

    open spec fn view(&self) -> SpecTerm {
        match self {
            Term::Br(b) => SpecTerm::Br(*b as int),
            Term::CondBr(c, b1, b2) => SpecTerm::CondBr(c@, *b1 as int, *b2 as int),
            Term::Ret(Some(v)) => SpecTerm::Ret(Some(v@)),
            Term::Ret(None) => SpecTerm::Ret(None),
        }
    }
}

impl View for Block {
    type V = SpecBlock;

    open spec fn view(&self) -> SpecBlock {
        SpecBlock { instrs: instrs_view(self.instrs@), term: self.term@ }
    }
}

pub open spec fn blocks_view(v: Seq<Block>) -> Seq<SpecBlock> {
    v.map(|i: int, b: Block| b@)
}

impl View for Func {
    type V = SpecFunc;

    open spec fn view(&self) -> SpecFunc {
        SpecFunc {
            name: self.name@,
            params: self.params as int,
            ret: self.ret,
            slots: self.slots as int,
            blocks: blocks_view(self.blocks@),
        }
    }
}

pub open spec fn funcs_view(v: Seq<Func>) -> Seq<SpecFunc> {
    v.map(|i: int, f: Func| f@)
}

impl View for Module {
    type V = SpecModule;

    open spec fn view(&self) -> SpecModule {
        SpecModule { funcs: funcs_view(self.funcs@) }
    }
}

/// The type of the value an instruction yields, if any. A call yields a
/// byte exactly where its callee returns one.
pub open spec fn instr_val_ty(funcs: Seq<SpecFunc>, i: SpecInstr) -> Option<VTy> {
    match i {
        SpecInstr::Load(_) => Some(VTy::Byte),
        SpecInstr::Store(_, _) => None,
        SpecInstr::Bin(_, _, _) => Some(VTy::Byte),
        SpecInstr::Not(_) => Some(VTy::Byte),
        SpecInstr::Cmp(_, _, _) => Some(VTy::Bit),
        SpecInstr::Zext(_) => Some(VTy::Byte),
        SpecInstr::Call(f, _) => {
            if 0 <= f < funcs.len() && funcs[f].ret == Ty::Byte {
                Some(VTy::Byte)
            } else {
                None
            }
        },
    }
}

/// The operand `op`, read at position `j` of a block whose instructions
/// are `instrs`, names an earlier value of type `t`. A terminator reads
/// at position `instrs.len()`.
pub open spec fn operand_ok(
    funcs: Seq<SpecFunc>,
    params: int,
    instrs: Seq<SpecInstr>,
    j: int,
    op: SpecOperand,
    t: VTy,
) -> bool {
    match op {
        SpecOperand::Rel(k) => 1 <= k <= j && j <= instrs.len() && instr_val_ty(
            funcs,
            instrs[j - k],
        ) == Some(t),
        SpecOperand::Param(i) => 0 <= i < params && t == VTy::Byte,
        SpecOperand::Const(_) => t == VTy::Byte,
    }
}

/// The instruction at position `j` reads only earlier values of the
/// right types, stays within the function's slots, and calls within the
/// module at the declared arity.
pub open spec fn instr_ok(
    funcs: Seq<SpecFunc>,
    params: int,
    slots: int,
    instrs: Seq<SpecInstr>,
    j: int,
) -> bool
    recommends
        0 <= j < instrs.len(),
{
    match instrs[j] {
        SpecInstr::Load(s) => 0 <= s < slots,
        SpecInstr::Store(s, v) => 0 <= s < slots && operand_ok(
            funcs,
            params,
            instrs,
            j,
            v,
            VTy::Byte,
        ),
        SpecInstr::Bin(_, a, b) => operand_ok(funcs, params, instrs, j, a, VTy::Byte) && operand_ok(
            funcs,
            params,
            instrs,
            j,
            b,
            VTy::Byte,
        ),
        SpecInstr::Not(a) => operand_ok(funcs, params, instrs, j, a, VTy::Byte),
        SpecInstr::Cmp(_, a, b) => operand_ok(funcs, params, instrs, j, a, VTy::Byte) && operand_ok(
            funcs,
            params,
            instrs,
            j,
            b,
            VTy::Byte,
        ),
        SpecInstr::Zext(a) => operand_ok(funcs, params, instrs, j, a, VTy::Bit),
        SpecInstr::Call(f, args) => 0 <= f < funcs.len() && args.len() == funcs[f].params && (forall|
            i: int,
        |
            0 <= i < args.len() ==> operand_ok(
                funcs,
                params,
                instrs,
                j,
                #[trigger] args[i],
                VTy::Byte,
            )),
    }
}

/// The terminator branches within the function, returns what the
/// function's signature says, and reads a valid predicate or byte.
pub open spec fn term_ok(
    funcs: Seq<SpecFunc>,
    f: SpecFunc,
    instrs: Seq<SpecInstr>,
    t: SpecTerm,
) -> bool {
    match t {
        SpecTerm::Br(b) => 0 <= b < f.blocks.len(),
        SpecTerm::CondBr(c, b1, b2) => operand_ok(
            funcs,
            f.params,
            instrs,
            instrs.len() as int,
            c,
            VTy::Bit,
        ) && 0 <= b1 < f.blocks.len() && 0 <= b2 < f.blocks.len(),
        SpecTerm::Ret(Some(v)) => f.ret == Ty::Byte && operand_ok(
            funcs,
            f.params,
            instrs,
            instrs.len() as int,
            v,
            VTy::Byte,
        ),
        SpecTerm::Ret(None) => f.ret == Ty::Void,
    }
}

pub open spec fn block_ok(funcs: Seq<SpecFunc>, f: SpecFunc, b: SpecBlock) -> bool {
    &&& forall|j: int| 0 <= j < b.instrs.len() ==> instr_ok(funcs, f.params, f.slots, b.instrs, j)
    &&& term_ok(funcs, f, b.instrs, b.term)
}

pub open spec fn func_ok(funcs: Seq<SpecFunc>, f: SpecFunc) -> bool {
    &&& 0 <= f.params
    &&& 0 <= f.slots
    &&& forall|i: int| 0 <= i < f.blocks.len() ==> block_ok(funcs, f, #[trigger] f.blocks[i])
}

/// Structural well-formedness of a whole module.
pub open spec fn module_ok(m: SpecModule) -> bool {
    forall|i: int| 0 <= i < m.funcs.len() ==> func_ok(m.funcs, #[trigger] m.funcs[i])
}

fn val_ty(funcs: &Vec<Func>, i: &Instr) -> (r: Option<VTy>)
    ensures
        r == instr_val_ty(funcs_view(funcs@), i@),
{
    match i {
        Instr::Load(_) => Some(VTy::Byte),
        Instr::Store(_, _) => None,
        Instr::Bin(_, _, _) => Some(VTy::Byte),
        Instr::Not(_) => Some(VTy::Byte),
        Instr::Cmp(_, _, _) => Some(VTy::Bit),
        Instr::Zext(_) => Some(VTy::Byte),
        Instr::Call(f, _) => {
            if *f < funcs.len() {
                proof {
                    assert(funcs_view(funcs@)[*f as int] == funcs@[*f as int]@);
                }
                if matches!(funcs[*f].ret, Ty::Byte) {
                    Some(VTy::Byte)
                } else {
                    None
                }
            } else {
                None
            }
        },
    }
}

fn check_operand(
    funcs: &Vec<Func>,
    params: usize,
    instrs: &Vec<Instr>,
    j: usize,
    op: Operand,
    t: VTy,
) -> (r: bool)
    requires
        j <= instrs@.len(),
    ensures
        r == operand_ok(funcs_view(funcs@), params as int, instrs_view(instrs@), j as int, op@, t),
{
    match op {
        Operand::Rel(k) => {
            if 1 <= k && k <= j {
                proof {
                    assert(instrs_view(instrs@)[j - k] == instrs@[j - k]@);
                }
                let vt = val_ty(funcs, &instrs[j - k]);
                vt == Some(t)
            } else {
                false
            }
        },
        Operand::Param(i) => i < params && t == VTy::Byte,
        Operand::Const(_) => t == VTy::Byte,
    }
}

fn check_instr(funcs: &Vec<Func>, params: usize, slots: usize, instrs: &Vec<Instr>, j: usize) -> (r:
    bool)
    requires
        j < instrs@.len(),
    ensures
        r == instr_ok(
            funcs_view(funcs@),
            params as int,
            slots as int,
            instrs_view(instrs@),
            j as int,
        ),
{
    proof {
        assert(instrs_view(instrs@)[j as int] == instrs@[j as int]@);
    }
    match &instrs[j] {
        Instr::Load(s) => *s < slots,
        Instr::Store(s, v) => *s < slots && check_operand(funcs, params, instrs, j, *v, VTy::Byte),
        Instr::Bin(_, a, b) => check_operand(funcs, params, instrs, j, *a, VTy::Byte)
            && check_operand(funcs, params, instrs, j, *b, VTy::Byte),
        Instr::Not(a) => check_operand(funcs, params, instrs, j, *a, VTy::Byte),
        Instr::Cmp(_, a, b) => check_operand(funcs, params, instrs, j, *a, VTy::Byte)
            && check_operand(funcs, params, instrs, j, *b, VTy::Byte),
        Instr::Zext(a) => check_operand(funcs, params, instrs, j, *a, VTy::Bit),
        Instr::Call(f, args) => {
            if !(*f < funcs.len()) {
                return false;
            }
            proof {
                assert(funcs_view(funcs@)[*f as int] == funcs@[*f as int]@);
            }
            if args.len() != funcs[*f].params {
                return false;
            }
            let ghost gi = instrs@[j as int]@;
            let mut i: usize = 0;
            while i < args.len()
                invariant
                    i <= args@.len(),
                    j < instrs@.len(),
                    gi == instrs@[j as int]@,
                    gi matches SpecInstr::Call(gf, gargs) && gargs == ops_view(args@),
                    forall|x: int|
                        0 <= x < i ==> operand_ok(
                            funcs_view(funcs@),
                            params as int,
                            instrs_view(instrs@),
                            j as int,
                            #[trigger] ops_view(args@)[x],
                            VTy::Byte,
                        ),
                decreases args@.len() - i,
            {
                proof {
                    assert(ops_view(args@)[i as int] == args@[i as int]@);
                }
                if !check_operand(funcs, params, instrs, j, args[i], VTy::Byte) {
                    return false;
                }
                i = i + 1;
            }
            true
        },
    }
}

fn check_block(funcs: &Vec<Func>, f: &Func, b: &Block) -> (r: bool)
    ensures
        r == block_ok(funcs_view(funcs@), f@, b@),
{
    let mut j: usize = 0;
    while j < b.instrs.len()
        invariant
            j <= b.instrs@.len(),
            forall|x: int|
                0 <= x < j ==> instr_ok(
                    funcs_view(funcs@),
                    f@.params,
                    f@.slots,
                    instrs_view(b.instrs@),
                    x,
                ),
        decreases b.instrs@.len() - j,
    {
        if !check_instr(funcs, f.params, f.slots, &b.instrs, j) {
            proof {
                assert(!instr_ok(funcs_view(funcs@), f@.params, f@.slots, b@.instrs, j as int));
                assert(!block_ok(funcs_view(funcs@), f@, b@));
            }
            return false;
        }
        j = j + 1;
    }
    match &b.term {
        Term::Br(t) => *t < f.blocks.len(),
        Term::CondBr(c, t1, t2) => check_operand(funcs, f.params, &b.instrs, b.instrs.len(), *c,
            VTy::Bit) && *t1 < f.blocks.len() && *t2 < f.blocks.len(),
        Term::Ret(Some(v)) => matches!(f.ret, Ty::Byte) && check_operand(
            funcs,
            f.params,
            &b.instrs,
            b.instrs.len(),
            *v,
            VTy::Byte,
        ),
        Term::Ret(None) => matches!(f.ret, Ty::Void),
    }
}

fn check_func(funcs: &Vec<Func>, f: &Func) -> (r: bool)
    ensures
        r == func_ok(funcs_view(funcs@), f@),
{
    let mut i: usize = 0;
    while i < f.blocks.len()
        invariant
            i <= f.blocks@.len(),
            forall|x: int|
                0 <= x < i ==> block_ok(funcs_view(funcs@), f@, #[trigger] blocks_view(
                    f.blocks@,
                )[x]),
        decreases f.blocks@.len() - i,
    {
        proof {
            assert(blocks_view(f.blocks@)[i as int] == f.blocks@[i as int]@);
        }
        if !check_block(funcs, f, &f.blocks[i]) {
            proof {
                assert(!block_ok(funcs_view(funcs@), f@, f@.blocks[i as int]));
                assert(!func_ok(funcs_view(funcs@), f@));
            }
            return false;
        }
        i = i + 1;
    }
    true
}

/// Structural verification over a completed module: every operand names
/// an earlier value of the right type, every branch target and slot is
/// in range, and every call matches its callee's arity.
pub fn verify_module(m: &Module) -> (r: bool)
    ensures
        r == module_ok(m@),
{
    let mut i: usize = 0;
    while i < m.funcs.len()
        invariant
            i <= m.funcs@.len(),
            forall|x: int|
                0 <= x < i ==> func_ok(funcs_view(m.funcs@), #[trigger] funcs_view(m.funcs@)[x]),
        decreases m.funcs@.len() - i,
    {
        proof {
            assert(funcs_view(m.funcs@)[i as int] == m.funcs@[i as int]@);
        }
        if !check_func(&m.funcs, &m.funcs[i]) {
            proof {
                assert(!func_ok(funcs_view(m.funcs@), m@.funcs[i as int]));
                assert(!module_ok(m@));
            }
            return false;
        }
        i = i + 1;
    }
    true
}

} // verus!
