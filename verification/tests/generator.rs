use sugc::codegen::{CodeGen, CodegenError};
use sugc::ir::{BinOp, CmpOp, Instr, Module, Operand, Term, Ty, verify_module};
use sugc::lexer::{tokenize, Span};
use sugc::lowering::ErrorKind;
use sugc::parser::{parse, Expr, Expr_, Program};

fn compile(src: &str) -> Module {
    let toks = tokenize(src).expect("tokenize");
    let prog = parse(toks).expect("parse");
    CodeGen::new(prog).run().expect("generate")
}

fn compile_err(src: &str) -> CodegenError {
    let toks = tokenize(src).expect("tokenize");
    let prog = parse(toks).expect("parse");
    CodeGen::new(prog).run().expect_err("generation must fail")
}

/// A comparison lowers to the compare and a widening cast, and its
/// value has the same width as a plain byte literal's: both are
/// returned through the same byte-typed return.
#[test]
fn boolean_result_width() {
    let m = compile("declare f = ! -> byte; define f = { return (3 > 2); };");
    let entry = &m.funcs[0].blocks[0];
    assert_eq!(
        entry.instrs,
        vec![
            Instr::Cmp(CmpOp::Gt, Operand::Const(3), Operand::Const(2)),
            Instr::Zext(Operand::Rel(1)),
        ]
    );
    assert_eq!(entry.term, Term::Ret(Some(Operand::Rel(1))));

    let lit = compile("declare g = ! -> byte; define g = { return 1; };");
    // the byte literal returns through the same byte-typed return form
    assert!(matches!(lit.funcs[0].blocks[0].term, Term::Ret(Some(_))));
    assert_eq!(lit.funcs[0].ret, m.funcs[0].ret);
}

/// The for loop's condition is lowered twice: once before the loop and
/// once on the back edge, and the two lowerings emit identical
/// comparison code.
#[test]
fn loop_condition_duplicated() {
    let m = compile(
        "declare f = ! -> byte; define f = { var i = 0; for pass; i < 3; mutate i = i + 1; { pass; }; return i; };",
    );
    let f = &m.funcs[0];
    // blocks: entry (pre-test), loop (body + step + re-test), end
    assert_eq!(f.blocks.len(), 3);
    let entry = &f.blocks[0];
    let latch = &f.blocks[1];
    // the pre-test: the last three instructions evaluate `i < 3` and test it
    let n = entry.instrs.len();
    let pre = &entry.instrs[n - 3..];
    let k = latch.instrs.len();
    let re = &latch.instrs[k - 3..];
    assert_eq!(pre, re);
    assert!(matches!(entry.term, Term::CondBr(Operand::Rel(1), 1, 2)));
    assert!(matches!(latch.term, Term::CondBr(Operand::Rel(1), 1, 2)));
}

#[test]
fn entry_synthesis_calls_main() {
    let m = compile("declare main = ! -> byte; define main = { return 1; };");
    let start = m.funcs.last().unwrap();
    assert_eq!(start.name, "_start");
    assert_eq!(start.params, 0);
    assert_eq!(start.ret, Ty::Void);
    assert_eq!(start.blocks.len(), 1);
    assert_eq!(start.blocks[0].instrs, vec![Instr::Call(0, vec![])]);
    assert_eq!(start.blocks[0].term, Term::Ret(None));
}

#[test]
fn entry_synthesis_without_main_is_empty() {
    let m = compile("declare f = byte -> byte; define f x = { return x; };");
    let start = m.funcs.last().unwrap();
    assert_eq!(start.name, "_start");
    assert!(start.blocks[0].instrs.is_empty());
}

#[test]
fn unknown_type_is_fatal() {
    let err = compile_err("declare f = word -> byte;");
    assert_eq!(err.kind, ErrorKind::UnknownType);
    assert_eq!(err.name, "word");
}

#[test]
fn undeclared_definition_is_fatal() {
    let err = compile_err("define f = { return 1; };");
    assert_eq!(err.kind, ErrorKind::UnboundFunction);
    assert_eq!(err.name, "f");
}

#[test]
fn second_definition_is_fatal() {
    let err = compile_err(
        "declare f = ! -> byte; define f = { return 1; }; define f = { return 2; };",
    );
    assert_eq!(err.kind, ErrorKind::Redefinition);
}

#[test]
fn parameter_count_must_match_declaration() {
    let err = compile_err("declare f = byte -> byte; define f x y = { return x; };");
    assert_eq!(err.kind, ErrorKind::ArityMismatch);
}

#[test]
fn returning_a_value_from_void_is_fatal() {
    let err = compile_err("declare f = ! -> !; define f = { return 3; };");
    assert_eq!(err.kind, ErrorKind::TypeMismatch);
}

#[test]
fn call_arity_is_checked() {
    // call expressions have no source syntax; build the tree directly
    let sp = Span { lo: 0, hi: 0 };
    let prog = Program {
        stmts: vec![
            Expr {
                span: sp,
                node: Expr_::Declare(
                    "f".to_owned(),
                    vec!["byte".to_owned(), "byte".to_owned()],
                ),
            },
            Expr {
                span: sp,
                node: Expr_::Declare("g".to_owned(), vec!["void".to_owned(), "byte".to_owned()]),
            },
            Expr {
                span: sp,
                node: Expr_::Define(
                    "g".to_owned(),
                    vec![],
                    vec![Expr { span: sp, node: Expr_::FunctionCall("f".to_owned(), vec![]) }],
                ),
            },
        ],
    };
    let err = CodeGen::new(prog).run().expect_err("wrong arity");
    assert_eq!(err.kind, ErrorKind::ArityMismatch);
    assert_eq!(err.name, "f");
}

#[test]
fn call_lowering_passes_arguments_in_order() {
    let sp = Span { lo: 0, hi: 0 };
    let byte = |v: u8| Expr { span: sp, node: Expr_::Byte(v) };
    let prog = Program {
        stmts: vec![
            Expr {
                span: sp,
                node: Expr_::Declare(
                    "add".to_owned(),
                    vec!["byte".to_owned(), "byte".to_owned(), "byte".to_owned()],
                ),
            },
            Expr {
                span: sp,
                node: Expr_::Define(
                    "add".to_owned(),
                    vec!["x".to_owned(), "y".to_owned()],
                    vec![Expr {
                        span: sp,
                        node: Expr_::Add(
                            Box::new(Expr { span: sp, node: Expr_::Var("x".to_owned()) }),
                            Box::new(Expr { span: sp, node: Expr_::Var("y".to_owned()) }),
                        ),
                    }],
                ),
            },
            Expr {
                span: sp,
                node: Expr_::Declare("main".to_owned(), vec!["void".to_owned(), "byte".to_owned()]),
            },
            Expr {
                span: sp,
                node: Expr_::Define(
                    "main".to_owned(),
                    vec![],
                    vec![Expr {
                        span: sp,
                        node: Expr_::FunctionCall("add".to_owned(), vec![byte(4), byte(9)]),
                    }],
                ),
            },
        ],
    };
    let m = CodeGen::new(prog).run().expect("generate");
    assert!(verify_module(&m));
    let main = &m.funcs[1];
    let entry = &main.blocks[0];
    assert_eq!(
        entry.instrs,
        vec![Instr::Call(0, vec![Operand::Const(4), Operand::Const(9)])]
    );
    assert_eq!(entry.term, Term::Ret(Some(Operand::Rel(1))));
}

#[test]
fn unary_minus_reads_as_subtraction_from_zero() {
    let m = compile("declare f = ! -> byte; define f = { return -5; };");
    let entry = &m.funcs[0].blocks[0];
    assert_eq!(
        entry.instrs,
        vec![Instr::Bin(BinOp::Sub, Operand::Const(0), Operand::Const(5))]
    );
}

#[test]
fn shadowing_gets_a_fresh_slot() {
    let m = compile(
        "declare f = ! -> byte; define f = { var a = 1; if 1 > 0; { var a = 2; }; else; { pass; }; return a; };",
    );
    let f = &m.funcs[0];
    // one slot for the outer `a`, one for the shadowing inner `a`
    assert_eq!(f.slots, 2);
    // after the if, `a` reads the outer slot again
    let end = &f.blocks[3];
    assert_eq!(end.instrs, vec![Instr::Load(0)]);
    assert_eq!(end.term, Term::Ret(Some(Operand::Rel(1))));
}

#[test]
fn reassigned_parameter_moves_to_a_slot() {
    let m = compile(
        "declare f = byte -> byte; define f x = { mutate x = x + 1; return x; };",
    );
    let f = &m.funcs[0];
    assert_eq!(f.slots, 1);
    let entry = &f.blocks[0];
    assert_eq!(
        entry.instrs,
        vec![
            Instr::Bin(BinOp::Add, Operand::Param(0), Operand::Const(1)),
            Instr::Store(0, Operand::Rel(1)),
            Instr::Load(0),
        ]
    );
    assert_eq!(entry.term, Term::Ret(Some(Operand::Rel(1))));
}

#[test]
fn fallthrough_returns_zero_from_byte_function() {
    let m = compile("declare f = ! -> byte; define f = { var a = 1; };");
    let entry = &m.funcs[0].blocks[0];
    assert_eq!(entry.term, Term::Ret(Some(Operand::Const(0))));
}

#[test]
fn verify_module_rejects_a_bad_reference() {
    let mut m = compile("declare f = ! -> byte; define f = { return 1; };");
    // a relative operand that reaches before the block's start
    m.funcs[0].blocks[0].term = Term::Ret(Some(Operand::Rel(5)));
    assert!(!verify_module(&m));
}
