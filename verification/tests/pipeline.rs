use sugc::codegen::CodeGen;
use sugc::ir::{BinOp, Instr, Operand, Term, Ty, verify_module};
use sugc::lexer::{tokenize, Token};
use sugc::parser::{parse, Expr_};

fn compile(src: &str) -> sugc::ir::Module {
    let toks = tokenize(src).expect("tokenize");
    let prog = parse(toks).expect("parse");
    CodeGen::new(prog).run().expect("generate")
}

#[test]
fn arithmetic_precedence() {
    let toks = tokenize("define f = 1 + 2 * 3;").expect("tokenize");
    let prog = parse(toks).expect("parse");
    match &prog.stmts[0].node {
        Expr_::Define(name, args, body) => {
            assert_eq!(name, "f");
            assert!(args.is_empty());
            match &body[0].node {
                Expr_::Add(a, b) => {
                    assert!(matches!(a.node, Expr_::Byte(1)));
                    assert!(matches!(b.node, Expr_::Mul(_, _)));
                }
                other => panic!("expected Add, got {:?}", other),
            }
        }
        other => panic!("expected Define, got {:?}", other),
    }
}

#[test]
fn function_call_scenario() {
    let m = compile("declare add = byte -> byte -> byte; define add x y = { return x + y; };");
    let add = &m.funcs[0];
    assert_eq!(add.name, "add");
    assert_eq!(add.params, 2);
    assert_eq!(add.ret, Ty::Byte);
    assert_eq!(add.blocks.len(), 1);
    let entry = &add.blocks[0];
    assert_eq!(
        entry.instrs,
        vec![Instr::Bin(BinOp::Add, Operand::Param(0), Operand::Param(1))]
    );
    assert_eq!(entry.term, Term::Ret(Some(Operand::Rel(1))));
}

#[test]
fn control_flow_block_count() {
    let m = compile(
        "declare f = ! -> !; define f = { if 1 > 0; { var a = 1; }; else; { var a = 2; }; };",
    );
    assert_eq!(m.funcs[0].blocks.len(), 4);
}

#[test]
fn unbound_mutate_is_fatal() {
    let toks = tokenize("declare f = ! -> !; define f = { mutate x = 1; };").expect("tokenize");
    let prog = parse(toks).expect("parse");
    let err = CodeGen::new(prog).run().expect_err("must fail");
    assert_eq!(err.kind, sugc::lowering::ErrorKind::UnboundVariable);
    assert_eq!(err.name, "x");
}

#[test]
fn generated_module_verifies() {
    let m = compile(
        "declare main = ! -> byte; define main = { var a = 3; for var i = 0; i < 3; mutate i = i + 1; { mutate a = a * 2; }; return a; };",
    );
    assert!(verify_module(&m));
    assert_eq!(m.funcs.last().unwrap().name, "_start");
}

#[test]
fn generation_is_repeatable() {
    let src = "declare main = ! -> byte; define main = { return 7; };";
    let toks = tokenize(src).expect("tokenize");
    let prog = parse(toks).expect("parse");
    let toks2 = tokenize(src).expect("tokenize");
    let prog2 = parse(toks2).expect("parse");
    let m1 = CodeGen::new(prog).run().expect("generate");
    let m2 = CodeGen::new(prog2).run().expect("generate");
    assert_eq!(m1, m2);
}

#[test]
fn lexer_keywords_and_symbols() {
    let toks = tokenize("var x == != >= <= -> && || ! /* note */ 255").expect("tokenize");
    let kinds: Vec<Token> = toks.into_iter().map(|p| p.0).collect();
    assert_eq!(kinds[0], Token::Variable);
    assert_eq!(kinds[1], Token::Ident("x".to_owned()));
    assert_eq!(kinds[2], Token::Sym(sugc::ast::Symbol::Equality));
    assert_eq!(kinds[3], Token::Sym(sugc::ast::Symbol::InEquality));
    assert_eq!(kinds[4], Token::Sym(sugc::ast::Symbol::GreaterEqual));
    assert_eq!(kinds[5], Token::Sym(sugc::ast::Symbol::LessEqual));
    assert_eq!(kinds[6], Token::Sym(sugc::ast::Symbol::Arrow));
    assert_eq!(kinds[7], Token::AndAnd);
    assert_eq!(kinds[8], Token::OrOr);
    assert_eq!(kinds[9], Token::Sym(sugc::ast::Symbol::Bang));
    assert_eq!(kinds[10], Token::Byte(255));
}

#[test]
fn byte_literal_over_255_is_refused() {
    let err = tokenize("define f = 256;").expect_err("over a byte");
    assert_eq!(err.pos, 11);
}
