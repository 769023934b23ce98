use sugc::ast::Symbol;
use sugc::lexer::{tokenize, Lexer, Token};
use sugc::parser::{parse, Expr_};
use sugc::tokens::{classify, Tokens, TokensStruct};

#[test]
fn lexer_cursor_walks_the_stream() {
    let mut lx = Lexer::new("var x = 10;");
    assert_eq!(lx.next().unwrap().0, Token::Variable);
    assert_eq!(lx.next().unwrap().0, Token::Ident("x".to_owned()));
    assert_eq!(lx.next().unwrap().0, Token::Sym(Symbol::Equal));
    assert_eq!(lx.next().unwrap().0, Token::Byte(10));
    assert_eq!(lx.next().unwrap().0, Token::Sym(Symbol::SemiColon));
    assert!(lx.next().is_none());
}

#[test]
fn spans_cover_each_lexeme() {
    let toks = tokenize("var abc").expect("tokenize");
    assert_eq!(toks[0].1.lo, 0);
    assert_eq!(toks[0].1.hi, 3);
    assert_eq!(toks[1].1.lo, 4);
    assert_eq!(toks[1].1.hi, 7);
}

#[test]
fn comments_are_skipped() {
    let toks = tokenize("// whole line\nvar /* inner */ x").expect("tokenize");
    let kinds: Vec<Token> = toks.into_iter().map(|p| p.0).collect();
    assert_eq!(kinds, vec![Token::Variable, Token::Ident("x".to_owned())]);
}

#[test]
fn three_equals_signs_read_as_equality_then_equals() {
    let toks = tokenize("a === b").expect("tokenize");
    let kinds: Vec<Token> = toks.into_iter().map(|p| p.0).collect();
    assert_eq!(kinds[1], Token::Sym(Symbol::Equality));
    assert_eq!(kinds[2], Token::Sym(Symbol::Equal));
}

#[test]
fn keywords_do_not_swallow_longer_identifiers() {
    let toks = tokenize("form iffy variable").expect("tokenize");
    let kinds: Vec<Token> = toks.into_iter().map(|p| p.0).collect();
    assert_eq!(kinds[0], Token::Ident("form".to_owned()));
    assert_eq!(kinds[1], Token::Ident("iffy".to_owned()));
    assert_eq!(kinds[2], Token::Ident("variable".to_owned()));
}

#[test]
fn declare_chain_keeps_order_and_void_sentinel() {
    let toks = tokenize("declare f = byte -> ! -> byte;").expect("tokenize");
    let prog = parse(toks).expect("parse");
    match &prog.stmts[0].node {
        Expr_::Declare(name, tys) => {
            assert_eq!(name, "f");
            assert_eq!(tys, &vec!["byte".to_owned(), "void".to_owned(), "byte".to_owned()]);
        }
        other => panic!("expected Declare, got {:?}", other),
    }
}

#[test]
fn bare_expression_body_parses_without_braces() {
    let toks = tokenize("define answer = 42;").expect("tokenize");
    let prog = parse(toks).expect("parse");
    match &prog.stmts[0].node {
        Expr_::Define(_, args, body) => {
            assert!(args.is_empty());
            assert_eq!(body.len(), 1);
            assert!(matches!(body[0].node, Expr_::Byte(42)));
        }
        other => panic!("expected Define, got {:?}", other),
    }
}

#[test]
fn statement_lists_accumulate_in_order() {
    let toks =
        tokenize("define f = { var a = 1; mutate a = 2; pass; return a; };").expect("tokenize");
    let prog = parse(toks).expect("parse");
    match &prog.stmts[0].node {
        Expr_::Define(_, _, body) => {
            assert_eq!(body.len(), 4);
            assert!(matches!(body[0].node, Expr_::Assign(_, _)));
            assert!(matches!(body[1].node, Expr_::ReAssign(_, _)));
            assert!(matches!(body[2].node, Expr_::Pass));
            assert!(matches!(body[3].node, Expr_::Var(_)));
        }
        other => panic!("expected Define, got {:?}", other),
    }
}

#[test]
fn comparisons_join_two_atoms() {
    let toks = tokenize("define f = (1 <= 2) + 3;").expect("tokenize");
    let prog = parse(toks).expect("parse");
    match &prog.stmts[0].node {
        Expr_::Define(_, _, body) => match &body[0].node {
            Expr_::Add(a, b) => {
                assert!(matches!(a.node, Expr_::ELt(_, _)));
                assert!(matches!(b.node, Expr_::Byte(3)));
            }
            other => panic!("expected Add, got {:?}", other),
        },
        other => panic!("expected Define, got {:?}", other),
    }
}

#[test]
fn top_level_statement_is_a_parse_error() {
    let toks = tokenize("mutate x = 1;").expect("tokenize");
    let err = parse(toks).expect_err("not a top-level form");
    assert_eq!(err.1, "expected a declaration or definition");
    assert_eq!(err.0.unwrap().0, Token::Mutate);
}

#[test]
fn missing_semicolon_is_reported() {
    let toks = tokenize("declare f = byte").expect("tokenize");
    let err = parse(toks).expect_err("missing semicolon");
    assert_eq!(err.1, "expected a semicolon");
    assert!(err.0.is_none());
}

#[test]
fn unclosed_branch_is_reported() {
    let toks = tokenize("define f = { if 1 > 0; { pass; }; };").expect("tokenize");
    let err = parse(toks).expect_err("if needs an else");
    assert_eq!(err.1, "expected an else branch");
}

#[test]
fn character_classes_match_their_symbols() {
    assert_eq!(classify('!'), Tokens::Bang);
    assert_eq!(classify('{'), Tokens::Delimiter);
    assert_eq!(classify(')'), Tokens::Delimiter);
    assert_eq!(classify(' '), Tokens::Space);
    assert_eq!(classify('\n'), Tokens::NewLine);
    assert_eq!(classify('+'), Tokens::Add);
    assert_eq!(classify('*'), Tokens::Multiply);
    assert_eq!(classify('-'), Tokens::Subtract);
    assert_eq!(classify(';'), Tokens::SemiColon);
    assert_eq!(classify(':'), Tokens::Colon);
    assert_eq!(classify('='), Tokens::Equal);
    assert_eq!(classify('>'), Tokens::Greater);
    assert_eq!(classify('<'), Tokens::Less);
    assert_eq!(classify('q'), Tokens::Ident);
}

#[test]
fn tokens_struct_records_its_position() {
    let t = TokensStruct::new(Tokens::Equal, "=".to_owned(), 3, 7, 1);
    assert_eq!(t.token, Tokens::Equal);
    assert_eq!(t.string, "=");
    assert_eq!(t.line, 3);
    assert_eq!(t.char_pos, 7);
    assert_eq!(t.scope, 1);
}
