use frd_lisp::ast::{lower_program, Atom, Expr};
use frd_lisp::grammar::{lisp_grammar, Alt, Grammar, Hook, Symbol};
use frd_lisp::lexer::TokenKind;
use frd_lisp::parse_node::SymbolType;
use frd_lisp::parser::{ParseError, Parser};

fn text(v: &[char]) -> String {
    v.iter().collect()
}

#[test]
fn base_cases() {
    let g = lisp_grammar();
    let mut p = Parser::new();

    // the right-recursive list shape flattens into one ordered sequence
    let node = p.parse(&g, "(begin 1 2)").expect("To be parsed ok");
    let program = lower_program(&node).expect("lowers");
    assert_eq!(program.len(), 1);
    match &program[0] {
        Expr::List(items) => {
            assert_eq!(items.len(), 3);
            match &items[0] {
                Expr::Atom(Atom::Id(s)) => assert_eq!(text(s), "begin"),
                other => panic!("head is {:?}", other),
            }
            assert!(matches!(items[1], Expr::Atom(Atom::Int(1))));
            assert!(matches!(items[2], Expr::Atom(Atom::Int(2))));
        },
        other => panic!("not a list: {:?}", other),
    }

    let node = p.parse(&g, "((closure 1 2) 1 (list 1 2))").expect("To be parsed ok");
    let program = lower_program(&node).expect("lowers");
    assert_eq!(program.len(), 1);
    match &program[0] {
        Expr::List(items) => {
            assert_eq!(items.len(), 3);
            assert!(matches!(items[0], Expr::List(_)));
            assert!(matches!(items[1], Expr::Atom(Atom::Int(1))));
            assert!(matches!(items[2], Expr::List(_)));
        },
        other => panic!("not a list: {:?}", other),
    }
}

#[test]
fn integration_case_1() {
    let g = lisp_grammar();
    let mut p = Parser::new();
    let node = p.parse(&g, "(begin (define r 10) (* pi (* r r)))").expect("parses");
    let program = lower_program(&node).expect("lowers");
    assert_eq!(program.len(), 1);
    match &program[0] {
        Expr::List(items) => {
            assert_eq!(items.len(), 3);
            assert!(matches!(items[1], Expr::DefineVariable(_, _)));
            assert!(matches!(items[2], Expr::List(_)));
        },
        other => panic!("not a list: {:?}", other),
    }
}

#[test]
fn multiple_top_level_expressions() {
    let g = lisp_grammar();
    let mut p = Parser::new();
    let node = p.parse(&g, "1 2 3").expect("parses");
    let program = lower_program(&node).expect("lowers");
    assert_eq!(program.len(), 3);
}

#[test]
fn syntax_error_on_unclosed_paren() {
    let g = lisp_grammar();
    let mut p = Parser::new();
    match p.parse(&g, "(+ 1") {
        Err(ParseError::Syntax { .. }) => {},
        other => panic!("expected a syntax error, got {:?}", other),
    }
}

#[test]
fn number_with_separator_is_reported() {
    let g = lisp_grammar();
    let mut p = Parser::new();
    match p.parse(&g, "(+ 1,5 1)") {
        Err(ParseError::Number { position }) => assert_eq!(position, 2),
        other => panic!("expected a number error, got {:?}", other),
    }
}

#[test]
fn lex_error_is_reported_by_parse() {
    let g = lisp_grammar();
    let mut p = Parser::new();
    match p.parse(&g, "(+ 1 #)") {
        Err(ParseError::Lex { position, fragment }) => {
            assert_eq!(position, 5);
            assert_eq!(fragment, '#');
        },
        other => panic!("expected a lex error, got {:?}", other),
    }
}

#[test]
fn parser_state_helpers() {
    let mut p = Parser::new();
    assert_eq!(p.index, 0);
    assert_eq!(p.get_backtrack_id(), 0);
    assert_eq!(p.get_backtrack_id(), 1);
    assert_eq!(p.backtrack_id, 2);
}

#[test]
fn engine_runs_any_table() {
    // a toy table: its start symbol is one number terminal
    let g = Grammar {
        rules: vec![vec![Alt {
            symbols: vec![Symbol::Terminal(TokenKind::Num)],
            hook: Hook::Keep,
        }]],
    };
    let mut p = Parser::new();
    let node = p.parse(&g, "41").expect("parses");
    assert_eq!(node.ntype, 0);
    assert_eq!(node.children.len(), 1);
    assert!(matches!(node.children[0].symbol_type, SymbolType::Num(41)));
    assert!(p.parse(&g, "x").is_err());
}
