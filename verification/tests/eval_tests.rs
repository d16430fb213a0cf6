use frd_lisp::ast::{lower_program, Atom, Expr};
use frd_lisp::env::Env;
use frd_lisp::eval::{eval, eval_expression, eval_program, EvalError, ProgramError, EVAL_FUEL};
use frd_lisp::grammar::lisp_grammar;
use frd_lisp::lisp_value::{render_value, LispValue};
use frd_lisp::parser::Parser;

fn ints(results: &[Result<LispValue, EvalError>]) -> Vec<Option<i64>> {
    results
        .iter()
        .map(|r| match r {
            Ok(LispValue::Int(n)) => Some(*n),
            _ => None,
        })
        .collect()
}

#[test]
fn main_main_test() {}

#[test]
fn addition() {
    let rs = eval("(+ 1 2)").expect("front end accepts");
    assert_eq!(rs.len(), 1);
    assert!(matches!(rs[0], Ok(LispValue::Int(3))));
}

#[test]
fn two_additions() {
    let rs = eval("(+ 1 2) (+ 3 2)").expect("front end accepts");
    assert_eq!(ints(&rs), vec![Some(3), Some(5)]);
}

#[test]
fn define_function_and_call() {
    let rs = eval("(define (sq x) (* x x)) (sq 5)").expect("front end accepts");
    assert_eq!(rs.len(), 2);
    assert!(matches!(rs[0], Ok(LispValue::Nill)));
    assert!(matches!(rs[1], Ok(LispValue::Int(25))));
}

#[test]
fn conditional_with_else() {
    let rs = eval("(if (= 1 1) 10 20)").expect("front end accepts");
    assert!(matches!(rs[0], Ok(LispValue::Int(10))));
    let rs = eval("(if (= 1 2) 10 20)").expect("front end accepts");
    assert!(matches!(rs[0], Ok(LispValue::Int(20))));
}

#[test]
fn conditional_without_else_is_nil() {
    let rs = eval("(if (= 1 2) 10)").expect("front end accepts");
    assert!(matches!(rs[0], Ok(LispValue::Nill)));
}

#[test]
fn booleans_compare() {
    let rs = eval("(= true true)").expect("front end accepts");
    assert!(matches!(rs[0], Ok(LispValue::Bool(true))));
    let rs = eval("(= true false)").expect("front end accepts");
    assert!(matches!(rs[0], Ok(LispValue::Bool(false))));
}

#[test]
fn define_variable() {
    let rs = eval("(define myVar (+ 3 2)) myVar").expect("front end accepts");
    assert!(matches!(rs[0], Ok(LispValue::Nill)));
    assert!(matches!(rs[1], Ok(LispValue::Int(5))));
}

#[test]
fn inner_define_is_invisible_after_return() {
    let rs = eval("(define (mk) (define hidden 42) hidden) (mk) hidden")
        .expect("front end accepts");
    assert_eq!(rs.len(), 3);
    assert!(matches!(rs[0], Ok(LispValue::Nill)));
    assert!(matches!(rs[1], Ok(LispValue::Int(42))));
    match &rs[2] {
        Err(EvalError::Unbound(name)) => {
            assert_eq!(name.iter().collect::<String>(), "hidden");
        },
        other => panic!("hidden leaked: {:?}", other),
    }
}

#[test]
fn free_variables_resolve_lexically_not_dynamically() {
    // getx captures the global frame; the x defined inside shadow's call
    // frame must not be seen by it
    let rs = eval(
        "(define x 1) (define (getx) x) (define (shadow) (define x 2) (getx)) (shadow) x",
    )
    .expect("front end accepts");
    assert_eq!(rs.len(), 5);
    assert!(matches!(rs[3], Ok(LispValue::Int(1))));
    assert!(matches!(rs[4], Ok(LispValue::Int(1))));
}

#[test]
fn front_end_accepts_plain_programs() {
    let sources = vec![
        "(+ 1 2) (+ 3 2)",
        "(= true true)",
        "(define (myFn x) (+ x 2))",
        "(define (myFn x) (+ x 2)) (myFn 4)",
        "(define myVar (+ 3 2))",
        "(if (= true true) (+ 1 2) (+ 3 4))",
    ];
    for source in &sources {
        let rs = eval(source).expect("front end accepts");
        for r in &rs {
            assert!(r.is_ok(), "source {:?} gave {:?}", source, r);
        }
    }
}

#[test]
fn callee_is_evaluated_as_an_expression() {
    let rs = eval("((if (= 1 1) + *) 4 5)").expect("front end accepts");
    assert!(matches!(rs[0], Ok(LispValue::Int(9))));
    let rs = eval("((if (= 1 2) + *) 4 5)").expect("front end accepts");
    assert!(matches!(rs[0], Ok(LispValue::Int(20))));
}

#[test]
fn closure_escapes_its_defining_call() {
    // the returned function keeps resolving n against the frame of the call
    // that made it, long after that call returned
    let rs = eval(
        "(define (mkadder n) (define (add x) (+ x n)) add) (define add2 (mkadder 2)) (add2 5)",
    )
    .expect("front end accepts");
    assert_eq!(rs.len(), 3);
    assert!(matches!(rs[2], Ok(LispValue::Int(7))));
}

#[test]
fn error_isolation() {
    let rs = eval("(+ y 1) (+ 1 1)").expect("front end accepts");
    assert_eq!(rs.len(), 2);
    match &rs[0] {
        Err(EvalError::Unbound(name)) => assert_eq!(name.iter().collect::<String>(), "y"),
        other => panic!("expected unbound, got {:?}", other),
    }
    assert!(matches!(rs[1], Ok(LispValue::Int(2))));
}

#[test]
fn fibonacci_accumulation() {
    let src = "(define (fib n) (if (= n 1) 1 (if (= n 2) 1 (+ (fib (- n 1)) (fib (- n 2)))))) \
               (fib 1) (fib 2) (fib 3) (fib 4) (fib 5) (fib 6) (fib 7)";
    let rs = eval(src).expect("front end accepts");
    assert_eq!(rs.len(), 8);
    assert!(matches!(rs[0], Ok(LispValue::Nill)));
    assert_eq!(
        ints(&rs)[1..].to_vec(),
        vec![Some(1), Some(1), Some(2), Some(3), Some(5), Some(8), Some(13)]
    );
}

#[test]
fn session_state_persists_across_programs() {
    let g = lisp_grammar();
    let mut env = Env::new_global();
    let mut run = |src: &str| {
        let mut p = Parser::new();
        let node = p.parse(&g, src).expect("parses");
        let exprs = lower_program(&node).expect("lowers");
        eval_program(&exprs, &mut env, 0, EVAL_FUEL)
    };
    let rs = run("(define acc 3)");
    assert!(matches!(rs[0], Ok(LispValue::Nill)));
    let rs = run("(+ acc 4)");
    assert!(matches!(rs[0], Ok(LispValue::Int(7))));
}

#[test]
fn empty_parens_are_nil() {
    let rs = eval("()").expect("front end accepts");
    assert!(matches!(rs[0], Ok(LispValue::Nill)));
}

#[test]
fn intrinsic_identities_and_arity() {
    let rs = eval("(+) (*) (=)").expect("front end accepts");
    assert!(matches!(rs[0], Ok(LispValue::Int(0))));
    assert!(matches!(rs[1], Ok(LispValue::Int(1))));
    assert!(matches!(rs[2], Ok(LispValue::Bool(true))));
    let rs = eval("(-)").expect("front end accepts");
    assert!(matches!(rs[0], Err(EvalError::Arity { expected: 1, got: 0 })));
}

#[test]
fn subtraction_and_truncating_division() {
    let rs = eval("(- 10 3 2) (- 5) (/ 7 2) (/ (- 0 7) 2)").expect("front end accepts");
    assert_eq!(ints(&rs), vec![Some(5), Some(-5), Some(3), Some(-3)]);
}

#[test]
fn division_by_zero() {
    let rs = eval("(/ 1 0)").expect("front end accepts");
    assert!(matches!(rs[0], Err(EvalError::DivideByZero)));
}

#[test]
fn arithmetic_overflow_is_an_error() {
    let rs = eval("(+ 9223372036854775807 1)").expect("front end accepts");
    assert!(matches!(rs[0], Err(EvalError::Overflow)));
}

#[test]
fn calling_a_number_fails() {
    let rs = eval("(1 2)").expect("front end accepts");
    assert!(matches!(rs[0], Err(EvalError::NotCallable)));
}

#[test]
fn wrong_argument_count_is_an_arity_error() {
    let rs = eval("(define (f x) x) (f 1 2)").expect("front end accepts");
    assert!(matches!(rs[1], Err(EvalError::Arity { expected: 1, got: 2 })));
}

#[test]
fn non_boolean_test_is_an_error() {
    let rs = eval("(if 1 2 3)").expect("front end accepts");
    assert!(matches!(rs[0], Err(EvalError::NotBoolean)));
}

#[test]
fn arithmetic_on_a_boolean_is_an_error() {
    let rs = eval("(+ true 1)").expect("front end accepts");
    assert!(matches!(rs[0], Err(EvalError::NotNumber)));
}

#[test]
fn comparing_a_function_is_an_error() {
    let rs = eval("(define (f x) x) (= f 1)").expect("front end accepts");
    assert!(matches!(rs[1], Err(EvalError::NotComparable)));
}

#[test]
fn malformed_define_is_a_front_end_error() {
    match eval("(define)") {
        Err(ProgramError::Lower(_)) => {},
        other => panic!("expected a lowering error, got {:?}", other),
    }
}

#[test]
fn values_render_as_tags_and_decimals() {
    let render = |src: &str| -> String {
        let rs = eval(src).expect("front end accepts");
        match rs.last().unwrap() {
            Ok(v) => render_value(v).iter().collect(),
            Err(e) => panic!("evaluation failed: {:?}", e),
        }
    };
    assert_eq!(render("(define x 1)"), "Nill");
    assert_eq!(render("(+ 2 11)"), "13");
    assert_eq!(render("(- 0 13)"), "-13");
    assert_eq!(render("(= 1 1)"), "true");
    assert_eq!(render("(= 1 2)"), "false");
    assert_eq!(render("(define (f x) x) f"), "<function>");
    assert_eq!(render("+"), "<intrinsic>");
    assert_eq!(render("100"), "100");
}

#[test]
fn exhausted_fuel_is_an_error() {
    let mut env = Env::new_global();
    let r = eval_expression(&Expr::Atom(Atom::Int(1)), &mut env, 0, 0);
    assert!(matches!(r, Err(EvalError::OutOfFuel)));
}
