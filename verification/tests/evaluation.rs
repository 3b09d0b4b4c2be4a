use lisp::Atom;
use lisp::Environment;
use lisp::EvalError;
use lisp::Expr;
use lisp::Operator;
use lisp::atoms_to_numbers;
use lisp::eval;
use lisp::exprs_to_numbers;
use lisp::parse;

const FUEL: u64 = 1000;

fn eval_line(text: &str, env: &mut Environment) -> Vec<Result<Expr, EvalError>> {
    let exprs = parse(text).expect("the line should parse");
    exprs.into_iter().map(|e| eval(e, env, FUEL)).collect()
}

fn eval_one(text: &str) -> Result<Expr, EvalError> {
    let mut env = Environment::new();
    eval_line(text, &mut env).pop().expect("one expression")
}

#[test]
fn addition_folds_all_operands() {
    let r = eval_one("(+ 1 2 3 4 5)").unwrap();
    assert!(matches!(r, Expr::Constant(Atom::Number(15))));
}

#[test]
fn subtraction_is_a_left_fold() {
    let r = eval_one("(- 10 3 2)").unwrap();
    assert!(matches!(r, Expr::Constant(Atom::Number(5))));
}

#[test]
fn subtraction_is_not_commutative() {
    let r = eval_one("(- 2 3 10)").unwrap();
    assert!(matches!(r, Expr::Constant(Atom::Number(-11))));
}

#[test]
fn division_truncates_toward_zero() {
    let r = eval_one("(/ 7 2)").unwrap();
    assert!(matches!(r, Expr::Constant(Atom::Number(3))));
    let r = eval_one("(/ 100 5 2)").unwrap();
    assert!(matches!(r, Expr::Constant(Atom::Number(10))));
}

#[test]
fn multiplication_folds() {
    let r = eval_one("(* 2 3 4)").unwrap();
    assert!(matches!(r, Expr::Constant(Atom::Number(24))));
}

#[test]
fn define_binds_and_later_expressions_see_it() {
    let mut env = Environment::new();
    let results = eval_line("(define x 5) (+ x 1)", &mut env);
    assert_eq!(results.len(), 2);
    assert!(matches!(results[0], Ok(Expr::Nil)));
    assert!(matches!(results[1], Ok(Expr::Constant(Atom::Number(6)))));
}

#[test]
fn quote_returns_the_argument_unevaluated() {
    let r = eval_one("(quote (+ 1 2))").unwrap();
    match r {
        Expr::Call(head, tail) => {
            assert!(matches!(*head, Expr::Constant(Atom::Operator(Operator::Plus))));
            assert_eq!(tail.len(), 2);
            assert!(matches!(tail[0], Expr::Constant(Atom::Number(1))));
            assert!(matches!(tail[1], Expr::Constant(Atom::Number(2))));
        },
        other => panic!("expected the unevaluated call, got {other:?}"),
    }
}

#[test]
fn quote_requires_exactly_one_argument() {
    assert!(matches!(eval_one("(quote 1 2)"), Err(EvalError::ArityError)));
    assert!(matches!(eval_one("(quote)"), Err(EvalError::ArityError)));
}

#[test]
fn car_returns_the_first_element() {
    let r = eval_one("(car (list 1 2 3))").unwrap();
    assert!(matches!(r, Expr::Constant(Atom::Number(1))));
}

#[test]
fn car_of_the_empty_list_is_nil() {
    let r = eval_one("(car (list))").unwrap();
    assert!(matches!(r, Expr::Nil));
}

#[test]
fn cdr_of_a_single_element_list_is_nil() {
    let r = eval_one("(cdr (list 1))").unwrap();
    assert!(matches!(r, Expr::Nil));
}

#[test]
fn cdr_drops_the_first_element() {
    let r = eval_one("(cdr (list 1 2 3))").unwrap();
    match r {
        Expr::List(items) => {
            assert_eq!(items.len(), 2);
            assert!(matches!(items[0], Expr::Constant(Atom::Number(2))));
            assert!(matches!(items[1], Expr::Constant(Atom::Number(3))));
        },
        other => panic!("expected a two-element list, got {other:?}"),
    }
}

#[test]
fn list_collects_evaluated_arguments() {
    let r = eval_one("(list (+ 1 2) 4)").unwrap();
    match r {
        Expr::List(items) => {
            assert_eq!(items.len(), 2);
            assert!(matches!(items[0], Expr::Constant(Atom::Number(3))));
            assert!(matches!(items[1], Expr::Constant(Atom::Number(4))));
        },
        other => panic!("expected a list, got {other:?}"),
    }
}

#[test]
fn lambda_applies_and_its_binding_does_not_survive() {
    let mut env = Environment::new();
    let results = eval_line("((lambda (x) (+ x 1)) 5)", &mut env);
    assert!(matches!(results[0], Ok(Expr::Constant(Atom::Number(6)))));
    let lookup = eval_line("x", &mut env);
    match &lookup[0] {
        Err(EvalError::UndefinedSymbol(name)) => assert_eq!(name, "x"),
        other => panic!("expected an undefined symbol, got {other:?}"),
    }
}

#[test]
fn define_inside_a_lambda_body_does_not_survive() {
    let mut env = Environment::new();
    let results = eval_line("((lambda (x) (define y 7)) 5)", &mut env);
    assert!(matches!(results[0], Ok(Expr::Nil)));
    assert!(matches!(
        eval_line("y", &mut env)[0],
        Err(EvalError::UndefinedSymbol(_))
    ));
    assert!(matches!(
        eval_line("x", &mut env)[0],
        Err(EvalError::UndefinedSymbol(_))
    ));
}

#[test]
fn lambda_sees_bindings_at_call_time() {
    let mut env = Environment::new();
    let results = eval_line("(define y 10) ((lambda (x) (+ x y)) 1)", &mut env);
    assert!(matches!(results[1], Ok(Expr::Constant(Atom::Number(11)))));
}

#[test]
fn lambda_pairs_parameters_with_the_shorter_sequence() {
    // Extra arguments are silently ignored.
    let r = eval_one("((lambda (x) x) 1 2)").unwrap();
    assert!(matches!(r, Expr::Constant(Atom::Number(1))));
    // Extra parameters stay unbound; a bound one still resolves.
    let r = eval_one("((lambda (x y) x) 1)").unwrap();
    assert!(matches!(r, Expr::Constant(Atom::Number(1))));
}

#[test]
fn computed_callee_is_applied() {
    let mut env = Environment::new();
    let results = eval_line("(define f (lambda (a b) (* a b))) (f 6 7)", &mut env);
    assert!(matches!(results[1], Ok(Expr::Constant(Atom::Number(42)))));
}

#[test]
fn operators_with_empty_tails_report_arity_errors() {
    for text in ["(+)", "(-)", "(/)", "(*)"] {
        assert!(matches!(eval_one(text), Err(EvalError::ArityError)), "{text}");
    }
}

#[test]
fn operator_on_a_non_number_is_a_type_mismatch() {
    assert!(matches!(eval_one("(+ 1 (list 2))"), Err(EvalError::TypeMismatch)));
}

#[test]
fn car_and_cdr_need_exactly_one_list() {
    assert!(matches!(eval_one("(car 5)"), Err(EvalError::TypeMismatch)));
    assert!(matches!(eval_one("(cdr 5)"), Err(EvalError::TypeMismatch)));
    assert!(matches!(eval_one("(car (list 1) (list 2))"), Err(EvalError::TypeMismatch)));
}

#[test]
fn a_number_is_an_invalid_callee() {
    assert!(matches!(eval_one("(5 1 2)"), Err(EvalError::InvalidCallee)));
}

#[test]
fn define_of_a_non_symbol_is_a_malformed_binding() {
    assert!(matches!(eval_one("(define 5 5)"), Err(EvalError::MalformedBinding)));
}

#[test]
fn non_symbol_lambda_parameter_fails_at_call_time() {
    assert!(matches!(
        eval_one("((lambda (5) 1) 2)"),
        Err(EvalError::MalformedBinding)
    ));
}

#[test]
fn division_by_zero_is_a_typed_failure() {
    assert!(matches!(eval_one("(/ 1 0)"), Err(EvalError::ArithmeticFailure)));
}

#[test]
fn overflow_is_a_typed_failure() {
    assert!(matches!(
        eval_one("(+ 9223372036854775807 1)"),
        Err(EvalError::ArithmeticFailure)
    ));
    assert!(matches!(
        eval_one("(* 9223372036854775807 2)"),
        Err(EvalError::ArithmeticFailure)
    ));
}

#[test]
fn an_undefined_symbol_reports_its_name() {
    match eval_one("nope") {
        Err(EvalError::UndefinedSymbol(name)) => assert_eq!(name, "nope"),
        other => panic!("expected an undefined symbol, got {other:?}"),
    }
}

#[test]
fn recursion_exhausts_the_fuel_instead_of_the_stack() {
    let mut env = Environment::new();
    let results = eval_line("(define f (lambda (x) (f x))) (f 1)", &mut env);
    assert!(matches!(results[1], Err(EvalError::Exhausted)));
}

#[test]
fn defines_in_arguments_apply_left_to_right() {
    let r = eval_one("(list (define x 1) x)").unwrap();
    match r {
        Expr::List(items) => {
            assert!(matches!(items[0], Expr::Nil));
            assert!(matches!(items[1], Expr::Constant(Atom::Number(1))));
        },
        other => panic!("expected a list, got {other:?}"),
    }
}

#[test]
fn environment_operations_round_trip() {
    let mut env = Environment::new();
    assert!(env.lookup(&"a".to_string()).is_none());
    env.bind("a".to_string(), Expr::Constant(Atom::Number(1)));
    assert!(matches!(
        env.lookup(&"a".to_string()),
        Some(Expr::Constant(Atom::Number(1)))
    ));
    let snap = env.snapshot();
    env.bind("a".to_string(), Expr::Constant(Atom::Number(2)));
    env.bind("b".to_string(), Expr::Nil);
    env.restore(snap);
    assert!(matches!(
        env.lookup(&"a".to_string()),
        Some(Expr::Constant(Atom::Number(1)))
    ));
    assert!(env.lookup(&"b".to_string()).is_none());
}

#[test]
fn exprs_to_numbers_reads_numeric_constants() {
    let exprs = vec![
        Expr::Constant(Atom::Number(3)),
        Expr::Constant(Atom::Number(-4)),
    ];
    assert_eq!(exprs_to_numbers(&exprs).unwrap(), vec![3, -4]);
    let mixed = vec![Expr::Constant(Atom::Number(3)), Expr::Nil];
    assert!(matches!(exprs_to_numbers(&mixed), Err(EvalError::TypeMismatch)));
}

#[test]
fn atoms_to_numbers_reads_numbers() {
    let atoms = vec![Atom::Number(1), Atom::Number(2)];
    assert_eq!(atoms_to_numbers(&atoms).unwrap(), vec![1, 2]);
    let mixed = vec![Atom::Number(1), Atom::Operator(Operator::Plus)];
    assert!(matches!(atoms_to_numbers(&mixed), Err(EvalError::TypeMismatch)));
}

#[test]
fn zero_fuel_reports_exhaustion() {
    let mut env = Environment::new();
    let r = eval(Expr::Nil, &mut env, 0);
    assert!(matches!(r, Err(EvalError::Exhausted)));
}

#[test]
fn a_failing_expression_does_not_stop_later_ones() {
    let mut env = Environment::new();
    let results = eval_line("(/ 1 0) (+ 1 1)", &mut env);
    assert!(matches!(results[0], Err(EvalError::ArithmeticFailure)));
    assert!(matches!(results[1], Ok(Expr::Constant(Atom::Number(2)))));
}

#[test]
fn define_effects_before_a_failure_remain() {
    let mut env = Environment::new();
    let results = eval_line("(define x 1) (define y nope) x", &mut env);
    assert!(matches!(results[0], Ok(Expr::Nil)));
    assert!(matches!(results[1], Err(EvalError::UndefinedSymbol(_))));
    assert!(matches!(results[2], Ok(Expr::Constant(Atom::Number(1)))));
}
