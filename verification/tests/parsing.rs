use lisp::Atom;
use lisp::Environment;
use lisp::Expr;
use lisp::Operator;
use lisp::ParseError;
use lisp::eval;
use lisp::parse;
use lisp::print_expr;

#[test]
fn a_bare_atom_is_a_constant() {
    let exprs = parse("42").unwrap();
    assert_eq!(exprs.len(), 1);
    assert!(matches!(exprs[0], Expr::Constant(Atom::Number(42))));
}

#[test]
fn several_expressions_parse_in_order() {
    let exprs = parse(" 1  two (+ 3 4) ").unwrap();
    assert_eq!(exprs.len(), 3);
    assert!(matches!(exprs[0], Expr::Constant(Atom::Number(1))));
    match &exprs[1] {
        Expr::Constant(Atom::Symbol(name)) => assert_eq!(name, "two"),
        other => panic!("expected a symbol, got {other:?}"),
    }
    assert!(matches!(exprs[2], Expr::Call(_, _)));
}

#[test]
fn define_parses_as_a_binding_form() {
    let exprs = parse("(define x 5)").unwrap();
    match &exprs[0] {
        Expr::Define(name, value) => {
            assert!(matches!(name, Atom::Symbol(n) if n == "x"));
            assert!(matches!(**value, Expr::Constant(Atom::Number(5))));
        },
        other => panic!("expected a define form, got {other:?}"),
    }
}

#[test]
fn lambda_parses_with_parameters_and_body() {
    let exprs = parse("(lambda (x y) (+ x y))").unwrap();
    match &exprs[0] {
        Expr::Lambda(params, body) => {
            assert_eq!(params.len(), 2);
            assert!(matches!(&params[0], Atom::Symbol(n) if n == "x"));
            assert!(matches!(&params[1], Atom::Symbol(n) if n == "y"));
            assert!(matches!(**body, Expr::Call(_, _)));
        },
        other => panic!("expected a lambda, got {other:?}"),
    }
}

#[test]
fn builtin_words_are_reserved_before_symbols() {
    let exprs = parse("quote list car cdr").unwrap();
    assert!(matches!(exprs[0], Expr::Constant(Atom::Quote)));
    assert!(matches!(exprs[1], Expr::Constant(Atom::List)));
    assert!(matches!(exprs[2], Expr::Constant(Atom::Car)));
    assert!(matches!(exprs[3], Expr::Constant(Atom::Cdr)));
}

#[test]
fn builtin_words_match_as_plain_prefixes() {
    // "quotex" reads as the reserved word followed by a one-letter symbol.
    let exprs = parse("quotex").unwrap();
    assert_eq!(exprs.len(), 2);
    assert!(matches!(exprs[0], Expr::Constant(Atom::Quote)));
    assert!(matches!(&exprs[1], Expr::Constant(Atom::Symbol(n)) if n == "x"));
}

#[test]
fn the_define_word_needs_no_following_space() {
    // "(definex 5)" reads as a define of the symbol "x".
    let exprs = parse("(definex 5)").unwrap();
    match &exprs[0] {
        Expr::Define(name, _) => assert!(matches!(name, Atom::Symbol(n) if n == "x")),
        other => panic!("expected a define form, got {other:?}"),
    }
}

#[test]
fn a_space_after_the_open_parenthesis_makes_a_call() {
    // "( define x 5)" is a generic call whose head is the symbol "define".
    let exprs = parse("( define x 5)").unwrap();
    match &exprs[0] {
        Expr::Call(head, tail) => {
            assert!(matches!(&**head, Expr::Constant(Atom::Symbol(n)) if n == "define"));
            assert_eq!(tail.len(), 2);
        },
        other => panic!("expected a call, got {other:?}"),
    }
}

#[test]
fn operators_parse_alone_and_in_calls() {
    let exprs = parse("+ - / *").unwrap();
    assert!(matches!(exprs[0], Expr::Constant(Atom::Operator(Operator::Plus))));
    assert!(matches!(exprs[1], Expr::Constant(Atom::Operator(Operator::Minus))));
    assert!(matches!(exprs[2], Expr::Constant(Atom::Operator(Operator::Divide))));
    assert!(matches!(exprs[3], Expr::Constant(Atom::Operator(Operator::Multiply))));
}

#[test]
fn empty_and_blank_lines_do_not_parse() {
    assert!(matches!(parse(""), Err(ParseError::NoMatch { at: 0 })));
    assert!(matches!(parse("   "), Err(ParseError::NoMatch { at: 0 })));
}

#[test]
fn an_unclosed_call_does_not_parse() {
    assert!(matches!(parse("(+ 1"), Err(ParseError::NoMatch { at: 0 })));
}

#[test]
fn trailing_input_is_rejected_with_its_position() {
    assert!(matches!(parse("1 2)"), Err(ParseError::Trailing { at: 3 })));
}

#[test]
fn an_oversized_number_does_not_parse() {
    // Twenty digits exceed the fixed-width range.
    assert!(matches!(
        parse("99999999999999999999"),
        Err(ParseError::NoMatch { at: 0 })
    ));
    // The largest representable value still parses.
    let exprs = parse("9223372036854775807").unwrap();
    assert!(matches!(exprs[0], Expr::Constant(Atom::Number(9223372036854775807))));
}

#[test]
fn an_overlong_line_is_reported_as_too_long() {
    let line = "a".repeat(5000);
    assert!(matches!(parse(&line), Err(ParseError::TooLong)));
}

#[test]
fn printing_a_parsed_lambda_reads_the_same() {
    let exprs = parse("(lambda (x) (+ x 1))").unwrap();
    assert_eq!(print_expr(&exprs[0]), "(lambda (x) (+ x 1))");
}

#[test]
fn printing_covers_every_form() {
    let exprs = parse("(define x (quote (list 1 2)))").unwrap();
    assert_eq!(print_expr(&exprs[0]), "(define x (quote (list 1 2)))");
    assert_eq!(print_expr(&Expr::Nil), "Nil");
    assert_eq!(print_expr(&Expr::Constant(Atom::Number(-7))), "-7");
}

#[test]
fn printed_numbers_parse_back_to_the_same_value() {
    for n in [0i64, 7, 10, 12345, 9223372036854775807] {
        let text = print_expr(&Expr::Constant(Atom::Number(n)));
        let exprs = parse(&text).unwrap();
        assert_eq!(exprs.len(), 1);
        match exprs[0] {
            Expr::Constant(Atom::Number(back)) => assert_eq!(back, n),
            ref other => panic!("expected a number, got {other:?}"),
        }
    }
}

#[test]
fn an_evaluated_list_prints_in_list_form() {
    let mut env = Environment::new();
    let exprs = parse("(list 1 (+ 1 1))").unwrap();
    let value = eval(exprs.into_iter().next().unwrap(), &mut env, 1000).unwrap();
    assert_eq!(print_expr(&value), "(list 1 2)");
}

#[test]
fn a_lambda_without_a_space_before_its_body_is_a_call() {
    // "(lambda (x)(+ x 1))" misses the required whitespace, so the lambda
    // rule fails and the form reads as a generic call headed by a symbol.
    let exprs = parse("(lambda (x)(+ x 1))").unwrap();
    assert!(matches!(exprs[0], Expr::Call(_, _)));
}
