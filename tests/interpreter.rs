use minilisp::{evaluate, is_number_literal, parse, run, tokenize, Environment, Expression, LispError, Number, Truth, Value};

fn number(n: &Number) -> f64 {
    match n {
        Number::Literal(s) => s.parse::<f64>().unwrap(),
        Number::Zero => 0.0,
        Number::One => 1.0,
        Number::Add(a, b) => number(a) + number(b),
        Number::Sub(a, b) => number(a) - number(b),
        Number::Mul(a, b) => number(a) * number(b),
        Number::Div(a, b) => number(a) / number(b),
        Number::Neg(a) => -number(a),
    }
}

fn truth(t: &Truth) -> bool {
    match t {
        Truth::Literal(b) => *b,
        Truth::Less(a, b) => number(a) < number(b),
        Truth::Greater(a, b) => number(a) > number(b),
    }
}

fn first(code: &str) -> Result<Value, LispError> {
    run(code.to_owned()).unwrap().into_iter().next().unwrap()
}

fn num_of(code: &str) -> f64 {
    match first(code) {
        Ok(Value::Num(n)) => number(&n),
        other => panic!("not a number: {:?}", other),
    }
}

fn bool_of(code: &str) -> bool {
    match first(code) {
        Ok(Value::Bool(t)) => truth(&t),
        other => panic!("not a truth value: {:?}", other),
    }
}

fn strings(v: &[&str]) -> Vec<String> {
    v.iter().map(|s| s.to_string()).collect()
}

#[test]
fn minus() {
    assert_eq!(num_of("(- 1 1)"), 0.0);
    assert_eq!(num_of("(- 1)"), -1.0);
}

#[test]
fn add_1_1() {
    assert_eq!(num_of("(+ 1 1)"), 2.0);
}

#[test]
fn pemdas() {
    assert_eq!(num_of("(+ 1 1 (* 3 3) (- 2 1) (/ 4 2) (+ 2 2 2))"), 20.0);
}

#[test]
fn greater() {
    assert_eq!(bool_of("(> 1 2)"), false);
    assert_eq!(bool_of("(> 1 (+ 1 1))"), false);
    assert_eq!(bool_of("(> (- 2 1) (+ 1 1))"), false);
    assert_eq!(bool_of("(> 2 1)"), true);
    assert_eq!(bool_of("(> 5 (+ 1 1))"), true);
    assert_eq!(bool_of("(> (+ 2 1) (+ 1 1))"), true);
}

#[test]
fn less() {
    assert_eq!(bool_of("(< 5 2)"), false);
    assert_eq!(bool_of("(< 20 (+ 1 1))"), false);
    assert_eq!(bool_of("(< (+ 2 1) (+ 1 1))"), false);
    assert_eq!(bool_of("(< 10 100)"), true);
    assert_eq!(bool_of("(< (- 5) (+ 1 1))"), true);
    assert_eq!(bool_of("(< (+ 2 1) (* 5 3))"), true);
}

#[test]
fn tokenize_splits_parentheses_and_whitespace() {
    assert_eq!(tokenize("(+ 1 (* 2 3))".to_owned()), strings(&["(", "+", "1", "(", "*", "2", "3", ")", ")"]));
    assert_eq!(tokenize("  (a)b\t\n c ".to_owned()), strings(&["(", "a", ")", "b", "c"]));
    assert_eq!(tokenize("".to_owned()), Vec::<String>::new());
    assert_eq!(tokenize("   ".to_owned()), Vec::<String>::new());
}

#[test]
fn tokenize_unicode_whitespace() {
    assert_eq!(tokenize("x\u{3000}y\u{a0}(z)".to_owned()), strings(&["x", "y", "(", "z", ")"]));
}

#[test]
fn parse_builds_calls_and_atoms() {
    let es = parse("(f 1.5 true false hi (g))".to_owned()).unwrap();
    assert_eq!(
        es,
        vec![Expression::Func(
            "f".to_owned(),
            vec![
                Expression::Num("1.5".to_owned()),
                Expression::Bool(true),
                Expression::Bool(false),
                Expression::String("hi".to_owned()),
                Expression::Func("g".to_owned(), vec![]),
            ]
        )]
    );
}

#[test]
fn parse_skips_stray_top_level_tokens() {
    let es = parse("1 ) (+ 1) x (- 2)".to_owned()).unwrap();
    assert_eq!(es.len(), 2);
    assert_eq!(parse("".to_owned()).unwrap(), vec![]);
}

#[test]
fn parse_accepts_any_name_token() {
    let es = parse("(( 1)".to_owned()).unwrap();
    assert_eq!(es, vec![Expression::Func("(".to_owned(), vec![Expression::Num("1".to_owned())])]);
}

#[test]
fn unterminated_group() {
    assert_eq!(parse("(+ 1 1".to_owned()), Err(LispError::UnterminatedGroup));
    assert_eq!(run("(+ 1 1".to_owned()), Err(LispError::UnterminatedGroup));
    assert_eq!(run("(+ 1 1 (".to_owned()), Err(LispError::UnterminatedGroup));
    assert_eq!(parse("(".to_owned()), Err(LispError::UnterminatedGroup));
}

#[test]
fn unknown_operation() {
    assert_eq!(first("(foo 1 2)"), Err(LispError::UnknownOperation("foo".to_owned())));
}

#[test]
fn arity_mismatch() {
    assert_eq!(first("(-)"), Err(LispError::ArityMismatch));
    assert_eq!(first("(/)"), Err(LispError::ArityMismatch));
    assert_eq!(first("(< 1)"), Err(LispError::ArityMismatch));
    assert_eq!(first("(> 1 2 3)"), Err(LispError::ArityMismatch));
}

#[test]
fn type_mismatch() {
    assert_eq!(first("(+ 1 true)"), Err(LispError::TypeMismatch));
    assert_eq!(first("(* hello 2)"), Err(LispError::TypeMismatch));
    assert_eq!(first("(- 1 (< 1 2))"), Err(LispError::TypeMismatch));
    assert_eq!(first("(< x 1)"), Err(LispError::TypeMismatch));
}

#[test]
fn first_error_wins() {
    assert_eq!(first("(+ (foo) true)"), Err(LispError::UnknownOperation("foo".to_owned())));
    assert_eq!(first("(+ true (foo))"), Err(LispError::TypeMismatch));
}

#[test]
fn siblings_are_independent() {
    let rs = run("(foo) (+ 2 3) (-)".to_owned()).unwrap();
    assert_eq!(rs.len(), 3);
    assert_eq!(rs[0], Err(LispError::UnknownOperation("foo".to_owned())));
    match &rs[1] {
        Ok(Value::Num(n)) => assert_eq!(number(n), 5.0),
        other => panic!("{:?}", other),
    }
    assert_eq!(rs[2], Err(LispError::ArityMismatch));
}

#[test]
fn empty_sum_and_product() {
    assert_eq!(first("(+)"), Ok(Value::Num(Number::Zero)));
    assert_eq!(first("(*)"), Ok(Value::Num(Number::One)));
    assert_eq!(num_of("(+ 7)"), 7.0);
    assert_eq!(num_of("(* 7)"), 7.0);
}

#[test]
fn subtraction_and_division_go_left_to_right() {
    assert_eq!(num_of("(- 10 1 2 3)"), 4.0);
    assert_eq!(num_of("(/ 100 5 2)"), 10.0);
    assert_eq!(num_of("(/ 8)"), 8.0);
    assert_eq!(num_of("(/ 1 0)"), f64::INFINITY);
    assert!(num_of("(/ 0 0)").is_nan());
    assert_eq!(
        first("(- 9 4 1)"),
        Ok(Value::Num(Number::Sub(
            Box::new(Number::Sub(Box::new(Number::Literal("9".to_owned())), Box::new(Number::Literal("4".to_owned())))),
            Box::new(Number::Literal("1".to_owned())),
        )))
    );
}

#[test]
fn commutative_sum_and_product() {
    assert_eq!(num_of("(+ 1.5 2.25)"), num_of("(+ 2.25 1.5)"));
    assert_eq!(num_of("(* 3 0.5)"), num_of("(* 0.5 3)"));
    assert_eq!(num_of("(+ (+ 1 2) 3)"), num_of("(+ 1 (+ 2 3))"));
}

#[test]
fn comparisons_mirror_and_are_strict() {
    assert_eq!(bool_of("(< 1 2)"), bool_of("(> 2 1)"));
    assert_eq!(bool_of("(< 2 1)"), bool_of("(> 1 2)"));
    assert_eq!(bool_of("(< 3 3)"), false);
    assert_eq!(bool_of("(> 3 3)"), false);
}

#[test]
fn literals_evaluate_to_themselves() {
    let env = Environment::default();
    assert_eq!(
        evaluate(Expression::Num("2.5".to_owned()), &env),
        Ok(Value::Num(Number::Literal("2.5".to_owned())))
    );
    assert_eq!(evaluate(Expression::Bool(true), &env), Ok(Value::Bool(Truth::Literal(true))));
    assert_eq!(evaluate(Expression::String("x".to_owned()), &env), Ok(Value::String("x".to_owned())));
    let l = vec![Expression::Func("nope".to_owned(), vec![])];
    assert_eq!(evaluate(Expression::List(l), &env), Ok(Value::List(vec![Expression::Func("nope".to_owned(), vec![])])));
}

#[test]
fn number_literals() {
    for s in ["1", "-1", "+2.5", "1.", ".5", "1e10", "1E-3", "2.5e+4", "inf", "-Infinity", "NaN", "nAn"] {
        assert!(is_number_literal(s), "{}", s);
        assert!(s.parse::<f64>().is_ok(), "{}", s);
    }
    for s in ["", "+", ".", "e5", "1e", "1.2.3", "--1", "1e+", "abc", "infin", "1x", "1e5.0", "true"] {
        assert!(!is_number_literal(s), "{}", s);
        assert!(s.parse::<f64>().is_err(), "{}", s);
    }
}

#[test]
fn exponent_literal_evaluates() {
    assert_eq!(num_of("(+ 1e2 -2.5)"), 97.5);
}
