use risp::eval::{default_env, eval_line, Evaluator, ExprEnv};
use risp::lexer::Lexer;
use risp::parser::Parser;

fn run(tests: Vec<(&str, &str)>) {
    let mut evaluator = Evaluator::new();
    let mut env = default_env();
    for (i, test) in tests.iter().enumerate() {
        let l = Lexer::new(test.0.to_string());
        let mut p = Parser::new(l);
        let expr = p.parse().unwrap();
        let result = evaluator.eval(&expr, &mut env).unwrap();
        assert_eq!(
            result.render(),
            test.1,
            "test[{}] fail: got={}, want={}",
            i,
            result.render(),
            test.1
        );
    }
}

fn run_one(evaluator: &mut Evaluator, env: &mut ExprEnv, line: &str) -> Result<String, String> {
    let l = Lexer::new(line.to_string());
    let mut p = Parser::new(l);
    match p.parse() {
        Ok(expr) => match evaluator.eval(&expr, env) {
            Ok(result) => Ok(result.render()),
            Err(e) => Err(e.message()),
        },
        Err(e) => Err(e.message()),
    }
}

#[test]
fn eval_basic_atom() {
    // Numeric literals with a fractional part are cut to their integer part.
    run(vec![
        ("1.5", "1"),
        ("10.5", "10"),
        ("1", "1"),
        ("10", "10"),
        ("-10", "-10"),
        ("\"hello world\"", "hello world"),
        ("\"hello1234\"", "hello1234"),
        ("\"123\"", "123"),
    ]);
}

#[test]
fn eval_calc() {
    run(vec![
        ("(* 10 10)", "100"),
        ("(- 20 10)", "10"),
        ("(+ -10 5)", "-5"),
        ("(* 10 5)", "50"),
        ("(/ 10 5)", "2"),
        ("(* 1 2 3 4)", "24"),
        ("(+ 1 2 3 4)", "10"),
        ("(+ 1 2 (* 1 3))", "6"),
        ("(+ (* 1 2) (- 3 4))", "1"),
        ("(+ (* 1 2) 1)", "3"),
        ("(+ 1 (- 10 (* 10 50)))", "-489"),
    ]);
}

#[test]
fn eval_symbol() {
    run(vec![
        ("(setq a 10)", "10"),
        ("(setq b (+ 1 2))", "3"),
        ("a", "10"),
        ("b", "3"),
        ("(+ 5 a)", "15"),
        ("(+ 5 a (+ 1 (+ 1 1)))", "18"),
        ("(+ a 5)", "15"),
        ("(+ b (+ 5 4))", "12"),
        ("(+ (+ 5 4) a)", "19"),
    ]);
}

#[test]
fn eval_func() {
    run(vec![
        ("(defun add (a b) (+ a b))", "ADD"),
        ("(add 10 5)", "15"),
        ("(defun div (a b) (/ a b))", "DIV"),
        ("(div 10 5)", "2"),
        ("(setq a 5)", "5"),
        ("(add a 5)", "10"),
        ("(defun half (x) (/ x 2))", "HALF"),
        ("(defun medium (x y) (half (+ x y)))", "MEDIUM"),
        ("(medium 2 4)", "3"),
    ])
}

#[test]
fn eval_truncating_division() {
    run(vec![
        ("(/ 7 2)", "3"),
        ("(/ -7 2)", "-3"),
        ("(/ 7 -2)", "-3"),
        ("(/ -7 -2)", "3"),
        ("(/ 100 10 5)", "2"),
    ]);
}

#[test]
fn eval_self_evaluating() {
    run(vec![("t", "T"), ("nil", "NIL"), ("\"Case Kept\"", "Case Kept")]);
}

#[test]
fn eval_rebinding_overwrites() {
    run(vec![
        ("(setq a 10)", "10"),
        ("a", "10"),
        ("(setq a 20)", "20"),
        ("a", "20"),
        ("(setq a (+ a 1))", "21"),
        ("a", "21"),
    ]);
}

#[test]
fn eval_scoping_isolation() {
    // A call's parameter bindings shadow the caller's names inside the
    // call's own copy of the environment and never leak back out.
    run(vec![
        ("(setq a 5)", "5"),
        ("(defun add (a b) (+ a b))", "ADD"),
        ("(add 1 2)", "3"),
        ("a", "5"),
    ]);
}

#[test]
fn eval_error_surfacing() {
    let mut evaluator = Evaluator::new();
    let mut env = default_env();
    assert_eq!(
        run_one(&mut evaluator, &mut env, "(defun add (a b) (+ a b))").unwrap(),
        "ADD"
    );
    assert!(run_one(&mut evaluator, &mut env, "(add)").is_err());
    assert!(run_one(&mut evaluator, &mut env, "undefinedname").is_err());
    // the session survives both failures
    assert_eq!(run_one(&mut evaluator, &mut env, "(add 10 5)").unwrap(), "15");
}

#[test]
fn eval_unknown_symbol_reports() {
    let mut evaluator = Evaluator::new();
    let mut env = default_env();
    let msg = run_one(&mut evaluator, &mut env, "undefinedname").unwrap_err();
    assert!(msg.contains("not found symbol: UNDEFINEDNAME"));
}

#[test]
fn eval_error_messages() {
    let mut evaluator = Evaluator::new();
    let mut env = default_env();
    assert_eq!(
        run_one(&mut evaluator, &mut env, "(/ 10 0)").unwrap_err(),
        "division by zero"
    );
    assert_eq!(
        run_one(&mut evaluator, &mut env, "(+ 9223372036854775807 1)").unwrap_err(),
        "arithmetic overflow"
    );
    assert_eq!(
        run_one(&mut evaluator, &mut env, "(* 9223372036854775807 2)").unwrap_err(),
        "arithmetic overflow"
    );
    assert_eq!(
        run_one(&mut evaluator, &mut env, "(/ -9223372036854775808 -1)").unwrap_err(),
        "arithmetic overflow"
    );
    assert_eq!(
        run_one(&mut evaluator, &mut env, "()").unwrap_err(),
        "expected at least one number"
    );
    assert_eq!(
        run_one(&mut evaluator, &mut env, "(+ 1 \"x\")").unwrap_err(),
        "x is not number"
    );
    assert_eq!(
        run_one(&mut evaluator, &mut env, "(+)").unwrap_err(),
        "expected at least one number"
    );
    assert_eq!(
        run_one(&mut evaluator, &mut env, "(setq)").unwrap_err(),
        "expected first arg"
    );
    assert_eq!(
        run_one(&mut evaluator, &mut env, "(setq 1 2)").unwrap_err(),
        "first arg must be symbol"
    );
    assert_eq!(
        run_one(&mut evaluator, &mut env, "(setq a)").unwrap_err(),
        "expected second arg"
    );
    assert_eq!(
        run_one(&mut evaluator, &mut env, "(defun f (a))").unwrap_err(),
        "unexpected function definition"
    );
    assert_eq!(
        run_one(&mut evaluator, &mut env, "(defun f (1 b) (+ 1 b))").unwrap_err(),
        "1 is not symbol"
    );
    assert_eq!(
        run_one(&mut evaluator, &mut env, "(1 2)").unwrap_err(),
        "invalid expr: 1"
    );
}

#[test]
fn eval_unbounded_recursion_reports() {
    let mut evaluator = Evaluator::new();
    let mut env = default_env();
    assert_eq!(
        run_one(&mut evaluator, &mut env, "(defun again (x) (again x))").unwrap(),
        "AGAIN"
    );
    assert_eq!(
        run_one(&mut evaluator, &mut env, "(again 1)").unwrap_err(),
        "evaluation depth exceeded"
    );
    // the session survives
    assert_eq!(run_one(&mut evaluator, &mut env, "(+ 1 1)").unwrap(), "2");
}

#[test]
fn eval_line_round_trip_stable() {
    // Two fresh sessions agree on every line, and a session repeats itself.
    let lines = vec!["(+ 1 (- 10 (* 10 50)))", "(* 2 3)", "\"abc\"", "t", "nil"];
    for line in lines {
        let mut ev1 = Evaluator::new();
        let mut env1 = default_env();
        let mut ev2 = Evaluator::new();
        let mut env2 = default_env();
        let r1 = eval_line(&mut ev1, &mut env1, line);
        let r2 = eval_line(&mut ev2, &mut env2, line);
        assert_eq!(r1, r2);
        let mut ev3 = Evaluator::new();
        let mut env3 = default_env();
        assert_eq!(eval_line(&mut ev3, &mut env3, line), r1);
    }
}

#[test]
fn eval_line_session() {
    let mut evaluator = Evaluator::new();
    let mut env = default_env();
    assert_eq!(eval_line(&mut evaluator, &mut env, "(setq a 10)"), "10");
    assert_eq!(eval_line(&mut evaluator, &mut env, "a"), "10");
    let err = eval_line(&mut evaluator, &mut env, "(+ 1 ^)");
    assert_eq!(err, "invalid token: ^");
    assert_eq!(eval_line(&mut evaluator, &mut env, "(+ a 1)"), "11");
}

#[test]
fn eval_extreme_numbers() {
    run(vec![
        ("-9223372036854775808", "-9223372036854775808"),
        ("9223372036854775807", "9223372036854775807"),
        ("(/ -9223372036854775808 2)", "-4611686018427387904"),
        ("(- -9223372036854775807 1)", "-9223372036854775808"),
    ]);
}

#[test]
fn eval_error_env_dump() {
    let mut evaluator = Evaluator::new();
    let mut env = default_env();
    assert_eq!(run_one(&mut evaluator, &mut env, "(setq a 1)").unwrap(), "1");
    assert_eq!(run_one(&mut evaluator, &mut env, "(setq a 2)").unwrap(), "2");
    let msg = run_one(&mut evaluator, &mut env, "b").unwrap_err();
    assert!(msg.starts_with("not found symbol: B, env: "));
    assert!(msg.contains("A=2"));
    assert!(!msg.contains("A=1"));
    assert!(msg.contains("+=FUNCTION"));
}
