use risp::ast::Expr;
use risp::lexer::Lexer;
use risp::parser::Parser;

#[test]
fn parse() {
    let tests = vec![
        "(+ -10 5)",
        "(+ (* 1 2) 3)",
        "(+ (/ 2 (- 10 (* 1 1))))",
        "1",
        "hello",
        "(+ 1 2 (* 1 3))",
        "t",
        "nil",
    ];
    for test in tests {
        let l = Lexer::new(String::from(test));
        let mut p = Parser::new(l);
        let expr = p.parse().unwrap();
        assert_eq!(expr.render(), test.to_uppercase());
    }
}

#[test]
fn parse_illegal_token_fails() {
    let l = Lexer::new(String::from("(+ 1 ^)"));
    let mut p = Parser::new(l);
    let err = p.parse().unwrap_err();
    assert_eq!(err.message(), "invalid token: ^");
}

#[test]
fn parse_nil_ends_list() {
    // `Rparen`, `Eof` and the `NIL` literal all parse as the list-ending
    // sentinel, so an explicit `NIL` element closes its list early.
    let l = Lexer::new(String::from("(+ 1 nil 2)"));
    let mut p = Parser::new(l);
    let expr = p.parse().unwrap();
    assert_eq!(expr.render(), "(+ 1)");
}

#[test]
fn parse_unclosed_list() {
    // End of input ends the list as the same sentinel does.
    let l = Lexer::new(String::from("(+ 1 2"));
    let mut p = Parser::new(l);
    let expr = p.parse().unwrap();
    assert_eq!(expr.render(), "(+ 1 2)");
}

#[test]
fn parse_string_atom() {
    let l = Lexer::new(String::from("\"Hello World\""));
    let mut p = Parser::new(l);
    let expr = p.parse().unwrap();
    assert_eq!(expr.render(), "Hello World");
}

#[test]
fn expr_structural_equality() {
    let parse_one = |s: &str| {
        let l = Lexer::new(String::from(s));
        let mut p = Parser::new(l);
        p.parse().unwrap()
    };
    let x = parse_one("(+ 1 2)");
    let y = parse_one("( + 1  2 )");
    let z = parse_one("(+ 1 3)");
    assert!(x.value_eq(&y));
    assert!(!x.value_eq(&z));
    assert!(Expr::Nil.value_eq(&Expr::Nil));
    assert!(!Expr::True.value_eq(&Expr::True));
}
