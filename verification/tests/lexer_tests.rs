use risp::lexer::Lexer;
use risp::token::Token;

#[test]
fn read_invalid_token() {
    let mut lexer = Lexer::new(String::from("^"));
    assert_eq!(lexer.next_token(), Token::Illegal(String::from("^")));
}

#[test]
fn read_string() {
    let mut lexer = Lexer::new(String::from(r#""hello""#));
    assert_eq!(lexer.next_token(), Token::String(String::from("hello")));
}

#[test]
fn read_literal() {
    let mut lexer = Lexer::new(String::from("(setq a 2)"));
    assert_eq!(lexer.next_token(), Token::Lparen);
    assert_eq!(lexer.next_token(), Token::Literal(String::from("SETQ")));
    assert_eq!(lexer.next_token(), Token::Literal(String::from("A")));
    assert_eq!(lexer.next_token(), Token::Number(2));
    assert_eq!(lexer.next_token(), Token::Rparen);
}

#[test]
fn read_var() {
    let mut lexer = Lexer::new(String::from("(+ a 2 a)"));
    assert_eq!(lexer.next_token(), Token::Lparen);
    assert_eq!(lexer.next_token(), Token::Plus);
    assert_eq!(lexer.next_token(), Token::Literal(String::from("A")));
    assert_eq!(lexer.next_token(), Token::Number(2));
    assert_eq!(lexer.next_token(), Token::Literal(String::from("A")));
    assert_eq!(lexer.next_token(), Token::Rparen);
}

#[test]
fn read_number() {
    // Numbers are 64-bit integers; digits after the decimal point are cut off.
    let tests = vec![
        ("1", Token::Number(1)),
        ("1.5", Token::Number(1)),
        ("2.345", Token::Number(2)),
    ];
    for test in tests {
        let mut lexer = Lexer::new(test.0.to_string());
        assert_eq!(lexer.next_token(), test.1);
    }
}

#[test]
fn basic_arithemetic() {
    let mut lexer = Lexer::new(String::from("(+ 1 2)"));
    assert_eq!(lexer.next_token(), Token::Lparen);
    assert_eq!(lexer.next_token(), Token::Plus);
    assert_eq!(lexer.next_token(), Token::Number(1));
    assert_eq!(lexer.next_token(), Token::Number(2));
    assert_eq!(lexer.next_token(), Token::Rparen);
    assert_eq!(lexer.next_token(), Token::Eof);
}

#[test]
fn nested_arithmetic() {
    let mut lexer = Lexer::new(String::from("(+ (- 30 2) (* (/ 4 2) 3))"));
    let wants = vec![
        Token::Lparen,
        Token::Plus,
        Token::Lparen,
        Token::Minus,
        Token::Number(30),
        Token::Number(2),
        Token::Rparen,
        Token::Lparen,
        Token::Asterfisk,
        Token::Lparen,
        Token::Slash,
        Token::Number(4),
        Token::Number(2),
        Token::Rparen,
        Token::Number(3),
        Token::Rparen,
        Token::Rparen,
        Token::Eof,
    ];
    for (i, want) in wants.iter().enumerate() {
        let token = lexer.next_token();
        assert_eq!(
            token, *want,
            "unexpected token[{}]: got={:?}, want={:?}",
            i, token, *want
        );
    }
}

#[test]
fn read_signed_numbers() {
    let mut lexer = Lexer::new(String::from("-10 +5 - +"));
    assert_eq!(lexer.next_token(), Token::Number(-10));
    assert_eq!(lexer.next_token(), Token::Number(5));
    assert_eq!(lexer.next_token(), Token::Minus);
    assert_eq!(lexer.next_token(), Token::Plus);
    assert_eq!(lexer.next_token(), Token::Eof);
}

#[test]
fn read_true_and_nil() {
    let mut lexer = Lexer::new(String::from("t"));
    assert_eq!(lexer.next_token(), Token::True);
    let mut lexer = Lexer::new(String::from("nil"));
    assert_eq!(lexer.next_token(), Token::Nil);
    // `t` yields `True` only as the final character of the input.
    let mut lexer = Lexer::new(String::from("t "));
    assert_eq!(lexer.next_token(), Token::Literal(String::from("T")));
}

#[test]
fn read_unterminated_string() {
    let mut lexer = Lexer::new(String::from("\"hello"));
    assert_eq!(lexer.next_token(), Token::Illegal(String::from("\"")));
    assert_eq!(lexer.next_token(), Token::Eof);
}

#[test]
fn read_number_out_of_range() {
    let mut lexer = Lexer::new(String::from("99999999999999999999"));
    assert_eq!(
        lexer.next_token(),
        Token::Illegal(String::from("99999999999999999999"))
    );
    let mut lexer = Lexer::new(String::from("9223372036854775807"));
    assert_eq!(lexer.next_token(), Token::Number(i64::MAX));
    let mut lexer = Lexer::new(String::from("-9223372036854775808"));
    assert_eq!(lexer.next_token(), Token::Number(i64::MIN));
}

#[test]
fn eof_is_idempotent() {
    let mut lexer = Lexer::new(String::from("  "));
    assert_eq!(lexer.next_token(), Token::Eof);
    assert_eq!(lexer.next_token(), Token::Eof);
    assert_eq!(lexer.next_token(), Token::Eof);
}

#[test]
fn token_rendering() {
    assert_eq!(Token::Eof.render(), "EOF");
    assert_eq!(Token::Number(-5).render(), "-5");
    assert_eq!(Token::Number(0).render(), "0");
    assert_eq!(Token::Illegal(String::from("^")).render(), "ILLEGAL(^)");
    assert_eq!(Token::True.render(), "T");
    assert_eq!(Token::Nil.render(), "NIL");
    assert_eq!(Token::Asterfisk.render(), "*");
}
