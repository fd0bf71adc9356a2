use atomscript::lexer::{Lexer, Token};

#[test]
fn test_string() {
    let input = String::from(
        r#"
        "foobar"

        "foo bar"

        "1"
        "#,
    );

    let mut lexer = Lexer::new(input);

    let tests = vec![
        Token::String(String::from("foobar")),
        Token::String(String::from("foo bar")),
        Token::String(String::from("1")),
    ];

    for (i, t) in tests.iter().enumerate() {
        let tok = lexer.next_token();
        assert_eq!(tok, *t, "Test index: {i} | Expected: {t:?} | Got: {tok:?}");
    }
}

#[test]
fn test_next_token() {
    let input = String::from(
        r#"
        atom five = 5;
        atom ten = 10;

        reaction add(x, y) {
            x + y;
        };

        molecule result = add(five, ten);

        !-/*5;
        5 < 10 > 5;

        if (5 < 10) {
            produce true;
        } else {
            produce false;
        }

        10 == 10;
        10 != 9;

        "foobar"
        "foo bar"
        [1, 2];
        {"foo": "bar"}
        "#,
    );

    let mut lexer = Lexer::new(input);

    let tests = vec![
        Token::Atom,
        Token::Ident(String::from("five")),
        Token::Assign,
        Token::Int(5),
        Token::Semicolon,
        Token::Atom,
        Token::Ident(String::from("ten")),
        Token::Assign,
        Token::Int(10),
        Token::Semicolon,
        Token::Reaction,
        Token::Ident(String::from("add")),
        Token::LParen,
        Token::Ident(String::from("x")),
        Token::Comma,
        Token::Ident(String::from("y")),
        Token::RParen,
        Token::LBrace,
        Token::Ident(String::from("x")),
        Token::Plus,
        Token::Ident(String::from("y")),
        Token::Semicolon,
        Token::RBrace,
        Token::Semicolon,
        Token::Molecule,
        Token::Ident(String::from("result")),
        Token::Assign,
        Token::Ident(String::from("add")),
        Token::LParen,
        Token::Ident(String::from("five")),
        Token::Comma,
        Token::Ident(String::from("ten")),
        Token::RParen,
        Token::Semicolon,
        Token::Bang,
        Token::Minus,
        Token::Slash,
        Token::Asterisk,
        Token::Int(5),
        Token::Semicolon,
        Token::Int(5),
        Token::Lt,
        Token::Int(10),
        Token::Gt,
        Token::Int(5),
        Token::Semicolon,
        Token::If,
        Token::LParen,
        Token::Int(5),
        Token::Lt,
        Token::Int(10),
        Token::RParen,
        Token::LBrace,
        Token::Produce,
        Token::True,
        Token::Semicolon,
        Token::RBrace,
        Token::Else,
        Token::LBrace,
        Token::Produce,
        Token::False,
        Token::Semicolon,
        Token::RBrace,
        Token::Int(10),
        Token::Eq,
        Token::Int(10),
        Token::Semicolon,
        Token::Int(10),
        Token::NotEq,
        Token::Int(9),
        Token::Semicolon,
        Token::String(String::from("foobar")),
        Token::String(String::from("foo bar")),
        Token::LBracket,
        Token::Int(1),
        Token::Comma,
        Token::Int(2),
        Token::RBracket,
        Token::Semicolon,
        Token::LBrace,
        Token::String(String::from("foo")),
        Token::Colon,
        Token::String(String::from("bar")),
        Token::RBrace,
        Token::Eof,
    ];

    for (i, t) in tests.iter().enumerate() {
        let tok = lexer.next_token();
        assert_eq!(tok, *t, "Test no. {}, Expected {:?}, got {:?}", i + 1, t, tok);
    }
}
