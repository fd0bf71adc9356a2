use atomscript::lexer::{Lexer, Token};

fn tokenize(input: &str) -> Vec<Token> {
    let mut lexer = Lexer::new(String::from(input));
    let mut tokens = Vec::new();
    loop {
        let tok = lexer.next_token();
        let done = tok == Token::Eof;
        tokens.push(tok);
        if done {
            break;
        }
    }
    tokens
}

#[test]
fn maximal_munch_eq() {
    assert_eq!(tokenize("=="), vec![Token::Eq, Token::Eof]);
    assert_eq!(tokenize("="), vec![Token::Assign, Token::Eof]);
    assert_eq!(tokenize("==="), vec![Token::Eq, Token::Assign, Token::Eof]);
}

#[test]
fn maximal_munch_noteq() {
    assert_eq!(tokenize("!="), vec![Token::NotEq, Token::Eof]);
    assert_eq!(tokenize("!"), vec![Token::Bang, Token::Eof]);
    assert_eq!(tokenize("!!="), vec![Token::Bang, Token::NotEq, Token::Eof]);
}

#[test]
fn keyword_exactness() {
    assert_eq!(
        tokenize("atoms"),
        vec![Token::Ident(String::from("atoms")), Token::Eof]
    );
    assert_eq!(
        tokenize("ifx"),
        vec![Token::Ident(String::from("ifx")), Token::Eof]
    );
    assert_eq!(
        tokenize("atom molecule reaction true false if else produce"),
        vec![
            Token::Atom,
            Token::Molecule,
            Token::Reaction,
            Token::True,
            Token::False,
            Token::If,
            Token::Else,
            Token::Produce,
            Token::Eof,
        ]
    );
}

#[test]
fn whitespace_transparency() {
    let spaced = tokenize("5   +   10");
    let tight = tokenize("5+10");
    assert_eq!(spaced, vec![Token::Int(5), Token::Plus, Token::Int(10), Token::Eof]);
    assert_eq!(spaced, tight);
    assert_eq!(tokenize("\t5\n+\r10 "), tight);
}

#[test]
fn eof_idempotent() {
    let mut lexer = Lexer::new(String::from("x"));
    assert_eq!(lexer.next_token(), Token::Ident(String::from("x")));
    assert_eq!(lexer.next_token(), Token::Eof);
    let stop = lexer.position;
    for _ in 0..3 {
        assert_eq!(lexer.next_token(), Token::Eof);
        assert_eq!(lexer.position, stop);
    }
}

#[test]
fn literal_atom_statement() {
    assert_eq!(
        tokenize("atom five = 5;"),
        vec![
            Token::Atom,
            Token::Ident(String::from("five")),
            Token::Assign,
            Token::Int(5),
            Token::Semicolon,
            Token::Eof,
        ]
    );
}

#[test]
fn literal_comparisons() {
    assert_eq!(
        tokenize("10 == 10; 10 != 9;"),
        vec![
            Token::Int(10),
            Token::Eq,
            Token::Int(10),
            Token::Semicolon,
            Token::Int(10),
            Token::NotEq,
            Token::Int(9),
            Token::Semicolon,
            Token::Eof,
        ]
    );
}

#[test]
fn literal_bracket_list() {
    assert_eq!(
        tokenize("[1, 2];"),
        vec![
            Token::LBracket,
            Token::Int(1),
            Token::Comma,
            Token::Int(2),
            Token::RBracket,
            Token::Semicolon,
            Token::Eof,
        ]
    );
}

#[test]
fn literal_brace_map() {
    assert_eq!(
        tokenize("{\"foo\": \"bar\"}"),
        vec![
            Token::LBrace,
            Token::String(String::from("foo")),
            Token::Colon,
            Token::String(String::from("bar")),
            Token::RBrace,
            Token::Eof,
        ]
    );
}

#[test]
fn empty_input() {
    assert_eq!(tokenize(""), vec![Token::Eof]);
    assert_eq!(tokenize("   \t\n"), vec![Token::Eof]);
}

#[test]
fn illegal_character_recovers() {
    assert_eq!(tokenize("#"), vec![Token::Illegal, Token::Eof]);
    assert_eq!(
        tokenize("#5"),
        vec![Token::Illegal, Token::Int(5), Token::Eof]
    );
    assert_eq!(
        tokenize("a @ b"),
        vec![
            Token::Ident(String::from("a")),
            Token::Illegal,
            Token::Ident(String::from("b")),
            Token::Eof,
        ]
    );
}

#[test]
fn unterminated_string() {
    assert_eq!(tokenize("\"abc"), vec![Token::UnterminatedString, Token::Eof]);
    assert_eq!(tokenize("\""), vec![Token::UnterminatedString, Token::Eof]);
    assert_eq!(
        tokenize("x = \"abc"),
        vec![
            Token::Ident(String::from("x")),
            Token::Assign,
            Token::UnterminatedString,
            Token::Eof,
        ]
    );
}

#[test]
fn integer_overflow_marker() {
    assert_eq!(
        tokenize("99999999999999999999"),
        vec![Token::LiteralOverflow, Token::Eof]
    );
    assert_eq!(
        tokenize("9223372036854775807"),
        vec![Token::Int(9223372036854775807), Token::Eof]
    );
    assert_eq!(
        tokenize("9223372036854775808"),
        vec![Token::LiteralOverflow, Token::Eof]
    );
}

#[test]
fn leading_zeros() {
    assert_eq!(tokenize("007"), vec![Token::Int(7), Token::Eof]);
    assert_eq!(tokenize("0"), vec![Token::Int(0), Token::Eof]);
}

#[test]
fn minus_then_number() {
    assert_eq!(
        tokenize("-5"),
        vec![Token::Minus, Token::Int(5), Token::Eof]
    );
}

#[test]
fn all_single_symbols() {
    assert_eq!(
        tokenize("+ - * / < > , ; ( ) { } [ ] : ="),
        vec![
            Token::Plus,
            Token::Minus,
            Token::Asterisk,
            Token::Slash,
            Token::Lt,
            Token::Gt,
            Token::Comma,
            Token::Semicolon,
            Token::LParen,
            Token::RParen,
            Token::LBrace,
            Token::RBrace,
            Token::LBracket,
            Token::RBracket,
            Token::Colon,
            Token::Assign,
            Token::Eof,
        ]
    );
}
