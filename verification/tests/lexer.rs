use tinyscript::lexer::Lexer;
use tinyscript::token::Token;

fn lex(src: &str) -> Vec<(Token, usize)> {
    Lexer::new(String::from(src)).lex_all()
}

fn ident(name: &str) -> Token {
    Token::Ident(String::from(name))
}

fn num(text: &str) -> Token {
    Token::Integer(String::from(text))
}

#[test]
fn empty_source_has_no_tokens() {
    assert_eq!(lex(""), vec![]);
    assert_eq!(lex("  \t\r\n\n "), vec![]);
}

#[test]
fn eof_is_returned_forever() {
    let mut lexer = Lexer::new(String::from("a"));
    assert_eq!(lexer.lex(), (ident("a"), 0));
    assert_eq!(lexer.lex(), (Token::Semicolon, 1));
    assert_eq!(lexer.lex(), (Token::Eof, 1));
    assert_eq!(lexer.lex(), (Token::Eof, 1));
    assert_eq!(lexer.lex(), (Token::Eof, 1));
}

#[test]
fn punctuation_maps_one_to_one() {
    assert_eq!(
        lex("+ - * / % = ( ) [ ] { } , ; : !"),
        vec![
            (Token::Add, 0),
            (Token::Sub, 2),
            (Token::Mul, 4),
            (Token::Div, 6),
            (Token::Rem, 8),
            (Token::Assign, 10),
            (Token::Lparen, 12),
            (Token::Rparen, 14),
            (Token::Lbrack, 16),
            (Token::Rbrack, 18),
            (Token::Lbrace, 20),
            (Token::Rbrace, 22),
            (Token::Comma, 24),
            (Token::Semicolon, 26),
            (Token::Colon, 28),
            (Token::Exel, 30),
        ]
    );
}

#[test]
fn keywords_are_recognised() {
    assert_eq!(
        lex("fun var val import return funny"),
        vec![
            (Token::Fun, 0),
            (Token::Var, 4),
            (Token::Val, 8),
            (Token::Import, 12),
            (Token::Return, 19),
            (ident("funny"), 26),
            (Token::Semicolon, 31),
        ]
    );
}

#[test]
fn identifiers_take_letters_digits_and_underscores() {
    assert_eq!(
        lex("_a1 b_2 C"),
        vec![(ident("_a1"), 0), (ident("b_2"), 4), (ident("C"), 8), (Token::Semicolon, 9)]
    );
}

#[test]
fn numbers_take_digits_dots_and_underscores() {
    assert_eq!(
        lex("12 3.14 1_000 7a"),
        vec![
            (num("12"), 0),
            (num("3.14"), 3),
            (num("1_000"), 8),
            (num("7"), 14),
            (ident("a"), 15),
            (Token::Semicolon, 16),
        ]
    );
}

#[test]
fn strings_end_at_quote_newline_or_end() {
    assert_eq!(
        lex("\"ab c\" x"),
        vec![(Token::String(String::from("ab c")), 0), (ident("x"), 7), (Token::Semicolon, 8)]
    );
    assert_eq!(
        lex("\"open\nx"),
        vec![
            (Token::String(String::from("open")), 0),
            (Token::Semicolon, 5),
            (ident("x"), 6),
            (Token::Semicolon, 7),
        ]
    );
    assert_eq!(
        lex("\"open"),
        vec![(Token::String(String::from("open")), 0), (Token::Semicolon, 5)]
    );
    assert_eq!(lex("\"\""), vec![(Token::String(String::new()), 0), (Token::Semicolon, 2)]);
}

#[test]
fn newline_ends_a_statement_after_a_closing_token() {
    assert_eq!(
        lex("x\n)\n]\n}\n1\nreturn\n"),
        vec![
            (ident("x"), 0),
            (Token::Semicolon, 1),
            (Token::Rparen, 2),
            (Token::Semicolon, 3),
            (Token::Rbrack, 4),
            (Token::Semicolon, 5),
            (Token::Rbrace, 6),
            (Token::Semicolon, 7),
            (num("1"), 8),
            (Token::Semicolon, 9),
            (Token::Return, 10),
            (Token::Semicolon, 16),
        ]
    );
}

#[test]
fn newline_is_skipped_after_other_tokens() {
    assert_eq!(
        lex("x +\n y;\nvar\n(\n"),
        vec![
            (ident("x"), 0),
            (Token::Add, 2),
            (ident("y"), 5),
            (Token::Semicolon, 6),
            (Token::Var, 8),
            (Token::Lparen, 12),
        ]
    );
}

#[test]
fn unknown_characters_are_illegal() {
    assert_eq!(
        lex("a # b"),
        vec![(ident("a"), 0), (Token::Illegal, 2), (ident("b"), 4), (Token::Semicolon, 5)]
    );
    assert_eq!(lex("a\0"), vec![(ident("a"), 0), (Token::Illegal, 1)]);
}

#[test]
fn illegal_token_clears_the_insertion_flag() {
    assert_eq!(lex("a @\nb"), vec![
        (ident("a"), 0),
        (Token::Illegal, 2),
        (ident("b"), 4),
        (Token::Semicolon, 5),
    ]);
}

#[test]
fn offsets_count_bytes() {
    assert_eq!(
        lex("\"h\u{e9}\u{4e16}\u{1f600}\" x"),
        vec![
            (Token::String(String::from("h\u{e9}\u{4e16}\u{1f600}")), 0),
            (ident("x"), 13),
            (Token::Semicolon, 14),
        ]
    );
    assert_eq!(lex("\u{e9} a"), vec![(Token::Illegal, 0), (ident("a"), 3), (Token::Semicolon, 4)]);
}

#[test]
fn scanning_twice_gives_the_same_tokens() {
    let src = "var x = 1\nprintln(x, \"s\") # 2.5";
    assert_eq!(lex(src), lex(src));
}

#[test]
fn lex_all_stops_before_eof() {
    let mut lexer = Lexer::new(String::from("1 + 2"));
    let tokens = lexer.lex_all();
    assert_eq!(
        tokens,
        vec![(num("1"), 0), (Token::Add, 2), (num("2"), 4), (Token::Semicolon, 5)]
    );
    assert_eq!(lexer.lex(), (Token::Eof, 5));
    assert_eq!(lexer.lex_all(), vec![]);
}

#[test]
fn precedence_table() {
    assert_eq!(Token::Lor.prec(), 1);
    assert_eq!(Token::Land.prec(), 2);
    for t in [Token::Eql, Token::Neq, Token::Gtr, Token::Geq, Token::Lss, Token::Leq] {
        assert_eq!(t.prec(), 3);
    }
    assert_eq!(Token::Add.prec(), 4);
    assert_eq!(Token::Sub.prec(), 4);
    assert_eq!(Token::Mul.prec(), 5);
    assert_eq!(Token::Div.prec(), 5);
    assert_eq!(Token::Rem.prec(), 5);
    for t in [Token::Assign, Token::Eof, Token::Lparen, Token::Semicolon, ident("x"), num("1")] {
        assert_eq!(t.prec(), 0);
    }
}

#[test]
fn a_cloned_token_equals_the_token() {
    for t in [
        Token::Illegal,
        Token::Comment(String::from("c")),
        Token::Eof,
        ident("name"),
        num("12"),
        Token::Float(String::from("1.5")),
        Token::String(String::from("s t")),
        Token::Add,
        Token::Assign,
        Token::Leq,
        Token::Rbrace,
        Token::Val,
        Token::Return,
    ] {
        assert_eq!(t.clone(), t);
    }
}

#[test]
fn blanks_between_tokens_are_skipped() {
    assert_eq!(
        lex(" \t\r x \t\r=\r\n \t1 \r\n"),
        vec![(ident("x"), 4), (Token::Assign, 8), (num("1"), 13), (Token::Semicolon, 16)]
    );
}

#[test]
fn end_of_source_ends_a_statement() {
    assert_eq!(lex("x"), vec![(ident("x"), 0), (Token::Semicolon, 1)]);
    assert_eq!(lex("x  "), vec![(ident("x"), 0), (Token::Semicolon, 3)]);
    assert_eq!(lex("x;"), vec![(ident("x"), 0), (Token::Semicolon, 1)]);
    assert_eq!(lex("x +"), vec![(ident("x"), 0), (Token::Add, 2)]);
}
