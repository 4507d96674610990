use tinyscript::ast::{
    AssignStmt, BadExpr, BadStmt, BasicLit, BinaryExpr, CallExpr, Decl, DeclStmt, Expr, ExprStmt,
    File, Ident, ParenExpr, Stmt, UnaryExpr, ValDecl, VarDecl,
};
use tinyscript::lexer::Lexer;
use tinyscript::parser::Parser;
use tinyscript::token::Token;

fn parse(src: &str) -> (File, Vec<(usize, String)>) {
    let mut parser = Parser::new(Lexer::new(String::from(src)));
    let file = parser.parse_file();
    let errors = parser.errors().iter().map(|e| (e.0, e.1.clone())).collect();
    (*file, errors)
}

fn lit(pos: usize, text: &str) -> Box<Expr> {
    Box::new(Expr::BasicLit(BasicLit { pos, tok: Token::Integer(String::from(text)) }))
}

fn name(pos: usize, text: &str) -> Box<Expr> {
    Box::new(Expr::Ident(Ident { pos, name: String::from(text) }))
}

fn binary(x: Box<Expr>, op: Token, y: Box<Expr>) -> Box<Expr> {
    Box::new(Expr::Binary(BinaryExpr { x, op, y }))
}

fn expr_stmt(x: Box<Expr>) -> Box<Stmt> {
    Box::new(Stmt::Expr(ExprStmt { x }))
}

fn has_bad_expr(e: &Expr) -> bool {
    match e {
        Expr::Bad(_) => true,
        Expr::Ident(_) | Expr::BasicLit(_) => false,
        Expr::Call(c) => has_bad_expr(&c.fun) || c.args.iter().any(|a| has_bad_expr(a)),
        Expr::Unary(u) => has_bad_expr(&u.x),
        Expr::Binary(b) => has_bad_expr(&b.x) || has_bad_expr(&b.y),
        Expr::Paren(p) => has_bad_expr(&p.x),
    }
}

fn has_bad(file: &File) -> bool {
    file.stmts.iter().any(|s| match &**s {
        Stmt::Bad(_) => true,
        Stmt::Decl(d) => match &*d.decl {
            Decl::Bad(_) => true,
            Decl::Var(v) => v.value.as_ref().map_or(false, |e| has_bad_expr(e)),
            Decl::Val(v) => v.value.as_ref().map_or(false, |e| has_bad_expr(e)),
            Decl::Fun(_) => false,
        },
        Stmt::Expr(s) => has_bad_expr(&s.x),
        Stmt::Assign(s) => has_bad_expr(&s.ptr) || has_bad_expr(&s.val),
    })
}

#[test]
fn empty_source_is_an_empty_file() {
    let (file, errors) = parse("");
    assert_eq!(file, File { stmts: vec![] });
    assert_eq!(errors, vec![]);
}

#[test]
fn multiplication_binds_tighter_than_addition() {
    let (file, errors) = parse("1 + 2 * 3;");
    assert_eq!(errors, vec![]);
    assert_eq!(
        file,
        File {
            stmts: vec![expr_stmt(binary(
                lit(0, "1"),
                Token::Add,
                binary(lit(4, "2"), Token::Mul, lit(8, "3")),
            ))],
        }
    );
}

#[test]
fn subtraction_groups_to_the_left() {
    let (file, errors) = parse("8 - 4 - 2;");
    assert_eq!(errors, vec![]);
    assert_eq!(
        file,
        File {
            stmts: vec![expr_stmt(binary(
                binary(lit(0, "8"), Token::Sub, lit(4, "4")),
                Token::Sub,
                lit(8, "2"),
            ))],
        }
    );
}

#[test]
fn mixed_precedence_groups_by_level() {
    let (file, errors) = parse("1 * 2 + 3 * 4 - 5");
    assert_eq!(errors, vec![]);
    assert_eq!(
        file,
        File {
            stmts: vec![expr_stmt(binary(
                binary(
                    binary(lit(0, "1"), Token::Mul, lit(4, "2")),
                    Token::Add,
                    binary(lit(8, "3"), Token::Mul, lit(12, "4")),
                ),
                Token::Sub,
                lit(16, "5"),
            ))],
        }
    );
}

#[test]
fn newline_stands_for_a_semicolon() {
    let (file, errors) = parse("var x = 1\nprintln(x);");
    assert_eq!(errors, vec![]);
    assert_eq!(
        file,
        File {
            stmts: vec![
                Box::new(Stmt::Decl(DeclStmt {
                    decl: Box::new(Decl::Var(VarDecl {
                        var_pos: 0,
                        name: Box::new(Ident { pos: 4, name: String::from("x") }),
                        assign_pos: 6,
                        value: Some(lit(8, "1")),
                    })),
                })),
                expr_stmt(Box::new(Expr::Call(CallExpr {
                    fun: name(10, "println"),
                    lp_pos: 17,
                    args: vec![name(18, "x")],
                    rp_pos: 19,
                }))),
            ],
        }
    );
}

#[test]
fn missing_semicolon_is_recorded() {
    let (file, errors) = parse("1 2;");
    assert_eq!(errors, vec![(2, String::from("expected semiclon"))]);
    assert_eq!(file, File { stmts: vec![expr_stmt(lit(0, "1")), expr_stmt(lit(2, "2"))] });
}

#[test]
fn missing_name_records_one_error() {
    let (file, errors) = parse("var ;");
    assert_eq!(errors, vec![(4, String::from("expect Identifier"))]);
    assert_eq!(
        file,
        File {
            stmts: vec![Box::new(Stmt::Decl(DeclStmt {
                decl: Box::new(Decl::Var(VarDecl {
                    var_pos: 0,
                    name: Box::new(Ident { pos: 0, name: String::from("_") }),
                    assign_pos: 0,
                    value: None,
                })),
            }))],
        }
    );
}

#[test]
fn val_declares_a_binding() {
    let (file, errors) = parse("val y = 2;");
    assert_eq!(errors, vec![]);
    assert_eq!(
        file,
        File {
            stmts: vec![Box::new(Stmt::Decl(DeclStmt {
                decl: Box::new(Decl::Val(ValDecl {
                    val_pos: 0,
                    name: Box::new(Ident { pos: 4, name: String::from("y") }),
                    assign_pos: 6,
                    value: Some(lit(8, "2")),
                })),
            }))],
        }
    );
}

#[test]
fn declaration_without_value() {
    let (file, errors) = parse("var x;");
    assert_eq!(errors, vec![]);
    assert_eq!(
        file,
        File {
            stmts: vec![Box::new(Stmt::Decl(DeclStmt {
                decl: Box::new(Decl::Var(VarDecl {
                    var_pos: 0,
                    name: Box::new(Ident { pos: 4, name: String::from("x") }),
                    assign_pos: 0,
                    value: None,
                })),
            }))],
        }
    );
}

#[test]
fn assignment_takes_any_expression_as_target() {
    let (file, errors) = parse("x = x + 1; 1 = 2;");
    assert_eq!(errors, vec![]);
    assert_eq!(
        file,
        File {
            stmts: vec![
                Box::new(Stmt::Assign(AssignStmt {
                    ptr: name(0, "x"),
                    pos: 2,
                    tok: Token::Assign,
                    val: binary(name(4, "x"), Token::Add, lit(8, "1")),
                })),
                Box::new(Stmt::Assign(AssignStmt {
                    ptr: lit(11, "1"),
                    pos: 13,
                    tok: Token::Assign,
                    val: lit(15, "2"),
                })),
            ],
        }
    );
}

#[test]
fn prefix_signs_repeat() {
    let (file, errors) = parse("- + -x;");
    assert_eq!(errors, vec![]);
    let inner = Box::new(Expr::Unary(UnaryExpr { op: Token::Sub, x: name(5, "x") }));
    let middle = Box::new(Expr::Unary(UnaryExpr { op: Token::Add, x: inner }));
    assert_eq!(
        file,
        File {
            stmts: vec![expr_stmt(Box::new(Expr::Unary(UnaryExpr { op: Token::Sub, x: middle })))],
        }
    );
}

#[test]
fn prefix_sign_binds_tighter_than_binary_operators() {
    let (file, errors) = parse("-1 * 2;");
    assert_eq!(errors, vec![]);
    assert_eq!(
        file,
        File {
            stmts: vec![expr_stmt(binary(
                Box::new(Expr::Unary(UnaryExpr { op: Token::Sub, x: lit(1, "1") })),
                Token::Mul,
                lit(5, "2"),
            ))],
        }
    );
}

#[test]
fn parentheses_group() {
    let (file, errors) = parse("x * (1 + 2);");
    assert_eq!(errors, vec![]);
    assert_eq!(
        file,
        File {
            stmts: vec![expr_stmt(binary(
                name(0, "x"),
                Token::Mul,
                Box::new(Expr::Paren(ParenExpr {
                    l_pos: 4,
                    x: binary(lit(5, "1"), Token::Add, lit(9, "2")),
                    r_pos: 10,
                })),
            ))],
        }
    );
}

#[test]
fn missing_closing_parenthesis_is_recorded() {
    let (file, errors) = parse("x = (1;");
    assert_eq!(errors, vec![(6, String::from("expected ')'"))]);
    assert_eq!(
        file,
        File {
            stmts: vec![Box::new(Stmt::Assign(AssignStmt {
                ptr: name(0, "x"),
                pos: 2,
                tok: Token::Assign,
                val: Box::new(Expr::Paren(ParenExpr { l_pos: 4, x: lit(5, "1"), r_pos: 0 })),
            }))],
        }
    );
}

#[test]
fn calls_chain_and_take_several_arguments() {
    let (file, errors) = parse("f(1, -x)(y);");
    assert_eq!(errors, vec![]);
    let first = Box::new(Expr::Call(CallExpr {
        fun: name(0, "f"),
        lp_pos: 1,
        args: vec![
            lit(2, "1"),
            Box::new(Expr::Unary(UnaryExpr { op: Token::Sub, x: name(6, "x") })),
        ],
        rp_pos: 7,
    }));
    assert_eq!(
        file,
        File {
            stmts: vec![expr_stmt(Box::new(Expr::Call(CallExpr {
                fun: first,
                lp_pos: 8,
                args: vec![name(9, "y")],
                rp_pos: 10,
            })))],
        }
    );
}

#[test]
fn argument_ends_at_a_binary_operator() {
    let (file, errors) = parse("f(1 + 2);");
    assert_eq!(
        errors,
        vec![
            (4, String::from("expect Rparen")),
            (7, String::from("expected semiclon")),
            (7, String::from("expect Statement")),
            (8, String::from("expect Statement")),
        ]
    );
    assert_eq!(file.stmts.len(), 3);
    assert_eq!(
        *file.stmts[0],
        Stmt::Expr(ExprStmt {
            x: binary(
                Box::new(Expr::Call(CallExpr {
                    fun: name(0, "f"),
                    lp_pos: 1,
                    args: vec![lit(2, "1")],
                    rp_pos: 0,
                })),
                Token::Add,
                lit(6, "2"),
            ),
        })
    );
}

#[test]
fn call_without_arguments_is_an_error() {
    let (file, errors) = parse("f();");
    assert_eq!(
        errors,
        vec![(2, String::from("expect Operand")), (3, String::from("expect Rparen"))]
    );
    assert_eq!(
        file,
        File {
            stmts: vec![expr_stmt(Box::new(Expr::Call(CallExpr {
                fun: name(0, "f"),
                lp_pos: 1,
                args: vec![Box::new(Expr::Bad(BadExpr {}))],
                rp_pos: 0,
            })))],
        }
    );
}

#[test]
fn stray_token_is_a_bad_statement() {
    let (file, errors) = parse(") x;");
    assert_eq!(errors, vec![(0, String::from("expect Statement"))]);
    assert_eq!(
        file,
        File { stmts: vec![Box::new(Stmt::Bad(BadStmt {})), expr_stmt(name(2, "x"))] }
    );
}

#[test]
fn fun_starts_no_statement() {
    let (file, errors) = parse("fun");
    assert_eq!(errors, vec![(0, String::from("expect Statement"))]);
    assert_eq!(file, File { stmts: vec![Box::new(Stmt::Bad(BadStmt {}))] });
}

#[test]
fn missing_operand_is_a_bad_expression() {
    let (file, errors) = parse("1 + ;");
    assert_eq!(
        errors,
        vec![(4, String::from("expect Operand")), (5, String::from("expected semiclon"))]
    );
    assert_eq!(
        file,
        File {
            stmts: vec![expr_stmt(binary(
                lit(0, "1"),
                Token::Add,
                Box::new(Expr::Bad(BadExpr {})),
            ))],
        }
    );
}

#[test]
fn several_errors_are_reported_in_one_pass() {
    let (file, errors) = parse("var = 1\n) \nx = (2\n");
    assert_eq!(
        errors,
        vec![
            (4, String::from("expect Identifier")),
            (8, String::from("expect Statement")),
            (10, String::from("expect Statement")),
            (17, String::from("expected ')'")),
        ]
    );
    assert_eq!(file.stmts.len(), 4);
    assert!(has_bad(&file));
    assert_eq!(*file.stmts[1], Stmt::Bad(BadStmt {}));
    assert_eq!(*file.stmts[2], Stmt::Bad(BadStmt {}));
}

#[test]
fn valid_sources_parse_without_errors_or_bad_nodes() {
    for src in [
        "var x = 1; x = x + 1; println(x);",
        "val a = (1 + 2) * -3 % 4 / 5\nprint(a, a)\n",
        "x\ny\nz",
        "f(g(1))(2, 3); \"text\"; 1.5 - 2_0;",
        "var a\nvar b = a\na = b\n",
    ] {
        let (file, errors) = parse(src);
        assert_eq!(errors, vec![], "{}", src);
        assert!(!has_bad(&file), "{}", src);
    }
}

#[test]
fn a_parse_without_errors_has_no_bad_nodes() {
    for src in ["1 +", "f(", "var", "= 1", "(", "x y", "a = ;", ",", "1 2 3", "f(1,)"] {
        let (file, errors) = parse(src);
        assert!(!errors.is_empty(), "{}", src);
        let _ = has_bad(&file);
    }
    for src in ["", "1", "-x", "a = b", "var q = f(1)"] {
        let (file, errors) = parse(src);
        assert!(errors.is_empty(), "{}", src);
        assert!(!has_bad(&file), "{}", src);
    }
}

#[test]
fn parsing_twice_gives_the_same_tree() {
    let src = "var x = 1\nx = f(x, 2) * (3 - ) ;; val";
    assert_eq!(parse(src), parse(src));
}

#[test]
fn parsing_goes_on_from_where_the_lexer_stands() {
    let mut lexer = Lexer::new(String::from("1; 2;"));
    assert_eq!(lexer.lex(), (Token::Integer(String::from("1")), 0));
    assert_eq!(lexer.lex(), (Token::Semicolon, 1));
    let mut parser = Parser::new(lexer);
    let file = parser.parse_file();
    assert_eq!(*file, File { stmts: vec![expr_stmt(lit(3, "2"))] });
    assert!(parser.errors().is_empty());
    let again = parser.parse_file();
    assert_eq!(*again, File { stmts: vec![] });
}

fn expr_tokens(e: &Expr, out: &mut Vec<Token>) {
    match e {
        Expr::Bad(_) => {}
        Expr::Ident(x) => out.push(Token::Ident(x.name.clone())),
        Expr::BasicLit(x) => out.push(x.tok.clone()),
        Expr::Call(x) => {
            expr_tokens(&x.fun, out);
            out.push(Token::Lparen);
            for (i, a) in x.args.iter().enumerate() {
                if i > 0 {
                    out.push(Token::Comma);
                }
                expr_tokens(a, out);
            }
            out.push(Token::Rparen);
        }
        Expr::Unary(x) => {
            out.push(x.op.clone());
            expr_tokens(&x.x, out);
        }
        Expr::Binary(x) => {
            expr_tokens(&x.x, out);
            out.push(x.op.clone());
            expr_tokens(&x.y, out);
        }
        Expr::Paren(x) => {
            out.push(Token::Lparen);
            expr_tokens(&x.x, out);
            out.push(Token::Rparen);
        }
    }
}

fn binding_tokens(key: Token, name: &Ident, value: &Option<Box<Expr>>, out: &mut Vec<Token>) {
    out.push(key);
    out.push(Token::Ident(name.name.clone()));
    if let Some(e) = value {
        out.push(Token::Assign);
        expr_tokens(e, out);
    }
}

fn file_tokens(file: &File) -> Vec<Token> {
    let mut out = Vec::new();
    for s in &file.stmts {
        match &**s {
            Stmt::Bad(_) => {}
            Stmt::Decl(d) => match &*d.decl {
                Decl::Var(v) => binding_tokens(Token::Var, &v.name, &v.value, &mut out),
                Decl::Val(v) => binding_tokens(Token::Val, &v.name, &v.value, &mut out),
                _ => {}
            },
            Stmt::Expr(s) => expr_tokens(&s.x, &mut out),
            Stmt::Assign(s) => {
                expr_tokens(&s.ptr, &mut out);
                out.push(Token::Assign);
                expr_tokens(&s.val, &mut out);
            }
        }
        out.push(Token::Semicolon);
    }
    out
}

#[test]
fn a_tree_without_errors_is_written_with_the_tokens_read() {
    for src in [
        "var x = 1; x = x + 1; println(x);",
        "val a = (1 + 2) * -3 % 4 / 5\nprint(a, a)\n",
        "f(g(1))(2, -3)(x); \"text\"; 1.5 - 2_0 * (7)",
        "a * b + c * d - e / f % g + h",
        "",
    ] {
        let (file, errors) = parse(src);
        assert_eq!(errors, vec![], "{}", src);
        let read: Vec<Token> =
            Lexer::new(String::from(src)).lex_all().into_iter().map(|t| t.0).collect();
        assert_eq!(file_tokens(&file), read, "{}", src);
    }
}

fn strength(e: &Expr) -> i32 {
    match e {
        Expr::Binary(b) => b.op.prec(),
        _ => 6,
    }
}

fn grouped(e: &Expr) -> bool {
    match e {
        Expr::Bad(_) | Expr::Ident(_) | Expr::BasicLit(_) => true,
        Expr::Call(c) => {
            grouped(&c.fun) && strength(&c.fun) == 6 && c.args.iter().all(|a| grouped(a))
        }
        Expr::Unary(u) => grouped(&u.x) && strength(&u.x) == 6,
        Expr::Binary(b) => {
            grouped(&b.x)
                && grouped(&b.y)
                && strength(&b.x) >= b.op.prec()
                && strength(&b.y) > b.op.prec()
        }
        Expr::Paren(p) => grouped(&p.x),
    }
}

#[test]
fn every_tree_is_grouped_by_precedence() {
    for src in [
        "a * b + c * d - e / f % g + h",
        "1 - 2 - 3 - 4 * 5 * 6 - 7",
        "-a * -b - (c - d - e) * f(g, h)",
        "1 + * 2 - ) 3 * 4 + 5",
        "x = 1 + 2 * 3 - 4",
    ] {
        let mut parser = Parser::new(Lexer::new(String::from(src)));
        let file = parser.parse_file();
        for s in &file.stmts {
            match &**s {
                Stmt::Expr(s) => assert!(grouped(&s.x), "{}", src),
                Stmt::Assign(s) => assert!(grouped(&s.ptr) && grouped(&s.val), "{}", src),
                _ => {}
            }
        }
    }
}
