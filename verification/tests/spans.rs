use tinyscript::ast::{
    BadExpr, BadStmt, BasicLit, CallExpr, Decl, Expr, File, FunDecl, Ident, Node, Stmt, UnaryExpr,
};
use tinyscript::lexer::Lexer;
use tinyscript::parser::Parser;
use tinyscript::token::Token;

fn parse(src: &str) -> File {
    let mut parser = Parser::new(Lexer::new(String::from(src)));
    let file = parser.parse_file();
    assert!(parser.errors().is_empty(), "{:?}", parser.errors());
    *file
}

fn spans(src: &str) -> Vec<(usize, usize)> {
    parse(src).stmts.iter().map(|s| (s.beg(), s.end())).collect()
}

#[test]
fn leaves_without_offsets_span_nothing() {
    assert_eq!((BadExpr {}.beg(), BadExpr {}.end()), (0, 0));
    assert_eq!((BadStmt {}.beg(), BadStmt {}.end()), (0, 0));
    assert_eq!((FunDecl {}.beg(), FunDecl {}.end()), (0, 0));
    let decl = Decl::Fun(FunDecl {});
    assert_eq!((decl.beg(), decl.end()), (0, 0));
}

#[test]
fn empty_file_spans_nothing() {
    let file = File { stmts: vec![] };
    assert_eq!((file.beg(), file.end()), (0, 0));
}

#[test]
fn names_and_literals_span_their_text() {
    let id = Ident { pos: 3, name: String::from("abc") };
    assert_eq!((id.beg(), id.end()), (3, 6));
    let lit = BasicLit { pos: 2, tok: Token::Integer(String::from("1_000")) };
    assert_eq!((lit.beg(), lit.end()), (2, 7));
    let text = BasicLit { pos: 1, tok: Token::String(String::from("h\u{e9}")) };
    assert_eq!((text.beg(), text.end()), (1, 6));
    let other = BasicLit { pos: 4, tok: Token::Add };
    assert_eq!((other.beg(), other.end()), (4, 4));
}

#[test]
fn statements_span_their_source() {
    assert_eq!(
        spans("var x = 1 + 20\nprintln(x, y);\n  x = (x)\nval k\n-x * 2"),
        vec![(0, 14), (15, 28), (32, 39), (40, 45), (47, 52)]
    );
}

#[test]
fn file_spans_all_statements() {
    let file = parse("  a; b\n c + 10 ");
    assert_eq!((file.beg(), file.end()), (2, 14));
    let one = parse(" 12 ");
    assert_eq!((one.beg(), one.end()), (1, 3));
}

#[test]
fn a_span_holds_the_spans_of_the_parts() {
    let file = parse("f(a, -b)(c) + (d * 2) % 3");
    let Stmt::Expr(stmt) = &*file.stmts[0] else { panic!() };
    fn check(e: &Expr) {
        let inner: Vec<&Expr> = match e {
            Expr::Call(c) => {
                let mut v: Vec<&Expr> = vec![&c.fun];
                v.extend(c.args.iter().map(|a| &**a));
                v
            }
            Expr::Unary(u) => vec![&u.x],
            Expr::Binary(b) => vec![&b.x, &b.y],
            Expr::Paren(p) => vec![&p.x],
            _ => vec![],
        };
        for part in inner {
            assert!(e.beg() <= part.beg() && part.end() <= e.end());
            check(part);
        }
    }
    check(&stmt.x);
    assert_eq!((stmt.x.beg(), stmt.x.end()), (0, 25));
}

#[test]
fn offsets_beyond_the_machine_are_clipped() {
    let id = Ident { pos: usize::MAX - 1, name: String::from("abc") };
    assert_eq!((id.beg(), id.end()), (usize::MAX - 1, usize::MAX));
    let call = CallExpr {
        fun: Box::new(Expr::Ident(Ident { pos: 5, name: String::from("f") })),
        lp_pos: 6,
        args: vec![Box::new(Expr::Unary(UnaryExpr {
            op: Token::Sub,
            x: Box::new(Expr::Ident(id)),
        }))],
        rp_pos: usize::MAX,
    };
    assert_eq!((call.beg(), call.end()), (5, usize::MAX));
}
