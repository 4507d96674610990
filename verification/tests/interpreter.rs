use tinyscript::ast::{
    AssignStmt, BadDecl, BadExpr, BadStmt, BasicLit, BinaryExpr, CallExpr, Decl, DeclStmt, Expr,
    ExprStmt, File, FunDecl, Ident, Stmt, UnaryExpr, Visitor,
};
use tinyscript::interpreter::{Interpreter, Operation};
use tinyscript::lexer::Lexer;
use tinyscript::parser::Parser;
use tinyscript::token::Token;

fn parse(src: &str) -> File {
    let mut parser = Parser::new(Lexer::new(String::from(src)));
    let file = parser.parse_file();
    assert!(parser.errors().is_empty(), "{:?}", parser.errors());
    *file
}

/// Performs the operations in floating point, and collects the output.
fn perform(ops: &[Operation]) -> (Vec<f64>, String) {
    let mut values: Vec<f64> = Vec::new();
    let mut out = String::new();
    for op in ops {
        let v = match op {
            Operation::Nan => f64::NAN,
            Operation::Zero => 0.0,
            Operation::Integer(text) => text.parse::<i64>().unwrap() as f64,
            Operation::Float(text) => text.parse::<f64>().unwrap(),
            Operation::Neg(a) => -values[*a],
            Operation::Add(a, b) => values[*a] + values[*b],
            Operation::Sub(a, b) => values[*a] - values[*b],
            Operation::Mul(a, b) => values[*a] * values[*b],
            Operation::Div(a, b) => values[*a] / values[*b],
            Operation::Rem(a, b) => values[*a] % values[*b],
            Operation::Print(args) => {
                for a in args {
                    out.push_str(&format!("{} ", values[*a]));
                }
                f64::NAN
            }
            Operation::Println(args) => {
                for a in args {
                    out.push_str(&format!("{} ", values[*a]));
                }
                out.push('\n');
                f64::NAN
            }
        };
        values.push(v);
    }
    (values, out)
}

fn evaluate_file(file: &File) -> (f64, String) {
    let mut interpreter = Interpreter::new();
    let result = interpreter.visit_file(file);
    let (values, out) = perform(interpreter.operations());
    (values[result], out)
}

fn evaluate(src: &str) -> (f64, String) {
    evaluate_file(&parse(src))
}

fn trace(src: &str) -> (usize, Vec<Operation>) {
    let file = parse(src);
    let mut interpreter = Interpreter::new();
    let result = interpreter.visit_file(&file);
    let ops = interpreter.operations().iter().map(copy).collect();
    (result, ops)
}

fn copy(op: &Operation) -> Operation {
    match op {
        Operation::Nan => Operation::Nan,
        Operation::Zero => Operation::Zero,
        Operation::Integer(t) => Operation::Integer(t.clone()),
        Operation::Float(t) => Operation::Float(t.clone()),
        Operation::Neg(a) => Operation::Neg(*a),
        Operation::Add(a, b) => Operation::Add(*a, *b),
        Operation::Sub(a, b) => Operation::Sub(*a, *b),
        Operation::Mul(a, b) => Operation::Mul(*a, *b),
        Operation::Div(a, b) => Operation::Div(*a, *b),
        Operation::Rem(a, b) => Operation::Rem(*a, *b),
        Operation::Print(a) => Operation::Print(a.clone()),
        Operation::Println(a) => Operation::Println(a.clone()),
    }
}

fn integer(text: &str) -> Operation {
    Operation::Integer(String::from(text))
}

fn name(text: &str) -> Box<Expr> {
    Box::new(Expr::Ident(Ident { pos: 0, name: String::from(text) }))
}

fn number(text: &str) -> Box<Expr> {
    Box::new(Expr::BasicLit(BasicLit { pos: 0, tok: Token::Integer(String::from(text)) }))
}

fn expr_stmt(x: Box<Expr>) -> Box<Stmt> {
    Box::new(Stmt::Expr(ExprStmt { x }))
}

#[test]
fn precedence_evaluates_to_seven() {
    assert_eq!(evaluate("1 + 2 * 3;"), (7.0, String::new()));
}

#[test]
fn left_grouping_evaluates_to_two() {
    assert_eq!(evaluate("8 - 4 - 2;"), (2.0, String::new()));
}

#[test]
fn assignment_is_read_back() {
    let (_, out) = evaluate("var x = 1; x = x + 1; println(x);");
    assert_eq!(out, "2 \n");
}

#[test]
fn unbound_name_prints_nan_and_goes_on() {
    let (result, out) = evaluate("println(y); println(1);");
    assert_eq!(out, "NaN \n1 \n");
    assert!(result.is_nan());
}

#[test]
fn empty_file_is_zero() {
    assert_eq!(evaluate(""), (0.0, String::new()));
    assert_eq!(trace(""), (0, vec![Operation::Zero]));
}

#[test]
fn file_gives_the_value_of_its_last_statement() {
    assert_eq!(evaluate("1; 2; 3").0, 3.0);
    assert_eq!(evaluate("var x = 4; x = 5").0, 5.0);
}

#[test]
fn operations_are_listed_in_order_of_evaluation() {
    assert_eq!(
        trace("1 + 2 * 3;"),
        (
            4,
            vec![
                integer("1"),
                integer("2"),
                integer("3"),
                Operation::Mul(1, 2),
                Operation::Add(0, 3),
            ]
        )
    );
}

#[test]
fn arithmetic_follows_floating_point() {
    assert_eq!(evaluate("7 / 2").0, 3.5);
    assert_eq!(evaluate("7 % 4").0, 3.0);
    assert_eq!(evaluate("2 * 3 - 10").0, -4.0);
    assert_eq!(evaluate("1 / 0").0, f64::INFINITY);
    assert_eq!(evaluate("-1 / 0").0, f64::NEG_INFINITY);
    assert!(evaluate("0 / 0").0.is_nan());
    assert!(evaluate("1 + nothing").0.is_nan());
}

#[test]
fn prefix_plus_is_identity_and_minus_negates() {
    assert_eq!(trace("+1"), (0, vec![integer("1")]));
    assert_eq!(trace("-1"), (1, vec![integer("1"), Operation::Neg(0)]));
    assert_eq!(evaluate("- - 5").0, 5.0);
    assert_eq!(evaluate("-(2 + 3)").0, -5.0);
}

#[test]
fn numeral_with_a_dot_is_a_float() {
    assert_eq!(trace("1.5"), (0, vec![Operation::Float(String::from("1.5"))]));
    assert_eq!(evaluate("1.5 + 1").0, 2.5);
}

#[test]
fn float_token_is_a_float_and_string_has_no_value() {
    let file = File {
        stmts: vec![
            expr_stmt(Box::new(Expr::BasicLit(BasicLit {
                pos: 0,
                tok: Token::String(String::from("12")),
            }))),
            expr_stmt(Box::new(Expr::BasicLit(BasicLit {
                pos: 0,
                tok: Token::Float(String::from("2")),
            }))),
        ],
    };
    let mut interpreter = Interpreter::new();
    assert_eq!(interpreter.visit_file(&file), 1);
    assert_eq!(
        interpreter.operations(),
        &vec![Operation::Nan, Operation::Float(String::from("2"))]
    );
    assert!(evaluate("\"text\"").0.is_nan());
}

#[test]
fn declaration_without_value_binds_zero() {
    assert_eq!(trace("var x"), (0, vec![Operation::Zero]));
    assert_eq!(evaluate("var x; x + 1").0, 1.0);
    assert_eq!(evaluate("val k; k").0, 0.0);
}

#[test]
fn declaration_overwrites_an_earlier_binding() {
    assert_eq!(evaluate("var x = 1; var x = 2; x").0, 2.0);
    assert_eq!(evaluate("val x = 1; x = 3; x").0, 3.0);
}

#[test]
fn names_stand_for_the_value_bound_last() {
    let file = parse("var a = 1; var b = 2; a = b; b = 3; a + b");
    let mut interpreter = Interpreter::new();
    let result = interpreter.visit_file(&file);
    assert_eq!(
        interpreter.operations(),
        &vec![integer("1"), integer("2"), integer("3"), Operation::Add(1, 2)]
    );
    assert_eq!(result, 3);
    assert_eq!(interpreter.get(&String::from("a")), Some(1));
    assert_eq!(interpreter.get(&String::from("b")), Some(2));
    assert_eq!(interpreter.get(&String::from("c")), None);
}

#[test]
fn assignment_to_something_else_than_a_name_has_no_value() {
    assert_eq!(trace("1 = print(2)"), (0, vec![Operation::Nan]));
    assert_eq!(evaluate("var x = 1; -x = 2; x").0, 1.0);
}

#[test]
fn print_writes_values_with_spaces() {
    assert_eq!(evaluate("print(1, 2.5); print(-3)").1, "1 2.5 -3 ");
    assert_eq!(evaluate("println(1, 2)\nprintln(3)").1, "1 2 \n3 \n");
    assert!(evaluate("print(1)").0.is_nan());
}

#[test]
fn other_calls_evaluate_their_arguments_and_have_no_value() {
    assert_eq!(
        trace("f(print(1), 2)"),
        (3, vec![integer("1"), Operation::Print(vec![0]), integer("2"), Operation::Nan])
    );
    let (result, out) = evaluate("f(println(1))");
    assert!(result.is_nan());
    assert_eq!(out, "1 \n");
}

#[test]
fn what_is_called_is_not_evaluated() {
    assert_eq!(
        trace("print(1)(2)"),
        (1, vec![integer("2"), Operation::Nan])
    );
}

#[test]
fn bad_nodes_have_no_value_and_do_not_stop_the_pass() {
    let file = File {
        stmts: vec![
            Box::new(Stmt::Bad(BadStmt {})),
            Box::new(Stmt::Decl(DeclStmt { decl: Box::new(Decl::Bad(BadDecl {})) })),
            Box::new(Stmt::Decl(DeclStmt { decl: Box::new(Decl::Fun(FunDecl {})) })),
            expr_stmt(Box::new(Expr::Bad(BadExpr {}))),
            expr_stmt(Box::new(Expr::Call(CallExpr {
                fun: name("println"),
                lp_pos: 0,
                args: vec![number("4")],
                rp_pos: 0,
            }))),
        ],
    };
    let (result, out) = evaluate_file(&file);
    assert!(result.is_nan());
    assert_eq!(out, "4 \n");
}

#[test]
fn operators_that_do_not_compute_have_no_value() {
    let file = File {
        stmts: vec![
            expr_stmt(Box::new(Expr::Binary(BinaryExpr {
                x: number("1"),
                op: Token::Lss,
                y: number("2"),
            }))),
            expr_stmt(Box::new(Expr::Unary(UnaryExpr { op: Token::Exel, x: number("3") }))),
        ],
    };
    let mut interpreter = Interpreter::new();
    let result = interpreter.visit_file(&file);
    assert_eq!(
        interpreter.operations(),
        &vec![integer("1"), integer("2"), Operation::Nan, integer("3"), Operation::Nan]
    );
    assert_eq!(result, 4);
}

#[test]
fn assignment_statement_node_binds_the_target() {
    let file = File {
        stmts: vec![Box::new(Stmt::Assign(AssignStmt {
            ptr: name("t"),
            pos: 0,
            tok: Token::Assign,
            val: number("9"),
        }))],
    };
    let mut interpreter = Interpreter::new();
    assert_eq!(interpreter.visit_file(&file), 0);
    assert_eq!(interpreter.get(&String::from("t")), Some(0));
}

#[test]
fn every_operation_reads_earlier_results() {
    let (result, ops) =
        trace("var a = 1\nvar b = -a * (a + 2) % 3\nprintln(a, b, c, f(a, -b))\nb = b - 1\n");
    assert!(result < ops.len());
    for (i, op) in ops.iter().enumerate() {
        let reads: Vec<usize> = match op {
            Operation::Neg(a) => vec![*a],
            Operation::Add(a, b)
            | Operation::Sub(a, b)
            | Operation::Mul(a, b)
            | Operation::Div(a, b)
            | Operation::Rem(a, b) => vec![*a, *b],
            Operation::Print(args) | Operation::Println(args) => args.clone(),
            _ => vec![],
        };
        assert!(reads.iter().all(|r| *r < i));
    }
}

#[test]
fn evaluating_twice_gives_the_same_operations() {
    let src = "var x = 1\nx = x + 1\nprintln(x, y)";
    assert_eq!(trace(src), trace(src));
}

#[test]
fn one_interpreter_keeps_its_environment_between_files() {
    let mut interpreter = Interpreter::new();
    interpreter.visit_file(&parse("var x = 2"));
    let result = interpreter.visit_file(&parse("x * x"));
    let (values, _) = perform(interpreter.operations());
    assert_eq!(values[result], 4.0);
}
