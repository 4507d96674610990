use crate::ast::{DeclView, ExprView, StmtView};
use crate::grammar::{
    parse_binary_expr, parse_binary_rest, parse_call_expr, parse_expr, parse_expr_list,
    parse_expr_list_rest, parse_file, parse_operand, parse_primary_expr, parse_primary_rest,
    parse_stmt, parse_stmts, parse_unary_expr, ParserView,
};
use crate::recovery::{lemma_parse_binary_expr, lemma_parse_operand, lemma_parse_unary_expr};
use crate::token::{TokenView, UNARY_PREC};
use vstd::prelude::*;

verus! {

/// How tightly the expression `e` holds together: the precedence of its
/// operator if it is two operands with a binary operator between them,
/// and `UNARY_PREC` if it is anything else.
pub open spec fn strength(e: ExprView) -> int {
    match e {
        ExprView::Binary { op, .. } => op.prec(),
        _ => UNARY_PREC as int,
    }
}

/// Whether the operators of `e` are grouped by precedence, and to the
/// left among operators of one precedence: everywhere in `e`, the left
/// operand of a binary operator holds together at least as tightly as
/// the operator binds, and the right operand more tightly; and what a
/// prefix operator or a call applies to is no binary expression.
pub open spec fn grouped(e: ExprView) -> bool
    decreases e,
{
    match e {
        ExprView::Bad => true,
        ExprView::Ident { .. } => true,
        ExprView::BasicLit { .. } => true,
        ExprView::Call { fun, args, .. } => grouped(*fun) && !(*fun is Binary) && forall|i: int|
            0 <= i < args.len() ==> grouped(#[trigger] args[i]),
        ExprView::Unary { x, .. } => grouped(*x) && !(*x is Binary),
        ExprView::Binary { x, op, y } => {
            &&& op.is_binary_op()
            &&& grouped(*x)
            &&& grouped(*y)
            &&& strength(*x) >= op.prec()
            &&& strength(*y) > op.prec()
        },
        ExprView::Paren { x, .. } => grouped(*x),
    }
}

/// Whether every expression of `list` is grouped by precedence.
pub open spec fn all_grouped(list: Seq<ExprView>) -> bool {
    forall|i: int| 0 <= i < list.len() ==> grouped(#[trigger] list[i])
}

/// Whether every expression of the statement is grouped by precedence.
pub open spec fn stmt_grouped(s: StmtView) -> bool {
    match s {
        StmtView::Bad => true,
        StmtView::Decl(d) => d matches DeclView::Binding { value: Some(e), .. } ==> grouped(e),
        StmtView::Expr(e) => grouped(e),
        StmtView::Assign { ptr, val, .. } => grouped(ptr) && grouped(val),
    }
}

/// Whether no binary operator of precedence `prec` or more stands under
/// the cursor of `st`.
pub open spec fn stops(st: ParserView, prec: int) -> bool {
    !(st.tok().is_binary_op() && st.tok().prec() >= prec)
}

/// An expression that the parser gives is grouped, and ends before the
/// first binary operator that does not belong to it.
pub proof fn lemma_expr_grouped(st: ParserView)
    ensures
        grouped(parse_expr(st).0),
        stops(parse_expr(st).1, 1),
    decreases st.tokens.len(), 5int,
{
    lemma_binary_grouped(st, 1);
}

/// An expression read for operators of precedence `prec` or more is
/// grouped, holds together with `prec` at least, and ends before the
/// first operator that does not belong to it.
pub proof fn lemma_binary_grouped(st: ParserView, prec: int)
    requires
        prec <= UNARY_PREC,
    ensures
        grouped(parse_binary_expr(st, prec).0),
        strength(parse_binary_expr(st, prec).0) >= prec,
        stops(parse_binary_expr(st, prec).1, prec),
    decreases st.tokens.len(), 4int,
{
    let (x, st1) = parse_unary_expr(st);
    lemma_unary_grouped(st);
    lemma_parse_unary_expr(st);
    lemma_binary_rest_grouped(x, st1, prec);
}

/// What goes on from a grouped left operand that holds together with
/// `prec` at least, before an operator that binds no tighter than it
/// holds together, is grouped again.
pub proof fn lemma_binary_rest_grouped(x: ExprView, st: ParserView, prec: int)
    requires
        prec <= UNARY_PREC,
        grouped(x),
        strength(x) >= prec,
        stops(st, strength(x) + 1),
    ensures
        grouped(parse_binary_rest(x, st, prec).0),
        strength(parse_binary_rest(x, st, prec).0) >= prec,
        stops(parse_binary_rest(x, st, prec).1, prec),
    decreases st.tokens.len(), 0int,
{
    let op = st.tok();
    if op.is_binary_op() && op.prec() >= prec {
        let (y, st1) = parse_binary_expr(st.advance(), op.prec() + 1);
        lemma_binary_grouped(st.advance(), op.prec() + 1);
        lemma_parse_binary_expr(st.advance(), op.prec() + 1);
        let node = ExprView::Binary { x: Box::new(x), op, y: Box::new(y) };
        assert(grouped(node));
        lemma_binary_rest_grouped(node, st1, prec);
    }
}

/// A unary expression that the parser gives is grouped, and is no binary
/// expression.
pub proof fn lemma_unary_grouped(st: ParserView)
    ensures
        grouped(parse_unary_expr(st).0),
        !(parse_unary_expr(st).0 is Binary),
    decreases st.tokens.len(), 3int,
{
    if st.tok().is_prefix_op() {
        lemma_unary_grouped(st.advance());
    } else {
        lemma_primary_grouped(st);
    }
}

/// A primary expression that the parser gives is grouped, and is no
/// binary expression.
pub proof fn lemma_primary_grouped(st: ParserView)
    ensures
        grouped(parse_primary_expr(st).0),
        !(parse_primary_expr(st).0 is Binary),
    decreases st.tokens.len(), 2int,
{
    let (x, st1) = parse_operand(st);
    lemma_operand_grouped(st);
    lemma_parse_operand(st);
    lemma_primary_rest_grouped(x, st1);
}

/// The calls of a grouped expression that is no binary expression are
/// grouped, and are no binary expressions.
pub proof fn lemma_primary_rest_grouped(x: ExprView, st: ParserView)
    requires
        grouped(x),
        !(x is Binary),
    ensures
        grouped(parse_primary_rest(x, st).0),
        !(parse_primary_rest(x, st).0 is Binary),
    decreases st.tokens.len(), 1int,
{
    if st.tok() is Lparen {
        let (call, st1) = parse_call_expr(x, st);
        lemma_call_grouped(x, st);
        if st1.tokens.len() < st.tokens.len() {
            lemma_primary_rest_grouped(call, st1);
        }
    }
}

/// An operand that the parser gives is grouped, and is no binary
/// expression.
pub proof fn lemma_operand_grouped(st: ParserView)
    ensures
        grouped(parse_operand(st).0),
        !(parse_operand(st).0 is Binary),
    decreases st.tokens.len(), 0int,
{
    if st.tok() is Lparen {
        lemma_expr_grouped(st.advance());
    }
}

/// The call of a grouped expression that is no binary expression is
/// grouped.
pub proof fn lemma_call_grouped(fun: ExprView, st: ParserView)
    requires
        grouped(fun),
        !(fun is Binary),
    ensures
        grouped(parse_call_expr(fun, st).0),
        !(parse_call_expr(fun, st).0 is Binary),
    decreases st.tokens.len(),
        if st.tok() is Lparen {
            0int
        } else {
            6int
        },
{
    let st1 = st.expect(TokenView::Lparen, "expect Lparen"@).1;
    lemma_expr_list_grouped(st1);
    let (args, st2) = parse_expr_list(st1);
    assert(all_grouped(args));
    let (call, st3) = parse_call_expr(fun, st);
    assert(call->Call_args == args);
    assert(*call->Call_fun == fun);
}

/// The arguments that the parser gives are grouped.
pub proof fn lemma_expr_list_grouped(st: ParserView)
    ensures
        all_grouped(parse_expr_list(st).0),
    decreases st.tokens.len(), 4int,
{
    let (x, st1) = parse_unary_expr(st);
    lemma_unary_grouped(st);
    lemma_parse_unary_expr(st);
    assert(all_grouped(seq![x]));
    lemma_expr_list_rest_grouped(seq![x], st1);
}

/// The arguments that follow grouped arguments are grouped.
pub proof fn lemma_expr_list_rest_grouped(list: Seq<ExprView>, st: ParserView)
    requires
        all_grouped(list),
    ensures
        all_grouped(parse_expr_list_rest(list, st).0),
    decreases st.tokens.len(), 0int,
{
    if st.tok() is Comma {
        let (x, st1) = parse_unary_expr(st.advance());
        lemma_unary_grouped(st.advance());
        assert forall|i: int| 0 <= i < list.push(x).len() implies grouped(
            #[trigger] list.push(x)[i],
        ) by {
            if i < list.len() {
                assert(list.push(x)[i] == list[i]);
            }
        }
        if st1.tokens.len() < st.tokens.len() {
            lemma_expr_list_rest_grouped(list.push(x), st1);
        }
    }
}

/// The expressions of all the statements that the parser gives are
/// grouped.
proof fn lemma_stmts_grouped(st: ParserView)
    ensures
        forall|i: int|
            0 <= i < parse_stmts(st).0.len() ==> stmt_grouped(#[trigger] parse_stmts(st).0[i]),
    decreases st.tokens.len(),
{
    if !(st.tok() is Eof) {
        let (stmt, st1) = parse_stmt(st);
        theorem_stmt_grouped(st);
        if st1.tokens.len() < st.tokens.len() {
            let (rest, st2) = parse_stmts(st1);
            lemma_stmts_grouped(st1);
            assert forall|i: int| 0 <= i < (seq![stmt] + rest).len() implies stmt_grouped(
                #[trigger] (seq![stmt] + rest)[i],
            ) by {
                if i > 0 {
                    assert((seq![stmt] + rest)[i] == rest[i - 1]);
                }
            }
        }
    }
}

/// Whatever the tokens are, the expressions of a statement that the
/// parser gives are grouped by precedence, and to the left among
/// operators of one precedence.
pub proof fn theorem_stmt_grouped(st: ParserView)
    ensures
        stmt_grouped(parse_stmt(st).0),
{
    let tok = st.tok();
    if tok is Var || tok is Val {
        let st1 = crate::grammar::parse_ident(st.advance()).1;
        if st1.tok() is Assign {
            lemma_expr_grouped(st1.advance());
        }
    } else {
        let (x, st1) = parse_expr(st);
        lemma_expr_grouped(st);
        if st1.tok() is Assign {
            lemma_expr_grouped(st1.advance());
        }
    }
}

/// Whatever the tokens are, every expression of the tree that the parser
/// gives is grouped by precedence, and to the left among operators of one
/// precedence.
pub proof fn theorem_file_grouped(st: ParserView)
    ensures
        forall|i: int|
            0 <= i < parse_file(st).0.stmts.len() ==> stmt_grouped(
                #[trigger] parse_file(st).0.stmts[i],
            ),
{
    lemma_stmts_grouped(st);
}

} // verus!
