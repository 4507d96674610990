use crate::ast::ExprView;
use crate::grammar::{
    parse_binary_expr, parse_binary_rest, parse_call_expr, parse_decl, parse_expr, parse_expr_list,
    parse_expr_list_rest, parse_file, parse_ident, parse_operand, parse_primary_expr,
    parse_primary_rest, parse_stmt, parse_stmts, parse_unary_expr, ParserView,
};
use crate::token::TokenView;
use vstd::prelude::*;

verus! {

/// Whether none of the expressions of `list` holds a `Bad` node.
pub open spec fn none_bad(list: Seq<ExprView>) -> bool {
    forall|i: int| 0 <= i < list.len() ==> !(#[trigger] list[i]).has_bad()
}

/// Whether a step from `st` that gave the expression `r.0` and the state
/// `r.1` was in order: the state follows `st`, and a `Bad` node in the
/// expression has its error.
pub open spec fn step_expr(st: ParserView, r: (ExprView, ParserView)) -> bool {
    &&& st.leads_to(r.1)
    &&& st.clean_to(r.1) ==> !r.0.has_bad()
}

/// The same for a step that went on from the expression `x`.
pub open spec fn step_rest(x: ExprView, st: ParserView, r: (ExprView, ParserView)) -> bool {
    &&& st.leads_to(r.1)
    &&& st.clean_to(r.1) && !x.has_bad() ==> !r.0.has_bad()
}

/// What follows a state follows every state that the state follows.
pub proof fn lemma_leads_to_trans(a: ParserView, b: ParserView, c: ParserView)
    requires
        a.leads_to(b),
        b.leads_to(c),
    ensures
        a.leads_to(c),
        a.clean_to(c) <==> a.clean_to(b) && b.clean_to(c),
{
    assert(c.errors.take(a.errors.len() as int) =~= b.errors.take(a.errors.len() as int));
}

/// The single moves of a parse lead on from the state they find; passing
/// a token records no error, and an error is one more error.
proof fn lemma_moves(st: ParserView, want: TokenView, msg: Seq<char>)
    ensures
        st.leads_to(st.advance()),
        st.clean_to(st.advance()),
        st.leads_to(st.error(msg)),
        !st.clean_to(st.error(msg)),
        st.leads_to(st.error(msg).advance()),
        !st.clean_to(st.error(msg).advance()),
        st.leads_to(st.expect(want, msg).1),
        st.leads_to(st.end_statement()),
{
    assert(st.errors.take(st.errors.len() as int) =~= st.errors);
    assert(st.errors.push((st.pos(), msg)).take(st.errors.len() as int) =~= st.errors);
    assert(st.error("expected semiclon"@).errors.take(st.errors.len() as int) =~= st.errors);
}

/// An expression leaves a state that follows the one it found, and a
/// `Bad` node in it has its error.
pub proof fn lemma_parse_expr(st: ParserView)
    ensures
        step_expr(st, parse_expr(st)),
    decreases st.tokens.len(), 5int,
{
    lemma_parse_binary_expr(st, 1);
}

/// The same for an expression of operators of precedence `prec` or more.
pub proof fn lemma_parse_binary_expr(st: ParserView, prec: int)
    ensures
        step_expr(st, parse_binary_expr(st, prec)),
    decreases st.tokens.len(), 4int,
{
    let (x, st1) = parse_unary_expr(st);
    lemma_parse_unary_expr(st);
    lemma_parse_binary_rest(x, st1, prec);
    lemma_leads_to_trans(st, st1, parse_binary_rest(x, st1, prec).1);
}

/// The same for what follows the left operand `x`.
pub proof fn lemma_parse_binary_rest(x: ExprView, st: ParserView, prec: int)
    ensures
        step_rest(x, st, parse_binary_rest(x, st, prec)),
    decreases st.tokens.len(), 0int,
{
    let op = st.tok();
    lemma_moves(st, op, seq![]);
    if op.is_binary_op() && op.prec() >= prec {
        let (y, st1) = parse_binary_expr(st.advance(), op.prec() + 1);
        lemma_parse_binary_expr(st.advance(), op.prec() + 1);
        lemma_leads_to_trans(st, st.advance(), st1);
        let node = ExprView::Binary { x: Box::new(x), op, y: Box::new(y) };
        if st1.tokens.len() < st.tokens.len() {
            lemma_parse_binary_rest(node, st1, prec);
            lemma_leads_to_trans(st, st1, parse_binary_rest(node, st1, prec).1);
        }
    }
}

/// The same for a unary expression.
pub proof fn lemma_parse_unary_expr(st: ParserView)
    ensures
        step_expr(st, parse_unary_expr(st)),
    decreases st.tokens.len(), 3int,
{
    let op = st.tok();
    lemma_moves(st, op, seq![]);
    if op.is_prefix_op() {
        lemma_parse_unary_expr(st.advance());
        lemma_leads_to_trans(st, st.advance(), parse_unary_expr(st.advance()).1);
    } else {
        lemma_parse_primary_expr(st);
    }
}

/// The same for a primary expression.
pub proof fn lemma_parse_primary_expr(st: ParserView)
    ensures
        step_expr(st, parse_primary_expr(st)),
    decreases st.tokens.len(), 2int,
{
    let (x, st1) = parse_operand(st);
    lemma_parse_operand(st);
    lemma_parse_primary_rest(x, st1);
    lemma_leads_to_trans(st, st1, parse_primary_rest(x, st1).1);
}

/// The same for the calls of the expression `x`.
pub proof fn lemma_parse_primary_rest(x: ExprView, st: ParserView)
    ensures
        step_rest(x, st, parse_primary_rest(x, st)),
    decreases st.tokens.len(), 1int,
{
    lemma_moves(st, TokenView::Lparen, seq![]);
    if st.tok() is Lparen {
        let (call, st1) = parse_call_expr(x, st);
        lemma_parse_call_expr(x, st);
        if st1.tokens.len() < st.tokens.len() {
            lemma_parse_primary_rest(call, st1);
            lemma_leads_to_trans(st, st1, parse_primary_rest(call, st1).1);
        }
    }
}

/// The same for an operand.
pub proof fn lemma_parse_operand(st: ParserView)
    ensures
        step_expr(st, parse_operand(st)),
    decreases st.tokens.len(), 0int,
{
    lemma_moves(st, TokenView::Lparen, "expect Operand"@);
    if st.tok() is Lparen {
        let (x, st1) = parse_expr(st.advance());
        lemma_parse_expr(st.advance());
        lemma_moves(st1, TokenView::Rparen, "expected ')'"@);
        let st2 = st1.expect(TokenView::Rparen, "expected ')'"@).1;
        lemma_leads_to_trans(st, st.advance(), st1);
        lemma_leads_to_trans(st, st1, st2);
    }
}

/// The same for the call of `fun`.
pub proof fn lemma_parse_call_expr(fun: ExprView, st: ParserView)
    ensures
        step_rest(fun, st, parse_call_expr(fun, st)),
    decreases st.tokens.len(),
        if st.tok() is Lparen {
            0int
        } else {
            6int
        },
{
    lemma_moves(st, TokenView::Lparen, "expect Lparen"@);
    let st1 = st.expect(TokenView::Lparen, "expect Lparen"@).1;
    let (args, st2) = parse_expr_list(st1);
    lemma_parse_expr_list(st1);
    lemma_moves(st2, TokenView::Rparen, "expect Rparen"@);
    let st3 = st2.expect(TokenView::Rparen, "expect Rparen"@).1;
    lemma_leads_to_trans(st, st1, st2);
    lemma_leads_to_trans(st, st2, st3);
}

/// The arguments of a call leave a state that follows the one they
/// found, and a `Bad` node in one of them has its error.
pub proof fn lemma_parse_expr_list(st: ParserView)
    ensures
        st.leads_to(parse_expr_list(st).1),
        st.clean_to(parse_expr_list(st).1) ==> none_bad(parse_expr_list(st).0),
    decreases st.tokens.len(), 4int,
{
    let (x, st1) = parse_unary_expr(st);
    lemma_parse_unary_expr(st);
    lemma_parse_expr_list_rest(seq![x], st1);
    lemma_leads_to_trans(st, st1, parse_expr_list_rest(seq![x], st1).1);
}

/// The same for the arguments that follow the arguments `list`.
pub proof fn lemma_parse_expr_list_rest(list: Seq<ExprView>, st: ParserView)
    ensures
        st.leads_to(parse_expr_list_rest(list, st).1),
        st.clean_to(parse_expr_list_rest(list, st).1) && none_bad(list) ==> none_bad(
            parse_expr_list_rest(list, st).0,
        ),
    decreases st.tokens.len(), 0int,
{
    lemma_moves(st, TokenView::Comma, seq![]);
    if st.tok() is Comma {
        let (x, st1) = parse_unary_expr(st.advance());
        lemma_parse_unary_expr(st.advance());
        lemma_leads_to_trans(st, st.advance(), st1);
        if st1.tokens.len() < st.tokens.len() {
            lemma_parse_expr_list_rest(list.push(x), st1);
            lemma_leads_to_trans(st, st1, parse_expr_list_rest(list.push(x), st1).1);
        }
    }
}

/// A statement leaves a state that follows the one it found, and a `Bad`
/// node in it has its error.
pub proof fn lemma_parse_stmt(st: ParserView)
    ensures
        st.leads_to(parse_stmt(st).1),
        st.clean_to(parse_stmt(st).1) ==> !parse_stmt(st).0.has_bad(),
{
    let tok = st.tok();
    lemma_moves(st, tok, "expect Statement"@);
    if tok is Var || tok is Val {
        let st0 = st.advance();
        let (name, st1) = parse_ident(st0);
        lemma_moves(st0, tok, "expect Identifier"@);
        lemma_leads_to_trans(st, st0, st1);
        lemma_moves(st1, tok, seq![]);
        let (decl, st3) = parse_decl(st);
        if st1.tok() is Assign {
            lemma_parse_expr(st1.advance());
            lemma_leads_to_trans(st1, st1.advance(), st3);
            lemma_leads_to_trans(st, st1, st3);
        }
        lemma_moves(st3, tok, seq![]);
        lemma_leads_to_trans(st, st3, st3.end_statement());
    } else {
        let (x, st1) = parse_expr(st);
        lemma_parse_expr(st);
        lemma_moves(st1, tok, seq![]);
        if st1.tok() is Assign {
            let (y, st2) = parse_expr(st1.advance());
            lemma_parse_expr(st1.advance());
            lemma_leads_to_trans(st1, st1.advance(), st2);
            lemma_leads_to_trans(st, st1, st2);
            lemma_moves(st2, tok, seq![]);
            lemma_leads_to_trans(st, st2, st2.end_statement());
        } else {
            lemma_leads_to_trans(st, st1, st1.end_statement());
        }
    }
}

/// The statements of a source leave a state that follows the one they
/// found, at the end of the tokens; and a `Bad` node among them has its
/// error.
pub proof fn lemma_parse_stmts(st: ParserView)
    ensures
        st.leads_to(parse_stmts(st).1),
        parse_stmts(st).1.tok() is Eof,
        st.clean_to(parse_stmts(st).1) ==> forall|i: int|
            0 <= i < parse_stmts(st).0.len() ==> !(#[trigger] parse_stmts(st).0[i]).has_bad(),
    decreases st.tokens.len(),
{
    lemma_moves(st, TokenView::Eof, seq![]);
    if !(st.tok() is Eof) {
        let (stmt, st1) = parse_stmt(st);
        lemma_parse_stmt(st);
        lemma_stmt_consumes(st);
        let (rest, st2) = parse_stmts(st1);
        lemma_parse_stmts(st1);
        lemma_leads_to_trans(st, st1, st2);
        if st.clean_to(st2) {
            assert forall|i: int| 0 <= i < (seq![stmt] + rest).len() implies !(#[trigger] (
            seq![stmt] + rest)[i]).has_bad() by {
                if i > 0 {
                    assert((seq![stmt] + rest)[i] == rest[i - 1]);
                }
            }
        }
    }
}

/// Every statement passes a token, unless none is left.
pub proof fn lemma_stmt_consumes(st: ParserView)
    ensures
        st.tokens.len() > 0 ==> parse_stmt(st).1.tokens.len() < st.tokens.len(),
{
    let tok = st.tok();
    lemma_parse_stmt(st);
    if st.tokens.len() > 0 {
        if tok is Var || tok is Val {
            let st0 = st.advance();
            let (name, st1) = parse_ident(st0);
            let (decl, st3) = parse_decl(st);
            if st1.tok() is Assign {
                lemma_parse_expr(st1.advance());
            }
        } else if crate::grammar::starts_simple_stmt(tok) {
            let (x, st1) = parse_expr(st);
            lemma_expr_consumes(st);
            if st1.tok() is Assign {
                lemma_parse_expr(st1.advance());
            }
        }
    }
}

/// Every expression passes a token, unless none is left.
pub proof fn lemma_expr_consumes(st: ParserView)
    ensures
        st.tokens.len() > 0 ==> parse_expr(st).1.tokens.len() < st.tokens.len(),
        st.tokens.len() > 0 ==> parse_unary_expr(st).1.tokens.len() < st.tokens.len(),
    decreases st.tokens.len(),
{
    if st.tokens.len() > 0 {
        let (u, st1) = parse_unary_expr(st);
        lemma_parse_unary_expr(st);
        lemma_parse_binary_rest(u, st1, 1);
        if st.tok().is_prefix_op() {
            lemma_parse_unary_expr(st.advance());
        } else {
            let (x, st2) = parse_operand(st);
            lemma_parse_operand(st);
            lemma_parse_primary_rest(x, st2);
            if st.tok() is Lparen {
                lemma_parse_expr(st.advance());
                let st3 = parse_expr(st.advance()).1;
                lemma_moves(st3, TokenView::Rparen, "expected ')'"@);
            }
        }
    }
}

/// A parse goes on to the end of the tokens and loses no error. Where it
/// records no error, no `Bad` node stands anywhere in the tree.
pub proof fn theorem_clean_parse_is_whole(st: ParserView)
    ensures
        st.leads_to(parse_file(st).1),
        parse_file(st).1.tok() is Eof,
        st.clean_to(parse_file(st).1) ==> !parse_file(st).0.has_bad(),
{
    lemma_parse_stmts(st);
}

} // verus!
