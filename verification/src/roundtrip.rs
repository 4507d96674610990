use crate::acceptance::{reads, skip};
use crate::ast::{ExprView, FileView, StmtView};
use crate::grammar::{
    parse_binary_expr, parse_binary_rest, parse_call_expr, parse_decl, parse_expr, parse_expr_list,
    parse_expr_list_rest, parse_file, parse_ident, parse_operand, parse_primary_expr,
    parse_primary_rest, parse_stmt, parse_stmts, parse_unary_expr, starts_simple_stmt, ParserView,
};
use crate::recovery::{
    lemma_leads_to_trans, lemma_parse_binary_expr, lemma_parse_binary_rest, lemma_parse_call_expr,
    lemma_parse_expr, lemma_parse_expr_list, lemma_parse_expr_list_rest, lemma_parse_operand,
    lemma_parse_primary_rest, lemma_parse_stmt, lemma_parse_stmts, lemma_parse_unary_expr,
};
use crate::syntax::{
    args_tokens, expr_tokens, file_tokens, is_expr, is_file, is_operand, is_primary, is_stmt,
    is_unary, kinds, lemma_levels, stmt_tokens, stmts_tokens,
};
use crate::token::TokenView;
use vstd::prelude::*;

verus! {

/// Whether `after` is `before` once the tokens `w`, which stand first in
/// `before`, are passed, with nothing else changed.
pub open spec fn passes(before: ParserView, after: ParserView, w: Seq<TokenView>) -> bool {
    reads(before, 0, w) && after == skip(before, w.len() as int)
}

/// A state is itself once no token is passed.
proof fn lemma_passes_none(st: ParserView)
    ensures
        passes(st, st, Seq::empty()),
{
    assert(st.tokens.skip(0) =~= st.tokens);
    assert(kinds(st.tokens).subrange(0, 0) =~= Seq::<TokenView>::empty());
}

/// Passing the token under the cursor passes that token.
proof fn lemma_passes_one(st: ParserView)
    requires
        st.tokens.len() > 0,
    ensures
        passes(st, st.advance(), seq![st.tok()]),
{
    assert(st.tokens.skip(1) =~= st.tokens.drop_first());
    assert(kinds(st.tokens).subrange(0, 1) =~= seq![st.tok()]);
}

/// What passes one list of tokens and then another passes the two, one
/// after the other.
proof fn lemma_passes_concat(
    a: ParserView,
    b: ParserView,
    c: ParserView,
    w1: Seq<TokenView>,
    w2: Seq<TokenView>,
)
    requires
        passes(a, b, w1),
        passes(b, c, w2),
    ensures
        passes(a, c, w1 + w2),
{
    let n1 = w1.len() as int;
    let n2 = w2.len() as int;
    assert(a.tokens.skip(n1).skip(n2) =~= a.tokens.skip(n1 + n2));
    assert(kinds(a.tokens).subrange(0, n1 + n2) =~= kinds(a.tokens).subrange(0, n1) + kinds(
        b.tokens,
    ).subrange(0, n2));
}

/// Whether the step from `st` that gave `r` read what it gave, if it
/// recorded no error: the expression is one of the grammar, and its
/// tokens are those that were passed.
pub open spec fn reads_back(st: ParserView, r: (ExprView, ParserView)) -> bool {
    st.clean_to(r.1) ==> is_expr(r.0) && passes(st, r.1, expr_tokens(r.0))
}

/// An expression that was read without an error is one of the grammar,
/// and its tokens are those that were passed.
pub proof fn lemma_expr_reads_back(st: ParserView)
    ensures
        reads_back(st, parse_expr(st)),
    decreases st.tokens.len(), 5int,
{
    lemma_binary_reads_back(st, 1);
}

/// The same for an expression of operators of precedence `prec` or more.
pub proof fn lemma_binary_reads_back(st: ParserView, prec: int)
    ensures
        reads_back(st, parse_binary_expr(st, prec)),
    decreases st.tokens.len(), 4int,
{
    let (x, st1) = parse_unary_expr(st);
    lemma_unary_reads_back(st);
    lemma_parse_unary_expr(st);
    lemma_parse_binary_rest(x, st1, prec);
    let (e, st2) = parse_binary_rest(x, st1, prec);
    lemma_leads_to_trans(st, st1, st2);
    if st.clean_to(st2) {
        lemma_levels(x);
        lemma_binary_rest_reads_back(x, st, st1, prec);
    }
}

/// The same for what follows the left operand `x`, which was read
/// between `st0` and `st`.
proof fn lemma_binary_rest_reads_back(x: ExprView, st0: ParserView, st: ParserView, prec: int)
    requires
        is_expr(x),
        passes(st0, st, expr_tokens(x)),
    ensures
        st.clean_to(parse_binary_rest(x, st, prec).1) ==> is_expr(parse_binary_rest(x, st, prec).0)
            && passes(
            st0,
            parse_binary_rest(x, st, prec).1,
            expr_tokens(parse_binary_rest(x, st, prec).0),
        ),
    decreases st.tokens.len(), 0int,
{
    let op = st.tok();
    if op.is_binary_op() && op.prec() >= prec {
        let sa = st.advance();
        let (y, st1) = parse_binary_expr(sa, op.prec() + 1);
        lemma_binary_reads_back(sa, op.prec() + 1);
        lemma_parse_binary_expr(sa, op.prec() + 1);
        let node = ExprView::Binary { x: Box::new(x), op, y: Box::new(y) };
        lemma_parse_binary_rest(node, st1, prec);
        let (e, st2) = parse_binary_rest(node, st1, prec);
        assert(st.leads_to(sa) && st.clean_to(sa)) by {
            assert(st.errors.take(st.errors.len() as int) =~= st.errors);
        }
        lemma_leads_to_trans(st, sa, st1);
        lemma_leads_to_trans(st, st1, st2);
        if st.clean_to(st2) {
            lemma_passes_one(st);
            lemma_passes_concat(st0, st, sa, expr_tokens(x), seq![op]);
            lemma_passes_concat(st0, sa, st1, expr_tokens(x) + seq![op], expr_tokens(y));
            assert(is_expr(node));
            lemma_binary_rest_reads_back(node, st0, st1, prec);
        }
    }
}

/// A unary expression that was read without an error is one of the
/// grammar, and its tokens are those that were passed.
pub proof fn lemma_unary_reads_back(st: ParserView)
    ensures
        st.clean_to(parse_unary_expr(st).1) ==> is_unary(parse_unary_expr(st).0) && passes(
            st,
            parse_unary_expr(st).1,
            expr_tokens(parse_unary_expr(st).0),
        ),
    decreases st.tokens.len(), 3int,
{
    let op = st.tok();
    if op.is_prefix_op() {
        let sa = st.advance();
        let (x, st1) = parse_unary_expr(sa);
        lemma_unary_reads_back(sa);
        lemma_parse_unary_expr(sa);
        assert(st.leads_to(sa) && st.clean_to(sa)) by {
            assert(st.errors.take(st.errors.len() as int) =~= st.errors);
        }
        lemma_leads_to_trans(st, sa, st1);
        if st.clean_to(st1) {
            lemma_passes_one(st);
            lemma_passes_concat(st, sa, st1, seq![op], expr_tokens(x));
        }
    } else {
        lemma_primary_reads_back(st);
        lemma_levels(parse_primary_expr(st).0);
    }
}

/// The same for a primary expression.
pub proof fn lemma_primary_reads_back(st: ParserView)
    ensures
        st.clean_to(parse_primary_expr(st).1) ==> is_primary(parse_primary_expr(st).0) && passes(
            st,
            parse_primary_expr(st).1,
            expr_tokens(parse_primary_expr(st).0),
        ),
    decreases st.tokens.len(), 2int,
{
    let (x, st1) = parse_operand(st);
    lemma_operand_reads_back(st);
    lemma_parse_operand(st);
    lemma_parse_primary_rest(x, st1);
    let (e, st2) = parse_primary_rest(x, st1);
    lemma_leads_to_trans(st, st1, st2);
    if st.clean_to(st2) {
        lemma_levels(x);
        lemma_primary_rest_reads_back(x, st, st1);
    }
}

/// The same for the calls of the expression `x`, which was read between
/// `st0` and `st`.
proof fn lemma_primary_rest_reads_back(x: ExprView, st0: ParserView, st: ParserView)
    requires
        is_primary(x),
        passes(st0, st, expr_tokens(x)),
    ensures
        st.clean_to(parse_primary_rest(x, st).1) ==> is_primary(parse_primary_rest(x, st).0)
            && passes(st0, parse_primary_rest(x, st).1, expr_tokens(parse_primary_rest(x, st).0)),
    decreases st.tokens.len(), 1int,
{
    if st.tok() is Lparen {
        let (call, st1) = parse_call_expr(x, st);
        lemma_call_reads_back(x, st0, st);
        lemma_parse_call_expr(x, st);
        if st1.tokens.len() < st.tokens.len() {
            lemma_parse_primary_rest(call, st1);
            let (e, st2) = parse_primary_rest(call, st1);
            lemma_leads_to_trans(st, st1, st2);
            if st.clean_to(st2) {
                lemma_primary_rest_reads_back(call, st0, st1);
            }
        }
    }
}

/// The same for an operand.
pub proof fn lemma_operand_reads_back(st: ParserView)
    ensures
        st.clean_to(parse_operand(st).1) ==> is_operand(parse_operand(st).0) && passes(
            st,
            parse_operand(st).1,
            expr_tokens(parse_operand(st).0),
        ),
    decreases st.tokens.len(), 0int,
{
    let tok = st.tok();
    assert(st.leads_to(st.advance()) && st.clean_to(st.advance())) by {
        assert(st.errors.take(st.errors.len() as int) =~= st.errors);
    }
    match tok {
        TokenView::Ident(name) => {
            lemma_passes_one(st);
        },
        TokenView::Integer(_) | TokenView::Float(_) | TokenView::String(_) => {
            lemma_passes_one(st);
        },
        TokenView::Lparen => {
            let sa = st.advance();
            let (x, st1) = parse_expr(sa);
            lemma_expr_reads_back(sa);
            lemma_parse_expr(sa);
            let (r_pos, st2) = st1.expect(TokenView::Rparen, "expected ')'"@);
            lemma_expect(st1, TokenView::Rparen, "expected ')'"@);
            lemma_leads_to_trans(st, sa, st1);
            lemma_leads_to_trans(st, st1, st2);
            if st.clean_to(st2) {
                lemma_passes_one(st);
                lemma_passes_concat(st, sa, st1, seq![TokenView::Lparen], expr_tokens(x));
                lemma_passes_one(st1);
                lemma_passes_concat(
                    st,
                    st1,
                    st2,
                    seq![TokenView::Lparen] + expr_tokens(x),
                    seq![TokenView::Rparen],
                );
            }
        },
        _ => {
            assert(st.error("expect Operand"@).advance().errors.len() == st.errors.len() + 1);
        },
    }
}

/// A token that is asked for is passed, or its absence is an error.
proof fn lemma_expect(st: ParserView, want: TokenView, msg: Seq<char>)
    ensures
        st.leads_to(st.expect(want, msg).1),
        st.clean_to(st.expect(want, msg).1) ==> st.tok() == want && st.expect(want, msg).1
            == st.advance(),
        st.tok() == want && !(want is Eof) ==> st.tokens.len() > 0,
{
    assert(st.errors.take(st.errors.len() as int) =~= st.errors);
    assert(st.errors.push((st.pos(), msg)).take(st.errors.len() as int) =~= st.errors);
}

/// Whether every expression of `list` is a unary expression.
pub open spec fn all_unary(list: Seq<ExprView>) -> bool {
    forall|i: int| 0 <= i < list.len() ==> is_unary(#[trigger] list[i])
}

/// One more argument is written with a comma and its tokens after those
/// of the arguments before it.
proof fn lemma_args_tokens_push(list: Seq<ExprView>, x: ExprView, from: int)
    requires
        0 <= from < list.len(),
    ensures
        args_tokens(list.push(x), from) == args_tokens(list, from) + seq![TokenView::Comma]
            + expr_tokens(x),
    decreases list.len() - from,
{
    let more = list.push(x);
    assert(more[from] == list[from]);
    if from + 1 < list.len() {
        lemma_args_tokens_push(list, x, from + 1);
        assert(expr_tokens(list[from]) + seq![TokenView::Comma] + (args_tokens(list, from + 1)
            + seq![TokenView::Comma] + expr_tokens(x)) =~= (expr_tokens(list[from])
            + seq![TokenView::Comma] + args_tokens(list, from + 1)) + seq![TokenView::Comma]
            + expr_tokens(x));
    } else {
        assert(more[from + 1] == x);
        assert(args_tokens(more, from + 1) == expr_tokens(x));
    }
}

/// The same for the call of `fun`, which was read between `st0` and
/// `st`.
proof fn lemma_call_reads_back(fun: ExprView, st0: ParserView, st: ParserView)
    requires
        is_primary(fun),
        passes(st0, st, expr_tokens(fun)),
    ensures
        st.clean_to(parse_call_expr(fun, st).1) ==> is_primary(parse_call_expr(fun, st).0)
            && passes(st0, parse_call_expr(fun, st).1, expr_tokens(parse_call_expr(fun, st).0)),
    decreases st.tokens.len(),
        if st.tok() is Lparen {
            0int
        } else {
            6int
        },
{
    let (lp_pos, st1) = st.expect(TokenView::Lparen, "expect Lparen"@);
    let (args, st2) = parse_expr_list(st1);
    let (rp_pos, st3) = st2.expect(TokenView::Rparen, "expect Rparen"@);
    lemma_expect(st, TokenView::Lparen, "expect Lparen"@);
    lemma_parse_expr_list(st1);
    lemma_expect(st2, TokenView::Rparen, "expect Rparen"@);
    lemma_leads_to_trans(st, st1, st2);
    lemma_leads_to_trans(st, st2, st3);
    if st.clean_to(st3) {
        lemma_expr_list_reads_back(st1);
        lemma_passes_one(st);
        lemma_passes_one(st2);
        let lp = seq![TokenView::Lparen];
        let rp = seq![TokenView::Rparen];
        lemma_passes_concat(st0, st, st1, expr_tokens(fun), lp);
        lemma_passes_concat(st0, st1, st2, expr_tokens(fun) + lp, args_tokens(args, 0));
        lemma_passes_concat(st0, st2, st3, expr_tokens(fun) + lp + args_tokens(args, 0), rp);
        let call = parse_call_expr(fun, st).0;
        assert(call == ExprView::Call { fun: Box::new(fun), lp_pos, args, rp_pos });
        assert(is_primary(call));
    }
}

/// Arguments that were read without an error are unary expressions of
/// the grammar, one at least, and their tokens are those that were passed.
proof fn lemma_expr_list_reads_back(st: ParserView)
    ensures
        st.clean_to(parse_expr_list(st).1) ==> parse_expr_list(st).0.len() > 0 && all_unary(
            parse_expr_list(st).0,
        ) && passes(st, parse_expr_list(st).1, args_tokens(parse_expr_list(st).0, 0)),
    decreases st.tokens.len(), 4int,
{
    let (x, st1) = parse_unary_expr(st);
    lemma_unary_reads_back(st);
    lemma_parse_unary_expr(st);
    lemma_parse_expr_list_rest(seq![x], st1);
    let (list, st2) = parse_expr_list_rest(seq![x], st1);
    lemma_leads_to_trans(st, st1, st2);
    if st.clean_to(st2) {
        assert(all_unary(seq![x]));
        assert(args_tokens(seq![x], 0) == expr_tokens(x));
        lemma_expr_list_rest_reads_back(seq![x], st, st1);
    }
}

/// The same for the arguments that follow the arguments `list`, which
/// were read between `st0` and `st`.
proof fn lemma_expr_list_rest_reads_back(list: Seq<ExprView>, st0: ParserView, st: ParserView)
    requires
        list.len() > 0,
        all_unary(list),
        passes(st0, st, args_tokens(list, 0)),
    ensures
        st.clean_to(parse_expr_list_rest(list, st).1) ==> parse_expr_list_rest(list, st).0.len()
            > 0 && all_unary(parse_expr_list_rest(list, st).0) && passes(
            st0,
            parse_expr_list_rest(list, st).1,
            args_tokens(parse_expr_list_rest(list, st).0, 0),
        ),
    decreases st.tokens.len(), 0int,
{
    if st.tok() is Comma {
        let sa = st.advance();
        let (x, st1) = parse_unary_expr(sa);
        lemma_unary_reads_back(sa);
        lemma_parse_unary_expr(sa);
        assert(st.leads_to(sa) && st.clean_to(sa)) by {
            assert(st.errors.take(st.errors.len() as int) =~= st.errors);
        }
        lemma_leads_to_trans(st, sa, st1);
        if st1.tokens.len() < st.tokens.len() {
            let more = list.push(x);
            lemma_parse_expr_list_rest(more, st1);
            let (all, st2) = parse_expr_list_rest(more, st1);
            lemma_leads_to_trans(st, st1, st2);
            if st.clean_to(st2) {
                lemma_passes_one(st);
                lemma_passes_concat(st0, st, sa, args_tokens(list, 0), seq![TokenView::Comma]);
                lemma_passes_concat(
                    st0,
                    sa,
                    st1,
                    args_tokens(list, 0) + seq![TokenView::Comma],
                    expr_tokens(x),
                );
                lemma_args_tokens_push(list, x, 0);
                assert forall|i: int| 0 <= i < more.len() implies is_unary(#[trigger] more[i]) by {
                    if i < list.len() {
                        assert(more[i] == list[i]);
                    }
                }
                lemma_expr_list_rest_reads_back(more, st0, st1);
            }
        }
    }
}

/// A statement that was read without an error is one of the grammar,
/// and its tokens are those that were passed.
pub proof fn lemma_stmt_reads_back(st: ParserView)
    ensures
        st.clean_to(parse_stmt(st).1) ==> is_stmt(parse_stmt(st).0) && passes(
            st,
            parse_stmt(st).1,
            stmt_tokens(parse_stmt(st).0),
        ),
{
    let tok = st.tok();
    let semi = seq![TokenView::Semicolon];
    let (stmt, end) = parse_stmt(st);
    lemma_parse_stmt(st);
    if tok is Var || tok is Val {
        let sa = st.advance();
        let (name, st1) = parse_ident(sa);
        let (decl, st3) = parse_decl(st);
        lemma_advance(st);
        lemma_advance(sa);
        lemma_advance(st1);
        assert(sa.leads_to(st1)) by {
            assert(sa.errors.push((sa.pos(), "expect Identifier"@)).take(sa.errors.len() as int)
                =~= sa.errors);
        }
        lemma_leads_to_trans(st, sa, st1);
        lemma_expect(st3, TokenView::Semicolon, "expected semiclon"@);
        if st1.tok() is Assign {
            let sb = st1.advance();
            lemma_parse_expr(sb);
            lemma_expr_reads_back(sb);
            lemma_leads_to_trans(st1, sb, st3);
            lemma_leads_to_trans(st, st1, st3);
            lemma_leads_to_trans(st, st3, end);
            if st.clean_to(end) {
                let e = parse_expr(sb).0;
                lemma_passes_one(st);
                lemma_passes_one(sa);
                lemma_passes_one(st1);
                lemma_passes_one(st3);
                let w1 = seq![tok];
                let w2 = w1 + seq![sa.tok()];
                let w3 = w2 + seq![TokenView::Assign];
                let w4 = w3 + expr_tokens(e);
                lemma_passes_concat(st, sa, st1, w1, seq![sa.tok()]);
                lemma_passes_concat(st, st1, sb, w2, seq![TokenView::Assign]);
                lemma_passes_concat(st, sb, st3, w3, expr_tokens(e));
                lemma_passes_concat(st, st3, end, w4, semi);
                assert(stmt_tokens(stmt) =~= w4 + semi);
            }
        } else {
            lemma_leads_to_trans(st, st1, end);
            if st.clean_to(end) {
                lemma_passes_one(st);
                lemma_passes_one(sa);
                lemma_passes_one(st1);
                let w1 = seq![tok];
                let w2 = w1 + seq![sa.tok()];
                lemma_passes_concat(st, sa, st1, w1, seq![sa.tok()]);
                lemma_passes_concat(st, st1, end, w2, semi);
                assert(stmt_tokens(stmt) =~= w2 + semi);
            }
        }
    } else if starts_simple_stmt(tok) {
        let (x, st1) = parse_expr(st);
        lemma_parse_expr(st);
        lemma_expr_reads_back(st);
        crate::recovery::lemma_expr_consumes(st);
        lemma_advance(st1);
        if st1.tok() is Assign {
            let sb = st1.advance();
            let (y, st2) = parse_expr(sb);
            lemma_parse_expr(sb);
            lemma_expr_reads_back(sb);
            lemma_expect(st2, TokenView::Semicolon, "expected semiclon"@);
            lemma_leads_to_trans(st1, sb, st2);
            lemma_leads_to_trans(st, st1, st2);
            lemma_leads_to_trans(st, st2, end);
            if st.clean_to(end) {
                lemma_passes_one(st1);
                lemma_passes_one(st2);
                let w1 = expr_tokens(x);
                let w2 = w1 + seq![TokenView::Assign];
                let w3 = w2 + expr_tokens(y);
                lemma_passes_concat(st, st1, sb, w1, seq![TokenView::Assign]);
                lemma_passes_concat(st, sb, st2, w2, expr_tokens(y));
                lemma_passes_concat(st, st2, end, w3, semi);
                assert(kinds(st.tokens).subrange(0, w1.len() as int)[0] == w1[0]);
            }
        } else {
            lemma_expect(st1, TokenView::Semicolon, "expected semiclon"@);
            lemma_leads_to_trans(st, st1, end);
            if st.clean_to(end) {
                lemma_passes_one(st1);
                let w1 = expr_tokens(x);
                lemma_passes_concat(st, st1, end, w1, semi);
                assert(kinds(st.tokens).subrange(0, w1.len() as int)[0] == w1[0]);
            }
        }
    } else {
        assert(st.error("expect Statement"@).advance().errors.len() == st.errors.len() + 1);
    }
}

/// Passing a token leads on and records no error; and where anything but
/// `Eof` stands under the cursor, a token is left.
proof fn lemma_advance(st: ParserView)
    ensures
        st.leads_to(st.advance()),
        st.clean_to(st.advance()),
        !(st.tok() is Eof) ==> st.tokens.len() > 0,
{
    assert(st.errors.take(st.errors.len() as int) =~= st.errors);
}

/// The statements after the first are written as they are written alone.
proof fn lemma_stmts_tokens_shift(first: StmtView, rest: Seq<StmtView>, k: int)
    requires
        0 <= k,
    ensures
        stmts_tokens(seq![first] + rest, k + 1) == stmts_tokens(rest, k),
    decreases rest.len() - k,
{
    let all = seq![first] + rest;
    if k < rest.len() {
        assert(all[k + 1] == rest[k]);
        lemma_stmts_tokens_shift(first, rest, k + 1);
    }
}

/// Statements that were read without an error are statements of the
/// grammar, and their tokens are those that were passed.
proof fn lemma_stmts_read_back(st: ParserView)
    ensures
        st.clean_to(parse_stmts(st).1) ==> passes(
            st,
            parse_stmts(st).1,
            stmts_tokens(parse_stmts(st).0, 0),
        ) && forall|i: int|
            0 <= i < parse_stmts(st).0.len() ==> is_stmt(#[trigger] parse_stmts(st).0[i]),
    decreases st.tokens.len(),
{
    if st.tok() is Eof {
        lemma_passes_none(st);
    } else {
        let (stmt, st1) = parse_stmt(st);
        lemma_parse_stmt(st);
        lemma_stmt_reads_back(st);
        crate::recovery::lemma_stmt_consumes(st);
        lemma_advance(st);
        let (rest, st2) = parse_stmts(st1);
        lemma_parse_stmts(st1);
        lemma_stmts_read_back(st1);
        lemma_leads_to_trans(st, st1, st2);
        if st.clean_to(st2) {
            let all = seq![stmt] + rest;
            lemma_stmts_tokens_shift(stmt, rest, 0);
            assert(all[0] == stmt);
            lemma_passes_concat(st, st1, st2, stmt_tokens(stmt), stmts_tokens(rest, 0));
            assert forall|i: int| 0 <= i < all.len() implies is_stmt(#[trigger] all[i]) by {
                if i > 0 {
                    assert(all[i] == rest[i - 1]);
                }
            }
        }
    }
}

/// The tree of a parse that records no error is a file of the grammar,
/// and it is written with the tokens that the parse passed: those of its
/// statements in order, each with the semicolon that ends it.
pub proof fn theorem_clean_parse_reads_back(st: ParserView)
    ensures
        st.clean_to(parse_file(st).1) ==> is_file(parse_file(st).0) && passes(
            st,
            parse_file(st).1,
            file_tokens(parse_file(st).0),
        ),
{
    lemma_stmts_read_back(st);
}

/// A parse records no error exactly if its tokens are those of a file of
/// the grammar. `Eof`, which the scanner never hands on, must not be
/// among the tokens.
pub proof fn theorem_clean_iff_grammatical(st: ParserView)
    requires
        forall|i: int| 0 <= i < st.tokens.len() ==> !((#[trigger] st.tokens[i]).0 is Eof),
    ensures
        st.clean_to(parse_file(st).1) <==> exists|f: FileView|
            is_file(f) && kinds(st.tokens) == #[trigger] file_tokens(f),
{
    let (file, end) = parse_file(st);
    if st.clean_to(end) {
        theorem_clean_parse_reads_back(st);
        crate::recovery::theorem_clean_parse_is_whole(st);
        let w = file_tokens(file);
        if end.tokens.len() > 0 {
            assert(end.tokens[0] == st.tokens[w.len() as int]);
        }
        assert(kinds(st.tokens) =~= kinds(st.tokens).subrange(0, w.len() as int));
    }
    if exists|f: FileView| is_file(f) && kinds(st.tokens) == #[trigger] file_tokens(f) {
        let f = choose|f: FileView| is_file(f) && kinds(st.tokens) == #[trigger] file_tokens(f);
        crate::acceptance::theorem_valid_source_parses_clean(f, st);
    }
}

} // verus!
