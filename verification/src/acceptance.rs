use crate::ast::{DeclView, ExprView, FileView, StmtView};
use crate::grammar::{
    parse_binary_expr, parse_binary_rest, parse_call_expr, parse_decl_stmt, parse_expr,
    parse_expr_list, parse_expr_list_rest, parse_file, parse_ident, parse_operand,
    parse_primary_expr, parse_primary_rest, parse_stmt, parse_stmts, parse_unary_expr,
    parse_var_decl, ParserView,
};
use crate::syntax::{
    args_tokens, decl_tokens, expr_tokens, file_tokens, is_decl, is_expr, is_file, is_operand,
    is_primary, is_stmt, is_unary, kinds, lemma_levels, stmt_tokens, stmts_tokens,
};
use crate::token::TokenView;
use vstd::prelude::*;

verus! {

/// The state `st` once `n` more tokens are passed, with nothing else
/// changed.
pub open spec fn skip(st: ParserView, n: int) -> ParserView {
    ParserView { tokens: st.tokens.skip(n), ..st }
}

/// Whether the tokens of `st` from the one at `from` on begin with the
/// tokens `w`.
pub open spec fn reads(st: ParserView, from: int, w: Seq<TokenView>) -> bool {
    &&& 0 <= from
    &&& from + w.len() <= st.tokens.len()
    &&& kinds(st.tokens).subrange(from, from + w.len()) == w
}

/// The token of `st` at `at`, and `Eof` beyond the last one.
pub open spec fn kind_at(st: ParserView, at: int) -> TokenView {
    if 0 <= at < st.tokens.len() {
        st.tokens[at].0
    } else {
        TokenView::Eof
    }
}

/// Whether `tok` may follow a unary expression without becoming part of
/// it.
pub open spec fn ends_unary(tok: TokenView) -> bool {
    !(tok is Lparen)
}

/// Whether `tok` may follow an expression without becoming part of it.
pub open spec fn ends_expr(tok: TokenView) -> bool {
    !(tok is Lparen) && !tok.is_binary_op()
}

/// What stands under the cursor once `at` tokens are passed, and how
/// passing one more goes on.
proof fn lemma_skip(st: ParserView, at: int)
    requires
        0 <= at <= st.tokens.len(),
    ensures
        skip(st, at).tok() == kind_at(st, at),
        skip(st, at).tokens.len() == st.tokens.len() - at,
        at < st.tokens.len() ==> skip(st, at).advance() == skip(st, at + 1),
        skip(st, 0) == st,
{
    if at < st.tokens.len() {
        assert(st.tokens.skip(at).drop_first() =~= st.tokens.skip(at + 1));
    }
    assert(st.tokens.skip(0) =~= st.tokens);
}

/// Where two lists of tokens stand one after the other, each of them
/// stands in its place.
proof fn lemma_reads_concat(st: ParserView, from: int, a: Seq<TokenView>, b: Seq<TokenView>)
    requires
        reads(st, from, a + b),
    ensures
        reads(st, from, a),
        reads(st, from + a.len(), b),
{
    let k = kinds(st.tokens);
    assert(k.subrange(from, from + a.len()) =~= (a + b).subrange(0, a.len() as int));
    assert((a + b).subrange(0, a.len() as int) =~= a);
    assert(k.subrange(from + a.len(), from + a.len() + b.len()) =~= (a + b).subrange(
        a.len() as int,
        (a + b).len() as int,
    ));
    assert((a + b).subrange(a.len() as int, (a + b).len() as int) =~= b);
}

/// Where a list of one token stands, the token stands.
proof fn lemma_reads_one(st: ParserView, from: int, t: TokenView)
    requires
        reads(st, from, seq![t]),
    ensures
        from < st.tokens.len(),
        kind_at(st, from) == t,
{
    assert(kinds(st.tokens).subrange(from, from + 1)[0] == t);
}

/// The state that `parse_primary_rest` leaves does not depend on the
/// expression it goes on from.
proof fn lemma_primary_rest_state(x: ExprView, y: ExprView, st: ParserView)
    ensures
        parse_primary_rest(x, st).1 == parse_primary_rest(y, st).1,
    decreases st.tokens.len(),
{
    if st.tok() is Lparen {
        let (c1, st1) = parse_call_expr(x, st);
        let (c2, st2) = parse_call_expr(y, st);
        assert(st1 == st2);
        if st1.tokens.len() < st.tokens.len() {
            lemma_primary_rest_state(c1, c2, st1);
        }
    }
}

/// The state that `parse_binary_rest` leaves does not depend on the
/// operand it goes on from.
proof fn lemma_binary_rest_state(x: ExprView, y: ExprView, st: ParserView, prec: int)
    ensures
        parse_binary_rest(x, st, prec).1 == parse_binary_rest(y, st, prec).1,
    decreases st.tokens.len(),
{
    let op = st.tok();
    if op.is_binary_op() && op.prec() >= prec {
        let (r, st1) = parse_binary_expr(st.advance(), op.prec() + 1);
        if st1.tokens.len() < st.tokens.len() {
            lemma_binary_rest_state(
                ExprView::Binary { x: Box::new(x), op, y: Box::new(r) },
                ExprView::Binary { x: Box::new(y), op, y: Box::new(r) },
                st1,
                prec,
            );
        }
    }
}

/// The state that `parse_expr_list_rest` leaves does not depend on the
/// arguments it goes on from.
proof fn lemma_expr_list_rest_state(a: Seq<ExprView>, b: Seq<ExprView>, st: ParserView)
    ensures
        parse_expr_list_rest(a, st).1 == parse_expr_list_rest(b, st).1,
    decreases st.tokens.len(),
{
    if st.tok() is Comma {
        let (x, st1) = parse_unary_expr(st.advance());
        if st1.tokens.len() < st.tokens.len() {
            lemma_expr_list_rest_state(a.push(x), b.push(x), st1);
        }
    }
}

/// The number of nodes of an expression.
pub open spec fn size(e: ExprView) -> nat
    decreases e,
{
    match e {
        ExprView::Call { fun, args, .. } => 1 + size(*fun) + sizes(args),
        ExprView::Unary { x, .. } => 1 + size(*x),
        ExprView::Binary { x, y, .. } => 1 + size(*x) + size(*y),
        ExprView::Paren { x, .. } => 1 + size(*x),
        _ => 1,
    }
}

/// The number of nodes of the expressions of a list.
pub open spec fn sizes(list: Seq<ExprView>) -> nat
    decreases list,
{
    if list.len() == 0 {
        0
    } else {
        sizes(list.drop_last()) + size(list.last())
    }
}

/// An expression of a list has no more nodes than the list.
proof fn lemma_sizes(list: Seq<ExprView>, i: int)
    requires
        0 <= i < list.len(),
    ensures
        size(list[i]) <= sizes(list),
    decreases list.len(),
{
    if i < list.len() - 1 {
        lemma_sizes(list.drop_last(), i);
    }
}

/// Whether `e` is an expression whose binary operators all stand on its
/// right side: a unary expression, or a unary expression, a binary
/// operator and such an expression.
pub open spec fn is_chain(e: ExprView) -> bool
    decreases e,
{
    match e {
        ExprView::Binary { x, op, y } => op.is_binary_op() && is_unary(*x) && is_chain(*y),
        _ => is_unary(e),
    }
}

/// The chain `c`, the operator `op` and the chain `d` as one chain.
pub open spec fn chain_append(c: ExprView, op: TokenView, d: ExprView) -> ExprView
    decreases c,
{
    match c {
        ExprView::Binary { x: cx, op: cop, y: cy } => ExprView::Binary {
            x: cx,
            op: cop,
            y: Box::new(chain_append(*cy, op, d)),
        },
        _ => ExprView::Binary { x: Box::new(c), op, y: Box::new(d) },
    }
}

/// The chain that is written with the tokens of the expression `e`.
pub open spec fn chain_of(e: ExprView) -> ExprView
    decreases e,
{
    match e {
        ExprView::Binary { x, op, y } => chain_append(chain_of(*x), op, chain_of(*y)),
        _ => e,
    }
}

/// Two chains with an operator between them are a chain again, written
/// with the same tokens and made of the same number of nodes and one more.
proof fn lemma_chain_append(c: ExprView, op: TokenView, d: ExprView)
    requires
        is_chain(c),
        is_chain(d),
        op.is_binary_op(),
    ensures
        is_chain(chain_append(c, op, d)),
        expr_tokens(chain_append(c, op, d)) == expr_tokens(c) + seq![op] + expr_tokens(d),
        size(chain_append(c, op, d)) == size(c) + 1 + size(d),
    decreases c,
{
    match c {
        ExprView::Binary { x: cx, op: cop, y: cy } => {
            lemma_chain_append(*cy, op, d);
            assert(expr_tokens(*cx) + seq![cop] + (expr_tokens(*cy) + seq![op] + expr_tokens(d))
                =~= (expr_tokens(*cx) + seq![cop] + expr_tokens(*cy)) + seq![op] + expr_tokens(
                d,
            ));
        },
        _ => {},
    }
}

/// The chain of an expression is a chain, written with the tokens of the
/// expression and made of as many nodes.
proof fn lemma_chain_of(e: ExprView)
    requires
        is_expr(e),
    ensures
        is_chain(chain_of(e)),
        expr_tokens(chain_of(e)) == expr_tokens(e),
        size(chain_of(e)) == size(e),
    decreases e,
{
    match e {
        ExprView::Binary { x, op, y } => {
            lemma_chain_of(*x);
            lemma_chain_of(*y);
            lemma_chain_append(chain_of(*x), op, chain_of(*y));
        },
        _ => {},
    }
}

/// The number of tokens that an expression of operators of precedence
/// `prec` or more takes of the chain `e`: those before the first operator
/// that binds less.
pub open spec fn taken(e: ExprView, prec: int) -> nat
    decreases e,
{
    match e {
        ExprView::Binary { x, op, y } => if op.prec() < prec {
            expr_tokens(*x).len()
        } else {
            expr_tokens(*x).len() + 1 + taken(*y, prec)
        },
        _ => expr_tokens(e).len(),
    }
}

/// What of a chain is left by `taken`: the part of the chain from the
/// left operand of the first operator of precedence below `prec` on.
pub open spec fn left_over(e: ExprView, prec: int) -> Option<ExprView>
    decreases e,
{
    match e {
        ExprView::Binary { x, op, y } => if op.prec() < prec {
            Some(e)
        } else {
            left_over(*y, prec)
        },
        _ => None,
    }
}

/// What `parse_binary_rest` with `prec` takes of the tokens that follow
/// the left operand of the chain `e`.
pub open spec fn taken_rest(e: ExprView, prec: int) -> nat {
    match e {
        ExprView::Binary { x, op, y } => if op.prec() < prec {
            0
        } else {
            1 + taken(*y, prec)
        },
        _ => 0,
    }
}

/// Where `taken` stops, the tokens of what is left over stand; and what
/// a lower precedence takes is what the higher takes and what the lower
/// takes of what is left over.
proof fn lemma_taken(e: ExprView, high: int, low: int, st: ParserView, from: int)
    requires
        is_chain(e),
        reads(st, from, expr_tokens(e)),
        low <= high,
    ensures
        taken(e, high) <= expr_tokens(e).len(),
        match left_over(e, high) {
            None => taken(e, high) == expr_tokens(e).len() && taken(e, low) == taken(e, high),
            Some(rest) => {
                &&& rest is Binary
                &&& is_chain(rest)
                &&& size(rest) <= size(e)
                &&& rest->Binary_op.prec() < high
                &&& taken(e, high) + 1 + expr_tokens(*rest->Binary_y).len() == expr_tokens(
                    e,
                ).len()
                &&& reads(
                    st,
                    from + taken(e, high),
                    seq![rest->Binary_op] + expr_tokens(*rest->Binary_y),
                )
                &&& taken(e, low) == taken(e, high) + taken_rest(rest, low)
            },
        },
    decreases e,
{
    match e {
        ExprView::Binary { x, op, y } => {
            let wx = expr_tokens(*x);
            let wy = expr_tokens(*y);
            assert(wx + seq![op] + wy =~= wx + (seq![op] + wy));
            lemma_reads_concat(st, from, wx, seq![op] + wy);
            lemma_reads_concat(st, from + wx.len(), seq![op], wy);
            if op.prec() >= high {
                lemma_taken(*y, high, low, st, from + wx.len() + 1);
            }
        },
        _ => {},
    }
}

/// The lowest precedence takes a whole chain.
proof fn lemma_taken_all(e: ExprView)
    requires
        is_chain(e),
    ensures
        taken(e, 1) == expr_tokens(e).len(),
    decreases e,
{
    match e {
        ExprView::Binary { x, op, y } => {
            lemma_taken_all(*y);
        },
        _ => {},
    }
}

/// The first token of a unary expression is a name, a literal, `(` or a
/// prefix operator.
proof fn lemma_first_token(e: ExprView)
    requires
        is_unary(e),
    ensures
        expr_tokens(e).len() > 0,
        e is Unary <==> expr_tokens(e)[0].is_prefix_op(),
        expr_tokens(e)[0] is Ident || expr_tokens(e)[0].is_literal() || expr_tokens(e)[0] is Lparen
            || expr_tokens(e)[0].is_prefix_op(),
    decreases e,
{
    match e {
        ExprView::Call { fun, args, .. } => {
            assert(is_primary(e));
            assert(is_primary(*fun));
            lemma_levels(*fun);
            lemma_first_token(*fun);
            assert(expr_tokens(e)[0] == expr_tokens(*fun)[0]);
        },
        ExprView::Unary { op, x } => {
            assert(expr_tokens(e)[0] == op);
        },
        ExprView::Paren { l_pos, x, r_pos } => {
            assert(is_primary(e));
            assert(expr_tokens(e)[0] is Lparen);
        },
        _ => {
            assert(is_primary(e));
            assert(is_operand(e));
        },
    }
}

/// The parse of an expression passes the tokens of an expression of the
/// grammar, all of them and no other, and records no error.
pub proof fn lemma_accepts_expr(e: ExprView, st: ParserView, from: int)
    requires
        is_expr(e),
        reads(st, from, expr_tokens(e)),
        ends_expr(kind_at(st, from + expr_tokens(e).len())),
    ensures
        parse_expr(skip(st, from)).1 == skip(st, from + expr_tokens(e).len()),
    decreases size(e), 9int, 0int,
{
    lemma_chain_of(e);
    lemma_taken_all(chain_of(e));
    lemma_accepts_chain(chain_of(e), st, from, 1);
}

/// The parse of an expression of operators of precedence `prec` or more
/// passes what `taken` says of the chain `e`, and records no error.
#[verifier::rlimit(40)]
proof fn lemma_accepts_chain(e: ExprView, st: ParserView, from: int, prec: int)
    requires
        is_chain(e),
        reads(st, from, expr_tokens(e)),
        ends_expr(kind_at(st, from + expr_tokens(e).len())),
    ensures
        parse_binary_expr(skip(st, from), prec).1 == skip(st, from + taken(e, prec)),
    decreases size(e), 8int, 0int,
{
    let s = skip(st, from);
    lemma_skip(st, from);
    match e {
        ExprView::Binary { x, op, y } => {
            let wx = expr_tokens(*x);
            let wy = expr_tokens(*y);
            assert(wx + seq![op] + wy =~= wx + (seq![op] + wy));
            lemma_reads_concat(st, from, wx, seq![op] + wy);
            lemma_reads_concat(st, from + wx.len(), seq![op], wy);
            lemma_reads_one(st, from + wx.len(), op);
            lemma_accepts_unary(*x, st, from);
            lemma_skip(st, from + wx.len());
            lemma_accepts_chain_rest(e, st, from + wx.len(), prec, parse_unary_expr(s).0);
        },
        _ => {
            lemma_accepts_unary(e, st, from);
            lemma_skip(st, from + expr_tokens(e).len());
        },
    }
}

/// The same for what follows the left operand of the chain `e`.
#[verifier::rlimit(40)]
proof fn lemma_accepts_chain_rest(e: ExprView, st: ParserView, at: int, prec: int, lhs: ExprView)
    requires
        e is Binary,
        is_chain(e),
        reads(st, at, seq![e->Binary_op] + expr_tokens(*e->Binary_y)),
        ends_expr(kind_at(st, at + 1 + expr_tokens(*e->Binary_y).len())),
    ensures
        parse_binary_rest(lhs, skip(st, at), prec).1 == skip(st, at + taken_rest(e, prec)),
    decreases size(e), 7int, 0int,
{
    let op = e->Binary_op;
    let y = *e->Binary_y;
    let s = skip(st, at);
    lemma_reads_concat(st, at, seq![op], expr_tokens(y));
    lemma_reads_one(st, at, op);
    lemma_skip(st, at);
    if op.prec() >= prec {
        let high = op.prec() + 1;
        lemma_accepts_chain(y, st, at + 1, high);
        lemma_taken(y, high, prec, st, at + 1);
        let (r, s1) = parse_binary_expr(s.advance(), high);
        let node = ExprView::Binary { x: Box::new(lhs), op, y: Box::new(r) };
        lemma_skip(st, at + 1 + taken(y, high));
        assert(s.advance() == skip(st, at + 1));
        assert(s1 == skip(st, at + 1 + taken(y, high)));
        assert(s1.tokens.len() < s.tokens.len());
        assert(parse_binary_rest(lhs, s, prec) == parse_binary_rest(node, s1, prec));
        match left_over(y, high) {
            None => {
                assert(parse_binary_rest(node, s1, prec) == (node, s1));
            },
            Some(rest) => {
                lemma_accepts_chain_rest(rest, st, at + 1 + taken(y, high), prec, node);
            },
        }
    } else {
        assert(parse_binary_rest(lhs, s, prec) == (lhs, s));
    }
}

/// The parse of a unary expression passes the tokens of one, all of them
/// and no other, and records no error.
proof fn lemma_accepts_unary(e: ExprView, st: ParserView, from: int)
    requires
        is_unary(e),
        reads(st, from, expr_tokens(e)),
        ends_unary(kind_at(st, from + expr_tokens(e).len())),
    ensures
        parse_unary_expr(skip(st, from)).1 == skip(st, from + expr_tokens(e).len()),
    decreases size(e), 5int, 0int,
{
    let s = skip(st, from);
    lemma_skip(st, from);
    lemma_first_token(e);
    assert(kinds(st.tokens).subrange(from, from + expr_tokens(e).len())[0] == expr_tokens(e)[0]);
    match e {
        ExprView::Unary { op, x } => {
            lemma_reads_concat(st, from, seq![op], expr_tokens(*x));
            lemma_accepts_unary(*x, st, from + 1);
        },
        _ => {
            lemma_accepts_primary(e, st, from);
            lemma_skip(st, from + expr_tokens(e).len());
        },
    }
}

/// The parse of a primary expression passes the tokens of one, and goes
/// on from there with the calls that follow.
#[verifier::rlimit(40)]
proof fn lemma_accepts_primary(e: ExprView, st: ParserView, from: int)
    requires
        is_primary(e),
        reads(st, from, expr_tokens(e)),
    ensures
        parse_primary_expr(skip(st, from)).1 == parse_primary_rest(
            ExprView::Bad,
            skip(st, from + expr_tokens(e).len()),
        ).1,
    decreases size(e), 4int, 0int,
{
    let s = skip(st, from);
    lemma_skip(st, from);
    match e {
        ExprView::Call { fun, lp_pos, args, rp_pos } => {
            let wf = expr_tokens(*fun);
            let wa = args_tokens(args, 0);
            let lp = seq![TokenView::Lparen];
            let rp = seq![TokenView::Rparen];
            assert(wf + lp + wa + rp =~= wf + (lp + (wa + rp)));
            lemma_reads_concat(st, from, wf, lp + (wa + rp));
            lemma_reads_concat(st, from + wf.len(), lp, wa + rp);
            lemma_reads_concat(st, from + wf.len() + 1, wa, rp);
            lemma_reads_one(st, from + wf.len(), TokenView::Lparen);
            lemma_reads_one(st, from + wf.len() + 1 + wa.len(), TokenView::Rparen);
            lemma_accepts_primary(*fun, st, from);
            let s1 = skip(st, from + wf.len());
            lemma_skip(st, from + wf.len());
            lemma_skip(st, from + wf.len() + 1);
            lemma_accepts_args(args, st, from + wf.len() + 1);
            let s2 = skip(st, from + wf.len() + 1 + wa.len());
            lemma_skip(st, from + wf.len() + 1 + wa.len());
            let (call, s3) = parse_call_expr(ExprView::Bad, s1);
            assert(s3 == skip(st, from + expr_tokens(e).len()));
            lemma_skip(st, from + expr_tokens(e).len());
            lemma_primary_rest_state(call, ExprView::Bad, s3);
        },
        _ => {
            lemma_accepts_operand(e, st, from);
            lemma_skip(st, from + expr_tokens(e).len());
            lemma_primary_rest_state(
                parse_operand(s).0,
                ExprView::Bad,
                skip(st, from + expr_tokens(e).len()),
            );
        },
    }
}

/// The parse of an operand passes the tokens of one, all of them and no
/// other, and records no error.
proof fn lemma_accepts_operand(e: ExprView, st: ParserView, from: int)
    requires
        is_operand(e),
        reads(st, from, expr_tokens(e)),
    ensures
        parse_operand(skip(st, from)).1 == skip(st, from + expr_tokens(e).len()),
    decreases size(e), 3int, 0int,
{
    let s = skip(st, from);
    lemma_skip(st, from);
    match e {
        ExprView::Paren { l_pos, x, r_pos } => {
            let w = expr_tokens(*x);
            let lp = seq![TokenView::Lparen];
            let rp = seq![TokenView::Rparen];
            assert(lp + w + rp =~= lp + (w + rp));
            lemma_reads_concat(st, from, lp, w + rp);
            lemma_reads_concat(st, from + 1, w, rp);
            lemma_reads_one(st, from, TokenView::Lparen);
            lemma_reads_one(st, from + 1 + w.len(), TokenView::Rparen);
            lemma_accepts_expr(*x, st, from + 1);
            lemma_skip(st, from + 1 + w.len());
        },
        ExprView::Ident { name, .. } => {
            lemma_reads_one(st, from, TokenView::Ident(name));
        },
        ExprView::BasicLit { tok, .. } => {
            lemma_reads_one(st, from, tok);
        },
        _ => {},
    }
}

/// What stands in `args_tokens(args, 0)` after the argument before the
/// one at `from`.
pub open spec fn args_tail(args: Seq<ExprView>, from: int) -> Seq<TokenView> {
    if 0 <= from < args.len() {
        seq![TokenView::Comma] + args_tokens(args, from)
    } else {
        Seq::empty()
    }
}

/// The parse of the arguments of a call passes the tokens of a list of
/// arguments before `)`, all of them and no other, and records no error.
#[verifier::rlimit(40)]
proof fn lemma_accepts_args(args: Seq<ExprView>, st: ParserView, from: int)
    requires
        args.len() > 0,
        forall|i: int| 0 <= i < args.len() ==> is_unary(#[trigger] args[i]),
        reads(st, from, args_tokens(args, 0)),
        kind_at(st, from + args_tokens(args, 0).len()) is Rparen,
    ensures
        parse_expr_list(skip(st, from)).1 == skip(st, from + args_tokens(args, 0).len()),
    decreases sizes(args), 11int, 0int,
{
    let s = skip(st, from);
    lemma_skip(st, from);
    let w0 = expr_tokens(args[0]);
    lemma_sizes(args, 0);
    assert(args_tokens(args, 0) =~= w0 + args_tail(args, 1));
    lemma_reads_concat(st, from, w0, args_tail(args, 1));
    if args.len() > 1 {
        lemma_reads_concat(st, from + w0.len(), seq![TokenView::Comma], args_tokens(args, 1));
        lemma_reads_one(st, from + w0.len(), TokenView::Comma);
    }
    lemma_accepts_unary(args[0], st, from);
    lemma_skip(st, from + w0.len());
    lemma_accepts_args_rest(args, 1, st, from + w0.len(), seq![parse_unary_expr(s).0]);
}

/// The same for the arguments from the one at `k` on, each after its
/// comma.
#[verifier::rlimit(40)]
proof fn lemma_accepts_args_rest(
    args: Seq<ExprView>,
    k: int,
    st: ParserView,
    at: int,
    list: Seq<ExprView>,
)
    requires
        1 <= k <= args.len(),
        forall|i: int| 0 <= i < args.len() ==> is_unary(#[trigger] args[i]),
        reads(st, at, args_tail(args, k)),
        kind_at(st, at + args_tail(args, k).len()) is Rparen,
    ensures
        parse_expr_list_rest(list, skip(st, at)).1 == skip(st, at + args_tail(args, k).len()),
    decreases sizes(args), 10int, args.len() - k,
{
    let s = skip(st, at);
    lemma_skip(st, at);
    if k < args.len() {
        let w = expr_tokens(args[k]);
        lemma_sizes(args, k);
        assert(args_tail(args, k) =~= seq![TokenView::Comma] + (w + args_tail(args, k + 1)));
        lemma_reads_concat(st, at, seq![TokenView::Comma], w + args_tail(args, k + 1));
        lemma_reads_one(st, at, TokenView::Comma);
        lemma_reads_concat(st, at + 1, w, args_tail(args, k + 1));
        if k + 1 < args.len() {
            lemma_reads_concat(
                st,
                at + 1 + w.len(),
                seq![TokenView::Comma],
                args_tokens(args, k + 1),
            );
            lemma_reads_one(st, at + 1 + w.len(), TokenView::Comma);
        }
        lemma_skip(st, at + 1);
        lemma_accepts_unary(args[k], st, at + 1);
        lemma_skip(st, at + 1 + w.len());
        let x = parse_unary_expr(s.advance()).0;
        lemma_accepts_args_rest(args, k + 1, st, at + 1 + w.len(), list.push(x));
    }
}

/// The parse of a statement passes the tokens of a statement of the
/// grammar, all of them and no other, and records no error.
pub proof fn lemma_accepts_stmt(stmt: StmtView, st: ParserView, from: int)
    requires
        is_stmt(stmt),
        reads(st, from, stmt_tokens(stmt)),
    ensures
        parse_stmt(skip(st, from)).1 == skip(st, from + stmt_tokens(stmt).len()),
        stmt_tokens(stmt).len() > 0,
        !(kind_at(st, from) is Eof),
{
    let s = skip(st, from);
    let semi = seq![TokenView::Semicolon];
    lemma_skip(st, from);
    match stmt {
        StmtView::Decl(d) => {
            lemma_accepts_decl(d, st, from);
        },
        StmtView::Expr(e) => {
            let w = expr_tokens(e);
            lemma_reads_concat(st, from, w, semi);
            lemma_reads_one(st, from + w.len(), TokenView::Semicolon);
            assert(kinds(st.tokens).subrange(from, from + w.len())[0] == w[0]);
            lemma_accepts_expr(e, st, from);
            lemma_skip(st, from + w.len());
        },
        StmtView::Assign { ptr, val, .. } => {
            let wp = expr_tokens(ptr);
            let wv = expr_tokens(val);
            let eq = seq![TokenView::Assign];
            assert(wp + eq + wv + semi =~= wp + (eq + (wv + semi)));
            lemma_reads_concat(st, from, wp, eq + (wv + semi));
            lemma_reads_concat(st, from + wp.len(), eq, wv + semi);
            lemma_reads_concat(st, from + wp.len() + 1, wv, semi);
            lemma_reads_one(st, from + wp.len(), TokenView::Assign);
            lemma_reads_one(st, from + wp.len() + 1 + wv.len(), TokenView::Semicolon);
            assert(kinds(st.tokens).subrange(from, from + wp.len())[0] == wp[0]);
            lemma_accepts_expr(ptr, st, from);
            lemma_skip(st, from + wp.len());
            lemma_skip(st, from + wp.len() + 1);
            lemma_accepts_expr(val, st, from + wp.len() + 1);
            lemma_skip(st, from + wp.len() + 1 + wv.len());
        },
        StmtView::Bad => {},
    }
}

/// The parse of a declaration and its semicolon passes the tokens of a
/// declaration of the grammar and the semicolon, and records no error.
proof fn lemma_accepts_decl(d: DeclView, st: ParserView, from: int)
    requires
        is_decl(d),
        reads(st, from, decl_tokens(d) + seq![TokenView::Semicolon]),
    ensures
        parse_decl_stmt(skip(st, from)).1 == skip(st, from + decl_tokens(d).len() + 1),
        kind_at(st, from) is Var || kind_at(st, from) is Val,
{
    let s = skip(st, from);
    let semi = seq![TokenView::Semicolon];
    lemma_skip(st, from);
    match d {
        DeclView::Binding { mutable, name, value, .. } => {
            let key = seq![
                if mutable {
                    TokenView::Var
                } else {
                    TokenView::Val
                },
            ];
            let id = seq![TokenView::Ident(name)];
            lemma_skip(st, from + 1);
            lemma_skip(st, from + 2);
            match value {
                Some(e) => {
                    let w = expr_tokens(e);
                    let eq = seq![TokenView::Assign];
                    assert(decl_tokens(d) + semi =~= key + (id + (eq + (w + semi))));
                    lemma_reads_concat(st, from, key, id + (eq + (w + semi)));
                    lemma_reads_concat(st, from + 1, id, eq + (w + semi));
                    lemma_reads_concat(st, from + 2, eq, w + semi);
                    lemma_reads_concat(st, from + 3, w, semi);
                    lemma_reads_one(st, from, key[0]);
                    lemma_reads_one(st, from + 1, TokenView::Ident(name));
                    lemma_reads_one(st, from + 2, TokenView::Assign);
                    lemma_reads_one(st, from + 3 + w.len(), TokenView::Semicolon);
                    lemma_skip(st, from + 3);
                    lemma_accepts_expr(e, st, from + 3);
                    lemma_skip(st, from + 3 + w.len());
                    assert(parse_ident(skip(st, from + 1)).1 == skip(st, from + 2));
                    assert(parse_var_decl(skip(st, from + 1), mutable, s.pos()).1 == skip(
                        st,
                        from + 3 + w.len(),
                    ));
                },
                None => {
                    assert(decl_tokens(d) + semi =~= key + (id + semi));
                    lemma_reads_concat(st, from, key, id + semi);
                    lemma_reads_concat(st, from + 1, id, semi);
                    lemma_reads_one(st, from, key[0]);
                    lemma_reads_one(st, from + 1, TokenView::Ident(name));
                    lemma_reads_one(st, from + 2, TokenView::Semicolon);
                    assert(parse_ident(skip(st, from + 1)).1 == skip(st, from + 2));
                    assert(parse_var_decl(skip(st, from + 1), mutable, s.pos()).1 == skip(
                        st,
                        from + 2,
                    ));
                },
            }
        },
        _ => {},
    }
}

/// The parse of the statements from the one at `k` on passes their
/// tokens, which are all that is left, and records no error.
proof fn lemma_accepts_stmts(stmts: Seq<StmtView>, k: int, st: ParserView, from: int)
    requires
        0 <= k <= stmts.len(),
        forall|i: int| 0 <= i < stmts.len() ==> is_stmt(#[trigger] stmts[i]),
        reads(st, from, stmts_tokens(stmts, k)),
        from + stmts_tokens(stmts, k).len() == st.tokens.len(),
    ensures
        parse_stmts(skip(st, from)).1 == skip(st, st.tokens.len() as int),
    decreases stmts.len() - k,
{
    let s = skip(st, from);
    lemma_skip(st, from);
    if k < stmts.len() {
        let w = stmt_tokens(stmts[k]);
        lemma_reads_concat(st, from, w, stmts_tokens(stmts, k + 1));
        lemma_accepts_stmt(stmts[k], st, from);
        lemma_skip(st, from + w.len());
        lemma_accepts_stmts(stmts, k + 1, st, from + w.len());
    }
}

/// Every source that is written as the grammar has it parses without an
/// error, and its tree holds no `Bad` node: if the tokens of a parse are
/// those of a file of the grammar, each statement with the semicolon that
/// ends it, the parse passes all of them and records nothing.
pub proof fn theorem_valid_source_parses_clean(f: FileView, st: ParserView)
    requires
        is_file(f),
        kinds(st.tokens) == file_tokens(f),
    ensures
        parse_file(st).1.errors == st.errors,
        parse_file(st).1.tokens.len() == 0,
        !parse_file(st).0.has_bad(),
{
    let w = file_tokens(f);
    assert(kinds(st.tokens).subrange(0, w.len() as int) =~= w);
    lemma_accepts_stmts(f.stmts, 0, st, 0);
    lemma_skip(st, 0);
    lemma_skip(st, st.tokens.len() as int);
    crate::recovery::theorem_clean_parse_is_whole(st);
}

} // verus!
