use crate::ast::decl::{value_view, BadDecl, Decl, DeclView, FunDecl, ValDecl, VarDecl};
use crate::ast::expr::{
    exprs_view, lemma_exprs_view_push, BadExpr, BasicLit, BinaryExpr, CallExpr, Expr, ExprView,
    Ident, ParenExpr, UnaryExpr,
};
use crate::ast::stmt::{AssignStmt, BadStmt, DeclStmt, ExprStmt, Stmt, StmtView};
use crate::ast::{stmts_view, File, FileView};
use crate::token::{Token, TokenView};
use vstd::prelude::*;
use vstd::utf8::encode_utf8;

verus! {

/// A stretch of the source: the offset at which it begins, and the offset
/// before which it ends.
pub struct Span {
    pub beg: nat,
    pub end: nat,
}

impl Span {
    /// The stretch of a node that holds no offset.
    pub open spec fn none() -> Span {
        Span { beg: 0, end: 0 }
    }

    /// The stretch of `len` bytes at `pos`.
    pub open spec fn at(pos: nat, len: nat) -> Span {
        Span { beg: pos, end: pos + len }
    }

    /// The smallest stretch that holds this one and `other`.
    pub open spec fn hull(self, other: Span) -> Span {
        Span {
            beg: if self.beg <= other.beg {
                self.beg
            } else {
                other.beg
            },
            end: if self.end >= other.end {
                self.end
            } else {
                other.end
            },
        }
    }

    /// Whether `inner` lies within this stretch.
    pub open spec fn contains(self, inner: Span) -> bool {
        self.beg <= inner.beg && inner.end <= self.end
    }
}

/// The largest offset that the machine can hold, and every smaller one
/// as it is.
pub open spec fn clip(offset: nat) -> usize {
    if offset > usize::MAX {
        usize::MAX
    } else {
        offset as usize
    }
}

/// The number of bytes that `text` takes in the source.
pub open spec fn text_len(text: Seq<char>) -> nat {
    encode_utf8(text).len()
}

impl TokenView {
    /// The number of bytes of a literal in the source, the two quotes of
    /// a string among them; 0 for every other token.
    pub open spec fn literal_len(self) -> nat {
        match self {
            TokenView::Integer(text) => text_len(text),
            TokenView::Float(text) => text_len(text),
            TokenView::String(text) => text_len(text) + 2,
            _ => 0,
        }
    }
}

impl ExprView {
    /// The stretch of the source that the expression takes: the smallest
    /// that holds the offsets that stand in it and the stretches of its
    /// parts. A `Bad` node holds none.
    pub open spec fn span(self) -> Span
        decreases self,
    {
        match self {
            ExprView::Bad => Span::none(),
            ExprView::Ident { pos, name } => Span::at(pos, text_len(name)),
            ExprView::BasicLit { pos, tok } => Span::at(pos, tok.literal_len()),
            ExprView::Call { fun, lp_pos, args, rp_pos } => spans_hull(
                args,
                fun.span().hull(Span::at(lp_pos, 1)).hull(Span::at(rp_pos, 1)),
            ),
            ExprView::Unary { x, .. } => x.span(),
            ExprView::Binary { x, y, .. } => x.span().hull(y.span()),
            ExprView::Paren { l_pos, x, r_pos } => x.span().hull(Span::at(l_pos, 1)).hull(
                Span::at(r_pos, 1),
            ),
        }
    }
}

/// The smallest stretch that holds `first` and the stretch of every
/// expression of `list`.
pub open spec fn spans_hull(list: Seq<ExprView>, first: Span) -> Span
    decreases list,
{
    if list.len() == 0 {
        first
    } else {
        spans_hull(list.drop_last(), first).hull(list.last().span())
    }
}

impl DeclView {
    /// The stretch of the source that the declaration takes.
    pub open spec fn span(self) -> Span {
        match self {
            DeclView::Binding { pos, name_pos, name, assign_pos, value, .. } => {
                let head = Span::at(pos, 3).hull(Span::at(name_pos, text_len(name)));
                match value {
                    Some(e) => head.hull(Span::at(assign_pos, 1)).hull(e.span()),
                    None => head,
                }
            },
            _ => Span::none(),
        }
    }
}

impl StmtView {
    /// The stretch of the source that the statement takes, without the
    /// semicolon that ends it.
    pub open spec fn span(self) -> Span {
        match self {
            StmtView::Bad => Span::none(),
            StmtView::Decl(d) => d.span(),
            StmtView::Expr(e) => e.span(),
            StmtView::Assign { ptr, pos, val, .. } => ptr.span().hull(Span::at(pos, 1)).hull(
                val.span(),
            ),
        }
    }
}

/// The smallest stretch that holds that of every statement of `list`.
pub open spec fn stmts_hull(list: Seq<StmtView>) -> Span
    decreases list.len(),
{
    if list.len() == 0 {
        Span::none()
    } else if list.len() == 1 {
        list[0].span()
    } else {
        stmts_hull(list.drop_last()).hull(list.last().span())
    }
}

impl FileView {
    /// The stretch of the source that the statements take.
    pub open spec fn span(self) -> Span {
        stmts_hull(self.stmts)
    }
}

/// The hull of a list holds the first stretch and that of every
/// expression of the list.
pub proof fn lemma_spans_hull(list: Seq<ExprView>, first: Span)
    ensures
        spans_hull(list, first).contains(first),
        forall|i: int|
            0 <= i < list.len() ==> spans_hull(list, first).contains((#[trigger] list[i]).span()),
    decreases list.len(),
{
    if list.len() > 0 {
        lemma_spans_hull(list.drop_last(), first);
        assert forall|i: int| 0 <= i < list.len() implies spans_hull(list, first).contains(
            (#[trigger] list[i]).span(),
        ) by {
            if i < list.len() - 1 {
                assert(list.drop_last()[i] == list[i]);
            }
        }
    }
}

/// The stretch of an expression holds the stretch of each of its parts.
pub proof fn theorem_expr_span_holds_parts(e: ExprView)
    ensures
        e matches ExprView::Call { fun, args, .. } ==> e.span().contains(fun.span()) && forall|
            i: int,
        |
            0 <= i < args.len() ==> e.span().contains((#[trigger] args[i]).span()),
        e matches ExprView::Unary { x, .. } ==> e.span().contains(x.span()),
        e matches ExprView::Binary { x, y, .. } ==> e.span().contains(x.span())
            && e.span().contains(y.span()),
        e matches ExprView::Paren { x, .. } ==> e.span().contains(x.span()),
{
    if let ExprView::Call { fun, lp_pos, args, rp_pos } = e {
        lemma_spans_hull(args, fun.span().hull(Span::at(lp_pos, 1)).hull(Span::at(rp_pos, 1)));
    }
}

/// The stretch of a statement holds the stretch of each of its parts.
pub proof fn theorem_stmt_span_holds_parts(s: StmtView)
    ensures
        s matches StmtView::Decl(d) ==> s.span().contains(d.span()),
        s matches StmtView::Decl(DeclView::Binding { value: Some(e), .. }) ==> s.span().contains(
            e.span(),
        ),
        s matches StmtView::Expr(e) ==> s.span().contains(e.span()),
        s matches StmtView::Assign { ptr, val, .. } ==> s.span().contains(ptr.span())
            && s.span().contains(val.span()),
{
}

/// The stretch of a file holds the stretch of each of its statements.
pub proof fn theorem_file_span_holds_stmts(f: FileView, i: int)
    requires
        0 <= i < f.stmts.len(),
    ensures
        f.span().contains(f.stmts[i].span()),
{
    lemma_stmts_hull(f.stmts, i);
}

/// The hull of a list of statements holds the stretch of each of them.
proof fn lemma_stmts_hull(list: Seq<StmtView>, i: int)
    requires
        0 <= i < list.len(),
    ensures
        stmts_hull(list).contains(list[i].span()),
    decreases list.len(),
{
    if list.len() > 1 && i < list.len() - 1 {
        lemma_stmts_hull(list.drop_last(), i);
        assert(list.drop_last()[i] == list[i]);
    }
}

/// A node of a syntax tree: it takes a stretch of the source.
pub trait Node {
    /// The stretch of the source that the node takes.
    spec fn span(&self) -> Span;

    /// The offset at which the node begins.
    fn beg(&self) -> (r: usize)
        ensures
            r == self.span().beg,
    ;

    /// The offset before which the node ends, and the largest offset that
    /// the machine can hold where that is smaller.
    fn end(&self) -> (r: usize)
        ensures
            r == clip(self.span().end),
    ;
}

/// What a kind of value is written as. Nothing of the language has one yet.
pub trait Type: Node {

}

/// The smaller of two offsets.
fn smaller(a: usize, b: usize) -> (r: usize)
    ensures
        r == if a <= b {
            a
        } else {
            b
        },
{
    if a <= b {
        a
    } else {
        b
    }
}

/// The larger of two offsets.
fn larger(a: usize, b: usize) -> (r: usize)
    ensures
        r == if a >= b {
            a
        } else {
            b
        },
{
    if a >= b {
        a
    } else {
        b
    }
}

/// The number of bytes of `text`.
fn text_width(text: &String) -> (r: usize)
    ensures
        r == text_len(text@),
{
    text.as_str().as_bytes().len()
}

impl Token {
    /// The number of bytes of a literal in the source.
    fn literal_width(&self) -> (r: usize)
        ensures
            r == clip(self@.literal_len()),
    {
        match self {
            Token::Integer(text) => text_width(text),
            Token::Float(text) => text_width(text),
            Token::String(text) => text_width(text).saturating_add(2),
            _ => 0,
        }
    }
}

impl Node for BadExpr {
    open spec fn span(&self) -> Span {
        self@.span()
    }

    fn beg(&self) -> (r: usize) {
        0
    }

    fn end(&self) -> (r: usize) {
        0
    }
}

impl Node for Ident {
    open spec fn span(&self) -> Span {
        self@.span()
    }

    fn beg(&self) -> (r: usize) {
        self.pos
    }

    fn end(&self) -> (r: usize) {
        self.pos.saturating_add(text_width(&self.name))
    }
}

impl Node for BasicLit {
    open spec fn span(&self) -> Span {
        self@.span()
    }

    fn beg(&self) -> (r: usize) {
        self.pos
    }

    fn end(&self) -> (r: usize) {
        self.pos.saturating_add(self.tok.literal_width())
    }
}

impl Node for CallExpr {
    open spec fn span(&self) -> Span {
        self@.span()
    }

    fn beg(&self) -> (r: usize)
        decreases self, 0int,
    {
        let mut ret = smaller(smaller(self.fun.beg(), self.lp_pos), self.rp_pos);
        let ghost first = self.fun@.span().hull(Span::at(self.lp_pos as nat, 1)).hull(
            Span::at(self.rp_pos as nat, 1),
        );
        let mut i: usize = 0;
        proof {
            assert(self.args@.take(0) =~= Seq::empty());
        }
        while i < self.args.len()
            invariant
                i <= self.args.len(),
                ret == spans_hull(exprs_view(self.args@.take(i as int)), first).beg,
            decreases self.args.len() - i,
        {
            let b = self.args[i].beg();
            proof {
                let seen = self.args@.take(i as int);
                lemma_exprs_view_push(seen, self.args@[i as int]);
                assert(self.args@.take(i + 1) =~= seen.push(self.args@[i as int]));
                assert(exprs_view(seen).push(
                    self.args@[i as int]@,
                ).drop_last() =~= exprs_view(seen));
            }
            ret = smaller(ret, b);
            i += 1;
        }
        proof {
            assert(self.args@.take(self.args.len() as int) =~= self.args@);
        }
        ret
    }

    fn end(&self) -> (r: usize)
        decreases self, 0int,
    {
        let mut ret = larger(
            larger(self.fun.end(), self.lp_pos.saturating_add(1)),
            self.rp_pos.saturating_add(1),
        );
        let ghost first = self.fun@.span().hull(Span::at(self.lp_pos as nat, 1)).hull(
            Span::at(self.rp_pos as nat, 1),
        );
        let mut i: usize = 0;
        proof {
            assert(self.args@.take(0) =~= Seq::empty());
        }
        while i < self.args.len()
            invariant
                i <= self.args.len(),
                ret == clip(
                    spans_hull(exprs_view(self.args@.take(i as int)), first).end,
                ),
            decreases self.args.len() - i,
        {
            let e = self.args[i].end();
            proof {
                let seen = self.args@.take(i as int);
                lemma_exprs_view_push(seen, self.args@[i as int]);
                assert(self.args@.take(i + 1) =~= seen.push(self.args@[i as int]));
                assert(exprs_view(seen).push(
                    self.args@[i as int]@,
                ).drop_last() =~= exprs_view(seen));
            }
            ret = larger(ret, e);
            i += 1;
        }
        proof {
            assert(self.args@.take(self.args.len() as int) =~= self.args@);
        }
        ret
    }
}

impl Node for UnaryExpr {
    open spec fn span(&self) -> Span {
        self@.span()
    }

    fn beg(&self) -> (r: usize)
        decreases self, 0int,
    {
        self.x.beg()
    }

    fn end(&self) -> (r: usize)
        decreases self, 0int,
    {
        self.x.end()
    }
}

impl Node for BinaryExpr {
    open spec fn span(&self) -> Span {
        self@.span()
    }

    fn beg(&self) -> (r: usize)
        decreases self, 0int,
    {
        smaller(self.x.beg(), self.y.beg())
    }

    fn end(&self) -> (r: usize)
        decreases self, 0int,
    {
        larger(self.x.end(), self.y.end())
    }
}

impl Node for ParenExpr {
    open spec fn span(&self) -> Span {
        self@.span()
    }

    fn beg(&self) -> (r: usize)
        decreases self, 0int,
    {
        smaller(smaller(self.x.beg(), self.l_pos), self.r_pos)
    }

    fn end(&self) -> (r: usize)
        decreases self, 0int,
    {
        larger(larger(self.x.end(), self.l_pos.saturating_add(1)), self.r_pos.saturating_add(1))
    }
}

impl Node for Expr {
    open spec fn span(&self) -> Span {
        self@.span()
    }

    fn beg(&self) -> (r: usize)
        decreases self, 1int,
    {
        match self {
            Expr::Bad(x) => x.beg(),
            Expr::Ident(x) => x.beg(),
            Expr::BasicLit(x) => x.beg(),
            Expr::Call(x) => x.beg(),
            Expr::Unary(x) => x.beg(),
            Expr::Binary(x) => x.beg(),
            Expr::Paren(x) => x.beg(),
        }
    }

    fn end(&self) -> (r: usize)
        decreases self, 1int,
    {
        match self {
            Expr::Bad(x) => x.end(),
            Expr::Ident(x) => x.end(),
            Expr::BasicLit(x) => x.end(),
            Expr::Call(x) => x.end(),
            Expr::Unary(x) => x.end(),
            Expr::Binary(x) => x.end(),
            Expr::Paren(x) => x.end(),
        }
    }
}

impl Node for BadDecl {
    open spec fn span(&self) -> Span {
        self@.span()
    }

    fn beg(&self) -> (r: usize) {
        0
    }

    fn end(&self) -> (r: usize) {
        0
    }
}

impl Node for FunDecl {
    open spec fn span(&self) -> Span {
        self@.span()
    }

    fn beg(&self) -> (r: usize) {
        0
    }

    fn end(&self) -> (r: usize) {
        0
    }
}

/// The offset at which a binding begins, from its parts.
fn binding_beg(pos: usize, name: &Ident, assign_pos: usize, value: &Option<Box<Expr>>) -> (r:
    usize)
    ensures
        r == (DeclView::Binding {
            mutable: true,
            pos: pos as nat,
            name_pos: name.pos as nat,
            name: name.name@,
            assign_pos: assign_pos as nat,
            value: value_view(*value),
        }).span().beg,
{
    let head = smaller(pos, name.pos);
    match value {
        Some(e) => smaller(smaller(head, assign_pos), e.beg()),
        None => head,
    }
}

/// The offset before which a binding ends, from its parts.
fn binding_end(pos: usize, name: &Ident, assign_pos: usize, value: &Option<Box<Expr>>) -> (r:
    usize)
    ensures
        r == clip(
            (DeclView::Binding {
                mutable: true,
                pos: pos as nat,
                name_pos: name.pos as nat,
                name: name.name@,
                assign_pos: assign_pos as nat,
                value: value_view(*value),
            }).span().end,
        ),
{
    let head = larger(pos.saturating_add(3), name.end());
    match value {
        Some(e) => larger(larger(head, assign_pos.saturating_add(1)), e.end()),
        None => head,
    }
}

impl Node for VarDecl {
    open spec fn span(&self) -> Span {
        self@.span()
    }

    fn beg(&self) -> (r: usize) {
        binding_beg(self.var_pos, &*self.name, self.assign_pos, &self.value)
    }

    fn end(&self) -> (r: usize) {
        binding_end(self.var_pos, &*self.name, self.assign_pos, &self.value)
    }
}

impl Node for ValDecl {
    open spec fn span(&self) -> Span {
        self@.span()
    }

    fn beg(&self) -> (r: usize) {
        binding_beg(self.val_pos, &*self.name, self.assign_pos, &self.value)
    }

    fn end(&self) -> (r: usize) {
        binding_end(self.val_pos, &*self.name, self.assign_pos, &self.value)
    }
}

impl Node for Decl {
    open spec fn span(&self) -> Span {
        self@.span()
    }

    fn beg(&self) -> (r: usize) {
        match self {
            Decl::Bad(x) => x.beg(),
            Decl::Var(x) => x.beg(),
            Decl::Val(x) => x.beg(),
            Decl::Fun(x) => x.beg(),
        }
    }

    fn end(&self) -> (r: usize) {
        match self {
            Decl::Bad(x) => x.end(),
            Decl::Var(x) => x.end(),
            Decl::Val(x) => x.end(),
            Decl::Fun(x) => x.end(),
        }
    }
}

impl Node for BadStmt {
    open spec fn span(&self) -> Span {
        self@.span()
    }

    fn beg(&self) -> (r: usize) {
        0
    }

    fn end(&self) -> (r: usize) {
        0
    }
}

impl Node for DeclStmt {
    open spec fn span(&self) -> Span {
        self@.span()
    }

    fn beg(&self) -> (r: usize) {
        self.decl.beg()
    }

    fn end(&self) -> (r: usize) {
        self.decl.end()
    }
}

impl Node for ExprStmt {
    open spec fn span(&self) -> Span {
        self@.span()
    }

    fn beg(&self) -> (r: usize) {
        self.x.beg()
    }

    fn end(&self) -> (r: usize) {
        self.x.end()
    }
}

impl Node for AssignStmt {
    open spec fn span(&self) -> Span {
        self@.span()
    }

    fn beg(&self) -> (r: usize) {
        smaller(smaller(self.ptr.beg(), self.pos), self.val.beg())
    }

    fn end(&self) -> (r: usize) {
        larger(larger(self.ptr.end(), self.pos.saturating_add(1)), self.val.end())
    }
}

impl Node for Stmt {
    open spec fn span(&self) -> Span {
        self@.span()
    }

    fn beg(&self) -> (r: usize) {
        match self {
            Stmt::Bad(x) => x.beg(),
            Stmt::Decl(x) => x.beg(),
            Stmt::Expr(x) => x.beg(),
            Stmt::Assign(x) => x.beg(),
        }
    }

    fn end(&self) -> (r: usize) {
        match self {
            Stmt::Bad(x) => x.end(),
            Stmt::Decl(x) => x.end(),
            Stmt::Expr(x) => x.end(),
            Stmt::Assign(x) => x.end(),
        }
    }
}

impl Node for File {
    open spec fn span(&self) -> Span {
        self@.span()
    }

    fn beg(&self) -> (r: usize) {
        if self.stmts.len() > 0 {
            let mut ret = self.stmts[0].beg();
            let mut i: usize = 1;
            proof {
                assert(stmts_view(self.stmts@).take(1) =~= seq![self.stmts@[0]@]);
            }
            while i < self.stmts.len()
                invariant
                    1 <= i <= self.stmts.len(),
                    ret == stmts_hull(stmts_view(self.stmts@).take(i as int)).beg,
                decreases self.stmts.len() - i,
            {
                let b = self.stmts[i].beg();
                proof {
                    let all = stmts_view(self.stmts@);
                    assert(all.take(i + 1).drop_last() =~= all.take(i as int));
                    assert(all.take(i + 1).last() == self.stmts@[i as int]@);
                }
                ret = smaller(ret, b);
                i += 1;
            }
            proof {
                assert(stmts_view(self.stmts@).take(self.stmts.len() as int) =~= self@.stmts);
            }
            ret
        } else {
            0
        }
    }

    fn end(&self) -> (r: usize) {
        if self.stmts.len() > 0 {
            let mut ret = self.stmts[0].end();
            let mut i: usize = 1;
            proof {
                assert(stmts_view(self.stmts@).take(1) =~= seq![self.stmts@[0]@]);
            }
            while i < self.stmts.len()
                invariant
                    1 <= i <= self.stmts.len(),
                    ret == clip(stmts_hull(stmts_view(self.stmts@).take(i as int)).end),
                decreases self.stmts.len() - i,
            {
                let e = self.stmts[i].end();
                proof {
                    let all = stmts_view(self.stmts@);
                    assert(all.take(i + 1).drop_last() =~= all.take(i as int));
                    assert(all.take(i + 1).last() == self.stmts@[i as int]@);
                }
                ret = larger(ret, e);
                i += 1;
            }
            proof {
                assert(stmts_view(self.stmts@).take(self.stmts.len() as int) =~= self@.stmts);
            }
            ret
        } else {
            0
        }
    }
}

} // verus!
