use crate::token::{Token, TokenView};
use vstd::prelude::*;

verus! {

/// An expression.
#[derive(Debug, PartialEq, Eq)]
pub enum Expr {
    Bad(BadExpr),
    Ident(Ident),
    BasicLit(BasicLit),
    Call(CallExpr),
    Unary(UnaryExpr),
    Binary(BinaryExpr),
    Paren(ParenExpr),
}

/// What stands where no expression could be read.
#[derive(Debug, PartialEq, Eq)]
pub struct BadExpr {}

/// A name, with the offset at which it stands.
#[derive(Debug, PartialEq, Eq)]
pub struct Ident {
    pub pos: usize,
    pub name: String,
}

/// A numeral or a string, as the token that was read.
#[derive(Debug, PartialEq, Eq)]
pub struct BasicLit {
    pub pos: usize,
    pub tok: Token,
}

/// A call: what is called, and the arguments between two parentheses.
#[derive(Debug, PartialEq, Eq)]
pub struct CallExpr {
    pub fun: Box<Expr>,
    pub lp_pos: usize,
    pub args: Vec<Box<Expr>>,
    pub rp_pos: usize,
}

/// A prefix operator and its operand.
#[derive(Debug, PartialEq, Eq)]
pub struct UnaryExpr {
    pub op: Token,
    pub x: Box<Expr>,
}

/// A binary operator between its two operands.
#[derive(Debug, PartialEq, Eq)]
pub struct BinaryExpr {
    pub x: Box<Expr>,
    pub op: Token,
    pub y: Box<Expr>,
}

/// An expression between two parentheses.
#[derive(Debug, PartialEq, Eq)]
pub struct ParenExpr {
    pub l_pos: usize,
    pub x: Box<Expr>,
    pub r_pos: usize,
}

/// The mathematical value of an [`Expr`].
pub enum ExprView {
    Bad,
    Ident { pos: nat, name: Seq<char> },
    BasicLit { pos: nat, tok: TokenView },
    Call { fun: Box<ExprView>, lp_pos: nat, args: Seq<ExprView>, rp_pos: nat },
    Unary { op: TokenView, x: Box<ExprView> },
    Binary { x: Box<ExprView>, op: TokenView, y: Box<ExprView> },
    Paren { l_pos: nat, x: Box<ExprView>, r_pos: nat },
}

impl ExprView {
    /// Whether a `Bad` node stands anywhere in the expression.
    pub open spec fn has_bad(self) -> bool
        decreases self,
    {
        match self {
            ExprView::Bad => true,
            ExprView::Ident { .. } => false,
            ExprView::BasicLit { .. } => false,
            ExprView::Call { fun, args, .. } => fun.has_bad() || exists|i: int|
                0 <= i < args.len() && (#[trigger] args[i]).has_bad(),
            ExprView::Unary { x, .. } => x.has_bad(),
            ExprView::Binary { x, y, .. } => x.has_bad() || y.has_bad(),
            ExprView::Paren { x, .. } => x.has_bad(),
        }
    }
}

/// The value of an expression: that of each of its parts, in place.
pub open spec fn expr_view(e: &Expr) -> ExprView
    decreases e,
{
    match e {
        Expr::Bad(_) => ExprView::Bad,
        Expr::Ident(x) => ExprView::Ident { pos: x.pos as nat, name: x.name@ },
        Expr::BasicLit(x) => ExprView::BasicLit { pos: x.pos as nat, tok: x.tok@ },
        Expr::Call(x) => ExprView::Call {
            fun: Box::new(expr_view(&*x.fun)),
            lp_pos: x.lp_pos as nat,
            args: exprs_view(x.args@),
            rp_pos: x.rp_pos as nat,
        },
        Expr::Unary(x) => ExprView::Unary { op: x.op@, x: Box::new(expr_view(&*x.x)) },
        Expr::Binary(x) => ExprView::Binary {
            x: Box::new(expr_view(&*x.x)),
            op: x.op@,
            y: Box::new(expr_view(&*x.y)),
        },
        Expr::Paren(x) => ExprView::Paren {
            l_pos: x.l_pos as nat,
            x: Box::new(expr_view(&*x.x)),
            r_pos: x.r_pos as nat,
        },
    }
}

/// The values of a list of expressions, in order.
pub open spec fn exprs_view(list: Seq<Box<Expr>>) -> Seq<ExprView>
    decreases list,
{
    if list.len() == 0 {
        Seq::empty()
    } else {
        exprs_view(list.drop_last()).push(expr_view(&*list.last()))
    }
}

/// The values of a list with one more expression are those of the list
/// and the value of that expression.
pub proof fn lemma_exprs_view_push(list: Seq<Box<Expr>>, e: Box<Expr>)
    ensures
        exprs_view(list.push(e)) == exprs_view(list).push(e@),
        exprs_view(list).len() == list.len(),
    decreases list.len(),
{
    assert(list.push(e).drop_last() =~= list);
    if list.len() > 0 {
        lemma_exprs_view_push(list.drop_last(), list.last());
    }
}

impl View for BadExpr {
    type V = ExprView;

    open spec fn view(&self) -> ExprView {
        ExprView::Bad
    }
}

impl View for Ident {
    type V = ExprView;

    open spec fn view(&self) -> ExprView {
        ExprView::Ident { pos: self.pos as nat, name: self.name@ }
    }
}

impl View for BasicLit {
    type V = ExprView;

    open spec fn view(&self) -> ExprView {
        ExprView::BasicLit { pos: self.pos as nat, tok: self.tok@ }
    }
}

impl View for CallExpr {
    type V = ExprView;

    open spec fn view(&self) -> ExprView {
        ExprView::Call {
            fun: Box::new(expr_view(&*self.fun)),
            lp_pos: self.lp_pos as nat,
            args: exprs_view(self.args@),
            rp_pos: self.rp_pos as nat,
        }
    }
}

impl View for UnaryExpr {
    type V = ExprView;

    open spec fn view(&self) -> ExprView {
        ExprView::Unary { op: self.op@, x: Box::new(expr_view(&*self.x)) }
    }
}

impl View for BinaryExpr {
    type V = ExprView;

    open spec fn view(&self) -> ExprView {
        ExprView::Binary {
            x: Box::new(expr_view(&*self.x)),
            op: self.op@,
            y: Box::new(expr_view(&*self.y)),
        }
    }
}

impl View for ParenExpr {
    type V = ExprView;

    open spec fn view(&self) -> ExprView {
        ExprView::Paren {
            l_pos: self.l_pos as nat,
            x: Box::new(expr_view(&*self.x)),
            r_pos: self.r_pos as nat,
        }
    }
}

impl View for Expr {
    type V = ExprView;

    open spec fn view(&self) -> ExprView {
        expr_view(self)
    }
}

} // verus!
