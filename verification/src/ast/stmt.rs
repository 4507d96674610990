use crate::ast::decl::{Decl, DeclView};
use crate::ast::expr::{Expr, ExprView};
use crate::token::{Token, TokenView};
use vstd::prelude::*;

verus! {

/// A statement.
#[derive(Debug, PartialEq, Eq)]
pub enum Stmt {
    Bad(BadStmt),
    Decl(DeclStmt),
    Expr(ExprStmt),
    Assign(AssignStmt),
}

/// What stands where no statement could be read.
#[derive(Debug, PartialEq, Eq)]
pub struct BadStmt {}

/// A declaration that stands as a statement.
#[derive(Debug, PartialEq, Eq)]
pub struct DeclStmt {
    pub decl: Box<Decl>,
}

/// An expression that stands as a statement.
#[derive(Debug, PartialEq, Eq)]
pub struct ExprStmt {
    pub x: Box<Expr>,
}

/// An assignment: the target, the operator with its offset, and the value.
/// Any expression may stand as the target.
#[derive(Debug, PartialEq, Eq)]
pub struct AssignStmt {
    pub ptr: Box<Expr>,
    pub pos: usize,
    pub tok: Token,
    pub val: Box<Expr>,
}

/// The mathematical value of a [`Stmt`].
pub enum StmtView {
    Bad,
    Decl(DeclView),
    Expr(ExprView),
    Assign { ptr: ExprView, pos: nat, tok: TokenView, val: ExprView },
}

impl StmtView {
    /// Whether a `Bad` node stands anywhere in the statement.
    pub open spec fn has_bad(self) -> bool {
        match self {
            StmtView::Bad => true,
            StmtView::Decl(d) => d.has_bad(),
            StmtView::Expr(e) => e.has_bad(),
            StmtView::Assign { ptr, val, .. } => ptr.has_bad() || val.has_bad(),
        }
    }
}

impl View for BadStmt {
    type V = StmtView;

    open spec fn view(&self) -> StmtView {
        StmtView::Bad
    }
}

impl View for DeclStmt {
    type V = StmtView;

    open spec fn view(&self) -> StmtView {
        StmtView::Decl(self.decl@)
    }
}

impl View for ExprStmt {
    type V = StmtView;

    open spec fn view(&self) -> StmtView {
        StmtView::Expr(self.x@)
    }
}

impl View for AssignStmt {
    type V = StmtView;

    open spec fn view(&self) -> StmtView {
        StmtView::Assign { ptr: self.ptr@, pos: self.pos as nat, tok: self.tok@, val: self.val@ }
    }
}

impl View for Stmt {
    type V = StmtView;

    open spec fn view(&self) -> StmtView {
        match self {
            Stmt::Bad(s) => s@,
            Stmt::Decl(s) => s@,
            Stmt::Expr(s) => s@,
            Stmt::Assign(s) => s@,
        }
    }
}

} // verus!
