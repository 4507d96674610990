pub mod decl;
pub mod expr;
pub mod span;
pub mod stmt;
pub mod visit;

pub use decl::{BadDecl, Decl, DeclView, FunDecl, ValDecl, VarDecl};
pub use expr::{
    BadExpr, BasicLit, BinaryExpr, CallExpr, Expr, ExprView, Ident, ParenExpr, UnaryExpr,
};
pub use stmt::{AssignStmt, BadStmt, DeclStmt, ExprStmt, Stmt, StmtView};
pub use span::{Node, Span, Type};
pub use visit::Visitor;

use vstd::prelude::*;

verus! {

/// A parsed source: its statements, in order.
#[derive(Debug, PartialEq, Eq)]
pub struct File {
    pub stmts: Vec<Box<Stmt>>,
}

/// The mathematical value of a [`File`].
pub struct FileView {
    pub stmts: Seq<StmtView>,
}

impl FileView {
    /// Whether a `Bad` node stands anywhere in the file.
    pub open spec fn has_bad(self) -> bool {
        exists|i: int| 0 <= i < self.stmts.len() && (#[trigger] self.stmts[i]).has_bad()
    }
}

/// The values of a list of statements, in order.
pub open spec fn stmts_view(list: Seq<Box<Stmt>>) -> Seq<StmtView> {
    Seq::new(list.len(), |i: int| list[i]@)
}

impl View for File {
    type V = FileView;

    open spec fn view(&self) -> FileView {
        FileView { stmts: stmts_view(self.stmts@) }
    }
}

} // verus!
