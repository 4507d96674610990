use crate::ast::expr::{Expr, ExprView, Ident};
use vstd::prelude::*;

verus! {

/// A declaration.
#[derive(Debug, PartialEq, Eq)]
pub enum Decl {
    Bad(BadDecl),
    Var(VarDecl),
    Val(ValDecl),
    Fun(FunDecl),
}

/// What stands where no declaration could be read.
#[derive(Debug, PartialEq, Eq)]
pub struct BadDecl {}

/// The declaration of a variable: `var`, a name and, after `=`, the value
/// it starts with. Without a value `assign_pos` is 0.
#[derive(Debug, PartialEq, Eq)]
pub struct VarDecl {
    pub var_pos: usize,
    pub name: Box<Ident>,
    pub assign_pos: usize,
    pub value: Option<Box<Expr>>,
}

/// The declaration of a name that is bound once: `val`, a name and, after
/// `=`, its value. Without a value `assign_pos` is 0.
#[derive(Debug, PartialEq, Eq)]
pub struct ValDecl {
    pub val_pos: usize,
    pub name: Box<Ident>,
    pub assign_pos: usize,
    pub value: Option<Box<Expr>>,
}

/// The declaration of a function. It holds nothing.
#[derive(Debug, PartialEq, Eq)]
pub struct FunDecl {}

/// The mathematical value of a [`Decl`]. The two kinds of binding differ in
/// `mutable` alone: it is set for `var`.
pub enum DeclView {
    Bad,
    Binding {
        mutable: bool,
        pos: nat,
        name_pos: nat,
        name: Seq<char>,
        assign_pos: nat,
        value: Option<ExprView>,
    },
    Fun,
}

impl DeclView {
    /// Whether a `Bad` node stands anywhere in the declaration.
    pub open spec fn has_bad(self) -> bool {
        match self {
            DeclView::Bad => true,
            DeclView::Binding { value, .. } => value matches Some(e) && e.has_bad(),
            DeclView::Fun => false,
        }
    }
}

/// The value of an initializer, where there is one.
pub open spec fn value_view(value: Option<Box<Expr>>) -> Option<ExprView> {
    match value {
        Some(e) => Some(e@),
        None => None,
    }
}

impl View for BadDecl {
    type V = DeclView;

    open spec fn view(&self) -> DeclView {
        DeclView::Bad
    }
}

impl View for VarDecl {
    type V = DeclView;

    open spec fn view(&self) -> DeclView {
        DeclView::Binding {
            mutable: true,
            pos: self.var_pos as nat,
            name_pos: self.name.pos as nat,
            name: self.name.name@,
            assign_pos: self.assign_pos as nat,
            value: value_view(self.value),
        }
    }
}

impl View for ValDecl {
    type V = DeclView;

    open spec fn view(&self) -> DeclView {
        DeclView::Binding {
            mutable: false,
            pos: self.val_pos as nat,
            name_pos: self.name.pos as nat,
            name: self.name.name@,
            assign_pos: self.assign_pos as nat,
            value: value_view(self.value),
        }
    }
}

impl View for FunDecl {
    type V = DeclView;

    open spec fn view(&self) -> DeclView {
        DeclView::Fun
    }
}

impl View for Decl {
    type V = DeclView;

    open spec fn view(&self) -> DeclView {
        match self {
            Decl::Bad(d) => d@,
            Decl::Var(d) => d@,
            Decl::Val(d) => d@,
            Decl::Fun(d) => d@,
        }
    }
}

} // verus!
