//! The syntax-tree values the demonstration grammar produces.

use vstd::prelude::*;

verus! {

use crate::text::copy_chars;

/// A parsed literal.  Text is kept as a character vector so that its length
/// agrees with the character offsets the engine reports.
#[derive(Debug)]
pub enum Ast {
    Integer(i64),
    Bool(bool),
    Text(Vec<char>),
}

/// Mathematical model of an [`Ast`] value.
pub ghost enum AstView {
    Integer(i64),
    Bool(bool),
    Text(Seq<char>),
}

/// The model of an [`Ast`] value.
pub open spec fn ast_view(a: Ast) -> AstView {
    match a {
        Ast::Integer(n) => AstView::Integer(n),
        Ast::Bool(b) => AstView::Bool(b),
        Ast::Text(cs) => AstView::Text(cs@),
    }
}

/// A fresh node with the same model as `a`.
pub fn ast_dup(a: &Ast) -> (r: Ast)
    ensures
        ast_view(r) == ast_view(*a),
{
    match a {
        Ast::Integer(n) => Ast::Integer(*n),
        Ast::Bool(b) => Ast::Bool(*b),
        Ast::Text(cs) => Ast::Text(copy_chars(cs)),
    }
}

} // verus!
