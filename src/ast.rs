use vstd::prelude::*;
use crate::token::{LiteralModel, LiteralValue, Number, Token, TokenModel};

verus! {

/// A value that a literal expression denotes.
pub enum Object {
    Number(Number),
    Str(String),
    Nil,
    Bool(bool),
}

/// The mathematical content of an `Object`.
pub enum ObjectModel {
    Number(Seq<char>, Seq<char>),
    Str(Seq<char>),
    Nil,
    Bool(bool),
}

impl View for Object {
    type V = ObjectModel;

    open spec fn view(&self) -> ObjectModel {
        match self {
            Object::Number(n) => ObjectModel::Number(n.whole@, n.fraction@),
            Object::Str(s) => ObjectModel::Str(s@),
            Object::Nil => ObjectModel::Nil,
            Object::Bool(b) => ObjectModel::Bool(*b),
        }
    }
}

/// The value a token's literal denotes in a tree.
pub open spec fn object_of(l: LiteralModel) -> ObjectModel {
    match l {
        LiteralModel::Number(w, f) => ObjectModel::Number(w, f),
        LiteralModel::Str(s) => ObjectModel::Str(s),
        LiteralModel::Nil => ObjectModel::Nil,
    }
}

impl LiteralValue {
    pub fn to_object(&self) -> (r: Object)
        ensures
            r@ == object_of(self@),
    {
        match self {
            LiteralValue::Number(n) => Object::Number(n.clone()),
            LiteralValue::String(s) => Object::Str(s.clone()),
            LiteralValue::Nil => Object::Nil,
        }
    }
}

/// An expression tree; each node owns its children.
pub enum Expr {
    Binary { left: Box<Expr>, operator: Token, right: Box<Expr> },
    Grouping { expression: Box<Expr> },
    Literal { value: Object },
    Unary { operator: Token, right: Box<Expr> },
}

/// The mathematical content of an expression tree.
pub enum ExprModel {
    Binary(Box<ExprModel>, TokenModel, Box<ExprModel>),
    Grouping(Box<ExprModel>),
    Literal(ObjectModel),
    Unary(TokenModel, Box<ExprModel>),
}

impl Expr {
    pub open spec fn model(&self) -> ExprModel
        decreases self,
    {
        match self {
            Expr::Binary { left, operator, right } => ExprModel::Binary(
                Box::new(left.model()),
                operator@,
                Box::new(right.model()),
            ),
            Expr::Grouping { expression } => ExprModel::Grouping(Box::new(expression.model())),
            Expr::Literal { value } => ExprModel::Literal(value@),
            Expr::Unary { operator, right } => ExprModel::Unary(operator@, Box::new(right.model())),
        }
    }
}

} // verus!
