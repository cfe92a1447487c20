//! The checked program tree handed over by the parser.
use vstd::prelude::*;

verus! {

/// A whole program: message schemas and agent definitions.
#[derive(Debug)]
pub struct Program {
    pub types: Vec<TypeDef>,
    pub agents: Vec<AgentDef>,
}

/// A named message type and its variants.
#[derive(Debug)]
pub struct TypeDef {
    pub name: String,
    pub variants: Vec<Variant>,
}

/// One message shape of a type.
#[derive(Debug)]
pub struct Variant {
    pub name: String,
    pub fields: Vec<Field>,
}

#[derive(Debug)]
pub struct Field {
    pub name: String,
    pub ty: Type,
}

/// Semantic types; compared nominally.
#[derive(Debug, PartialEq)]
pub enum Type {
    Int,
    String,
    Bool,
    /// A handle to an agent that accepts messages of the named type.
    Ref(String),
    /// A user record type.
    Named(String),
}

#[derive(Debug)]
pub struct AgentDef {
    pub name: String,
    pub state: Vec<StateVar>,
    pub handlers: Vec<Handler>,
}

#[derive(Debug)]
pub struct StateVar {
    pub name: String,
    pub ty: Type,
    pub init: Expr,
}

#[derive(Debug)]
pub struct Handler {
    pub variant: String,
    pub params: Vec<String>,
    pub body: Vec<Stmt>,
}

#[derive(Debug)]
#[allow(inconsistent_fields)]
pub enum Stmt {
    Assign { target: String, value: Expr },
    Send { target: Expr, msg_variant: String, args: Vec<Expr> },
    Effect { name: String, args: Vec<Expr> },
}

#[derive(Debug)]
pub enum Expr {
    Var(String),
    Int(i64),
    Str(String),
    Bool(bool),
    BinOp { op: BinOp, left: Box<Expr>, right: Box<Expr> },
    FieldAccess { obj: Box<Expr>, field: String },
}

#[derive(Clone, Copy, PartialEq, Eq, Structural, Debug)]
pub enum BinOp {
    Add,
    Sub,
    Mul,
    Div,
    Eq,
    Ne,
    Lt,
    Gt,
}

impl BinOp {
    pub open spec fn is_arith(self) -> bool {
        matches!(self, BinOp::Add | BinOp::Sub | BinOp::Mul | BinOp::Div)
    }
}

/// Nominal equality of types: the same constructor and, for `Ref` and
/// `Named`, the same type name.
pub open spec fn same_type(a: Type, b: Type) -> bool {
    match (a, b) {
        (Type::Int, Type::Int) => true,
        (Type::String, Type::String) => true,
        (Type::Bool, Type::Bool) => true,
        (Type::Ref(x), Type::Ref(y)) => x@ == y@,
        (Type::Named(x), Type::Named(y)) => x@ == y@,
        _ => false,
    }
}

impl Type {
    pub fn same_as(&self, other: &Type) -> (r: bool)
        ensures
            r == same_type(*self, *other),
    {
        match (self, other) {
            (Type::Int, Type::Int) => true,
            (Type::String, Type::String) => true,
            (Type::Bool, Type::Bool) => true,
            (Type::Ref(x), Type::Ref(y)) => x.eq(y),
            (Type::Named(x), Type::Named(y)) => x.eq(y),
            _ => false,
        }
    }

    pub fn copy(&self) -> (r: Type)
        ensures
            r == *self,
    {
        match self {
            Type::Int => Type::Int,
            Type::String => Type::String,
            Type::Bool => Type::Bool,
            Type::Ref(n) => Type::Ref(n.clone()),
            Type::Named(n) => Type::Named(n.clone()),
        }
    }
}

} // verus!
