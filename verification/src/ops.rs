use vstd::prelude::*;
use crate::span::Span;

verus! {

/// The name of a function or of a called word.
pub type IdentStr = String;

/// A constant that a `push` puts on the stack.
#[derive(Clone, Debug, PartialEq, Eq)]
pub enum Literal {
    Int(i64),
    Bool(bool),
    Str(String),
}

/// What an operation of the source language does. The control operations
/// carry their body; everything else is flat.
#[derive(Debug, PartialEq, Eq)]
pub enum OpKind {
    Push { value: Literal },
    Call { name: IdentStr },
    Copy,
    Over,
    Swap,
    Rot3,
    Rot4,
    Drop,
    Read,
    Write,
    Move,
    Addr,
    Type,
    Size,
    Dot,
    Add,
    Sub,
    Mul,
    Dvm,
    Not,
    And,
    Or,
    Xor,
    Eq,
    Gt,
    Gte,
    Lt,
    Lte,
    If { block: Vec<Op> },
    Elif { block: Vec<Op> },
    Else { block: Vec<Op> },
    Loop { block: Vec<Op> },
    For { block: Vec<Op> },
    Break,
}

/// One operation together with the place it was written at.
#[derive(Debug, PartialEq, Eq)]
pub struct Op {
    pub kind: OpKind,
    pub span: Span,
}

/// A function definition as the parser hands it over.
#[derive(Debug, PartialEq, Eq)]
pub struct FunDef {
    pub name: IdentStr,
    pub span: Span,
    pub body: Vec<Op>,
}

/// The items of one source file.
#[derive(Debug, PartialEq, Eq)]
pub struct Items {
    pub funs: Vec<FunDef>,
}

/// One parsed source file.
#[derive(Debug, PartialEq, Eq)]
pub struct SourceFile {
    pub items: Items,
}

impl Op {
    pub fn spanned(kind: OpKind, span: Span) -> (op: Op)
        ensures
            op.kind == kind,
            op.span == span,
    {
        Op { kind, span }
    }
}

} // verus!
