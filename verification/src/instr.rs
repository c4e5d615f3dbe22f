use vstd::prelude::*;
use crate::ops::{IdentStr, Literal};
use crate::span::Span;

verus! {

/// A branch target. Labels are numbered per function and mean nothing
/// outside the function they were allotted in.
pub type Label = usize;

/// The construct that put a label into the bytecode.
#[derive(Clone, Copy, Debug, PartialEq, Eq, Structural)]
pub enum Producer {
    If,
    Else,
    Loop,
    Break,
}

/// What a bytecode instruction does. `I` is the target's set of intrinsics.
#[derive(Debug, PartialEq, Eq)]
pub enum InstrKind<I> {
    Label { label: Label, producer: Producer },
    Push { value: Literal },
    Call { to: IdentStr },
    Return,
    Drop,
    Copy,
    Over,
    Swap,
    Rot3,
    Rot4,
    Read,
    Write,
    Add,
    Sub,
    Mul,
    Dvm,
    Not,
    And,
    Or,
    Xor,
    Eq,
    Gt,
    Gte,
    Lt,
    Lte,
    Bne { to: Label },
    Bra { to: Label },
    Intrinsic(I),
}

/// One bytecode instruction together with the place in the source that it
/// was generated for.
#[derive(Debug, PartialEq, Eq)]
pub struct Instr<I> {
    pub kind: InstrKind<I>,
    pub span: Span,
}

impl<I> Instr<I> {
    pub fn spanned(kind: InstrKind<I>, span: Span) -> (instr: Self)
        ensures
            instr == (Instr { kind, span }),
    {
        Self { kind, span }
    }

    pub fn unspanned(kind: InstrKind<I>) -> (instr: Self)
        ensures
            instr == (Instr { kind, span: Span::empty() }),
    {
        Self { kind, span: Span::default() }
    }
}

/// The target's way of recognising a call by its name. A target implements
/// this once for its own instruction set; the answer depends on the name
/// alone.
pub trait Intrinsic: Sized {
    /// The intrinsic that `name` stands for on this target, if any.
    spec fn recognize(name: Seq<char>) -> Option<Self>;

    fn generate(name: &IdentStr) -> (found: Option<Self>)
        ensures
            found == Self::recognize(name@),
    ;
}

} // verus!
