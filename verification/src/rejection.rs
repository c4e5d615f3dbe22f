use vstd::prelude::*;
use crate::codegen::{
    enter, escape_within, flatten, flatten_op, lemma_flatten_stops, CodegenError, CodegenErrorKind,
    Flat,
};
use crate::instr::{Intrinsic, Label};
use crate::ops::{Op, OpKind};

verus! {

/// The state in which the body of the control operation `ops[at]` is left,
/// when the operation is met in state `st`.
pub open spec fn body_outcome<I: Intrinsic>(
    st: Flat<I>,
    ops: Seq<Op>,
    at: int,
    escape: Option<Label>,
) -> Flat<I>
    recommends
        0 <= at < ops.len(),
{
    let op = ops[at];
    let within = escape_within(st, op, escape);
    match op.kind {
        OpKind::If { block } => flatten(enter(st, op), block@, within, block@.len()),
        OpKind::Else { block } => flatten(enter(st, op), block@, within, block@.len()),
        OpKind::Loop { block } => flatten(enter(st, op), block@, within, block@.len()),
        _ => st,
    }
}

/// An `else` that does not stand directly behind the end of an `if` is
/// refused where it stands, with nothing emitted for it.
pub proof fn lemma_else_without_if<I: Intrinsic>(
    st: Flat<I>,
    ops: Seq<Op>,
    at: int,
    escape: Option<Label>,
)
    requires
        0 <= at < ops.len(),
        ops[at].kind is Else,
        !st.closes_if(),
    ensures
        flatten_op(st, ops, at, escape) == st.fail(CodegenErrorKind::InvalidElse, ops[at].span),
{
}

/// An `else` that opens the body of an `if` or of a `loop` is refused: what
/// stands before it there is the construct's own entry.
pub proof fn lemma_else_opening_a_body<I: Intrinsic>(
    st: Flat<I>,
    ops: Seq<Op>,
    at: int,
    escape: Option<Label>,
    block: Vec<Op>,
)
    requires
        0 <= at < ops.len(),
        st.error is None,
        ops[at].kind == (OpKind::If { block }) || ops[at].kind == (OpKind::Loop { block }),
        block@.len() > 0,
        block@[0].kind is Else,
    ensures
        flatten_op(st, ops, at, escape).error == Some(
            CodegenError { kind: CodegenErrorKind::InvalidElse, span: block@[0].span },
        ),
{
    let op = ops[at];
    let inner = escape_within(st, op, escape);
    let entered = enter(st, op);
    assert(!entered.closes_if());
    assert(flatten(entered, block@, inner, 0) == entered);
    assert(flatten(entered, block@, inner, 1) == flatten_op(entered, block@, 0, inner));
    lemma_else_without_if(entered, block@, 0, inner);
    lemma_flatten_stops(entered, block@, inner, 1, block@.len());
    assert(body_outcome(st, ops, at, escape) == flatten(entered, block@, inner, block@.len()));
    lemma_failure_passes_up(st, ops, at, escape);
}

/// A `break` that no loop stands around is refused where it stands, with
/// nothing emitted for it.
pub proof fn lemma_break_outside_loop<I: Intrinsic>(st: Flat<I>, ops: Seq<Op>, at: int)
    requires
        0 <= at < ops.len(),
        ops[at].kind is Break,
    ensures
        flatten_op(st, ops, at, None) == st.fail(CodegenErrorKind::InvalidBreak, ops[at].span),
{
}

/// A failure inside the body of an `if`, an `else` or a `loop` is the
/// failure of that operation: the same kind at the same span, however deep
/// the body stands.
pub proof fn lemma_failure_passes_up<I: Intrinsic>(
    st: Flat<I>,
    ops: Seq<Op>,
    at: int,
    escape: Option<Label>,
)
    requires
        0 <= at < ops.len(),
        ops[at].kind is If || ops[at].kind is Loop || (ops[at].kind is Else && st.closes_if()),
        body_outcome(st, ops, at, escape).error is Some,
    ensures
        flatten_op(st, ops, at, escape) == body_outcome(st, ops, at, escape),
{
}

/// The failure that is reported is the first one in source order: the
/// operations behind it are not looked at.
pub proof fn lemma_first_failure_wins<I: Intrinsic>(
    st: Flat<I>,
    ops: Seq<Op>,
    escape: Option<Label>,
    at: int,
)
    requires
        0 <= at < ops.len(),
        flatten(st, ops, escape, at as nat).error is None,
        flatten_op(flatten(st, ops, escape, at as nat), ops, at, escape).error is Some,
    ensures
        flatten(st, ops, escape, ops.len()) == flatten_op(
            flatten(st, ops, escape, at as nat),
            ops,
            at,
            escape,
        ),
{
    assert(flatten(st, ops, escape, (at + 1) as nat) == flatten_op(
        flatten(st, ops, escape, at as nat),
        ops,
        at,
        escape,
    ));
    lemma_flatten_stops(st, ops, escape, (at + 1) as nat, ops.len());
}

} // verus!
