use vstd::prelude::*;
use crate::codegen::{
    enter, escape_within, first_label, flat_kind, flatten, flatten_op, function_code, label_demand,
    labels_fit, lemma_counter_bounds, op_label_demand, second_label, Flat,
};
use crate::instr::{Instr, InstrKind, Intrinsic, Label, Producer};
use crate::labels::{
    branch_at, grows, has_branch, has_label, has_label_of, is_plain, label_at, labels_as,
    lemma_insert_frame, lemma_push_frame, lemma_tidy_insert_branch, lemma_tidy_push_branch,
    lemma_tidy_push_label, lemma_tidy_push_plain, no_loop_labels, pending, resolved_forward, tidy,
    well_labelled,
};
use crate::ops::{FunDef, Op, OpKind};

verus! {

/// The escape label of the loop around a block was handed out, and its
/// label instruction is still to come.
pub open spec fn escape_open<I>(st: Flat<I>, escape: Option<Label>) -> bool {
    escape matches Some(exit) ==> 1 <= exit <= st.counter && !has_label(st.code, exit)
}

/// Flattening a block keeps the bytecode tidy and leaves no branch open but
/// those that were open before and those of `break`.
pub proof fn lemma_flatten_tidy<I: Intrinsic>(
    st: Flat<I>,
    ops: Seq<Op>,
    escape: Option<Label>,
    n: nat,
)
    requires
        n <= ops.len(),
        st.error is None,
        0 <= st.counter,
        st.counter + label_demand(ops, n) <= usize::MAX,
        tidy(st.code, st.counter),
        escape_open(st, escape),
        flatten(st, ops, escape, n).error is None,
    ensures
        tidy(flatten(st, ops, escape, n).code, flatten(st, ops, escape, n).counter),
        grows(
            st.code,
            st.counter,
            flatten(st, ops, escape, n).code,
            flatten(st, ops, escape, n).counter,
            escape,
        ),
    decreases ops, n, 0nat,
{
    if n > 0 {
        let before = flatten(st, ops, escape, (n - 1) as nat);
        let after = flatten(st, ops, escape, n);
        assert(after == flatten_op(before, ops, n - 1, escape));
        lemma_flatten_tidy(st, ops, escape, (n - 1) as nat);
        lemma_counter_bounds(st, ops, escape, (n - 1) as nat);
        if escape is Some {
            assert(!has_label(before.code, escape->0));
        }
        lemma_op_tidy(before, ops, n - 1, escape);
        assert forall|l: Label| #[trigger] pending(after.code, l) implies pending(st.code, l)
            || escape == Some(l) by {
            if !(escape == Some(l)) {
                assert(pending(before.code, l));
            }
        }
        assert forall|l: Label| #[trigger] has_label(after.code, l) implies has_label(st.code, l)
            || st.counter < l <= after.counter by {
            if !(before.counter < l <= after.counter) {
                assert(has_label(before.code, l));
            }
        }
        assert forall|l: Label, p: Producer| #[trigger]
            has_label_of(st.code, l, p) implies has_label_of(after.code, l, p) by {
            assert(has_label_of(before.code, l, p));
        }
    }
}

/// The same for one operation.
pub proof fn lemma_op_tidy<I: Intrinsic>(
    st: Flat<I>,
    ops: Seq<Op>,
    at: int,
    escape: Option<Label>,
)
    requires
        0 <= at < ops.len(),
        st.error is None,
        0 <= st.counter,
        st.counter + op_label_demand(ops, at) <= usize::MAX,
        tidy(st.code, st.counter),
        escape_open(st, escape),
        flatten_op(st, ops, at, escape).error is None,
    ensures
        tidy(flatten_op(st, ops, at, escape).code, flatten_op(st, ops, at, escape).counter),
        grows(
            st.code,
            st.counter,
            flatten_op(st, ops, at, escape).code,
            flatten_op(st, ops, at, escape).counter,
            escape,
        ),
    decreases ops, 0nat, 1nat,
{
    let op = ops[at];
    let after = flatten_op(st, ops, at, escape);
    let entered = enter(st, op);
    let within = escape_within(st, op, escape);
    match op.kind {
        OpKind::If { block } => {
            let end = first_label(st);
            let jump = entered.code.last();
            let body = flatten(entered, block@, within, block@.len());
            let end_label = after.code.last();
            assert(entered.code == st.code.push(jump));
            assert(after.code == body.code.push(end_label));
            lemma_push_frame(st.code, jump);
            lemma_tidy_push_branch(st.code, st.counter + 1, jump, end);
            lemma_flatten_tidy(entered, block@, within, block@.len());
            lemma_counter_bounds(entered, block@, within, block@.len());
            lemma_body_closed(st, entered, body, after, end_label, end, escape);
        },
        OpKind::Else { block } => {
            let end = first_label(st);
            let skip = entered.code[st.code.len() - 1];
            let body = flatten(entered, block@, within, block@.len());
            let end_label = after.code.last();
            assert(st.closes_if());
            lemma_insert_frame(st.code, skip);
            assert(entered.code == st.code.insert(st.code.len() - 1, skip));
            assert(after.code == body.code.push(end_label));
            lemma_tidy_insert_branch(st.code, st.counter + 1, skip, end);
            lemma_flatten_tidy(entered, block@, within, block@.len());
            lemma_counter_bounds(entered, block@, within, block@.len());
            lemma_body_closed(st, entered, body, after, end_label, end, escape);
        },
        OpKind::Loop { block } => {
            let start = first_label(st);
            let exit = second_label(st);
            let start_label = entered.code.last();
            let body = flatten(entered, block@, within, block@.len());
            let turned = after.code.drop_last();
            let again = turned.last();
            let exit_label = after.code.last();
            assert(entered.code == st.code.push(start_label));
            assert(turned == body.code.push(again));
            assert(after.code == turned.push(exit_label));
            lemma_push_frame(st.code, start_label);
            assert(!has_branch(st.code, start)) by {
                if has_branch(st.code, start) {
                    let i = choose|i: int| branch_at(st.code, i, start);
                    assert(branch_at(st.code, i, start));
                }
            }
            lemma_tidy_push_label(st.code, st.counter + 2, start_label, start);
            assert(!has_label(entered.code, exit));
            lemma_flatten_tidy(entered, block@, within, block@.len());
            lemma_counter_bounds(entered, block@, within, block@.len());
            assert(has_label_of(entered.code, start, Producer::Loop)) by {
                assert(label_at(entered.code, st.code.len() as int, start, Producer::Loop));
            }
            assert(has_label_of(body.code, start, Producer::Loop));
            let head = choose|j: int| label_at(body.code, j, start, Producer::Loop);
            assert(label_at(body.code, head, start, Producer::Loop));
            assert(!has_label(body.code, exit)) by {
                if has_label(body.code, exit) {
                    assert(has_label(entered.code, exit));
                }
            }
            lemma_push_frame(body.code, again);
            assert(tidy(turned, body.counter)) by {
                assert forall|i: int, j: int, t: Label, p: Producer|
                    branch_at(turned, i, t) && label_at(turned, j, t, p) implies if p
                    == Producer::Loop {
                    j < i
                } else {
                    i < j
                } by {
                    assert(label_at(body.code, j, t, p));
                    if i == body.code.len() {
                        assert(t == start);
                        assert(j == head);
                    } else {
                        assert(branch_at(body.code, i, t));
                    }
                }
            }
            lemma_push_frame(turned, exit_label);
            lemma_tidy_push_label(turned, body.counter, exit_label, exit);
            assert forall|l: Label| #[trigger] pending(after.code, l) implies pending(st.code, l)
                || escape == Some(l) by {
                assert(l != exit);
                assert(has_label(body.code, start));
                assert(l != start);
                assert(pending(turned, l));
                assert(pending(body.code, l));
                assert(pending(entered.code, l));
            }
            assert forall|l: Label| #[trigger] has_label(after.code, l) implies has_label(
                st.code,
                l,
            ) || st.counter < l <= after.counter by {
                if l != exit && !(entered.counter < l <= body.counter) {
                    assert(has_label(turned, l));
                    assert(has_label(body.code, l));
                    assert(has_label(entered.code, l));
                }
            }
            assert forall|l: Label, p: Producer| #[trigger]
                has_label_of(st.code, l, p) implies has_label_of(after.code, l, p) by {
                assert(has_label_of(entered.code, l, p));
                assert(has_label_of(body.code, l, p));
                assert(has_label_of(turned, l, p));
            }
        },
        OpKind::Break => {
            let leave = after.code.last();
            assert(after.code == st.code.push(leave));
            lemma_push_frame(st.code, leave);
            lemma_tidy_push_branch(st.code, st.counter, leave, escape->0);
        },
        kind => {
            let plain = after.code.last();
            assert(flat_kind::<I>(kind) is Some);
            assert(after.code == st.code.push(plain));
            assert(is_plain(plain));
            lemma_push_frame(st.code, plain);
            lemma_tidy_push_plain(st.code, st.counter, plain);
        },
    }
}

/// The last step of an `if` and of an `else`: the body was flattened behind
/// a branch to `end`, and the label `end` is set down behind the body.
proof fn lemma_body_closed<I>(
    st: Flat<I>,
    entered: Flat<I>,
    body: Flat<I>,
    after: Flat<I>,
    end_label: Instr<I>,
    end: Label,
    escape: Option<Label>,
)
    requires
        0 <= st.counter,
        tidy(st.code, st.counter),
        tidy(body.code, body.counter),
        grows(entered.code, entered.counter, body.code, body.counter, escape),
        entered.counter == st.counter + 1,
        end == st.counter + 1,
        after.code == body.code.push(end_label),
        after.counter == body.counter,
        labels_as(end_label, end),
        end_label.kind->producer != Producer::Loop,
        forall|l: Label| #[trigger] has_label(entered.code, l) <==> has_label(st.code, l),
        forall|l: Label, p: Producer| #[trigger]
            has_label_of(entered.code, l, p) <==> has_label_of(st.code, l, p),
        forall|l: Label| #[trigger]
            has_branch(entered.code, l) <==> has_branch(st.code, l) || l == end,
    ensures
        tidy(after.code, after.counter),
        grows(st.code, st.counter, after.code, after.counter, escape),
{
    assert(!has_label(body.code, end)) by {
        if has_label(body.code, end) {
            assert(has_label(entered.code, end));
            assert(has_label(st.code, end));
            let (j, p) = choose|j: int, p: Producer| label_at(st.code, j, end, p);
            assert(label_at(st.code, j, end, p));
        }
    }
    lemma_push_frame(body.code, end_label);
    lemma_tidy_push_label(body.code, body.counter, end_label, end);
    assert forall|l: Label| #[trigger] pending(after.code, l) implies pending(st.code, l)
        || escape == Some(l) by {
        assert(l != end);
        assert(pending(body.code, l));
        if !(escape == Some(l)) {
            assert(pending(entered.code, l));
        }
    }
    assert forall|l: Label| #[trigger] has_label(after.code, l) implies has_label(st.code, l)
        || st.counter < l <= after.counter by {
        if l != end && !(entered.counter < l <= body.counter) {
            assert(has_label(body.code, l));
            assert(has_label(entered.code, l));
        }
    }
    assert forall|l: Label, p: Producer| #[trigger]
        has_label_of(st.code, l, p) implies has_label_of(after.code, l, p) by {
        assert(has_label_of(entered.code, l, p));
        assert(has_label_of(body.code, l, p));
    }
}

/// In the bytecode of a function every branch has its label, exactly once:
/// later in the function, but for the branch that closes a loop, whose
/// label, the loop's start, stands earlier.
pub proof fn lemma_labels_resolve<I: Intrinsic>(def: FunDef)
    requires
        labels_fit(def),
        function_code::<I>(def).error is None,
    ensures
        well_labelled(function_code::<I>(def).code),
{
    let fresh = Flat::<I>::fresh();
    let body = flatten(fresh, def.body@, None, def.body@.len());
    let ret = Instr { kind: InstrKind::<I>::Return, span: def.span };
    let code = function_code::<I>(def).code;
    assert(code == body.code.push(ret));
    lemma_flatten_tidy(fresh, def.body@, None, def.body@.len());
    lemma_push_frame(body.code, ret);
    lemma_tidy_push_plain(body.code, body.counter, ret);
    assert forall|i: int, l: Label| #[trigger] branch_at(code, i, l) implies has_label(code, l) by {
        assert(has_branch(code, l));
        if !has_label(code, l) {
            assert(pending(body.code, l));
            assert(pending(fresh.code, l));
            let k = choose|k: int| branch_at(fresh.code, k, l);
            assert(branch_at(fresh.code, k, l));
        }
    }
}


/// No `loop` stands among the first `n` operations of `ops`, at any depth.
pub open spec fn loop_free(ops: Seq<Op>, n: nat) -> bool
    decreases ops, n, 0nat,
{
    if n == 0 || n > ops.len() {
        true
    } else {
        loop_free(ops, (n - 1) as nat) && op_loop_free(ops, (n - 1) as int)
    }
}

/// `ops[at]` neither is a `loop` nor holds one.
pub open spec fn op_loop_free(ops: Seq<Op>, at: int) -> bool
    recommends
        0 <= at < ops.len(),
    decreases ops, 0nat, 1nat,
    when 0 <= at < ops.len()
{
    match ops[at].kind {
        OpKind::If { block } => loop_free(block@, block@.len()),
        OpKind::Else { block } => loop_free(block@, block@.len()),
        OpKind::Loop { .. } => false,
        _ => true,
    }
}

/// Operations without a `loop` put no loop-start label into the bytecode.
pub proof fn lemma_no_loop_labels<I: Intrinsic>(
    st: Flat<I>,
    ops: Seq<Op>,
    escape: Option<Label>,
    n: nat,
)
    requires
        n <= ops.len(),
        no_loop_labels(st.code),
        loop_free(ops, n),
    ensures
        no_loop_labels(flatten(st, ops, escape, n).code),
    decreases ops, n, 0nat,
{
    if n > 0 {
        let before = flatten(st, ops, escape, (n - 1) as nat);
        lemma_no_loop_labels(st, ops, escape, (n - 1) as nat);
        if before.error is None {
            lemma_op_no_loop_labels(before, ops, n - 1, escape);
        }
    }
}

/// The same for one operation.
pub proof fn lemma_op_no_loop_labels<I: Intrinsic>(
    st: Flat<I>,
    ops: Seq<Op>,
    at: int,
    escape: Option<Label>,
)
    requires
        0 <= at < ops.len(),
        no_loop_labels(st.code),
        op_loop_free(ops, at),
    ensures
        no_loop_labels(flatten_op(st, ops, at, escape).code),
    decreases ops, 0nat, 1nat,
{
    let op = ops[at];
    let after = flatten_op(st, ops, at, escape);
    let entered = enter(st, op);
    match op.kind {
        OpKind::If { block } => {
            let body = flatten(entered, block@, escape, block@.len());
            lemma_push_frame(st.code, entered.code.last());
            assert(entered.code == st.code.push(entered.code.last()));
            lemma_no_loop_labels(entered, block@, escape, block@.len());
            lemma_push_frame(body.code, after.code.last());
            if body.error is None {
                assert(after.code == body.code.push(after.code.last()));
            }
        },
        OpKind::Else { block } => {
            if st.closes_if() {
                let skip = entered.code[st.code.len() - 1];
                let body = flatten(entered, block@, escape, block@.len());
                lemma_insert_frame(st.code, skip);
                assert(entered.code == st.code.insert(st.code.len() - 1, skip));
                assert(no_loop_labels(entered.code)) by {
                    assert forall|j: int, l: Label| !#[trigger] label_at(
                        entered.code,
                        j,
                        l,
                        Producer::Loop,
                    ) by {
                        if label_at(entered.code, j, l, Producer::Loop) {
                            assert(has_label_of(entered.code, l, Producer::Loop));
                            assert(has_label_of(st.code, l, Producer::Loop));
                            let k = choose|k: int| label_at(st.code, k, l, Producer::Loop);
                            assert(label_at(st.code, k, l, Producer::Loop));
                        }
                    }
                }
                lemma_no_loop_labels(entered, block@, escape, block@.len());
                lemma_push_frame(body.code, after.code.last());
                if body.error is None {
                    assert(after.code == body.code.push(after.code.last()));
                }
            }
        },
        OpKind::Loop { .. } => {},
        OpKind::Break => {
            if escape is Some {
                lemma_push_frame(st.code, after.code.last());
                assert(after.code == st.code.push(after.code.last()));
            }
        },
        kind => {
            if flat_kind::<I>(kind) is Some {
                lemma_push_frame(st.code, after.code.last());
                assert(after.code == st.code.push(after.code.last()));
            }
        },
    }
}

/// In the bytecode of a function without a `loop` every branch has its
/// label later in the function, exactly once.
pub proof fn lemma_branches_forward<I: Intrinsic>(def: FunDef)
    requires
        labels_fit(def),
        function_code::<I>(def).error is None,
        loop_free(def.body@, def.body@.len()),
    ensures
        resolved_forward(function_code::<I>(def).code),
{
    let fresh = Flat::<I>::fresh();
    let body = flatten(fresh, def.body@, None, def.body@.len());
    let ret = Instr { kind: InstrKind::<I>::Return, span: def.span };
    let code = function_code::<I>(def).code;
    assert(code == body.code.push(ret));
    lemma_labels_resolve::<I>(def);
    lemma_no_loop_labels(fresh, def.body@, None, def.body@.len());
    lemma_push_frame(body.code, ret);
    assert forall|i: int, l: Label| #[trigger] branch_at(code, i, l) implies exists|
        j: int,
        p: Producer,
    |
        i < j && label_at(code, j, l, p) by {
        assert(has_label(code, l));
        let (j, p) = choose|j: int, p: Producer| label_at(code, j, l, p);
        assert(label_at(code, j, l, p));
        assert(label_at(body.code, j, l, p));
        assert(p != Producer::Loop);
        assert(i < j);
    }
}

} // verus!
