use vstd::prelude::*;
use crate::instr::{Instr, InstrKind, Label, Producer};

verus! {

/// `instr` is the label `l`.
pub open spec fn labels_as<I>(instr: Instr<I>, l: Label) -> bool {
    instr.kind is Label && instr.kind->label == l
}

/// `instr` is the label `l`, put there by `p`.
pub open spec fn is_label<I>(instr: Instr<I>, l: Label, p: Producer) -> bool {
    labels_as(instr, l) && instr.kind->producer == p
}

/// `instr` branches to `l`, conditionally or not.
pub open spec fn is_branch<I>(instr: Instr<I>, l: Label) -> bool {
    ||| (instr.kind matches InstrKind::Bne { to } && to == l)
    ||| (instr.kind matches InstrKind::Bra { to } && to == l)
}

/// `instr` neither is a label nor branches.
pub open spec fn is_plain<I>(instr: Instr<I>) -> bool {
    !(instr.kind is Label) && !(instr.kind is Bne) && !(instr.kind is Bra)
}

/// The instruction at `j` is the label `l`, put there by `p`.
pub open spec fn label_at<I>(code: Seq<Instr<I>>, j: int, l: Label, p: Producer) -> bool {
    0 <= j < code.len() && is_label(code[j], l, p)
}

/// The instruction at `i` branches to `l`.
pub open spec fn branch_at<I>(code: Seq<Instr<I>>, i: int, l: Label) -> bool {
    0 <= i < code.len() && is_branch(code[i], l)
}

pub open spec fn has_label<I>(code: Seq<Instr<I>>, l: Label) -> bool {
    exists|j: int, p: Producer| label_at(code, j, l, p)
}

pub open spec fn has_label_of<I>(code: Seq<Instr<I>>, l: Label, p: Producer) -> bool {
    exists|j: int| label_at(code, j, l, p)
}

pub open spec fn has_branch<I>(code: Seq<Instr<I>>, l: Label) -> bool {
    exists|i: int| branch_at(code, i, l)
}

/// Some instruction branches to `l`, and the label `l` is not there yet.
pub open spec fn pending<I>(code: Seq<Instr<I>>, l: Label) -> bool {
    has_branch(code, l) && !has_label(code, l)
}

/// No label stands in `code` twice.
pub open spec fn labels_distinct<I>(code: Seq<Instr<I>>) -> bool {
    forall|j: int, k: int, l: Label, p: Producer, q: Producer|
        #![trigger label_at(code, j, l, p), label_at(code, k, l, q)]
        label_at(code, j, l, p) && label_at(code, k, l, q) ==> j == k
}

/// A branch stands before its label, but for the branch that closes a loop:
/// that one stands behind the label of the loop's start.
pub open spec fn branches_ordered<I>(code: Seq<Instr<I>>) -> bool {
    forall|i: int, j: int, l: Label, p: Producer|
        #![trigger branch_at(code, i, l), label_at(code, j, l, p)]
        branch_at(code, i, l) && label_at(code, j, l, p) ==> if p == Producer::Loop {
            j < i
        } else {
            i < j
        }
}

/// What holds of the bytecode at every moment of a function's flattening:
/// labels and branch targets were handed out by the counter, no label
/// stands twice, and branches and labels are in order.
pub open spec fn tidy<I>(code: Seq<Instr<I>>, counter: int) -> bool {
    &&& forall|j: int, l: Label, p: Producer| #[trigger] label_at(code, j, l, p) ==> 1 <= l <= counter
    &&& forall|i: int, l: Label| #[trigger] branch_at(code, i, l) ==> 1 <= l <= counter
    &&& labels_distinct(code)
    &&& branches_ordered(code)
}

/// How the bytecode `after` relates to the bytecode `before` that it grew
/// from, inside a loop with exit `escape` (or inside none): no branch is
/// left open that was not open before, but for those to `escape`; the new
/// labels are the ones handed out in between; the old labels are all kept.
pub open spec fn grows<I>(
    before: Seq<Instr<I>>,
    from: int,
    after: Seq<Instr<I>>,
    to: int,
    escape: Option<Label>,
) -> bool {
    &&& from <= to
    &&& forall|l: Label| #[trigger] pending(after, l) ==> pending(before, l) || escape == Some(l)
    &&& forall|l: Label| #[trigger] has_label(after, l) ==> has_label(before, l) || from < l <= to
    &&& forall|l: Label, p: Producer| #[trigger]
        has_label_of(before, l, p) ==> has_label_of(after, l, p)
}

/// Every branch of `code` has its label in `code`, exactly once, and at the
/// side that `branches_ordered` says.
pub open spec fn well_labelled<I>(code: Seq<Instr<I>>) -> bool {
    &&& forall|i: int, l: Label| #[trigger] branch_at(code, i, l) ==> has_label(code, l)
    &&& labels_distinct(code)
    &&& branches_ordered(code)
}

/// Every branch of `code` has its label later in `code`, exactly once.
pub open spec fn resolved_forward<I>(code: Seq<Instr<I>>) -> bool {
    &&& forall|i: int, l: Label| #[trigger]
        branch_at(code, i, l) ==> exists|j: int, p: Producer| i < j && label_at(code, j, l, p)
    &&& labels_distinct(code)
}

/// No label of `code` is the start of a loop.
pub open spec fn no_loop_labels<I>(code: Seq<Instr<I>>) -> bool {
    forall|j: int, l: Label| !#[trigger] label_at(code, j, l, Producer::Loop)
}

/// What one more instruction at the end changes.
pub proof fn lemma_push_frame<I>(code: Seq<Instr<I>>, x: Instr<I>)
    ensures
        forall|j: int, l: Label, p: Producer|
            #![trigger label_at(code.push(x), j, l, p)]
            #![trigger label_at(code, j, l, p)]
            label_at(code.push(x), j, l, p) <==> label_at(code, j, l, p) || (j == code.len()
                && is_label(x, l, p)),
        forall|i: int, l: Label|
            #![trigger branch_at(code.push(x), i, l)]
            #![trigger branch_at(code, i, l)]
            branch_at(code.push(x), i, l) <==> branch_at(code, i, l) || (i == code.len()
                && is_branch(x, l)),
        forall|l: Label|
            #![trigger has_label(code.push(x), l)]
            #![trigger has_label(code, l)]
            has_label(code.push(x), l) <==> has_label(code, l) || labels_as(x, l),
        forall|l: Label, p: Producer|
            #![trigger has_label_of(code.push(x), l, p)]
            #![trigger has_label_of(code, l, p)]
            has_label_of(code.push(x), l, p) <==> has_label_of(code, l, p) || is_label(x, l, p),
        forall|l: Label|
            #![trigger has_branch(code.push(x), l)]
            #![trigger has_branch(code, l)]
            has_branch(code.push(x), l) <==> has_branch(code, l) || is_branch(x, l),
{
    let more = code.push(x);
    let last = code.len() as int;
    assert forall|l: Label| has_label(more, l) <==> has_label(code, l) || labels_as(x, l) by {
        if has_label(code, l) {
            let (j, p) = choose|j: int, p: Producer| label_at(code, j, l, p);
            assert(label_at(more, j, l, p));
        }
        if labels_as(x, l) {
            assert(label_at(more, last, l, x.kind->producer));
        }
        if has_label(more, l) {
            let (j, p) = choose|j: int, p: Producer| label_at(more, j, l, p);
            if j < last {
                assert(label_at(code, j, l, p));
            }
        }
    }
    assert forall|l: Label, p: Producer|
        has_label_of(more, l, p) <==> has_label_of(code, l, p) || is_label(x, l, p) by {
        if has_label_of(code, l, p) {
            let j = choose|j: int| label_at(code, j, l, p);
            assert(label_at(more, j, l, p));
        }
        if is_label(x, l, p) {
            assert(label_at(more, last, l, p));
        }
        if has_label_of(more, l, p) {
            let j = choose|j: int| label_at(more, j, l, p);
            if j < last {
                assert(label_at(code, j, l, p));
            }
        }
    }
    assert forall|l: Label| has_branch(more, l) <==> has_branch(code, l) || is_branch(x, l) by {
        if has_branch(code, l) {
            let i = choose|i: int| branch_at(code, i, l);
            assert(branch_at(more, i, l));
        }
        if is_branch(x, l) {
            assert(branch_at(more, last, l));
        }
        if has_branch(more, l) {
            let i = choose|i: int| branch_at(more, i, l);
            if i < last {
                assert(branch_at(code, i, l));
            }
        }
    }
}

/// What one more instruction before the last one changes.
pub proof fn lemma_insert_frame<I>(code: Seq<Instr<I>>, x: Instr<I>)
    requires
        code.len() > 0,
    ensures
        ({
            let last = code.len() - 1;
            let more = code.insert(last, x);
            &&& more.len() == code.len() + 1
            &&& forall|j: int| 0 <= j < last ==> #[trigger] more[j] == code[j]
            &&& more[last] == x
            &&& more[last + 1] == code[last]
            &&& forall|l: Label|
                #![trigger has_label(more, l)]
                #![trigger has_label(code, l)]
                has_label(more, l) <==> has_label(code, l) || labels_as(x, l)
            &&& forall|l: Label, p: Producer|
                #![trigger has_label_of(more, l, p)]
                #![trigger has_label_of(code, l, p)]
                has_label_of(more, l, p) <==> has_label_of(code, l, p) || is_label(x, l, p)
            &&& forall|l: Label|
                #![trigger has_branch(more, l)]
                #![trigger has_branch(code, l)]
                has_branch(more, l) <==> has_branch(code, l) || is_branch(x, l)
        }),
{
    let last = code.len() - 1;
    let more = code.insert(last, x);
    assert forall|l: Label| has_label(more, l) <==> has_label(code, l) || labels_as(x, l) by {
        if has_label(code, l) {
            let (j, p) = choose|j: int, p: Producer| label_at(code, j, l, p);
            if j < last {
                assert(label_at(more, j, l, p));
            } else {
                assert(label_at(more, j + 1, l, p));
            }
        }
        if labels_as(x, l) {
            assert(label_at(more, last, l, x.kind->producer));
        }
        if has_label(more, l) {
            let (j, p) = choose|j: int, p: Producer| label_at(more, j, l, p);
            if j < last {
                assert(label_at(code, j, l, p));
            } else if j > last {
                assert(label_at(code, j - 1, l, p));
            }
        }
    }
    assert forall|l: Label, p: Producer|
        has_label_of(more, l, p) <==> has_label_of(code, l, p) || is_label(x, l, p) by {
        if has_label_of(code, l, p) {
            let j = choose|j: int| label_at(code, j, l, p);
            if j < last {
                assert(label_at(more, j, l, p));
            } else {
                assert(label_at(more, j + 1, l, p));
            }
        }
        if is_label(x, l, p) {
            assert(label_at(more, last, l, p));
        }
        if has_label_of(more, l, p) {
            let j = choose|j: int| label_at(more, j, l, p);
            if j < last {
                assert(label_at(code, j, l, p));
            } else if j > last {
                assert(label_at(code, j - 1, l, p));
            }
        }
    }
    assert forall|l: Label| has_branch(more, l) <==> has_branch(code, l) || is_branch(x, l) by {
        if has_branch(code, l) {
            let i = choose|i: int| branch_at(code, i, l);
            if i < last {
                assert(branch_at(more, i, l));
            } else {
                assert(branch_at(more, i + 1, l));
            }
        }
        if is_branch(x, l) {
            assert(branch_at(more, last, l));
        }
        if has_branch(more, l) {
            let i = choose|i: int| branch_at(more, i, l);
            if i < last {
                assert(branch_at(code, i, l));
            } else if i > last {
                assert(branch_at(code, i - 1, l));
            }
        }
    }
}

/// An instruction that neither is a label nor branches keeps the bytecode
/// tidy.
pub proof fn lemma_tidy_push_plain<I>(code: Seq<Instr<I>>, counter: int, x: Instr<I>)
    requires
        tidy(code, counter),
        is_plain(x),
    ensures
        tidy(code.push(x), counter),
{
    lemma_push_frame(code, x);
}

/// A branch to a label that was handed out and is not there yet keeps the
/// bytecode tidy.
pub proof fn lemma_tidy_push_branch<I>(code: Seq<Instr<I>>, counter: int, x: Instr<I>, l: Label)
    requires
        tidy(code, counter),
        is_branch(x, l),
        1 <= l <= counter,
        !has_label(code, l),
    ensures
        tidy(code.push(x), counter),
{
    lemma_push_frame(code, x);
    let more = code.push(x);
    assert forall|i: int, j: int, t: Label, p: Producer|
        branch_at(more, i, t) && label_at(more, j, t, p) implies if p == Producer::Loop {
        j < i
    } else {
        i < j
    } by {
        assert(label_at(code, j, t, p));
        if i == code.len() {
            assert(t == l);
            assert(has_label(code, l));
        } else {
            assert(branch_at(code, i, t));
        }
    }
}

/// A label that was handed out and is not there yet keeps the bytecode
/// tidy, if it is the start of a loop that nothing branches to so far, or
/// the end of something else.
pub proof fn lemma_tidy_push_label<I>(code: Seq<Instr<I>>, counter: int, x: Instr<I>, l: Label)
    requires
        tidy(code, counter),
        labels_as(x, l),
        1 <= l <= counter,
        !has_label(code, l),
        x.kind->producer == Producer::Loop ==> !has_branch(code, l),
    ensures
        tidy(code.push(x), counter),
{
    lemma_push_frame(code, x);
    let more = code.push(x);
    assert forall|j: int, k: int, t: Label, p: Producer, q: Producer|
        label_at(more, j, t, p) && label_at(more, k, t, q) implies j == k by {
        if j == code.len() && k != code.len() {
            assert(label_at(code, k, t, q));
            assert(has_label(code, l));
        }
        if k == code.len() && j != code.len() {
            assert(label_at(code, j, t, p));
            assert(has_label(code, l));
        }
        if k != code.len() && j != code.len() {
            assert(label_at(code, j, t, p));
            assert(label_at(code, k, t, q));
        }
    }
    assert forall|i: int, j: int, t: Label, p: Producer|
        branch_at(more, i, t) && label_at(more, j, t, p) implies if p == Producer::Loop {
        j < i
    } else {
        i < j
    } by {
        assert(branch_at(code, i, t));
        if j == code.len() {
            assert(t == l);
            assert(has_branch(code, l));
        } else {
            assert(label_at(code, j, t, p));
        }
    }
}

/// A branch to a label that was handed out and is not there yet, put before
/// the last instruction, keeps the bytecode tidy.
pub proof fn lemma_tidy_insert_branch<I>(code: Seq<Instr<I>>, counter: int, x: Instr<I>, l: Label)
    requires
        tidy(code, counter),
        code.len() > 0,
        is_branch(x, l),
        1 <= l <= counter,
        !has_label(code, l),
    ensures
        tidy(code.insert(code.len() - 1, x), counter),
{
    lemma_insert_frame(code, x);
    let last = code.len() - 1;
    let more = code.insert(last, x);
    let back = |j: int| if j < last { j } else { j - 1 };
    assert forall|j: int, t: Label, p: Producer| label_at(more, j, t, p) implies label_at(
        code,
        back(j),
        t,
        p,
    ) && j != last by {
        if j < last {
            assert(more[j] == code[j]);
        }
    }
    assert forall|i: int, t: Label| branch_at(more, i, t) && i != last implies branch_at(
        code,
        back(i),
        t,
    ) by {
        if i < last {
            assert(more[i] == code[i]);
        }
    }
    assert forall|j: int, t: Label, p: Producer| label_at(more, j, t, p) implies 1 <= t
        <= counter by {
        assert(label_at(code, back(j), t, p));
    }
    assert forall|i: int, t: Label| branch_at(more, i, t) implies 1 <= t <= counter by {
        if i != last {
            assert(branch_at(code, back(i), t));
        }
    }
    assert forall|j: int, k: int, t: Label, p: Producer, q: Producer|
        label_at(more, j, t, p) && label_at(more, k, t, q) implies j == k by {
        assert(label_at(code, back(j), t, p));
        assert(label_at(code, back(k), t, q));
    }
    assert forall|i: int, j: int, t: Label, p: Producer|
        branch_at(more, i, t) && label_at(more, j, t, p) implies if p == Producer::Loop {
        j < i
    } else {
        i < j
    } by {
        assert(label_at(code, back(j), t, p));
        if i == last {
            assert(t == l);
            assert(has_label(code, l));
        } else {
            assert(branch_at(code, back(i), t));
        }
    }
}

} // verus!
