use vstd::prelude::*;
use crate::instr::{Instr, InstrKind, Intrinsic, Label, Producer};
use crate::ops::{FunDef, IdentStr, Op, OpKind, SourceFile};
use crate::program::{Bytecode, Program};
use crate::span::Span;

verus! {

/// Why a function could not be flattened.
#[derive(Clone, Copy, Debug, PartialEq, Eq, Structural)]
pub enum CodegenErrorKind {
    InvalidElse,
    InvalidBreak,
    InvalidSignature,
    Unsupported,
}

/// A failure of code generation and the place in the source that caused it.
#[derive(Clone, Copy, Debug, PartialEq, Eq, Structural)]
pub struct CodegenError {
    pub kind: CodegenErrorKind,
    pub span: Span,
}

impl CodegenError {
    pub fn spanned(kind: CodegenErrorKind, span: Span) -> (error: Self)
        ensures
            error == (CodegenError { kind, span }),
    {
        Self { kind, span }
    }
}

/// The outcome of flattening, as a mathematical value: the instructions
/// emitted so far, the last label handed out, and the failure that stopped
/// the work, if one did.
pub ghost struct Flat<I> {
    pub code: Seq<Instr<I>>,
    pub counter: int,
    pub error: Option<CodegenError>,
}

impl<I> Flat<I> {
    /// Nothing emitted, no label handed out.
    pub open spec fn fresh() -> Self {
        Flat { code: Seq::empty(), counter: 0, error: None }
    }

    pub open spec fn emit(self, kind: InstrKind<I>, span: Span) -> Self {
        Flat { code: self.code.push(Instr { kind, span }), ..self }
    }

    pub open spec fn fail(self, kind: CodegenErrorKind, span: Span) -> Self {
        Flat { error: Some(CodegenError { kind, span }), ..self }
    }

    pub open spec fn allot(self, labels: int) -> Self {
        Flat { counter: self.counter + labels, ..self }
    }

    /// The instruction emitted last is the end label of an `if`.
    pub open spec fn closes_if(self) -> bool {
        self.code.len() > 0 && (self.code.last().kind matches InstrKind::Label { producer, .. }
            && producer == Producer::If)
    }
}

/// The instruction that a flat operation turns into, or `None` for the
/// operations that are not flat.
pub open spec fn flat_kind<I: Intrinsic>(kind: OpKind) -> Option<InstrKind<I>> {
    match kind {
        OpKind::Push { value } => Some(InstrKind::Push { value }),
        OpKind::Call { name } => Some(
            match I::recognize(name@) {
                Some(intrinsic) => InstrKind::Intrinsic(intrinsic),
                None => InstrKind::Call { to: name },
            },
        ),
        OpKind::Copy => Some(InstrKind::Copy),
        OpKind::Over => Some(InstrKind::Over),
        OpKind::Swap => Some(InstrKind::Swap),
        OpKind::Rot3 => Some(InstrKind::Rot3),
        OpKind::Rot4 => Some(InstrKind::Rot4),
        OpKind::Drop => Some(InstrKind::Drop),
        OpKind::Read => Some(InstrKind::Read),
        OpKind::Write => Some(InstrKind::Write),
        OpKind::Add => Some(InstrKind::Add),
        OpKind::Sub => Some(InstrKind::Sub),
        OpKind::Mul => Some(InstrKind::Mul),
        OpKind::Dvm => Some(InstrKind::Dvm),
        OpKind::Not => Some(InstrKind::Not),
        OpKind::And => Some(InstrKind::And),
        OpKind::Or => Some(InstrKind::Or),
        OpKind::Xor => Some(InstrKind::Xor),
        OpKind::Eq => Some(InstrKind::Eq),
        OpKind::Gt => Some(InstrKind::Gt),
        OpKind::Gte => Some(InstrKind::Gte),
        OpKind::Lt => Some(InstrKind::Lt),
        OpKind::Lte => Some(InstrKind::Lte),
        _ => None,
    }
}

/// The state after the first `n` operations of `ops` have been flattened,
/// starting from `st`, inside a loop whose escape label is `escape` (or
/// inside none). The first failure stops the work: what follows it is not
/// looked at.
pub open spec fn flatten<I: Intrinsic>(
    st: Flat<I>,
    ops: Seq<Op>,
    escape: Option<Label>,
    n: nat,
) -> Flat<I>
    decreases ops, n, 0nat,
{
    if n == 0 || n > ops.len() {
        st
    } else {
        let before = flatten(st, ops, escape, (n - 1) as nat);
        if before.error is Some {
            before
        } else {
            flatten_op(before, ops, (n - 1) as int, escape)
        }
    }
}

/// The label that a control operation met in state `st` gets first: the
/// end of an `if` or an `else`, the start of a `loop`.
pub open spec fn first_label<I>(st: Flat<I>) -> Label {
    (st.counter + 1) as usize
}

/// The label that a `loop` met in state `st` gets second: its exit.
pub open spec fn second_label<I>(st: Flat<I>) -> Label {
    (st.counter + 2) as usize
}

/// The state in which the body of the control operation `op` starts, when
/// the operation is met in state `st`. An `if` branches to its end where
/// the condition is false. An `else` puts a branch to its own end before
/// the end label of the `if` it follows, so that the body of the `if` skips
/// the body of the `else`. A `loop` sets down its start.
pub open spec fn enter<I>(st: Flat<I>, op: Op) -> Flat<I> {
    match op.kind {
        OpKind::If { .. } => st.allot(1).emit(InstrKind::Bne { to: first_label(st) }, op.span),
        OpKind::Else { .. } => Flat {
            code: st.code.insert(
                st.code.len() - 1,
                Instr { kind: InstrKind::Bra { to: first_label(st) }, span: op.span },
            ),
            ..st.allot(1)
        },
        OpKind::Loop { .. } => st.allot(2).emit(
            InstrKind::Label { label: first_label(st), producer: Producer::Loop },
            op.span,
        ),
        _ => st,
    }
}

/// The label that a `break` in the body of `op` jumps to: the exit of `op`
/// where `op` is a `loop`, else what it is around `op`.
pub open spec fn escape_within<I>(st: Flat<I>, op: Op, escape: Option<Label>) -> Option<Label> {
    if op.kind is Loop {
        Some(second_label(st))
    } else {
        escape
    }
}

/// The state after the control operation `op`, met in state `st`, whose
/// body was left in state `body`. A body that failed is handed on as it
/// is. Else an `if` and an `else` set down their end; a `loop` branches
/// back to its start and sets down its exit.
pub open spec fn close<I>(st: Flat<I>, op: Op, body: Flat<I>) -> Flat<I> {
    if body.error is Some {
        body
    } else {
        match op.kind {
            OpKind::If { .. } => body.emit(
                InstrKind::Label { label: first_label(st), producer: Producer::If },
                op.span,
            ),
            OpKind::Else { .. } => body.emit(
                InstrKind::Label { label: first_label(st), producer: Producer::Else },
                op.span,
            ),
            OpKind::Loop { .. } => body.emit(InstrKind::Bra { to: first_label(st) }, op.span).emit(
                InstrKind::Label { label: second_label(st), producer: Producer::Break },
                op.span,
            ),
            _ => body,
        }
    }
}

/// One step of `flatten`: the operation `ops[at]` applied to a state
/// without failure.
pub open spec fn flatten_op<I: Intrinsic>(
    st: Flat<I>,
    ops: Seq<Op>,
    at: int,
    escape: Option<Label>,
) -> Flat<I>
    recommends
        0 <= at < ops.len(),
    decreases ops, 0nat, 1nat,
    when 0 <= at < ops.len()
{
    let op = ops[at];
    let within = escape_within(st, op, escape);
    match op.kind {
        OpKind::If { block } => close(
            st,
            op,
            flatten(enter(st, op), block@, within, block@.len()),
        ),
        OpKind::Else { block } => {
            if st.closes_if() {
                close(st, op, flatten(enter(st, op), block@, within, block@.len()))
            } else {
                st.fail(CodegenErrorKind::InvalidElse, op.span)
            }
        },
        OpKind::Loop { block } => close(
            st,
            op,
            flatten(enter(st, op), block@, within, block@.len()),
        ),
        OpKind::Break => match escape {
            Some(exit) => st.emit(InstrKind::Bra { to: exit }, op.span),
            None => st.fail(CodegenErrorKind::InvalidBreak, op.span),
        },
        kind => match flat_kind::<I>(kind) {
            Some(instr) => st.emit(instr, op.span),
            None => st.fail(CodegenErrorKind::Unsupported, op.span),
        },
    }
}

/// An upper bound on the labels that the first `n` operations of `ops` ask
/// for: one for each `if` and `else`, two for each `loop`, at any depth.
pub open spec fn label_demand(ops: Seq<Op>, n: nat) -> nat
    decreases ops, n, 0nat,
{
    if n == 0 || n > ops.len() {
        0
    } else {
        label_demand(ops, (n - 1) as nat) + op_label_demand(ops, (n - 1) as int)
    }
}

/// The labels that `ops[at]` asks for, its body included.
pub open spec fn op_label_demand(ops: Seq<Op>, at: int) -> nat
    recommends
        0 <= at < ops.len(),
    decreases ops, 0nat, 1nat,
    when 0 <= at < ops.len()
{
    match ops[at].kind {
        OpKind::If { block } => 1 + label_demand(block@, block@.len()),
        OpKind::Else { block } => 1 + label_demand(block@, block@.len()),
        OpKind::Loop { block } => 2 + label_demand(block@, block@.len()),
        _ => 0,
    }
}

/// Once a prefix has failed, looking at more operations changes nothing.
pub proof fn lemma_flatten_stops<I: Intrinsic>(
    st: Flat<I>,
    ops: Seq<Op>,
    escape: Option<Label>,
    n: nat,
    m: nat,
)
    requires
        n <= m <= ops.len(),
        flatten(st, ops, escape, n).error is Some,
    ensures
        flatten(st, ops, escape, m) == flatten(st, ops, escape, n),
    decreases m,
{
    if n < m {
        lemma_flatten_stops(st, ops, escape, n, (m - 1) as nat);
    }
}

/// Flattening never takes a label back, and hands out no more labels than
/// `label_demand` says.
pub proof fn lemma_counter_bounds<I: Intrinsic>(
    st: Flat<I>,
    ops: Seq<Op>,
    escape: Option<Label>,
    n: nat,
)
    requires
        n <= ops.len(),
    ensures
        st.counter <= flatten(st, ops, escape, n).counter <= st.counter + label_demand(ops, n),
    decreases ops, n, 0nat,
{
    if n > 0 {
        let before = flatten(st, ops, escape, (n - 1) as nat);
        lemma_counter_bounds(st, ops, escape, (n - 1) as nat);
        if before.error is None {
            lemma_op_counter_bounds(before, ops, n - 1, escape);
        }
    }
}

/// The same for one operation.
pub proof fn lemma_op_counter_bounds<I: Intrinsic>(
    st: Flat<I>,
    ops: Seq<Op>,
    at: int,
    escape: Option<Label>,
)
    requires
        0 <= at < ops.len(),
    ensures
        st.counter <= flatten_op(st, ops, at, escape).counter <= st.counter + op_label_demand(
            ops,
            at,
        ),
    decreases ops, 0nat, 1nat,
{
    let op = ops[at];
    let within = escape_within(st, op, escape);
    match op.kind {
        OpKind::If { block } => {
            lemma_counter_bounds(enter(st, op), block@, within, block@.len());
        },
        OpKind::Else { block } => {
            if st.closes_if() {
                lemma_counter_bounds(enter(st, op), block@, within, block@.len());
            }
        },
        OpKind::Loop { block } => {
            lemma_counter_bounds(enter(st, op), block@, within, block@.len());
        },
        _ => {},
    }
}

/// A longer prefix never asks for fewer labels.
pub proof fn lemma_demand_grows(ops: Seq<Op>, n: nat, m: nat)
    requires
        n <= m <= ops.len(),
    ensures
        label_demand(ops, n) <= label_demand(ops, m),
    decreases m,
{
    if n < m {
        lemma_demand_grows(ops, n, (m - 1) as nat);
    }
}

/// The labels that `block` asks for, or `None` where there are more than
/// can be numbered.
pub fn label_demand_of(block: &Vec<Op>) -> (demand: Option<usize>)
    ensures
        match demand {
            Some(labels) => labels == label_demand(block@, block@.len()),
            None => label_demand(block@, block@.len()) > usize::MAX,
        },
    decreases block,
{
    let mut total: usize = 0;
    let mut i: usize = 0;
    while i < block.len()
        invariant
            i <= block@.len(),
            total == label_demand(block@, i as nat),
        decreases block@.len() - i,
    {
        proof {
            lemma_demand_grows(block@, (i + 1) as nat, block@.len());
        }
        let (own, inner): (usize, Option<usize>) = match &block[i].kind {
            OpKind::If { block: body } => (1, label_demand_of(body)),
            OpKind::Else { block: body } => (1, label_demand_of(body)),
            OpKind::Loop { block: body } => (2, label_demand_of(body)),
            _ => (0, Some(0)),
        };
        assert(label_demand(block@, (i + 1) as nat) == label_demand(block@, i as nat)
            + op_label_demand(block@, i as int));
        let inner = match inner {
            Some(labels) => labels,
            None => {
                return None;
            },
        };
        assert(op_label_demand(block@, i as int) == own + inner);
        if inner > usize::MAX - own || total > usize::MAX - own - inner {
            return None;
        }
        total = total + own + inner;
        i += 1;
    }
    Some(total)
}

/// The generator's working state for one function: the bytecode emitted so
/// far and the label handed out last.
pub struct State<I> {
    pub bytecode: Vec<Instr<I>>,
    pub counter: usize,
}

impl<I> View for State<I> {
    type V = Flat<I>;

    open spec fn view(&self) -> Flat<I> {
        Flat { code: self.bytecode@, counter: self.counter as int, error: None }
    }
}

impl<I> Default for State<I> {
    fn default() -> (state: Self)
        ensures
            state@ == Flat::<I>::fresh(),
    {
        Self { bytecode: Vec::new(), counter: 0 }
    }
}

impl<I> State<I> {
    /// Hands out the next label of this function. Labels start at 1 and are
    /// never handed out twice.
    pub fn next_label(&mut self) -> (label: usize)
        requires
            old(self).counter < usize::MAX,
        ensures
            label == old(self).counter + 1,
            final(self).counter == label,
            final(self).bytecode == old(self).bytecode,
    {
        self.counter += 1;
        self.counter
    }
}

/// The instruction for a flat operation; `None` for the control operations
/// and for those that have no bytecode yet.
pub fn lower_flat<I: Intrinsic>(kind: OpKind) -> (lowered: Option<InstrKind<I>>)
    ensures
        lowered == flat_kind::<I>(kind),
{
    match kind {
        OpKind::Push { value } => Some(InstrKind::Push { value }),
        OpKind::Call { name } => {
            let intrinsic = I::generate(&name);
            match intrinsic {
                Some(val) => Some(InstrKind::Intrinsic(val)),
                None => Some(InstrKind::Call { to: name }),
            }
        },
        OpKind::Copy => Some(InstrKind::Copy),
        OpKind::Over => Some(InstrKind::Over),
        OpKind::Swap => Some(InstrKind::Swap),
        OpKind::Rot3 => Some(InstrKind::Rot3),
        OpKind::Rot4 => Some(InstrKind::Rot4),
        OpKind::Drop => Some(InstrKind::Drop),
        OpKind::Read => Some(InstrKind::Read),
        OpKind::Write => Some(InstrKind::Write),
        OpKind::Add => Some(InstrKind::Add),
        OpKind::Sub => Some(InstrKind::Sub),
        OpKind::Mul => Some(InstrKind::Mul),
        OpKind::Dvm => Some(InstrKind::Dvm),
        OpKind::Not => Some(InstrKind::Not),
        OpKind::And => Some(InstrKind::And),
        OpKind::Or => Some(InstrKind::Or),
        OpKind::Xor => Some(InstrKind::Xor),
        OpKind::Eq => Some(InstrKind::Eq),
        OpKind::Gt => Some(InstrKind::Gt),
        OpKind::Gte => Some(InstrKind::Gte),
        OpKind::Lt => Some(InstrKind::Lt),
        OpKind::Lte => Some(InstrKind::Lte),
        _ => None,
    }
}

/// Flattens `block` onto the end of `state`. `loop_escape` is the label
/// that a `break` in this block jumps to, if the block stands in a loop.
/// On failure the state is left as it was when the failure was found.
pub fn codegen_block<I: Intrinsic>(
    state: &mut State<I>,
    block: Vec<Op>,
    loop_escape: Option<Label>,
) -> (result: Result<(), CodegenError>)
    requires
        old(state).counter + label_demand(block@, block@.len()) <= usize::MAX,
    ensures
        ({
            let out = flatten(old(state)@, block@, loop_escape, block@.len());
            &&& final(state).bytecode@ == out.code
            &&& final(state).counter == out.counter
            &&& match out.error {
                Some(error) => result == Err::<(), CodegenError>(error),
                None => result is Ok,
            }
        }),
    decreases block,
{
    let ghost init = state@;
    let ghost ops = block@;
    let ghost mut done: nat = 0;
    for op in it: block
        invariant
            it.seq() == ops,
            done == it.index(),
            done <= ops.len(),
            flatten(init, ops, loop_escape, done) == state@,
            init.counter + label_demand(ops, ops.len()) <= usize::MAX,
            ops == block@,
            init == old(state)@,
    {
        let ghost at = done as int;
        let ghost before = state@;
        assert(op == ops[at]);
        proof {
            done = done + 1;
            lemma_counter_bounds(init, ops, loop_escape, at as nat);
            lemma_demand_grows(ops, done, ops.len());
            assert(label_demand(ops, done) == label_demand(ops, at as nat) + op_label_demand(
                ops,
                at,
            ));
            assert(flatten(init, ops, loop_escape, done) == flatten_op(
                before,
                ops,
                at,
                loop_escape,
            ));
        }
        let span = op.span;
        match op.kind {
            OpKind::If { block: if_block } => {
                let end = state.next_label();
                state.bytecode.push(Instr::spanned(InstrKind::Bne { to: end }, span));
                match codegen_block(state, if_block, loop_escape) {
                    Err(error) => {
                        proof {
                            lemma_flatten_stops(init, ops, loop_escape, done, ops.len());
                        }
                        return Err(error);
                    },
                    Ok(()) => {},
                }
                state.bytecode.push(
                    Instr::spanned(InstrKind::Label { label: end, producer: Producer::If }, span),
                );
            },
            OpKind::Else { block: else_block } => {
                let len = state.bytecode.len();
                let paired = len > 0 && match &state.bytecode[len - 1].kind {
                    InstrKind::Label { producer: Producer::If, .. } => true,
                    _ => false,
                };
                if !paired {
                    proof {
                        lemma_flatten_stops(init, ops, loop_escape, done, ops.len());
                    }
                    return Err(CodegenError::spanned(CodegenErrorKind::InvalidElse, span));
                }
                let end = state.next_label();
                state.bytecode.insert(len - 1, Instr::spanned(InstrKind::Bra { to: end }, span));
                match codegen_block(state, else_block, loop_escape) {
                    Err(error) => {
                        proof {
                            lemma_flatten_stops(init, ops, loop_escape, done, ops.len());
                        }
                        return Err(error);
                    },
                    Ok(()) => {},
                }
                state.bytecode.push(
                    Instr::spanned(InstrKind::Label { label: end, producer: Producer::Else }, span),
                );
            },
            OpKind::Loop { block: loop_block } => {
                let start = state.next_label();
                let escape = state.next_label();
                state.bytecode.push(
                    Instr::spanned(InstrKind::Label { label: start, producer: Producer::Loop }, span),
                );
                match codegen_block(state, loop_block, Some(escape)) {
                    Err(error) => {
                        proof {
                            lemma_flatten_stops(init, ops, loop_escape, done, ops.len());
                        }
                        return Err(error);
                    },
                    Ok(()) => {},
                }
                state.bytecode.push(Instr::spanned(InstrKind::Bra { to: start }, span));
                state.bytecode.push(
                    Instr::spanned(InstrKind::Label { label: escape, producer: Producer::Break }, span),
                );
            },
            OpKind::Break => {
                let escape = match loop_escape {
                    Some(val) => val,
                    None => {
                        proof {
                            lemma_flatten_stops(init, ops, loop_escape, done, ops.len());
                        }
                        return Err(CodegenError::spanned(CodegenErrorKind::InvalidBreak, span));
                    },
                };
                state.bytecode.push(Instr::spanned(InstrKind::Bra { to: escape }, span));
            },
            kind => {
                match lower_flat::<I>(kind) {
                    Some(instr) => state.bytecode.push(Instr::spanned(instr, span)),
                    None => {
                        proof {
                            lemma_flatten_stops(init, ops, loop_escape, done, ops.len());
                        }
                        return Err(CodegenError::spanned(CodegenErrorKind::Unsupported, span));
                    },
                }
            },
        }
        assert(state@ == flatten_op(before, ops, at, loop_escape));
    }
    Ok(())
}


/// The outcome of compiling function definitions, as a mathematical value:
/// the program built so far and the failure that stopped the work, if one
/// did.
pub ghost struct Compiled<I> {
    pub funs: Map<Seq<char>, Seq<Instr<I>>>,
    pub error: Option<CodegenError>,
}

/// The bytecode of one function: its body flattened from a fresh state,
/// with a `Return` at the end that carries the function's span.
pub open spec fn function_code<I: Intrinsic>(def: FunDef) -> Flat<I> {
    let body = flatten(Flat::<I>::fresh(), def.body@, None, def.body@.len());
    if body.error is Some {
        body
    } else {
        body.emit(InstrKind::Return, def.span)
    }
}

/// The labels of a function's body can all be numbered.
pub open spec fn labels_fit(def: FunDef) -> bool {
    label_demand(def.body@, def.body@.len()) <= usize::MAX
}

/// The program after the first `n` definitions of `defs` have been
/// compiled into `funs`, in their order. A later definition replaces an
/// earlier one of the same name. The first failure stops the work, and
/// then nothing of the work is kept: the program is `funs` as it was.
pub open spec fn compile<I: Intrinsic>(
    funs: Map<Seq<char>, Seq<Instr<I>>>,
    defs: Seq<FunDef>,
    n: nat,
) -> Compiled<I>
    decreases n,
{
    if n == 0 || n > defs.len() {
        Compiled { funs, error: None }
    } else {
        let before = compile::<I>(funs, defs, (n - 1) as nat);
        if before.error is Some {
            before
        } else {
            let def = defs[n - 1];
            let code = function_code::<I>(def);
            match code.error {
                Some(error) => Compiled { funs, error: Some(error) },
                None => Compiled { funs: before.funs.insert(def.name@, code.code), error: None },
            }
        }
    }
}

/// Once a definition has failed, the ones after it are not looked at.
pub proof fn lemma_compile_stops<I: Intrinsic>(
    funs: Map<Seq<char>, Seq<Instr<I>>>,
    defs: Seq<FunDef>,
    n: nat,
    m: nat,
)
    requires
        n <= m <= defs.len(),
        compile::<I>(funs, defs, n).error is Some,
    ensures
        compile::<I>(funs, defs, m) == compile::<I>(funs, defs, n),
    decreases m,
{
    if n < m {
        lemma_compile_stops::<I>(funs, defs, n, (m - 1) as nat);
    }
}

/// A file that fails leaves the program as it was.
pub proof fn lemma_failure_keeps_program<I: Intrinsic>(
    funs: Map<Seq<char>, Seq<Instr<I>>>,
    defs: Seq<FunDef>,
    n: nat,
)
    requires
        compile::<I>(funs, defs, n).error is Some,
    ensures
        compile::<I>(funs, defs, n).funs == funs,
    decreases n,
{
    if 0 < n <= defs.len() {
        let before = compile::<I>(funs, defs, (n - 1) as nat);
        if before.error is Some {
            lemma_failure_keeps_program::<I>(funs, defs, (n - 1) as nat);
        }
    }
}

/// Compiles every function of `source_file`, in source order, each from a
/// fresh state, and puts them into `program` once the last one has been
/// compiled. The first failure ends the work and is handed back; `program`
/// is then as it was.
pub fn codegen<I: Intrinsic>(program: &mut Program<I>, source_file: SourceFile) -> (result: Result<
    (),
    CodegenError,
>)
    requires
        old(program).wf(),
        forall|i: int|
            0 <= i < source_file.items.funs@.len() ==> labels_fit(
                #[trigger] source_file.items.funs@[i],
            ),
    ensures
        final(program).wf(),
        ({
            let defs = source_file.items.funs@;
            let out = compile::<I>(old(program)@, defs, defs.len());
            match out.error {
                Some(error) => result == Err::<(), CodegenError>(error) && final(program)@ == old(
                    program,
                )@,
                None => result is Ok && final(program)@ == out.funs,
            }
        }),
{
    let ghost init = program@;
    let ghost defs = source_file.items.funs@;
    let ghost mut done: nat = 0;
    let mut compiled: Vec<(IdentStr, Bytecode<I>)> = Vec::new();
    for fun in it: source_file.items.funs
        invariant
            it.seq() == defs,
            done == it.index(),
            done <= defs.len(),
            compiled@.len() == done,
            compile::<I>(init, defs, done).error is None,
            forall|i: int|
                0 <= i < done ==> (#[trigger] compiled@[i]).0@ == defs[i].name@ && compiled@[i].1@
                    == function_code::<I>(defs[i]).code && function_code::<I>(defs[i]).error is None,
            forall|i: int| 0 <= i < defs.len() ==> labels_fit(#[trigger] defs[i]),
            defs == source_file.items.funs@,
            init == old(program)@,
            *program == *old(program),
            program.wf(),
    {
        assert(fun == defs[done as int]);
        assert(labels_fit(defs[done as int]));
        proof {
            done = done + 1;
        }
        let mut state = State::<I>::default();
        match codegen_block(&mut state, fun.body, None) {
            Err(error) => {
                proof {
                    lemma_compile_stops::<I>(init, defs, done, defs.len());
                }
                return Err(error);
            },
            Ok(()) => {},
        }
        state.bytecode.push(Instr::spanned(InstrKind::Return, fun.span));
        compiled.push((fun.name, state.bytecode));
    }
    let ghost pairs = compiled@;
    let ghost mut placed: nat = 0;
    for pair in it: compiled
        invariant
            it.seq() == pairs,
            placed == it.index(),
            placed <= pairs.len(),
            pairs.len() == defs.len(),
            program.wf(),
            compile::<I>(init, defs, placed) == (Compiled { funs: program@, error: None }),
            compile::<I>(init, defs, defs.len()).error is None,
            forall|i: int|
                0 <= i < pairs.len() ==> (#[trigger] pairs[i]).0@ == defs[i].name@ && pairs[i].1@
                    == function_code::<I>(defs[i]).code && function_code::<I>(defs[i]).error is None,
    {
        assert(pair == pairs[placed as int]);
        proof {
            placed = placed + 1;
        }
        program.insert(pair.0, pair.1);
    }
    Ok(())
}

} // verus!
