use stackgen::arch::{Bare, Hosted};
use stackgen::codegen::{
    codegen, codegen_block, label_demand_of, lower_flat, CodegenError, CodegenErrorKind, State,
};
use stackgen::diagnostic::{format_error, Diagnostic, Level};
use stackgen::instr::{Instr, InstrKind, Producer};
use stackgen::ops::{FunDef, Items, Literal, Op, OpKind, SourceFile};
use stackgen::program::Program;
use stackgen::span::{Pos, Span};

fn at(n: usize) -> Span {
    Span::new(Pos::new(n, 1, 10 * n), Pos::new(n, 5, 10 * n + 4))
}

fn op(kind: OpKind, n: usize) -> Op {
    Op::spanned(kind, at(n))
}

fn push(value: i64, n: usize) -> Op {
    op(OpKind::Push { value: Literal::Int(value) }, n)
}

fn ins(kind: InstrKind<Hosted>, n: usize) -> Instr<Hosted> {
    Instr::spanned(kind, at(n))
}

fn pushed(value: i64, n: usize) -> Instr<Hosted> {
    ins(InstrKind::Push { value: Literal::Int(value) }, n)
}

fn label(label: usize, producer: Producer, n: usize) -> Instr<Hosted> {
    ins(InstrKind::Label { label, producer }, n)
}

fn flatten(block: Vec<Op>) -> Result<Vec<Instr<Hosted>>, CodegenError> {
    let mut state = State::<Hosted>::default();
    codegen_block(&mut state, block, None)?;
    Ok(state.bytecode)
}

fn failure(kind: CodegenErrorKind, n: usize) -> CodegenError {
    CodegenError::spanned(kind, at(n))
}

fn fun(name: &str, n: usize, body: Vec<Op>) -> FunDef {
    FunDef { name: name.to_string(), span: at(n), body }
}

fn file(funs: Vec<FunDef>) -> SourceFile {
    SourceFile { items: Items { funs } }
}

/// Runs bytecode on a stack of integers. `Bne` takes the top of the stack
/// as its condition and branches where that is zero.
fn run(code: &[Instr<Hosted>]) -> Vec<i64> {
    let find = |wanted: usize| {
        code.iter()
            .position(|i| matches!(i.kind, InstrKind::Label { label, .. } if label == wanted))
            .unwrap()
    };
    let mut stack = Vec::new();
    let mut pc = 0;
    let mut steps = 0;
    while pc < code.len() {
        steps += 1;
        assert!(steps < 1000);
        match &code[pc].kind {
            InstrKind::Push { value: Literal::Int(n) } => stack.push(*n),
            InstrKind::Bne { to } => {
                if stack.pop().unwrap() == 0 {
                    pc = find(*to);
                    continue;
                }
            }
            InstrKind::Bra { to } => {
                pc = find(*to);
                continue;
            }
            InstrKind::Label { .. } => {}
            InstrKind::Return => break,
            other => panic!("not run here: {:?}", other),
        }
        pc += 1;
    }
    stack
}

fn if_else(condition: i64) -> Vec<Op> {
    vec![
        push(condition, 1),
        op(OpKind::If { block: vec![push(10, 3)] }, 2),
        op(OpKind::Else { block: vec![push(20, 5)] }, 4),
    ]
}

#[test]
fn if_else_flattens_to_two_paths() {
    let code = flatten(if_else(1)).unwrap();
    let expected = vec![
        pushed(1, 1),
        ins(InstrKind::Bne { to: 1 }, 2),
        pushed(10, 3),
        ins(InstrKind::Bra { to: 2 }, 4),
        label(1, Producer::If, 2),
        pushed(20, 5),
        label(2, Producer::Else, 4),
    ];
    assert_eq!(code, expected);
}

#[test]
fn if_else_runs_the_taken_path_only() {
    assert_eq!(run(&flatten(if_else(1)).unwrap()), vec![10]);
    assert_eq!(run(&flatten(if_else(0)).unwrap()), vec![20]);
}

#[test]
fn if_without_else_skips_its_body() {
    let block = |c| vec![push(c, 1), op(OpKind::If { block: vec![push(10, 3)] }, 2), push(7, 4)];
    let code = flatten(block(1)).unwrap();
    let expected = vec![
        pushed(1, 1),
        ins(InstrKind::Bne { to: 1 }, 2),
        pushed(10, 3),
        label(1, Producer::If, 2),
        pushed(7, 4),
    ];
    assert_eq!(code, expected);
    assert_eq!(run(&code), vec![10, 7]);
    assert_eq!(run(&flatten(block(0)).unwrap()), vec![7]);
}

#[test]
fn loop_with_break_flattens() {
    let block = vec![op(OpKind::Loop { block: vec![push(1, 2), op(OpKind::Break, 3)] }, 1)];
    let code = flatten(block).unwrap();
    let expected = vec![
        label(1, Producer::Loop, 1),
        pushed(1, 2),
        ins(InstrKind::Bra { to: 2 }, 3),
        ins(InstrKind::Bra { to: 1 }, 1),
        label(2, Producer::Break, 1),
    ];
    assert_eq!(code, expected);
}

#[test]
fn loop_with_break_runs_its_body_once() {
    let block = vec![
        op(OpKind::Loop { block: vec![push(1, 2), op(OpKind::Break, 3)] }, 1),
        push(9, 4),
    ];
    assert_eq!(run(&flatten(block).unwrap()), vec![1, 9]);
}

#[test]
fn break_leaves_the_nearest_loop() {
    let inner = op(OpKind::Loop { block: vec![op(OpKind::Break, 3)] }, 2);
    let block = vec![op(OpKind::Loop { block: vec![inner, op(OpKind::Break, 4)] }, 1)];
    let code = flatten(block).unwrap();
    let expected = vec![
        label(1, Producer::Loop, 1),
        label(3, Producer::Loop, 2),
        ins(InstrKind::Bra { to: 4 }, 3),
        ins(InstrKind::Bra { to: 3 }, 2),
        label(4, Producer::Break, 2),
        ins(InstrKind::Bra { to: 2 }, 4),
        ins(InstrKind::Bra { to: 1 }, 1),
        label(2, Producer::Break, 1),
    ];
    assert_eq!(code, expected);
}

#[test]
fn break_inside_if_inside_loop_leaves_the_loop() {
    let body = vec![push(1, 2), op(OpKind::If { block: vec![op(OpKind::Break, 4)] }, 3)];
    let code = flatten(vec![op(OpKind::Loop { block: body }, 1)]).unwrap();
    let expected = vec![
        label(1, Producer::Loop, 1),
        pushed(1, 2),
        ins(InstrKind::Bne { to: 3 }, 3),
        ins(InstrKind::Bra { to: 2 }, 4),
        label(3, Producer::If, 3),
        ins(InstrKind::Bra { to: 1 }, 1),
        label(2, Producer::Break, 1),
    ];
    assert_eq!(code, expected);
    assert_eq!(run(&code), Vec::<i64>::new());
}

#[test]
fn else_without_if_is_rejected() {
    let block = vec![push(1, 1), op(OpKind::Else { block: vec![push(2, 3)] }, 2)];
    assert_eq!(flatten(block), Err(failure(CodegenErrorKind::InvalidElse, 2)));
    let alone = vec![op(OpKind::Else { block: vec![] }, 7)];
    assert_eq!(flatten(alone), Err(failure(CodegenErrorKind::InvalidElse, 7)));
}

#[test]
fn else_is_rejected_when_something_stands_between() {
    let block = vec![
        push(1, 1),
        op(OpKind::If { block: vec![] }, 2),
        push(5, 3),
        op(OpKind::Else { block: vec![] }, 4),
    ];
    assert_eq!(flatten(block), Err(failure(CodegenErrorKind::InvalidElse, 4)));
}

#[test]
fn else_after_else_is_rejected() {
    let block = vec![
        op(OpKind::If { block: vec![] }, 1),
        op(OpKind::Else { block: vec![] }, 2),
        op(OpKind::Else { block: vec![] }, 3),
    ];
    assert_eq!(flatten(block), Err(failure(CodegenErrorKind::InvalidElse, 3)));
}

#[test]
fn else_after_loop_is_rejected() {
    let block = vec![
        op(OpKind::Loop { block: vec![op(OpKind::Break, 2)] }, 1),
        op(OpKind::Else { block: vec![] }, 3),
    ];
    assert_eq!(flatten(block), Err(failure(CodegenErrorKind::InvalidElse, 3)));
}

#[test]
fn else_is_rejected_at_any_depth() {
    let stray = op(OpKind::Else { block: vec![] }, 9);
    let in_if = vec![op(OpKind::If { block: vec![stray] }, 1)];
    assert_eq!(flatten(in_if), Err(failure(CodegenErrorKind::InvalidElse, 9)));

    let stray = op(OpKind::Else { block: vec![] }, 9);
    let in_loop = vec![op(OpKind::Loop { block: vec![stray] }, 1)];
    assert_eq!(flatten(in_loop), Err(failure(CodegenErrorKind::InvalidElse, 9)));

    let stray = op(OpKind::Else { block: vec![] }, 9);
    let deep = op(OpKind::Loop { block: vec![push(1, 4), stray] }, 3);
    let deeper = op(OpKind::If { block: vec![deep] }, 2);
    let block = vec![op(OpKind::If { block: vec![] }, 1), op(OpKind::Else { block: vec![deeper] }, 5)];
    assert_eq!(flatten(block), Err(failure(CodegenErrorKind::InvalidElse, 9)));
}

#[test]
fn else_that_opens_an_else_body_pairs_with_the_same_if() {
    let inner = op(OpKind::Else { block: vec![] }, 3);
    let block = vec![op(OpKind::If { block: vec![] }, 1), op(OpKind::Else { block: vec![inner] }, 2)];
    let expected = vec![
        ins(InstrKind::Bne { to: 1 }, 1),
        ins(InstrKind::Bra { to: 2 }, 2),
        ins(InstrKind::Bra { to: 3 }, 3),
        label(1, Producer::If, 1),
        label(3, Producer::Else, 3),
        label(2, Producer::Else, 2),
    ];
    assert_eq!(flatten(block).unwrap(), expected);
}

#[test]
fn break_outside_loop_is_rejected() {
    let block = vec![push(1, 1), op(OpKind::Break, 2)];
    assert_eq!(flatten(block), Err(failure(CodegenErrorKind::InvalidBreak, 2)));
}

#[test]
fn break_inside_if_outside_loop_is_rejected() {
    let block = vec![push(1, 1), op(OpKind::If { block: vec![op(OpKind::Break, 3)] }, 2)];
    assert_eq!(flatten(block), Err(failure(CodegenErrorKind::InvalidBreak, 3)));
}

#[test]
fn break_behind_a_loop_is_rejected() {
    let block = vec![
        op(OpKind::Loop { block: vec![op(OpKind::Break, 2)] }, 1),
        op(OpKind::Break, 3),
    ];
    assert_eq!(flatten(block), Err(failure(CodegenErrorKind::InvalidBreak, 3)));
}

#[test]
fn constructs_without_bytecode_are_rejected() {
    let kinds = vec![
        OpKind::Move,
        OpKind::Addr,
        OpKind::Type,
        OpKind::Size,
        OpKind::Dot,
        OpKind::Elif { block: vec![] },
        OpKind::For { block: vec![] },
    ];
    for (n, kind) in kinds.into_iter().enumerate() {
        let block = vec![push(1, 100), op(kind, n)];
        assert_eq!(flatten(block), Err(failure(CodegenErrorKind::Unsupported, n)));
    }
}

#[test]
fn flat_operations_keep_their_kind_and_span() {
    let pairs: Vec<(OpKind, InstrKind<Hosted>)> = vec![
        (OpKind::Push { value: Literal::Bool(true) }, InstrKind::Push { value: Literal::Bool(true) }),
        (
            OpKind::Push { value: Literal::Str("hi".to_string()) },
            InstrKind::Push { value: Literal::Str("hi".to_string()) },
        ),
        (OpKind::Copy, InstrKind::Copy),
        (OpKind::Over, InstrKind::Over),
        (OpKind::Swap, InstrKind::Swap),
        (OpKind::Rot3, InstrKind::Rot3),
        (OpKind::Rot4, InstrKind::Rot4),
        (OpKind::Drop, InstrKind::Drop),
        (OpKind::Read, InstrKind::Read),
        (OpKind::Write, InstrKind::Write),
        (OpKind::Add, InstrKind::Add),
        (OpKind::Sub, InstrKind::Sub),
        (OpKind::Mul, InstrKind::Mul),
        (OpKind::Dvm, InstrKind::Dvm),
        (OpKind::Not, InstrKind::Not),
        (OpKind::And, InstrKind::And),
        (OpKind::Or, InstrKind::Or),
        (OpKind::Xor, InstrKind::Xor),
        (OpKind::Eq, InstrKind::Eq),
        (OpKind::Gt, InstrKind::Gt),
        (OpKind::Gte, InstrKind::Gte),
        (OpKind::Lt, InstrKind::Lt),
        (OpKind::Lte, InstrKind::Lte),
    ];
    let mut block = Vec::new();
    let mut expected = Vec::new();
    for (n, (from, to)) in pairs.into_iter().enumerate() {
        block.push(op(from, n));
        expected.push(ins(to, n));
    }
    assert_eq!(flatten(block).unwrap(), expected);
}

#[test]
fn control_operations_are_not_flat() {
    assert_eq!(lower_flat::<Hosted>(OpKind::Break), None);
    assert_eq!(lower_flat::<Hosted>(OpKind::If { block: vec![] }), None);
    assert_eq!(lower_flat::<Hosted>(OpKind::Loop { block: vec![] }), None);
    assert_eq!(lower_flat::<Hosted>(OpKind::Move), None);
    assert_eq!(lower_flat::<Hosted>(OpKind::Add), Some(InstrKind::Add));
}

#[test]
fn call_becomes_an_intrinsic_where_the_target_knows_the_name() {
    let block = vec![
        op(OpKind::Call { name: "syscall".to_string() }, 1),
        op(OpKind::Call { name: "syscalls".to_string() }, 2),
        op(OpKind::Call { name: "main".to_string() }, 3),
    ];
    let expected = vec![
        ins(InstrKind::Intrinsic(Hosted::Syscall), 1),
        ins(InstrKind::Call { to: "syscalls".to_string() }, 2),
        ins(InstrKind::Call { to: "main".to_string() }, 3),
    ];
    assert_eq!(flatten(block).unwrap(), expected);
}

#[test]
fn call_stays_a_call_on_a_target_without_intrinsics() {
    let mut state = State::<Bare>::default();
    let block = vec![op(OpKind::Call { name: "syscall".to_string() }, 1)];
    assert_eq!(codegen_block(&mut state, block, None), Ok(()));
    let expected =
        vec![Instr::<Bare>::spanned(InstrKind::Call { to: "syscall".to_string() }, at(1))];
    assert_eq!(state.bytecode, expected);
}

#[test]
fn first_failure_is_the_one_reported() {
    let block = vec![
        push(1, 1),
        op(OpKind::Break, 2),
        op(OpKind::Else { block: vec![] }, 3),
        op(OpKind::Move, 4),
    ];
    assert_eq!(flatten(block), Err(failure(CodegenErrorKind::InvalidBreak, 2)));
    let nested = op(OpKind::If { block: vec![op(OpKind::Move, 2), op(OpKind::Break, 3)] }, 1);
    let block = vec![nested, op(OpKind::Break, 4)];
    assert_eq!(flatten(block), Err(failure(CodegenErrorKind::Unsupported, 2)));
}

#[test]
fn failure_leaves_the_state_where_it_was_found() {
    let mut state = State::<Hosted>::default();
    let body = vec![push(2, 3), op(OpKind::Break, 4), push(3, 5)];
    let block = vec![push(1, 1), op(OpKind::If { block: body }, 2), push(4, 6)];
    let result = codegen_block(&mut state, block, None);
    assert_eq!(result, Err(failure(CodegenErrorKind::InvalidBreak, 4)));
    assert_eq!(state.bytecode, vec![pushed(1, 1), ins(InstrKind::Bne { to: 1 }, 2), pushed(2, 3)]);
    assert_eq!(state.counter, 1);
}

#[test]
fn flattening_goes_on_from_the_state_it_is_given() {
    let mut state = State::<Hosted>::default();
    assert_eq!(state.next_label(), 1);
    assert_eq!(state.next_label(), 2);
    state.bytecode.push(pushed(0, 9));
    let block = vec![op(OpKind::If { block: vec![op(OpKind::Break, 2)] }, 1)];
    assert_eq!(codegen_block(&mut state, block, Some(2)), Ok(()));
    let expected = vec![
        pushed(0, 9),
        ins(InstrKind::Bne { to: 3 }, 1),
        ins(InstrKind::Bra { to: 2 }, 2),
        label(3, Producer::If, 1),
    ];
    assert_eq!(state.bytecode, expected);
    assert_eq!(state.counter, 3);
}

#[test]
fn else_pairs_with_an_if_label_that_was_there_before() {
    let mut state = State::<Hosted>::default();
    let end = state.next_label();
    state.bytecode.push(ins(InstrKind::Bne { to: end }, 1));
    state.bytecode.push(label(end, Producer::If, 1));
    let block = vec![op(OpKind::Else { block: vec![push(5, 3)] }, 2)];
    assert_eq!(codegen_block(&mut state, block, None), Ok(()));
    let expected = vec![
        ins(InstrKind::Bne { to: 1 }, 1),
        ins(InstrKind::Bra { to: 2 }, 2),
        label(1, Producer::If, 1),
        pushed(5, 3),
        label(2, Producer::Else, 2),
    ];
    assert_eq!(state.bytecode, expected);
}

#[test]
fn next_label_counts_from_one() {
    let mut state = State::<Hosted>::default();
    assert_eq!(state.counter, 0);
    assert!(state.bytecode.is_empty());
    assert_eq!(state.next_label(), 1);
    assert_eq!(state.next_label(), 2);
    assert_eq!(state.next_label(), 3);
    assert_eq!(state.counter, 3);
    assert!(state.bytecode.is_empty());
}

#[test]
fn every_branch_has_its_label_exactly_once() {
    let inner_loop = op(
        OpKind::Loop {
            block: vec![
                push(1, 11),
                op(OpKind::If { block: vec![op(OpKind::Break, 13)] }, 12),
                op(OpKind::Else { block: vec![push(2, 15)] }, 14),
            ],
        },
        10,
    );
    let block = vec![
        push(1, 1),
        op(OpKind::If { block: vec![inner_loop, op(OpKind::Loop { block: vec![op(OpKind::Break, 21)] }, 20)] }, 2),
        op(OpKind::Else { block: vec![push(3, 31), op(OpKind::If { block: vec![] }, 32)] }, 30),
    ];
    let source = file(vec![fun("main", 0, block)]);
    let mut program = Program::<Hosted>::default();
    assert_eq!(codegen(&mut program, source), Ok(()));
    let code = program.get(&"main".to_string()).unwrap();
    let mut branches = 0;
    for (i, instr) in code.iter().enumerate() {
        let target = match instr.kind {
            InstrKind::Bne { to } | InstrKind::Bra { to } => to,
            _ => continue,
        };
        branches += 1;
        let found: Vec<(usize, Producer)> = code
            .iter()
            .enumerate()
            .filter_map(|(j, other)| match other.kind {
                InstrKind::Label { label, producer } if label == target => Some((j, producer)),
                _ => None,
            })
            .collect();
        assert_eq!(found.len(), 1);
        let (j, producer) = found[0];
        if producer == Producer::Loop {
            assert!(j < i);
        } else {
            assert!(i < j);
        }
    }
    assert_eq!(branches, 9);
    let mut labels: Vec<usize> = code
        .iter()
        .filter_map(|i| match i.kind {
            InstrKind::Label { label, .. } => Some(label),
            _ => None,
        })
        .collect();
    labels.sort();
    assert_eq!(labels, vec![1, 2, 3, 4, 5, 6, 7, 8, 9]);
}

#[test]
fn branches_of_a_function_without_loops_go_forward() {
    let block = vec![
        push(1, 1),
        op(OpKind::If { block: vec![push(1, 3), op(OpKind::If { block: vec![] }, 4)] }, 2),
        op(OpKind::Else { block: vec![op(OpKind::If { block: vec![] }, 6)] }, 5),
    ];
    let code = flatten(block).unwrap();
    for (i, instr) in code.iter().enumerate() {
        if let InstrKind::Bne { to } | InstrKind::Bra { to } = instr.kind {
            let later = code[i + 1..]
                .iter()
                .filter(|o| matches!(o.kind, InstrKind::Label { label, .. } if label == to))
                .count();
            assert_eq!(later, 1);
        }
    }
}

#[test]
fn label_demand_counts_every_construct() {
    assert_eq!(label_demand_of(&vec![]), Some(0));
    assert_eq!(label_demand_of(&vec![push(1, 1), op(OpKind::Break, 2)]), Some(0));
    let block = vec![
        op(OpKind::If { block: vec![op(OpKind::Loop { block: vec![] }, 2)] }, 1),
        op(OpKind::Else { block: vec![] }, 3),
        op(OpKind::For { block: vec![op(OpKind::If { block: vec![] }, 5)] }, 4),
    ];
    assert_eq!(label_demand_of(&block), Some(4));
}

#[test]
fn codegen_compiles_each_function_from_a_fresh_state() {
    let first = fun("first", 100, vec![push(1, 1), op(OpKind::If { block: vec![] }, 2)]);
    let second = fun("second", 200, vec![op(OpKind::Loop { block: vec![op(OpKind::Break, 4)] }, 3)]);
    let mut program = Program::<Hosted>::default();
    assert_eq!(codegen(&mut program, file(vec![first, second])), Ok(()));
    let expected_first = vec![
        pushed(1, 1),
        ins(InstrKind::Bne { to: 1 }, 2),
        label(1, Producer::If, 2),
        ins(InstrKind::Return, 100),
    ];
    let expected_second = vec![
        label(1, Producer::Loop, 3),
        ins(InstrKind::Bra { to: 2 }, 4),
        ins(InstrKind::Bra { to: 1 }, 3),
        label(2, Producer::Break, 3),
        ins(InstrKind::Return, 200),
    ];
    assert_eq!(program.get(&"first".to_string()), Some(&expected_first));
    assert_eq!(program.get(&"second".to_string()), Some(&expected_second));
    assert_eq!(program.get(&"third".to_string()), None);
}

#[test]
fn codegen_of_an_empty_function_is_a_return() {
    let mut program = Program::<Hosted>::default();
    assert_eq!(codegen(&mut program, file(vec![fun("nothing", 5, vec![])])), Ok(()));
    assert_eq!(program.get(&"nothing".to_string()), Some(&vec![ins(InstrKind::Return, 5)]));
    assert_eq!(codegen(&mut program, file(vec![])), Ok(()));
    assert_eq!(program.get(&"nothing".to_string()), Some(&vec![ins(InstrKind::Return, 5)]));
}

#[test]
fn codegen_stops_at_the_first_function_that_fails() {
    let good = fun("good", 100, vec![push(1, 1)]);
    let bad = fun("bad", 200, vec![push(2, 2), op(OpKind::Break, 3)]);
    let late = fun("late", 300, vec![op(OpKind::Else { block: vec![] }, 4)]);
    let mut program = Program::<Hosted>::default();
    let result = codegen(&mut program, file(vec![good, bad, late]));
    assert_eq!(result, Err(failure(CodegenErrorKind::InvalidBreak, 3)));
    assert_eq!(program.get(&"good".to_string()), None);
    assert_eq!(program.get(&"bad".to_string()), None);
    assert_eq!(program.get(&"late".to_string()), None);
}

#[test]
fn a_file_that_fails_leaves_the_program_as_it_was() {
    let mut program = Program::<Hosted>::default();
    let earlier = file(vec![fun("kept", 1, vec![push(1, 2)]), fun("other", 3, vec![])]);
    assert_eq!(codegen(&mut program, earlier), Ok(()));
    let failing = file(vec![
        fun("kept", 10, vec![push(9, 11)]),
        fun("new", 12, vec![]),
        fun("bad", 13, vec![op(OpKind::Else { block: vec![] }, 14)]),
    ]);
    let result = codegen(&mut program, failing);
    assert_eq!(result, Err(failure(CodegenErrorKind::InvalidElse, 14)));
    assert_eq!(program.get(&"kept".to_string()), Some(&vec![pushed(1, 2), ins(InstrKind::Return, 1)]));
    assert_eq!(program.get(&"other".to_string()), Some(&vec![ins(InstrKind::Return, 3)]));
    assert_eq!(program.get(&"new".to_string()), None);
    assert_eq!(program.get(&"bad".to_string()), None);
}

#[test]
fn a_file_that_fails_in_its_only_function_gives_nothing() {
    let mut program = Program::<Hosted>::default();
    let source = file(vec![fun("empty", 1, vec![]), fun("stray", 2, vec![op(OpKind::Break, 3)])]);
    assert_eq!(codegen(&mut program, source), Err(failure(CodegenErrorKind::InvalidBreak, 3)));
    assert_eq!(program.get(&"empty".to_string()), None);
    assert_eq!(program.get(&"stray".to_string()), None);
}

#[test]
fn a_later_definition_replaces_an_earlier_one() {
    let old = fun("f", 1, vec![push(1, 2)]);
    let other = fun("g", 3, vec![]);
    let new = fun("f", 4, vec![push(2, 5)]);
    let mut program = Program::<Hosted>::default();
    assert_eq!(codegen(&mut program, file(vec![old, other, new])), Ok(()));
    assert_eq!(program.get(&"f".to_string()), Some(&vec![pushed(2, 5), ins(InstrKind::Return, 4)]));
    assert_eq!(program.get(&"g".to_string()), Some(&vec![ins(InstrKind::Return, 3)]));
}

#[test]
fn program_keeps_what_is_inserted() {
    let mut program = Program::<Hosted>::default();
    assert_eq!(program.get(&"a".to_string()), None);
    program.insert("a".to_string(), vec![pushed(1, 1)]);
    program.insert("b".to_string(), vec![]);
    assert_eq!(program.get(&"a".to_string()), Some(&vec![pushed(1, 1)]));
    assert_eq!(program.get(&"b".to_string()), Some(&vec![]));
    program.insert("a".to_string(), vec![pushed(2, 2)]);
    assert_eq!(program.get(&"a".to_string()), Some(&vec![pushed(2, 2)]));
    assert_eq!(program.get(&"b".to_string()), Some(&vec![]));
    assert_eq!(program.get(&"".to_string()), None);
}

#[test]
fn instructions_carry_their_span() {
    let with = Instr::<Hosted>::spanned(InstrKind::Add, at(3));
    assert_eq!(with.kind, InstrKind::Add);
    assert_eq!(with.span, at(3));
    let without = Instr::<Hosted>::unspanned(InstrKind::Return);
    assert_eq!(without.kind, InstrKind::Return);
    assert_eq!(without.span, Span::default());
    assert_eq!(Span::default(), Span::new(Pos::new(0, 0, 0), Pos::new(0, 0, 0)));
    assert_eq!(at(3).to_pos(), Pos::new(3, 1, 30));
}

#[test]
fn errors_carry_kind_and_span() {
    let error = CodegenError::spanned(CodegenErrorKind::InvalidSignature, at(8));
    assert_eq!(error.kind, CodegenErrorKind::InvalidSignature);
    assert_eq!(error.span, at(8));
}

#[test]
fn format_error_says_what_failed_and_where() {
    let cases = vec![
        (CodegenErrorKind::InvalidElse, "`else` block withput `if` block"),
        (CodegenErrorKind::InvalidBreak, "`break` outside loop"),
        (CodegenErrorKind::InvalidSignature, "invalid type in fn signature"),
        (CodegenErrorKind::Unsupported, "unsupported construct"),
    ];
    for (n, (kind, message)) in cases.into_iter().enumerate() {
        let diag = format_error(CodegenError::spanned(kind, at(n)));
        let expected = Diagnostic {
            level: Level::Error,
            message: message.to_string(),
            pos: Some(Pos::new(n, 1, 10 * n)),
        };
        assert_eq!(diag, expected);
    }
}

#[test]
fn diagnostic_is_anchored_by_pos() {
    let diag = Diagnostic::error("oops");
    assert_eq!(diag.level, Level::Error);
    assert_eq!(diag.message, "oops");
    assert_eq!(diag.pos, None);
    let diag = diag.pos(Pos::new(1, 2, 3));
    assert_eq!(diag.message, "oops");
    assert_eq!(diag.pos, Some(Pos::new(1, 2, 3)));
}
