use loxuriou::chunk::{Chunk, OpCode, TraceLine, Value};
use loxuriou::vm::{BinaryOp, InterpretResult, Operation, Outcome, Step, TraceRecord, VM};

fn value(number: f64) -> Value {
    Value(number.to_bits())
}

fn number(value: Value) -> f64 {
    f64::from_bits(value.0)
}

fn arithmetic(operation: Operation) -> Value {
    value(match operation {
        Operation::Negate(operand) => -number(operand),
        Operation::Binary(op, left, right) => {
            let (a, b) = (number(left), number(right));
            match op {
                BinaryOp::Add => a + b,
                BinaryOp::Subtract => a - b,
                BinaryOp::Multiply => a * b,
                BinaryOp::Divide => a / b,
            }
        }
    })
}

fn chunk_of(code: &[OpCode]) -> Chunk {
    let mut chunk = Chunk::new();
    for instruction in code {
        chunk.write(*instruction, 1);
    }
    chunk
}

fn run(code: &[OpCode]) -> Outcome {
    VM::interpret(chunk_of(code), arithmetic)
}

fn printed(code: &[OpCode]) -> Option<f64> {
    run(code).printed.map(number)
}

fn stacks(outcome: &Outcome) -> Vec<Vec<f64>> {
    outcome.trace.iter().map(|r| r.stack.iter().map(|v| number(*v)).collect()).collect()
}

#[test]
fn two_plus_three_over_eleven_negated() {
    let code = [
        OpCode::Constant(value(2.0)),
        OpCode::Constant(value(3.0)),
        OpCode::Add,
        OpCode::Constant(value(11.0)),
        OpCode::Divide,
        OpCode::Negate,
        OpCode::Return,
    ];
    let outcome = run(&code);
    assert_eq!(outcome.result, InterpretResult::Success);
    let shown = number(outcome.printed.unwrap());
    assert_eq!(shown, -((2.0 + 3.0) / 11.0));
    assert!((shown + 0.4545454545454545).abs() < 1e-15);
    assert_eq!(
        stacks(&outcome),
        vec![
            vec![],
            vec![2.0],
            vec![2.0, 3.0],
            vec![5.0],
            vec![5.0, 11.0],
            vec![5.0 / 11.0],
            vec![-(5.0 / 11.0)],
        ]
    );
    for (offset, record) in outcome.trace.iter().enumerate() {
        let line = if offset == 0 { Some(1) } else { None };
        assert_eq!(record.line, TraceLine { offset, line, instruction: code[offset] });
    }
}

#[test]
fn the_value_below_the_top_is_the_left_operand() {
    let code = |op| [OpCode::Constant(value(7.0)), OpCode::Constant(value(2.0)), op, OpCode::Return];
    assert_eq!(printed(&code(OpCode::Subtract)), Some(5.0));
    assert_eq!(printed(&code(OpCode::Divide)), Some(3.5));
    assert_eq!(printed(&code(OpCode::Add)), Some(9.0));
    assert_eq!(printed(&code(OpCode::Multiply)), Some(14.0));
}

#[test]
fn each_operation_is_handed_to_the_arithmetic() {
    let code = [
        OpCode::Constant(value(1.0)),
        OpCode::Constant(value(2.0)),
        OpCode::Multiply,
        OpCode::Negate,
        OpCode::Return,
    ];
    let outcome = VM::interpret(chunk_of(&code), |operation| match operation {
        Operation::Binary(BinaryOp::Multiply, left, right) => {
            assert_eq!((left, right), (value(1.0), value(2.0)));
            value(10.0)
        }
        Operation::Negate(operand) => {
            assert_eq!(operand, value(10.0));
            value(20.0)
        }
        other => panic!("{:?}", other),
    });
    assert_eq!(outcome.result, InterpretResult::Success);
    assert_eq!(outcome.printed, Some(value(20.0)));
}

#[test]
fn step_hands_out_the_operands() {
    let mut vm = VM::new(chunk_of(&[
        OpCode::Constant(value(1.0)),
        OpCode::Constant(value(2.0)),
        OpCode::Constant(value(3.0)),
        OpCode::Subtract,
        OpCode::Negate,
    ]));
    assert_eq!(vm.step(), Step::Pushed);
    assert_eq!(vm.step(), Step::Pushed);
    assert_eq!(vm.step(), Step::Pushed);
    assert_eq!(vm.ip(), 3);
    assert_eq!(vm.stack(), &vec![value(1.0), value(2.0), value(3.0)]);
    assert_eq!(
        vm.step(),
        Step::Apply(Operation::Binary(BinaryOp::Subtract, value(2.0), value(3.0)))
    );
    assert_eq!(vm.stack(), &vec![value(1.0)]);
    assert_eq!(vm.ip(), 4);
    vm.push(value(-1.0));
    assert_eq!(vm.step(), Step::Apply(Operation::Negate(value(-1.0))));
    assert_eq!(vm.stack(), &vec![value(1.0)]);
    vm.push(value(1.0));
    assert_eq!(vm.result(), None);
    assert_eq!(vm.step(), Step::Halt(InterpretResult::Success, None));
    assert_eq!(vm.result(), Some(InterpretResult::Success));
    assert_eq!(vm.stack(), &vec![value(1.0), value(1.0)]);
}

#[test]
fn division_by_zero_is_no_fault() {
    let code = [OpCode::Constant(value(1.0)), OpCode::Constant(value(0.0)), OpCode::Divide, OpCode::Return];
    let outcome = run(&code);
    assert_eq!(outcome.result, InterpretResult::Success);
    assert_eq!(outcome.printed.map(number), Some(f64::INFINITY));
    let code = [OpCode::Constant(value(0.0)), OpCode::Constant(value(0.0)), OpCode::Divide, OpCode::Return];
    assert!(printed(&code).unwrap().is_nan());
}

#[test]
fn return_ends_the_run_wherever_it_stands() {
    let code = [
        OpCode::Constant(value(1.0)),
        OpCode::Constant(value(2.0)),
        OpCode::Return,
        OpCode::Add,
        OpCode::Negate,
        OpCode::Negate,
    ];
    let mut vm = VM::new(chunk_of(&code));
    let outcome = vm.run(arithmetic);
    assert_eq!(outcome.result, InterpretResult::Success);
    assert_eq!(outcome.printed, Some(value(2.0)));
    assert_eq!(outcome.trace.len(), 3);
    assert_eq!(vm.stack(), &vec![value(1.0)]);
    assert_eq!(vm.result(), Some(InterpretResult::Success));
}

#[test]
fn return_on_an_empty_stack_prints_nothing() {
    let outcome = run(&[OpCode::Return]);
    assert_eq!(outcome.result, InterpretResult::Success);
    assert_eq!(outcome.printed, None);
    assert_eq!(outcome.trace.len(), 1);
}

#[test]
fn a_chunk_without_return_runs_to_its_end() {
    let mut vm = VM::new(chunk_of(&[OpCode::Constant(value(4.0)), OpCode::Negate]));
    let outcome = vm.run(arithmetic);
    assert_eq!(outcome.result, InterpretResult::Success);
    assert_eq!(outcome.printed, None);
    assert_eq!(stacks(&outcome), vec![vec![], vec![4.0]]);
    assert_eq!(vm.stack(), &vec![value(-4.0)]);
    assert_eq!(vm.ip(), 2);
}

#[test]
fn an_empty_chunk_succeeds() {
    assert_eq!(
        VM::interpret(Chunk::new(), arithmetic),
        Outcome { result: InterpretResult::Success, printed: None, trace: vec![] }
    );
}

#[test]
fn too_few_operands_are_a_runtime_error() {
    for code in [
        vec![OpCode::Negate],
        vec![OpCode::Add],
        vec![OpCode::Constant(value(1.0)), OpCode::Subtract],
        vec![OpCode::Constant(value(1.0)), OpCode::Negate, OpCode::Multiply, OpCode::Return],
        vec![OpCode::Constant(value(1.0)), OpCode::Divide, OpCode::Return],
    ] {
        let outcome = run(&code);
        assert_eq!(outcome.result, InterpretResult::RuntimeError);
        assert_eq!(outcome.printed, None);
        let failed = outcome.trace.last().unwrap().line.offset;
        assert!(matches!(
            code[failed],
            OpCode::Negate | OpCode::Add | OpCode::Subtract | OpCode::Multiply | OpCode::Divide
        ));
    }
}

#[test]
fn a_failed_step_leaves_the_stack() {
    let mut vm = VM::new(chunk_of(&[OpCode::Constant(value(1.0)), OpCode::Add, OpCode::Return]));
    assert_eq!(vm.step(), Step::Pushed);
    assert_eq!(vm.step(), Step::Halt(InterpretResult::RuntimeError, None));
    assert_eq!(vm.stack(), &vec![value(1.0)]);
    assert_eq!(vm.ip(), 1);
    assert_eq!(vm.result(), Some(InterpretResult::RuntimeError));
}

#[test]
fn a_halted_machine_stays_halted() {
    let mut vm = VM::new(chunk_of(&[OpCode::Constant(value(9.0)), OpCode::Return, OpCode::Negate]));
    assert_eq!(vm.step(), Step::Pushed);
    assert_eq!(vm.step(), Step::Halt(InterpretResult::Success, Some(value(9.0))));
    assert_eq!(vm.step(), Step::Halt(InterpretResult::Success, None));
    assert_eq!(vm.step(), Step::Halt(InterpretResult::Success, None));
    assert_eq!(vm.ip(), 1);
    assert_eq!(vm.trace(), None);
    assert_eq!(
        vm.run(arithmetic),
        Outcome { result: InterpretResult::Success, printed: None, trace: vec![] }
    );
}

#[test]
fn trace_shows_the_next_instruction() {
    let mut chunk = Chunk::new();
    chunk.write(OpCode::Constant(value(1.0)), 5);
    chunk.write(OpCode::Negate, 5);
    chunk.write(OpCode::Return, 6);
    let mut vm = VM::new(chunk);
    assert_eq!(
        vm.trace(),
        Some(TraceLine { offset: 0, line: Some(5), instruction: OpCode::Constant(value(1.0)) })
    );
    vm.step();
    assert_eq!(vm.trace(), Some(TraceLine { offset: 1, line: None, instruction: OpCode::Negate }));
    assert_eq!(vm.step(), Step::Apply(Operation::Negate(value(1.0))));
    vm.push(value(-1.0));
    assert_eq!(vm.trace(), Some(TraceLine { offset: 2, line: Some(6), instruction: OpCode::Return }));
    vm.step();
    assert_eq!(vm.trace(), None);
}

#[test]
fn run_records_stack_and_instruction() {
    let mut chunk = Chunk::new();
    chunk.write(OpCode::Constant(value(1.0)), 5);
    chunk.write(OpCode::Negate, 5);
    chunk.write(OpCode::Return, 6);
    let outcome = VM::interpret(chunk, arithmetic);
    assert_eq!(
        outcome,
        Outcome {
            result: InterpretResult::Success,
            printed: Some(value(-1.0)),
            trace: vec![
                TraceRecord {
                    stack: vec![],
                    line: TraceLine {
                        offset: 0,
                        line: Some(5),
                        instruction: OpCode::Constant(value(1.0))
                    },
                },
                TraceRecord {
                    stack: vec![value(1.0)],
                    line: TraceLine { offset: 1, line: None, instruction: OpCode::Negate },
                },
                TraceRecord {
                    stack: vec![value(-1.0)],
                    line: TraceLine { offset: 2, line: Some(6), instruction: OpCode::Return },
                },
            ],
        }
    );
}

#[test]
fn trace_at_the_end_of_the_chunk() {
    let vm = VM::new(Chunk::new());
    assert_eq!(vm.trace(), None);
    assert_eq!(vm.ip(), 0);
    assert_eq!(vm.result(), None);
    assert_eq!(vm.chunk().len(), 0);
}
