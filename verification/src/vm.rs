//! The stack machine: it runs a chunk against an operand stack. The
//! arithmetic on values is the caller's: the machine hands out the
//! operation that an instruction asks for, with the operands that it
//! popped, and pushes the answer.

use crate::chunk::{Chunk, ChunkView, OpCode, TraceLine, Value};
use vstd::prelude::*;

verus! {

/// How a run ended.
#[derive(Debug, Clone, Copy, PartialEq, Eq, Structural)]
pub enum InterpretResult {
    /// The run came to its end.
    Success,
    CompileError,
    RuntimeError,
}

/// The arithmetic instructions with two operands.
#[derive(Debug, Clone, Copy, PartialEq, Eq, Structural)]
pub enum BinaryOp {
    Add,
    Subtract,
    Multiply,
    Divide,
}

/// An operation that the machine leaves to the arithmetic of its caller,
/// with the operands that the instruction popped.
#[derive(Debug, Clone, Copy, PartialEq, Eq, Structural)]
pub enum Operation {
    /// The negation of the operand.
    Negate(Value),
    /// The operation on a left and a right operand. The right operand is
    /// the one that was on top of the stack, the left one the one below it.
    Binary(BinaryOp, Value, Value),
}

/// What one step of the machine leaves to its caller.
#[derive(Debug, Clone, Copy, PartialEq, Eq, Structural)]
pub enum Step {
    /// A constant was pushed; nothing is left to do.
    Pushed,
    /// An instruction popped its operands: the answer to the operation is
    /// to be pushed.
    Apply(Operation),
    /// The machine has halted with this result. After `Return` the value
    /// that it popped is to be printed, if the stack held one.
    Halt(InterpretResult, Option<Value>),
}

/// The state of a machine.
pub struct VmState {
    /// The chunk that is run.
    pub chunk: ChunkView,
    /// The offset of the next instruction.
    pub ip: int,
    /// The operand stack, its top last.
    pub stack: Seq<Value>,
    /// The result, once the machine has halted.
    pub result: Option<InterpretResult>,
}

impl VmState {
    /// The machine that is about to run `chunk`: an empty stack, and the
    /// first instruction next.
    pub open spec fn initial(chunk: ChunkView) -> VmState {
        VmState { chunk, ip: 0, stack: Seq::empty(), result: None }
    }

    /// The state is well formed: the chunk is, and the next instruction lies
    /// in the chunk or at its end.
    pub open spec fn wf(self) -> bool {
        self.chunk.wf() && 0 <= self.ip <= self.chunk.code.len()
    }

    /// Whether the machine is still running.
    pub open spec fn running(self) -> bool {
        self.result is None
    }

    /// Whether the next step runs an instruction.
    pub open spec fn at_instruction(self) -> bool {
        self.running() && self.ip < self.chunk.code.len()
    }

    /// The machine halted with `result`.
    pub open spec fn halted(self, result: InterpretResult) -> VmState {
        VmState { result: Some(result), ..self }
    }

    /// The machine after the instruction at `ip`, with `stack` for its stack.
    pub open spec fn proceed(self, stack: Seq<Value>) -> VmState {
        VmState { ip: self.ip + 1, stack, ..self }
    }

    /// The machine with `value` pushed.
    pub open spec fn push(self, value: Value) -> VmState {
        VmState { stack: self.stack.push(value), ..self }
    }

    /// The machine halted for want of operands.
    pub open spec fn underflow(self) -> (VmState, Step) {
        (
            self.halted(InterpretResult::RuntimeError),
            Step::Halt(InterpretResult::RuntimeError, None),
        )
    }

    /// A step of an arithmetic instruction with two operands: both are
    /// popped, the top of the stack as the right one and the value below it
    /// as the left one. With fewer than two values on the stack the machine
    /// halts with `RuntimeError`.
    pub open spec fn binary(self, op: BinaryOp) -> (VmState, Step) {
        let depth = self.stack.len() as int;
        if depth >= 2 {
            (
                self.proceed(self.stack.take(depth - 2)),
                Step::Apply(Operation::Binary(op, self.stack[depth - 2], self.stack[depth - 1])),
            )
        } else {
            self.underflow()
        }
    }

    /// One step: the state after it and what it leaves to the caller.
    ///
    /// A halted machine stays as it is. At the end of the chunk the machine
    /// halts with `Success`. `Constant` pushes its operand. `Negate` pops
    /// one value and the arithmetic instructions pop two, which are handed
    /// out; where the stack holds too few, the machine halts with
    /// `RuntimeError` and the stack stays. `Return` pops a value if there is
    /// one, hands it out, and halts with `Success`.
    pub open spec fn step(self) -> (VmState, Step) {
        let depth = self.stack.len() as int;
        if let Some(result) = self.result {
            (self, Step::Halt(result, None))
        } else if self.ip >= self.chunk.code.len() {
            (self.halted(InterpretResult::Success), Step::Halt(InterpretResult::Success, None))
        } else {
            match self.chunk.code[self.ip] {
                OpCode::Return => {
                    if depth >= 1 {
                        (
                            VmState { stack: self.stack.drop_last(), ..self }.halted(
                                InterpretResult::Success,
                            ),
                            Step::Halt(InterpretResult::Success, Some(self.stack.last())),
                        )
                    } else {
                        (
                            self.halted(InterpretResult::Success),
                            Step::Halt(InterpretResult::Success, None),
                        )
                    }
                },
                OpCode::Constant(value) => (self.proceed(self.stack.push(value)), Step::Pushed),
                OpCode::Negate => {
                    if depth >= 1 {
                        (
                            self.proceed(self.stack.drop_last()),
                            Step::Apply(Operation::Negate(self.stack.last())),
                        )
                    } else {
                        self.underflow()
                    }
                },
                OpCode::Add => self.binary(BinaryOp::Add),
                OpCode::Subtract => self.binary(BinaryOp::Subtract),
                OpCode::Multiply => self.binary(BinaryOp::Multiply),
                OpCode::Divide => self.binary(BinaryOp::Divide),
            }
        }
    }
}

/// In a run with the arithmetic `arithmetic`, the state `after` follows the
/// state `before`: it is the state after one step, with an answer of the
/// arithmetic pushed where the step hands out an operation.
pub open spec fn follows<F: Fn(Operation) -> Value>(
    arithmetic: F,
    before: VmState,
    after: VmState,
) -> bool {
    match before.step().1 {
        Step::Apply(operation) => {
            &&& after.stack.len() > 0
            &&& after == before.step().0.push(after.stack.last())
            &&& call_ensures(arithmetic, (operation,), after.stack.last())
        },
        _ => after == before.step().0,
    }
}

/// `states` are the states of a run with the arithmetic `arithmetic`: each
/// follows the one before it, the last one has halted, and those before it
/// are running.
pub open spec fn is_run<F: Fn(Operation) -> Value>(arithmetic: F, states: Seq<VmState>) -> bool {
    &&& states.len() >= 1
    &&& !states.last().running()
    &&& forall|i: int|
        0 <= i < states.len() - 1 ==> (#[trigger] states[i]).running() && follows(
            arithmetic,
            states[i],
            states[i + 1],
        )
}

/// One record of the trace of a run: the stack before an instruction, and
/// the line of the listing for the instruction.
#[derive(Debug, PartialEq, Eq)]
pub struct TraceRecord {
    pub stack: Vec<Value>,
    pub line: TraceLine,
}

/// What a run leaves: its result, the value that `Return` popped for
/// printing, and the trace, one record for each instruction that was run.
#[derive(Debug, PartialEq, Eq)]
pub struct Outcome {
    pub result: InterpretResult,
    pub printed: Option<Value>,
    pub trace: Vec<TraceRecord>,
}

/// `record` is the record of the trace for the instruction that the next
/// step of `state` runs.
pub open spec fn records(record: TraceRecord, state: VmState) -> bool {
    record.stack@ == state.stack && record.line == state.chunk.trace_line(state.ip)
}

/// `outcome` is what the run through `states` leaves. Its result is that of
/// the last state. What is printed is what the last step handed out. The
/// trace has a record for each state whose step ran an instruction: all but
/// the last state, and but the one before it where the run ended at the end
/// of the chunk.
pub open spec fn leaves(states: Seq<VmState>, outcome: Outcome) -> bool {
    let steps = states.len() - 1;
    &&& states.last().result == Some(outcome.result)
    &&& if steps >= 1 {
        states[steps - 1].step().1 == Step::Halt(outcome.result, outcome.printed)
    } else {
        outcome.printed is None
    }
    &&& outcome.trace@.len() == if steps >= 1 && !states[steps - 1].at_instruction() {
        steps - 1
    } else {
        steps
    }
    &&& forall|i: int|
        0 <= i < outcome.trace@.len() ==> records(#[trigger] outcome.trace@[i], states[i])
}

/// A step keeps a machine well formed. It either halts the machine, with
/// the result that it hands out, or moves on to the next instruction: so a
/// machine halts after at most one step more than there are instructions
/// ahead of it.
pub proof fn lemma_step(state: VmState)
    requires
        state.wf(),
    ensures
        state.step().0.wf(),
        state.step().0.chunk == state.chunk,
        match state.step().1 {
            Step::Halt(result, _) => state.step().0.result == Some(result) && state.step().0.ip
                == state.ip,
            _ => state.at_instruction() && state.step().0.running() && state.step().0.ip
                == state.ip + 1,
        },
        state.running() && state.ip == state.chunk.code.len() ==> state.step().1 == Step::Halt(
            InterpretResult::Success,
            None,
        ),
{
}

/// A virtual machine that runs one chunk.
pub struct VM {
    chunk: Chunk,
    ip: usize,
    stack: Vec<Value>,
    result: Option<InterpretResult>,
}

impl View for VM {
    type V = VmState;

    closed spec fn view(&self) -> VmState {
        VmState { chunk: self.chunk@, ip: self.ip as int, stack: self.stack@, result: self.result }
    }
}

/// A copy of `stack`.
fn copy_of(stack: &Vec<Value>) -> (copy: Vec<Value>)
    ensures
        copy@ == stack@,
{
    let mut copy: Vec<Value> = Vec::new();
    let mut i: usize = 0;
    while i < stack.len()
        invariant
            i <= stack.len(),
            copy@ == stack@.take(i as int),
        decreases stack.len() - i,
    {
        copy.push(stack[i]);
        i = i + 1;
        assert(copy@ =~= stack@.take(i as int));
    }
    assert(copy@ =~= stack@);
    copy
}

impl VM {
    /// The machine is well formed.
    pub open spec fn wf(&self) -> bool {
        self@.wf()
    }

    /// A machine that is about to run `chunk`, which it owns from now on.
    pub fn new(chunk: Chunk) -> (vm: VM)
        requires
            chunk.wf(),
        ensures
            vm.wf(),
            vm@ == VmState::initial(chunk@),
    {
        VM { chunk, ip: 0, stack: Vec::new(), result: None }
    }

    /// Runs `chunk` to its end, with `arithmetic` for the operations on
    /// values; see [`VM::run`].
    pub fn interpret<F: Fn(Operation) -> Value>(chunk: Chunk, arithmetic: F) -> (outcome: Outcome)
        requires
            chunk.wf(),
            forall|operation: Operation| call_requires(arithmetic, (operation,)),
        ensures
            exists|states: Seq<VmState>|
                #[trigger] is_run(arithmetic, states) && states[0] == VmState::initial(chunk@)
                    && leaves(states, outcome),
    {
        let mut vm = VM::new(chunk);
        vm.run(arithmetic)
    }

    /// The chunk that the machine runs.
    pub fn chunk(&self) -> (chunk: &Chunk)
        ensures
            chunk@ == self@.chunk,
    {
        &self.chunk
    }

    /// The offset of the next instruction.
    pub fn ip(&self) -> (ip: usize)
        ensures
            ip == self@.ip,
    {
        self.ip
    }

    /// The operand stack, its top last.
    pub fn stack(&self) -> (stack: &Vec<Value>)
        ensures
            stack@ == self@.stack,
    {
        &self.stack
    }

    /// The result, once the machine has halted.
    pub fn result(&self) -> (result: Option<InterpretResult>)
        ensures
            result == self@.result,
    {
        self.result
    }

    /// The line of the listing for the instruction that the next step runs;
    /// `None` where the next step runs none.
    pub fn trace(&self) -> (line: Option<TraceLine>)
        requires
            self.wf(),
        ensures
            line == if self@.at_instruction() {
                Some(self@.chunk.trace_line(self@.ip))
            } else {
                None
            },
    {
        if self.result.is_none() && self.ip < self.chunk.len() {
            Some(self.chunk.disassemble_instruction(self.ip).0)
        } else {
            None
        }
    }

    /// Pushes `value`: the answer to the operation that the last step
    /// handed out.
    pub fn push(&mut self, value: Value)
        requires
            old(self).wf(),
        ensures
            final(self).wf(),
            final(self)@ == old(self)@.push(value),
    {
        self.stack.push(value);
    }

    /// Halts the machine with `result`.
    fn halt(&mut self, result: InterpretResult, value: Option<Value>) -> (step: Step)
        requires
            old(self).wf(),
        ensures
            final(self).wf(),
            final(self)@ == old(self)@.halted(result),
            step == Step::Halt(result, value),
    {
        self.result = Some(result);
        Step::Halt(result, value)
    }

    /// Pops the two operands of `op`, or halts where the stack holds fewer.
    fn binary(&mut self, op: BinaryOp) -> (step: Step)
        requires
            old(self).wf(),
            old(self)@.ip < old(self)@.chunk.code.len(),
        ensures
            final(self).wf(),
            (final(self)@, step) == old(self)@.binary(op),
    {
        proof {
            self.chunk.lemma_len_fits();
        }
        let depth = self.stack.len();
        if depth >= 2 {
            let right = self.stack[depth - 1];
            let left = self.stack[depth - 2];
            self.stack.truncate(depth - 2);
            self.ip = self.ip + 1;
            Step::Apply(Operation::Binary(op, left, right))
        } else {
            self.halt(InterpretResult::RuntimeError, None)
        }
    }

    /// Runs one instruction; see [`VmState::step`].
    pub fn step(&mut self) -> (step: Step)
        requires
            old(self).wf(),
        ensures
            final(self).wf(),
            (final(self)@, step) == old(self)@.step(),
    {
        if let Some(result) = self.result {
            return Step::Halt(result, None);
        }
        if self.ip >= self.chunk.len() {
            return self.halt(InterpretResult::Success, None);
        }
        match self.chunk.instruction(self.ip) {
            OpCode::Return => {
                let value = self.stack.pop();
                self.halt(InterpretResult::Success, value)
            },
            OpCode::Constant(value) => {
                self.stack.push(value);
                self.ip = self.ip + 1;
                Step::Pushed
            },
            OpCode::Negate => {
                match self.stack.pop() {
                    Some(value) => {
                        self.ip = self.ip + 1;
                        Step::Apply(Operation::Negate(value))
                    },
                    None => self.halt(InterpretResult::RuntimeError, None),
                }
            },
            OpCode::Add => self.binary(BinaryOp::Add),
            OpCode::Subtract => self.binary(BinaryOp::Subtract),
            OpCode::Multiply => self.binary(BinaryOp::Multiply),
            OpCode::Divide => self.binary(BinaryOp::Divide),
        }
    }

    /// Runs the machine until it halts. Before each instruction the stack
    /// and the instruction are recorded in the trace. Each operation that an
    /// instruction asks for is handed to `arithmetic`, whose answer is
    /// pushed. The states that the machine goes through make a run, from
    /// the state it is in to the one it halts in, and the outcome is what
    /// that run leaves.
    pub fn run<F: Fn(Operation) -> Value>(&mut self, arithmetic: F) -> (outcome: Outcome)
        requires
            old(self).wf(),
            forall|operation: Operation| call_requires(arithmetic, (operation,)),
        ensures
            final(self).wf(),
            exists|states: Seq<VmState>|
                #[trigger] is_run(arithmetic, states) && states[0] == old(self)@ && states.last()
                    == final(self)@ && leaves(states, outcome),
    {
        let mut trace: Vec<TraceRecord> = Vec::new();
        let ghost mut states: Seq<VmState> = seq![self@];
        if let Some(result) = self.result {
            let outcome = Outcome { result, printed: None, trace };
            assert(is_run(arithmetic, states) && leaves(states, outcome));
            return outcome;
        }
        loop
            invariant
                self.wf(),
                self@.running(),
                forall|operation: Operation| call_requires(arithmetic, (operation,)),
                states.len() >= 1,
                states[0] == old(self)@,
                states.last() == self@,
                forall|i: int|
                    0 <= i < states.len() - 1 ==> (#[trigger] states[i]).running() && follows(
                        arithmetic,
                        states[i],
                        states[i + 1],
                    ),
                trace@.len() == states.len() - 1,
                forall|i: int| 0 <= i < trace@.len() ==> records(#[trigger] trace@[i], states[i]),
            decreases self@.chunk.code.len() - self@.ip,
        {
            let ghost before = self@;
            let ghost seen = states;
            proof {
                lemma_step(before);
            }
            let at_instruction = match self.trace() {
                Some(line) => {
                    trace.push(TraceRecord { stack: copy_of(&self.stack), line });
                    true
                },
                None => false,
            };
            let step = self.step();
            match step {
                Step::Pushed => {},
                Step::Apply(operation) => {
                    let answer = arithmetic(operation);
                    self.push(answer);
                    assert(self@.stack.last() == answer);
                },
                Step::Halt(_, _) => {},
            }
            proof {
                states = states.push(self@);
                assert(follows(arithmetic, before, self@));
                assert forall|i: int| 0 <= i < states.len() - 1 implies (#[trigger] states[
                    i
                ]).running() && follows(arithmetic, states[i], states[i + 1]) by {
                    if i < seen.len() - 1 {
                        assert(states[i] == seen[i]);
                        assert(states[i + 1] == seen[i + 1]);
                    } else {
                        assert(states[i] == before);
                    }
                }
            }
            if let Step::Halt(result, printed) = step {
                let outcome = Outcome { result, printed, trace };
                proof {
                    assert(states[states.len() - 2] == before);
                    assert(is_run(arithmetic, states));
                    assert(leaves(states, outcome));
                }
                return outcome;
            }
        }
    }
}

} // verus!
