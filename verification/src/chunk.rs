//! Bytecode: instructions, the chunk that holds them with their source
//! lines, and the disassembler that lists a chunk for tracing.

use crate::text::{decimal, padded, push_padded};
use vstd::prelude::*;
use vstd::string::StringExecFns;

verus! {

/// A runtime value: a double-precision floating-point number, held as the
/// 64 bits of its IEEE 754 representation. The library moves values about
/// and never computes with them; two values are equal where their bits are.
#[derive(Debug, Clone, Copy, PartialEq, Eq, Structural)]
pub struct Value(pub u64);

/// An instruction. `Constant` carries its operand in the instruction
/// itself.
#[derive(Debug, Clone, Copy, PartialEq, Eq, Structural)]
pub enum OpCode {
    Return,
    Constant(Value),
    Negate,
    Add,
    Subtract,
    Multiply,
    Divide,
}

impl OpCode {
    /// The name of the instruction.
    pub open spec fn mnemonic(self) -> Seq<char> {
        match self {
            OpCode::Return => "Return"@,
            OpCode::Constant(_) => "Constant"@,
            OpCode::Negate => "Negate"@,
            OpCode::Add => "Add"@,
            OpCode::Subtract => "Subtract"@,
            OpCode::Multiply => "Multiply"@,
            OpCode::Divide => "Divide"@,
        }
    }

    /// The instruction as text: its name, and for `Constant` its operand,
    /// of which `operand` is the text.
    pub open spec fn text(self, operand: Seq<char>) -> Seq<char> {
        match self {
            OpCode::Constant(_) => "Constant(Value("@ + operand + "))"@,
            _ => self.mnemonic(),
        }
    }

    /// The name of the instruction.
    pub fn name(&self) -> (name: &'static str)
        ensures
            name@ == self.mnemonic(),
    {
        match self {
            OpCode::Return => "Return",
            OpCode::Constant(_) => "Constant",
            OpCode::Negate => "Negate",
            OpCode::Add => "Add",
            OpCode::Subtract => "Subtract",
            OpCode::Multiply => "Multiply",
            OpCode::Divide => "Divide",
        }
    }
}

/// One line of a listing: an instruction with its offset in the chunk and
/// its source line. The line is `None` where the instruction before it in
/// the chunk comes from the same source line.
#[derive(Debug, Clone, Copy, PartialEq, Eq, Structural)]
pub struct TraceLine {
    pub offset: usize,
    pub line: Option<usize>,
    pub instruction: OpCode,
}

impl TraceLine {
    /// The two columns in front of the instruction: the offset in four
    /// digits, then the source line in a column of four, or a bar in its
    /// place; a space after each.
    pub open spec fn columns(self) -> Seq<char> {
        padded(decimal(self.offset as nat), 4, '0') + seq![' '] + match self.line {
            Some(line) => padded(decimal(line as nat), 4, ' ') + seq![' '],
            None => "   | "@,
        }
    }

    /// The line as text, with `operand` for the text of a constant's value.
    pub open spec fn text(self, operand: Seq<char>) -> Seq<char> {
        self.columns() + self.instruction.text(operand)
    }

    /// The line as text. `operand` is the text of the value of a `Constant`
    /// instruction, which the caller formats; for other instructions it is
    /// not used.
    pub fn render(&self, operand: &str) -> (text: String)
        ensures
            text@ == self.text(operand@),
    {
        let mut text = String::new();
        push_padded(&mut text, self.offset, 4, '0');
        text.push(' ');
        match self.line {
            Some(line) => {
                push_padded(&mut text, line, 4, ' ');
                text.push(' ');
            },
            None => {
                text.append("   | ");
            },
        }
        assert(text@ =~= self.columns());
        match self.instruction {
            OpCode::Constant(_) => {
                text.append("Constant(Value(");
                text.append(operand);
                text.append("))");
            },
            _ => {
                text.append(self.instruction.name());
            },
        }
        assert(text@ =~= self.text(operand@));
        text
    }
}

/// What a chunk holds.
pub struct ChunkView {
    /// The instructions, in order.
    pub code: Seq<OpCode>,
    /// For each instruction, the source line it comes from.
    pub lines: Seq<usize>,
    /// The constant pool.
    pub constants: Seq<Value>,
}

impl ChunkView {
    /// The chunk that holds nothing.
    pub open spec fn empty() -> ChunkView {
        ChunkView { code: Seq::empty(), lines: Seq::empty(), constants: Seq::empty() }
    }

    /// Every instruction has its source line.
    pub open spec fn wf(self) -> bool {
        self.code.len() == self.lines.len()
    }

    /// Whether the instruction at `offset` comes from the same source line
    /// as the one before it.
    pub open spec fn same_line(self, offset: int) -> bool {
        offset > 0 && self.lines[offset] == self.lines[offset - 1]
    }

    /// The line of the listing for the instruction at `offset`.
    pub open spec fn trace_line(self, offset: int) -> TraceLine {
        TraceLine {
            offset: offset as usize,
            line: if self.same_line(offset) {
                None
            } else {
                Some(self.lines[offset])
            },
            instruction: self.code[offset],
        }
    }

    /// The listing of the chunk: one line for each instruction, in order.
    pub open spec fn listing(self) -> Seq<TraceLine> {
        Seq::new(self.code.len(), |offset: int| self.trace_line(offset))
    }
}

/// A sequence of bytecode, with the source line of each instruction and a
/// constant pool.
pub struct Chunk {
    code: Vec<OpCode>,
    constants: Vec<Value>,
    lines: Vec<usize>,
}

impl View for Chunk {
    type V = ChunkView;

    closed spec fn view(&self) -> ChunkView {
        ChunkView { code: self.code@, lines: self.lines@, constants: self.constants@ }
    }
}

impl Default for Chunk {
    fn default() -> (chunk: Chunk)
        ensures
            chunk@ == ChunkView::empty(),
            chunk.wf(),
    {
        Chunk::new()
    }
}

impl Chunk {
    /// The chunk is well formed: every instruction has its source line.
    pub open spec fn wf(&self) -> bool {
        self@.wf()
    }

    /// The number of instructions fits in a machine word.
    pub proof fn lemma_len_fits(&self)
        ensures
            self@.code.len() <= usize::MAX,
    {
        assert(self.code.len() == self.code@.len());
    }

    /// An empty chunk.
    pub fn new() -> (chunk: Chunk)
        ensures
            chunk@ == ChunkView::empty(),
            chunk.wf(),
    {
        Chunk { code: Vec::new(), constants: Vec::new(), lines: Vec::new() }
    }

    /// Appends `value` to the constant pool and returns its index there.
    pub fn add_constant(&mut self, value: Value) -> (index: usize)
        ensures
            final(self)@ == (ChunkView {
                constants: old(self)@.constants.push(value),
                ..old(self)@
            }),
            index == old(self)@.constants.len(),
    {
        self.constants.push(value);
        self.constants.len() - 1
    }

    /// Appends the instruction `value`, which comes from source line `line`.
    pub fn write(&mut self, value: OpCode, line: usize)
        ensures
            final(self)@ == (ChunkView {
                code: old(self)@.code.push(value),
                lines: old(self)@.lines.push(line),
                ..old(self)@
            }),
            old(self).wf() ==> final(self).wf(),
    {
        self.code.push(value);
        self.lines.push(line);
    }

    /// The number of instructions.
    pub fn len(&self) -> (len: usize)
        ensures
            len == self@.code.len(),
    {
        self.code.len()
    }

    /// The instruction at `offset`.
    pub fn instruction(&self, offset: usize) -> (instruction: OpCode)
        requires
            offset < self@.code.len(),
        ensures
            instruction == self@.code[offset as int],
    {
        self.code[offset]
    }

    /// The source line of the instruction at `offset`.
    pub fn line(&self, offset: usize) -> (line: usize)
        requires
            offset < self@.lines.len(),
        ensures
            line == self@.lines[offset as int],
    {
        self.lines[offset]
    }

    /// The constant at `index` of the pool.
    pub fn constant(&self, index: usize) -> (value: Value)
        requires
            index < self@.constants.len(),
        ensures
            value == self@.constants[index as int],
    {
        self.constants[index]
    }

    /// The line of the listing for the instruction at `offset`, and the
    /// offset of the instruction after it, which is `offset + 1` for every
    /// instruction.
    pub fn disassemble_instruction(&self, offset: usize) -> (out: (TraceLine, usize))
        requires
            self.wf(),
            offset < self@.code.len(),
        ensures
            out.0 == self@.trace_line(offset as int),
            out.1 == offset + 1,
    {
        proof {
            self.lemma_len_fits();
        }
        let line = if offset > 0 && self.lines[offset] == self.lines[offset - 1] {
            None
        } else {
            Some(self.lines[offset])
        };
        (TraceLine { offset, line, instruction: self.code[offset] }, offset + 1)
    }

    /// The listing of the chunk: exactly one line for each instruction, in
    /// order, with the source line left out wherever the instruction before
    /// comes from the same line.
    pub fn disassemble(&self) -> (listing: Vec<TraceLine>)
        requires
            self.wf(),
        ensures
            listing@ == self@.listing(),
            listing@.len() == self@.code.len(),
            forall|i: int|
                0 <= i < listing@.len() ==> {
                    &&& (#[trigger] listing@[i]).offset == i
                    &&& listing@[i].instruction == self@.code[i]
                    &&& listing@[i].line == if i > 0 && self@.lines[i] == self@.lines[i - 1] {
                        None
                    } else {
                        Some(self@.lines[i])
                    }
                },
    {
        let mut listing: Vec<TraceLine> = Vec::new();
        let mut offset: usize = 0;
        while offset < self.code.len()
            invariant
                self.wf(),
                offset <= self@.code.len(),
                listing@ == self@.listing().take(offset as int),
            decreases self@.code.len() - offset,
        {
            let (line, next) = self.disassemble_instruction(offset);
            listing.push(line);
            offset = next;
            assert(listing@ =~= self@.listing().take(offset as int));
        }
        assert(listing@ =~= self@.listing());
        listing
    }
}

} // verus!
