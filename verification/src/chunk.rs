//! Chunks of bytecode: instructions, their source lines and the pool of constants
//! that they refer to, with the builder that makes them and their disassembly.

use crate::text::{decimal, padded, push_decimal, push_number, push_padded, Fill};
pub use crate::value::Value;
use vstd::prelude::*;
use vstd::string::*;

verus! {

/// One instruction.
#[derive(Debug, Clone, Copy, PartialEq, Eq, Structural)]
pub enum Op {
    /// Ends the run and hands out the top of the stack.
    Return,
    /// Pushes the constant at this position of the chunk's pool.
    Constant(usize),
    /// Replaces the top of the stack by its negation.
    Negate,
}

impl Op {
    /// By how much the height of the stack changes when the instruction succeeds.
    pub open spec fn stack_effect(self) -> int {
        match self {
            Op::Return => -1,
            Op::Constant(_) => 1,
            Op::Negate => 0,
        }
    }
}

/// What a chunk holds: its name, its instructions in the order in which they run,
/// the source line of each, and its constants by position.
pub struct ChunkView {
    pub name: Seq<char>,
    pub code: Seq<Op>,
    pub lines: Seq<usize>,
    pub constants: Seq<Value>,
}

impl ChunkView {
    /// Every instruction has its line, and every `Constant` refers into the pool.
    pub open spec fn well_formed(self) -> bool {
        &&& self.lines.len() == self.code.len()
        &&& forall|i: int|
            0 <= i < self.code.len() ==> (#[trigger] self.code[i] matches Op::Constant(index)
                ==> index < self.constants.len())
    }

    /// The chunk named `name` that holds nothing.
    pub open spec fn empty(name: Seq<char>) -> ChunkView {
        ChunkView { name, code: Seq::empty(), lines: Seq::empty(), constants: Seq::empty() }
    }

    /// This chunk with the instruction `op`, of source line `line`, behind the
    /// others.
    pub open spec fn with_op(self, op: Op, line: usize) -> ChunkView {
        ChunkView { code: self.code.push(op), lines: self.lines.push(line), ..self }
    }

    /// This chunk with a `Return` of source line `line` at its end.
    pub open spec fn with_return(self, line: usize) -> ChunkView {
        self.with_op(Op::Return, line)
    }

    /// This chunk with a `Negate` of source line `line` at its end.
    pub open spec fn with_negate(self, line: usize) -> ChunkView {
        self.with_op(Op::Negate, line)
    }

    /// This chunk with `value` at the end of its pool and, at the end of its code,
    /// a `Constant` of source line `line` that refers to it.
    pub open spec fn with_constant(self, line: usize, value: Value) -> ChunkView {
        ChunkView {
            constants: self.constants.push(value),
            ..self.with_op(Op::Constant(self.constants.len() as usize), line)
        }
    }
}

/// One call of the builder: the instruction that it appends, with its source line
/// and, for a constant, the value.
pub enum Emit {
    Return { line: usize },
    Negate { line: usize },
    Constant { line: usize, value: Value },
}

impl Emit {
    /// The source line that the call gives.
    pub open spec fn line(self) -> usize {
        match self {
            Emit::Return { line } => line,
            Emit::Negate { line } => line,
            Emit::Constant { line, .. } => line,
        }
    }
}

impl ChunkView {
    /// This chunk after the builder call `emit`.
    pub open spec fn with(self, emit: Emit) -> ChunkView {
        match emit {
            Emit::Return { line } => self.with_return(line),
            Emit::Negate { line } => self.with_negate(line),
            Emit::Constant { line, value } => self.with_constant(line, value),
        }
    }
}

/// The chunk that a builder named `name` holds after the calls `calls`, made in
/// this order.
pub open spec fn replay(name: Seq<char>, calls: Seq<Emit>) -> ChunkView
    decreases calls.len(),
{
    if calls.len() == 0 {
        ChunkView::empty(name)
    } else {
        replay(name, calls.drop_last()).with(calls.last())
    }
}

/// How many constants the first `count` calls of `calls` append to the pool.
pub open spec fn pooled(calls: Seq<Emit>, count: int) -> nat
    decreases count,
{
    if count <= 0 {
        0
    } else if calls[count - 1] is Constant {
        pooled(calls, count - 1) + 1
    } else {
        pooled(calls, count - 1)
    }
}

/// Whatever calls a builder gets, in whatever order: the chunk is well formed, it
/// holds one instruction and one line for each call, and a `Constant` refers to
/// the position that its own value got in the pool, which is the number of
/// constants appended before it.
pub proof fn lemma_builder_calls(name: Seq<char>, calls: Seq<Emit>)
    requires
        calls.len() <= usize::MAX,
    ensures
        ({
            let chunk = replay(name, calls);
            &&& chunk.well_formed()
            &&& chunk.name == name
            &&& chunk.code.len() == calls.len()
            &&& chunk.lines.len() == calls.len()
            &&& chunk.constants.len() == pooled(calls, calls.len() as int)
            &&& forall|i: int|
                0 <= i < calls.len() ==> chunk.lines[i] == (#[trigger] calls[i]).line()
            &&& forall|i: int|
                0 <= i < calls.len() ==> match #[trigger] calls[i] {
                    Emit::Return { .. } => chunk.code[i] == Op::Return,
                    Emit::Negate { .. } => chunk.code[i] == Op::Negate,
                    Emit::Constant { value, .. } => {
                        &&& chunk.code[i] == Op::Constant(pooled(calls, i) as usize)
                        &&& pooled(calls, i) < chunk.constants.len()
                        &&& chunk.constants[pooled(calls, i) as int] == value
                    },
                }
        }),
    decreases calls.len(),
{
    if calls.len() > 0 {
        let before = calls.drop_last();
        let last = calls.len() - 1;
        lemma_builder_calls(name, before);
        lemma_pooled_prefix(calls, before, last);
        lemma_pooled_bound(calls, last);
        let earlier = replay(name, before);
        let chunk = replay(name, calls);
        assert forall|i: int| 0 <= i < calls.len() implies chunk.lines[i] == (
        #[trigger] calls[i]).line() by {
            if i < last {
                assert(before[i] == calls[i]);
            }
        }
        assert forall|i: int| 0 <= i < calls.len() implies match #[trigger] calls[i] {
            Emit::Return { .. } => chunk.code[i] == Op::Return,
            Emit::Negate { .. } => chunk.code[i] == Op::Negate,
            Emit::Constant { value, .. } => {
                &&& chunk.code[i] == Op::Constant(pooled(calls, i) as usize)
                &&& pooled(calls, i) < chunk.constants.len()
                &&& chunk.constants[pooled(calls, i) as int] == value
            },
        } by {
            if i < last {
                assert(before[i] == calls[i]);
                lemma_pooled_prefix(calls, before, i);
                lemma_pooled_grows(before, i, last);
            }
        }
        assert forall|i: int| 0 <= i < chunk.code.len() implies (
        #[trigger] chunk.code[i] matches Op::Constant(index) ==> index < chunk.constants.len()) by {
            if i < last {
                assert(earlier.code[i] == chunk.code[i]);
            }
        }
    }
}

/// The count of a prefix of the calls does not depend on the calls behind it.
proof fn lemma_pooled_prefix(calls: Seq<Emit>, before: Seq<Emit>, count: int)
    requires
        0 <= count <= before.len() <= calls.len(),
        forall|i: int| 0 <= i < before.len() ==> before[i] == calls[i],
    ensures
        pooled(before, count) == pooled(calls, count),
    decreases count,
{
    if count > 0 {
        lemma_pooled_prefix(calls, before, count - 1);
    }
}

/// No more constants than calls.
proof fn lemma_pooled_bound(calls: Seq<Emit>, count: int)
    requires
        0 <= count,
    ensures
        pooled(calls, count) <= count,
    decreases count,
{
    if count > 0 {
        lemma_pooled_bound(calls, count - 1);
    }
}

/// The count grows with the number of calls counted.
proof fn lemma_pooled_grows(calls: Seq<Emit>, fewer: int, more: int)
    requires
        0 <= fewer <= more,
    ensures
        pooled(calls, fewer) <= pooled(calls, more),
    decreases more,
{
    if fewer < more {
        lemma_pooled_grows(calls, fewer, more - 1);
    }
}

/// The first column of row `i` of a listing, four characters wide: the source
/// line of instruction `i`, or the mark `|` where the instruction before it has
/// the same line.
pub open spec fn line_column(lines: Seq<usize>, i: int) -> Seq<char> {
    if i > 0 && lines[i] == lines[i - 1] {
        padded("|"@, 4, ' ')
    } else {
        padded(decimal(lines[i] as nat), 4, ' ')
    }
}

/// The name of an instruction, with its operand in brackets where it has one.
pub open spec fn mnemonic(op: Op) -> Seq<char> {
    match op {
        Op::Return => "Return"@,
        Op::Negate => "Negate"@,
        Op::Constant(index) => "Constant("@ + decimal(index as nat) + ")"@,
    }
}

/// An instruction as a listing shows it: its mnemonic and, for a `Constant`, the
/// text of the constant that it refers to, where `values` holds the text of each
/// constant of the pool.
pub open spec fn instruction(op: Op, values: Seq<Seq<char>>) -> Seq<char> {
    match op {
        Op::Constant(index) => mnemonic(op) + " "@ + values[index as int],
        _ => mnemonic(op),
    }
}

/// Row `i` of a listing: the line column, the position `i` in at least four
/// digits, and the instruction, with one space between them.
pub open spec fn row(chunk: ChunkView, values: Seq<Seq<char>>, i: int) -> Seq<char> {
    line_column(chunk.lines, i) + " "@ + padded(decimal(i as nat), 4, '0') + " "@ + instruction(
        chunk.code[i],
        values,
    )
}

/// The first `count` rows of a listing, with a line feed between one row and the
/// next.
pub open spec fn rows(chunk: ChunkView, values: Seq<Seq<char>>, count: nat) -> Seq<char>
    decreases count,
{
    if count == 0 {
        Seq::empty()
    } else if count == 1 {
        row(chunk, values, 0)
    } else {
        rows(chunk, values, (count - 1) as nat) + "\n"@ + row(chunk, values, count - 1)
    }
}

/// The listing of a chunk: one row for each instruction.
pub open spec fn disassembly(chunk: ChunkView, values: Seq<Seq<char>>) -> Seq<char> {
    rows(chunk, values, chunk.code.len())
}

/// The listing of a chunk under a heading that names it.
pub open spec fn titled(chunk: ChunkView, values: Seq<Seq<char>>) -> Seq<char> {
    "== "@ + chunk.name + " ==\n"@ + disassembly(chunk, values)
}

/// The listing of a chunk that holds one constant and a `Return`, both from one
/// source line: two rows, the first with the line, the second with the mark in
/// its place.
pub proof fn lemma_constant_and_return_listing(
    name: Seq<char>,
    line: usize,
    value: Value,
    shown: Seq<char>,
)
    ensures
        disassembly(
            ChunkView::empty(name).with_constant(line, value).with_return(line),
            seq![shown],
        ) == padded(decimal(line as nat), 4, ' ') + " 0000 Constant(0) "@ + shown
            + "\n   | 0001 Return"@,
{
    let chunk = ChunkView::empty(name).with_constant(line, value).with_return(line);
    let values = seq![shown];
    reveal_strlit(" ");
    reveal_strlit("|");
    reveal_strlit("\n");
    reveal_strlit(")");
    reveal_strlit("Constant(");
    reveal_strlit("Return");
    reveal_strlit(" 0000 Constant(0) ");
    reveal_strlit("\n   | 0001 Return");
    assert(chunk.code =~= seq![Op::Constant(0), Op::Return]);
    assert(chunk.lines =~= seq![line, line]);
    assert(decimal(0) =~= seq!['0']);
    assert(decimal(1) =~= seq!['1']);
    assert(padded(decimal(0), 4, '0') =~= seq!['0', '0', '0', '0']);
    assert(padded(decimal(1), 4, '0') =~= seq!['0', '0', '0', '1']);
    assert(padded("|"@, 4, ' ') =~= seq![' ', ' ', ' ', '|']);
    let first = row(chunk, values, 0);
    let second = row(chunk, values, 1);
    assert(first =~= padded(decimal(line as nat), 4, ' ') + " 0000 Constant(0) "@ + shown);
    assert(second =~= seq![' ', ' ', ' ', '|'] + " 0001 Return"@) by {
        reveal_strlit(" 0001 Return");
    }
    assert("\n"@ + second =~= "\n   | 0001 Return"@) by {
        reveal_strlit(" 0001 Return");
    }
    assert(rows(chunk, values, 2) == rows(chunk, values, 1) + "\n"@ + second);
    assert(rows(chunk, values, 1) == first);
    assert(first + "\n"@ + second =~= first + ("\n"@ + second));
}

/// Makes a chunk, one instruction after the other.
pub struct ChunkBuilder {
    name: String,
    code: Vec<Op>,
    lines: Vec<usize>,
    constants: Vec<Value>,
}

impl View for ChunkBuilder {
    type V = ChunkView;

    closed spec fn view(&self) -> ChunkView {
        ChunkView {
            name: self.name@,
            code: self.code@,
            lines: self.lines@,
            constants: self.constants@,
        }
    }
}

impl Default for ChunkBuilder {
    /// A builder of a chunk without a name, with nothing in it yet.
    fn default() -> (builder: ChunkBuilder)
        ensures
            builder@ == ChunkView::empty(Seq::empty()),
    {
        ChunkBuilder {
            name: String::new(),
            code: Vec::new(),
            lines: Vec::new(),
            constants: Vec::new(),
        }
    }
}

impl ChunkBuilder {
    #[verifier::type_invariant]
    pub open spec fn consistent(self) -> bool {
        self@.well_formed()
    }

    /// A builder of a chunk named `name`, with nothing in it yet.
    pub fn new(name: &str) -> (builder: ChunkBuilder)
        ensures
            builder@ == ChunkView::empty(name@),
            builder@.well_formed(),
    {
        ChunkBuilder { name: name.to_owned(), ..Default::default() }
    }

    /// The chunk that was built.
    pub fn build(self) -> (chunk: Chunk)
        ensures
            chunk@ == self@,
            chunk@.well_formed(),
    {
        proof {
            use_type_invariant(&self);
        }
        Chunk { name: self.name, code: self.code, lines: self.lines, constants: self.constants }
    }

    /// Appends a `Return` that stems from the source line `line`.
    pub fn op_return(self, line: usize) -> (builder: ChunkBuilder)
        ensures
            builder@ == self@.with_return(line),
            builder@.well_formed(),
    {
        self.push(Op::Return, line)
    }

    /// Appends a `Negate` that stems from the source line `line`.
    pub fn op_negate(self, line: usize) -> (builder: ChunkBuilder)
        ensures
            builder@ == self@.with_negate(line),
            builder@.well_formed(),
    {
        self.push(Op::Negate, line)
    }

    /// Appends `value` to the pool, and to the code a `Constant` that refers to
    /// it and stems from the source line `line`.
    pub fn op_constant(self, line: usize, value: Value) -> (builder: ChunkBuilder)
        ensures
            builder@ == self@.with_constant(line, value),
            builder@.well_formed(),
            builder@.code.last() == Op::Constant(self@.constants.len() as usize),
            builder@.constants[self@.constants.len() as int] == value,
    {
        proof {
            use_type_invariant(&self);
        }
        let ChunkBuilder { name, mut code, mut lines, mut constants } = self;
        code.push(Op::Constant(constants.len()));
        lines.push(line);
        constants.push(value);
        ChunkBuilder { name, code, lines, constants }
    }

    /// Appends an instruction that refers to no constant.
    fn push(self, op: Op, line: usize) -> (builder: ChunkBuilder)
        requires
            !(op is Constant),
        ensures
            builder@ == self@.with_op(op, line),
            builder@.well_formed(),
    {
        proof {
            use_type_invariant(&self);
        }
        let ChunkBuilder { name, mut code, mut lines, constants } = self;
        code.push(op);
        lines.push(line);
        ChunkBuilder { name, code, lines, constants }
    }
}

/// A finished chunk of bytecode. Its view is well formed.
pub struct Chunk {
    name: String,
    code: Vec<Op>,
    lines: Vec<usize>,
    constants: Vec<Value>,
}

impl View for Chunk {
    type V = ChunkView;

    closed spec fn view(&self) -> ChunkView {
        ChunkView {
            name: self.name@,
            code: self.code@,
            lines: self.lines@,
            constants: self.constants@,
        }
    }
}

impl Chunk {
    #[verifier::type_invariant]
    pub open spec fn consistent(self) -> bool {
        self@.well_formed()
    }

    /// A builder of a chunk named `name`.
    pub fn builder(name: &str) -> (builder: ChunkBuilder)
        ensures
            builder@ == ChunkView::empty(name@),
            builder@.well_formed(),
    {
        ChunkBuilder::new(name)
    }

    /// The constant at position `index` of the pool, if it has one there.
    pub fn get_constant(&self, index: usize) -> (value: Option<Value>)
        ensures
            self@.well_formed(),
            index < self@.constants.len() ==> value == Some(self@.constants[index as int]),
            index >= self@.constants.len() ==> value is None,
    {
        proof {
            use_type_invariant(self);
        }
        if index < self.constants.len() {
            Some(self.constants[index])
        } else {
            None
        }
    }

    /// The instruction at position `index` of the code, if it has one there.
    pub fn code(&self, index: usize) -> (op: Option<Op>)
        ensures
            self@.well_formed(),
            self@.code.len() <= usize::MAX,
            index < self@.code.len() ==> op == Some(self@.code[index as int]),
            index >= self@.code.len() ==> op is None,
    {
        proof {
            use_type_invariant(self);
        }
        if index < self.code.len() {
            Some(self.code[index])
        } else {
            None
        }
    }

    /// The listing of the chunk, one row for each instruction and a line feed
    /// between the rows. `values` holds the text of each constant of the pool, by
    /// position.
    pub fn disassemble(&self, values: &Vec<String>) -> (text: String)
        requires
            values.len() == self@.constants.len(),
        ensures
            text@ == disassembly(self@, values.deep_view()),
    {
        proof {
            use_type_invariant(self);
        }
        let mut text = String::new();
        let mut i: usize = 0;
        while i < self.code.len()
            invariant
                self@.well_formed(),
                self.code@ == self@.code,
                self.lines@ == self@.lines,
                values.len() == self@.constants.len(),
                0 <= i <= self.code.len(),
                text@ == rows(self@, values.deep_view(), i as nat),
            decreases self.code.len() - i,
        {
            if i > 0 {
                text.append("\n");
            }
            if i > 0 && self.lines[i] == self.lines[i - 1] {
                push_padded(&mut text, "|", 4, Fill::Space);
            } else {
                push_number(&mut text, self.lines[i], 4, Fill::Space);
            }
            text.append(" ");
            push_number(&mut text, i, 4, Fill::Zero);
            text.append(" ");
            let shown = self.disassemble_op(&self.code[i], values);
            text.append(shown.as_str());
            proof {
                let listed = rows(self@, values.deep_view(), i as nat);
                let this = row(self@, values.deep_view(), i as int);
                if i == 0 {
                    assert(text@ =~= this);
                } else {
                    assert(text@ =~= listed + "\n"@ + this);
                }
            }
            i += 1;
        }
        text
    }

    /// The instruction `op` as a listing of this chunk shows it. `values` holds the
    /// text of each constant of the pool, by position.
    pub fn disassemble_op(&self, op: &Op, values: &Vec<String>) -> (text: String)
        requires
            values.len() == self@.constants.len(),
            *op matches Op::Constant(index) ==> index < self@.constants.len(),
        ensures
            text@ == instruction(*op, values.deep_view()),
    {
        let mut text = String::new();
        match op {
            Op::Return => {
                text.append("Return");
                assert(text@ =~= "Return"@);
            },
            Op::Negate => {
                text.append("Negate");
                assert(text@ =~= "Negate"@);
            },
            Op::Constant(index) => {
                text.append("Constant(");
                push_decimal(&mut text, *index);
                text.append(")");
                text.append(" ");
                text.append(values[*index].as_str());
                assert(values.deep_view()[*index as int] == values@[*index as int]@);
                assert(text@ =~= instruction(*op, values.deep_view()));
            },
        }
        text
    }

    /// The listing of the chunk under a heading that names it.
    pub fn describe(&self, values: &Vec<String>) -> (text: String)
        requires
            values.len() == self@.constants.len(),
        ensures
            text@ == titled(self@, values.deep_view()),
    {
        let mut text = String::new();
        text.append("== ");
        text.append(self.name.as_str());
        text.append(" ==\n");
        let listing = self.disassemble(values);
        text.append(listing.as_str());
        assert(text@ =~= titled(self@, values.deep_view()));
        text
    }
}

} // verus!
