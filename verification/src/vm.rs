//! The virtual machine: it runs the instructions of a chunk against a stack of
//! values.

use crate::chunk::{Chunk, ChunkView, Op};
use crate::value::{lemma_negate_twice, Value};
use vstd::prelude::*;

verus! {

/// Why a program gave no result.
#[derive(Debug, Clone, Copy, PartialEq, Eq, Structural)]
pub enum InterpretError {
    /// The source is no program. The machine never reports this.
    Compile,
    /// An instruction could not be executed.
    Runtime,
}

/// What executing one instruction does to the stack.
pub enum Effect {
    /// The run goes on with this stack.
    Continue(Seq<Value>),
    /// The run ends with this result, and leaves this stack.
    Finish(Value, Seq<Value>),
    /// The instruction cannot be executed; the stack is as it was.
    Fault,
}

/// The effect of the instruction `op` on `stack`, in a chunk with the pool
/// `constants`.
pub open spec fn execute(op: Op, constants: Seq<Value>, stack: Seq<Value>) -> Effect {
    match op {
        Op::Return => if stack.len() > 0 {
            Effect::Finish(stack.last(), stack.drop_last())
        } else {
            Effect::Fault
        },
        Op::Constant(index) => if index < constants.len() {
            Effect::Continue(stack.push(constants[index as int]))
        } else {
            Effect::Fault
        },
        Op::Negate => if stack.len() > 0 {
            Effect::Continue(stack.drop_last().push(stack.last().negated()))
        } else {
            Effect::Fault
        },
    }
}

/// How a run ends.
pub enum Outcome {
    /// A `Return` was executed and handed out this value.
    Returned(Value),
    /// An instruction could not be executed.
    Faulted,
    /// The code ended before a `Return` was reached.
    Overrun,
}

/// The end of a run: how it ended, the position behind the last instruction that
/// was fetched, and the stack that it left.
pub struct Halt {
    pub outcome: Outcome,
    pub ip: int,
    pub stack: Seq<Value>,
}

/// The end of the run of `chunk` that begins at instruction `ip` with `stack`.
///
/// Instructions are fetched one by one, in order. The run ends with the first
/// `Return`, with the first instruction that faults, which leaves the stack as
/// it found it, or behind the last instruction.
pub open spec fn run(chunk: ChunkView, ip: int, stack: Seq<Value>) -> Halt
    decreases chunk.code.len() - ip,
{
    if 0 <= ip < chunk.code.len() {
        match execute(chunk.code[ip], chunk.constants, stack) {
            Effect::Continue(next) => run(chunk, ip + 1, next),
            Effect::Finish(value, rest) => Halt {
                outcome: Outcome::Returned(value),
                ip: ip + 1,
                stack: rest,
            },
            Effect::Fault => Halt { outcome: Outcome::Faulted, ip: ip + 1, stack },
        }
    } else {
        Halt { outcome: Outcome::Overrun, ip, stack }
    }
}

/// The state of a machine: its chunk, the position of the next instruction, and
/// the stack, whose top is its last element.
pub struct Machine {
    pub chunk: ChunkView,
    pub ip: int,
    pub stack: Seq<Value>,
}

impl Machine {
    /// The end of the run that begins in this state.
    pub open spec fn halt(self) -> Halt {
        run(self.chunk, self.ip, self.stack)
    }

    /// Whether the run that begins in this state ends with a `Return` or a fault,
    /// and not behind the last instruction.
    pub open spec fn halts(self) -> bool {
        !(self.halt().outcome is Overrun)
    }

    /// Whether a `Return` stands at or behind the next instruction.
    pub open spec fn return_ahead(self) -> bool {
        exists|at: int|
            self.ip <= at < self.chunk.code.len() && #[trigger] self.chunk.code[at] == Op::Return
    }
}

/// An instruction that is executed changes the height of the stack by exactly its
/// stack effect.
pub proof fn lemma_stack_effect(op: Op, constants: Seq<Value>, stack: Seq<Value>)
    ensures
        (match execute(op, constants, stack) {
            Effect::Continue(next) => next.len() == stack.len() + op.stack_effect(),
            Effect::Finish(_, rest) => rest.len() == stack.len() + op.stack_effect(),
            Effect::Fault => true,
        }),
{
}

/// The sum of the stack effects of the instructions of `code` from position `from`
/// up to, and without, position `to`.
pub open spec fn net_effect(code: Seq<Op>, from: int, to: int) -> int
    decreases to - from,
{
    if from < to {
        code[from].stack_effect() + net_effect(code, from + 1, to)
    } else {
        0
    }
}

/// A run ends within the code, behind where it began. Where it ends with a
/// `Return`, the height of the stack has changed by the sum of the stack effects
/// of the instructions that were executed, the `Return` among them; where it ends
/// with a fault, by the sum of those before the instruction that faulted.
pub proof fn lemma_run_height(chunk: ChunkView, ip: int, stack: Seq<Value>)
    requires
        0 <= ip <= chunk.code.len(),
    ensures
        ({
            let halt = run(chunk, ip, stack);
            match halt.outcome {
                Outcome::Returned(_) => ip < halt.ip <= chunk.code.len() && halt.stack.len()
                    == stack.len() + net_effect(chunk.code, ip, halt.ip),
                Outcome::Faulted => ip < halt.ip <= chunk.code.len() && halt.stack.len()
                    == stack.len() + net_effect(chunk.code, ip, halt.ip - 1),
                Outcome::Overrun => halt.ip == chunk.code.len() && halt.stack.len() == stack.len()
                    + net_effect(chunk.code, ip, halt.ip),
            }
        }),
    decreases chunk.code.len() - ip,
{
    if ip < chunk.code.len() {
        let halt = run(chunk, ip, stack);
        match execute(chunk.code[ip], chunk.constants, stack) {
            Effect::Continue(next) => {
                lemma_run_height(chunk, ip + 1, next);
            },
            Effect::Finish(_, _) => {
                assert(net_effect(chunk.code, ip + 1, ip + 1) == 0);
            },
            Effect::Fault => {},
        }
    }
}

/// A `Constant` whose index lies outside the pool faults, whatever the stack
/// holds, and the run ends there.
pub proof fn lemma_invalid_constant_faults(chunk: ChunkView, ip: int, stack: Seq<Value>)
    requires
        0 <= ip < chunk.code.len(),
        chunk.code[ip] matches Op::Constant(index) && index >= chunk.constants.len(),
    ensures
        run(chunk, ip, stack) == (Halt { outcome: Outcome::Faulted, ip: ip + 1, stack }),
{
}

/// A `Return` on an empty stack faults.
pub proof fn lemma_return_underflow_faults(chunk: ChunkView, ip: int)
    requires
        0 <= ip < chunk.code.len(),
        chunk.code[ip] == Op::Return,
    ensures
        run(chunk, ip, Seq::empty()) == (Halt {
            outcome: Outcome::Faulted,
            ip: ip + 1,
            stack: Seq::empty(),
        }),
{
}

/// A run that has a `Return` at or behind its first instruction ends with a
/// `Return` or with a fault.
pub proof fn lemma_return_ahead_halts(machine: Machine)
    requires
        0 <= machine.ip,
        machine.return_ahead(),
    ensures
        machine.halts(),
    decreases machine.chunk.code.len() - machine.ip,
{
    let at = choose|at: int|
        machine.ip <= at < machine.chunk.code.len() && #[trigger] machine.chunk.code[at]
            == Op::Return;
    match execute(machine.chunk.code[machine.ip], machine.chunk.constants, machine.stack) {
        Effect::Continue(next) => {
            let then = Machine { ip: machine.ip + 1, stack: next, ..machine };
            assert(machine.ip < at);
            assert(then.chunk.code[at] == Op::Return);
            lemma_return_ahead_halts(then);
        },
        _ => {},
    }
}

/// In a well-formed chunk no `Constant` faults: a run can only fault for want of
/// a value on the stack.
pub proof fn lemma_well_formed_faults(chunk: ChunkView, ip: int, stack: Seq<Value>)
    requires
        chunk.well_formed(),
        0 <= ip <= chunk.code.len(),
        run(chunk, ip, stack).outcome is Faulted,
    ensures
        run(chunk, ip, stack).stack.len() == 0,
        !(chunk.code[run(chunk, ip, stack).ip - 1] is Constant),
    decreases chunk.code.len() - ip,
{
    if ip < chunk.code.len() {
        match execute(chunk.code[ip], chunk.constants, stack) {
            Effect::Continue(next) => {
                lemma_well_formed_faults(chunk, ip + 1, next);
            },
            _ => {},
        }
    }
}

/// A constant and a `Return` hand out the constant.
pub proof fn lemma_constant_is_returned(chunk: ChunkView, value: Value)
    requires
        chunk.code == seq![Op::Constant(0), Op::Return],
        chunk.constants == seq![value],
    ensures
        run(chunk, 0, Seq::empty()) == (Halt {
            outcome: Outcome::Returned(value),
            ip: 2,
            stack: Seq::empty(),
        }),
{
    reveal_with_fuel(run, 3);
    let pushed = Seq::<Value>::empty().push(value);
    assert(pushed.last() == value);
    assert(pushed.drop_last() =~= Seq::<Value>::empty());
}

/// A constant, a `Negate` and a `Return` hand out the negation of the constant;
/// with a second `Negate` before the `Return`, the constant itself.
pub proof fn lemma_negation_is_returned(once: ChunkView, twice: ChunkView, value: Value)
    requires
        once.code == seq![Op::Constant(0), Op::Negate, Op::Return],
        once.constants == seq![value],
        twice.code == seq![Op::Constant(0), Op::Negate, Op::Negate, Op::Return],
        twice.constants == seq![value],
    ensures
        run(once, 0, Seq::empty()) == (Halt {
            outcome: Outcome::Returned(value.negated()),
            ip: 3,
            stack: Seq::empty(),
        }),
        run(twice, 0, Seq::empty()) == (Halt {
            outcome: Outcome::Returned(value),
            ip: 4,
            stack: Seq::empty(),
        }),
{
    reveal_with_fuel(run, 5);
    let empty = Seq::<Value>::empty();
    let first = empty.push(value);
    let second = first.drop_last().push(value.negated());
    let third = second.drop_last().push(value.negated().negated());
    lemma_negate_twice(value);
    assert(first.drop_last() =~= empty);
    assert(second.drop_last() =~= empty);
    assert(third.drop_last() =~= empty);
    assert(first.last() == value);
    assert(second.last() == value.negated());
    assert(third.last() == value);
}

/// A machine that runs one chunk.
pub struct VM {
    chunk: Chunk,
    ip: usize,
    value_stack: Vec<Value>,
}

impl View for VM {
    type V = Machine;

    closed spec fn view(&self) -> Machine {
        Machine { chunk: self.chunk@, ip: self.ip as int, stack: self.value_stack@ }
    }
}

impl VM {
    /// A machine at the first instruction of `chunk`, with an empty stack.
    pub fn new(chunk: Chunk) -> (vm: VM)
        ensures
            vm@ == (Machine { chunk: chunk@, ip: 0, stack: Seq::empty() }),
            chunk@.well_formed(),
    {
        proof {
            use_type_invariant(&chunk);
        }
        VM { chunk, ip: 0, value_stack: Vec::new() }
    }

    /// Runs the chunk from the next instruction on, until a `Return` hands out the
    /// result or an instruction faults.
    pub fn interpret(&mut self) -> (result: Result<Value, InterpretError>)
        requires
            old(self)@.halts(),
        ensures
            final(self)@.chunk == old(self)@.chunk,
            final(self)@.ip == old(self)@.halt().ip,
            final(self)@.stack == old(self)@.halt().stack,
            (match old(self)@.halt().outcome {
                Outcome::Returned(value) => result == Ok::<Value, InterpretError>(value),
                Outcome::Faulted => result == Err::<Value, InterpretError>(InterpretError::Runtime),
                Outcome::Overrun => false,
            }),
    {
        loop
            invariant
                self@.chunk == old(self)@.chunk,
                self@.halt() == old(self)@.halt(),
                self@.halts(),
            decreases self@.chunk.code.len() - self@.ip,
        {
            let instruction = self.next_instruction();
            match instruction {
                Op::Return => {
                    return self.op_return();
                },
                Op::Constant(index) => {
                    self.op_constant(index)?;
                },
                Op::Negate => {
                    self.op_negate()?;
                },
            }
        }
    }

    /// Executes a `Return`: takes the top of the stack off and hands it out. On an
    /// empty stack it faults.
    pub fn op_return(&mut self) -> (result: Result<Value, InterpretError>)
        ensures
            final(self)@.chunk == old(self)@.chunk,
            final(self)@.ip == old(self)@.ip,
            (match execute(Op::Return, old(self)@.chunk.constants, old(self)@.stack) {
                Effect::Finish(value, rest) => result == Ok::<Value, InterpretError>(value)
                    && final(self)@.stack == rest,
                _ => result == Err::<Value, InterpretError>(InterpretError::Runtime)
                    && final(self)@.stack == old(self)@.stack,
            }),
            result is Ok ==> final(self)@.stack.len() == old(self)@.stack.len()
                + Op::Return.stack_effect(),
            result is Ok <==> old(self)@.stack.len() > 0,
    {
        match self.value_stack.pop() {
            Some(value) => Ok(value),
            None => Err(InterpretError::Runtime),
        }
    }

    /// Executes a `Constant`: pushes the constant at position `index` of the pool.
    /// Where the pool has none there it faults.
    pub fn op_constant(&mut self, index: usize) -> (result: Result<(), InterpretError>)
        ensures
            final(self)@.chunk == old(self)@.chunk,
            final(self)@.ip == old(self)@.ip,
            (match execute(Op::Constant(index), old(self)@.chunk.constants, old(self)@.stack) {
                Effect::Continue(next) => result is Ok && final(self)@.stack == next,
                _ => result == Err::<(), InterpretError>(InterpretError::Runtime)
                    && final(self)@.stack == old(self)@.stack,
            }),
            result is Ok ==> final(self)@.stack.len() == old(self)@.stack.len()
                + Op::Constant(index).stack_effect(),
            result is Ok <==> index < old(self)@.chunk.constants.len(),
    {
        match self.chunk.get_constant(index) {
            Some(value) => {
                self.value_stack.push(value);
                Ok(())
            },
            None => Err(InterpretError::Runtime),
        }
    }

    /// Executes a `Negate`: replaces the top of the stack by its negation. On an
    /// empty stack it faults.
    pub fn op_negate(&mut self) -> (result: Result<(), InterpretError>)
        ensures
            final(self)@.chunk == old(self)@.chunk,
            final(self)@.ip == old(self)@.ip,
            (match execute(Op::Negate, old(self)@.chunk.constants, old(self)@.stack) {
                Effect::Continue(next) => result is Ok && final(self)@.stack == next,
                _ => result == Err::<(), InterpretError>(InterpretError::Runtime)
                    && final(self)@.stack == old(self)@.stack,
            }),
            result is Ok ==> final(self)@.stack.len() == old(self)@.stack.len()
                + Op::Negate.stack_effect(),
            result is Ok <==> old(self)@.stack.len() > 0,
    {
        match self.value_stack.pop() {
            Some(value) => {
                self.value_stack.push(value.negate());
                Ok(())
            },
            None => Err(InterpretError::Runtime),
        }
    }

    /// Fetches the next instruction and steps behind it.
    pub fn next_instruction(&mut self) -> (op: Op)
        requires
            old(self)@.ip < old(self)@.chunk.code.len(),
        ensures
            op == old(self)@.chunk.code[old(self)@.ip],
            final(self)@ == (Machine { ip: old(self)@.ip + 1, ..old(self)@ }),
            0 <= old(self)@.ip,
    {
        let op = self.chunk.code(self.ip).unwrap();
        self.ip += 1;
        op
    }
    /// Whether a `Return` stands at or behind the next instruction. Where one
    /// does, `interpret` may be called.
    pub fn has_return_ahead(&self) -> (found: bool)
        ensures
            found == self@.return_ahead(),
            found ==> self@.halts(),
    {
        let mut at: usize = self.ip;
        let mut found = false;
        loop
            invariant_except_break
                self@.ip <= at,
                forall|i: int|
                    self@.ip <= i < at && i < self@.chunk.code.len()
                        ==> #[trigger] self@.chunk.code[i] != Op::Return,
            ensures
                found == self@.return_ahead(),
                0 <= self@.ip,
            decreases self@.chunk.code.len() - at,
        {
            match self.chunk.code(at) {
                Some(Op::Return) => {
                    found = true;
                    break ;
                },
                Some(_) => {
                    at += 1;
                },
                None => {
                    found = false;
                    break ;
                },
            }
        }
        proof {
            if found {
                lemma_return_ahead_halts(self@);
            }
        }
        found
    }
}

} // verus!
