use vstd::prelude::*;
use crate::chunk::{names_constant, pool_view, Chunk};
use crate::globals::Globals;
use crate::opcode::{decode, from_u8, Opcode};
use crate::value::{equal_non_numbers, truthy, Val, Value};

verus! {

/// How a whole interpretation ended badly.
#[derive(Clone, Copy, Debug, PartialEq, Eq, Structural)]
pub enum InterpretError {
    CompileError,
    RuntimeError,
}

/// An operation on numbers that the host computes on IEEE-754 doubles.
#[derive(Clone, Copy, Debug, PartialEq, Eq, Structural)]
pub enum NumOp {
    Negate,
    Add,
    Subtract,
    Multiply,
    Divide,
    Mod,
    Equal,
    Greater,
    Less,
    BitwiseAnd,
    BitwiseOr,
}

/// What went wrong while executing an instruction.
#[derive(Clone, Debug)]
pub enum Fault {
    OperandNotNumber,
    OperandsNotNumbers,
    StackUnderflow,
    UndefinedVariable(String),
    GlobalNameNotString,
    BadConstant,
    BadSlot,
    CodeOverrun,
    UnknownOpcode(u8),
}

/// The mathematical form of a fault.
pub enum FaultV {
    OperandNotNumber,
    OperandsNotNumbers,
    StackUnderflow,
    UndefinedVariable(Seq<char>),
    GlobalNameNotString,
    BadConstant,
    BadSlot,
    CodeOverrun,
    UnknownOpcode(u8),
}

impl View for Fault {
    type V = FaultV;

    open spec fn view(&self) -> FaultV {
        match self {
            Fault::OperandNotNumber => FaultV::OperandNotNumber,
            Fault::OperandsNotNumbers => FaultV::OperandsNotNumbers,
            Fault::StackUnderflow => FaultV::StackUnderflow,
            Fault::UndefinedVariable(s) => FaultV::UndefinedVariable(s@),
            Fault::GlobalNameNotString => FaultV::GlobalNameNotString,
            Fault::BadConstant => FaultV::BadConstant,
            Fault::BadSlot => FaultV::BadSlot,
            Fault::CodeOverrun => FaultV::CodeOverrun,
            Fault::UnknownOpcode(b) => FaultV::UnknownOpcode(*b),
        }
    }
}

/// What one step of the machine asks of its host.
#[derive(Debug)]
pub enum Step {
    /// The instruction completed; nothing to do.
    Continue,
    /// A `Print` instruction consumed this value: render it.
    Output(Value),
    /// Compute this operation on the given bit patterns (the second is unused
    /// for `Negate`) and hand the result back with `resume`.
    Compute(NumOp, u64, u64),
    /// A soft error: report it with its line; execution goes on.
    Warn(Fault, usize),
    /// `Return` was executed: the run succeeded, with the value that was on
    /// top of the stack, if any.
    Done(Option<Value>),
    /// A fatal error with its line: the run failed.
    Fail(Fault, usize),
    /// The machine has already stopped; nothing was executed.
    Halted,
}

/// The mathematical form of a step.
pub enum StepV {
    Continue,
    Output(Val),
    Compute(NumOp, u64, u64),
    Warn(FaultV, usize),
    Done(Option<Val>),
    Fail(FaultV, usize),
    Halted,
}

impl View for Step {
    type V = StepV;

    open spec fn view(&self) -> StepV {
        match self {
            Step::Continue => StepV::Continue,
            Step::Output(v) => StepV::Output(v@),
            Step::Compute(op, a, b) => StepV::Compute(*op, *a, *b),
            Step::Warn(f, l) => StepV::Warn(f@, *l),
            Step::Done(v) => StepV::Done(
                match v {
                    Some(x) => Some(x@),
                    None => None,
                },
            ),
            Step::Fail(f, l) => StepV::Fail(f@, *l),
            Step::Halted => StepV::Halted,
        }
    }
}

/// The state of the machine.
pub struct VmState {
    pub ip: int,
    pub code: Seq<u8>,
    pub lines: Seq<usize>,
    pub constants: Seq<Val>,
    pub stack: Seq<Val>,
    pub globals: Map<Seq<char>, Val>,
    pub awaiting: bool,
    pub halted: bool,
}

/// The state in which a fresh machine starts on a chunk.
pub open spec fn initial_state(code: Seq<u8>, lines: Seq<usize>, constants: Seq<Val>) -> VmState {
    VmState {
        ip: 0,
        code,
        lines,
        constants,
        stack: Seq::empty(),
        globals: Map::empty(),
        awaiting: false,
        halted: false,
    }
}

/// The source line of byte `i`, or 0 where the line table has none.
pub open spec fn line_at(s: VmState, i: int) -> usize {
    if 0 <= i < s.lines.len() {
        s.lines[i]
    } else {
        0
    }
}

/// Stop with a fatal fault reported at the line of byte `at`, leaving the
/// stack and instruction pointer as the instruction had made them: what it
/// popped stays popped.
pub open spec fn fail(s: VmState, f: FaultV, at: int, stack: Seq<Val>, ip: int) -> (VmState, StepV) {
    (VmState { halted: true, stack, ip, ..s }, StepV::Fail(f, line_at(s, at)))
}

/// Continue with a new stack and instruction pointer.
pub open spec fn go(s: VmState, stack: Seq<Val>, ip: int) -> (VmState, StepV) {
    (VmState { stack, ip, ..s }, StepV::Continue)
}

pub open spec fn is_number(v: Val) -> bool {
    v is Number
}

pub open spec fn number_bits(v: Val) -> u64 {
    match v {
        Val::Number(n) => n,
        _ => 0,
    }
}

/// The host operation behind a two-operand instruction.
pub open spec fn binary_num_op(op: Opcode) -> NumOp {
    match op {
        Opcode::Add => NumOp::Add,
        Opcode::Subtract => NumOp::Subtract,
        Opcode::Multiply => NumOp::Multiply,
        Opcode::Divide => NumOp::Divide,
        Opcode::Mod => NumOp::Mod,
        Opcode::Greater => NumOp::Greater,
        Opcode::Less => NumOp::Less,
        Opcode::BitwiseAnd => NumOp::BitwiseAnd,
        _ => NumOp::BitwiseOr,
    }
}

/// Arithmetic, ordering and bitwise instructions: both operands must be numbers.
/// Otherwise the fault is only reported and the left operand is pushed back.
pub open spec fn numeric_binary(op: Opcode) -> bool {
    op == Opcode::Add || op == Opcode::Subtract || op == Opcode::Multiply || op == Opcode::Divide
        || op == Opcode::Mod || op == Opcode::Greater || op == Opcode::Less || op
        == Opcode::BitwiseAnd || op == Opcode::BitwiseOr
}

/// One step of execution, given the state before it. `SetGlobal` rebinds
/// the name to the value on top of the stack and leaves that value there, so
/// that an assignment is an expression with a value.
pub open spec fn step_spec(s: VmState) -> (VmState, StepV) {
    let at = s.ip;
    let n = s.stack.len();
    if s.halted {
        (s, StepV::Halted)
    } else if !(0 <= at < s.code.len()) {
        fail(s, FaultV::CodeOverrun, at - 1, s.stack, at)
    } else {
        let op = decode(s.code[at]);
        if op == Opcode::Return {
            let s2 = VmState { halted: true, ip: at + 1, ..s };
            if n == 0 {
                (s2, StepV::Done(None))
            } else {
                (VmState { stack: s.stack.drop_last(), ..s2 }, StepV::Done(Some(s.stack.last())))
            }
        } else if op == Opcode::Nil {
            go(s, s.stack.push(Val::Nil), at + 1)
        } else if op == Opcode::True {
            go(s, s.stack.push(Val::Bool(true)), at + 1)
        } else if op == Opcode::False {
            go(s, s.stack.push(Val::Bool(false)), at + 1)
        } else if op == Opcode::Negate || op == Opcode::Not || op == Opcode::Print || op
            == Opcode::Pop {
            if n < 1 {
                fail(s, FaultV::StackUnderflow, at, s.stack, at + 1)
            } else {
                let v = s.stack.last();
                let rest = s.stack.drop_last();
                if op == Opcode::Negate {
                    if is_number(v) {
                        (
                            VmState { stack: rest, ip: at + 1, awaiting: true, ..s },
                            StepV::Compute(NumOp::Negate, number_bits(v), 0),
                        )
                    } else {
                        fail(s, FaultV::OperandNotNumber, at, rest, at + 1)
                    }
                } else if op == Opcode::Not {
                    go(s, rest.push(Val::Bool(!truthy(v))), at + 1)
                } else if op == Opcode::Print {
                    (VmState { stack: rest, ip: at + 1, ..s }, StepV::Output(v))
                } else {
                    go(s, rest, at + 1)
                }
            }
        } else if numeric_binary(op) || op == Opcode::Equal || op == Opcode::LogicalAnd || op
            == Opcode::LogicalOr {
            if n < 2 {
                fail(s, FaultV::StackUnderflow, at, s.stack, at)
            } else {
                let b = s.stack.last();
                let a = s.stack[n - 2];
                let rest = s.stack.drop_last().drop_last();
                if op == Opcode::LogicalAnd {
                    go(s, rest.push(Val::Bool(truthy(a) && truthy(b))), at + 1)
                } else if op == Opcode::LogicalOr {
                    go(s, rest.push(Val::Bool(truthy(a) || truthy(b))), at + 1)
                } else if is_number(a) && is_number(b) {
                    let nop = if op == Opcode::Equal {
                        NumOp::Equal
                    } else {
                        binary_num_op(op)
                    };
                    (
                        VmState { stack: rest, ip: at + 1, awaiting: true, ..s },
                        StepV::Compute(nop, number_bits(a), number_bits(b)),
                    )
                } else if op == Opcode::Equal {
                    go(s, rest.push(Val::Bool(equal_non_numbers(a, b))), at + 1)
                } else {
                    (
                        VmState { stack: rest.push(a), ip: at + 1, ..s },
                        StepV::Warn(FaultV::OperandsNotNumbers, line_at(s, at)),
                    )
                }
            }
        } else if names_constant(op) {
            if at + 1 >= s.code.len() {
                fail(s, FaultV::CodeOverrun, at, s.stack, at + 1)
            } else {
                let idx = s.code[at + 1] as int;
                if idx >= s.constants.len() {
                    fail(s, FaultV::BadConstant, at, s.stack, at + 2)
                } else {
                    let c = s.constants[idx];
                    if op == Opcode::Constant {
                        go(s, s.stack.push(c), at + 2)
                    } else {
                        match c {
                            Val::Str(name) => {
                                if op == Opcode::GetGlobal {
                                    if s.globals.contains_key(name) {
                                        go(s, s.stack.push(s.globals[name]), at + 2)
                                    } else {
                                        fail(s, FaultV::UndefinedVariable(name), at, s.stack, at + 2)
                                    }
                                } else if op == Opcode::SetGlobal && !s.globals.contains_key(
                                    name,
                                ) {
                                    fail(s, FaultV::UndefinedVariable(name), at, s.stack, at + 2)
                                } else if n < 1 {
                                    fail(s, FaultV::StackUnderflow, at, s.stack, at + 2)
                                } else if op == Opcode::DefineGlobal {
                                    (
                                        VmState {
                                            stack: s.stack.drop_last(),
                                            ip: at + 2,
                                            globals: s.globals.insert(name, s.stack.last()),
                                            ..s
                                        },
                                        StepV::Continue,
                                    )
                                } else {
                                    (
                                        VmState {
                                            ip: at + 2,
                                            globals: s.globals.insert(name, s.stack.last()),
                                            ..s
                                        },
                                        StepV::Continue,
                                    )
                                }
                            },
                            _ => fail(s, FaultV::GlobalNameNotString, at, s.stack, at + 2),
                        }
                    }
                }
            }
        } else if op == Opcode::GetLocal || op == Opcode::SetLocal {
            if at + 1 >= s.code.len() {
                fail(s, FaultV::CodeOverrun, at, s.stack, at + 1)
            } else {
                let slot = s.code[at + 1] as int;
                if slot >= n {
                    fail(s, FaultV::BadSlot, at, s.stack, at + 2)
                } else if op == Opcode::GetLocal {
                    go(s, s.stack.push(s.stack[slot]), at + 2)
                } else {
                    go(s, s.stack.update(slot, s.stack.last()), at + 2)
                }
            }
        } else if op == Opcode::Jump || op == Opcode::JumpIfFalse {
            if at + 1 >= s.code.len() {
                fail(s, FaultV::CodeOverrun, at, s.stack, at + 1)
            } else if at + 2 >= s.code.len() {
                fail(s, FaultV::CodeOverrun, at, s.stack, at + 2)
            } else {
                let offset = s.code[at + 1] as int * 256 + s.code[at + 2] as int;
                let after = at + 3;
                if after + offset > s.code.len() {
                    fail(s, FaultV::CodeOverrun, at, s.stack, after)
                } else if op == Opcode::Jump {
                    go(s, s.stack, after + offset)
                } else if n < 1 {
                    fail(s, FaultV::StackUnderflow, at, s.stack, after)
                } else if truthy(s.stack.last()) {
                    go(s, s.stack.drop_last(), after)
                } else {
                    go(s, s.stack.drop_last(), after + offset)
                }
            }
        } else {
            fail(s, FaultV::UnknownOpcode(s.code[at]), at, s.stack, at)
        }
    }
}

/// A step from `s` to `t` reporting `r` is the one `step_spec` gives.
pub open spec fn step_agrees(s: VmState, t: VmState, r: StepV) -> bool {
    (t, r) == step_spec(s)
}

/// The stack machine: executes one chunk, one instruction per `step`.
pub struct Vm {
    ip: usize,
    chunk: Chunk,
    stack: Vec<Value>,
    globals: Globals,
    awaiting: bool,
    halted: bool,
}

pub open spec fn stack_view(s: Seq<Value>) -> Seq<Val> {
    s.map_values(|v: Value| v@)
}

impl View for Vm {
    type V = VmState;

    closed spec fn view(&self) -> VmState {
        VmState {
            ip: self.ip as int,
            code: self.chunk.code@,
            lines: self.chunk.lines@,
            constants: pool_view(self.chunk.constants@),
            stack: stack_view(self.stack@),
            globals: self.globals@,
            awaiting: self.awaiting,
            halted: self.halted,
        }
    }
}

impl Vm {
    /// A fresh machine at the start of `chunk`, with an empty stack and no globals.
    pub fn new(chunk: Chunk) -> (r: Vm)
        ensures
            r@ == initial_state(chunk.code@, chunk.lines@, pool_view(chunk.constants@)),
    {
        let r = Vm {
            ip: 0,
            chunk,
            stack: Vec::new(),
            globals: Globals::new(),
            awaiting: false,
            halted: false,
        };
        assert(stack_view(r.stack@) =~= Seq::<Val>::empty());
        r
    }

    /// Whether the machine waits for the result of a `Compute` step.
    pub fn awaiting_result(&self) -> (r: bool)
        ensures
            r == self@.awaiting,
    {
        self.awaiting
    }

    /// Whether the machine has stopped.
    pub fn is_halted(&self) -> (r: bool)
        ensures
            r == self@.halted,
    {
        self.halted
    }

    /// Hands back the result of a `Compute` step: it is pushed on the stack.
    pub fn resume(&mut self, result: Value)
        requires
            old(self)@.awaiting,
        ensures
            final(self)@ == (VmState {
                stack: old(self)@.stack.push(result@),
                awaiting: false,
                ..old(self)@
            }),
    {
        self.push(result);
        self.awaiting = false;
    }

    /// The byte at the instruction pointer, which then moves past it.
    fn read_byte(&mut self) -> (r: Option<u8>)
        ensures
            old(self).ip < old(self).chunk.code@.len() ==> r == Some(old(self).chunk.code@[old(self).ip as int])
                && final(self).ip == old(self).ip + 1,
            old(self).ip >= old(self).chunk.code@.len() ==> r is None && final(self).ip == old(self).ip,
            final(self).chunk == old(self).chunk,
            final(self).stack == old(self).stack,
            final(self).globals == old(self).globals,
            final(self).awaiting == old(self).awaiting,
            final(self).halted == old(self).halted,
    {
        if self.ip < self.chunk.code.len() {
            let byte = self.chunk.code[self.ip];
            self.ip = self.ip + 1;
            Some(byte)
        } else {
            None
        }
    }

    /// Reads the operand byte at the instruction pointer, moving past it, and
    /// returns the constant that the pool holds at that index.
    fn read_constant(&mut self) -> (r: Result<Value, Fault>)
        ensures
            final(self).chunk == old(self).chunk,
            final(self).stack == old(self).stack,
            final(self).globals == old(self).globals,
            final(self).awaiting == old(self).awaiting,
            final(self).halted == old(self).halted,
            old(self).ip >= old(self).chunk.code@.len() ==> final(self).ip == old(self).ip
                && r matches Err(Fault::CodeOverrun),
            old(self).ip < old(self).chunk.code@.len() ==> final(self).ip == old(self).ip + 1,
            old(self).ip < old(self).chunk.code@.len() ==> ({
                let i = old(self).chunk.code@[old(self).ip as int] as int;
                &&& i < old(self).chunk.constants@.len() ==> (r matches Ok(v) && v@ == old(self).chunk.constants@[i]@)
                &&& i >= old(self).chunk.constants@.len() ==> r matches Err(Fault::BadConstant)
            }),
    {
        let index = match self.read_byte() {
            Some(b) => b as usize,
            None => {
                return Err(Fault::CodeOverrun);
            },
        };
        if index < self.chunk.constants.len() {
            Ok(self.chunk.constants[index].duplicate())
        } else {
            Err(Fault::BadConstant)
        }
    }

    fn push(&mut self, value: Value)
        ensures
            stack_view(final(self).stack@) == stack_view(old(self).stack@).push(value@),
            final(self).ip == old(self).ip,
            final(self).chunk == old(self).chunk,
            final(self).globals == old(self).globals,
            final(self).awaiting == old(self).awaiting,
            final(self).halted == old(self).halted,
    {
        self.stack.push(value);
        assert(stack_view(self.stack@) =~= stack_view(old(self).stack@).push(value@));
    }

    fn pop(&mut self) -> (r: Option<Value>)
        ensures
            old(self).stack@.len() == 0 ==> r is None && final(self).stack@ == old(self).stack@,
            old(self).stack@.len() > 0 ==> (r matches Some(v) && v@ == stack_view(old(self).stack@).last()
                && stack_view(final(self).stack@) == stack_view(old(self).stack@).drop_last()),
            final(self).ip == old(self).ip,
            final(self).chunk == old(self).chunk,
            final(self).globals == old(self).globals,
            final(self).awaiting == old(self).awaiting,
            final(self).halted == old(self).halted,
    {
        if self.stack.len() == 0 {
            return None;
        }
        let r = self.stack.pop();
        assert(stack_view(self.stack@) =~= stack_view(old(self).stack@).drop_last());
        r
    }
}


impl Vm {
    /// The source line of byte `i`, or 0 where the line table has none.
    fn line_of(&self, i: usize) -> (r: usize)
        ensures
            r == line_at(self@, i as int),
    {
        if i < self.chunk.lines.len() {
            self.chunk.lines[i]
        } else {
            0
        }
    }

    /// Stops the machine with a fatal fault reported at line `line`.
    fn halt(&mut self, fault: Fault, line: usize) -> (r: Step)
        ensures
            final(self)@ == (VmState { halted: true, ..old(self)@ }),
            r@ == StepV::Fail(fault@, line),
    {
        self.halted = true;
        Step::Fail(fault, line)
    }

    /// Executes one instruction, or reports why it cannot.
    pub fn step(&mut self) -> (r: Step)
        requires
            !old(self)@.awaiting,
        ensures
            step_agrees(old(self)@, final(self)@, r@),
    {
        if self.halted {
            return Step::Halted;
        }
        if self.ip >= self.chunk.code.len() {
            let line = if self.ip == 0 {
                0
            } else {
                self.line_of(self.ip - 1)
            };
            return self.halt(Fault::CodeOverrun, line);
        }
        let op = from_u8(self.chunk.code[self.ip]);
        match op {
            Opcode::Return => {
                self.ip = self.ip + 1;
                self.halted = true;
                let top = self.pop();
                Step::Done(top)
            },
            Opcode::Nil | Opcode::True | Opcode::False => {
                self.ip = self.ip + 1;
                let v = match op {
                    Opcode::Nil => Value::Nil,
                    Opcode::True => Value::Bool(true),
                    _ => Value::Bool(false),
                };
                self.push(v);
                Step::Continue
            },
            Opcode::Negate | Opcode::Not | Opcode::Print | Opcode::Pop => self.exec_one_operand(op),
            Opcode::Add | Opcode::Subtract | Opcode::Multiply | Opcode::Divide | Opcode::Mod
            | Opcode::Greater | Opcode::Less | Opcode::BitwiseAnd | Opcode::BitwiseOr
            | Opcode::Equal | Opcode::LogicalAnd | Opcode::LogicalOr => self.exec_two_operands(op),
            Opcode::Constant | Opcode::DefineGlobal | Opcode::GetGlobal | Opcode::SetGlobal => {
                self.exec_named(op)
            },
            Opcode::GetLocal | Opcode::SetLocal => self.exec_local(op),
            Opcode::Jump | Opcode::JumpIfFalse => self.exec_jump(op),
            Opcode::Unknown => {
                let byte = self.chunk.code[self.ip];
                let line = self.line_of(self.ip);
                self.halt(Fault::UnknownOpcode(byte), line)
            },
        }
    }

    fn exec_one_operand(&mut self, op: Opcode) -> (r: Step)
        requires
            !old(self)@.halted,
            !old(self)@.awaiting,
            0 <= old(self)@.ip < old(self)@.code.len(),
            op == decode(old(self)@.code[old(self)@.ip]),
            op == Opcode::Negate || op == Opcode::Not || op == Opcode::Print || op == Opcode::Pop,
        ensures
            step_agrees(old(self)@, final(self)@, r@),
    {
        let line = self.line_of(self.ip);
        assert(self.ip < self.chunk.code.len());
        self.ip = self.ip + 1;
        let v = match self.pop() {
            Some(v) => v,
            None => {
                return self.halt(Fault::StackUnderflow, line);
            },
        };
        match op {
            Opcode::Negate => match v {
                Value::Number(n) => {
                    self.awaiting = true;
                    Step::Compute(NumOp::Negate, n, 0)
                },
                _ => self.halt(Fault::OperandNotNumber, line),
            },
            Opcode::Not => {
                let t = v.is_truthy();
                self.push(Value::Bool(!t));
                Step::Continue
            },
            Opcode::Print => Step::Output(v),
            _ => Step::Continue,
        }
    }

    fn exec_two_operands(&mut self, op: Opcode) -> (r: Step)
        requires
            !old(self)@.halted,
            !old(self)@.awaiting,
            0 <= old(self)@.ip < old(self)@.code.len(),
            op == decode(old(self)@.code[old(self)@.ip]),
            numeric_binary(op) || op == Opcode::Equal || op == Opcode::LogicalAnd || op
                == Opcode::LogicalOr,
        ensures
            step_agrees(old(self)@, final(self)@, r@),
    {
        let ghost s0 = self@;
        let line = self.line_of(self.ip);
        if self.stack.len() < 2 {
            return self.halt(Fault::StackUnderflow, line);
        }
        assert(self.ip < self.chunk.code.len());
        self.ip = self.ip + 1;
        let b = match self.pop() {
            Some(v) => v,
            None => {
                return self.halt(Fault::StackUnderflow, line);
            },
        };
        let a = match self.pop() {
            Some(v) => v,
            None => {
                return self.halt(Fault::StackUnderflow, line);
            },
        };
        assert(a@ == s0.stack[s0.stack.len() - 2]);
        match op {
            Opcode::LogicalAnd => {
                let t = a.is_truthy() && b.is_truthy();
                self.push(Value::Bool(t));
                return Step::Continue;
            },
            Opcode::LogicalOr => {
                let t = a.is_truthy() || b.is_truthy();
                self.push(Value::Bool(t));
                return Step::Continue;
            },
            _ => {},
        }
        match (&a, &b) {
            (Value::Number(x), Value::Number(y)) => {
                let nop = match op {
                    Opcode::Equal => NumOp::Equal,
                    Opcode::Add => NumOp::Add,
                    Opcode::Subtract => NumOp::Subtract,
                    Opcode::Multiply => NumOp::Multiply,
                    Opcode::Divide => NumOp::Divide,
                    Opcode::Mod => NumOp::Mod,
                    Opcode::Greater => NumOp::Greater,
                    Opcode::Less => NumOp::Less,
                    Opcode::BitwiseAnd => NumOp::BitwiseAnd,
                    _ => NumOp::BitwiseOr,
                };
                self.awaiting = true;
                return Step::Compute(nop, *x, *y);
            },
            _ => {},
        }
        if op == Opcode::Equal {
            let t = a.equals_non_number(&b);
            self.push(Value::Bool(t));
            Step::Continue
        } else {
            self.push(a);
            Step::Warn(Fault::OperandsNotNumbers, line)
        }
    }

    fn exec_named(&mut self, op: Opcode) -> (r: Step)
        requires
            !old(self)@.halted,
            !old(self)@.awaiting,
            0 <= old(self)@.ip < old(self)@.code.len(),
            op == decode(old(self)@.code[old(self)@.ip]),
            names_constant(op),
        ensures
            step_agrees(old(self)@, final(self)@, r@),
    {
        let ghost s0 = self@;
        let line = self.line_of(self.ip);
        assert(self.ip < self.chunk.code.len());
        self.ip = self.ip + 1;
        let c = match self.read_constant() {
            Ok(c) => c,
            Err(f) => {
                return self.halt(f, line);
            },
        };
        if op == Opcode::Constant {
            self.push(c);
            return Step::Continue;
        }
        let name = match c {
            Value::Str(name) => name,
            _ => {
                return self.halt(Fault::GlobalNameNotString, line);
            },
        };
        let found = self.globals.get(&name);
        if op == Opcode::GetGlobal {
            return match found {
                Some(v) => {
                    self.push(v);
                    Step::Continue
                },
                None => self.halt(Fault::UndefinedVariable(name), line),
            };
        }
        if op == Opcode::SetGlobal && found.is_none() {
            return self.halt(Fault::UndefinedVariable(name), line);
        }
        let n = self.stack.len();
        if n < 1 {
            return self.halt(Fault::StackUnderflow, line);
        }
        if op == Opcode::DefineGlobal {
            let v = match self.pop() {
                Some(v) => v,
                None => {
                    return self.halt(Fault::StackUnderflow, line);
                },
            };
            self.globals.set(name, v);
        } else {
            let v = self.stack[n - 1].duplicate();
            self.globals.set(name, v);
        }
        Step::Continue
    }

    fn exec_local(&mut self, op: Opcode) -> (r: Step)
        requires
            !old(self)@.halted,
            !old(self)@.awaiting,
            0 <= old(self)@.ip < old(self)@.code.len(),
            op == decode(old(self)@.code[old(self)@.ip]),
            op == Opcode::GetLocal || op == Opcode::SetLocal,
        ensures
            step_agrees(old(self)@, final(self)@, r@),
    {
        let line = self.line_of(self.ip);
        assert(self.ip < self.chunk.code.len());
        self.ip = self.ip + 1;
        let slot = match self.read_byte() {
            Some(b) => b as usize,
            None => {
                return self.halt(Fault::CodeOverrun, line);
            },
        };
        let n = self.stack.len();
        if slot >= n {
            return self.halt(Fault::BadSlot, line);
        }
        if op == Opcode::GetLocal {
            let v = self.stack[slot].duplicate();
            self.push(v);
        } else {
            let ghost before = self.stack@;
            let v = self.stack[n - 1].duplicate();
            self.stack.set(slot, v);
            assert(stack_view(self.stack@) =~= stack_view(before).update(
                slot as int,
                stack_view(before).last(),
            ));
        }
        Step::Continue
    }

    fn exec_jump(&mut self, op: Opcode) -> (r: Step)
        requires
            !old(self)@.halted,
            !old(self)@.awaiting,
            0 <= old(self)@.ip < old(self)@.code.len(),
            op == decode(old(self)@.code[old(self)@.ip]),
            op == Opcode::Jump || op == Opcode::JumpIfFalse,
        ensures
            step_agrees(old(self)@, final(self)@, r@),
    {
        let line = self.line_of(self.ip);
        assert(self.ip < self.chunk.code.len());
        self.ip = self.ip + 1;
        let hi = match self.read_byte() {
            Some(b) => b as usize,
            None => {
                return self.halt(Fault::CodeOverrun, line);
            },
        };
        let lo = match self.read_byte() {
            Some(b) => b as usize,
            None => {
                return self.halt(Fault::CodeOverrun, line);
            },
        };
        let offset = hi * 256 + lo;
        let after = self.ip;
        if offset > self.chunk.code.len() - after {
            return self.halt(Fault::CodeOverrun, line);
        }
        if op == Opcode::Jump {
            self.ip = after + offset;
            return Step::Continue;
        }
        let cond = match self.pop() {
            Some(v) => v,
            None => {
                return self.halt(Fault::StackUnderflow, line);
            },
        };
        if !cond.is_truthy() {
            self.ip = after + offset;
        }
        Step::Continue
    }
}

} // verus!
