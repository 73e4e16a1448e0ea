use vstd::prelude::*;
use crate::opcode::{byte_of, Opcode};
use crate::parser::{is_literal, literal_code, literal_constants, literal_value};
use crate::token::TokenType;
use crate::value::{truthy, Val};
use crate::vm::{initial_state, step_spec, FaultV, StepV, VmState};

verus! {

/// The steps a machine takes from `s`, for at most `fuel` steps, when the host
/// answers its `Compute` requests with `replies` in order. The sequence ends
/// early when a reply is missing.
pub open spec fn run_trace(s: VmState, replies: Seq<Val>, fuel: nat) -> Seq<StepV>
    decreases fuel,
{
    if fuel == 0 {
        Seq::empty()
    } else {
        let (t, r) = step_spec(s);
        match r {
            StepV::Compute(_, _, _) => if replies.len() == 0 {
                seq![r]
            } else {
                let t2 = VmState { stack: t.stack.push(replies[0]), awaiting: false, ..t };
                seq![r] + run_trace(t2, replies.drop_first(), (fuel - 1) as nat)
            },
            _ => seq![r] + run_trace(t, replies, (fuel - 1) as nat),
        }
    }
}

/// A machine that has stopped stays stopped and executes nothing more.
pub proof fn lemma_halted_is_final(s: VmState)
    requires
        s.halted,
    ensures
        step_spec(s) == (s, StepV::Halted),
{
}

/// A `Return` or a fatal fault stops the machine.
pub proof fn lemma_stop_halts(s: VmState)
    requires
        step_spec(s).1 is Done || step_spec(s).1 is Fail,
    ensures
        step_spec(s).0.halted,
{
}

/// Every step after the one that stopped the machine reports `Halted`: a chunk
/// is executed once, to completion or to failure.
pub proof fn lemma_trace_after_stop(s: VmState, replies: Seq<Val>, fuel: nat)
    requires
        s.halted,
    ensures
        forall|i: int| 0 <= i < run_trace(s, replies, fuel).len() ==> #[trigger] run_trace(s, replies, fuel)[i] == StepV::Halted,
        run_trace(s, replies, fuel).len() == fuel,
    decreases fuel,
{
    if fuel > 0 {
        lemma_trace_after_stop(s, replies, (fuel - 1) as nat);
        let rest = run_trace(s, replies, (fuel - 1) as nat);
        assert(run_trace(s, replies, fuel) == seq![StepV::Halted] + rest);
    }
}

/// What a literal `print` statement compiles to (see `Parser::compile`)
/// prints the literal's value, then finishes with an empty stack.
pub proof fn lemma_print_literal(t: TokenType, lines: Seq<usize>)
    requires
        is_literal(t),
    ensures
        ({
            let code = literal_code(t, 0) + seq![byte_of(Opcode::Print), byte_of(Opcode::Return)];
            run_trace(initial_state(code, lines, literal_constants(t)), Seq::empty(), 4) == seq![
                StepV::Continue,
                StepV::Output(literal_value(t)),
                StepV::Done(None),
                StepV::Halted,
            ]
        }),
{
    let code = literal_code(t, 0) + seq![byte_of(Opcode::Print), byte_of(Opcode::Return)];
    let s0 = initial_state(code, lines, literal_constants(t));
    let v = literal_value(t);
    let s1 = step_spec(s0).0;
    if t is Number || t is Str {
        assert(code =~= seq![byte_of(Opcode::Constant), 0u8, byte_of(Opcode::Print), byte_of(Opcode::Return)]);
        assert(s1.ip == 2);
    } else {
        assert(code.len() == 3);
        assert(code[1] == byte_of(Opcode::Print));
        assert(code[2] == byte_of(Opcode::Return));
        assert(s1.ip == 1);
    }
    assert(step_spec(s0).1 == StepV::Continue);
    assert(s1.stack =~= seq![v]);
    let s2 = step_spec(s1).0;
    assert(step_spec(s1).1 == StepV::Output(v));
    assert(s2.stack =~= Seq::<Val>::empty());
    let s3 = step_spec(s2).0;
    assert(step_spec(s2).1 == StepV::Done(None));
    assert(s3.halted);
    assert(step_spec(s3) == (s3, StepV::Halted));
    assert(run_trace(s3, Seq::empty(), 0) =~= Seq::<StepV>::empty());
    assert(run_trace(s3, Seq::empty(), 1) =~= seq![StepV::Halted]);
    assert(run_trace(s2, Seq::empty(), 2) =~= seq![StepV::Done(None), StepV::Halted]);
    assert(run_trace(s1, Seq::empty(), 3) =~= seq![StepV::Output(v), StepV::Done(None), StepV::Halted]);
    assert(run_trace(s0, Seq::empty(), 4) =~= seq![
        StepV::Continue,
        StepV::Output(v),
        StepV::Done(None),
        StepV::Halted,
    ]);
}

/// The machine is about to run the instruction `op` with operand byte `operand`.
pub open spec fn at_instruction(s: VmState, op: Opcode, operand: u8) -> bool {
    &&& !s.halted
    &&& 0 <= s.ip
    &&& s.ip + 1 < s.code.len()
    &&& s.code[s.ip] == byte_of(op)
    &&& s.code[s.ip + 1] == operand
}

/// Reading a global that was never bound is a fatal fault naming it, and
/// nothing is printed.
pub proof fn lemma_undefined_global(s: VmState, index: u8, name: Seq<char>)
    requires
        at_instruction(s, Opcode::GetGlobal, index),
        (index as int) < s.constants.len(),
        s.constants[index as int] == Val::Str(name),
        !s.globals.contains_key(name),
    ensures
        step_spec(s).1 matches StepV::Fail(f, _) && f == FaultV::UndefinedVariable(name),
        step_spec(s).0.halted,
{
}

/// Defining a global binds the value on top of the stack; reading it back
/// pushes that value.
pub proof fn lemma_define_then_get(s: VmState, index: u8, name: Seq<char>)
    requires
        at_instruction(s, Opcode::DefineGlobal, index),
        s.ip + 3 < s.code.len(),
        s.code[s.ip + 2] == byte_of(Opcode::GetGlobal),
        s.code[s.ip + 3] == index,
        (index as int) < s.constants.len(),
        s.constants[index as int] == Val::Str(name),
        s.stack.len() > 0,
    ensures
        ({
            let (t, r) = step_spec(s);
            let (u, r2) = step_spec(t);
            &&& r == StepV::Continue
            &&& t.globals == s.globals.insert(name, s.stack.last())
            &&& r2 == StepV::Continue
            &&& u.stack == s.stack.drop_last().push(s.stack.last())
        }),
{
    let t = step_spec(s).0;
    assert(t.ip == s.ip + 2);
    assert(t.globals.contains_key(name));
}

/// `Pop` discards the value on top of the stack and leaves the rest alone.
pub proof fn lemma_pop_discards(s: VmState)
    requires
        !s.halted,
        0 <= s.ip < s.code.len(),
        s.code[s.ip] == byte_of(Opcode::Pop),
        s.stack.len() > 0,
    ensures
        step_spec(s).1 == StepV::Continue,
        step_spec(s).0.stack == s.stack.drop_last(),
{
}

/// `Not` pushes the negated truthiness of the value it pops.
pub proof fn lemma_not_negates(s: VmState)
    requires
        !s.halted,
        0 <= s.ip < s.code.len(),
        s.code[s.ip] == byte_of(Opcode::Not),
        s.stack.len() > 0,
    ensures
        step_spec(s).1 == StepV::Continue,
        step_spec(s).0.stack == s.stack.drop_last().push(Val::Bool(!truthy(s.stack.last()))),
{
}

} // verus!
