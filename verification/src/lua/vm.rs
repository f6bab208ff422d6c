//! The meaning of bytecode: a stack machine with 32 stack cells and 16 locals.
use vstd::prelude::*;
use crate::lua::compiler::Op;

verus! {

/// Maximum depth of the value stack.
pub const STACK_CAPACITY: usize = 32;

/// Number of local-variable slots.
pub const LOCAL_COUNT: usize = 16;

/// A value on the stack or in a local slot.
#[derive(PartialEq, Eq, Structural, Debug, Clone, Copy)]
pub enum Value {
    Integer(i64),
    /// The string `source[start..start + length]`.
    String(usize, usize),
    Nil,
}

/// What a program printed: an integer, or the bytes of a string.
pub enum Printed {
    Integer(i64),
    Text(Seq<u8>),
}

/// The machine between two instructions.
pub struct Machine {
    pub stack: Seq<Value>,
    pub locals: Seq<Value>,
    pub printed: Seq<Printed>,
}

/// The effect of one instruction.
pub enum Step {
    /// Go on with the next instruction.
    Next(Machine),
    /// The program ended normally.
    Stop(Machine),
    /// The program failed with an error, after printing what it printed.
    Fail(Seq<Printed>, &'static str),
    /// The program divided `i64::MIN` by `-1`.
    Trap(Seq<Printed>),
}

/// The outcome of a whole run.
pub enum Run {
    /// What was printed, and whether the run ended without error.
    Done(Seq<Printed>, Result<(), &'static str>),
    /// The run reached a division of `i64::MIN` by `-1`, after printing.
    Trap(Seq<Printed>),
}

pub open spec fn initial_machine() -> Machine {
    Machine { stack: Seq::empty(), locals: Seq::new(LOCAL_COUNT as nat, |i: int| Value::Nil), printed: Seq::empty() }
}

pub open spec fn push(m: Machine, v: Value) -> Step {
    if m.stack.len() >= STACK_CAPACITY {
        Step::Fail(m.printed, "VM stack overflow")
    } else {
        Step::Next(Machine { stack: m.stack.push(v), ..m })
    }
}

pub open spec fn popped(m: Machine) -> Machine {
    Machine { stack: m.stack.drop_last(), ..m }
}

/// The result of an arithmetic instruction on two integers.
pub open spec fn arithmetic(op: Op, left: i64, right: i64) -> Option<Result<i64, &'static str>> {
    match op {
        Op::Add => Some(Ok(left.wrapping_add(right))),
        Op::Subtract => Some(Ok(left.wrapping_sub(right))),
        Op::Multiply => Some(Ok(left.wrapping_mul(right))),
        _ => if right == 0 {
            Some(Err("division by zero"))
        } else {
            match left.checked_div(right) {
                Some(q) => Some(Ok(q)),
                None => None,
            }
        },
    }
}

/// The effect of `op` on `m`; `s` is the source that string values refer to.
pub open spec fn step(s: Seq<u8>, m: Machine, op: Op) -> Step {
    match op {
        Op::PushInteger(v) => push(m, Value::Integer(v)),
        Op::PushString(start, length) => push(m, Value::String(start, length)),
        Op::Load(slot) => push(m, m.locals[slot as int]),
        Op::Store(slot) => if m.stack.len() == 0 {
            Step::Fail(m.printed, "VM stack underflow")
        } else {
            Step::Next(Machine { locals: m.locals.update(slot as int, m.stack.last()), ..popped(m) })
        },
        Op::Negate => if m.stack.len() == 0 {
            Step::Fail(m.printed, "VM stack underflow")
        } else {
            match m.stack.last() {
                Value::Integer(v) => push(popped(m), Value::Integer(0i64.wrapping_sub(v))),
                _ => Step::Fail(m.printed, "unary minus expects an integer"),
            }
        },
        Op::Add | Op::Subtract | Op::Multiply | Op::Divide => if m.stack.len() == 0 {
            Step::Fail(m.printed, "VM stack underflow")
        } else {
            match m.stack.last() {
                Value::Integer(right) => {
                    let m1 = popped(m);
                    if m1.stack.len() == 0 {
                        Step::Fail(m.printed, "VM stack underflow")
                    } else {
                        match m1.stack.last() {
                            Value::Integer(left) => match arithmetic(op, left, right) {
                                Some(Ok(value)) => push(popped(m1), Value::Integer(value)),
                                Some(Err(e)) => Step::Fail(m.printed, e),
                                None => Step::Trap(m.printed),
                            },
                            _ => Step::Fail(m.printed, "arithmetic expects integers"),
                        }
                    }
                },
                _ => Step::Fail(m.printed, "arithmetic expects integers"),
            }
        },
        Op::Print => if m.stack.len() == 0 {
            Step::Fail(m.printed, "VM stack underflow")
        } else {
            match m.stack.last() {
                Value::Integer(v) => Step::Next(
                    Machine { printed: m.printed.push(Printed::Integer(v)), ..popped(m) },
                ),
                Value::String(start, length) => Step::Next(
                    Machine {
                        printed: m.printed.push(Printed::Text(s.subrange(start as int, start + length))),
                        ..popped(m)
                    },
                ),
                Value::Nil => Step::Fail(m.printed, "cannot print nil"),
            }
        },
        Op::Return => Step::Stop(m),
        Op::Halt => Step::Stop(m),
    }
}

/// Arithmetic on the two integers on top of the stack, `left` below
/// `right`: they are replaced by their sum, difference or product (when it
/// fits in 64 bits), or by their quotient rounded toward zero; dividing by
/// zero fails.
pub proof fn lemma_arithmetic(s: Seq<u8>, m: Machine, left: i64, right: i64)
    requires
        m.stack.len() >= 2,
        m.stack.len() <= STACK_CAPACITY,
        m.stack[m.stack.len() - 2] == Value::Integer(left),
        m.stack[m.stack.len() - 1] == Value::Integer(right),
    ensures
        ({
            let rest = m.stack.subrange(0, m.stack.len() - 2);
            let gives = |v: int| Step::Next(Machine { stack: rest.push(Value::Integer(v as i64)), ..m });
            &&& i64::MIN <= left + right <= i64::MAX ==> step(s, m, Op::Add) == gives(left + right)
            &&& i64::MIN <= left - right <= i64::MAX ==> step(s, m, Op::Subtract) == gives(left - right)
            &&& i64::MIN <= left * right <= i64::MAX ==> step(s, m, Op::Multiply) == gives(left * right)
            &&& right == 0 ==> step(s, m, Op::Divide) == Step::Fail(m.printed, "division by zero")
            &&& left >= 0 && right > 0 ==> step(s, m, Op::Divide) == gives(left as int / right as int)
            &&& left < 0 && right > 0 ==> step(s, m, Op::Divide) == gives(-((-(left as int)) / right as int))
            &&& left >= 0 && right < 0 ==> step(s, m, Op::Divide) == gives(-(left as int / (-(right as int))))
            &&& left < 0 && right < 0 && !(left == i64::MIN && right == -1) ==> step(s, m, Op::Divide)
                == gives((-(left as int)) / (-(right as int)))
        }),
{
    let rest = m.stack.subrange(0, m.stack.len() - 2);
    assert(m.stack.drop_last().drop_last() =~= rest);
    assert(m.stack.drop_last().last() == Value::Integer(left));
    if left < 0 && right < 0 && !(left == i64::MIN && right == -1) {
        let a: int = -(left as int);
        let b: int = -(right as int);
        assert(a / b <= i64::MAX) by (nonlinear_arith)
            requires
                1 <= a <= 0x8000_0000_0000_0000,
                b >= 1,
                !(a == 0x8000_0000_0000_0000 && b == 1),
        ;
    }
}

/// Storing the top of the stack into a slot and loading that slot again
/// leaves the stack as it was, with the value kept in the slot.
pub proof fn lemma_store_then_load(s: Seq<u8>, m: Machine, slot: u8)
    requires
        1 <= m.stack.len() <= STACK_CAPACITY,
        slot < LOCAL_COUNT,
        m.locals.len() == LOCAL_COUNT,
    ensures
        step(s, m, Op::Store(slot)) matches Step::Next(m1) && step(s, m1, Op::Load(slot)) == Step::Next(
            Machine { locals: m.locals.update(slot as int, m.stack.last()), ..m },
        ),
{
    let m1 = Machine { locals: m.locals.update(slot as int, m.stack.last()), ..popped(m) };
    assert(m1.stack.push(m.stack.last()) =~= m.stack);
}

/// Runs `code` from instruction `pc` on machine `m`; running past the last
/// instruction ends the run normally.
pub open spec fn run_from(s: Seq<u8>, code: Seq<Op>, pc: int, m: Machine) -> Run
    decreases code.len() - pc,
{
    if pc < 0 || pc >= code.len() {
        Run::Done(m.printed, Ok(()))
    } else {
        match step(s, m, code[pc]) {
            Step::Next(m1) => run_from(s, code, pc + 1, m1),
            Step::Stop(m1) => Run::Done(m1.printed, Ok(())),
            Step::Fail(printed, e) => Run::Done(printed, Err(e)),
            Step::Trap(printed) => Run::Trap(printed),
        }
    }
}

/// How many values an instruction takes off the stack.
pub open spec fn pops(op: Op) -> int {
    match op {
        Op::Store(_) | Op::Negate | Op::Print => 1,
        Op::Add | Op::Subtract | Op::Multiply | Op::Divide => 2,
        _ => 0,
    }
}

/// How an instruction changes the depth of the stack when it goes on.
pub open spec fn effect(op: Op) -> int {
    match op {
        Op::PushInteger(_) | Op::PushString(_, _) | Op::Load(_) => 1,
        Op::Store(_) | Op::Print => -1,
        Op::Add | Op::Subtract | Op::Multiply | Op::Divide => -1,
        _ => 0,
    }
}

/// The depth of the stack before instruction `k`, when the instructions
/// before it ran in order from an empty stack.
pub open spec fn depth(code: Seq<Op>, k: int) -> int
    decreases k,
{
    if k <= 0 {
        0
    } else {
        depth(code, k - 1) + effect(code[k - 1])
    }
}

/// Run in order with `lift` values below their own, the instructions
/// `code[from..to]` never take more values than the stack holds.
pub open spec fn stack_safe(code: Seq<Op>, from: int, to: int, lift: int) -> bool {
    forall|k: int| from <= k < to ==> depth(code, k) - depth(code, from) + lift >= pops(#[trigger] code[k])
}

/// Run from an empty stack, `code` never takes more values than the stack
/// holds.
pub open spec fn never_underflows(code: Seq<Op>) -> bool {
    stack_safe(code, 0, code.len() as int, 0)
}

/// The messages a run can fail with, other than running out of stack.
proof fn lemma_error_messages()
    ensures
        "VM stack overflow" != "VM stack underflow",
        "unary minus expects an integer" != "VM stack underflow",
        "arithmetic expects integers" != "VM stack underflow",
        "division by zero" != "VM stack underflow",
        "cannot print nil" != "VM stack underflow",
{
    reveal_strlit("VM stack overflow");
    reveal_strlit("VM stack underflow");
    reveal_strlit("unary minus expects an integer");
    reveal_strlit("arithmetic expects integers");
    reveal_strlit("division by zero");
    reveal_strlit("cannot print nil");
    assert("VM stack overflow"@.len() != "VM stack underflow"@.len());
    assert("unary minus expects an integer"@.len() != "VM stack underflow"@.len());
    assert("arithmetic expects integers"@.len() != "VM stack underflow"@.len());
    assert("division by zero"@.len() != "VM stack underflow"@.len());
    assert("cannot print nil"@.len() != "VM stack underflow"@.len());
}

/// One instruction on a stack deep enough for it does not run out of
/// stack, and when it goes on it changes the depth by its effect.
proof fn lemma_step_depth(s: Seq<u8>, m: Machine, op: Op)
    requires
        m.stack.len() >= pops(op),
    ensures
        step(s, m, op) matches Step::Next(m1) ==> m1.stack.len() == m.stack.len() + effect(op),
        step(s, m, op) matches Step::Fail(_, e) ==> e != "VM stack underflow",
{
    lemma_error_messages();
}

/// From instruction `pc` on, with the stack as deep as the code says, a
/// run whose instructions never take more than the stack holds does not
/// fail for want of stack.
proof fn lemma_run_from_depth(s: Seq<u8>, code: Seq<Op>, pc: int, m: Machine)
    requires
        0 <= pc,
        m.stack.len() == depth(code, pc),
        stack_safe(code, 0, code.len() as int, 0),
    ensures
        run_from(s, code, pc, m) matches Run::Done(_, Err(e)) ==> e != "VM stack underflow",
    decreases code.len() - pc,
{
    if pc < code.len() {
        let op = code[pc];
        assert(depth(code, pc) - depth(code, 0) + 0 >= pops(op));
        lemma_step_depth(s, m, op);
        match step(s, m, op) {
            Step::Next(m1) => {
                lemma_run_from_depth(s, code, pc + 1, m1);
            },
            _ => {},
        }
    }
}

/// Code that never takes more than the stack holds runs without failing
/// for want of stack.
pub proof fn lemma_no_underflow(s: Seq<u8>, code: Seq<Op>)
    requires
        never_underflows(code),
    ensures
        spec_run(s, code) matches Run::Done(_, Err(e)) ==> e != "VM stack underflow",
{
    lemma_run_from_depth(s, code, 0, initial_machine());
}

/// `code[j]` stores into slot `slot` for some `j` before `i`.
pub open spec fn stored_before(code: Seq<Op>, slot: u8, i: int) -> bool {
    exists|j: int| 0 <= j < i && #[trigger] code[j] == Op::Store(slot)
}

/// Every load in `code` reads a slot that an earlier instruction stored.
#[verifier::opaque]
pub open spec fn loads_stored(code: Seq<Op>) -> bool {
    forall|i: int|
        0 <= i < code.len() ==> (#[trigger] code[i] matches Op::Load(slot) ==> stored_before(
            code,
            slot,
            i,
        ))
}

/// No value on the stack is nil, and every slot stored by an instruction
/// before `pc` holds a value that is not nil.
pub open spec fn no_nil(code: Seq<Op>, pc: int, m: Machine) -> bool {
    &&& forall|i: int| 0 <= i < m.stack.len() ==> #[trigger] m.stack[i] != Value::Nil
    &&& m.locals.len() == LOCAL_COUNT
    &&& forall|slot: u8|
        #![trigger stored_before(code, slot, pc)]
        slot < LOCAL_COUNT && stored_before(code, slot, pc) ==> m.locals[slot as int] != Value::Nil
}

/// The messages a run can fail with, other than printing nil.
proof fn lemma_nil_message()
    ensures
        "VM stack overflow" != "cannot print nil",
        "VM stack underflow" != "cannot print nil",
        "unary minus expects an integer" != "cannot print nil",
        "arithmetic expects integers" != "cannot print nil",
        "division by zero" != "cannot print nil",
{
    reveal_strlit("VM stack overflow");
    reveal_strlit("VM stack underflow");
    reveal_strlit("unary minus expects an integer");
    reveal_strlit("arithmetic expects integers");
    reveal_strlit("division by zero");
    reveal_strlit("cannot print nil");
    assert("VM stack overflow"@.len() != "cannot print nil"@.len());
    assert("VM stack underflow"@.len() != "cannot print nil"@.len());
    assert("unary minus expects an integer"@.len() != "cannot print nil"@.len());
    assert("arithmetic expects integers"@.len() != "cannot print nil"@.len());
    assert("division by zero"@[0] != "cannot print nil"@[0]);
}

/// From instruction `pc` on, with no nil on the stack and the stored slots
/// set, a run of code whose loads follow stores never prints nil.
proof fn lemma_run_from_no_nil(s: Seq<u8>, code: Seq<Op>, pc: int, m: Machine)
    requires
        0 <= pc,
        loads_stored(code),
        forall|i: int| 0 <= i < code.len() ==> (#[trigger] code[i] matches Op::Load(slot) ==> slot < LOCAL_COUNT),
        forall|i: int| 0 <= i < code.len() ==> (#[trigger] code[i] matches Op::Store(slot) ==> slot < LOCAL_COUNT),
        no_nil(code, pc, m),
    ensures
        run_from(s, code, pc, m) matches Run::Done(_, Err(e)) ==> e != "cannot print nil",
    decreases code.len() - pc,
{
    reveal(loads_stored);
    lemma_nil_message();
    if pc < code.len() {
        let op = code[pc];
        match step(s, m, op) {
            Step::Next(m1) => {
                assert forall|slot: u8|
                    #![trigger stored_before(code, slot, pc + 1)]
                    slot < LOCAL_COUNT && stored_before(code, slot, pc + 1) implies m1.locals[slot as int]
                        != Value::Nil by {
                    let j = choose|j: int| 0 <= j < pc + 1 && #[trigger] code[j] == Op::Store(slot);
                    if j < pc {
                        assert(stored_before(code, slot, pc));
                        if let Op::Store(t) = op {
                            if t == slot {
                                assert(m.stack[m.stack.len() - 1] != Value::Nil);
                            }
                        }
                    } else {
                        assert(m.stack[m.stack.len() - 1] != Value::Nil);
                    }
                }
                if let Op::Load(slot) = op {
                    assert(stored_before(code, slot, pc));
                }
                assert forall|i: int| 0 <= i < m1.stack.len() implies #[trigger] m1.stack[i] != Value::Nil by {
                    if i < m.stack.len() - 1 {
                        assert(m.stack[i] != Value::Nil);
                    }
                    if i < m.stack.len() {
                        assert(m.stack[i] != Value::Nil);
                    }
                }
                lemma_run_from_no_nil(s, code, pc + 1, m1);
            },
            _ => {
                if op == Op::Print && m.stack.len() > 0 {
                    assert(m.stack[m.stack.len() - 1] != Value::Nil);
                }
            },
        }
    }
}

/// A run of code whose loads follow stores never prints nil.
pub proof fn lemma_no_nil(s: Seq<u8>, code: Seq<Op>)
    requires
        loads_stored(code),
        forall|i: int| 0 <= i < code.len() ==> (#[trigger] code[i] matches Op::Load(slot) ==> slot < LOCAL_COUNT),
        forall|i: int| 0 <= i < code.len() ==> (#[trigger] code[i] matches Op::Store(slot) ==> slot < LOCAL_COUNT),
    ensures
        spec_run(s, code) matches Run::Done(_, Err(e)) ==> e != "cannot print nil",
{
    lemma_run_from_no_nil(s, code, 0, initial_machine());
}

/// What running `code` does, from an empty stack and all locals nil.
pub open spec fn spec_run(s: Seq<u8>, code: Seq<Op>) -> Run {
    run_from(s, code, 0, initial_machine())
}

} // verus!
