//! A tiny allocation-free Lua-style compiler and bytecode VM: fixed-size
//! arrays hold the bytecode, the local variables and the value stack, and
//! what a program prints is appended to a list that the caller owns.
//!
//! This is a useful embedded subset rather than a claim of Lua 5.x
//! compatibility. It supports `local`, integer/string literals, variables,
//! arithmetic, parentheses, `print(...)`, comments, and `return`.
pub mod compiler;
pub mod lexer;
pub mod vm;

use vstd::prelude::*;
use vstd::string::StringSliceAdditionalSpecFns;
use crate::lua::compiler::{
    code_wf, lemma_nothing_stored, op_wf, spec_compile, Compiler, Op, CODE_CAPACITY, ParseState, initial_state,
    p_advance, p_emit, p_primary, p_unary, p_term, p_term_rest, p_expression, p_expression_rest, p_statement,
    p_program, measure,
};
use crate::lua::vm::{spec_run, run_from, step, initial_machine, lemma_no_nil, lemma_no_underflow, loads_stored, never_underflows, Machine, Printed, Run, Step, Value, LOCAL_COUNT, STACK_CAPACITY};
use crate::text::between_ascii;
use crate::lua::lexer::{
    token_wf, Token, lex, skip_trivia, ident_end, keyword_print, lemma_lex_number_at,
};
use crate::framebuffer::{decimal_digits, lemma_decimal_text};

verus! {

/// The program that the kernel compiles and runs at start-up.
pub const DEMO: &'static str = "-- compiled inside the kernel\nlocal answer = 6 * 7\nlocal blue = answer + 1\nprint(\"Lua bytecode VM online\")\nprint(blue)\nreturn 0\n";

/// A compiled program: bytecode that refers to its source for strings.
pub struct Program<'a> {
    source: &'a str,
    code: [Op; 128],
    length: usize,
}

/// What the machine does after one instruction.
enum Flow {
    Next,
    Stop,
    Fail(&'static str),
    Trap,
}

/// One value printed by a running program.
pub enum Output<'a> {
    Integer(i64),
    String(&'a str),
}

/// What an output stands for.
pub open spec fn printed_of(output: Output) -> Printed {
    match output {
        Output::Integer(v) => Printed::Integer(v),
        Output::String(text) => Printed::Text(text.spec_bytes()),
    }
}

/// What a list of outputs stands for.
pub open spec fn printed_all(outputs: Seq<Output>) -> Seq<Printed> {
    outputs.map_values(|o: Output| printed_of(o))
}

/// A string value refers to a quoted literal of the source.
pub open spec fn value_wf(s: Seq<u8>, v: Value) -> bool {
    match v {
        Value::String(start, length) => token_wf(s, Token::String(start, length)),
        _ => true,
    }
}

/// Compiles `source` to bytecode.
#[verifier::rlimit(30)]
pub fn compile(source: &str) -> (result: Result<Program<'_>, &'static str>)
    ensures
        match spec_compile(source.spec_bytes()) {
            Ok(code) => result matches Ok(program) && program.code() == code && program.source()
                == source,
            Err(e) => result == Err::<Program, &'static str>(e),
        },
        result matches Ok(program) ==> code_wf(source.spec_bytes(), program.code()),
        result matches Ok(program) ==> never_underflows(program.code()),
        result matches Ok(program) ==> (program.outcome() matches Run::Done(_, Err(e)) ==> e
            != "VM stack underflow"),
        result matches Ok(program) ==> loads_stored(program.code()),
        result matches Ok(program) ==> (program.outcome() matches Run::Done(_, Err(e)) ==> e
            != "cannot print nil"),
{
    let mut compiler = Compiler::new(source)?;
    proof {
        lemma_nothing_stored(compiler.code());
    }
    compiler.compile_program()?;
    let (source, code, length) = compiler.finish();
    let program = Program { source, code, length };
    proof {
        use_type_invariant(&program);
        let c = program.code();
        lemma_no_underflow(program.source().spec_bytes(), c);
        assert forall|i: int| 0 <= i < c.len() implies (#[trigger] c[i] matches Op::Load(slot) ==> slot
            < LOCAL_COUNT) by {
            assert(op_wf(program.source().spec_bytes(), c[i]));
        }
        assert forall|i: int| 0 <= i < c.len() implies (#[trigger] c[i] matches Op::Store(slot) ==> slot
            < LOCAL_COUNT) by {
            assert(op_wf(program.source().spec_bytes(), c[i]));
        }
        lemma_no_nil(program.source().spec_bytes(), c);
    }
    Ok(program)
}

/// The values on the stack: its first `depth` cells.
pub open spec fn live(stack: [Value; 32], depth: usize) -> Seq<Value> {
    stack@.subrange(0, depth as int)
}

/// Every string value refers to a quoted literal of `s`.
pub open spec fn values_wf(s: Seq<u8>, values: Seq<Value>) -> bool {
    forall|i: int| 0 <= i < values.len() ==> value_wf(s, #[trigger] values[i])
}

/// Puts `value` on top of the stack.
fn push_value(stack: &mut [Value; 32], depth: &mut usize, value: Value)
    requires
        *old(depth) < STACK_CAPACITY,
    ensures
        *final(depth) == *old(depth) + 1,
        live(*final(stack), *final(depth)) == live(*old(stack), *old(depth)).push(value),
{
    let d: usize = *depth;
    stack[d] = value;
    *depth = d + 1;
    assert(live(*stack, *depth) =~= live(*old(stack), d).push(value));
}

/// Takes the value on top of the stack, if there is one.
fn pop_value(stack: &[Value; 32], depth: &mut usize) -> (value: Option<Value>)
    requires
        *old(depth) <= STACK_CAPACITY,
    ensures
        match value {
            Some(v) => *old(depth) > 0 && *final(depth) == *old(depth) - 1 && v == live(*stack, *old(depth)).last()
                && live(*stack, *final(depth)) == live(*stack, *old(depth)).drop_last(),
            None => *old(depth) == 0 && *final(depth) == 0,
        },
{
    if *depth == 0 {
        return None;
    }
    let d: usize = *depth - 1;
    *depth = d;
    assert(live(*stack, d) =~= live(*stack, *old(depth)).drop_last());
    Some(stack[d])
}

/// The source `print(<n>)`.
pub open spec fn print_number_source(n: nat) -> Seq<u8> {
    seq![0x70u8, 0x72, 0x69, 0x6e, 0x74, 0x28] + decimal_digits(n) + seq![0x29u8]
}

/// The tokens of `print(<n>)`, with where each ends.
proof fn lemma_print_number_tokens(n: nat)
    requires
        n <= i64::MAX,
    ensures
        ({
            let s = print_number_source(n);
            let l = decimal_digits(n).len() as int;
            &&& s.len() == 7 + l
            &&& lex(s, 0) == Ok::<(Token, int), &'static str>((Token::Print, 5))
            &&& lex(s, 5) == Ok::<(Token, int), &'static str>((Token::LeftParen, 6))
            &&& lex(s, 6) == Ok::<(Token, int), &'static str>((Token::Number(n as i64), 6 + l))
            &&& lex(s, 6 + l) == Ok::<(Token, int), &'static str>((Token::RightParen, 7 + l))
            &&& lex(s, 7 + l) == Ok::<(Token, int), &'static str>((Token::Eof, 7 + l))
        }),
{
    let d = decimal_digits(n);
    let l = d.len() as int;
    let s = print_number_source(n);
    lemma_decimal_text(n, 0);
    assert(s[0] == 0x70 && s[1] == 0x72 && s[2] == 0x69 && s[3] == 0x6e && s[4] == 0x74 && s[5] == 0x28);
    assert(s[6 + l] == 0x29);
    assert(lex(s, 0) == Ok::<(Token, int), &'static str>((Token::Print, 5))) by {
        assert(skip_trivia(s, 0) == 0);
        assert(ident_end(s, 5) == 5);
        assert(ident_end(s, 4) == 5);
        assert(ident_end(s, 3) == 5);
        assert(ident_end(s, 2) == 5);
        assert(ident_end(s, 1) == 5);
        assert(s.subrange(0, 5) =~= keyword_print());
    }
    assert(lex(s, 5) == Ok::<(Token, int), &'static str>((Token::LeftParen, 6))) by {
        assert(skip_trivia(s, 5) == 5);
    }
    assert(lex(s, 6) == Ok::<(Token, int), &'static str>((Token::Number(n as i64), 6 + l))) by {
        assert(s.subrange(6, 6 + l) =~= d);
        lemma_lex_number_at(s, 6, n);
    }
    assert(lex(s, 6 + l) == Ok::<(Token, int), &'static str>((Token::RightParen, 7 + l))) by {
        assert(skip_trivia(s, 6 + l) == 6 + l);
    }
    assert(lex(s, 7 + l) == Ok::<(Token, int), &'static str>((Token::Eof, 7 + l))) by {
        assert(skip_trivia(s, 7 + l) == 7 + l);
    }
}

/// The number in `print(<n>)` parses as one push of `n`.
proof fn lemma_print_number_value(n: nat)
    requires
        n <= i64::MAX,
    ensures
        ({
            let s = print_number_source(n);
            let l = decimal_digits(n).len() as int;
            let st2 = ParseState {
                pos: 6 + l,
                current: Token::Number(n as i64),
                code: Seq::empty(),
                symbols: Seq::empty(),
            };
            p_expression(s, st2) == Ok::<ParseState, &'static str>(
                ParseState { pos: 7 + l, current: Token::RightParen, code: seq![Op::PushInteger(n as i64)], ..st2 },
            )
        }),
{
    let s = print_number_source(n);
    let l = decimal_digits(n).len() as int;
    lemma_print_number_tokens(n);
    let st2 = ParseState { pos: 6 + l, current: Token::Number(n as i64), code: Seq::empty(), symbols: Seq::empty() };
    let c1 = seq![Op::PushInteger(n as i64)];
    let st3 = ParseState { pos: 7 + l, current: Token::RightParen, code: c1, ..st2 };
    assert(p_emit(st2, Op::PushInteger(n as i64)) == Ok::<ParseState, &'static str>(ParseState { code: c1, ..st2 })) by {
        assert(Seq::<Op>::empty().push(Op::PushInteger(n as i64)) =~= c1);
    }
    assert(p_primary(s, st2) == Ok::<ParseState, &'static str>(st3));
    assert(p_unary(s, st2) == Ok::<ParseState, &'static str>(st3));
    assert(p_term_rest(s, st3) == Ok::<ParseState, &'static str>(st3));
    assert(p_term(s, st2) == Ok::<ParseState, &'static str>(st3));
    assert(p_expression_rest(s, st3) == Ok::<ParseState, &'static str>(st3));
}

/// The statement `print(<n>)` parses as a push of `n` and a print, and
/// leaves nothing after it.
proof fn lemma_print_number_statement(n: nat)
    requires
        n <= i64::MAX,
    ensures
        ({
            let s = print_number_source(n);
            let l = decimal_digits(n).len() as int;
            let st0 = ParseState { pos: 5, current: Token::Print, code: Seq::empty(), symbols: Seq::empty() };
            &&& p_advance(s, initial_state()) == Ok::<ParseState, &'static str>(st0)
            &&& p_statement(s, st0) == Ok::<ParseState, &'static str>(
                ParseState {
                    pos: 7 + l,
                    current: Token::Eof,
                    code: seq![Op::PushInteger(n as i64), Op::Print],
                    ..st0
                },
            )
        }),
{
    let s = print_number_source(n);
    let l = decimal_digits(n).len() as int;
    lemma_print_number_tokens(n);
    lemma_print_number_value(n);
    let st0 = ParseState { pos: 5, current: Token::Print, code: Seq::empty(), symbols: Seq::empty() };
    let st1 = ParseState { pos: 6, current: Token::LeftParen, ..st0 };
    let st2 = ParseState { pos: 6 + l, current: Token::Number(n as i64), ..st0 };
    let c1 = seq![Op::PushInteger(n as i64)];
    let st3 = ParseState { pos: 7 + l, current: Token::RightParen, code: c1, ..st0 };
    assert(p_advance(s, st0) == Ok::<ParseState, &'static str>(st1));
    assert(p_advance(s, st1) == Ok::<ParseState, &'static str>(st2));
    let st4 = ParseState { pos: 7 + l, current: Token::Eof, code: c1, ..st0 };
    assert(p_advance(s, st3) == Ok::<ParseState, &'static str>(st4));
    assert(c1.push(Op::Print) =~= seq![Op::PushInteger(n as i64), Op::Print]);
}

/// `print(<n>)` compiles to pushing `n`, printing and halting.
#[verifier::rlimit(100)]
proof fn lemma_print_number_compiles(n: nat)
    requires
        n <= i64::MAX,
    ensures
        spec_compile(print_number_source(n)) == Ok::<Seq<Op>, &'static str>(
            seq![Op::PushInteger(n as i64), Op::Print, Op::Halt],
        ),
{
    let s = print_number_source(n);
    let l = decimal_digits(n).len() as int;
    lemma_print_number_statement(n);
    let st0 = ParseState { pos: 5, current: Token::Print, code: Seq::empty(), symbols: Seq::empty() };
    let c2 = seq![Op::PushInteger(n as i64), Op::Print];
    let st5 = ParseState { pos: 7 + l, current: Token::Eof, code: c2, ..st0 };
    let code = seq![Op::PushInteger(n as i64), Op::Print, Op::Halt];
    lemma_print_number_tokens(n);
    assert(s.len() == 7 + l);
    assert(measure(s, st5) == 0);
    assert(measure(s, st0) == l + 3);
    assert(p_program(s, st5) == Ok::<ParseState, &'static str>(ParseState { code, ..st5 })) by {
        assert(c2.push(Op::Halt) =~= code);
    }
    assert(p_program(s, st0) == p_program(s, st5));
}

/// Pushing a number, printing it and halting prints that number.
proof fn lemma_print_number_runs(s: Seq<u8>, v: i64)
    ensures
        spec_run(s, seq![Op::PushInteger(v), Op::Print, Op::Halt]) == Run::Done(seq![Printed::Integer(v)], Ok(())),
{
    let code = seq![Op::PushInteger(v), Op::Print, Op::Halt];
    let m0 = initial_machine();
    let m1 = Machine { stack: seq![Value::Integer(v)], ..m0 };
    let m2 = Machine { stack: Seq::empty(), printed: seq![Printed::Integer(v)], ..m0 };
    assert(step(s, m0, Op::PushInteger(v)) == Step::Next(m1)) by {
        assert(m0.stack.push(Value::Integer(v)) =~= m1.stack);
    }
    assert(step(s, m1, Op::Print) == Step::Next(m2)) by {
        assert(m1.stack.drop_last() =~= m2.stack);
        assert(Seq::<Printed>::empty().push(Printed::Integer(v)) =~= m2.printed);
    }
    assert(run_from(s, code, 3, m2) == Run::Done(m2.printed, Ok(())));
    assert(step(s, m2, Op::Halt) == Step::Stop(m2));
    assert(run_from(s, code, 2, m2) == Run::Done(m2.printed, Ok(())));
    assert(run_from(s, code, 1, m1) == Run::Done(m2.printed, Ok(())));
    assert(run_from(s, code, 0, m0) == Run::Done(m2.printed, Ok(())));
}

/// A program that prints a number written in decimal compiles to pushing
/// that number, printing it and halting, and running it prints exactly
/// that number.
pub proof fn lemma_print_number(n: nat)
    requires
        n <= i64::MAX,
    ensures
        spec_compile(print_number_source(n)) == Ok::<Seq<Op>, &'static str>(
            seq![Op::PushInteger(n as i64), Op::Print, Op::Halt],
        ),
        spec_run(print_number_source(n), seq![Op::PushInteger(n as i64), Op::Print, Op::Halt])
            == Run::Done(seq![Printed::Integer(n as i64)], Ok(())),
{
    lemma_print_number_compiles(n);
    lemma_print_number_runs(print_number_source(n), n as i64);
}

impl<'a> Program<'a> {
    #[verifier::type_invariant]
    closed spec fn wf(self) -> bool {
        &&& self.length <= CODE_CAPACITY
        &&& code_wf(self.source.spec_bytes(), self.code@.subrange(0, self.length as int))
    }

    /// The bytecode.
    pub closed spec fn code(&self) -> Seq<Op> {
        self.code@.subrange(0, self.length as int)
    }

    /// The source the program was compiled from.
    pub closed spec fn source(&self) -> &'a str {
        self.source
    }

    /// What running the program does.
    pub open spec fn outcome(&self) -> Run {
        spec_run(self.source().spec_bytes(), self.code())
    }

    /// Runs the program and appends what it prints to `output`. Returns
    /// `None`, after the outputs printed before it, when the program reaches
    /// a division of `i64::MIN` by `-1`, which Rust's division refuses.
    pub fn try_run(&self, output: &mut Vec<Output<'a>>) -> (result: Option<Result<(), &'static str>>)
        ensures
            match self.outcome() {
                Run::Done(printed, r) => result == Some(r) && printed_all(final(output)@)
                    == printed_all(old(output)@) + printed,
                Run::Trap(printed) => result is None && printed_all(final(output)@) == printed_all(
                    old(output)@,
                ) + printed,
            },
    {
        proof {
            use_type_invariant(self);
        }
        let ghost s = self.source.spec_bytes();
        let ghost code = self.code();
        let ghost base = printed_all(output@);
        let mut stack: [Value; 32] = [Value::Nil; 32];
        let mut depth: usize = 0;
        let mut locals: [Value; 16] = [Value::Nil; 16];
        let ghost mut printed: Seq<Printed> = Seq::empty();
        proof {
            assert(live(stack, depth) =~= Seq::<Value>::empty());
            assert(locals@ =~= initial_machine().locals);
            assert(Machine { stack: live(stack, depth), locals: locals@, printed } == initial_machine());
        }
        let ghost goal = self.outcome();
        let mut pc: usize = 0;
        while pc < self.length
            invariant
                s == self.source.spec_bytes(),
                code == self.code(),
                code_wf(s, code),
                goal == self.outcome(),
                pc <= code.len(),
                code.len() == self.length,
                self.length <= CODE_CAPACITY,
                depth <= STACK_CAPACITY,
                run_from(s, code, pc as int, Machine { stack: live(stack, depth), locals: locals@, printed })
                    == goal,
                printed_all(output@) == base + printed,
                base == printed_all(old(output)@),
                values_wf(s, live(stack, depth)),
                values_wf(s, locals@),
            decreases code.len() - pc,
        {
            let op = self.code[pc];
            assert(op == code[pc as int]);
            assert(crate::lua::compiler::op_wf(s, code[pc as int]));
            let ghost m = Machine { stack: live(stack, depth), locals: locals@, printed };
            let flow = self.execute(op, &mut stack, &mut depth, &mut locals, output, Ghost(base), Ghost(printed));
            proof {
                assert(run_from(s, code, pc as int, m) == match step(s, m, op) {
                    Step::Next(m1) => run_from(s, code, pc + 1, m1),
                    Step::Stop(m1) => Run::Done(m1.printed, Ok(())),
                    Step::Fail(p, e) => Run::Done(p, Err(e)),
                    Step::Trap(p) => Run::Trap(p),
                });
            }
            pc = pc + 1;
            match flow {
                Flow::Next => {
                    proof {
                        printed = step(s, m, op)->Next_0.printed;
                    }
                },
                Flow::Stop => return Some(Ok(())),
                Flow::Fail(e) => return Some(Err(e)),
                Flow::Trap => return None,
            }
        }
        Some(Ok(()))
    }

    /// Executes one instruction on the machine made of the first `depth`
    /// cells of `stack`, `locals` and the outputs printed so far.
    fn execute(
        &self,
        op: Op,
        stack: &mut [Value; 32],
        depth: &mut usize,
        locals: &mut [Value; 16],
        output: &mut Vec<Output<'a>>,
        base: Ghost<Seq<Printed>>,
        printed: Ghost<Seq<Printed>>,
    ) -> (flow: Flow)
        requires
            crate::lua::compiler::op_wf(self.source.spec_bytes(), op),
            *old(depth) <= STACK_CAPACITY,
            printed_all(old(output)@) == base@ + printed@,
            values_wf(self.source.spec_bytes(), live(*old(stack), *old(depth))),
            values_wf(self.source.spec_bytes(), old(locals)@),
        ensures
            *final(depth) <= STACK_CAPACITY,
            values_wf(self.source.spec_bytes(), live(*final(stack), *final(depth))),
            values_wf(self.source.spec_bytes(), final(locals)@),
            match step(
                self.source.spec_bytes(),
                Machine { stack: live(*old(stack), *old(depth)), locals: old(locals)@, printed: printed@ },
                op,
            ) {
                Step::Next(m1) => flow == Flow::Next && live(*final(stack), *final(depth)) == m1.stack
                    && final(locals)@ == m1.locals && printed_all(final(output)@) == base@ + m1.printed,
                Step::Stop(m1) => flow == Flow::Stop && printed_all(final(output)@) == base@ + m1.printed,
                Step::Fail(p, e) => flow == Flow::Fail(e) && printed_all(final(output)@) == base@ + p,
                Step::Trap(p) => flow == Flow::Trap && printed_all(final(output)@) == base@ + p,
            },
    {
        let ghost s = self.source.spec_bytes();
        match op {
            Op::PushInteger(value) => {
                if *depth >= STACK_CAPACITY {
                    return Flow::Fail("VM stack overflow");
                }
                push_value(stack, depth, Value::Integer(value));
            },
            Op::PushString(start, length) => {
                if *depth >= STACK_CAPACITY {
                    return Flow::Fail("VM stack overflow");
                }
                push_value(stack, depth, Value::String(start, length));
            },
            Op::Load(slot) => {
                if *depth >= STACK_CAPACITY {
                    return Flow::Fail("VM stack overflow");
                }
                let value = locals[slot as usize];
                push_value(stack, depth, value);
            },
            Op::Store(slot) => {
                let value = match pop_value(stack, depth) {
                    Some(value) => value,
                    None => return Flow::Fail("VM stack underflow"),
                };
                locals[slot as usize] = value;
                assert(locals@ =~= old(locals)@.update(slot as int, value));
            },
            Op::Negate => {
                let value = match pop_value(stack, depth) {
                    Some(value) => value,
                    None => return Flow::Fail("VM stack underflow"),
                };
                match value {
                    Value::Integer(v) => push_value(stack, depth, Value::Integer(0i64.wrapping_sub(v))),
                    _ => return Flow::Fail("unary minus expects an integer"),
                }
            },
            Op::Add | Op::Subtract | Op::Multiply | Op::Divide => {
                let right = match pop_value(stack, depth) {
                    Some(Value::Integer(v)) => v,
                    Some(_) => return Flow::Fail("arithmetic expects integers"),
                    None => return Flow::Fail("VM stack underflow"),
                };
                let left = match pop_value(stack, depth) {
                    Some(Value::Integer(v)) => v,
                    Some(_) => return Flow::Fail("arithmetic expects integers"),
                    None => return Flow::Fail("VM stack underflow"),
                };
                let value = match op {
                    Op::Add => left.wrapping_add(right),
                    Op::Subtract => left.wrapping_sub(right),
                    Op::Multiply => left.wrapping_mul(right),
                    _ => {
                        if right == 0 {
                            return Flow::Fail("division by zero");
                        }
                        match left.checked_div(right) {
                            Some(q) => q,
                            None => return Flow::Trap,
                        }
                    },
                };
                push_value(stack, depth, Value::Integer(value));
            },
            Op::Print => {
                let value = match pop_value(stack, depth) {
                    Some(value) => value,
                    None => return Flow::Fail("VM stack underflow"),
                };
                match value {
                    Value::Integer(v) => {
                        let ghost before = output@;
                        output.push(Output::Integer(v));
                        assert(printed_all(output@) =~= printed_all(before).push(Printed::Integer(v)));
                        assert(printed_all(output@) =~= base@ + printed@.push(Printed::Integer(v)));
                    },
                    Value::String(start, length) => {
                        let text = between_ascii(self.source, start, length);
                        let ghost before = output@;
                        output.push(Output::String(text));
                        assert(printed_all(output@) =~= printed_all(before).push(Printed::Text(text.spec_bytes())));
                        assert(printed_all(output@) =~= base@ + printed@.push(Printed::Text(text.spec_bytes())));
                    },
                    Value::Nil => return Flow::Fail("cannot print nil"),
                }
            },
            Op::Return => return Flow::Stop,
            Op::Halt => return Flow::Stop,
        }
        Flow::Next
    }

    /// Runs the program, appending what it prints to `output`.
    pub fn run(&self, output: &mut Vec<Output<'a>>) -> (result: Result<(), &'static str>)
        requires
            !(self.outcome() is Trap),
        ensures
            self.outcome() matches Run::Done(printed, r) && result == r && printed_all(
                final(output)@,
            ) == printed_all(old(output)@) + printed,
    {
        match self.try_run(output) {
            Some(result) => result,
            None => Ok(()),
        }
    }
}

} // verus!
