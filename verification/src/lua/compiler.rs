//! A single-pass recursive-descent compiler from tokens to stack bytecode.
//!
//! Grammar (`sep` is a newline or `;`):
//!   program    := { sep | statement } EOF
//!   statement  := `local` NAME `=` expression | `print` `(` expression `)` | `return` expression
//!   expression := term { (`+` | `-`) term }
//!   term       := unary { (`*` | `/`) unary }
//!   unary      := `-` unary | primary
//!   primary    := NUMBER | STRING | NAME | `(` expression `)`
use vstd::prelude::*;
use vstd::string::StringSliceAdditionalSpecFns;
use crate::lua::lexer::{lemma_lex_progress, lex, token_wf, Lexer, Token};
use crate::lua::vm::{depth, effect, loads_stored, pops, stack_safe, stored_before};

verus! {

/// Maximum number of bytecode instructions in a program, `Halt` included.
pub const CODE_CAPACITY: usize = 128;

/// Maximum number of local variables in a program.
pub const SYMBOL_CAPACITY: usize = 16;

/// One bytecode instruction of the stack machine.
#[derive(PartialEq, Eq, Structural, Debug, Clone, Copy)]
pub enum Op {
    PushInteger(i64),
    /// Pushes the string `source[start..start + length]`.
    PushString(usize, usize),
    Load(u8),
    Store(u8),
    Add,
    Subtract,
    Multiply,
    Divide,
    Negate,
    Print,
    Return,
    Halt,
}

/// A local variable: where its name stands in the source, and its slot.
#[derive(Clone, Copy)]
pub struct Symbol {
    pub start: usize,
    pub length: usize,
    pub slot: u8,
}

/// The state of the compiler between two steps: the lexer position, the
/// current token, the code emitted so far and the names of the locals
/// declared so far (the slot of a local is its index).
pub struct ParseState {
    pub pos: int,
    pub current: Token,
    pub code: Seq<Op>,
    pub symbols: Seq<(usize, usize)>,
}

pub type Parsed = Result<ParseState, &'static str>;

/// A well-founded measure of the input still to parse.
pub open spec fn measure(s: Seq<u8>, st: ParseState) -> nat {
    if st.pos > s.len() {
        0
    } else {
        (s.len() - st.pos + if st.current == Token::Eof {
            0int
        } else {
            1int
        }) as nat
    }
}

/// An instruction refers only to existing slots and to string literals of `s`.
pub open spec fn op_wf(s: Seq<u8>, op: Op) -> bool {
    match op {
        Op::PushString(start, length) => token_wf(s, Token::String(start, length)),
        Op::Load(slot) => slot < SYMBOL_CAPACITY,
        Op::Store(slot) => slot < SYMBOL_CAPACITY,
        _ => true,
    }
}

pub open spec fn code_wf(s: Seq<u8>, code: Seq<Op>) -> bool {
    &&& code.len() <= CODE_CAPACITY
    &&& forall|i: int| 0 <= i < code.len() ==> op_wf(s, #[trigger] code[i])
}

/// Moves to the next token.
pub open spec fn p_advance(s: Seq<u8>, st: ParseState) -> Parsed {
    match lex(s, st.pos) {
        Ok((t, p)) => Ok(ParseState { pos: p, current: t, ..st }),
        Err(e) => Err(e),
    }
}

/// Appends one instruction, unless the program is full.
pub open spec fn p_emit(st: ParseState, op: Op) -> Parsed {
    if st.code.len() >= CODE_CAPACITY {
        Err("bytecode program is too large")
    } else {
        Ok(ParseState { code: st.code.push(op), ..st })
    }
}

/// Declares a local variable named `s[start..start + length]`.
pub open spec fn p_add_symbol(st: ParseState, start: usize, length: usize) -> Parsed {
    if st.symbols.len() >= SYMBOL_CAPACITY {
        Err("too many local variables")
    } else {
        Ok(ParseState { symbols: st.symbols.push((start, length)), ..st })
    }
}

/// Whether the local `symbol` is named `s[start..start + length]`.
pub open spec fn same_name(s: Seq<u8>, symbol: (usize, usize), start: usize, length: usize) -> bool {
    &&& symbol.1 == length
    &&& s.subrange(symbol.0 as int, symbol.0 + symbol.1) == s.subrange(
        start as int,
        start + length,
    )
}

/// The slot of the most recently declared local with the given name.
pub open spec fn find_symbol(s: Seq<u8>, symbols: Seq<(usize, usize)>, start: usize, length: usize) -> Option<int>
    decreases symbols.len(),
{
    if symbols.len() == 0 {
        None
    } else if same_name(s, symbols.last(), start, length) {
        Some(symbols.len() - 1)
    } else {
        find_symbol(s, symbols.drop_last(), start, length)
    }
}

pub proof fn lemma_find_symbol_bound(s: Seq<u8>, symbols: Seq<(usize, usize)>, start: usize, length: usize)
    ensures
        find_symbol(s, symbols, start, length) matches Some(k) ==> 0 <= k < symbols.len(),
    decreases symbols.len(),
{
    if symbols.len() > 0 {
        lemma_find_symbol_bound(s, symbols.drop_last(), start, length);
    }
}

/// A name resolves to the most recently declared local spelled with the
/// same bytes, and to none when no local is spelled so: a local of the
/// same length but another spelling is never taken for it.
pub proof fn lemma_find_symbol_names(s: Seq<u8>, symbols: Seq<(usize, usize)>, start: usize, length: usize)
    ensures
        find_symbol(s, symbols, start, length) matches Some(k) ==> 0 <= k < symbols.len()
            && symbols[k].1 == length && s.subrange(symbols[k].0 as int, symbols[k].0 + length)
            == s.subrange(start as int, start + length),
        find_symbol(s, symbols, start, length) matches Some(k) ==> forall|j: int|
            k < j < symbols.len() ==> !(#[trigger] symbols[j].1 == length && s.subrange(
                symbols[j].0 as int,
                symbols[j].0 + length,
            ) == s.subrange(start as int, start + length)),
        find_symbol(s, symbols, start, length) is None <==> forall|j: int|
            0 <= j < symbols.len() ==> !(#[trigger] symbols[j].1 == length && s.subrange(
                symbols[j].0 as int,
                symbols[j].0 + length,
            ) == s.subrange(start as int, start + length)),
    decreases symbols.len(),
{
    let key = s.subrange(start as int, start + length);
    if symbols.len() > 0 {
        let last = symbols.len() - 1;
        let rest = symbols.drop_last();
        lemma_find_symbol_names(s, rest, start, length);
        assert(symbols[last] == symbols.last());
        if same_name(s, symbols.last(), start, length) {
            assert(symbols[last].1 == length && s.subrange(symbols[last].0 as int, symbols[last].0 + length)
                == key);
        } else {
            assert(!(symbols[last].1 == length && s.subrange(symbols[last].0 as int, symbols[last].0 + length)
                == key));
            assert forall|j: int| 0 <= j < rest.len() implies #[trigger] rest[j] == symbols[j] by {}
            if find_symbol(s, rest, start, length) is None {
                assert forall|j: int| 0 <= j < symbols.len() implies !(#[trigger] symbols[j].1 == length
                    && s.subrange(symbols[j].0 as int, symbols[j].0 + length) == key) by {
                    if j < last {
                        assert(rest[j] == symbols[j]);
                    }
                }
            } else {
                let k = find_symbol(s, rest, start, length).unwrap();
                assert(rest[k] == symbols[k]);
                assert forall|j: int| k < j < symbols.len() implies !(#[trigger] symbols[j].1 == length
                    && s.subrange(symbols[j].0 as int, symbols[j].0 + length) == key) by {
                    if j < last {
                        assert(rest[j] == symbols[j]);
                    }
                }
            }
        }
    }
}

// In the mutually recursive parsing functions below, each recursive call is
// guarded by a comparison of measures. Parsing never moves backwards, so the
// guards always hold; they only make termination evident.
/// `expression := term { (+ | -) term }`
pub open spec fn p_expression(s: Seq<u8>, st: ParseState) -> Parsed
    decreases measure(s, st), 5int,
{
    match p_term(s, st) {
        Ok(st1) => if measure(s, st1) <= measure(s, st) {
            p_expression_rest(s, st1)
        } else {
            Ok(st1)
        },
        Err(e) => Err(e),
    }
}

/// The `{ (+ | -) term }` part of an expression.
pub open spec fn p_expression_rest(s: Seq<u8>, st: ParseState) -> Parsed
    decreases measure(s, st), 4int,
{
    if st.current == Token::Plus || st.current == Token::Minus {
        let op = if st.current == Token::Plus {
            Op::Add
        } else {
            Op::Subtract
        };
        match p_advance(s, st) {
            Ok(st1) => if measure(s, st1) < measure(s, st) {
                match p_term(s, st1) {
                    Ok(st2) => if measure(s, st2) <= measure(s, st1) {
                        match p_emit(st2, op) {
                            Ok(st3) => p_expression_rest(s, st3),
                            Err(e) => Err(e),
                        }
                    } else {
                        Ok(st2)
                    },
                    Err(e) => Err(e),
                }
            } else {
                Ok(st1)
            },
            Err(e) => Err(e),
        }
    } else {
        Ok(st)
    }
}

/// `term := unary { (* | /) unary }`
pub open spec fn p_term(s: Seq<u8>, st: ParseState) -> Parsed
    decreases measure(s, st), 3int,
{
    match p_unary(s, st) {
        Ok(st1) => if measure(s, st1) <= measure(s, st) {
            p_term_rest(s, st1)
        } else {
            Ok(st1)
        },
        Err(e) => Err(e),
    }
}

/// The `{ (* | /) unary }` part of a term.
pub open spec fn p_term_rest(s: Seq<u8>, st: ParseState) -> Parsed
    decreases measure(s, st), 2int,
{
    if st.current == Token::Star || st.current == Token::Slash {
        let op = if st.current == Token::Star {
            Op::Multiply
        } else {
            Op::Divide
        };
        match p_advance(s, st) {
            Ok(st1) => if measure(s, st1) < measure(s, st) {
                match p_unary(s, st1) {
                    Ok(st2) => if measure(s, st2) <= measure(s, st1) {
                        match p_emit(st2, op) {
                            Ok(st3) => p_term_rest(s, st3),
                            Err(e) => Err(e),
                        }
                    } else {
                        Ok(st2)
                    },
                    Err(e) => Err(e),
                }
            } else {
                Ok(st1)
            },
            Err(e) => Err(e),
        }
    } else {
        Ok(st)
    }
}

/// `unary := - unary | primary`
pub open spec fn p_unary(s: Seq<u8>, st: ParseState) -> Parsed
    decreases measure(s, st), 1int,
{
    if st.current == Token::Minus {
        match p_advance(s, st) {
            Ok(st1) => if measure(s, st1) < measure(s, st) {
                match p_unary(s, st1) {
                    Ok(st2) => p_emit(st2, Op::Negate),
                    Err(e) => Err(e),
                }
            } else {
                Ok(st1)
            },
            Err(e) => Err(e),
        }
    } else {
        p_primary(s, st)
    }
}

/// `primary := NUMBER | STRING | NAME | ( expression )`
pub open spec fn p_primary(s: Seq<u8>, st: ParseState) -> Parsed
    decreases measure(s, st), 0int,
{
    match st.current {
        Token::Number(value) => match p_emit(st, Op::PushInteger(value)) {
            Ok(st1) => p_advance(s, st1),
            Err(e) => Err(e),
        },
        Token::String(start, length) => match p_emit(st, Op::PushString(start, length)) {
            Ok(st1) => p_advance(s, st1),
            Err(e) => Err(e),
        },
        Token::Identifier(start, length) => match find_symbol(s, st.symbols, start, length) {
            Some(slot) => match p_emit(st, Op::Load(slot as u8)) {
                Ok(st1) => p_advance(s, st1),
                Err(e) => Err(e),
            },
            None => Err("unknown variable"),
        },
        Token::LeftParen => match p_advance(s, st) {
            Ok(st1) => if measure(s, st1) < measure(s, st) {
                match p_expression(s, st1) {
                    Ok(st2) => if st2.current == Token::RightParen {
                        p_advance(s, st2)
                    } else {
                        Err("expected ')'")
                    },
                    Err(e) => Err(e),
                }
            } else {
                Ok(st1)
            },
            Err(e) => Err(e),
        },
        _ => Err("expected an expression"),
    }
}

/// `local NAME = expression`, after the `local` keyword.
pub open spec fn p_local(s: Seq<u8>, st: ParseState) -> Parsed
    decreases measure(s, st), 6int,
{
    match st.current {
        Token::Identifier(start, length) => match p_advance(s, st) {
            Ok(st1) => if st1.current == Token::Equal {
                match p_advance(s, st1) {
                    Ok(st2) => if measure(s, st2) < measure(s, st) {
                        match p_expression(s, st2) {
                            Ok(st3) => match p_add_symbol(st3, start, length) {
                                Ok(st4) => p_emit(st4, Op::Store(st3.symbols.len() as u8)),
                                Err(e) => Err(e),
                            },
                            Err(e) => Err(e),
                        }
                    } else {
                        Ok(st2)
                    },
                    Err(e) => Err(e),
                }
            } else {
                Err("expected '=' after local name")
            },
            Err(e) => Err(e),
        },
        _ => Err("expected a local variable name"),
    }
}

/// `statement := local NAME = expression | print ( expression ) | return expression`
pub open spec fn p_statement(s: Seq<u8>, st: ParseState) -> Parsed
    decreases measure(s, st), 7int,
{
    match st.current {
        Token::Local => match p_advance(s, st) {
            Ok(st1) => if measure(s, st1) < measure(s, st) {
                p_local(s, st1)
            } else {
                Ok(st1)
            },
            Err(e) => Err(e),
        },
        Token::Print => match p_advance(s, st) {
            Ok(st1) => if st1.current == Token::LeftParen {
                match p_advance(s, st1) {
                    Ok(st2) => if measure(s, st2) < measure(s, st) {
                        match p_expression(s, st2) {
                            Ok(st3) => if st3.current == Token::RightParen {
                                match p_advance(s, st3) {
                                    Ok(st4) => p_emit(st4, Op::Print),
                                    Err(e) => Err(e),
                                }
                            } else {
                                Err("expected ')' after print value")
                            },
                            Err(e) => Err(e),
                        }
                    } else {
                        Ok(st2)
                    },
                    Err(e) => Err(e),
                }
            } else {
                Err("expected '(' after print")
            },
            Err(e) => Err(e),
        },
        Token::Return => match p_advance(s, st) {
            Ok(st1) => if measure(s, st1) < measure(s, st) {
                match p_expression(s, st1) {
                    Ok(st2) => p_emit(st2, Op::Return),
                    Err(e) => Err(e),
                }
            } else {
                Ok(st1)
            },
            Err(e) => Err(e),
        },
        _ => Err("expected local, print, or return"),
    }
}

/// `program := { sep | statement } EOF`, ending the code with `Halt`.
pub open spec fn p_program(s: Seq<u8>, st: ParseState) -> Parsed
    decreases measure(s, st), 8int,
{
    if st.current == Token::Eof {
        p_emit(st, Op::Halt)
    } else if st.current == Token::Newline || st.current == Token::Semicolon {
        match p_advance(s, st) {
            Ok(st1) => if measure(s, st1) < measure(s, st) {
                p_program(s, st1)
            } else {
                Ok(st1)
            },
            Err(e) => Err(e),
        }
    } else {
        match p_statement(s, st) {
            Ok(st1) => if measure(s, st1) < measure(s, st) {
                p_program(s, st1)
            } else {
                Ok(st1)
            },
            Err(e) => Err(e),
        }
    }
}

/// The state before the first token is read.
pub open spec fn initial_state() -> ParseState {
    ParseState { pos: 0, current: Token::Eof, code: Seq::empty(), symbols: Seq::empty() }
}

/// The bytecode that compiling the source bytes `s` yields, or the first
/// error that the lexer or the parser stops with.
pub open spec fn spec_compile(s: Seq<u8>) -> Result<Seq<Op>, &'static str> {
    match p_advance(s, initial_state()) {
        Ok(st0) => match p_program(s, st0) {
            Ok(st) => Ok(st.code),
            Err(e) => Err(e),
        },
        Err(e) => Err(e),
    }
}

/// `new` extends `old` with instructions that, run with `lift` values on
/// the stack below their own, never take more values than the stack
/// holds, and leave it at least `net` values deeper.
pub open spec fn emits(old: Seq<Op>, new: Seq<Op>, lift: int, net: int) -> bool {
    &&& old.len() <= new.len()
    &&& new.subrange(0, old.len() as int) == old
    &&& stack_safe(new, old.len() as int, new.len() as int, lift)
    &&& depth(new, new.len() as int) >= depth(new, old.len() as int) + net
}

/// The depth before instruction `k` depends only on the instructions
/// before it.
proof fn lemma_depth_prefix(c1: Seq<Op>, c2: Seq<Op>, k: int)
    requires
        0 <= k <= c1.len() <= c2.len(),
        c2.subrange(0, c1.len() as int) == c1,
    ensures
        depth(c2, k) == depth(c1, k),
    decreases k,
{
    if k > 0 {
        lemma_depth_prefix(c1, c2, k - 1);
        assert(c2[k - 1] == c2.subrange(0, c1.len() as int)[k - 1]);
    }
}

/// Nothing emitted is safe with any lift.
proof fn lemma_emits_nothing(c: Seq<Op>, lift: int)
    ensures
        emits(c, c, lift, 0),
{
    assert(c.subrange(0, c.len() as int) =~= c);
}

/// One instruction is safe when the lift covers what it takes.
proof fn lemma_emits_one(c: Seq<Op>, op: Op, lift: int)
    requires
        lift >= pops(op),
    ensures
        emits(c, c.push(op), lift, effect(op)),
{
    let d = c.push(op);
    assert(d.subrange(0, c.len() as int) =~= c);
    assert(d[c.len() as int] == op);
}

/// More lift, or less required growth, is easier to meet.
proof fn lemma_emits_weaken(c0: Seq<Op>, c1: Seq<Op>, lift: int, net: int, lift2: int, net2: int)
    requires
        emits(c0, c1, lift, net),
        lift <= lift2,
        net2 <= net,
    ensures
        emits(c0, c1, lift2, net2),
{
}

/// Two emitted pieces in a row: the second may use what the first left.
proof fn lemma_emits_then(
    c0: Seq<Op>,
    c1: Seq<Op>,
    c2: Seq<Op>,
    lift1: int,
    net1: int,
    lift2: int,
    net2: int,
)
    requires
        emits(c0, c1, lift1, net1),
        emits(c1, c2, lift2, net2),
        lift2 <= lift1 + net1,
    ensures
        emits(c0, c2, lift1, net1 + net2),
{
    let a = c0.len() as int;
    let b = c1.len() as int;
    let d = c2.len() as int;
    assert(c2.subrange(0, a) =~= c1.subrange(0, a)) by {
        assert forall|i: int| 0 <= i < a implies c2.subrange(0, a)[i] == c1.subrange(0, a)[i] by {
            assert(c2[i] == c2.subrange(0, b)[i]);
        }
    }
    lemma_depth_prefix(c1, c2, a);
    lemma_depth_prefix(c1, c2, b);
    assert forall|k: int| a <= k < d implies depth(c2, k) - depth(c2, a) + lift1 >= pops(
        #[trigger] c2[k],
    ) by {
        if k < b {
            lemma_depth_prefix(c1, c2, k);
            assert(c2[k] == c2.subrange(0, b)[k]);
            assert(depth(c1, k) - depth(c1, a) + lift1 >= pops(c1[k]));
        } else {
            assert(depth(c2, k) - depth(c2, b) + lift2 >= pops(c2[k]));
        }
    }
}

/// Each of the first `count` slots is stored by some instruction of `code`.
#[verifier::opaque]
pub open spec fn slots_stored(code: Seq<Op>, count: int) -> bool {
    forall|slot: u8| slot < count ==> #[trigger] stored_before(code, slot, code.len() as int)
}

/// A store before `i` stays before `i` when an instruction is appended.
proof fn lemma_stored_extend(c: Seq<Op>, op: Op, slot: u8, i: int)
    requires
        stored_before(c, slot, i),
        i <= c.len(),
    ensures
        stored_before(c.push(op), slot, i),
{
    let j = choose|j: int| 0 <= j < i && #[trigger] c[j] == Op::Store(slot);
    assert(c.push(op)[j] == c[j]);
}

/// Appending an instruction keeps loads after stores, when a load reads
/// one of the stored slots; appending the store of slot `count` makes it
/// stored.
proof fn lemma_push_op(c: Seq<Op>, op: Op, count: int)
    requires
        loads_stored(c),
        slots_stored(c, count),
        op matches Op::Load(slot) ==> slot < count,
    ensures
        loads_stored(c.push(op)),
        slots_stored(c.push(op), count),
        op == Op::Store(count as u8) && 0 <= count < 256 ==> slots_stored(c.push(op), count + 1),
{
    reveal(loads_stored);
    reveal(slots_stored);
    let d = c.push(op);
    assert forall|i: int| 0 <= i < d.len() implies (#[trigger] d[i] matches Op::Load(slot) ==> stored_before(
        d,
        slot,
        i,
    )) by {
        if i < c.len() {
            assert(d[i] == c[i]);
            if let Op::Load(slot) = c[i] {
                lemma_stored_extend(c, op, slot, i);
            }
        } else {
            if let Op::Load(slot) = op {
                assert(stored_before(c, slot, c.len() as int));
                lemma_stored_extend(c, op, slot, c.len() as int);
            }
        }
    }
    assert forall|slot: u8| slot < count implies #[trigger] stored_before(d, slot, d.len() as int) by {
        assert(stored_before(c, slot, c.len() as int));
        lemma_stored_extend(c, op, slot, c.len() as int);
        let j = choose|j: int| 0 <= j < c.len() && #[trigger] d[j] == Op::Store(slot);
        assert(0 <= j < d.len());
    }
    if op == Op::Store(count as u8) && 0 <= count < 256 {
        assert forall|slot: u8| slot < count + 1 implies #[trigger] stored_before(d, slot, d.len() as int) by {
            if slot == count {
                assert(d[c.len() as int] == Op::Store(slot));
            }
        }
    }
}

/// Empty code has no loads, and no slots are stored.
pub proof fn lemma_nothing_stored(c: Seq<Op>)
    requires
        c.len() == 0,
    ensures
        loads_stored(c),
        slots_stored(c, 0),
{
    reveal(loads_stored);
    reveal(slots_stored);
}

pub struct Compiler<'a> {
    source: &'a str,
    lexer: Lexer<'a>,
    current: Token,
    code: [Op; 128],
    length: usize,
    symbols: [Symbol; 16],
    symbol_count: usize,
}

impl<'a> Compiler<'a> {
    pub closed spec fn bytes(&self) -> Seq<u8> {
        self.lexer.bytes()
    }

    pub closed spec fn state(&self) -> ParseState {
        ParseState {
            pos: self.lexer.position(),
            current: self.current,
            code: self.code@.subrange(0, self.length as int),
            symbols: self.symbols@.subrange(0, self.symbol_count as int).map_values(|symbol: Symbol| (symbol.start, symbol.length)),
        }
    }

    pub closed spec fn inv(&self) -> bool {
        &&& self.lexer.wf()
        &&& self.bytes() == self.source.spec_bytes()
        &&& token_wf(self.bytes(), self.current)
        &&& self.current == Token::Eof ==> self.lexer.position() == self.bytes().len()
        &&& self.length <= CODE_CAPACITY
        &&& code_wf(self.bytes(), self.code@.subrange(0, self.length as int))
        &&& self.symbol_count <= SYMBOL_CAPACITY
        &&& forall|i: int|
            0 <= i < self.symbol_count ==> {
                &&& (#[trigger] self.symbols@[i]).slot == i
                &&& self.symbols@[i].start + self.symbols@[i].length <= self.bytes().len()
            }
    }

    pub closed spec fn source_str(&self) -> &'a str {
        self.source
    }

    pub closed spec fn code(&self) -> Seq<Op> {
        self.code@.subrange(0, self.length as int)
    }

    /// The source and the code compiled so far.
    pub fn finish(self) -> (parts: (&'a str, [Op; 128], usize))
        requires
            self.inv(),
        ensures
            parts.0 == self.source_str(),
            parts.2 <= CODE_CAPACITY,
            parts.1@.subrange(0, parts.2 as int) == self.state().code,
            parts.1@.subrange(0, parts.2 as int) == self.code(),
            code_wf(parts.0.spec_bytes(), parts.1@.subrange(0, parts.2 as int)),
    {
        (self.source, self.code, self.length)
    }

    /// Reads the first token.
    pub fn new(source: &'a str) -> (result: Result<Self, &'static str>)
        ensures
            match p_advance(source.spec_bytes(), initial_state()) {
                Ok(st) => result matches Ok(compiler) && compiler.state() == st && compiler.inv()
                    && compiler.bytes() == source.spec_bytes() && compiler.source_str() == source
                    && compiler.code() == Seq::<Op>::empty(),
                Err(e) => result == Err::<Self, &'static str>(e),
            },
    {
        let mut lexer = Lexer::new(source);
        proof {
            lemma_lex_progress(lexer.bytes(), 0);
        }
        let current = match lexer.next() {
            Ok(token) => token,
            Err(e) => return Err(e),
        };
        let compiler = Self {
            source,
            lexer,
            current,
            code: [Op::Halt; 128],
            length: 0,
            symbols: [Symbol { start: 0, length: 0, slot: 0 }; 16],
            symbol_count: 0,
        };
        assert(compiler.state().code =~= Seq::<Op>::empty());
        assert(compiler.state().symbols =~= Seq::<(usize, usize)>::empty());
        Ok(compiler)
    }

    /// Moves to the next token.
    fn advance(&mut self) -> (result: Result<(), &'static str>)
        requires
            old(self).inv(),
        ensures
            result is Ok ==> final(self).code() == old(self).code(),
            final(self).bytes() == old(self).bytes(),
            final(self).source_str() == old(self).source_str(),
            match p_advance(old(self).bytes(), old(self).state()) {
                Ok(st) => result is Ok && final(self).state() == st && final(self).inv(),
                Err(e) => result == Err::<(), &'static str>(e),
            },
            result is Ok ==> measure(final(self).bytes(), final(self).state()) <= measure(
                old(self).bytes(),
                old(self).state(),
            ),
            result is Ok && old(self).current != Token::Eof ==> measure(
                final(self).bytes(),
                final(self).state(),
            ) < measure(old(self).bytes(), old(self).state()),
    {
        proof {
            lemma_lex_progress(self.bytes(), self.lexer.position());
        }
        match self.lexer.next() {
            Ok(token) => {
                self.current = token;
                Ok(())
            },
            Err(e) => Err(e),
        }
    }

    /// Appends one instruction.
    fn emit(&mut self, op: Op) -> (result: Result<(), &'static str>)
        requires
            old(self).inv(),
            op_wf(old(self).bytes(), op),
        ensures
            result is Ok ==> final(self).code() == old(self).code().push(op),
            final(self).bytes() == old(self).bytes(),
            final(self).source_str() == old(self).source_str(),
            match p_emit(old(self).state(), op) {
                Ok(st) => result is Ok && final(self).state() == st && final(self).inv(),
                Err(e) => result == Err::<(), &'static str>(e),
            },
    {
        if self.length >= CODE_CAPACITY {
            return Err("bytecode program is too large");
        }
        let length: usize = self.length;
        self.code[length] = op;
        self.length = length + 1;
        assert(self.code() =~= old(self).code().push(op));
        Ok(())
    }

    /// Declares a local variable and returns its slot.
    fn add_symbol(&mut self, start: usize, length: usize) -> (result: Result<u8, &'static str>)
        requires
            old(self).inv(),
            start + length <= old(self).bytes().len(),
        ensures
            result is Ok ==> final(self).code() == old(self).code(),
            final(self).bytes() == old(self).bytes(),
            final(self).source_str() == old(self).source_str(),
            match p_add_symbol(old(self).state(), start, length) {
                Ok(st) => result == Ok::<u8, &'static str>(old(self).state().symbols.len() as u8)
                    && final(self).state() == st && final(self).inv(),
                Err(e) => result == Err::<u8, &'static str>(e),
            },
    {
        if self.symbol_count >= SYMBOL_CAPACITY {
            return Err("too many local variables");
        }
        let count: usize = self.symbol_count;
        let slot = count as u8;
        self.symbols[count] = Symbol { start, length, slot };
        self.symbol_count = count + 1;
        proof {
            assert(self.symbols@.subrange(0, count + 1) =~= old(self).symbols@.subrange(0, count as int).push(
                Symbol { start, length, slot },
            ));
            assert(self.state().symbols =~= old(self).state().symbols.push((start, length)));
        }
        Ok(slot)
    }

    /// Whether the names at `first` and `second` (both `length` bytes) are equal.
    fn same_bytes(&self, first: usize, second: usize, length: usize) -> (same: bool)
        requires
            self.inv(),
            first + length <= self.bytes().len(),
            second + length <= self.bytes().len(),
        ensures
            same == (self.bytes().subrange(first as int, first + length) == self.bytes().subrange(
                second as int,
                second + length,
            )),
    {
        let bytes = self.source.as_bytes();
        let ghost a = bytes@.subrange(first as int, first + length);
        let ghost b = bytes@.subrange(second as int, second + length);
        let mut index: usize = 0;
        while index < length
            invariant
                bytes@ == self.bytes(),
                first + length <= bytes.len(),
                second + length <= bytes.len(),
                a == bytes@.subrange(first as int, first + length),
                b == bytes@.subrange(second as int, second + length),
                index <= length,
                forall|j: int| 0 <= j < index ==> #[trigger] a[j] == b[j],
            decreases length - index,
        {
            assert(a[index as int] == bytes@[first + index]);
            assert(b[index as int] == bytes@[second + index]);
            if bytes[first + index] != bytes[second + index] {
                return false;
            }
            index = index + 1;
        }
        assert(a =~= b);
        true
    }

    /// The slot of the most recently declared local named `source[start..start + length]`.
    fn find_symbol(&self, start: usize, length: usize) -> (slot: Option<u8>)
        requires
            self.inv(),
            start + length <= self.bytes().len(),
        ensures
            match find_symbol(self.bytes(), self.state().symbols, start, length) {
                Some(k) => slot == Some(k as u8) && k < SYMBOL_CAPACITY,
                None => slot is None,
            },
            slot matches Some(k) ==> k < SYMBOL_CAPACITY,
    {
        let ghost s = self.bytes();
        let ghost all = self.state().symbols;
        proof {
            lemma_find_symbol_bound(s, all, start, length);
            assert(all.subrange(0, all.len() as int) =~= all);
        }
        let mut index: usize = self.symbol_count;
        while index > 0
            invariant
                self.inv(),
                start + length <= s.len(),
                s == self.bytes(),
                all == self.state().symbols,
                index <= self.symbol_count,
                find_symbol(s, all, start, length) == find_symbol(
                    s,
                    all.subrange(0, index as int),
                    start,
                    length,
                ),
            decreases index,
        {
            let symbol = self.symbols[index - 1];
            let ghost prefix = all.subrange(0, index as int);
            assert(prefix.last() == (symbol.start, symbol.length));
            assert(prefix.drop_last() =~= all.subrange(0, index - 1));
            if symbol.length == length && self.same_bytes(symbol.start, start, length) {
                return Some(symbol.slot);
            }
            index = index - 1;
        }
        None
    }

    /// `expression := term { (+ | -) term }`
    fn expression(&mut self) -> (result: Result<(), &'static str>)
        requires
            loads_stored(old(self).code()),
            slots_stored(old(self).code(), old(self).state().symbols.len() as int),
            old(self).inv(),
        ensures
            result is Ok ==> loads_stored(final(self).code()) && slots_stored(final(self).code(), final(self).state().symbols.len() as int),
            result is Ok ==> emits(old(self).code(), final(self).code(), 0, 1),
            final(self).bytes() == old(self).bytes(),
            final(self).source_str() == old(self).source_str(),
            match p_expression(old(self).bytes(), old(self).state()) {
                Ok(st) => result is Ok && final(self).state() == st && final(self).inv(),
                Err(e) => result == Err::<(), &'static str>(e),
            },
            result is Ok ==> measure(final(self).bytes(), final(self).state()) <= measure(
                old(self).bytes(),
                old(self).state(),
            ),
        decreases measure(old(self).bytes(), old(self).state()), 5int,
    {
        let ghost c0 = self.code();
        self.term()?;
        let ghost c1 = self.code();
        self.expression_rest()?;
        proof {
            lemma_emits_then(c0, c1, self.code(), 0, 1, 1, 0);
        }
        Ok(())
    }

    fn expression_rest(&mut self) -> (result: Result<(), &'static str>)
        requires
            loads_stored(old(self).code()),
            slots_stored(old(self).code(), old(self).state().symbols.len() as int),
            old(self).inv(),
        ensures
            result is Ok ==> loads_stored(final(self).code()) && slots_stored(final(self).code(), final(self).state().symbols.len() as int),
            result is Ok ==> emits(old(self).code(), final(self).code(), 1, 0),
            final(self).bytes() == old(self).bytes(),
            final(self).source_str() == old(self).source_str(),
            match p_expression_rest(old(self).bytes(), old(self).state()) {
                Ok(st) => result is Ok && final(self).state() == st && final(self).inv(),
                Err(e) => result == Err::<(), &'static str>(e),
            },
            result is Ok ==> measure(final(self).bytes(), final(self).state()) <= measure(
                old(self).bytes(),
                old(self).state(),
            ),
        decreases measure(old(self).bytes(), old(self).state()), 4int,
    {
        let ghost c0 = self.code();
        proof {
            lemma_emits_nothing(c0, 1);
        }
        let op = match self.current {
            Token::Plus => Op::Add,
            Token::Minus => Op::Subtract,
            _ => return Ok(()),
        };
        self.advance()?;
        self.term()?;
        let ghost c1 = self.code();
        self.emit(op)?;
        proof {
            lemma_push_op(c1, op, self.state().symbols.len() as int);
        }
        let ghost c2 = self.code();
        self.expression_rest()?;
        proof {
            lemma_emits_weaken(c0, c1, 0, 1, 1, 1);
            lemma_emits_one(c1, op, 2);
            lemma_emits_then(c0, c1, c2, 1, 1, 2, -1);
            lemma_emits_then(c0, c2, self.code(), 1, 0, 1, 0);
        }
        Ok(())
    }

    /// `term := unary { (* | /) unary }`
    fn term(&mut self) -> (result: Result<(), &'static str>)
        requires
            loads_stored(old(self).code()),
            slots_stored(old(self).code(), old(self).state().symbols.len() as int),
            old(self).inv(),
        ensures
            result is Ok ==> loads_stored(final(self).code()) && slots_stored(final(self).code(), final(self).state().symbols.len() as int),
            result is Ok ==> emits(old(self).code(), final(self).code(), 0, 1),
            final(self).bytes() == old(self).bytes(),
            final(self).source_str() == old(self).source_str(),
            match p_term(old(self).bytes(), old(self).state()) {
                Ok(st) => result is Ok && final(self).state() == st && final(self).inv(),
                Err(e) => result == Err::<(), &'static str>(e),
            },
            result is Ok ==> measure(final(self).bytes(), final(self).state()) <= measure(
                old(self).bytes(),
                old(self).state(),
            ),
        decreases measure(old(self).bytes(), old(self).state()), 3int,
    {
        let ghost c0 = self.code();
        self.unary()?;
        let ghost c1 = self.code();
        self.term_rest()?;
        proof {
            lemma_emits_then(c0, c1, self.code(), 0, 1, 1, 0);
        }
        Ok(())
    }

    fn term_rest(&mut self) -> (result: Result<(), &'static str>)
        requires
            loads_stored(old(self).code()),
            slots_stored(old(self).code(), old(self).state().symbols.len() as int),
            old(self).inv(),
        ensures
            result is Ok ==> loads_stored(final(self).code()) && slots_stored(final(self).code(), final(self).state().symbols.len() as int),
            result is Ok ==> emits(old(self).code(), final(self).code(), 1, 0),
            final(self).bytes() == old(self).bytes(),
            final(self).source_str() == old(self).source_str(),
            match p_term_rest(old(self).bytes(), old(self).state()) {
                Ok(st) => result is Ok && final(self).state() == st && final(self).inv(),
                Err(e) => result == Err::<(), &'static str>(e),
            },
            result is Ok ==> measure(final(self).bytes(), final(self).state()) <= measure(
                old(self).bytes(),
                old(self).state(),
            ),
        decreases measure(old(self).bytes(), old(self).state()), 2int,
    {
        let ghost c0 = self.code();
        proof {
            lemma_emits_nothing(c0, 1);
        }
        let op = match self.current {
            Token::Star => Op::Multiply,
            Token::Slash => Op::Divide,
            _ => return Ok(()),
        };
        self.advance()?;
        self.unary()?;
        let ghost c1 = self.code();
        self.emit(op)?;
        proof {
            lemma_push_op(c1, op, self.state().symbols.len() as int);
        }
        let ghost c2 = self.code();
        self.term_rest()?;
        proof {
            lemma_emits_weaken(c0, c1, 0, 1, 1, 1);
            lemma_emits_one(c1, op, 2);
            lemma_emits_then(c0, c1, c2, 1, 1, 2, -1);
            lemma_emits_then(c0, c2, self.code(), 1, 0, 1, 0);
        }
        Ok(())
    }

    /// `unary := - unary | primary`
    fn unary(&mut self) -> (result: Result<(), &'static str>)
        requires
            loads_stored(old(self).code()),
            slots_stored(old(self).code(), old(self).state().symbols.len() as int),
            old(self).inv(),
        ensures
            result is Ok ==> loads_stored(final(self).code()) && slots_stored(final(self).code(), final(self).state().symbols.len() as int),
            result is Ok ==> emits(old(self).code(), final(self).code(), 0, 1),
            final(self).bytes() == old(self).bytes(),
            final(self).source_str() == old(self).source_str(),
            match p_unary(old(self).bytes(), old(self).state()) {
                Ok(st) => result is Ok && final(self).state() == st && final(self).inv(),
                Err(e) => result == Err::<(), &'static str>(e),
            },
            result is Ok ==> measure(final(self).bytes(), final(self).state()) <= measure(
                old(self).bytes(),
                old(self).state(),
            ),
        decreases measure(old(self).bytes(), old(self).state()), 1int,
    {
        if let Token::Minus = self.current {
            self.advance()?;
            let ghost c0 = self.code();
            self.unary()?;
            let ghost c1 = self.code();
            self.emit(Op::Negate)?;
            proof {
                lemma_push_op(c1, Op::Negate, self.state().symbols.len() as int);
                lemma_emits_one(c1, Op::Negate, 1);
                lemma_emits_then(c0, c1, self.code(), 0, 1, 1, 0);
            }
            return Ok(());
        }
        self.primary()
    }

    /// `primary := NUMBER | STRING | NAME | ( expression )`
    fn primary(&mut self) -> (result: Result<(), &'static str>)
        requires
            loads_stored(old(self).code()),
            slots_stored(old(self).code(), old(self).state().symbols.len() as int),
            old(self).inv(),
        ensures
            result is Ok ==> loads_stored(final(self).code()) && slots_stored(final(self).code(), final(self).state().symbols.len() as int),
            result is Ok ==> emits(old(self).code(), final(self).code(), 0, 1),
            final(self).bytes() == old(self).bytes(),
            final(self).source_str() == old(self).source_str(),
            match p_primary(old(self).bytes(), old(self).state()) {
                Ok(st) => result is Ok && final(self).state() == st && final(self).inv(),
                Err(e) => result == Err::<(), &'static str>(e),
            },
            result is Ok ==> measure(final(self).bytes(), final(self).state()) <= measure(
                old(self).bytes(),
                old(self).state(),
            ),
        decreases measure(old(self).bytes(), old(self).state()), 0int,
    {
        let ghost c0 = self.code();
        match self.current {
            Token::Number(value) => {
                self.emit(Op::PushInteger(value))?;
                proof {
                    lemma_push_op(c0, Op::PushInteger(value), self.state().symbols.len() as int);
                    lemma_emits_one(c0, Op::PushInteger(value), 0);
                }
                self.advance()
            },
            Token::String(start, length) => {
                self.emit(Op::PushString(start, length))?;
                proof {
                    lemma_push_op(c0, Op::PushString(start, length), self.state().symbols.len() as int);
                    lemma_emits_one(c0, Op::PushString(start, length), 0);
                }
                self.advance()
            },
            Token::Identifier(start, length) => {
                proof {
                    lemma_find_symbol_bound(self.bytes(), self.state().symbols, start, length);
                }
                let slot = match self.find_symbol(start, length) {
                    Some(slot) => slot,
                    None => return Err("unknown variable"),
                };
                let ghost count = self.state().symbols.len() as int;
                self.emit(Op::Load(slot))?;
                proof {
                    lemma_push_op(c0, Op::Load(slot), count);
                    lemma_emits_one(c0, Op::Load(slot), 0);
                }
                self.advance()
            },
            Token::LeftParen => {
                self.advance()?;
                self.expression()?;
                if let Token::RightParen = self.current {
                    self.advance()
                } else {
                    Err("expected ')'")
                }
            },
            _ => Err("expected an expression"),
        }
    }

    /// `local NAME = expression`, after the `local` keyword.
    fn local(&mut self) -> (result: Result<(), &'static str>)
        requires
            loads_stored(old(self).code()),
            slots_stored(old(self).code(), old(self).state().symbols.len() as int),
            old(self).inv(),
        ensures
            result is Ok ==> loads_stored(final(self).code()) && slots_stored(final(self).code(), final(self).state().symbols.len() as int),
            result is Ok ==> emits(old(self).code(), final(self).code(), 0, 0),
            final(self).bytes() == old(self).bytes(),
            final(self).source_str() == old(self).source_str(),
            match p_local(old(self).bytes(), old(self).state()) {
                Ok(st) => result is Ok && final(self).state() == st && final(self).inv(),
                Err(e) => result == Err::<(), &'static str>(e),
            },
            result is Ok ==> measure(final(self).bytes(), final(self).state()) < measure(
                old(self).bytes(),
                old(self).state(),
            ),
    {
        let (start, length) = match self.current {
            Token::Identifier(start, length) => (start, length),
            _ => return Err("expected a local variable name"),
        };
        self.advance()?;
        if let Token::Equal = self.current {
        } else {
            return Err("expected '=' after local name");
        }
        self.advance()?;
        let ghost c0 = self.code();
        self.expression()?;
        let ghost count = self.state().symbols.len() as int;
        let slot = self.add_symbol(start, length)?;
        let ghost c1 = self.code();
        self.emit(Op::Store(slot))?;
        proof {
            lemma_push_op(c1, Op::Store(slot), count);
            lemma_emits_one(c1, Op::Store(slot), 1);
            lemma_emits_then(c0, c1, self.code(), 0, 1, 1, -1);
        }
        Ok(())
    }

    /// One statement.
    fn statement(&mut self) -> (result: Result<(), &'static str>)
        requires
            loads_stored(old(self).code()),
            slots_stored(old(self).code(), old(self).state().symbols.len() as int),
            old(self).inv(),
        ensures
            result is Ok ==> loads_stored(final(self).code()) && slots_stored(final(self).code(), final(self).state().symbols.len() as int),
            result is Ok ==> emits(old(self).code(), final(self).code(), 0, 0),
            final(self).bytes() == old(self).bytes(),
            final(self).source_str() == old(self).source_str(),
            match p_statement(old(self).bytes(), old(self).state()) {
                Ok(st) => result is Ok && final(self).state() == st && final(self).inv(),
                Err(e) => result == Err::<(), &'static str>(e),
            },
            result is Ok ==> measure(final(self).bytes(), final(self).state()) < measure(
                old(self).bytes(),
                old(self).state(),
            ),
    {
        match self.current {
            Token::Local => {
                self.advance()?;
                self.local()
            },
            Token::Print => {
                self.advance()?;
                if let Token::LeftParen = self.current {
                } else {
                    return Err("expected '(' after print");
                }
                self.advance()?;
                let ghost c0 = self.code();
                self.expression()?;
                if let Token::RightParen = self.current {
                } else {
                    return Err("expected ')' after print value");
                }
                self.advance()?;
                let ghost c1 = self.code();
                self.emit(Op::Print)?;
                proof {
                    lemma_push_op(c1, Op::Print, self.state().symbols.len() as int);
                    lemma_emits_one(c1, Op::Print, 1);
                    lemma_emits_then(c0, c1, self.code(), 0, 1, 1, -1);
                }
                Ok(())
            },
            Token::Return => {
                self.advance()?;
                let ghost c0 = self.code();
                self.expression()?;
                let ghost c1 = self.code();
                self.emit(Op::Return)?;
                proof {
                    lemma_push_op(c1, Op::Return, self.state().symbols.len() as int);
                    lemma_emits_one(c1, Op::Return, 0);
                    lemma_emits_then(c0, c1, self.code(), 0, 1, 0, 0);
                    lemma_emits_weaken(c0, self.code(), 0, 1, 0, 0);
                }
                Ok(())
            },
            _ => Err("expected local, print, or return"),
        }
    }

    /// Compiles the whole program and ends it with `Halt`.
    #[verifier::loop_isolation(false)]
    pub fn compile_program(&mut self) -> (result: Result<(), &'static str>)
        requires
            loads_stored(old(self).code()),
            slots_stored(old(self).code(), old(self).state().symbols.len() as int),
            old(self).inv(),
        ensures
            result is Ok ==> loads_stored(final(self).code()),
            result is Ok ==> emits(old(self).code(), final(self).code(), 0, 0),
            final(self).bytes() == old(self).bytes(),
            final(self).source_str() == old(self).source_str(),
            match p_program(old(self).bytes(), old(self).state()) {
                Ok(st) => result is Ok && final(self).state() == st && final(self).inv(),
                Err(e) => result == Err::<(), &'static str>(e),
            },
    {
        let ghost s = self.bytes();
        let ghost goal = p_program(s, self.state());
        let ghost start = self.code();
        proof {
            lemma_emits_nothing(start, 0);
        }
        loop
            invariant
                self.inv(),
                self.bytes() == s,
                self.source_str() == old(self).source_str(),
                p_program(s, self.state()) == goal,
                emits(start, self.code(), 0, 0),
                loads_stored(self.code()),
                slots_stored(self.code(), self.state().symbols.len() as int),
            decreases measure(s, self.state()),
        {
            match self.current {
                Token::Eof => {
                    let ghost c1 = self.code();
                    self.emit(Op::Halt)?;
                    proof {
                        lemma_push_op(c1, Op::Halt, self.state().symbols.len() as int);
                        lemma_emits_one(c1, Op::Halt, 0);
                        lemma_emits_then(start, c1, self.code(), 0, 0, 0, 0);
                    }
                    return Ok(());
                },
                Token::Newline | Token::Semicolon => {
                    self.advance()?;
                    continue ;
                },
                _ => {},
            }
            let ghost before = measure(s, self.state());
            let ghost c1 = self.code();
            self.statement()?;
            proof {
                lemma_emits_then(start, c1, self.code(), 0, 0, 0, 0);
            }
            loop
                invariant
                    self.inv(),
                    self.bytes() == s,
                    self.source_str() == old(self).source_str(),
                    p_program(s, self.state()) == goal,
                    measure(s, self.state()) < before,
                    emits(start, self.code(), 0, 0),
                    loads_stored(self.code()),
                    slots_stored(self.code(), self.state().symbols.len() as int),
                decreases measure(s, self.state()),
            {
                match self.current {
                    Token::Newline | Token::Semicolon => {
                        self.advance()?;
                    },
                    _ => break ,
                }
            }
        }
    }
}

} // verus!
