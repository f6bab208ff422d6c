use lib::lua::compiler::{Compiler, Op};
use lib::lua::lexer::{Lexer, Token};
use lib::lua::{compile, Output, DEMO};

#[derive(Debug, PartialEq)]
enum Shown {
    Integer(i64),
    Text(String),
}

fn shown(outputs: &[Output]) -> Vec<Shown> {
    outputs
        .iter()
        .map(|o| match o {
            Output::Integer(v) => Shown::Integer(*v),
            Output::String(s) => Shown::Text(s.to_string()),
        })
        .collect()
}

fn run(source: &str) -> (Vec<Shown>, Option<Result<(), &'static str>>) {
    let program = compile(source).expect("compiles");
    let mut outputs = Vec::new();
    let result = program.try_run(&mut outputs);
    (shown(&outputs), result)
}

fn refusal(source: &str) -> &'static str {
    match compile(source) {
        Ok(_) => panic!("compiled"),
        Err(e) => e,
    }
}

#[test]
fn demo_prints_banner_and_answer() {
    let program = compile(DEMO).unwrap();
    let mut outputs = Vec::new();
    assert_eq!(program.run(&mut outputs), Ok(()));
    assert_eq!(
        shown(&outputs),
        vec![Shown::Text("Lua bytecode VM online".to_string()), Shown::Integer(43)]
    );
}

#[test]
fn arithmetic_follows_precedence() {
    assert_eq!(run("print(1 + 2 * 3)").0, vec![Shown::Integer(7)]);
    assert_eq!(run("print((1 + 2) * 3)").0, vec![Shown::Integer(9)]);
    assert_eq!(run("print(10 - 4 - 3)").0, vec![Shown::Integer(3)]);
    assert_eq!(run("print(-7 / 2)").0, vec![Shown::Integer(-3)]);
    assert_eq!(run("print(- -5)").0, vec![Shown::Integer(5)]);
}

#[test]
fn locals_strings_and_separators() {
    let (out, result) = run("local a = 2; local b = a * a\nprint('x'); print(\"y\")\nprint(b)");
    assert_eq!(result, Some(Ok(())));
    assert_eq!(
        out,
        vec![Shown::Text("x".to_string()), Shown::Text("y".to_string()), Shown::Integer(4)]
    );
}

#[test]
fn comments_and_blank_lines_are_skipped() {
    let (out, result) = run("-- a comment\n\n  print(1) -- trailing\n\t\r\n");
    assert_eq!(result, Some(Ok(())));
    assert_eq!(out, vec![Shown::Integer(1)]);
}

#[test]
fn return_stops_the_program() {
    let (out, result) = run("print(1)\nreturn 5\nprint(2)");
    assert_eq!(result, Some(Ok(())));
    assert_eq!(out, vec![Shown::Integer(1)]);
}

#[test]
fn integers_wrap_on_overflow() {
    assert_eq!(
        run("print(9223372036854775807 + 1)").0,
        vec![Shown::Integer(i64::MIN)]
    );
}

#[test]
fn runtime_errors_keep_earlier_output() {
    assert_eq!(
        run("print(1)\nprint(1 / 0)"),
        (vec![Shown::Integer(1)], Some(Err("division by zero")))
    );
    assert_eq!(run("print('a' + 1)").1, Some(Err("arithmetic expects integers")));
    assert_eq!(run("print(-'a')").1, Some(Err("unary minus expects an integer")));
}

#[test]
fn deep_nesting_overflows_the_stack() {
    let mut source = String::from("print(");
    for _ in 0..40 {
        source.push_str("1 + (");
    }
    source.push('1');
    for _ in 0..40 {
        source.push(')');
    }
    source.push(')');
    assert_eq!(run(&source).1, Some(Err("VM stack overflow")));
}

#[test]
fn minimum_divided_by_minus_one_traps() {
    let (out, result) = run("print(3)\nprint((-9223372036854775807 - 1) / -1)");
    assert_eq!(out, vec![Shown::Integer(3)]);
    assert_eq!(result, None);
}

#[test]
fn refusals() {
    assert_eq!(refusal("print(x)"), "unknown variable");
    assert_eq!(refusal("local = 3"), "expected a local variable name");
    assert_eq!(refusal("local x 3"), "expected '=' after local name");
    assert_eq!(refusal("print 1"), "expected '(' after print");
    assert_eq!(refusal("print(1"), "expected ')' after print value");
    assert_eq!(refusal("print((1)"), "expected ')' after print value");
    assert_eq!(refusal("print((1 2))"), "expected ')'");
    assert_eq!(refusal("print()"), "expected an expression");
    assert_eq!(refusal("x = 1"), "expected local, print, or return");
    assert_eq!(refusal("print('open"), "unterminated string");
    assert_eq!(refusal("print(99999999999999999999)"), "integer overflow");
    assert_eq!(refusal("print(1 ? 2)"), "unexpected character");
}

#[test]
fn capacity_limits() {
    let mut locals = String::new();
    for i in 0..17 {
        locals.push_str(&format!("local v{} = {}\n", i, i));
    }
    assert_eq!(refusal(&locals), "too many local variables");
    let mut prints = String::new();
    for _ in 0..70 {
        prints.push_str("print(1)\n");
    }
    assert_eq!(refusal(&prints), "bytecode program is too large");
}

#[test]
fn compiler_emits_bytecode() {
    let mut compiler = Compiler::new("local a = 6 * 7\nprint(a)").unwrap();
    assert_eq!(compiler.compile_program(), Ok(()));
    let (_, code, length) = compiler.finish();
    assert_eq!(length, 7);
    assert_eq!(code[length], Op::Halt);
    assert_eq!(
        code[..length].to_vec(),
        vec![
            Op::PushInteger(6),
            Op::PushInteger(7),
            Op::Multiply,
            Op::Store(0),
            Op::Load(0),
            Op::Print,
            Op::Halt
        ]
    );
}

#[test]
fn lexer_tokens() {
    let mut lexer = Lexer::new("local x = 'hi' -- note\n(print)+-*/;");
    let mut tokens = Vec::new();
    loop {
        let token = lexer.next().unwrap();
        tokens.push(token);
        if token == Token::Eof {
            break;
        }
    }
    assert_eq!(
        tokens,
        vec![
            Token::Local,
            Token::Identifier(6, 1),
            Token::Equal,
            Token::String(11, 2),
            Token::Newline,
            Token::LeftParen,
            Token::Print,
            Token::RightParen,
            Token::Plus,
            Token::Minus,
            Token::Star,
            Token::Slash,
            Token::Semicolon,
            Token::Eof
        ]
    );
}

#[test]
fn compiled_programs_keep_their_stack_and_locals() {
    let sources = [
        DEMO,
        "local a = 1\nlocal b = a + a * a\nprint(b - -a)\nreturn b",
        "print((((1))))\nprint('x')",
        "local a = 'text'\nprint(a)\nlocal a = 2\nprint(a)",
        "return 1 + 2\nprint(3)",
    ];
    for source in sources {
        let (_, result) = run(source);
        assert_eq!(result, Some(Ok(())));
    }
    let (out, _) = run("local a = 'text'\nprint(a)\nlocal a = 2\nprint(a)");
    assert_eq!(out, vec![Shown::Text("text".to_string()), Shown::Integer(2)]);
}
