use gorilla::builtin_types::integer::new_integer;
use gorilla::builtin_types::null::new_null;
use gorilla::builtin_types::string::new_string;
use gorilla::env::Environment;
use gorilla::grammar::Grammar;
use gorilla::helpers::{compile_code, run_bytecode, run_code, run_code_with_env};
use gorilla::obj::BaseObject;
use gorilla::vm::{Host, VM};

fn b(g: Grammar) -> u8 {
    u8::from(g)
}

fn run(code: &str) -> Result<Option<BaseObject>, (String, usize)> {
    run_code(code, &mut Host::new())
}

fn error_of(bytes: Vec<u8>) -> String {
    VM::new(bytes).run().unwrap_err()
}

#[test]
fn bytecode_must_start_with_the_magic_byte() {
    assert_eq!(error_of(vec![]), "Not a valid Gorilla bytecode");
    assert_eq!(error_of(vec![b(Grammar::Pop)]), "Not a valid Gorilla bytecode");
    assert_eq!(VM::new(vec![b(Grammar::Magic)]).run(), Ok(None));
    assert_eq!(
        run_bytecode(vec![1, 2, 3], &mut Host::new()),
        Err(("Not a valid Gorilla bytecode".to_string(), 1))
    );
}

#[test]
fn a_byte_that_is_no_opcode_is_an_invalid_instruction() {
    assert_eq!(error_of(vec![b(Grammar::Magic), 0]), "Invalid instruction: 0");
    assert_eq!(error_of(vec![b(Grammar::Magic), 99]), "Invalid instruction: 99");
    assert_eq!(error_of(vec![b(Grammar::Magic), b(Grammar::Magic)]), "Invalid instruction: 105");
    assert_eq!(error_of(vec![b(Grammar::Magic), b(Grammar::Noop), 255]), "Invalid instruction: 255");
}

#[test]
fn bytecode_that_ends_early_or_holds_bad_operands_fails() {
    let magic = b(Grammar::Magic);
    assert_eq!(error_of(vec![magic, b(Grammar::Integer)]), "Unexpected end of bytecode");
    assert_eq!(error_of(vec![magic, b(Grammar::Integer), 3, 0xe5]), "Unexpected end of bytecode");
    assert_eq!(error_of(vec![magic, b(Grammar::String), 1, 5, b'a']), "Unexpected end of bytecode");
    assert_eq!(error_of(vec![magic, b(Grammar::Integer), 1, 0x80]), "Not a valid integer");
    assert_eq!(error_of(vec![magic, b(Grammar::Integer), 0]), "Not a valid integer");
    assert_eq!(error_of(vec![magic, b(Grammar::String), 1, 1, 0xff]), "Not a valid string");
    assert_eq!(error_of(vec![magic, b(Grammar::Pop)]), "Pop on empty stack");
    assert_eq!(error_of(vec![magic, b(Grammar::Setvar), 1, 1, b'a']), "Pop on empty stack");
    assert_eq!(
        error_of(vec![magic, b(Grammar::Null), b(Grammar::Call), 1, 2]),
        "Pop on empty stack"
    );
    assert_eq!(
        error_of(vec![magic, b(Grammar::Function), 1, 1, b'f', 1, 0, 1, 9, 1]),
        "Unexpected end of bytecode"
    );
}

#[test]
fn the_line_counter_follows_the_markers() {
    let magic = b(Grammar::Magic);
    let mut vm = VM::new(vec![magic, b(Grammar::Advance), b(Grammar::Advance), b(Grammar::Back)]);
    assert_eq!(vm.run(), Ok(None));
    assert_eq!(vm.line, 1);
    let mut vm = VM::new(vec![magic, b(Grammar::Back), b(Grammar::Advance), b(Grammar::Pop)]);
    assert_eq!(vm.run(), Err("Pop on empty stack".to_string()));
    assert_eq!(vm.line, 1);
}

#[test]
fn errors_come_with_their_line() {
    assert_eq!(run("1\n\nnope"), Err(("Variable 'nope' is not defined".to_string(), 3)));
    assert_eq!(run("1 / 0"), Err(("Integer division by 0 in 1 / 0".to_string(), 1)));
    assert_eq!(run("1\n7 % 0"), Err(("Integer modulo by 0 in 7 % 0".to_string(), 2)));
    assert_eq!(
        run("1.this_does_not_exist"),
        Err((
            "Attribute 'this_does_not_exist' does not exist on '1' (Class 'Integer')".to_string(),
            1
        ))
    );
    assert_eq!(run("5()"), Err(("'5' (Class 'Integer') is not callable".to_string(), 1)));
    assert_eq!(run("(1").unwrap_err(), ("expected ')' at offset 2".to_string(), 1));
    assert_eq!(
        run("\"abc\".i!"),
        Err(("Cannot parse 'abc' to 64-bit integer".to_string(), 1))
    );
}

#[test]
fn integer_literals_run_to_their_value() {
    for v in [0i64, 1, 127, 128, 624485, i64::MAX] {
        assert_eq!(run(&v.to_string()), Ok(Some(new_integer(v))));
    }
}

#[test]
fn a_variable_reads_back_what_was_assigned_last() {
    assert_eq!(run("abc = 5; abc"), Ok(Some(new_integer(5))));
    assert_eq!(run("abc = 5; abc = 6; abc"), Ok(Some(new_integer(6))));
    assert_eq!(run("a = b = 3; a + b"), Ok(Some(new_integer(6))));
}

#[test]
fn an_assignment_to_a_global_name_stays_global() {
    let mut host = Host::new();
    let (result, env) = run_code_with_env("true = 5; x = 1; true", Environment::default(), &mut host);
    assert_eq!(result, Ok(Some(new_integer(5))));
    assert_eq!(env.get("x".to_string()), Some(new_integer(1)));
    assert_eq!(env.get("true".to_string()), None);
}

#[test]
fn the_environment_is_carried_from_run_to_run() {
    let mut host = Host::new();
    let (result, env) = run_code_with_env("x = 41", Environment::default(), &mut host);
    assert_eq!(result, Ok(Some(new_integer(41))));
    let (result, env) = run_code_with_env("x + 1", env, &mut host);
    assert_eq!(result, Ok(Some(new_integer(42))));
    let (result, env) = run_code_with_env("y", env, &mut host);
    assert_eq!(result, Err(("Variable 'y' is not defined".to_string(), 1)));
    assert_eq!(env.get("x".to_string()), Some(new_integer(41)));
    let (result, env) = run_code_with_env("(", env, &mut host);
    assert!(result.is_err());
    assert_eq!(env.get("x".to_string()), Some(new_integer(41)));
}

#[test]
fn conditionals_and_loops_always_yield_a_value() {
    assert_eq!(run("while 1>2 {1}"), Ok(Some(new_null())));
    assert_eq!(run("i = 0; while i < 3 { i = i + 1 }"), Ok(Some(new_null())));
    assert_eq!(run("if 0 {}"), Ok(Some(new_null())));
    assert_eq!(run("if 1 {}"), Ok(Some(new_null())));
    assert_eq!(run("if 1 {} else {5}"), Ok(Some(new_null())));
    assert_eq!(run("if 0 {} else {5}"), Ok(Some(new_integer(5))));
    assert_eq!(run("if 1 { 7 }"), Ok(Some(new_integer(7))));
    assert_eq!(run("if 0 { 7 }"), Ok(Some(new_null())));
    assert_eq!(run("x = if 0 { 1 } else { 2 }; x"), Ok(Some(new_integer(2))));
    assert_eq!(run("if 1 { fn f() 1 }"), Ok(Some(new_null())));
    assert_eq!(run("if 1 { fn f() 1 } f()"), Ok(Some(new_integer(1))));
    assert_eq!(run("if \"\" 1 else 2"), Ok(Some(new_integer(2))));
    assert_eq!(run("if null 1 else if false 2 else 3"), Ok(Some(new_integer(3))));
}

#[test]
fn an_expression_inside_another_leaves_one_value() {
    assert_eq!(run("x = while 1>2 {1}; x"), Ok(Some(new_null())));
    assert_eq!(run("x = if 1 { while 1>2 {1} } else { 2 }; x"), Ok(Some(new_null())));
    assert_eq!(run("x = if 1 { if 0 { 1 } else { 2 } } else { 3 }; x + 1"), Ok(Some(new_integer(3))));
    assert_eq!(run("i = 0; n = 0; while i < 3 { i = i + 1; n = n + if i > 1 { 10 } else { 1 } }; n"), Ok(Some(new_integer(21))));
}

#[test]
fn loops_jump_back_to_their_start_wherever_they_stand() {
    assert_eq!(run("i = 0\nwhile i < 3 { i = i + 1 }\ni"), Ok(Some(new_integer(3))));
    let nested = "
fn count(n) {
    total = 0
    i = 0
    while i < n {
        j = 0
        while j < i {
            if j % 2 == 0 {
                k = 0
                while k < 2 { total = total + 1; k = k + 1 }
            }
            j = j + 1
        }
        i = i + 1
    }
    total
}
if 1 { count(5) }";
    assert_eq!(run(nested), Ok(Some(new_integer(12))));
}

#[test]
fn jumps_over_long_blocks_take_wider_operands() {
    let long = "x".repeat(300);
    let code = format!("if 0 {{ \"{}\" }} else {{ 2 }}", long);
    assert_eq!(run(&code), Ok(Some(new_integer(2))));
    let code = format!("if 1 {{ \"{}\"; 7 }} else {{ \"{}\" }}", long, long);
    assert_eq!(run(&code), Ok(Some(new_integer(7))));
    let code = format!("i = 0; while i < 2 {{ \"{}\"; i = i + 1 }}; i", long);
    assert_eq!(run(&code), Ok(Some(new_integer(2))));
    let code = format!("if 0 {{ \"{}\" }}", long);
    let bytes = compile_code(&code).unwrap();
    // the first jump skips the string, 1 + 3 + 300 bytes, and the second jump, 1 + 2 bytes:
    // 307 is 0xb3 0x02 in LEB128
    assert_eq!(
        &bytes[..8],
        &[b(Grammar::Magic), b(Grammar::Integer), 1, 0, b(Grammar::JumpIfFalse), 2, 0xb3, 0x02]
    );
    assert_eq!(bytes.len(), 8 + 304 + 3 + 1 + 1);
}

#[test]
fn functions_take_their_arguments_by_position() {
    assert_eq!(run("fn sub(a, b) a - b\nsub(10, 3)"), Ok(Some(new_integer(7))));
    assert_eq!(run("fn f() { }\nf()"), Ok(Some(new_null())));
    assert_eq!(run("fn f() { 1; 2 }\nf!"), Ok(Some(new_integer(2))));
    assert_eq!(
        run("fn fact(n) { if n < 2 { 1 } else { n * fact(n - 1) } }\nfact(10)"),
        Ok(Some(new_integer(3628800)))
    );
}

#[test]
fn a_call_with_the_wrong_number_of_arguments_fails() {
    let code = "fn add_anything(item1, item2) item1 + item2\nadd_anything(1)";
    assert_eq!(
        run(code),
        Err(("Function 'add_anything' expected 2 arguments, got 1".to_string(), 2))
    );
    let code = "fn f() 1\nf(1, 2, 3)";
    assert_eq!(run(code), Err(("Function 'f' expected 0 arguments, got 3".to_string(), 2)));
}

#[test]
fn what_a_function_binds_stays_in_its_call() {
    assert_eq!(
        run("fn f(a) a\nf(1)\na"),
        Err(("Variable 'a' is not defined".to_string(), 3))
    );
    assert_eq!(run("x = 5\nfn f() x\nf()"), Ok(Some(new_integer(5))));
    assert_eq!(run("x = 5\nfn f() { x = 6 }\nf()\nx"), Ok(Some(new_integer(5))));
    assert_eq!(
        run("fn f() y\nf()"),
        Err(("In Function 'f': Variable 'y' is not defined".to_string(), 2))
    );
}

#[test]
fn calls_nest_only_so_deep() {
    let (message, line) = run("fn f(n) f(n + 1)\nf(0)").unwrap_err();
    assert!(message.starts_with("In Function 'f': In Function 'f': "));
    assert!(message.ends_with(": Recursion too deep"));
    assert_eq!(line, 2);
    let mut host = Host::new();
    host.depth_left = 0;
    assert_eq!(
        run_code("fn f() 1\nf()", &mut host),
        Err(("Recursion too deep".to_string(), 2))
    );
    host.depth_left = 1;
    assert_eq!(run_code("fn f() 1\nf()", &mut host), Ok(Some(new_integer(1))));
    assert_eq!(host.depth_left, 1);
}

#[test]
fn a_run_stops_when_its_budget_is_used_up() {
    let mut host = Host::new();
    host.steps_left = 1000;
    assert_eq!(
        run_code("while 1 { 1 }", &mut host),
        Err(("Step limit reached".to_string(), 1))
    );
    assert_eq!(host.steps_left, 0);
    host.steps_left = 2;
    assert_eq!(run_code("624485", &mut host), Ok(Some(new_integer(624485))));
    assert_eq!(host.steps_left, 0);
    host.steps_left = 1;
    assert_eq!(run_code("624485", &mut host), Err(("Step limit reached".to_string(), 1)));
}

#[test]
fn println_adds_to_the_output_and_returns_the_text() {
    let mut host = Host::new();
    let result = run_code("println(1, \"a\")\nprintln()\nfn f() println(\"in\")\nf()", &mut host);
    assert_eq!(result, Ok(Some(new_string("in".to_string()))));
    assert_eq!(host.output, vec!["1 a\n".to_string(), "\n".to_string(), "in\n".to_string()]);
    let result = run_code("println(\"x\"); nope", &mut host);
    assert!(result.is_err());
    assert_eq!(host.output.len(), 4);
    let result = run_code("fn g() { println(\"y\"); nope }\ng()", &mut host);
    assert!(result.is_err());
    assert_eq!(host.output.last(), Some(&"y\n".to_string()));
}

#[test]
fn running_compiled_bytecode_is_running_the_source() {
    let programs = [
        "1453 + 26 * 7",
        "abc = 4763 / 23 + 98765; abc",
        "fn add_anything(item1, item2) item1 + item2\nadd_anything(\"LOL \", \"ALR\")",
        "i = 0\nwhile i < 10 { i = i + 1 }\nprintln(i)",
        "1 / 0",
        "\n\nnope",
        "if 1 { 2 } else { 3 }",
        "",
    ];
    for code in programs {
        let mut direct = Host::new();
        let mut staged = Host::new();
        let bytes = compile_code(code).unwrap();
        assert_eq!(run_code(code, &mut direct), run_bytecode(bytes, &mut staged), "{:?}", code);
        assert_eq!(direct.output, staged.output);
    }
}

#[test]
fn index_expressions_and_vector_literals_have_no_bytecode() {
    let message = "index expressions and vector literals cannot be compiled".to_string();
    assert_eq!(compile_code("[1, 2]"), Err((message.clone(), 1)));
    assert_eq!(compile_code("a = 1\nfn f() { if 1 { a[0] } }"), Err((message.clone(), 2)));
    assert_eq!(compile_code("1 + 2\n\nf(3, [4][0])"), Err((message.clone(), 3)));
    assert_eq!(run("x = []"), Err((message, 1)));
}

#[test]
fn the_inspect_form_of_a_string_parses_back() {
    for s in ["", "plain", "new\nline\0", "a\"b'c\\d", "tab\there\r", "\\n", "é \u{301}"] {
        let literal = new_string(s.to_string()).to_inspect_string();
        assert_eq!(run(&literal), Ok(Some(new_string(s.to_string()))), "{:?}", literal);
    }
}

#[test]
fn an_error_comes_with_the_number_of_its_line_counted_from_one() {
    assert_eq!(run("1\n1 / 0"), Err(("Integer division by 0 in 1 / 0".to_string(), 2)));
    assert_eq!(run("("), Err(("expected an expression at offset 1".to_string(), 1)));
    assert_eq!(run("1\n\n  (2"), Err(("expected ')' at offset 7".to_string(), 3)));
    assert_eq!(compile_code("a\n\"open"), Err(("unterminated string literal at offset 2".to_string(), 2)));
    assert_eq!(
        run_bytecode(vec![b(Grammar::Magic), b(Grammar::Advance), b(Grammar::Pop)], &mut Host::new()),
        Err(("Pop on empty stack".to_string(), 2))
    );
}

#[test]
fn the_input_pointer_stays_inside_the_bytecode() {
    let magic = b(Grammar::Magic);
    // a jump behind the end lands on the end
    let mut vm = VM::new(vec![magic, b(Grammar::Jump), 1, 100, b(Grammar::Null)]);
    assert_eq!(vm.run(), Ok(None));
    assert_eq!(vm.ip, 5);
    let mut vm = VM::new(vec![magic, b(Grammar::JumpTo), 2, 0xe8, 0x07]);
    assert_eq!(vm.run(), Ok(None));
    assert_eq!(vm.ip, 5);
    let mut vm = VM::new(vec![magic, b(Grammar::Null), b(Grammar::JumpIfFalse), 1, 9]);
    assert_eq!(vm.run(), Ok(Some(new_null())));
    assert_eq!(vm.ip, 5);
    // an operand that is cut off: the pointer stands on the instruction
    let mut vm = VM::new(vec![magic, b(Grammar::Null), b(Grammar::Integer), 3, 1]);
    assert!(vm.run().is_err());
    assert_eq!(vm.ip, 2);
}

#[test]
fn a_failing_instruction_leaves_the_machine_as_it_stood() {
    let magic = b(Grammar::Magic);
    // a wrong magic byte: nothing runs
    let mut vm = VM::new(vec![b(Grammar::Pop), b(Grammar::Null)]);
    vm.stack.push(new_integer(1));
    vm.last_popped = Some(new_integer(2));
    assert_eq!(vm.run(), Err("Not a valid Gorilla bytecode".to_string()));
    assert_eq!(vm.stack, vec![new_integer(1)]);
    assert_eq!(vm.last_popped, Some(new_integer(2)));
    assert_eq!(vm.ip, 0);
    // an undefined variable: the stack stays, the input pointer stands on the instruction
    let mut vm = VM::new(vec![magic, b(Grammar::Integer), 1, 4, b(Grammar::Getvar), 1, 2, b'a', b'b']);
    assert_eq!(vm.run(), Err("Variable 'ab' is not defined".to_string()));
    assert_eq!(vm.stack, vec![new_integer(4)]);
    assert_eq!(vm.last_popped, None);
    assert_eq!(vm.ip, 4);
    // a missing member: the object was popped before the name was looked up
    let mut vm = VM::new(vec![magic, b(Grammar::Null), b(Grammar::Integer), 1, 4, b(Grammar::GetInstance), 1, 1, b'?']);
    assert!(vm.run().is_err());
    assert_eq!(vm.stack, vec![new_null()]);
    assert_eq!(vm.last_popped, Some(new_integer(4)));
    assert_eq!(vm.ip, 5);
    // a call with too few objects on the stack: all of them are popped
    let mut vm = VM::new(vec![magic, b(Grammar::Integer), 1, 7, b(Grammar::Null), b(Grammar::Call), 1, 5]);
    assert_eq!(vm.run(), Err("Pop on empty stack".to_string()));
    assert_eq!(vm.stack, vec![]);
    assert_eq!(vm.last_popped, Some(new_integer(7)));
    assert_eq!(vm.ip, 5);
    // a callee that fails: it and its arguments are gone, what lay under them stays
    let mut vm = VM::new(vec![magic, b(Grammar::Null), b(Grammar::Integer), 1, 7, b(Grammar::Integer), 1, 5, b(Grammar::Call), 1, 1]);
    assert_eq!(vm.run(), Err("'5' (Class 'Integer') is not callable".to_string()));
    assert_eq!(vm.stack, vec![new_null()]);
    assert_eq!(vm.last_popped, Some(new_integer(7)));
    assert_eq!(vm.ip, 8);
    assert_eq!(vm.line, 0);
}
