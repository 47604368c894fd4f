//! The virtual machine: runs bytecode against an operand stack, two
//! environments and the object model.
//!
//! What a run does is stated by `run_machine`: the instructions one by one
//! by `step`, a call by `call_outcome`.

use vstd::prelude::*;
use vstd::pervasive::VecAdditionalExecFns;
use vstd::string::StringExecFns;
use vstd::utf8::{decode_utf8, valid_utf8};
use crate::builtin_types::bool::{boolean_view, new_boolean};
use crate::builtin_types::function::{function_view, new_function};
use crate::builtin_types::integer::{integer_view, new_integer};
use crate::builtin_types::native_function::{
    Outcome, call_native, native_outcome, native_view, new_native_function, result_view,
};
use crate::builtin_types::null::{new_null, null_view};
use crate::builtin_types::string::{new_string, string_view};
use crate::env::{Bindings, Environment, bind, lookup};
use crate::grammar::Grammar;
use crate::leb::{decode_unsigned, leb128_decode, lemma_decode_bound, lemma_room_zero};
use crate::obj::{
    BaseObject, Native, ObjResult, ObjectView, ValueType, ValueView, class_lookup, class_text,
    copy_objects, copy_strings, not_callable_text, objects_view, strings_view, value_text,
    value_truthy,
};
use crate::text::{decimal, push_decimal, utf8_to_string};

verus! {

/// The state of a machine as a mathematical value.
pub struct Machine {
    /// The bytecode.
    pub source: Seq<u8>,
    /// The offset of the next instruction.
    pub ip: int,
    /// The line counter.
    pub line: int,
    /// The operand stack, the top last.
    pub stack: Seq<ObjectView>,
    /// The object that was popped last.
    pub last_popped: Option<ObjectView>,
    /// The local variables.
    pub env: Bindings,
    /// The global variables.
    pub global: Bindings,
    /// What was printed so far.
    pub output: Seq<Seq<char>>,
    /// How many instructions the machine may still run.
    pub steps_left: nat,
    /// How deep calls of declared functions may still nest.
    pub depth_left: nat,
}

/// How a run ended.
pub struct Halt {
    /// The object that was popped last, or the message of the error.
    pub result: Result<Option<ObjectView>, Seq<char>>,
    /// The machine at the end. After an error it is the machine as the
    /// instruction that failed left it: the input pointer still stands on
    /// that instruction.
    pub machine: Machine,
}

/// Why an instruction failed, and the machine as it left it. The input
/// pointer, the line and the variables are those from before the
/// instruction. The stack is too, but for what the instruction had popped
/// when it failed.
pub struct Fault {
    pub message: Seq<char>,
    pub machine: Machine,
}

/// The message for bytecode that ends inside an instruction.
pub open spec fn truncated_text() -> Seq<char> {
    "Unexpected end of bytecode"@
}

/// The message for a byte that is no opcode.
pub open spec fn invalid_text(byte: u8) -> Seq<char> {
    "Invalid instruction: "@ + decimal(byte as nat)
}

/// The message for a pop from the empty stack.
pub open spec fn pop_text() -> Seq<char> {
    "Pop on empty stack"@
}

/// The message for a variable that is not bound.
pub open spec fn undefined_text(name: Seq<char>) -> Seq<char> {
    "Variable '"@ + name + "' is not defined"@
}

/// The message for a member that no class up the chain has.
pub open spec fn attribute_text(name: Seq<char>, on: ObjectView) -> Seq<char> {
    "Attribute '"@ + name + "' does not exist on '"@ + value_text(on.value, false) + "' ("@
        + class_text(on.class) + ")"@
}

/// The message for a call with the wrong number of arguments.
pub open spec fn mismatch_text(this: ObjectView, want: nat, got: nat) -> Seq<char> {
    value_text(this.value, true) + " expected "@ + decimal(want) + " arguments, got "@ + decimal(
        got,
    )
}

/// The message of an error inside a function, with the function's name.
pub open spec fn inside_text(this: ObjectView, e: Seq<char>) -> Seq<char> {
    "In "@ + value_text(this.value, true) + ": "@ + e
}

/// An unsigned operand at `ip`: a byte that counts the LEB128 bytes, then
/// those bytes. Gives the number and the offset behind it.
pub open spec fn read_uint(src: Seq<u8>, ip: int) -> Result<(u64, int), Seq<char>> {
    if !(0 <= ip < src.len()) {
        Err(truncated_text())
    } else if ip + 1 + src[ip] > src.len() {
        Err(truncated_text())
    } else {
        match leb128_decode(src.subrange(ip + 1, ip + 1 + src[ip]), 0) {
            Some(v) => Ok((v as u64, ip + 1 + src[ip])),
            None => Err("Not a valid integer"@),
        }
    }
}

/// A string operand at `ip`: its length in bytes as an unsigned operand,
/// then its UTF-8 bytes. Gives the text and the offset behind it.
pub open spec fn read_text(src: Seq<u8>, ip: int) -> Result<(Seq<char>, int), Seq<char>> {
    match read_uint(src, ip) {
        Err(e) => Err(e),
        Ok((n, p)) => {
            if p + n > src.len() {
                Err(truncated_text())
            } else if valid_utf8(src.subrange(p, p + n)) {
                Ok((decode_utf8(src.subrange(p, p + n)), p + n))
            } else {
                Err("Not a valid string"@)
            }
        },
    }
}

/// `n` string operands from `ip` on, after those in `acc`.
pub open spec fn read_texts(src: Seq<u8>, ip: int, n: nat, acc: Seq<Seq<char>>) -> Result<
    (Seq<Seq<char>>, int),
    Seq<char>,
>
    decreases n,
{
    if n == 0 {
        Ok((acc, ip))
    } else {
        match read_text(src, ip) {
            Err(e) => Err(e),
            Ok((s, p)) => read_texts(src, p, (n - 1) as nat, acc.push(s)),
        }
    }
}

/// The global variables that every machine starts with: `true`, `false`,
/// `null` and `println`.
pub open spec fn default_global() -> Bindings {
    bind(
        bind(
            bind(bind(Seq::empty(), "true"@, boolean_view(true)), "false"@, boolean_view(false)),
            "null"@,
            null_view(),
        ),
        "println"@,
        native_view("println"@, Native::PrintLine),
    )
}

/// A machine that is about to run `source`, with its budgets.
pub open spec fn fresh_machine(source: Seq<u8>, steps: nat, depth: nat) -> Machine {
    Machine {
        source: source,
        ip: 0,
        line: 0,
        stack: Seq::empty(),
        last_popped: None,
        env: Seq::empty(),
        global: default_global(),
        output: Seq::empty(),
        steps_left: steps,
        depth_left: depth,
    }
}

/// The instructions that a new machine may run.
pub open spec fn default_steps() -> nat {
    u64::MAX as nat
}

/// How deep calls may nest in a new machine.
pub open spec fn default_depth() -> nat {
    200
}

/// `env` with the first `n` of `params` bound to the arguments in the same
/// places.
pub open spec fn bind_all(env: Bindings, params: Seq<Seq<char>>, args: Seq<ObjectView>, n: nat) -> Bindings
    decreases n,
{
    if n == 0 || n > params.len() || n > args.len() {
        env
    } else {
        bind(bind_all(env, params, args, (n - 1) as nat), params[n - 1], args[n - 1])
    }
}

/// The fault of an instruction that fails with this message before it has
/// changed anything of machine `m`.
pub open spec fn fault(m: Machine, message: Seq<char>) -> Result<Machine, Fault> {
    Err(Fault { message: message, machine: m })
}

/// Machine `m` with the top of its stack popped.
pub open spec fn popped(m: Machine) -> Machine {
    Machine { stack: m.stack.drop_last(), last_popped: Some(m.stack.last()), ..m }
}

/// `Pop`: takes the top of the stack away and remembers it.
pub open spec fn step_pop(m: Machine, at: int) -> Result<Machine, Fault> {
    if m.stack.len() == 0 {
        fault(m, pop_text())
    } else {
        Ok(Machine { ip: at, stack: m.stack.drop_last(), last_popped: Some(m.stack.last()), ..m })
    }
}

/// `Integer`: pushes the number in the operand.
pub open spec fn step_integer(m: Machine, at: int) -> Result<Machine, Fault> {
    match read_uint(m.source, at) {
        Err(e) => fault(m, e),
        Ok((v, p)) => Ok(Machine { ip: p, stack: m.stack.push(integer_view(v as i64)), ..m }),
    }
}

/// `String`: pushes the text in the operand.
pub open spec fn step_string(m: Machine, at: int) -> Result<Machine, Fault> {
    match read_text(m.source, at) {
        Err(e) => fault(m, e),
        Ok((s, p)) => Ok(Machine { ip: p, stack: m.stack.push(string_view(s)), ..m }),
    }
}

/// `Getvar`: pushes the variable named in the operand, the local one
/// before the global one.
pub open spec fn step_getvar(m: Machine, at: int) -> Result<Machine, Fault> {
    match read_text(m.source, at) {
        Err(e) => fault(m, e),
        Ok((name, p)) => match lookup(m.env, name) {
            Some(x) => Ok(Machine { ip: p, stack: m.stack.push(x), ..m }),
            None => match lookup(m.global, name) {
                Some(x) => Ok(Machine { ip: p, stack: m.stack.push(x), ..m }),
                None => fault(m, undefined_text(name)),
            },
        },
    }
}

/// `Setvar`: binds the variable named in the operand to the top of the
/// stack, which stays: the global variable where there is one of that
/// name, else the local one.
pub open spec fn step_setvar(m: Machine, at: int) -> Result<Machine, Fault> {
    match read_text(m.source, at) {
        Err(e) => fault(m, e),
        Ok((name, p)) => {
            if m.stack.len() == 0 {
                fault(m, pop_text())
            } else if lookup(m.global, name) is Some {
                Ok(
                    Machine {
                        ip: p,
                        last_popped: Some(m.stack.last()),
                        global: bind(m.global, name, m.stack.last()),
                        ..m
                    },
                )
            } else {
                Ok(
                    Machine {
                        ip: p,
                        last_popped: Some(m.stack.last()),
                        env: bind(m.env, name, m.stack.last()),
                        ..m
                    },
                )
            }
        },
    }
}

/// `GetInstance`: replaces the top of the stack by its member named in the
/// operand, with the object itself as the member's receiver. The object is
/// popped before the name is read, so it is gone where the instruction
/// fails on the name or on the member.
pub open spec fn step_get_instance(m: Machine, at: int) -> Result<Machine, Fault> {
    if m.stack.len() == 0 {
        fault(m, pop_text())
    } else {
        match read_text(m.source, at) {
            Err(e) => fault(popped(m), e),
            Ok((name, p)) => match class_lookup(m.stack.last().class, name) {
                Some(x) => Ok(
                    Machine {
                        ip: p,
                        stack: m.stack.drop_last().push(
                            ObjectView { parent: Some(Box::new(m.stack.last())), ..x },
                        ),
                        last_popped: Some(m.stack.last()),
                        ..m
                    },
                ),
                None => fault(popped(m), attribute_text(name, m.stack.last())),
            },
        }
    }
}

/// `Jump`: moves on by the distance in the operand, at most to the end.
pub open spec fn step_jump(m: Machine, at: int) -> Result<Machine, Fault> {
    match read_uint(m.source, at) {
        Err(e) => fault(m, e),
        Ok((d, p)) => Ok(Machine { ip: jump_target(m, p + d), ..m }),
    }
}

/// Where a jump to `to` lands: there, or at the end where `to` is behind it.
pub open spec fn jump_target(m: Machine, to: int) -> int {
    if to > m.source.len() {
        m.source.len() as int
    } else {
        to
    }
}

/// `JumpIfFalse`: pops the condition and, where it does not count as true,
/// moves on by the distance in the operand.
pub open spec fn step_jump_if_false(m: Machine, at: int) -> Result<Machine, Fault> {
    match read_uint(m.source, at) {
        Err(e) => fault(m, e),
        Ok((d, p)) => {
            if m.stack.len() == 0 {
                fault(m, pop_text())
            } else {
                Ok(
                    Machine {
                        ip: if value_truthy(m.stack.last().value) {
                            p
                        } else {
                            jump_target(m, p + d)
                        },
                        stack: m.stack.drop_last(),
                        last_popped: Some(m.stack.last()),
                        ..m
                    },
                )
            }
        },
    }
}

/// `JumpTo`: goes to the offset in the operand, at most to the end.
pub open spec fn step_jump_to(m: Machine, at: int) -> Result<Machine, Fault> {
    match read_uint(m.source, at) {
        Err(e) => fault(m, e),
        Ok((t, p)) => Ok(Machine { ip: jump_target(m, t as int), ..m }),
    }
}

/// `Function`: reads a declaration, that is a name, the number of
/// parameters and their names, the length of the body and the body, and
/// binds the local variable of that name to the function.
pub open spec fn step_function(m: Machine, at: int) -> Result<Machine, Fault> {
    match read_text(m.source, at) {
        Err(e) => fault(m, e),
        Ok((name, b1)) => match read_uint(m.source, b1) {
            Err(e) => fault(m, e),
            Ok((n, b2)) => match read_texts(m.source, b2, n as nat, Seq::empty()) {
                Err(e) => fault(m, e),
                Ok((params, b3)) => match read_uint(m.source, b3) {
                    Err(e) => fault(m, e),
                    Ok((size, b4)) => {
                        if b4 + size > m.source.len() {
                            fault(m, truncated_text())
                        } else {
                            Ok(
                                Machine {
                                    ip: b4 + size,
                                    env: bind(
                                        m.env,
                                        name,
                                        function_view(
                                            name,
                                            params,
                                            m.source.subrange(b4, b4 + size),
                                        ),
                                    ),
                                    ..m
                                },
                            )
                        }
                    },
                },
            },
        },
    }
}

/// The arguments of a call with `n` of them, where `rest` is the stack
/// under the callee: the top of `rest` is the first argument.
pub open spec fn call_arguments(rest: Seq<ObjectView>, n: nat) -> Seq<ObjectView> {
    Seq::new(n, |i: int| rest[rest.len() - 1 - i])
}

/// `Call`: pops the callee and as many arguments as the operand says, calls
/// the callee with them and the local variables, and pushes what it returns.
/// Where the stack holds too few objects, all of them are popped before the
/// instruction fails; where the callee fails, it and the arguments are gone.
pub open spec fn step_call(m: Machine, at: int) -> Result<Machine, Fault>
    decreases m.steps_left, 4nat,
{
    match read_uint(m.source, at) {
        Err(e) => fault(m, e),
        Ok((n, p)) => {
            if m.stack.len() == 0 {
                fault(m, pop_text())
            } else if m.stack.len() < 1 + n {
                fault(
                    Machine { stack: Seq::empty(), last_popped: Some(m.stack[0]), ..m },
                    pop_text(),
                )
            } else {
                let callee = m.stack.last();
                let rest = m.stack.drop_last();
                let args = call_arguments(rest, n as nat);
                let out = call_outcome(callee, callee, args, m.env, m.steps_left, m.depth_left);
                match out.result {
                    Err(e) => fault(
                        Machine {
                            stack: rest.take(rest.len() - n),
                            last_popped: Some(
                                if n == 0 {
                                    callee
                                } else {
                                    args[n - 1]
                                },
                            ),
                            output: m.output + out.output,
                            ..m
                        },
                        e,
                    ),
                    Ok(x) => Ok(
                        Machine {
                            ip: p,
                            stack: rest.take(rest.len() - n).push(x),
                            last_popped: Some(
                                if n == 0 {
                                    callee
                                } else {
                                    args[n - 1]
                                },
                            ),
                            output: m.output + out.output,
                            ..m
                        },
                    ),
                }
            }
        },
    }
}

/// What calling `callee` does, with `this` as the function that sees its
/// receiver, these arguments, and `env` as the caller's local variables:
/// a declared function runs its body, a native function computes, and
/// anything else is not callable.
pub open spec fn call_outcome(
    callee: ObjectView,
    this: ObjectView,
    args: Seq<ObjectView>,
    env: Bindings,
    steps: nat,
    depth: nat,
) -> Outcome
    decreases steps, 3nat,
{
    match callee.value {
        ValueView::Function(_, _, _) => function_outcome(this, args, env, steps, depth),
        ValueView::NativeFunction(_, _) => match this.value {
            ValueView::NativeFunction(_, f) => native_outcome(f, this, args),
            _ => Outcome { result: Err(not_callable_text(this)), output: Seq::empty() },
        },
        _ => Outcome { result: Err(not_callable_text(this)), output: Seq::empty() },
    }
}

/// What calling the declared function `this` does. With the wrong number
/// of arguments it fails, and so it does where calls may nest no deeper. Else
/// a new machine runs the body behind a magic byte: its local variables are
/// the caller's with the parameters bound to the arguments, its global
/// variables are the default ones, its budget of instructions is the
/// caller's. The call returns what the body popped last, or null; an error
/// comes back with the function's name in front.
pub open spec fn function_outcome(
    this: ObjectView,
    args: Seq<ObjectView>,
    env: Bindings,
    steps: nat,
    depth: nat,
) -> Outcome
    decreases steps, 2nat,
{
    match this.value {
        ValueView::Function(name, params, code) => {
            if params.len() != args.len() {
                Outcome {
                    result: Err(mismatch_text(this, params.len(), args.len())),
                    output: Seq::empty(),
                }
            } else if depth == 0 {
                Outcome { result: Err("Recursion too deep"@), output: Seq::empty() }
            } else {
                let h = run_machine(
                    Machine {
                        env: bind_all(env, params, args, params.len()),
                        ..fresh_machine(seq![Grammar::Magic.byte()] + code, steps, (depth - 1) as nat)
                    },
                );
                Outcome {
                    result: match h.result {
                        Ok(Some(x)) => Ok(x),
                        Ok(None) => Ok(null_view()),
                        Err(e) => Err(inside_text(this, e)),
                    },
                    output: h.machine.output,
                }
            }
        },
        _ => Outcome { result: Err(not_callable_text(this)), output: Seq::empty() },
    }
}

/// One instruction of machine `m`, which stands before the end of its
/// bytecode.
pub open spec fn step(m: Machine) -> Result<Machine, Fault>
    decreases m.steps_left, 5nat,
{
    let byte = m.source[m.ip];
    let at = m.ip + 1;
    match Grammar::of_byte(byte) {
        Some(Grammar::Pop) => step_pop(m, at),
        Some(Grammar::Noop) => Ok(Machine { ip: at, ..m }),
        Some(Grammar::Advance) => Ok(
            Machine {
                ip: at,
                line: if m.line < usize::MAX {
                    m.line + 1
                } else {
                    m.line
                },
                ..m
            },
        ),
        Some(Grammar::Back) => Ok(
            Machine {
                ip: at,
                line: if m.line > 0 {
                    m.line - 1
                } else {
                    m.line
                },
                ..m
            },
        ),
        Some(Grammar::Integer) => step_integer(m, at),
        Some(Grammar::String) => step_string(m, at),
        Some(Grammar::Null) => Ok(Machine { ip: at, stack: m.stack.push(null_view()), ..m }),
        Some(Grammar::Getvar) => step_getvar(m, at),
        Some(Grammar::Setvar) => step_setvar(m, at),
        Some(Grammar::GetInstance) => step_get_instance(m, at),
        Some(Grammar::Call) => step_call(m, at),
        Some(Grammar::JumpIfFalse) => step_jump_if_false(m, at),
        Some(Grammar::Jump) => step_jump(m, at),
        Some(Grammar::JumpTo) => step_jump_to(m, at),
        Some(Grammar::Function) => step_function(m, at),
        _ => fault(m, invalid_text(byte)),
    }
}

/// How machine `m` ends: at the end of its bytecode with what was popped
/// last; on the first instruction that fails; or, with its budget of
/// instructions used up, before the next one.
pub open spec fn run_loop(m: Machine) -> Halt
    decreases m.steps_left, 0nat,
{
    if m.ip < 0 || m.ip >= m.source.len() {
        Halt { result: Ok(m.last_popped), machine: m }
    } else if m.steps_left == 0 {
        Halt { result: Err("Step limit reached"@), machine: m }
    } else {
        match step(Machine { steps_left: (m.steps_left - 1) as nat, ..m }) {
            Err(f) => Halt { result: Err(f.message), machine: f.machine },
            Ok(m2) => run_loop(Machine { steps_left: (m.steps_left - 1) as nat, ..m2 }),
        }
    }
}

/// What running machine `m` does: where its bytecode starts with the magic
/// byte it runs the instructions behind it, else it fails at once.
pub open spec fn run_machine(m: Machine) -> Halt
    decreases m.steps_left, 1nat,
{
    if 0 <= m.ip < m.source.len() && m.source[m.ip] == Grammar::Magic.byte() {
        run_loop(Machine { ip: m.ip + 1, ..m })
    } else {
        Halt { result: Err("Not a valid Gorilla bytecode"@), machine: m }
    }
}

/// An operand that is read ends behind where it starts and inside the
/// bytecode.
pub proof fn lemma_operand_inside(src: Seq<u8>, ip: int)
    ensures
        match read_uint(src, ip) {
            Ok((v, p)) => ip < p <= src.len(),
            Err(_) => true,
        },
        match read_text(src, ip) {
            Ok((t, p)) => ip < p <= src.len(),
            Err(_) => true,
        },
{
}

/// String operands that are read end inside the bytecode.
pub proof fn lemma_operands_inside(src: Seq<u8>, ip: int, n: nat, acc: Seq<Seq<char>>)
    requires
        0 <= ip <= src.len(),
    ensures
        match read_texts(src, ip, n, acc) {
            Ok((t, p)) => ip <= p <= src.len(),
            Err(_) => true,
        },
    decreases n,
{
    if n > 0 {
        lemma_operand_inside(src, ip);
        match read_text(src, ip) {
            Ok((t, p)) => lemma_operands_inside(src, p, (n - 1) as nat, acc.push(t)),
            Err(_) => {},
        }
    }
}

/// The input pointer after one instruction. An instruction that runs
/// leaves the pointer behind where it was or on the target of a jump, and
/// never behind the end of the bytecode; one that fails leaves it where it
/// was. Neither changes the bytecode.
#[verifier::rlimit(40)]
#[verifier::spinoff_prover]
pub proof fn lemma_pointer_after_step(m: Machine)
    requires
        0 <= m.ip < m.source.len(),
    ensures
        match step(m) {
            Ok(next) => next.source == m.source && 0 <= next.ip <= m.source.len(),
            Err(f) => f.machine.source == m.source && f.machine.ip == m.ip,
        },
{
    let at = m.ip + 1;
    lemma_operand_inside(m.source, at);
    match Grammar::of_byte(m.source[m.ip]) {
        Some(Grammar::Function) => {
            assert(step(m) == step_function(m, at));
            match read_text(m.source, at) {
                Ok((name, b1)) => {
                    lemma_operand_inside(m.source, b1);
                    match read_uint(m.source, b1) {
                        Ok((n, b2)) => {
                            lemma_operands_inside(m.source, b2, n as nat, Seq::empty());
                            match read_texts(m.source, b2, n as nat, Seq::empty()) {
                                Ok((params, b3)) => lemma_operand_inside(m.source, b3),
                                Err(_) => {},
                            }
                        },
                        Err(_) => {},
                    }
                },
                Err(_) => {},
            }
        },
        Some(Grammar::Call) => {
            assert(step(m) == step_call(m, at));
        },
        _ => {},
    }
}

/// The input pointer stays inside the bytecode. However a machine ends,
/// at the end of its bytecode, on an instruction that fails, on a wrong
/// magic byte or with its budget used up, its input pointer is at most the
/// length of the bytecode, and the bytecode is what it was.
pub proof fn lemma_pointer_stays_inside(m: Machine)
    requires
        0 <= m.ip <= m.source.len(),
    ensures
        run_loop(m).machine.source == m.source,
        0 <= run_loop(m).machine.ip <= m.source.len(),
        run_machine(m).machine.source == m.source,
        0 <= run_machine(m).machine.ip <= m.source.len(),
    decreases m.steps_left, 1nat,
{
    lemma_pointer_in_loop(m);
    if m.ip < m.source.len() {
        lemma_pointer_in_loop(Machine { ip: m.ip + 1, ..m });
    }
}

/// The input pointer stays inside the bytecode while the instructions run.
proof fn lemma_pointer_in_loop(m: Machine)
    requires
        0 <= m.ip <= m.source.len(),
    ensures
        run_loop(m).machine.source == m.source,
        0 <= run_loop(m).machine.ip <= m.source.len(),
    decreases m.steps_left, 0nat,
{
    if m.ip < m.source.len() && m.steps_left > 0 {
        let now = Machine { steps_left: (m.steps_left - 1) as nat, ..m };
        lemma_pointer_after_step(now);
        match step(now) {
            Ok(next) => lemma_pointer_in_loop(
                Machine { steps_left: (m.steps_left - 1) as nat, ..next },
            ),
            Err(_) => {},
        }
    }
}

/// What a run shares with the calls it makes: the text that was printed,
/// and the budgets.
#[derive(Debug)]
pub struct Host {
    /// What was printed, oldest first, for the caller to write out.
    pub output: Vec<String>,
    /// How many instructions a machine may still run.
    pub steps_left: u64,
    /// How deep calls of declared functions may still nest.
    pub depth_left: usize,
}

impl Host {
    /// A host with nothing printed and the default budgets.
    pub fn new() -> (r: Self)
        ensures
            strings_view(r.output@) == Seq::<Seq<char>>::empty(),
            r.steps_left == default_steps(),
            r.depth_left == default_depth(),
    {
        let r = Host { output: Vec::new(), steps_left: u64::MAX, depth_left: 200 };
        proof {
            assert(strings_view(r.output@) =~= Seq::<Seq<char>>::empty());
        }
        r
    }
}

impl Clone for Host {
    fn clone(&self) -> (r: Self)
        ensures
            strings_view(r.output@) == strings_view(self.output@),
            r.steps_left == self.steps_left,
            r.depth_left == self.depth_left,
    {
        Host {
            output: copy_strings(&self.output),
            steps_left: self.steps_left,
            depth_left: self.depth_left,
        }
    }
}

impl Default for Host {
    fn default() -> (r: Self)
        ensures
            strings_view(r.output@) == Seq::<Seq<char>>::empty(),
            r.steps_left == default_steps(),
            r.depth_left == default_depth(),
    {
        Host::new()
    }
}

/// Whether a call that started with host `before` and ended with host
/// `after` and result `r` did what `out` says.
pub open spec fn called(before: Host, after: Host, r: ObjResult, out: Outcome) -> bool {
    &&& result_view(r) == out.result
    &&& strings_view(after.output@) == strings_view(before.output@) + out.output
    &&& after.steps_left == before.steps_left
    &&& after.depth_left == before.depth_left
}

/// The Virtual Machine
#[derive(Debug)]
pub struct VM {
    /// Source bytecode
    pub source: Vec<u8>,
    /// Input pointer
    pub ip: usize,
    /// Line
    pub line: usize,
    /// Stack of objects
    pub stack: Vec<BaseObject>,
    /// Last item popped. None when nothing is popped
    pub last_popped: Option<BaseObject>,
    /// The environment of VM
    pub env: Environment,
    /// Global Env
    pub global: Environment,
    /// The output and the budgets
    pub host: Host,
}

impl View for VM {
    type V = Machine;

    open spec fn view(&self) -> Machine {
        Machine {
            source: self.source@,
            ip: self.ip as int,
            line: self.line as int,
            stack: objects_view(self.stack@),
            last_popped: match self.last_popped {
                Some(x) => Some(x@),
                None => None,
            },
            env: self.env@,
            global: self.global@,
            output: strings_view(self.host.output@),
            steps_left: self.host.steps_left as nat,
            depth_left: self.host.depth_left as nat,
        }
    }
}

/// Whether an instruction that left the machine as `after`, with error
/// `r`, did what `want` says.
pub open spec fn stepped(after: VM, r: Option<String>, want: Result<Machine, Fault>) -> bool {
    match want {
        Ok(m) => r is None && after@ == m,
        Err(f) => r is Some && r.unwrap()@ == f.message && after@ == f.machine,
    }
}

impl Clone for VM {
    fn clone(&self) -> (r: Self)
        ensures
            r@ == self@,
    {
        let r = VM {
            source: copy_range(&self.source, 0, self.source.len()),
            ip: self.ip,
            line: self.line,
            stack: copy_objects(&self.stack),
            last_popped: match &self.last_popped {
                Some(x) => Some(x.clone()),
                None => None,
            },
            env: self.env.clone(),
            global: self.global.clone(),
            host: self.host.clone(),
        };
        proof {
            assert(self.source@.subrange(0, self.source@.len() as int) =~= self.source@);
        }
        r
    }
}

impl Default for VM {
    /// A machine without bytecode and without variables, not even the
    /// global ones that `new` provides.
    fn default() -> (r: Self)
        ensures
            r@ == (Machine {
                global: Seq::empty(),
                ..fresh_machine(Seq::empty(), default_steps(), default_depth())
            }),
    {
        let r = VM {
            source: Vec::new(),
            ip: 0,
            line: 0,
            stack: Vec::new(),
            last_popped: None,
            env: Environment::new(),
            global: Environment::new(),
            host: Host::new(),
        };
        proof {
            assert(r@.stack =~= Seq::<ObjectView>::empty());
        }
        r
    }
}

/// Whether a run that left the machine as `after` and returned `r` ended
/// as `want` says.
pub open spec fn halted(after: VM, r: Result<Option<BaseObject>, String>, want: Halt) -> bool {
    &&& after@ == want.machine
    &&& match r {
        Ok(Some(x)) => want.result == Ok::<Option<ObjectView>, Seq<char>>(Some(x@)),
        Ok(None) => want.result == Ok::<Option<ObjectView>, Seq<char>>(None),
        Err(e) => want.result == Err::<Option<ObjectView>, Seq<char>>(e@),
    }
}

/// Reads an unsigned operand at `ip`.
#[verifier::rlimit(30)]
#[verifier::spinoff_prover]
pub fn read_unsigned_int(source: &Vec<u8>, ip: usize) -> (r: Result<(u64, usize), String>)
    ensures
        match r {
            Ok((v, p)) => read_uint(source@, ip as int) == Ok::<(u64, int), Seq<char>>(
                (v, p as int),
            ) && ip < p <= source.len(),
            Err(e) => read_uint(source@, ip as int) == Err::<(u64, int), Seq<char>>(e@),
        },
{
    if ip >= source.len() {
        return Err(String::from_str("Unexpected end of bytecode"));
    }
    let n = source[ip] as usize;
    if n > source.len() - ip - 1 {
        return Err(String::from_str("Unexpected end of bytecode"));
    }
    let number = copy_range(source, ip + 1, ip + 1 + n);
    match decode_unsigned(&number) {
        Some(v) => {
            proof {
                lemma_room_zero();
                lemma_decode_bound(number@, 0);
            }
            Ok((v, ip + 1 + n))
        },
        None => Err(String::from_str("Not a valid integer")),
    }
}

/// The bytes from `from` up to `to`.
pub fn copy_range(source: &Vec<u8>, from: usize, to: usize) -> (r: Vec<u8>)
    requires
        from <= to <= source.len(),
    ensures
        r@ == source@.subrange(from as int, to as int),
{
    let mut out: Vec<u8> = Vec::new();
    let mut i = from;
    while i < to
        invariant
            from <= i <= to <= source.len(),
            out@ == source@.subrange(from as int, i as int),
        decreases to - i,
    {
        out.push(source[i]);
        i += 1;
        proof {
            assert(out@ =~= source@.subrange(from as int, i as int));
        }
    }
    out
}

/// Reads a string operand at `ip`.
#[verifier::rlimit(30)]
#[verifier::spinoff_prover]
pub fn read_string(source: &Vec<u8>, ip: usize) -> (r: Result<(String, usize), String>)
    ensures
        match r {
            Ok((s, p)) => read_text(source@, ip as int) == Ok::<(Seq<char>, int), Seq<char>>(
                (s@, p as int),
            ) && ip < p <= source.len(),
            Err(e) => read_text(source@, ip as int) == Err::<(Seq<char>, int), Seq<char>>(e@),
        },
{
    match read_unsigned_int(source, ip) {
        Err(e) => Err(e),
        Ok((n, p)) => {
            if n > (source.len() - p) as u64 {
                return Err(String::from_str("Unexpected end of bytecode"));
            }
            let bytes = copy_range(source, p, p + n as usize);
            match utf8_to_string(bytes) {
                Some(s) => Ok((s, p + n as usize)),
                None => Err(String::from_str("Not a valid string")),
            }
        },
    }
}

/// Reads `n` string operands from `ip` on.
#[verifier::rlimit(30)]
#[verifier::spinoff_prover]
pub fn read_strings(source: &Vec<u8>, ip: usize, n: u64) -> (r: Result<(Vec<String>, usize), String>)
    ensures
        match r {
            Ok((v, p)) => read_texts(source@, ip as int, n as nat, Seq::empty()) == Ok::<
                (Seq<Seq<char>>, int),
                Seq<char>,
            >((strings_view(v@), p as int)),
            Err(e) => read_texts(source@, ip as int, n as nat, Seq::empty()) == Err::<
                (Seq<Seq<char>>, int),
                Seq<char>,
            >(e@),
        },
{
    let mut acc: Vec<String> = Vec::new();
    let mut cur = ip;
    let mut k: u64 = 0;
    proof {
        assert(strings_view(acc@) =~= Seq::<Seq<char>>::empty());
    }
    while k < n
        invariant
            k <= n,
            read_texts(source@, ip as int, n as nat, Seq::empty()) == read_texts(
                source@,
                cur as int,
                (n - k) as nat,
                strings_view(acc@),
            ),
        decreases n - k,
    {
        match read_string(source, cur) {
            Err(e) => {
                return Err(e);
            },
            Ok((s, p)) => {
                let ghost before = strings_view(acc@);
                acc.push(s);
                proof {
                    assert(strings_view(acc@) =~= before.push(s@));
                }
                cur = p;
            },
        }
        k += 1;
    }
    Ok((acc, cur))
}

impl VM {
    /// New VM from vector of bytes
    pub fn new(source: Vec<u8>) -> (r: Self)
        ensures
            r@ == fresh_machine(source@, default_steps(), default_depth()),
    {
        let mut global = Environment::new();
        global.set(String::from_str("true"), new_boolean(true));
        global.set(String::from_str("false"), new_boolean(false));
        global.set(String::from_str("null"), new_null());
        global.set(
            String::from_str("println"),
            new_native_function((String::from_str("println"), Native::PrintLine)),
        );
        let r = VM {
            source,
            ip: 0,
            line: 0,
            stack: Vec::new(),
            last_popped: None,
            env: Environment::new(),
            global,
            host: Host::new(),
        };
        proof {
            assert(r@.stack =~= Seq::<ObjectView>::empty());
        }
        r
    }

    /// Pushes an object.
    pub fn push(&mut self, obj: BaseObject)
        ensures
            final(self)@ == (Machine { stack: old(self)@.stack.push(obj@), ..old(self)@ }),
    {
        self.stack.push(obj);
        proof {
            assert(self@.stack =~= old(self)@.stack.push(obj@));
        }
    }

    /// Pops the top of the stack and remembers it. `None` where the stack
    /// is empty.
    pub fn pop(&mut self) -> (r: Option<BaseObject>)
        ensures
            match r {
                Some(x) => old(self)@.stack.len() > 0 && x@ == old(self)@.stack.last() && final(self)@ == (Machine {
                    stack: old(self)@.stack.drop_last(),
                    last_popped: Some(x@),
                    ..old(self)@
                }),
                None => old(self)@.stack.len() == 0 && final(self)@ == old(self)@,
            },
    {
        match self.stack.pop() {
            Some(x) => {
                self.last_popped = Some(x.clone());
                proof {
                    assert(self@.stack =~= old(self)@.stack.drop_last());
                }
                Some(x)
            },
            None => None,
        }
    }

    /// The error of an instruction, with the machine as it is.
    fn failed(&self, message: &str) -> (r: Option<String>)
        ensures
            r is Some,
            r.unwrap()@ == message@,
    {
        Some(String::from_str(message))
    }

    /// Moves to `to`, or to the end where `to` is behind it.
    fn jump(&mut self, to: u64)
        ensures
            final(self)@ == (Machine { ip: jump_target(old(self)@, to as int), ..old(self)@ }),
    {
        if to > self.source.len() as u64 {
            self.ip = self.source.len();
        } else {
            self.ip = to as usize;
        }
    }

    /// `Pop`.
    fn op_pop(&mut self, at: usize) -> (r: Option<String>)
        ensures
            stepped(*final(self), r, step_pop(old(self)@, at as int)),
    {
        match self.pop() {
            Some(_) => {
                self.ip = at;
                None
            },
            None => self.failed("Pop on empty stack"),
        }
    }

    /// `Integer`.
    fn op_integer(&mut self, at: usize) -> (r: Option<String>)
        ensures
            stepped(*final(self), r, step_integer(old(self)@, at as int)),
    {
        match read_unsigned_int(&self.source, at) {
            Err(e) => Some(e),
            Ok((v, p)) => {
                self.push(new_integer(v as i64));
                self.ip = p;
                None
            },
        }
    }

    /// `String`.
    fn op_string(&mut self, at: usize) -> (r: Option<String>)
        ensures
            stepped(*final(self), r, step_string(old(self)@, at as int)),
    {
        match read_string(&self.source, at) {
            Err(e) => Some(e),
            Ok((s, p)) => {
                self.push(new_string(s));
                self.ip = p;
                None
            },
        }
    }

    /// `Getvar`.
    #[verifier::rlimit(30)]
    #[verifier::spinoff_prover]
    fn op_getvar(&mut self, at: usize) -> (r: Option<String>)
        ensures
            stepped(*final(self), r, step_getvar(old(self)@, at as int)),
    {
        match read_string(&self.source, at) {
            Err(e) => Some(e),
            Ok((name, p)) => {
                let found = match self.env.get(name.clone()) {
                    Some(x) => Some(x),
                    None => self.global.get(name.clone()),
                };
                match found {
                    Some(x) => {
                        self.push(x);
                        self.ip = p;
                        None
                    },
                    None => {
                        let mut m = String::from_str("Variable '");
                        m.append(name.as_str());
                        m.append("' is not defined");
                        Some(m)
                    },
                }
            },
        }
    }

    /// `Setvar`.
    #[verifier::rlimit(30)]
    #[verifier::spinoff_prover]
    fn op_setvar(&mut self, at: usize) -> (r: Option<String>)
        ensures
            stepped(*final(self), r, step_setvar(old(self)@, at as int)),
    {
        match read_string(&self.source, at) {
            Err(e) => Some(e),
            Ok((name, p)) => {
                let ghost before = self@;
                match self.pop() {
                    None => self.failed("Pop on empty stack"),
                    Some(val) => {
                        if self.global.has(&name) {
                            self.global.set(name, val.clone());
                        } else {
                            self.env.set(name, val.clone());
                        }
                        self.push(val);
                        self.ip = p;
                        proof {
                            assert(self@.stack =~= before.stack);
                        }
                        None
                    },
                }
            },
        }
    }

    /// `GetInstance`.
    #[verifier::rlimit(30)]
    #[verifier::spinoff_prover]
    fn op_get_instance(&mut self, at: usize) -> (r: Option<String>)
        ensures
            stepped(*final(self), r, step_get_instance(old(self)@, at as int)),
    {
        match self.pop() {
            None => self.failed("Pop on empty stack"),
            Some(this) => {
                match read_string(&self.source, at) {
                    Err(e) => Some(e),
                    Ok((name, p)) => {
                        match this.instance_get(name.clone()) {
                            Some(x) => {
                                let mut x = x;
                                x.set_parent(this);
                                self.push(x);
                                self.ip = p;
                                None
                            },
                            None => {
                                let mut m = String::from_str("Attribute '");
                                m.append(name.as_str());
                                m.append("' does not exist on '");
                                m.append(this.to_string().as_str());
                                m.append("' (");
                                m.append(this.class.to_string().as_str());
                                m.append(")");
                                Some(m)
                            },
                        }
                    },
                }
            },
        }
    }

    /// `Jump`.
    fn op_jump(&mut self, at: usize) -> (r: Option<String>)
        ensures
            stepped(*final(self), r, step_jump(old(self)@, at as int)),
    {
        match read_unsigned_int(&self.source, at) {
            Err(e) => Some(e),
            Ok((d, p)) => {
                self.jump_by(p, d);
                None
            },
        }
    }

    /// Moves to `d` behind `p`, or to the end where that is behind it.
    fn jump_by(&mut self, p: usize, d: u64)
        requires
            p <= old(self).source.len(),
        ensures
            final(self)@ == (Machine { ip: jump_target(old(self)@, p + d), ..old(self)@ }),
    {
        if d > (self.source.len() - p) as u64 {
            self.ip = self.source.len();
        } else {
            self.ip = p + d as usize;
        }
    }

    /// `JumpIfFalse`.
    fn op_jump_if_false(&mut self, at: usize) -> (r: Option<String>)
        ensures
            stepped(*final(self), r, step_jump_if_false(old(self)@, at as int)),
    {
        match read_unsigned_int(&self.source, at) {
            Err(e) => Some(e),
            Ok((d, p)) => {
                match self.pop() {
                    None => self.failed("Pop on empty stack"),
                    Some(c) => {
                        if c.is_truthy() {
                            self.ip = p;
                        } else {
                            self.jump_by(p, d);
                        }
                        None
                    },
                }
            },
        }
    }

    /// `JumpTo`.
    fn op_jump_to(&mut self, at: usize) -> (r: Option<String>)
        ensures
            stepped(*final(self), r, step_jump_to(old(self)@, at as int)),
    {
        match read_unsigned_int(&self.source, at) {
            Err(e) => Some(e),
            Ok((t, _p)) => {
                self.jump(t);
                None
            },
        }
    }

    /// `Function`.
    #[verifier::rlimit(30)]
    #[verifier::spinoff_prover]
    fn op_function(&mut self, at: usize) -> (r: Option<String>)
        ensures
            stepped(*final(self), r, step_function(old(self)@, at as int)),
    {
        let (name, b1) = match read_string(&self.source, at) {
            Err(e) => {
                return Some(e);
            },
            Ok(x) => x,
        };
        let (n, b2) = match read_unsigned_int(&self.source, b1) {
            Err(e) => {
                return Some(e);
            },
            Ok(x) => x,
        };
        let (params, b3) = match read_strings(&self.source, b2, n) {
            Err(e) => {
                return Some(e);
            },
            Ok(x) => x,
        };
        let (size, b4) = match read_unsigned_int(&self.source, b3) {
            Err(e) => {
                return Some(e);
            },
            Ok(x) => x,
        };
        if size > (self.source.len() - b4) as u64 {
            return self.failed("Unexpected end of bytecode");
        }
        let code = copy_range(&self.source, b4, b4 + size as usize);
        let f = new_function((name.clone(), params, code));
        self.env.set(name, f);
        self.ip = b4 + size as usize;
        None
    }

    /// Pops the `n` arguments of a call, the first one first.
    #[verifier::rlimit(30)]
    #[verifier::spinoff_prover]
    fn pop_arguments(&mut self, n: u64) -> (r: Option<Vec<BaseObject>>)
        ensures
            match r {
                Some(args) => n <= old(self)@.stack.len() && objects_view(args@) == call_arguments(
                    old(self)@.stack,
                    n as nat,
                ) && final(self)@ == (Machine {
                    stack: old(self)@.stack.take(old(self)@.stack.len() - n),
                    last_popped: if n == 0 {
                        old(self)@.last_popped
                    } else {
                        Some(call_arguments(old(self)@.stack, n as nat)[n - 1])
                    },
                    ..old(self)@
                }),
                None => n > old(self)@.stack.len() && final(self)@ == (Machine {
                    stack: Seq::empty(),
                    last_popped: if old(self)@.stack.len() == 0 {
                        old(self)@.last_popped
                    } else {
                        Some(old(self)@.stack[0])
                    },
                    ..old(self)@
                }),
            },
    {
        let ghost rest = self@.stack;
        let mut args: Vec<BaseObject> = Vec::new();
        let mut k: u64 = 0;
        proof {
            assert(objects_view(args@) =~= call_arguments(rest, 0));
            assert(rest.take(rest.len() as int) =~= rest);
        }
        while k < n
            invariant
                k <= n,
                k <= rest.len(),
                rest == old(self)@.stack,
                objects_view(args@) == call_arguments(rest, k as nat),
                self@ == (Machine {
                    stack: rest.take(rest.len() - k),
                    last_popped: if k == 0 {
                        old(self)@.last_popped
                    } else {
                        Some(call_arguments(rest, k as nat)[k - 1])
                    },
                    ..old(self)@
                }),
            decreases n - k,
        {
            match self.pop() {
                None => {
                    proof {
                        assert(k == rest.len());
                        assert(rest.take(rest.len() - k) =~= Seq::<ObjectView>::empty());
                        if k > 0 {
                            assert(call_arguments(rest, k as nat)[k - 1] == rest[0]);
                        }
                    }
                    return None;
                },
                Some(x) => {
                    let ghost before = objects_view(args@);
                    args.push(x);
                    k += 1;
                    proof {
                        assert(objects_view(args@) =~= before.push(x@));
                        assert(objects_view(args@) =~= call_arguments(rest, k as nat));
                        assert(self@.stack =~= rest.take(rest.len() - k));
                    }
                },
            }
        }
        Some(args)
    }

    /// `Call`.
    #[verifier::rlimit(30)]
    #[verifier::spinoff_prover]
    fn op_call(&mut self, at: usize) -> (r: Option<String>)
        ensures
            stepped(*final(self), r, step_call(old(self)@, at as int)),
        decreases old(self).host.steps_left, 4nat,
    {
        match read_unsigned_int(&self.source, at) {
            Err(e) => Some(e),
            Ok((n, p)) => {
                let callee = match self.pop() {
                    None => {
                        return self.failed("Pop on empty stack");
                    },
                    Some(o) => o,
                };
                let args = match self.pop_arguments(n) {
                    None => {
                        return self.failed("Pop on empty stack");
                    },
                    Some(a) => a,
                };
                let env = self.env.clone();
                let res = callee.call(callee.clone(), args, env, &mut self.host);
                match res {
                    Err(x) => Some(x),
                    Ok(x) => {
                        self.push(x);
                        self.ip = p;
                        None
                    },
                }
            },
        }
    }

    /// Runs the instruction at the input pointer. Returns the message of
    /// the error where it fails. The input pointer stays inside the
    /// bytecode either way.
    #[verifier::rlimit(30)]
    #[verifier::spinoff_prover]
    pub fn run_statement(&mut self) -> (r: Option<String>)
        requires
            old(self).ip < old(self).source.len(),
        ensures
            stepped(*final(self), r, step(old(self)@)),
            final(self).ip <= final(self).source.len(),
        decreases old(self).host.steps_left, 5nat,
    {
        proof {
            lemma_pointer_after_step(old(self)@);
        }
        let byte = self.source[self.ip];
        let at = self.ip + 1;
        match Grammar::from_byte(byte) {
            Some(Grammar::Pop) => self.op_pop(at),
            Some(Grammar::Noop) => {
                self.ip = at;
                None
            },
            Some(Grammar::Advance) => {
                if self.line < usize::MAX {
                    self.line += 1;
                }
                self.ip = at;
                None
            },
            Some(Grammar::Back) => {
                if self.line > 0 {
                    self.line -= 1;
                }
                self.ip = at;
                None
            },
            Some(Grammar::Integer) => self.op_integer(at),
            Some(Grammar::String) => self.op_string(at),
            Some(Grammar::Null) => {
                self.push(new_null());
                self.ip = at;
                None
            },
            Some(Grammar::Getvar) => self.op_getvar(at),
            Some(Grammar::Setvar) => self.op_setvar(at),
            Some(Grammar::GetInstance) => self.op_get_instance(at),
            Some(Grammar::Call) => self.op_call(at),
            Some(Grammar::JumpIfFalse) => self.op_jump_if_false(at),
            Some(Grammar::Jump) => self.op_jump(at),
            Some(Grammar::JumpTo) => self.op_jump_to(at),
            Some(Grammar::Function) => self.op_function(at),
            _ => {
                let mut m = String::from_str("Invalid instruction: ");
                push_decimal(&mut m, byte as u64);
                Some(m)
            },
        }
    }

    /// Runs the instructions from the input pointer on.
    #[verifier::rlimit(30)]
    #[verifier::spinoff_prover]
    fn run_rest(&mut self) -> (r: Result<Option<BaseObject>, String>)
        ensures
            halted(*final(self), r, run_loop(old(self)@)),
        decreases old(self).host.steps_left, 0nat,
    {
        loop
            invariant
                run_loop(old(self)@) == run_loop(self@),
                self.host.steps_left <= old(self).host.steps_left,
            decreases self.host.steps_left,
        {
            if self.ip >= self.source.len() {
                return Ok(
                    match &self.last_popped {
                        Some(x) => Some(x.clone()),
                        None => None,
                    },
                );
            }
            if self.host.steps_left == 0 {
                return Err(String::from_str("Step limit reached"));
            }
            self.host.steps_left -= 1;
            match self.run_statement() {
                Some(e) => {
                    return Err(e);
                },
                None => {},
            }
        }
    }

    /// Run the bytecode. The input pointer stays inside the bytecode,
    /// however the run ends.
    pub fn run(&mut self) -> (r: Result<Option<BaseObject>, String>)
        ensures
            halted(*final(self), r, run_machine(old(self)@)),
            old(self).ip <= old(self).source.len() ==> final(self).ip <= final(self).source.len(),
        decreases old(self).host.steps_left, 1nat,
    {
        proof {
            if old(self).ip <= old(self).source.len() {
                lemma_pointer_stays_inside(old(self)@);
            }
        }
        if self.ip >= self.source.len() || self.source[self.ip] != Grammar::Magic.to_byte() {
            return Err(String::from_str("Not a valid Gorilla bytecode"));
        }
        self.ip += 1;
        self.run_rest()
    }
}

impl BaseObject {
    /// Calls the object: `this` is the object as the function that sees
    /// its receiver, `args` are the arguments, `vm` the caller's local
    /// variables.
    pub fn call(&self, this: BaseObject, args: Vec<BaseObject>, vm: Environment, host: &mut Host) -> (r:
        ObjResult)
        ensures
            called(
                *old(host),
                *final(host),
                r,
                call_outcome(
                    self@,
                    this@,
                    objects_view(args@),
                    vm@,
                    old(host).steps_left as nat,
                    old(host).depth_left as nat,
                ),
            ),
        decreases old(host).steps_left, 3nat,
    {
        proof {
            assert(self@.value == self.internal_value.model());
            assert(strings_view(host.output@) + Seq::<Seq<char>>::empty() =~= strings_view(
                host.output@,
            ));
        }
        match &self.internal_value {
            ValueType::Function(_) => crate::builtin_types::function::call(this, args, vm, host),
            ValueType::NativeFunction(_) => call_native(this, args, vm, host),
            _ => not_callable(this, args, vm),
        }
    }
}

/// The error of a call of an object that is no function.
pub fn not_callable(this: BaseObject, _args: Vec<BaseObject>, _e: Environment) -> (r: ObjResult)
    ensures
        result_view(r) == Err::<ObjectView, Seq<char>>(not_callable_text(this@)),
{
    let mut m = String::from_str("'");
    m.append(this.to_string().as_str());
    m.append("' (");
    m.append(this.class.to_string().as_str());
    m.append(") is not callable");
    Err(m)
}

} // verus!
