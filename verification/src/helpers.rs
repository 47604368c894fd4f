//! Entry points and small shared helpers.

use vstd::prelude::*;
use vstd::string::StrSliceExecFns;
use crate::ast::Span;
use vstd::string::StringExecFns;
use crate::compiler::{Compiler, block_unsupported, find_unsupported, program_code};
use crate::leb::{leb128_encode, lemma_len_u64};
use crate::env::{Bindings, Environment};
use crate::obj::{BaseObject, ObjectView, strings_view};
use crate::parser::{failure_text, parse, parse_text};
use crate::vm::{Halt, Host, Machine, VM, fresh_machine, run_machine};

verus! {

/// The number of line feeds in `s`.
pub open spec fn count_newlines(s: Seq<char>) -> nat
    decreases s.len(),
{
    if s.len() == 0 {
        0
    } else {
        count_newlines(s.drop_last()) + if s.last() == '\n' {
            1nat
        } else {
            0nat
        }
    }
}

/// The line, counted from 0, of the character at `offset` of `src`: the
/// number of line feeds before it. An offset behind the end counts as the end.
pub open spec fn line_of(src: Seq<char>, offset: nat) -> nat {
    if offset <= src.len() {
        count_newlines(src.take(offset as int))
    } else {
        count_newlines(src)
    }
}

/// The line on which a span starts.
#[verifier::rlimit(30)]
#[verifier::spinoff_prover]
pub fn span_to_line(source: &str, span: Span) -> (line: usize)
    ensures
        line == line_of(source@, span.start as nat),
{
    let total = source.unicode_len();
    let mut i: usize = 0;
    let mut n: usize = 0;
    for c in it: source.chars()
        invariant
            it.seq() == source@,
            total == source@.len(),
            i == it.index(),
            n <= i,
            n == line_of(source@, if i <= span.start { i as nat } else { span.start as nat }),
    {
        proof {
            let k: int = if i + 1 <= span.start { i + 1 } else { span.start as int };
            if i < span.start {
                assert(source@.take(i + 1).drop_last() =~= source@.take(i as int));
            }
        }
        if i < span.start && c == '\n' {
            n += 1;
        }
        i += 1;
    }
    proof {
        assert(source@.take(source@.len() as int) =~= source@);
    }
    n
}

/// Encodes `val` as unsigned LEB128.
#[verifier::rlimit(30)]
#[verifier::spinoff_prover]
pub fn leb128_unsigned(val: u64) -> (res: Vec<u8>)
    ensures
        res@ == leb128_encode(val as nat),
        1 <= res@.len() <= 10,
{
    proof {
        lemma_len_u64(val);
    }
    let mut value: u64 = val;
    let mut res: Vec<u8> = Vec::new();
    loop
        invariant_except_break
            res@ + leb128_encode(value as nat) == leb128_encode(val as nat),
        ensures
            res@ == leb128_encode(val as nat),
        decreases value,
    {
        let low: u8 = #[verifier::truncate] ((value & 0x7f) as u8);
        let rest: u64 = value >> 7;
        assert(low == value % 128 && rest == value / 128) by (bit_vector)
            requires
                low == (value & 0x7f) as u8,
                rest == value >> 7,
        ;
        if rest != 0 {
            let c: u8 = low | 0x80;
            assert(c == low + 128) by (bit_vector)
                requires
                    c == low | 0x80,
                    low < 128,
            ;
            proof {
                assert(res@.push(c) + leb128_encode(rest as nat) =~= res@ + leb128_encode(
                    value as nat,
                ));
            }
            res.push(c);
            value = rest;
        } else {
            proof {
                assert(res@.push(low) =~= res@ + leb128_encode(value as nat));
            }
            res.push(low);
            break ;
        }
    }
    res
}


/// The number of a line for a reader: lines are counted from 1, where the
/// machine and `line_of` count from 0.
pub open spec fn line_number(line: nat) -> nat {
    if line < usize::MAX {
        line + 1
    } else {
        line
    }
}

/// The message for a tree that holds an index expression or a vector
/// literal, for which the bytecode has no code.
pub open spec fn unsupported_text() -> Seq<char> {
    "index expressions and vector literals cannot be compiled"@
}

/// What `compile_code` returns for a text: its bytecode; or the message of
/// the parse error with the number of the line on which it stands; or, where
/// the tree holds an index expression or a vector literal, that it cannot be
/// compiled, with the number of the line on which the first of them starts.
pub open spec fn compile_text(s: Seq<char>) -> Result<Seq<u8>, (Seq<char>, nat)> {
    match parse_text(s) {
        Err(f) => Err((failure_text(f), line_number(line_of(s, f.at as nat)))),
        Ok(stmts) => match block_unsupported(stmts, 0) {
            None => Ok(program_code(stmts, s)),
            Some(pos) => Err((unsupported_text(), line_number(line_of(s, pos.start as nat)))),
        },
    }
}

/// The number, counted from 1, of the line on which offset `at` of `source`
/// stands.
pub fn line_number_at(source: &str, at: usize) -> (r: usize)
    ensures
        r == line_number(line_of(source@, at as nat)),
{
    one_based(span_to_line(source, Span { start: at, end: at }))
}

/// The number, counted from 1, of the line that is counted as `line` from 0.
pub fn one_based(line: usize) -> (r: usize)
    ensures
        r == line_number(line as nat),
{
    if line < usize::MAX {
        line + 1
    } else {
        line
    }
}

/// Compiles source text to bytecode. An error comes with the number of the
/// line on which it stands, counted from 1.
#[verifier::rlimit(30)]
#[verifier::spinoff_prover]
pub fn compile_code(code: &str) -> (r: Result<Vec<u8>, (String, usize)>)
    ensures
        match r {
            Ok(b) => compile_text(code@) == Ok::<Seq<u8>, (Seq<char>, nat)>(b@),
            Err(e) => compile_text(code@) == Err::<Seq<u8>, (Seq<char>, nat)>((e.0@, e.1 as nat)),
        },
{
    let mut compiler = Compiler::new(code);
    match parse(code) {
        Err(e) => Err((e.to_string(), line_number_at(code, e.pos))),
        Ok(p) => {
            match find_unsupported(&p) {
                Some(pos) => Err(
                    (
                        String::from_str("index expressions and vector literals cannot be compiled"),
                        line_number_at(code, pos.start),
                    ),
                ),
                None => {
                    compiler.compile(p);
                    Ok(compiler.result)
                },
            }
        },
    }
}

/// How running bytecode `b` ends, with `env` as the local variables and the
/// output and the budgets of `host` to start with.
pub open spec fn run_bytes(b: Seq<u8>, env: Bindings, host: Host) -> Halt {
    run_machine(
        Machine {
            env: env,
            output: strings_view(host.output@),
            ..fresh_machine(b, host.steps_left as nat, host.depth_left as nat)
        },
    )
}

/// How an entry point ends.
pub struct Ending {
    /// The object that was popped last; or the message of the error and the
    /// number of the line on which it struck, counted from 1.
    pub result: Result<Option<ObjectView>, (Seq<char>, nat)>,
    /// The local variables at the end.
    pub env: Bindings,
    /// What was printed, after what the host held before.
    pub output: Seq<Seq<char>>,
    /// How many instructions may still run.
    pub steps_left: nat,
    /// How deep calls may still nest.
    pub depth_left: nat,
}

/// The ending of a run that halted as `h` says: an error comes with the
/// number of the line that the machine was on.
pub open spec fn ending(h: Halt) -> Ending {
    Ending {
        result: match h.result {
            Ok(x) => Ok(x),
            Err(e) => Err((e, line_number(h.machine.line as nat))),
        },
        env: h.machine.env,
        output: h.machine.output,
        steps_left: h.machine.steps_left,
        depth_left: h.machine.depth_left,
    }
}

/// How running source text `s` ends: as running its bytecode does; or,
/// where it has none, with the compiler's message and line number, and
/// nothing changed.
pub open spec fn run_text(s: Seq<char>, env: Bindings, host: Host) -> Ending {
    match compile_text(s) {
        Ok(b) => ending(run_bytes(b, env, host)),
        Err(e) => Ending {
            result: Err(e),
            env: env,
            output: strings_view(host.output@),
            steps_left: host.steps_left as nat,
            depth_left: host.depth_left as nat,
        },
    }
}

/// Whether an entry point that returned `r` and left the output and the
/// budgets in `host` ended as `want` says.
pub open spec fn finished(r: Result<Option<BaseObject>, (String, usize)>, host: Host, want: Ending) -> bool {
    &&& match r {
        Ok(Some(x)) => want.result == Ok::<Option<ObjectView>, (Seq<char>, nat)>(Some(x@)),
        Ok(None) => want.result == Ok::<Option<ObjectView>, (Seq<char>, nat)>(None),
        Err(e) => want.result == Err::<Option<ObjectView>, (Seq<char>, nat)>((e.0@, e.1 as nat)),
    }
    &&& strings_view(host.output@) == want.output
    &&& host.steps_left == want.steps_left
    &&& host.depth_left == want.depth_left
}

/// Runs a machine on `code` with `env` and the host's output and budgets.
#[verifier::rlimit(30)]
#[verifier::spinoff_prover]
fn run_with(code: Vec<u8>, env: Environment, host: &mut Host) -> (r: (
    Result<Option<BaseObject>, (String, usize)>,
    Environment,
))
    ensures
        finished(r.0, *final(host), ending(run_bytes(code@, env@, *old(host)))),
        r.1@ == run_bytes(code@, env@, *old(host)).machine.env,
{
    let mut vm = VM::new(code);
    vm.env = env;
    std::mem::swap(&mut vm.host, host);
    let result = vm.run();
    std::mem::swap(&mut vm.host, host);
    let line = one_based(vm.line);
    match result {
        Ok(x) => (Ok(x), vm.env),
        Err(x) => (Err((x, line)), vm.env),
    }
}

/// Compiles and runs source text. What the program prints is added to the
/// host's output. An error comes with the number of the line on which it
/// struck, counted from 1.
pub fn run_code(code: &str, host: &mut Host) -> (r: Result<Option<BaseObject>, (String, usize)>)
    ensures
        finished(r, *final(host), run_text(code@, Seq::empty(), *old(host))),
{
    match compile_code(code) {
        Err(e) => Err(e),
        Ok(bytes) => run_with(bytes, Environment::new(), host).0,
    }
}

/// Runs bytecode. An error comes with the number of the line that the
/// machine was on, counted from 1.
pub fn run_bytecode(code: Vec<u8>, host: &mut Host) -> (r: Result<
    Option<BaseObject>,
    (String, usize),
>)
    ensures
        finished(r, *final(host), ending(run_bytes(code@, Seq::empty(), *old(host)))),
{
    run_with(code, Environment::new(), host).0
}

/// Compiles and runs source text with `env` as the local variables, and
/// returns them as the program left them.
pub fn run_code_with_env(code: &str, env: Environment, host: &mut Host) -> (r: (
    Result<Option<BaseObject>, (String, usize)>,
    Environment,
))
    ensures
        finished(r.0, *final(host), run_text(code@, env@, *old(host))),
        r.1@ == run_text(code@, env@, *old(host)).env,
{
    match compile_code(code) {
        Err(e) => (Err(e), env),
        Ok(bytes) => run_with(bytes, env, host),
    }
}

} // verus!
