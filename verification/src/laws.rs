//! What holds of the language as a whole, proved from the contracts of its
//! parts.

use vstd::prelude::*;
use crate::ast::{Expr, Span, Stmt};
use crate::builtin_types::any::{object_class, object_members};
use crate::builtin_types::integer::{integer_operands, integer_result};
use crate::builtin_types::native_function::{member, native_view};
use crate::builtin_types::string::{parse_int_result, parse_integer, parse_text, string_receiver};
use crate::compiler::{arm_code, block_code, ends_in_value, expr_code, stmt_code};
use crate::env::{Bindings, lemma_lookup_bound, lookup};
use crate::grammar::Grammar;
use crate::compiler::lemma_unsupported_block;
use crate::helpers::{compile_text, ending, line_number, run_bytes, run_text};
use crate::lexer::{string_body, unescape};
use crate::obj::{
    ClassView, Native, ObjectView, ValueView, class_lookup, escaped, escaped_text, value_text,
};
use crate::builtin_types::integer::integer_view;
use crate::compiler::{
    block_compilable, compilable, markers, program_code, stmt_compilable, uint_code,
};
use crate::helpers::line_of;
use crate::leb::{leb128_encode, leb128_len, lemma_decode_encode, lemma_len_u64};
use crate::lexer::{
    digits_end, digits_value, is_digit, keyword_at, name_at, operator_at, skip_blanks,
    skip_separators,
};
use crate::parser::{
    Failure, assign_at, parse_expr, parse_operand, parse_operators, parse_postfix,
    parse_primary, parse_statement, parse_statements, parse_suffixes,
    parse_text as parse_source, parse_unary, span,
};
use crate::vm::{
    Fault, Host, Machine, call_outcome, fresh_machine, mismatch_text, read_text, read_uint,
    run_loop, run_machine, step, step_call, step_integer, step_pop, step_setvar,
};

verus! {

/// A division and a remainder by zero fail: neither returns a value.
pub proof fn lemma_division_by_zero(this: ObjectView, args: Seq<ObjectView>, a: i64)
    requires
        integer_operands(this, args) == Ok::<(i64, i64), Seq<char>>((a, 0)),
    ensures
        integer_result(Native::IntegerDiv, this, args) is Err,
        integer_result(Native::IntegerMod, this, args) is Err,
{
}

/// `i` fails on a string that writes no number.
pub proof fn lemma_parse_fails(this: ObjectView, s: Seq<char>)
    requires
        string_receiver(this) == Some(s),
        parse_integer(s) is None,
    ensures
        parse_int_result(this) == Err::<ObjectView, Seq<char>>(parse_text(s)),
{
}

/// The variable of a machine: the local one before the global one.
pub open spec fn variable(m: Machine, name: Seq<char>) -> Option<ObjectView> {
    match lookup(m.env, name) {
        Some(x) => Some(x),
        None => lookup(m.global, name),
    }
}

/// A variable reads back what was assigned to it last: after `Setvar`, the
/// variable that it names holds the top of the stack, which stays there.
#[verifier::rlimit(30)]
#[verifier::spinoff_prover]
pub proof fn lemma_assign_then_read(m: Machine, at: int)
    requires
        step_setvar(m, at) is Ok,
    ensures
        ({
            let after = step_setvar(m, at)->Ok_0;
            let name = read_text(m.source, at)->Ok_0.0;
            &&& m.stack.len() > 0
            &&& after.stack == m.stack
            &&& lookup(m.env, name) is None ==> variable(after, name) == Some(m.stack.last())
            &&& lookup(m.global, name) is Some ==> lookup(after.global, name) == Some(
                m.stack.last(),
            )
        }),
{
    let name = read_text(m.source, at)->Ok_0.0;
    lemma_lookup_bound(m.env, name, m.stack.last());
    lemma_lookup_bound(m.global, name, m.stack.last());
}

/// A loop always leaves a value: its code ends with `Null`.
pub proof fn lemma_loop_yields_null(e: Expr, src: Seq<char>, at: nat, line: nat)
    requires
        e is While,
    ensures
        expr_code(e, src, at, line).bytes.len() > 0,
        expr_code(e, src, at, line).bytes.last() == Grammar::Null.byte(),
{
}

/// An arm of a conditional always leaves a value: where its block does not
/// end in an expression, and so where it is empty, its code ends with
/// `Null`; where it does, its code is the block's without the last `Pop`.
#[verifier::rlimit(30)]
#[verifier::spinoff_prover]
pub proof fn lemma_arm_yields_value(stmts: Seq<Stmt>, src: Seq<char>, at: nat, line: nat)
    ensures
        !ends_in_value(stmts) ==> arm_code(stmts, src, at, line).bytes.last()
            == Grammar::Null.byte(),
        ends_in_value(stmts) ==> arm_code(stmts, src, at, line).bytes.push(Grammar::Pop.byte())
            == block_code(stmts, stmts.len(), src, at, line).bytes,
        stmts.len() == 0 ==> arm_code(stmts, src, at, line).bytes == seq![Grammar::Null.byte()],
{
    let b = block_code(stmts, stmts.len(), src, at, line);
    if ends_in_value(stmts) {
        let n = stmts.len();
        let before = block_code(stmts, (n - 1) as nat, src, at, line);
        let this = stmt_code(stmts[n - 1], src, at + before.bytes.len(), before.line);
        assert(b.bytes == before.bytes + this.bytes);
        assert(this.bytes.last() == Grammar::Pop.byte());
        assert(b.bytes.drop_last().push(Grammar::Pop.byte()) =~= b.bytes);
    }
    if stmts.len() == 0 {
        assert(arm_code(stmts, src, at, line).bytes =~= seq![Grammar::Null.byte()]);
    }
}

/// A declared function called with another number of arguments than it
/// has parameters fails with the message of the mismatch.
pub proof fn lemma_arity_mismatch(
    this: ObjectView,
    args: Seq<ObjectView>,
    env: Bindings,
    steps: nat,
    depth: nat,
)
    requires
        this.value is Function,
        this.value->Function_1.len() != args.len(),
    ensures
        call_outcome(this, this, args, env, steps, depth).result == Err::<ObjectView, Seq<char>>(
            mismatch_text(this, this.value->Function_1.len(), args.len()),
        ),
        call_outcome(this, this, args, env, steps, depth).output == Seq::<Seq<char>>::empty(),
{
    reveal_with_fuel(call_outcome, 2);
}

/// What a function binds stays in its own call: a call changes no
/// variable of its caller.
pub proof fn lemma_call_keeps_variables(m: Machine, at: int)
    requires
        step_call(m, at) is Ok,
    ensures
        step_call(m, at)->Ok_0.env == m.env,
        step_call(m, at)->Ok_0.global == m.global,
{
}

/// Member lookup respects inheritance: a class under `Object` that has no
/// `==` of its own resolves `==` to that of `Object`.
pub proof fn lemma_inherited_equality(c: ClassView)
    requires
        c.super_class == Some(Box::new(object_class())),
        lookup(c.vars, "=="@) is None,
    ensures
        class_lookup(c, "=="@) == Some(native_view("Object.=="@, Native::ObjectEq)),
{
    reveal_with_fuel(class_lookup, 2);
    let first = member("=="@, "Object.=="@, Native::ObjectEq);
    assert(object_members()[0] == first);
}

/// Compiling to a buffer and running the buffer is running the source: for
/// a text that has bytecode, both end in the same way.
pub proof fn lemma_run_is_compile_then_run(s: Seq<char>, env: Bindings, host: Host)
    requires
        compile_text(s) is Ok,
    ensures
        run_text(s, env, host) == ending(run_bytes(compile_text(s)->Ok_0, env, host)),
{
}

/// An error of a run comes with the number of the line that the machine
/// was on when it struck, counted from 1: never with 0.
pub proof fn lemma_error_line(b: Seq<u8>, env: Bindings, host: Host)
    requires
        run_bytes(b, env, host).result is Err,
    ensures
        ending(run_bytes(b, env, host)).result is Err,
        ending(run_bytes(b, env, host)).result->Err_0.1 == line_number(
            run_bytes(b, env, host).machine.line as nat,
        ),
        ending(run_bytes(b, env, host)).result->Err_0.1 >= 1,
{
}


/// Whether `s` is a number: digits and nothing else.
pub open spec fn is_number(s: Seq<char>) -> bool {
    s.len() > 0 && forall|i: int| 0 <= i < s.len() ==> is_digit(#[trigger] s[i])
}

/// The digits of a number end where the number ends.
proof fn lemma_number_end(s: Seq<char>, pos: int)
    requires
        is_number(s),
        0 <= pos <= s.len(),
    ensures
        digits_end(s, pos) == s.len(),
    decreases s.len() - pos,
{
    if pos < s.len() {
        lemma_number_end(s, pos + 1);
    }
}

/// No keyword and no name starts with a digit.
#[verifier::rlimit(30)]
#[verifier::spinoff_prover]
proof fn lemma_number_start(s: Seq<char>)
    requires
        is_number(s),
    ensures
        skip_blanks(s, 0) == 0,
        skip_separators(s, 0) == 0,
        skip_blanks(s, s.len() as int) == s.len(),
        skip_separators(s, s.len() as int) == s.len(),
        !keyword_at(s, 0, seq!['f', 'n']),
        !keyword_at(s, 0, seq!['i', 'f']),
        !keyword_at(s, 0, seq!['w', 'h', 'i', 'l', 'e']),
        !name_at(s, 0),
        !assign_at(s, 0),
        operator_at(s, s.len() as int) is None,
        !(s[0] == '-' || s[0] == '+'),
{
    assert(is_digit(s[0]));
    if 2 <= s.len() {
        assert(s.subrange(0, 2)[0] == s[0]);
    }
    if 5 <= s.len() {
        assert(s.subrange(0, 5)[0] == s[0]);
    }
}

/// The expression of a number is the literal.
#[verifier::rlimit(30)]
#[verifier::spinoff_prover]
proof fn lemma_number_expression(s: Seq<char>)
    requires
        is_number(s),
        digits_value(s, 0, s.len() as int) <= i64::MAX,
    ensures
        parse_expr(s, 0, 0) == Ok::<(Expr, int), Failure>(
            (
                Expr::Int {
                    value: digits_value(s, 0, s.len() as int) as u64,
                    pos: span(0, s.len() as int),
                },
                s.len() as int,
            ),
        ),
{
    let n = s.len() as int;
    let lit = Expr::Int { value: digits_value(s, 0, n) as u64, pos: span(0, n) };
    lemma_number_end(s, 0);
    lemma_number_start(s);
    assert(parse_primary(s, 0) == Ok::<(Expr, int), Failure>((lit, n)));
    assert(parse_suffixes(s, n, lit, 0) == Ok::<(Expr, int), Failure>((lit, n)));
    assert(parse_postfix(s, 0) == Ok::<(Expr, int), Failure>((lit, n)));
    assert(parse_unary(s, 0, 0) == Ok::<(Expr, int), Failure>((lit, n)));
    assert(parse_operand(s, 0) == Ok::<(Expr, int), Failure>((lit, n)));
    assert(parse_operators(s, n, lit, 0) == Ok::<(Expr, int), Failure>((lit, n)));
}

/// The tree of a number is one statement, the literal.
#[verifier::rlimit(30)]
#[verifier::spinoff_prover]
proof fn lemma_number_tree(s: Seq<char>)
    requires
        is_number(s),
        digits_value(s, 0, s.len() as int) <= i64::MAX,
    ensures
        parse_source(s) == Ok::<Seq<Stmt>, Failure>(
            seq![
                Stmt::Expr {
                    expr: Expr::Int {
                        value: digits_value(s, 0, s.len() as int) as u64,
                        pos: span(0, s.len() as int),
                    },
                    pos: span(0, s.len() as int),
                },
            ],
        ),
{
    let n = s.len() as int;
    let lit = Expr::Int { value: digits_value(s, 0, n) as u64, pos: span(0, n) };
    let st = Stmt::Expr { expr: lit, pos: span(0, n) };
    lemma_number_start(s);
    lemma_number_expression(s);
    assert(parse_statement(s, 0) == Ok::<(Stmt, int), Failure>((st, n)));
    assert(Seq::<Stmt>::empty().push(st) =~= seq![st]);
    assert(parse_statements(s, n, false, seq![st]) == Ok::<(Seq<Stmt>, int), Failure>(
        (seq![st], n),
    ));
    assert(parse_statements(s, 0, false, Seq::empty()) == Ok::<(Seq<Stmt>, int), Failure>(
        (seq![st], n),
    ));
}

/// The bytecode of a literal on the first line: the magic byte, `Integer`
/// with the number, and `Pop`.
pub open spec fn literal_code(v: u64) -> Seq<u8> {
    seq![Grammar::Magic.byte(), Grammar::Integer.byte()] + uint_code(v as nat) + seq![
        Grammar::Pop.byte(),
    ]
}

/// The bytecode of a program that is one literal on the first line.
#[verifier::rlimit(30)]
#[verifier::spinoff_prover]
proof fn lemma_literal_code(src: Seq<char>, v: u64, a: Span, b: Span)
    requires
        a.start == 0,
        b.start == 0,
    ensures
        block_compilable(seq![Stmt::Expr { expr: Expr::Int { value: v, pos: a }, pos: b }]),
        program_code(seq![Stmt::Expr { expr: Expr::Int { value: v, pos: a }, pos: b }], src)
            == literal_code(v),
{
    let lit = Expr::Int { value: v, pos: a };
    let st = Stmt::Expr { expr: lit, pos: b };
    let stmts = seq![st];
    assert(src.take(0) =~= Seq::<char>::empty());
    assert(line_of(src, 0) == 0);
    assert(markers(0, 0) =~= Seq::<u8>::empty());
    assert(compilable(lit));
    assert(stmt_compilable(st));
    let e = expr_code(lit, src, 1, 0);
    assert(e.bytes =~= seq![Grammar::Integer.byte()] + uint_code(v as nat));
    let c = stmt_code(st, src, 1, 0);
    assert(c.bytes =~= seq![Grammar::Integer.byte()] + uint_code(v as nat) + seq![
        Grammar::Pop.byte(),
    ]);
    reveal_with_fuel(block_code, 2);
    assert(block_code(stmts, 0, src, 1, 0).bytes =~= Seq::<u8>::empty());
    assert(block_code(stmts, 1, src, 1, 0).bytes =~= c.bytes);
    assert(program_code(stmts, src) =~= literal_code(v));
}

/// Running the bytecode of a literal gives the number.
#[verifier::rlimit(30)]
#[verifier::spinoff_prover]
proof fn lemma_literal_run(v: u64, m: Machine)
    requires
        m.source == literal_code(v),
        m.ip == 0,
        m.steps_left >= 2,
    ensures
        run_machine(m).result == Ok::<Option<ObjectView>, Seq<char>>(Some(integer_view(v as i64))),
        run_machine(m).machine.output == m.output,
        run_machine(m).machine.env == m.env,
{
    lemma_len_u64(v);
    let src = m.source;
    let n = leb128_len(v as nat) as int;
    let enc = leb128_encode(v as nat);
    assert(src.len() == n + 4);
    assert(src[0] == Grammar::Magic.byte());
    assert(src[1] == Grammar::Integer.byte());
    assert(src[2] == n as u8);
    assert(src[n + 3] == Grammar::Pop.byte());
    assert(src.subrange(3, 3 + n) =~= enc);
    assert(enc + Seq::<u8>::empty() =~= enc);
    lemma_decode_encode(v, Seq::empty());
    assert(read_uint(src, 2) == Ok::<(u64, int), Seq<char>>((v, 3 + n)));
    let m1 = Machine { ip: 1, ..m };
    let m1s = Machine { steps_left: (m.steps_left - 1) as nat, ..m1 };
    let m2 = Machine { ip: 3 + n, stack: m.stack.push(integer_view(v as i64)), ..m1s };
    assert(step_integer(m1s, 2) == Ok::<Machine, Fault>(m2));
    assert(step(m1s) == Ok::<Machine, Fault>(m2));
    let m2s = Machine { steps_left: (m.steps_left - 2) as nat, ..m2 };
    assert(m2.stack.drop_last() =~= m.stack);
    let m3 = Machine {
        ip: 4 + n,
        stack: m.stack,
        last_popped: Some(integer_view(v as i64)),
        ..m2s
    };
    assert(step_pop(m2s, 4 + n) == Ok::<Machine, Fault>(m3));
    assert(step(m2s) == Ok::<Machine, Fault>(m3));
    reveal_with_fuel(run_loop, 3);
    assert(run_loop(m3).result == Ok::<Option<ObjectView>, Seq<char>>(
        Some(integer_view(v as i64)),
    ));
    assert(run_loop(m2) == run_loop(m3));
    assert(run_loop(m1) == run_loop(m2));
}

/// For every integer literal within range, parsing, compiling and running
/// it yields the integer object of its value.
#[verifier::rlimit(30)]
#[verifier::spinoff_prover]
pub proof fn lemma_integer_literal(s: Seq<char>, env: Bindings, host: Host)
    requires
        is_number(s),
        digits_value(s, 0, s.len() as int) <= i64::MAX,
        host.steps_left >= 2,
    ensures
        run_text(s, env, host).result == Ok::<Option<ObjectView>, (Seq<char>, nat)>(
            Some(integer_view(digits_value(s, 0, s.len() as int) as i64)),
        ),
{
    let n = s.len() as int;
    let v = digits_value(s, 0, n) as u64;
    crate::lexer::lemma_digits_nonneg(s, 0, n);
    lemma_number_tree(s);
    lemma_literal_code(s, v, span(0, n), span(0, n));
    lemma_unsupported_block(
        seq![
            Stmt::Expr { expr: Expr::Int { value: v, pos: span(0, n) }, pos: span(0, n) },
        ],
        0,
    );
    let m = Machine {
        env: env,
        output: crate::obj::strings_view(host.output@),
        ..fresh_machine(literal_code(v), host.steps_left as nat, host.depth_left as nat)
    };
    lemma_literal_run(v, m);
}


/// The inspect form of a text grows with the text: the form of the first
/// `n` characters opens the form of the first `m`, for `n` up to `m`.
proof fn lemma_escaped_prefix(t: Seq<char>, n: nat, m: nat)
    requires
        n <= m <= t.len(),
    ensures
        escaped_text(t, n).len() <= escaped_text(t, m).len(),
        escaped_text(t, m).subrange(0, escaped_text(t, n).len() as int) == escaped_text(t, n),
    decreases m - n,
{
    if n < m {
        lemma_escaped_prefix(t, n, (m - 1) as nat);
        let a = escaped_text(t, (m - 1) as nat);
        let b = escaped(t[m - 1]);
        assert(escaped_text(t, m) == a + b);
        assert((a + b).subrange(0, escaped_text(t, n).len() as int) =~= a.subrange(
            0,
            escaped_text(t, n).len() as int,
        ));
    } else {
        assert(escaped_text(t, m).subrange(0, escaped_text(t, n).len() as int) =~= escaped_text(
            t,
            n,
        ));
    }
}

/// A character's inspect form is one character that is neither a quote nor
/// a backslash, or a backslash and the character that stands for it.
proof fn lemma_escaped_decodes(c: char)
    ensures
        escaped(c).len() == 1 ==> escaped(c)[0] == c && c != '"' && c != '\\',
        escaped(c).len() != 1 ==> escaped(c).len() == 2 && escaped(c)[0] == '\\' && unescape(
            escaped(c)[1],
        ) == c,
{
}

/// A string literal in its inspect form, written between quotes.
pub open spec fn quoted(t: Seq<char>) -> Seq<char> {
    seq!['"'] + escaped_text(t, t.len()) + seq!['"']
}

/// Reading the literal of `t` from behind the form of the first `k`
/// characters, with those characters read, gives `t`.
#[verifier::rlimit(30)]
#[verifier::spinoff_prover]
proof fn lemma_literal_tail(t: Seq<char>, k: nat)
    requires
        k <= t.len(),
    ensures
        string_body(quoted(t), (1 + escaped_text(t, k).len()) as int, t.take(k as int)) == Some(
            (t, quoted(t).len() as int),
        ),
    decreases t.len() - k,
{
    let lit = quoted(t);
    let all = escaped_text(t, t.len());
    let at = 1 + escaped_text(t, k).len();
    lemma_escaped_prefix(t, k, t.len());
    if k == t.len() {
        assert(lit[at as int] == '"');
        assert(t.take(k as int) =~= t);
    } else {
        let c = t[k as int];
        let next = escaped_text(t, k + 1);
        assert(next == escaped_text(t, k) + escaped(c));
        lemma_escaped_prefix(t, k + 1, t.len());
        lemma_escaped_decodes(c);
        assert forall|j: int| 0 <= j < escaped(c).len() implies lit[at + j] == escaped(c)[j] by {
            assert(all.subrange(0, next.len() as int)[escaped_text(t, k).len() + j] == next[
                escaped_text(t, k).len() + j
            ]);
        }
        assert(lit[at as int] == escaped(c)[0]);
        assert(t.take(k as int).push(c) =~= t.take((k + 1) as int));
        lemma_literal_tail(t, k + 1);
        if escaped(c).len() != 1 {
            assert(lit[(at + 1) as int] == escaped(c)[1]);
        }
    }
}

/// String escapes round-trip: the inspect form of a string, read as a
/// literal, is the string again.
pub proof fn lemma_inspect_parses_back(t: Seq<char>)
    ensures
        parse_primary(quoted(t), 0) == Ok::<(Expr, int), Failure>(
            (
                Expr::Str { value: t, pos: span(0, quoted(t).len() as int) },
                quoted(t).len() as int,
            ),
        ),
        value_text(ValueView::Str(t), true) == quoted(t),
{
    reveal_strlit("\"");
    assert("\""@ =~= seq!['"']);
    lemma_literal_tail(t, 0);
    assert(t.take(0) =~= Seq::<char>::empty());
    assert(quoted(t)[0] == '"');
    assert(!is_digit('"'));
}

} // verus!
