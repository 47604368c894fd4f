//! Every expression yields a value: the code of an expression, run to its
//! end, leaves the stack one value deeper, whatever the expression is and
//! whichever way the run takes through it. The code of a statement leaves
//! the stack as it was. A run is a sequence of instructions as `step`
//! defines them, which is what `VM::run_statement` is proved to do.

use vstd::prelude::*;
use crate::ast::{Expr, Stmt};
use crate::builtin_types::null::null_view;
use crate::compiler::{
    arm_code, block_code, block_compilable, compilable, else_width, ends_in_value, expr_code,
    if_layout, if_tail, markers, names_code, rev_args_code, stmt_code, stmt_compilable,
    string_code, then_width, uint_code, while_jump, while_tail, while_width,
};
use crate::effect::{
    Reached, lemma_call, lemma_enter, lemma_function, lemma_get_instance, lemma_getvar,
    lemma_method_call,
    lemma_holds_bound, lemma_integer, lemma_markers_inside, lemma_moves, lemma_next_part,
    lemma_null, lemma_pop, lemma_popped, lemma_setvar, lemma_split, lemma_step, lemma_still,
    lemma_string, moved, pushed, reach, run_of,
};
use crate::grammar::Grammar;
use crate::helpers::line_of;
use crate::jumps::{
    holds, if_places, lemma_conditional_skip, lemma_conditional_test,
    lemma_loop_back, lemma_loop_enter, lemma_loop_exit, lemma_loop_places, loop_places,
};
use crate::layout::{lemma_conditional_layout, lemma_loop_layout};
use crate::obj::value_truthy;
use crate::vm::{Machine, step};

verus! {

/// Whether machine `m` stands at offset `at` on `code` that its bytecode
/// holds there, and runs through it within `fuel` instructions without an
/// error.
pub open spec fn runs(m: Machine, at: nat, code: Seq<u8>, fuel: nat) -> bool {
    &&& m.ip == at
    &&& holds(m.source, at, code)
    &&& run_of(m, code, fuel) is Some
}

/// Whether the run of `m` through `code` ends behind the code with `up`
/// values more on the stack, and what lay on it before as it was.
pub open spec fn leaves(m: Machine, code: Seq<u8>, fuel: nat, up: nat) -> bool {
    pushed(m, run_of(m, code, fuel).unwrap().machine, m.ip + code.len(), up)
}

/// The run of machine `m`, which stands inside `code` that starts at offset
/// `at`, through the rest of that code.
pub open spec fn rest_of(m: Machine, at: nat, code: Seq<u8>, fuel: nat) -> Option<Reached> {
    reach(m, at as int, at as int + code.len(), fuel)
}

/// The code of an expression that has code is not empty.
pub proof fn lemma_some_code(e: Expr, text: Seq<char>, at: nat, line: nat)
    requires
        compilable(e),
    ensures
        expr_code(e, text, at, line).bytes.len() > 0,
{
}

/// The code of `k` arguments takes at least one byte an argument.
pub proof fn lemma_arguments_len(args: Seq<Expr>, k: nat, text: Seq<char>, at: nat, line: nat)
    requires
        k <= args.len(),
        forall|i: int| 0 <= i < args.len() ==> compilable(#[trigger] args[i]),
    ensures
        rev_args_code(args, k, text, at, line).bytes.len() >= k,
    decreases k,
{
    if k > 0 {
        let before = rev_args_code(args, (k - 1) as nat, text, at, line);
        lemma_arguments_len(args, (k - 1) as nat, text, at, line);
        lemma_some_code(args[args.len() - k], text, at + before.bytes.len(), before.line);
    }
}

/// A literal or a variable: one instruction that pushes its value.
#[verifier::rlimit(40)]
#[verifier::spinoff_prover]
proof fn lemma_literal(e: Expr, text: Seq<char>, at: nat, line: nat, m: Machine, fuel: nat)
    requires
        e is Int || e is Str || e is GetVar,
        runs(m, at, expr_code(e, text, at, line).bytes, fuel),
    ensures
        leaves(m, expr_code(e, text, at, line).bytes, fuel, 1),
{
    let code = expr_code(e, text, at, line).bytes;
    let lo = at as int;
    let hi = lo + code.len();
    let pos = match e {
        Expr::Int { pos, .. } => pos,
        Expr::Str { pos, .. } => pos,
        Expr::GetVar { pos, .. } => pos,
        _ => arbitrary(),
    };
    let l = line_of(text, pos.start as nat);
    let pre = markers(line, l);
    let op = match e {
        Expr::Int { .. } => Grammar::Integer.byte(),
        Expr::Str { .. } => Grammar::String.byte(),
        _ => Grammar::Getvar.byte(),
    };
    let arg = match e {
        Expr::Int { value, .. } => uint_code(value as nat),
        Expr::Str { value, .. } => string_code(value),
        Expr::GetVar { name, .. } => string_code(name),
        _ => arbitrary(),
    };
    assert(code == pre + seq![op] + arg);
    lemma_split(m.source, at, pre + seq![op], arg);
    lemma_split(m.source, at, pre, seq![op]);
    lemma_still(m);
    let r1 = lemma_markers_inside(m, m, lo, hi, line, l, fuel, 0);
    let c1 = r1.machine;
    lemma_enter(c1, lo, hi, op, arg.len(), r1.fuel);
    match e {
        Expr::Int { value, .. } => lemma_integer(c1, value, r1.fuel),
        Expr::Str { value, .. } => lemma_string(c1, value, r1.fuel),
        Expr::GetVar { name, .. } => lemma_getvar(c1, name, r1.fuel),
        _ => {},
    }
    let r2 = reach(c1, c1.ip, hi, r1.fuel).unwrap();
    lemma_moves(m, c1, r2.machine, c1.ip, hi, 0, 0, 1);
}

/// An assignment: the value, then `Setvar`, which leaves it on the stack.
#[verifier::rlimit(40)]
#[verifier::spinoff_prover]
proof fn lemma_assignment(e: Expr, text: Seq<char>, at: nat, line: nat, m: Machine, fuel: nat)
    requires
        e is SetVar,
        compilable(e),
        runs(m, at, expr_code(e, text, at, line).bytes, fuel),
    ensures
        leaves(m, expr_code(e, text, at, line).bytes, fuel, 1),
    decreases e, fuel, 0nat,
{
    let code = expr_code(e, text, at, line).bytes;
    let lo = at as int;
    let hi = lo + code.len();
    let l = line_of(text, e->SetVar_pos.start as nat);
    let pre = markers(line, l);
    let v = expr_code(*e->SetVar_value, text, at + pre.len(), l);
    let post = markers(v.line, l);
    let op = seq![Grammar::Setvar.byte()];
    let name = string_code(e->SetVar_name);
    assert(code == pre + v.bytes + post + op + name);
    lemma_split(m.source, at, pre + v.bytes + post + op, name);
    lemma_split(m.source, at, pre + v.bytes + post, op);
    lemma_split(m.source, at, pre + v.bytes, post);
    lemma_split(m.source, at, pre, v.bytes);
    lemma_still(m);
    let r1 = lemma_markers_inside(m, m, lo, hi, line, l, fuel, 0);
    let c1 = r1.machine;
    let q2 = c1.ip + v.bytes.len();
    lemma_next_part(c1, lo, hi, c1.ip, q2, r1.fuel);
    lemma_expression(*e->SetVar_value, text, (at + pre.len()) as nat, l, c1, r1.fuel);
    let r2 = reach(c1, c1.ip, q2, r1.fuel).unwrap();
    lemma_moves(m, c1, r2.machine, c1.ip, q2, 0, 0, 1);
    let r3 = lemma_markers_inside(m, r2.machine, lo, hi, v.line, l, r2.fuel, 1);
    let c3 = r3.machine;
    lemma_enter(c3, lo, hi, Grammar::Setvar.byte(), name.len(), r3.fuel);
    lemma_setvar(c3, e->SetVar_name, r3.fuel);
    let r4 = reach(c3, c3.ip, hi, r3.fuel).unwrap();
    lemma_moves(m, c3, r4.machine, c3.ip, hi, 1, 1, 1);
}

/// An operator between two operands: the right operand, the left one, the
/// operator's method of the left one, and the call of it with one argument.
#[verifier::rlimit(60)]
#[verifier::spinoff_prover]
proof fn lemma_infix(e: Expr, text: Seq<char>, at: nat, line: nat, m: Machine, fuel: nat)
    requires
        e is Infix,
        compilable(e),
        runs(m, at, expr_code(e, text, at, line).bytes, fuel),
    ensures
        leaves(m, expr_code(e, text, at, line).bytes, fuel, 1),
    decreases e, fuel, 0nat,
{
    let code = expr_code(e, text, at, line).bytes;
    let lo = at as int;
    let hi = lo + code.len();
    let l = line_of(text, e->Infix_pos.start as nat);
    let pre = markers(line, l);
    let r = expr_code(*e->Infix_right, text, at + pre.len(), l);
    let m1 = markers(r.line, l);
    let f = expr_code(*e->Infix_left, text, at + pre.len() + r.bytes.len() + m1.len(), l);
    let m2 = markers(f.line, l);
    let get = seq![Grammar::GetInstance.byte()];
    let name = string_code(e->Infix_operator);
    let call = seq![Grammar::Call.byte()];
    let one = uint_code(1);
    assert(code == pre + r.bytes + m1 + f.bytes + m2 + get + name + call + one);
    lemma_split(m.source, at, pre + r.bytes + m1 + f.bytes + m2 + get + name + call, one);
    lemma_split(m.source, at, pre + r.bytes + m1 + f.bytes + m2 + get + name, call);
    lemma_split(m.source, at, pre + r.bytes + m1 + f.bytes + m2 + get, name);
    lemma_split(m.source, at, pre + r.bytes + m1 + f.bytes + m2, get);
    lemma_split(m.source, at, pre + r.bytes + m1 + f.bytes, m2);
    lemma_split(m.source, at, pre + r.bytes + m1, f.bytes);
    lemma_split(m.source, at, pre + r.bytes, m1);
    lemma_split(m.source, at, pre, r.bytes);
    lemma_still(m);
    let r1 = lemma_markers_inside(m, m, lo, hi, line, l, fuel, 0);
    let c1 = r1.machine;
    let q2 = c1.ip + r.bytes.len();
    lemma_next_part(c1, lo, hi, c1.ip, q2, r1.fuel);
    lemma_expression(*e->Infix_right, text, (at + pre.len()) as nat, l, c1, r1.fuel);
    let r2 = reach(c1, c1.ip, q2, r1.fuel).unwrap();
    lemma_moves(m, c1, r2.machine, c1.ip, q2, 0, 0, 1);
    let r3 = lemma_markers_inside(m, r2.machine, lo, hi, r.line, l, r2.fuel, 1);
    let c3 = r3.machine;
    let q4 = c3.ip + f.bytes.len();
    lemma_next_part(c3, lo, hi, c3.ip, q4, r3.fuel);
    lemma_expression(
        *e->Infix_left,
        text,
        (at + pre.len() + r.bytes.len() + m1.len()) as nat,
        l,
        c3,
        r3.fuel,
    );
    let r4 = reach(c3, c3.ip, q4, r3.fuel).unwrap();
    lemma_moves(m, c3, r4.machine, c3.ip, q4, 1, 0, 1);
    let r5 = lemma_markers_inside(m, r4.machine, lo, hi, f.line, l, r4.fuel, 2);
    let r6 = lemma_method_call(m, r5.machine, lo, hi, e->Infix_operator, 1, r5.fuel, 2);
}

/// An operator before its operand: the operand, the operator's method of
/// it, and the call of it without arguments.
#[verifier::rlimit(60)]
#[verifier::spinoff_prover]
proof fn lemma_prefix(e: Expr, text: Seq<char>, at: nat, line: nat, m: Machine, fuel: nat)
    requires
        e is Prefix,
        compilable(e),
        runs(m, at, expr_code(e, text, at, line).bytes, fuel),
    ensures
        leaves(m, expr_code(e, text, at, line).bytes, fuel, 1),
    decreases e, fuel, 0nat,
{
    let code = expr_code(e, text, at, line).bytes;
    let lo = at as int;
    let hi = lo + code.len();
    let l = line_of(text, e->Prefix_pos.start as nat);
    let pre = markers(line, l);
    let r = expr_code(*e->Prefix_right, text, at + pre.len(), l);
    let m1 = markers(r.line, l);
    let get = seq![Grammar::GetInstance.byte()];
    let name = string_code(e->Prefix_operator.push('@'));
    let call = seq![Grammar::Call.byte()];
    let none = uint_code(0);
    assert(code == pre + r.bytes + m1 + get + name + call + none);
    lemma_split(m.source, at, pre + r.bytes + m1 + get + name + call, none);
    lemma_split(m.source, at, pre + r.bytes + m1 + get + name, call);
    lemma_split(m.source, at, pre + r.bytes + m1 + get, name);
    lemma_split(m.source, at, pre + r.bytes + m1, get);
    lemma_split(m.source, at, pre + r.bytes, m1);
    lemma_split(m.source, at, pre, r.bytes);
    lemma_still(m);
    let r1 = lemma_markers_inside(m, m, lo, hi, line, l, fuel, 0);
    let c1 = r1.machine;
    let q2 = c1.ip + r.bytes.len();
    lemma_next_part(c1, lo, hi, c1.ip, q2, r1.fuel);
    lemma_expression(*e->Prefix_right, text, (at + pre.len()) as nat, l, c1, r1.fuel);
    let r2 = reach(c1, c1.ip, q2, r1.fuel).unwrap();
    lemma_moves(m, c1, r2.machine, c1.ip, q2, 0, 0, 1);
    let r3 = lemma_markers_inside(m, r2.machine, lo, hi, r.line, l, r2.fuel, 1);
    let r4 = lemma_method_call(
        m,
        r3.machine,
        lo,
        hi,
        e->Prefix_operator.push('@'),
        0,
        r3.fuel,
        1,
    );
}

/// A call: the arguments, the last one first, the callee, and `Call`,
/// which takes them all and pushes what the callee returns.
#[verifier::rlimit(60)]
#[verifier::spinoff_prover]
proof fn lemma_application(e: Expr, text: Seq<char>, at: nat, line: nat, m: Machine, fuel: nat)
    requires
        e is Call,
        compilable(e),
        runs(m, at, expr_code(e, text, at, line).bytes, fuel),
    ensures
        leaves(m, expr_code(e, text, at, line).bytes, fuel, 1),
    decreases e, fuel, 0nat,
{
    let code = expr_code(e, text, at, line).bytes;
    let lo = at as int;
    let hi = lo + code.len();
    let args = e->Call_arguments;
    let n = args.len();
    let l = line_of(text, e->Call_pos.start as nat);
    let pre = markers(line, l);
    let a = rev_args_code(args, n, text, at + pre.len(), l);
    let c = expr_code(*e->Call_callee, text, at + pre.len() + a.bytes.len(), a.line);
    let call = seq![Grammar::Call.byte()];
    let count = uint_code(n);
    assert(code == pre + a.bytes + c.bytes + call + count);
    lemma_split(m.source, at, pre + a.bytes + c.bytes + call, count);
    lemma_split(m.source, at, pre + a.bytes + c.bytes, call);
    lemma_split(m.source, at, pre + a.bytes, c.bytes);
    lemma_split(m.source, at, pre, a.bytes);
    lemma_holds_bound(m.source, at, code);
    lemma_arguments_len(args, n, text, at + pre.len(), l);
    lemma_still(m);
    let r1 = lemma_markers_inside(m, m, lo, hi, line, l, fuel, 0);
    let c1 = r1.machine;
    let q2 = c1.ip + a.bytes.len();
    lemma_next_part(c1, lo, hi, c1.ip, q2, r1.fuel);
    lemma_arguments(args, n, text, (at + pre.len()) as nat, l, c1, r1.fuel);
    let r2 = reach(c1, c1.ip, q2, r1.fuel).unwrap();
    lemma_moves(m, c1, r2.machine, c1.ip, q2, 0, 0, n);
    let c2 = r2.machine;
    let q3 = q2 + c.bytes.len();
    lemma_next_part(c2, lo, hi, q2, q3, r2.fuel);
    lemma_expression(
        *e->Call_callee,
        text,
        (at + pre.len() + a.bytes.len()) as nat,
        a.line,
        c2,
        r2.fuel,
    );
    let r3 = reach(c2, q2, q3, r2.fuel).unwrap();
    lemma_moves(m, c2, r3.machine, q2, q3, n, 0, 1);
    let c3 = r3.machine;
    lemma_enter(c3, lo, hi, Grammar::Call.byte(), count.len(), r3.fuel);
    lemma_call(c3, n, r3.fuel);
    let r4 = reach(c3, c3.ip, hi, r3.fuel).unwrap();
    lemma_moves(m, c3, r4.machine, c3.ip, hi, n + 1, n + 1, 1);
}

/// A member of an object: the object, and `GetInstance`, which takes it
/// and pushes the member.
#[verifier::rlimit(40)]
#[verifier::spinoff_prover]
proof fn lemma_member(e: Expr, text: Seq<char>, at: nat, line: nat, m: Machine, fuel: nat)
    requires
        e is GetInstance,
        compilable(e),
        runs(m, at, expr_code(e, text, at, line).bytes, fuel),
    ensures
        leaves(m, expr_code(e, text, at, line).bytes, fuel, 1),
    decreases e, fuel, 0nat,
{
    let code = expr_code(e, text, at, line).bytes;
    let lo = at as int;
    let hi = lo + code.len();
    let l = line_of(text, e->GetInstance_pos.start as nat);
    let pre = markers(line, l);
    let p = expr_code(*e->GetInstance_parent, text, at + pre.len(), l);
    let get = seq![Grammar::GetInstance.byte()];
    let name = string_code(e->GetInstance_name);
    assert(code == pre + p.bytes + get + name);
    lemma_split(m.source, at, pre + p.bytes + get, name);
    lemma_split(m.source, at, pre + p.bytes, get);
    lemma_split(m.source, at, pre, p.bytes);
    lemma_still(m);
    let r1 = lemma_markers_inside(m, m, lo, hi, line, l, fuel, 0);
    let c1 = r1.machine;
    let q2 = c1.ip + p.bytes.len();
    lemma_next_part(c1, lo, hi, c1.ip, q2, r1.fuel);
    lemma_expression(*e->GetInstance_parent, text, (at + pre.len()) as nat, l, c1, r1.fuel);
    let r2 = reach(c1, c1.ip, q2, r1.fuel).unwrap();
    lemma_moves(m, c1, r2.machine, c1.ip, q2, 0, 0, 1);
    let c2 = r2.machine;
    lemma_enter(c2, lo, hi, Grammar::GetInstance.byte(), name.len(), r2.fuel);
    lemma_get_instance(c2, e->GetInstance_name, r2.fuel);
    let r3 = reach(c2, c2.ip, hi, r2.fuel).unwrap();
    lemma_moves(m, c2, r3.machine, c2.ip, hi, 1, 1, 1);
}

/// The arguments of a call leave one value each.
#[verifier::rlimit(40)]
#[verifier::spinoff_prover]
pub proof fn lemma_arguments(
    args: Seq<Expr>,
    k: nat,
    text: Seq<char>,
    at: nat,
    line: nat,
    m: Machine,
    fuel: nat,
)
    requires
        k <= args.len(),
        forall|i: int| 0 <= i < args.len() ==> compilable(#[trigger] args[i]),
        runs(m, at, rev_args_code(args, k, text, at, line).bytes, fuel),
    ensures
        leaves(m, rev_args_code(args, k, text, at, line).bytes, fuel, k),
    decreases args, fuel, k,
{
    let code = rev_args_code(args, k, text, at, line).bytes;
    let lo = at as int;
    let hi = lo + code.len();
    if k == 0 {
        lemma_still(m);
    } else {
        let before = rev_args_code(args, (k - 1) as nat, text, at, line);
        let x = args[args.len() - k];
        let this = expr_code(x, text, at + before.bytes.len(), before.line);
        assert(code == before.bytes + this.bytes);
        lemma_split(m.source, at, before.bytes, this.bytes);
        let q = lo + before.bytes.len();
        lemma_next_part(m, lo, hi, lo, q, fuel);
        lemma_arguments(args, (k - 1) as nat, text, at, line, m, fuel);
        let r1 = reach(m, lo, q, fuel).unwrap();
        let c1 = r1.machine;
        lemma_next_part(c1, lo, hi, q, hi, r1.fuel);
        lemma_expression(x, text, (at + before.bytes.len()) as nat, before.line, c1, r1.fuel);
        let r2 = reach(c1, q, hi, r1.fuel).unwrap();
        lemma_moves(m, c1, r2.machine, q, hi, (k - 1) as nat, 0, 1);
    }
}

/// A declaration binds a name and leaves the stack as it was: the body is
/// passed over.
#[verifier::rlimit(60)]
#[verifier::spinoff_prover]
proof fn lemma_declaration(s: Stmt, text: Seq<char>, at: nat, line: nat, m: Machine, fuel: nat)
    requires
        s is Function,
        runs(m, at, stmt_code(s, text, at, line).bytes, fuel),
    ensures
        leaves(m, stmt_code(s, text, at, line).bytes, fuel, 0),
{
    let code = stmt_code(s, text, at, line).bytes;
    let lo = at as int;
    let hi = lo + code.len();
    let l = line_of(text, s->Function_pos.start as nat);
    let b = block_code(s->Function_body, s->Function_body.len(), text, 1, l);
    let pre = markers(line, l);
    let op = seq![Grammar::Function.byte()];
    let name = string_code(s->Function_name);
    let count = uint_code(s->Function_args.len());
    let names = names_code(s->Function_args, s->Function_args.len());
    let size = uint_code(b.bytes.len());
    let post = markers(l, b.line);
    let operands = name + count + names + size + b.bytes;
    assert(code == pre + op + name + count + names + size + b.bytes + post);
    assert(code =~= pre + op + operands + post);
    lemma_split(m.source, at, pre + op + operands, post);
    lemma_split(m.source, at, pre + op, operands);
    lemma_split(m.source, at, pre, op);
    lemma_still(m);
    let r1 = lemma_markers_inside(m, m, lo, hi, line, l, fuel, 0);
    let c1 = r1.machine;
    lemma_enter(c1, lo, hi, Grammar::Function.byte(), operands.len(), r1.fuel);
    lemma_function(c1, s->Function_name, s->Function_args, b.bytes, r1.fuel);
    let q2 = c1.ip + 1 + operands.len();
    let r2 = reach(c1, c1.ip, q2, r1.fuel).unwrap();
    lemma_moves(m, c1, r2.machine, c1.ip, q2, 0, 0, 0);
    let r3 = lemma_markers_inside(m, r2.machine, lo, hi, l, b.line, r2.fuel, 0);
}

/// A statement leaves the stack as it was: an expression statement pops
/// the value of its expression.
#[verifier::rlimit(40)]
#[verifier::spinoff_prover]
pub proof fn lemma_statement(s: Stmt, text: Seq<char>, at: nat, line: nat, m: Machine, fuel: nat)
    requires
        stmt_compilable(s),
        runs(m, at, stmt_code(s, text, at, line).bytes, fuel),
    ensures
        leaves(m, stmt_code(s, text, at, line).bytes, fuel, 0),
    decreases s, fuel, 0nat,
{
    match s {
        Stmt::Function { .. } => {
            lemma_declaration(s, text, at, line, m, fuel);
        },
        Stmt::Expr { expr, pos } => {
            let code = stmt_code(s, text, at, line).bytes;
            let lo = at as int;
            let hi = lo + code.len();
            let l = line_of(text, pos.start as nat);
            let pre = markers(line, l);
            let x = expr_code(expr, text, at + pre.len(), l);
            let pop = seq![Grammar::Pop.byte()];
            assert(code == pre + x.bytes + pop);
            lemma_split(m.source, at, pre + x.bytes, pop);
            lemma_split(m.source, at, pre, x.bytes);
            lemma_still(m);
            let r1 = lemma_markers_inside(m, m, lo, hi, line, l, fuel, 0);
            let c1 = r1.machine;
            let q2 = c1.ip + x.bytes.len();
            lemma_next_part(c1, lo, hi, c1.ip, q2, r1.fuel);
            lemma_expression(expr, text, (at + pre.len()) as nat, l, c1, r1.fuel);
            let r2 = reach(c1, c1.ip, q2, r1.fuel).unwrap();
            lemma_moves(m, c1, r2.machine, c1.ip, q2, 0, 0, 1);
            let c2 = r2.machine;
            lemma_enter(c2, lo, hi, Grammar::Pop.byte(), 0, r2.fuel);
            lemma_pop(c2, r2.fuel);
            let r3 = reach(c2, c2.ip, hi, r2.fuel).unwrap();
            lemma_moves(m, c2, r3.machine, c2.ip, hi, 1, 1, 0);
        },
    }
}

/// The first `n` statements of a block leave the stack as it was.
#[verifier::rlimit(40)]
#[verifier::spinoff_prover]
pub proof fn lemma_block(
    stmts: Seq<Stmt>,
    n: nat,
    text: Seq<char>,
    at: nat,
    line: nat,
    m: Machine,
    fuel: nat,
)
    requires
        n <= stmts.len(),
        block_compilable(stmts),
        runs(m, at, block_code(stmts, n, text, at, line).bytes, fuel),
    ensures
        leaves(m, block_code(stmts, n, text, at, line).bytes, fuel, 0),
    decreases stmts, fuel, n,
{
    let code = block_code(stmts, n, text, at, line).bytes;
    let lo = at as int;
    let hi = lo + code.len();
    if n == 0 {
        lemma_still(m);
    } else {
        let before = block_code(stmts, (n - 1) as nat, text, at, line);
        let s = stmts[n - 1];
        let this = stmt_code(s, text, at + before.bytes.len(), before.line);
        assert(code == before.bytes + this.bytes);
        lemma_split(m.source, at, before.bytes, this.bytes);
        let q = lo + before.bytes.len();
        lemma_next_part(m, lo, hi, lo, q, fuel);
        lemma_block(stmts, (n - 1) as nat, text, at, line, m, fuel);
        let r1 = reach(m, lo, q, fuel).unwrap();
        let c1 = r1.machine;
        lemma_next_part(c1, lo, hi, q, hi, r1.fuel);
        lemma_statement(s, text, (at + before.bytes.len()) as nat, before.line, c1, r1.fuel);
        let r2 = reach(c1, q, hi, r1.fuel).unwrap();
        lemma_moves(m, c1, r2.machine, q, hi, 0, 0, 0);
    }
}

/// The code before the `Pop` that ends it.
proof fn lemma_without_pop(a: Seq<u8>, b: Seq<u8>, c: Seq<u8>, pop: u8)
    ensures
        (a + (b + c + seq![pop])).drop_last() == a + b + c,
{
    assert((a + (b + c + seq![pop])).drop_last() =~= a + b + c);
}

/// The parts of an arm that ends in an expression: the statements before
/// the last, the markers to the line of the last, and its expression.
#[verifier::rlimit(40)]
#[verifier::spinoff_prover]
proof fn lemma_arm_parts(stmts: Seq<Stmt>, text: Seq<char>, at: nat, line: nat, source: Seq<u8>)
    requires
        ends_in_value(stmts),
        holds(source, at, arm_code(stmts, text, at, line).bytes),
    ensures
        ({
            let before = block_code(stmts, (stmts.len() - 1) as nat, text, at, line);
            let s = stmts[stmts.len() - 1];
            let l = line_of(text, s->Expr_pos.start as nat);
            let pre = markers(before.line, l);
            let x = expr_code(s->Expr_expr, text, at + before.bytes.len() + pre.len(), l);
            &&& arm_code(stmts, text, at, line).bytes.len() == before.bytes.len() + pre.len()
                + x.bytes.len()
            &&& holds(source, at, before.bytes)
            &&& holds(source, at + before.bytes.len(), pre)
            &&& holds(source, at + before.bytes.len() + pre.len(), x.bytes)
        }),
{
    let n = stmts.len();
    let before = block_code(stmts, (n - 1) as nat, text, at, line);
    let s = stmts[n - 1];
    let l = line_of(text, s->Expr_pos.start as nat);
    let pre = markers(before.line, l);
    let x = expr_code(s->Expr_expr, text, at + before.bytes.len() + pre.len(), l);
    let this = stmt_code(s, text, at + before.bytes.len(), before.line);
    assert(this.bytes == pre + x.bytes + seq![Grammar::Pop.byte()]);
    assert(block_code(stmts, n, text, at, line).bytes == before.bytes + this.bytes);
    lemma_without_pop(before.bytes, pre, x.bytes, Grammar::Pop.byte());
    lemma_split(source, at, before.bytes + pre, x.bytes);
    lemma_split(source, at, before.bytes, pre);
}

/// An arm that ends in an expression leaves the value of that expression:
/// the `Pop` of the last statement is left out.
#[verifier::rlimit(60)]
#[verifier::spinoff_prover]
proof fn lemma_arm_value(
    stmts: Seq<Stmt>,
    text: Seq<char>,
    at: nat,
    line: nat,
    m: Machine,
    fuel: nat,
)
    requires
        ends_in_value(stmts),
        block_compilable(stmts),
        runs(m, at, arm_code(stmts, text, at, line).bytes, fuel),
    ensures
        leaves(m, arm_code(stmts, text, at, line).bytes, fuel, 1),
    decreases stmts, fuel, stmts.len() + 1,
{
    let code = arm_code(stmts, text, at, line).bytes;
    let lo = at as int;
    let hi = lo + code.len();
    let n = stmts.len();
    let before = block_code(stmts, (n - 1) as nat, text, at, line);
    let s = stmts[n - 1];
    let l = line_of(text, s->Expr_pos.start as nat);
    let pre = markers(before.line, l);
    let x = expr_code(s->Expr_expr, text, at + before.bytes.len() + pre.len(), l);
    lemma_arm_parts(stmts, text, at, line, m.source);
    let q = lo + before.bytes.len();
    lemma_next_part(m, lo, hi, lo, q, fuel);
    lemma_block(stmts, (n - 1) as nat, text, at, line, m, fuel);
    let r1 = reach(m, lo, q, fuel).unwrap();
    let r2 = lemma_markers_inside(m, r1.machine, lo, hi, before.line, l, r1.fuel, 0);
    let c2 = r2.machine;
    lemma_next_part(c2, lo, hi, c2.ip, hi, r2.fuel);
    assert(stmt_compilable(s));
    lemma_expression(
        s->Expr_expr,
        text,
        (at + before.bytes.len() + pre.len()) as nat,
        l,
        c2,
        r2.fuel,
    );
    let r3 = reach(c2, c2.ip, hi, r2.fuel).unwrap();
    lemma_moves(m, c2, r3.machine, c2.ip, hi, 0, 0, 1);
}

/// An arm that does not end in an expression leaves null: a `Null` stands
/// behind its statements.
#[verifier::rlimit(60)]
#[verifier::spinoff_prover]
proof fn lemma_arm_null(
    stmts: Seq<Stmt>,
    text: Seq<char>,
    at: nat,
    line: nat,
    m: Machine,
    fuel: nat,
)
    requires
        !ends_in_value(stmts),
        block_compilable(stmts),
        runs(m, at, arm_code(stmts, text, at, line).bytes, fuel),
    ensures
        leaves(m, arm_code(stmts, text, at, line).bytes, fuel, 1),
        run_of(m, arm_code(stmts, text, at, line).bytes, fuel).unwrap().machine.stack.last()
            == null_view(),
    decreases stmts, fuel, stmts.len() + 1,
{
    let code = arm_code(stmts, text, at, line).bytes;
    let lo = at as int;
    let hi = lo + code.len();
    let n = stmts.len();
    let b = block_code(stmts, n, text, at, line);
    let null = seq![Grammar::Null.byte()];
    assert(code == b.bytes + null);
    lemma_split(m.source, at, b.bytes, null);
    let q = lo + b.bytes.len();
    lemma_next_part(m, lo, hi, lo, q, fuel);
    lemma_block(stmts, n, text, at, line, m, fuel);
    let r1 = reach(m, lo, q, fuel).unwrap();
    let c1 = r1.machine;
    lemma_enter(c1, lo, hi, Grammar::Null.byte(), 0, r1.fuel);
    lemma_null(c1, r1.fuel);
    let r2 = reach(c1, c1.ip, hi, r1.fuel).unwrap();
    lemma_moves(m, c1, r2.machine, c1.ip, hi, 0, 0, 1);
}

/// An arm of a conditional leaves one value: the value of its last
/// statement where that is an expression, and null where it is not or the
/// arm is empty.
pub proof fn lemma_arm(
    stmts: Seq<Stmt>,
    text: Seq<char>,
    at: nat,
    line: nat,
    m: Machine,
    fuel: nat,
)
    requires
        block_compilable(stmts),
        runs(m, at, arm_code(stmts, text, at, line).bytes, fuel),
    ensures
        leaves(m, arm_code(stmts, text, at, line).bytes, fuel, 1),
        !ends_in_value(stmts) ==> run_of(
            m,
            arm_code(stmts, text, at, line).bytes,
            fuel,
        ).unwrap().machine.stack.last() == null_view(),
    decreases stmts, fuel, stmts.len() + 2,
{
    if ends_in_value(stmts) {
        lemma_arm_value(stmts, text, at, line, m, fuel);
    } else {
        lemma_arm_null(stmts, text, at, line, m, fuel);
    }
}

/// The parts of a conditional where they stand: the markers and the
/// condition before the first jump, the first arm and the markers back to
/// the conditional's line before the second jump, and the second arm up
/// to the end of the code.
#[verifier::rlimit(100)]
#[verifier::spinoff_prover]
proof fn lemma_conditional_parts(e: Expr, text: Seq<char>, at: nat, line: nat, source: Seq<u8>)
    requires
        e is If,
        holds(source, at, expr_code(e, text, at, line).bytes),
    ensures
        ({
            let w = if_places(e, text, at, line);
            let l = line_of(text, e->If_pos.start as nat);
            let pre = markers(line, l);
            let c = expr_code(*e->If_cond, text, at + pre.len(), l);
            let a = arm_code(e->If_body, text, at + w.then_arm, c.line);
            let back = markers(a.line, l);
            let b = arm_code(e->If_other, text, at + w.else_arm, l);
            &&& w.test == pre.len() + c.bytes.len()
            &&& w.test < w.then_arm
            &&& w.skip == w.then_arm + a.bytes.len() + back.len()
            &&& w.skip < w.else_arm
            &&& w.else_arm + b.bytes.len() == expr_code(e, text, at, line).bytes.len()
            &&& holds(source, at, pre)
            &&& holds(source, at + pre.len(), c.bytes)
            &&& holds(source, at + w.then_arm, a.bytes)
            &&& holds(source, at + w.then_arm + a.bytes.len(), back)
            &&& holds(source, at + w.else_arm, b.bytes)
        }),
{
    let code = expr_code(e, text, at, line).bytes;
    let l = line_of(text, e->If_pos.start as nat);
    let pre = markers(line, l);
    let c = expr_code(*e->If_cond, text, at + pre.len(), l);
    let p = at + pre.len() + c.bytes.len() + 1;
    let s = then_width(e, text, p, c.line, l, 2);
    let y = if_layout(e, text, p, c.line, l, s);
    let tail = if_tail(e, text, p, c.line, l, s);
    let test = seq![Grammar::JumpIfFalse.byte()];
    let skip = seq![Grammar::Jump.byte()];
    let a = arm_code(e->If_body, text, p + s, c.line);
    let back = markers(a.line, l);
    let q = p + s + a.bytes.len() + back.len() + 1;
    let t = else_width(e, text, q, l, 2);
    let b = arm_code(e->If_other, text, q + t, l);
    let first = uint_code(y.then_jump);
    let second = uint_code(y.else_arm.len());
    assert(code == pre + c.bytes + test + tail.bytes);
    assert(tail.bytes == first + y.then_arm + skip + second + y.else_arm);
    assert(y.then_arm == a.bytes + back);
    assert(y.else_arm == b.bytes);
    assert(y.else_width == t);
    assert(y.then_jump == a.bytes.len() + back.len() + 1 + t);
    lemma_holds_bound(source, at, code);
    lemma_conditional_layout(e, text, p, c.line, l);
    let w = if_places(e, text, at, line);
    assert(w.test == pre.len() + c.bytes.len() && w.then_arm == w.test + 1 + first.len()
        && w.skip == w.then_arm + y.then_arm.len() && w.else_arm == w.then_arm + y.then_jump) by {
        reveal(if_places);
    }
    lemma_split(source, at, pre + c.bytes + test, tail.bytes);
    lemma_split(source, at, pre + c.bytes, test);
    lemma_split(source, at, pre, c.bytes);
    lemma_split(source, p, first + y.then_arm + skip + second, y.else_arm);
    lemma_split(source, p, first + y.then_arm + skip, second);
    lemma_split(source, p, first + y.then_arm, skip);
    lemma_split(source, p, first, y.then_arm);
    lemma_split(source, p + first.len(), a.bytes, back);
}

/// The first arm of a conditional, from its first byte, where the first
/// jump leaves the machine when the condition counts as true: the arm
/// leaves its value, null where it does not end in an expression, and the
/// second jump takes the machine behind the second arm.
#[verifier::rlimit(60)]
#[verifier::spinoff_prover]
pub proof fn lemma_first_arm(e: Expr, text: Seq<char>, at: nat, line: nat, c: Machine, f: nat)
    requires
        e is If,
        compilable(e),
        holds(c.source, at, expr_code(e, text, at, line).bytes),
        c.ip == at + if_places(e, text, at, line).then_arm,
        rest_of(c, at, expr_code(e, text, at, line).bytes, f) is Some,
    ensures
        pushed(
            c,
            rest_of(c, at, expr_code(e, text, at, line).bytes, f).unwrap().machine,
            at as int + expr_code(e, text, at, line).bytes.len(),
            1,
        ),
        !ends_in_value(e->If_body) ==> rest_of(
            c,
            at,
            expr_code(e, text, at, line).bytes,
            f,
        ).unwrap().machine.stack.last() == null_view(),
    decreases e, f, 0nat,
{
    let code = expr_code(e, text, at, line).bytes;
    let lo = at as int;
    let hi = lo + code.len();
    let w = if_places(e, text, at, line);
    let l = line_of(text, e->If_pos.start as nat);
    let pre = markers(line, l);
    let cond = expr_code(*e->If_cond, text, at + pre.len(), l);
    let a = arm_code(e->If_body, text, at + w.then_arm, cond.line);
    lemma_conditional_parts(e, text, at, line, c.source);
    let q1 = c.ip + a.bytes.len();
    lemma_next_part(c, lo, hi, c.ip, q1, f);
    lemma_arm(e->If_body, text, (at + w.then_arm) as nat, cond.line, c, f);
    let r1 = reach(c, c.ip, q1, f).unwrap();
    let c1 = r1.machine;
    lemma_still(c1);
    let r2 = lemma_markers_inside(c1, c1, lo, hi, a.line, l, r1.fuel, 0);
    let c2 = r2.machine;
    let n = c1.stack.len() as int;
    assert(c2.stack.last() == c1.stack.last()) by {
        assert(c2.stack.take(n)[n - 1] == c1.stack.take(n)[n - 1]);
    }
    lemma_moves(c, c1, c2, q1, c2.ip, 1, 0, 0);
    lemma_conditional_skip(e, text, at, line, c2);
    lemma_step(c2, lo, hi, r2.fuel);
    let c3 = step(c2)->Ok_0;
    assert(pushed(c, c3, hi, 1));
}

/// The second arm of a conditional, from its first byte, where the first
/// jump leaves the machine when the condition does not count as true: the
/// arm leaves its value, and the conditional's code ends with it. A
/// conditional without a second arm, or with an empty one, leaves null
/// there.
#[verifier::rlimit(60)]
#[verifier::spinoff_prover]
pub proof fn lemma_second_arm(e: Expr, text: Seq<char>, at: nat, line: nat, c: Machine, f: nat)
    requires
        e is If,
        compilable(e),
        holds(c.source, at, expr_code(e, text, at, line).bytes),
        c.ip == at + if_places(e, text, at, line).else_arm,
        rest_of(c, at, expr_code(e, text, at, line).bytes, f) is Some,
    ensures
        pushed(
            c,
            rest_of(c, at, expr_code(e, text, at, line).bytes, f).unwrap().machine,
            at as int + expr_code(e, text, at, line).bytes.len(),
            1,
        ),
        !ends_in_value(e->If_other) ==> rest_of(
            c,
            at,
            expr_code(e, text, at, line).bytes,
            f,
        ).unwrap().machine.stack.last() == null_view(),
    decreases e, f, 0nat,
{
    let code = expr_code(e, text, at, line).bytes;
    let lo = at as int;
    let hi = lo + code.len();
    let w = if_places(e, text, at, line);
    let l = line_of(text, e->If_pos.start as nat);
    lemma_conditional_parts(e, text, at, line, c.source);
    lemma_next_part(c, lo, hi, c.ip, hi, f);
    lemma_arm(e->If_other, text, (at + w.else_arm) as nat, l, c, f);
}

/// A conditional leaves one value whichever arm runs: the condition is
/// popped by the first jump, and the arm that runs leaves its value. With
/// the first arm the second jump takes the machine behind the second.
/// Where neither arm ends in an expression, the value is null.
#[verifier::rlimit(60)]
#[verifier::spinoff_prover]
pub proof fn lemma_conditional(e: Expr, text: Seq<char>, at: nat, line: nat, m: Machine, fuel: nat)
    requires
        e is If,
        compilable(e),
        runs(m, at, expr_code(e, text, at, line).bytes, fuel),
    ensures
        leaves(m, expr_code(e, text, at, line).bytes, fuel, 1),
        !ends_in_value(e->If_body) && !ends_in_value(e->If_other) ==> run_of(
            m,
            expr_code(e, text, at, line).bytes,
            fuel,
        ).unwrap().machine.stack.last() == null_view(),
    decreases e, fuel, 0nat,
{
    let code = expr_code(e, text, at, line).bytes;
    let lo = at as int;
    let hi = lo + code.len();
    let l = line_of(text, e->If_pos.start as nat);
    let pre = markers(line, l);
    let c = expr_code(*e->If_cond, text, at + pre.len(), l);
    lemma_conditional_parts(e, text, at, line, m.source);
    lemma_still(m);
    let r1 = lemma_markers_inside(m, m, lo, hi, line, l, fuel, 0);
    let c1 = r1.machine;
    let q2 = c1.ip + c.bytes.len();
    lemma_next_part(c1, lo, hi, c1.ip, q2, r1.fuel);
    lemma_expression(*e->If_cond, text, (at + pre.len()) as nat, l, c1, r1.fuel);
    let r2 = reach(c1, c1.ip, q2, r1.fuel).unwrap();
    lemma_moves(m, c1, r2.machine, c1.ip, q2, 0, 0, 1);
    let c2 = r2.machine;
    lemma_conditional_test(e, text, at, line, c2);
    lemma_step(c2, lo, hi, r2.fuel);
    let c3 = step(c2)->Ok_0;
    let f3 = (r2.fuel - 1) as nat;
    lemma_popped(c2, c3.ip);
    lemma_moves(m, c2, c3, q2, c3.ip, 1, 1, 0);
    if value_truthy(c2.stack.last().value) {
        lemma_first_arm(e, text, at, line, c3, f3);
    } else {
        lemma_second_arm(e, text, at, line, c3, f3);
    }
    let r4 = reach(c3, lo, hi, f3).unwrap();
    lemma_moves(m, c3, r4.machine, c3.ip, hi, 0, 0, 1);
}

/// A loop leaves one value, and that value is null, however often the
/// body runs: each round leaves the stack as it was before the loop, and
/// the jump out goes to the `Null` that ends the loop's code.
#[verifier::rlimit(100)]
#[verifier::spinoff_prover]
pub proof fn lemma_loop(e: Expr, text: Seq<char>, at: nat, line: nat, m: Machine, fuel: nat)
    requires
        e is While,
        compilable(e),
        runs(m, at, expr_code(e, text, at, line).bytes, fuel),
    ensures
        leaves(m, expr_code(e, text, at, line).bytes, fuel, 1),
        run_of(m, expr_code(e, text, at, line).bytes, fuel).unwrap().machine.stack.last()
            == null_view(),
    decreases e, fuel, 0nat,
{
    let code = expr_code(e, text, at, line).bytes;
    let lo = at as int;
    let hi = lo + code.len();
    let l = line_of(text, e->While_pos.start as nat);
    let pre = markers(line, l);
    let c = expr_code(*e->While_cond, text, at + pre.len(), l);
    let p = at + pre.len() + c.bytes.len() + 1;
    let s = while_width(e, text, at, p, c.line, 2);
    let b = block_code(e->While_body, e->While_body.len(), text, p + s, c.line);
    let d = while_jump(b.bytes.len(), at);
    let tail = while_tail(e, text, at, p, c.line, s);
    let test = seq![Grammar::JumpIfFalse.byte()];
    let again = seq![Grammar::JumpTo.byte()];
    let null = seq![Grammar::Null.byte()];
    let first = uint_code(d);
    assert(code == pre + c.bytes + test + tail.bytes + null);
    assert(tail.bytes == first + b.bytes + again + uint_code(at));
    lemma_holds_bound(m.source, at, code);
    lemma_loop_layout(e, text, at, p, c.line);
    lemma_loop_places(e, text, at, line);
    let w = loop_places(e, text, at, line);
    assert(w.exit_jump == pre.len() + c.bytes.len() && w.body == w.exit_jump + 1 + first.len()
        && w.back_jump == w.body + b.bytes.len()) by {
        reveal(loop_places);
    }
    lemma_split(m.source, at, pre + c.bytes + test + tail.bytes, null);
    lemma_split(m.source, at, pre + c.bytes + test, tail.bytes);
    lemma_split(m.source, at, pre + c.bytes, test);
    lemma_split(m.source, at, pre, c.bytes);
    lemma_split(m.source, p, first + b.bytes + again, uint_code(at));
    lemma_split(m.source, p, first + b.bytes, again);
    lemma_split(m.source, p, first, b.bytes);
    lemma_still(m);
    let r1 = lemma_markers_inside(m, m, lo, hi, line, l, fuel, 0);
    let c1 = r1.machine;
    let q2 = c1.ip + c.bytes.len();
    lemma_next_part(c1, lo, hi, c1.ip, q2, r1.fuel);
    lemma_expression(*e->While_cond, text, (at + pre.len()) as nat, l, c1, r1.fuel);
    let r2 = reach(c1, c1.ip, q2, r1.fuel).unwrap();
    lemma_moves(m, c1, r2.machine, c1.ip, q2, 0, 0, 1);
    let c2 = r2.machine;
    lemma_step(c2, lo, hi, r2.fuel);
    let c3 = step(c2)->Ok_0;
    let f3 = (r2.fuel - 1) as nat;
    if value_truthy(c2.stack.last().value) {
        lemma_loop_enter(e, text, at, line, c2);
        lemma_popped(c2, c3.ip);
        lemma_moves(m, c2, c3, q2, c3.ip, 1, 1, 0);
        let q4 = c3.ip + b.bytes.len();
        lemma_next_part(c3, lo, hi, c3.ip, q4, f3);
        lemma_block(e->While_body, e->While_body.len(), text, (p + s) as nat, c.line, c3, f3);
        let r4 = reach(c3, c3.ip, q4, f3).unwrap();
        lemma_moves(m, c3, r4.machine, c3.ip, q4, 0, 0, 0);
        let c4 = r4.machine;
        lemma_loop_back(e, text, at, line, c4);
        lemma_step(c4, lo, hi, r4.fuel);
        let c5 = step(c4)->Ok_0;
        let f5 = (r4.fuel - 1) as nat;
        assert(pushed(m, c5, lo, 0));
        lemma_loop(e, text, at, line, c5, f5);
        let r6 = reach(c5, lo, hi, f5).unwrap();
        lemma_moves(m, c5, r6.machine, lo, hi, 0, 0, 1);
    } else {
        lemma_loop_exit(e, text, at, line, c2);
        lemma_step(c3, lo, hi, f3);
        let c4 = step(c3)->Ok_0;
        let keep = c2.stack.len() - 1;
        assert(c4.stack.take(keep) =~= c2.stack.take(keep));
        assert(moved(c2, c4, hi, 1, 1));
        lemma_moves(m, c2, c4, q2, hi, 1, 1, 1);
    }
}

/// Every expression yields a value. The code of an expression that the
/// compiler has code for, run from its first byte until the machine
/// stands behind it, leaves exactly one value more on the stack than was
/// there, and what was there untouched: whatever the expression, whichever
/// arm of a conditional runs, and however often the body of a loop does.
/// This holds of every run that ends without an error.
pub proof fn lemma_expression(e: Expr, text: Seq<char>, at: nat, line: nat, m: Machine, fuel: nat)
    requires
        compilable(e),
        runs(m, at, expr_code(e, text, at, line).bytes, fuel),
    ensures
        leaves(m, expr_code(e, text, at, line).bytes, fuel, 1),
    decreases e, fuel, 1nat,
{
    match e {
        Expr::Int { .. } => lemma_literal(e, text, at, line, m, fuel),
        Expr::Str { .. } => lemma_literal(e, text, at, line, m, fuel),
        Expr::GetVar { .. } => lemma_literal(e, text, at, line, m, fuel),
        Expr::SetVar { .. } => lemma_assignment(e, text, at, line, m, fuel),
        Expr::Infix { .. } => lemma_infix(e, text, at, line, m, fuel),
        Expr::Prefix { .. } => lemma_prefix(e, text, at, line, m, fuel),
        Expr::Call { .. } => lemma_application(e, text, at, line, m, fuel),
        Expr::GetInstance { .. } => lemma_member(e, text, at, line, m, fuel),
        Expr::Index { .. } => {},
        Expr::Vector { .. } => {},
        Expr::If { .. } => lemma_conditional(e, text, at, line, m, fuel),
        Expr::While { .. } => lemma_loop(e, text, at, line, m, fuel),
    }
}

} // verus!
