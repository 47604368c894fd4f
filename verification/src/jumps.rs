//! Where the machine goes on the jumps of compiled code: out of a loop and
//! back to its start, over the arms of a conditional.

use vstd::prelude::*;
use crate::ast::Expr;
use crate::builtin_types::null::null_view;
use crate::compiler::{
    block_code, expr_code, if_layout, if_tail, markers, then_width, uint_code, while_jump,
    while_tail, while_width,
};
use crate::grammar::Grammar;
use crate::helpers::line_of;
use crate::layout::{lemma_if_tail_jumps, lemma_uint_len};
use crate::leb::{leb128_encode, leb128_len, lemma_decode_encode, lemma_len_u64};
use crate::obj::value_truthy;
use crate::vm::{Fault, Machine, popped, read_uint, step};

verus! {

/// Whether bytecode `source` holds `code` at offset `at`.
#[verifier::opaque]
pub open spec fn holds(source: Seq<u8>, at: nat, code: Seq<u8>) -> bool {
    at + code.len() <= source.len() <= usize::MAX && source.subrange(
        at as int,
        (at + code.len()) as int,
    ) == code
}

/// An operand that stands in the bytecode is read as its number.
#[verifier::rlimit(30)]
#[verifier::spinoff_prover]
pub proof fn lemma_operand_read(source: Seq<u8>, ip: int, v: nat)
    requires
        0 <= ip,
        v <= u64::MAX,
        ip + uint_code(v).len() <= source.len(),
        source.subrange(ip, ip + uint_code(v).len()) == uint_code(v),
    ensures
        read_uint(source, ip) == Ok::<(u64, int), Seq<char>>((v as u64, ip + uint_code(v).len())),
{
    lemma_len_u64(v as u64);
    lemma_uint_len(v);
    let n = leb128_len(v);
    let enc = leb128_encode(v);
    let op = source.subrange(ip, ip + uint_code(v).len());
    assert(source[ip] == op[0]);
    assert(op[0] == n as u8);
    assert(source.subrange(ip + 1, ip + 1 + n) =~= enc) by {
        assert forall|i: int| 0 <= i < n implies source[ip + 1 + i] == enc[i] by {
            assert(source[ip + 1 + i] == op[1 + i]);
        }
    }
    assert(enc + Seq::<u8>::empty() =~= enc);
    lemma_decode_encode(v as u64, Seq::empty());
}

/// Where the code of a loop holds its parts, counted from its first byte.
pub struct LoopPlaces {
    /// The opcode of the jump out, behind the condition.
    pub exit_jump: nat,
    /// The first byte of the body, behind the operand of the jump out.
    pub body: nat,
    /// The opcode of the jump back, behind the body.
    pub back_jump: nat,
    /// The `Null` that ends the loop's code.
    pub null: nat,
}

/// The places of loop `e` compiled at offset `at`.
#[verifier::opaque]
pub open spec fn loop_places(e: Expr, text: Seq<char>, at: nat, line: nat) -> LoopPlaces {
    let l = line_of(text, e->While_pos.start as nat);
    let pre = markers(line, l);
    let c = expr_code(*e->While_cond, text, at + pre.len(), l);
    let p = at + pre.len() + c.bytes.len() + 1;
    let s = while_width(e, text, at, p, c.line, 2);
    let b = block_code(e->While_body, e->While_body.len(), text, p + s, c.line);
    let d = while_jump(b.bytes.len(), at);
    let exit_jump = pre.len() + c.bytes.len();
    let body = exit_jump + 1 + uint_code(d).len();
    LoopPlaces {
        exit_jump: exit_jump,
        body: body,
        back_jump: body + b.bytes.len(),
        null: body + d,
    }
}

/// The bytes of a loop, in order.
proof fn lemma_loop_bytes(h: Seq<u8>, x: u8, u: Seq<u8>, b: Seq<u8>, j: u8, v: Seq<u8>, n: u8)
    ensures
        ({
            let code = h + seq![x] + (u + b + seq![j] + v) + seq![n];
            let body = h.len() + 1 + u.len();
            &&& code.len() == body + b.len() + 1 + v.len() + 1
            &&& code[h.len() as int] == x
            &&& code.subrange((h.len() + 1) as int, body as int) == u
            &&& code[(body + b.len()) as int] == j
            &&& code.subrange((body + b.len() + 1) as int, code.len() - 1) == v
            &&& code[code.len() - 1] == n
        }),
{
    let code = h + seq![x] + (u + b + seq![j] + v) + seq![n];
    let body = h.len() + 1 + u.len();
    assert(code.subrange((h.len() + 1) as int, body as int) =~= u);
    assert(code.subrange((body + b.len() + 1) as int, code.len() - 1) =~= v);
}

/// What stands at the places of a loop: the jump out with the distance to
/// the `Null`, the jump back with the offset of the loop's first byte, and
/// the `Null` as the last byte.
#[verifier::rlimit(30)]
#[verifier::spinoff_prover]
pub proof fn lemma_loop_places(e: Expr, text: Seq<char>, at: nat, line: nat)
    requires
        e is While,
    ensures
        ({
            let w = loop_places(e, text, at, line);
            let code = expr_code(e, text, at, line).bytes;
            &&& w.exit_jump < w.body <= w.back_jump < w.null == code.len() - 1
            &&& code[w.exit_jump as int] == Grammar::JumpIfFalse.byte()
            &&& code.subrange((w.exit_jump + 1) as int, w.body as int) == uint_code(
                (w.null - w.body) as nat,
            )
            &&& code[w.back_jump as int] == Grammar::JumpTo.byte()
            &&& code.subrange((w.back_jump + 1) as int, w.null as int) == uint_code(at)
            &&& code[w.null as int] == Grammar::Null.byte()
        }),
{
    reveal(loop_places);
    let l = line_of(text, e->While_pos.start as nat);
    let pre = markers(line, l);
    let c = expr_code(*e->While_cond, text, at + pre.len(), l);
    let p = at + pre.len() + c.bytes.len() + 1;
    let s = while_width(e, text, at, p, c.line, 2);
    let b = block_code(e->While_body, e->While_body.len(), text, p + s, c.line);
    let d = while_jump(b.bytes.len(), at);
    let tail = while_tail(e, text, at, p, c.line, s);
    assert(expr_code(e, text, at, line).bytes == pre + c.bytes + seq![
        Grammar::JumpIfFalse.byte(),
    ] + tail.bytes + seq![Grammar::Null.byte()]);
    assert(tail.bytes == uint_code(d) + b.bytes + seq![Grammar::JumpTo.byte()] + uint_code(at));
    lemma_loop_bytes(
        pre + c.bytes,
        Grammar::JumpIfFalse.byte(),
        uint_code(d),
        b.bytes,
        Grammar::JumpTo.byte(),
        uint_code(at),
        Grammar::Null.byte(),
    );
}

/// A loop that is left yields null. Where the machine stands on the jump
/// out of a loop and the condition on top of the stack does not count as
/// true, it pops the condition and goes to the `Null` at the end of the
/// loop's code; the next instruction pushes null and leaves the machine
/// behind the loop. This holds whether or not the body ever ran.
#[verifier::rlimit(30)]
#[verifier::spinoff_prover]
pub proof fn lemma_loop_exit(e: Expr, text: Seq<char>, at: nat, line: nat, m: Machine)
    requires
        e is While,
        holds(m.source, at, expr_code(e, text, at, line).bytes),
        m.ip == at + loop_places(e, text, at, line).exit_jump,
        m.stack.len() > 0,
        !value_truthy(m.stack.last().value),
    ensures
        ({
            let end = at + expr_code(e, text, at, line).bytes.len();
            let on_null = Machine { ip: end - 1, ..popped(m) };
            &&& step(m) == Ok::<Machine, Fault>(on_null)
            &&& step(on_null) == Ok::<Machine, Fault>(
                Machine { ip: end as int, stack: m.stack.drop_last().push(null_view()), ..on_null },
            )
        }),
{
    reveal(holds);
    let w = loop_places(e, text, at, line);
    let code = expr_code(e, text, at, line).bytes;
    let d = (w.null - w.body) as nat;
    lemma_loop_places(e, text, at, line);
    lemma_uint_len(d);
    assert(m.source[m.ip] == code[w.exit_jump as int]);
    assert(m.source.subrange(m.ip + 1, m.ip + 1 + uint_code(d).len()) =~= code.subrange(
        (w.exit_jump + 1) as int,
        w.body as int,
    ));
    lemma_operand_read(m.source, m.ip + 1, d);
    let on_null = Machine { ip: (at + code.len() - 1) as int, ..popped(m) };
    assert(on_null.source[on_null.ip] == code[w.null as int]);
}

/// A loop whose condition holds runs its body. Where the machine stands on
/// the jump out of a loop and the condition on top of the stack counts as
/// true, it pops the condition and goes on with the first byte of the body.
#[verifier::rlimit(30)]
#[verifier::spinoff_prover]
pub proof fn lemma_loop_enter(e: Expr, text: Seq<char>, at: nat, line: nat, m: Machine)
    requires
        e is While,
        holds(m.source, at, expr_code(e, text, at, line).bytes),
        m.ip == at + loop_places(e, text, at, line).exit_jump,
        m.stack.len() > 0,
        value_truthy(m.stack.last().value),
    ensures
        step(m) == Ok::<Machine, Fault>(
            Machine { ip: (at + loop_places(e, text, at, line).body) as int, ..popped(m) },
        ),
{
    reveal(holds);
    let w = loop_places(e, text, at, line);
    let code = expr_code(e, text, at, line).bytes;
    let d = (w.null - w.body) as nat;
    lemma_loop_places(e, text, at, line);
    lemma_uint_len(d);
    assert(m.source[m.ip] == code[w.exit_jump as int]);
    assert(m.source.subrange(m.ip + 1, m.ip + 1 + uint_code(d).len()) =~= code.subrange(
        (w.exit_jump + 1) as int,
        w.body as int,
    ));
    lemma_operand_read(m.source, m.ip + 1, d);
}

/// Behind its body a loop goes back to its first byte, wherever it stands:
/// where the machine stands on the jump back, the next instruction takes it
/// to the offset at which the loop's code starts, and changes nothing else.
#[verifier::rlimit(30)]
#[verifier::spinoff_prover]
pub proof fn lemma_loop_back(e: Expr, text: Seq<char>, at: nat, line: nat, m: Machine)
    requires
        e is While,
        holds(m.source, at, expr_code(e, text, at, line).bytes),
        m.ip == at + loop_places(e, text, at, line).back_jump,
    ensures
        step(m) == Ok::<Machine, Fault>(Machine { ip: at as int, ..m }),
{
    reveal(holds);
    let w = loop_places(e, text, at, line);
    let code = expr_code(e, text, at, line).bytes;
    lemma_loop_places(e, text, at, line);
    lemma_uint_len(at);
    assert(m.source[m.ip] == code[w.back_jump as int]);
    assert(m.source.subrange(m.ip + 1, m.ip + 1 + uint_code(at).len()) =~= code.subrange(
        (w.back_jump + 1) as int,
        w.null as int,
    ));
    lemma_operand_read(m.source, m.ip + 1, at);
}

/// Where the code of a conditional holds its parts, counted from its first
/// byte.
pub struct IfPlaces {
    /// The opcode of the first jump, behind the condition.
    pub test: nat,
    /// The first byte of the first arm.
    pub then_arm: nat,
    /// The opcode of the second jump, behind the first arm.
    pub skip: nat,
    /// The first byte of the second arm.
    pub else_arm: nat,
}

/// The places of conditional `e` compiled at offset `at`.
#[verifier::opaque]
pub open spec fn if_places(e: Expr, text: Seq<char>, at: nat, line: nat) -> IfPlaces {
    let l = line_of(text, e->If_pos.start as nat);
    let pre = markers(line, l);
    let c = expr_code(*e->If_cond, text, at + pre.len(), l);
    let p = at + pre.len() + c.bytes.len() + 1;
    let y = if_layout(e, text, p, c.line, l, then_width(e, text, p, c.line, l, 2));
    let test = pre.len() + c.bytes.len();
    let then_arm = test + 1 + uint_code(y.then_jump).len();
    IfPlaces {
        test: test,
        then_arm: then_arm,
        skip: then_arm + y.then_arm.len(),
        else_arm: then_arm + y.then_jump,
    }
}

/// The bytes of a conditional, in order.
proof fn lemma_if_bytes(h: Seq<u8>, x: u8, u: Seq<u8>, a: Seq<u8>, j: u8, v: Seq<u8>, b: Seq<u8>)
    ensures
        ({
            let code = h + seq![x] + (u + a + seq![j] + v + b);
            let then_arm = h.len() + 1 + u.len();
            &&& code.len() == then_arm + a.len() + 1 + v.len() + b.len()
            &&& code[h.len() as int] == x
            &&& code.subrange((h.len() + 1) as int, then_arm as int) == u
            &&& code[(then_arm + a.len()) as int] == j
            &&& code.subrange(
                (then_arm + a.len() + 1) as int,
                (then_arm + a.len() + 1 + v.len()) as int,
            ) == v
        }),
{
    let code = h + seq![x] + (u + a + seq![j] + v + b);
    let then_arm = h.len() + 1 + u.len();
    assert(code.subrange((h.len() + 1) as int, then_arm as int) =~= u);
    assert(code.subrange(
        (then_arm + a.len() + 1) as int,
        (then_arm + a.len() + 1 + v.len()) as int,
    ) =~= v);
}

/// What stands at the places of a conditional: the first jump with the
/// distance from the first arm to the second, and behind the first arm the
/// second jump with the distance to the end of the code.
#[verifier::rlimit(30)]
#[verifier::spinoff_prover]
pub proof fn lemma_if_places(e: Expr, text: Seq<char>, at: nat, line: nat)
    requires
        e is If,
        expr_code(e, text, at, line).bytes.len() <= u64::MAX,
    ensures
        ({
            let w = if_places(e, text, at, line);
            let code = expr_code(e, text, at, line).bytes;
            &&& w.test < w.then_arm <= w.skip < w.else_arm <= code.len()
            &&& code[w.test as int] == Grammar::JumpIfFalse.byte()
            &&& code.subrange((w.test + 1) as int, w.then_arm as int) == uint_code(
                (w.else_arm - w.then_arm) as nat,
            )
            &&& code[w.skip as int] == Grammar::Jump.byte()
            &&& code.subrange((w.skip + 1) as int, w.else_arm as int) == uint_code(
                (code.len() - w.else_arm) as nat,
            )
        }),
{
    reveal(if_places);
    let l = line_of(text, e->If_pos.start as nat);
    let pre = markers(line, l);
    let c = expr_code(*e->If_cond, text, at + pre.len(), l);
    let p = at + pre.len() + c.bytes.len() + 1;
    let s = then_width(e, text, p, c.line, l, 2);
    let y = if_layout(e, text, p, c.line, l, s);
    let tail = if_tail(e, text, p, c.line, l, s);
    assert(expr_code(e, text, at, line).bytes == pre + c.bytes + seq![
        Grammar::JumpIfFalse.byte(),
    ] + tail.bytes);
    assert(tail.bytes == uint_code(y.then_jump) + y.then_arm + seq![Grammar::Jump.byte()]
        + uint_code(y.else_arm.len()) + y.else_arm);
    lemma_if_tail_jumps(e, text, p, c.line, l);
    lemma_if_bytes(
        pre + c.bytes,
        Grammar::JumpIfFalse.byte(),
        uint_code(y.then_jump),
        y.then_arm,
        Grammar::Jump.byte(),
        uint_code(y.else_arm.len()),
        y.else_arm,
    );
}

/// Where the condition of a conditional does not count as true, the machine
/// pops it and goes on with the first byte of the second arm; where it
/// does, with the first byte of the first arm.
#[verifier::rlimit(30)]
#[verifier::spinoff_prover]
pub proof fn lemma_conditional_test(e: Expr, text: Seq<char>, at: nat, line: nat, m: Machine)
    requires
        e is If,
        holds(m.source, at, expr_code(e, text, at, line).bytes),
        m.ip == at + if_places(e, text, at, line).test,
        m.stack.len() > 0,
    ensures
        step(m) == Ok::<Machine, Fault>(
            Machine {
                ip: if value_truthy(m.stack.last().value) {
                    (at + if_places(e, text, at, line).then_arm) as int
                } else {
                    (at + if_places(e, text, at, line).else_arm) as int
                },
                ..popped(m)
            },
        ),
{
    reveal(holds);
    let w = if_places(e, text, at, line);
    let code = expr_code(e, text, at, line).bytes;
    let d = (w.else_arm - w.then_arm) as nat;
    lemma_if_places(e, text, at, line);
    lemma_uint_len(d);
    assert(m.source[m.ip] == code[w.test as int]);
    assert(m.source.subrange(m.ip + 1, m.ip + 1 + uint_code(d).len()) =~= code.subrange(
        (w.test + 1) as int,
        w.then_arm as int,
    ));
    lemma_operand_read(m.source, m.ip + 1, d);
}

/// Behind the first arm of a conditional the machine goes to the end of
/// the conditional's code, over the second arm, with the value that the
/// first arm left still on top of the stack.
#[verifier::rlimit(30)]
#[verifier::spinoff_prover]
pub proof fn lemma_conditional_skip(e: Expr, text: Seq<char>, at: nat, line: nat, m: Machine)
    requires
        e is If,
        holds(m.source, at, expr_code(e, text, at, line).bytes),
        m.ip == at + if_places(e, text, at, line).skip,
    ensures
        step(m) == Ok::<Machine, Fault>(
            Machine { ip: (at + expr_code(e, text, at, line).bytes.len()) as int, ..m },
        ),
{
    reveal(holds);
    let w = if_places(e, text, at, line);
    let code = expr_code(e, text, at, line).bytes;
    let d = (code.len() - w.else_arm) as nat;
    lemma_if_places(e, text, at, line);
    lemma_uint_len(d);
    assert(m.source[m.ip] == code[w.skip as int]);
    assert(m.source.subrange(m.ip + 1, m.ip + 1 + uint_code(d).len()) =~= code.subrange(
        (w.skip + 1) as int,
        w.else_arm as int,
    ));
    lemma_operand_read(m.source, m.ip + 1, d);
}

} // verus!
