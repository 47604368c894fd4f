//! The compiler: lowers a syntax tree to bytecode.
//!
//! What is emitted for a tree is stated by `block_code` and the functions
//! around it, as a function of the tree, the source text, the offset at which
//! the first byte will stand and the line that the machine is on there.

use vstd::prelude::*;
use vstd::pervasive::VecAdditionalExecFns;
use vstd::string::StringExecFns;
use vstd::utf8::encode_utf8;
use crate::ast::{
    Expr, Expression, Program, Span, Statement, Stmt, exprs_model, lemma_call_model,
    lemma_function_model, lemma_if_model, lemma_while_model, names_model, program_model,
};
use crate::grammar::Grammar;
use crate::helpers::{leb128_unsigned, span_to_line, line_of};
use crate::layout::{
    lemma_else_attempt, lemma_else_found, lemma_else_step, lemma_exact_width, lemma_exit_attempt,
    lemma_exit_found, lemma_exit_step, lemma_if_parts, lemma_then_found, lemma_then_step,
};
use crate::leb::{leb128_encode, leb128_len, lemma_len_u64};

verus! {

/// Bytes that were emitted, and the line that the machine is on after them.
pub struct Emitted {
    pub bytes: Seq<u8>,
    pub line: nat,
}

/// The line markers that take the machine from line `from` to line `to`.
pub open spec fn markers(from: nat, to: nat) -> Seq<u8> {
    if to >= from {
        Seq::new((to - from) as nat, |i: int| Grammar::Advance.byte())
    } else {
        Seq::new((from - to) as nat, |i: int| Grammar::Back.byte())
    }
}

/// An unsigned operand: the number of LEB128 bytes, then those bytes.
pub open spec fn uint_code(v: nat) -> Seq<u8> {
    seq![leb128_len(v) as u8] + leb128_encode(v)
}

/// A string operand: its length in bytes as an operand, then its UTF-8 bytes.
pub open spec fn string_code(s: Seq<char>) -> Seq<u8> {
    uint_code(encode_utf8(s).len()) + encode_utf8(s)
}

/// Whether the operand of a jump over `d` bytes takes at most `w` bytes.
pub open spec fn operand_fits(d: nat, w: nat) -> bool {
    1 + leb128_len(d) <= w
}

/// Whether the compiler has code for the expression: the bytecode has none
/// for an index expression or a vector literal.
pub open spec fn compilable(e: Expr) -> bool
    decreases e,
{
    match e {
        Expr::Int { .. } => true,
        Expr::Str { .. } => true,
        Expr::GetVar { .. } => true,
        Expr::SetVar { value, .. } => compilable(*value),
        Expr::Infix { left, right, .. } => compilable(*left) && compilable(*right),
        Expr::Prefix { right, .. } => compilable(*right),
        Expr::Call { callee, arguments, .. } => compilable(*callee) && forall|i: int|
            0 <= i < arguments.len() ==> compilable(#[trigger] arguments[i]),
        Expr::GetInstance { parent, .. } => compilable(*parent),
        Expr::Index { .. } => false,
        Expr::Vector { .. } => false,
        Expr::If { cond, body, other, .. } => compilable(*cond) && block_compilable(body)
            && block_compilable(other),
        Expr::While { cond, body, .. } => compilable(*cond) && block_compilable(body),
    }
}

/// Whether the compiler has code for the statement.
pub open spec fn stmt_compilable(s: Stmt) -> bool
    decreases s,
{
    match s {
        Stmt::Expr { expr, .. } => compilable(expr),
        Stmt::Function { body, .. } => block_compilable(body),
    }
}

/// Whether the compiler has code for every statement of the block.
pub open spec fn block_compilable(stmts: Seq<Stmt>) -> bool
    decreases stmts,
{
    forall|i: int| 0 <= i < stmts.len() ==> stmt_compilable(#[trigger] stmts[i])
}

/// The code of an expression that stands at offset `at`, reached on `line`.
pub open spec fn expr_code(e: Expr, src: Seq<char>, at: nat, line: nat) -> Emitted
    decreases e, 100nat,
{
    match e {
        Expr::Int { value, pos } => {
            let l = line_of(src, pos.start as nat);
            Emitted {
                bytes: markers(line, l) + seq![Grammar::Integer.byte()] + uint_code(value as nat),
                line: l,
            }
        },
        Expr::Str { value, pos } => {
            let l = line_of(src, pos.start as nat);
            Emitted {
                bytes: markers(line, l) + seq![Grammar::String.byte()] + string_code(value),
                line: l,
            }
        },
        Expr::GetVar { name, pos } => {
            let l = line_of(src, pos.start as nat);
            Emitted {
                bytes: markers(line, l) + seq![Grammar::Getvar.byte()] + string_code(name),
                line: l,
            }
        },
        Expr::SetVar { name, value, pos } => {
            let l = line_of(src, pos.start as nat);
            let pre = markers(line, l);
            let v = expr_code(*value, src, at + pre.len(), l);
            Emitted {
                bytes: pre + v.bytes + markers(v.line, l) + seq![Grammar::Setvar.byte()]
                    + string_code(name),
                line: l,
            }
        },
        Expr::Infix { left, operator, right, pos } => {
            let l = line_of(src, pos.start as nat);
            let pre = markers(line, l);
            let r = expr_code(*right, src, at + pre.len(), l);
            let m1 = markers(r.line, l);
            let f = expr_code(*left, src, at + pre.len() + r.bytes.len() + m1.len(), l);
            Emitted {
                bytes: pre + r.bytes + m1 + f.bytes + markers(f.line, l)
                    + seq![Grammar::GetInstance.byte()] + string_code(operator)
                    + seq![Grammar::Call.byte()] + uint_code(1),
                line: l,
            }
        },
        Expr::Prefix { operator, right, pos } => {
            let l = line_of(src, pos.start as nat);
            let pre = markers(line, l);
            let r = expr_code(*right, src, at + pre.len(), l);
            Emitted {
                bytes: pre + r.bytes + markers(r.line, l) + seq![Grammar::GetInstance.byte()]
                    + string_code(operator.push('@')) + seq![Grammar::Call.byte()] + uint_code(
                    0,
                ),
                line: l,
            }
        },
        Expr::Call { callee, arguments, pos } => {
            let l = line_of(src, pos.start as nat);
            let pre = markers(line, l);
            let a = rev_args_code(arguments, arguments.len(), src, at + pre.len(), l);
            let c = expr_code(*callee, src, at + pre.len() + a.bytes.len(), a.line);
            Emitted {
                bytes: pre + a.bytes + c.bytes + seq![Grammar::Call.byte()] + uint_code(
                    arguments.len(),
                ),
                line: c.line,
            }
        },
        Expr::GetInstance { parent, name, pos } => {
            let l = line_of(src, pos.start as nat);
            let pre = markers(line, l);
            let p = expr_code(*parent, src, at + pre.len(), l);
            Emitted {
                bytes: pre + p.bytes + seq![Grammar::GetInstance.byte()] + string_code(name),
                line: p.line,
            }
        },
        Expr::Index { .. } => Emitted { bytes: Seq::empty(), line: line },
        Expr::Vector { .. } => Emitted { bytes: Seq::empty(), line: line },
        Expr::If { cond, body, other, pos } => {
            let l = line_of(src, pos.start as nat);
            let pre = markers(line, l);
            let c = expr_code(*cond, src, at + pre.len(), l);
            let p = at + pre.len() + c.bytes.len() + 1;
            let t = if_tail(e, src, p, c.line, l, then_width(e, src, p, c.line, l, 2));
            Emitted {
                bytes: pre + c.bytes + seq![Grammar::JumpIfFalse.byte()] + t.bytes,
                line: t.line,
            }
        },
        Expr::While { cond, body, pos } => {
            let l = line_of(src, pos.start as nat);
            let pre = markers(line, l);
            let c = expr_code(*cond, src, at + pre.len(), l);
            let p = at + pre.len() + c.bytes.len() + 1;
            let t = while_tail(e, src, at, p, c.line, while_width(e, src, at, p, c.line, 2));
            Emitted {
                bytes: pre + c.bytes + seq![Grammar::JumpIfFalse.byte()] + t.bytes + seq![
                    Grammar::Null.byte(),
                ],
                line: t.line,
            }
        },
    }
}

/// What stands behind the first jump's opcode of conditional `e`, where the
/// jump's operand stands at offset `p` and takes `s` bytes: the operand, the
/// first arm, the second jump and the second arm.
pub open spec fn if_tail(e: Expr, src: Seq<char>, p: nat, line_c: nat, l: nat, s: nat) -> Emitted
    decreases e, 70nat,
{
    let y = if_layout(e, src, p, line_c, l, s);
    Emitted {
        bytes: uint_code(y.then_jump) + y.then_arm + seq![Grammar::Jump.byte()]
            + uint_code(y.else_arm.len()) + y.else_arm,
        line: y.line,
    }
}

/// What stands behind the opcode of the jump out of loop `e`, where the
/// jump's operand stands at offset `p` and takes `s` bytes: the operand, the
/// body, and the jump back to offset `at`.
pub open spec fn while_tail(e: Expr, src: Seq<char>, at: nat, p: nat, line_c: nat, s: nat) -> Emitted
    decreases e, 70nat,
{
    match e {
        Expr::While { cond, body, pos } => {
            let b = block_code(body, body.len(), src, p + s, line_c);
            Emitted {
                bytes: uint_code(while_jump(b.bytes.len(), at)) + b.bytes + seq![
                    Grammar::JumpTo.byte(),
                ] + uint_code(at),
                line: b.line,
            }
        },
        _ => Emitted { bytes: Seq::empty(), line: line_c },
    }
}

/// The code of the last `k` arguments of a call, the last one first.
pub open spec fn rev_args_code(
    args: Seq<Expr>,
    k: nat,
    src: Seq<char>,
    at: nat,
    line: nat,
) -> Emitted
    decreases args, k,
{
    if k == 0 || k > args.len() {
        Emitted { bytes: Seq::empty(), line: line }
    } else {
        let before = rev_args_code(args, (k - 1) as nat, src, at, line);
        let this = expr_code(args[args.len() - k], src, at + before.bytes.len(), before.line);
        Emitted { bytes: before.bytes + this.bytes, line: this.line }
    }
}

/// The code of a statement that stands at offset `at`, reached on `line`.
pub open spec fn stmt_code(s: Stmt, src: Seq<char>, at: nat, line: nat) -> Emitted
    decreases s, 100nat,
{
    match s {
        Stmt::Expr { expr, pos } => {
            let l = line_of(src, pos.start as nat);
            let pre = markers(line, l);
            let e = expr_code(expr, src, at + pre.len(), l);
            Emitted { bytes: pre + e.bytes + seq![Grammar::Pop.byte()], line: e.line }
        },
        Stmt::Function { name, args, body, pos } => {
            let l = line_of(src, pos.start as nat);
            let b = block_code(body, body.len(), src, 1, l);
            Emitted {
                bytes: markers(line, l) + seq![Grammar::Function.byte()] + string_code(name)
                    + uint_code(args.len()) + names_code(args, args.len()) + uint_code(
                    b.bytes.len(),
                ) + b.bytes + markers(l, b.line),
                line: b.line,
            }
        },
    }
}

/// The first `n` names, each as a string operand.
pub open spec fn names_code(names: Seq<Seq<char>>, n: nat) -> Seq<u8>
    decreases n,
{
    if n == 0 || n > names.len() {
        Seq::empty()
    } else {
        names_code(names, (n - 1) as nat) + string_code(names[n - 1])
    }
}

/// The code of the first `n` statements of a block.
pub open spec fn block_code(
    stmts: Seq<Stmt>,
    n: nat,
    src: Seq<char>,
    at: nat,
    line: nat,
) -> Emitted
    decreases stmts, n,
{
    if n == 0 || n > stmts.len() {
        Emitted { bytes: Seq::empty(), line: line }
    } else {
        let before = block_code(stmts, (n - 1) as nat, src, at, line);
        let this = stmt_code(stmts[n - 1], src, at + before.bytes.len(), before.line);
        Emitted { bytes: before.bytes + this.bytes, line: this.line }
    }
}

/// Whether a block leaves its value on the stack when the last `Pop` is
/// taken away: it does where its last statement is an expression.
pub open spec fn ends_in_value(stmts: Seq<Stmt>) -> bool {
    stmts.len() > 0 && stmts.last() is Expr
}

/// The code of one arm of a conditional: the block, with the `Pop` of a last
/// expression statement left out, or else with a `Null` pushed after it.
pub open spec fn arm_code(stmts: Seq<Stmt>, src: Seq<char>, at: nat, line: nat) -> Emitted
    decreases stmts, stmts.len() + 1,
{
    let b = block_code(stmts, stmts.len(), src, at, line);
    if ends_in_value(stmts) {
        Emitted { bytes: b.bytes.drop_last(), line: b.line }
    } else {
        Emitted { bytes: b.bytes + seq![Grammar::Null.byte()], line: b.line }
    }
}

/// How a conditional is laid out behind its first jump.
pub struct IfLayout {
    /// What the first jump skips: the first arm, the markers back to the
    /// conditional's line, the second jump and its operand.
    pub then_jump: nat,
    /// The first arm and the markers behind it.
    pub then_arm: Seq<u8>,
    /// The bytes that the second jump's operand takes.
    pub else_width: nat,
    /// The second arm.
    pub else_arm: Seq<u8>,
    /// The line after the second arm.
    pub line: nat,
}

/// The layout of conditional `e` where the operand of its first jump, which
/// stands at offset `p`, takes `s` bytes. `line_c` is the line after the
/// condition, `l` the conditional's own line.
pub open spec fn if_layout(e: Expr, src: Seq<char>, p: nat, line_c: nat, l: nat, s: nat) -> IfLayout
    decreases e, 30nat,
{
    match e {
        Expr::If { cond, body, other, pos } => {
            let a = arm_code(body, src, p + s, line_c);
            let m = markers(a.line, l);
            let q = p + s + a.bytes.len() + m.len() + 1;
            let t = else_width(e, src, q, l, 2);
            let b = arm_code(other, src, q + t, l);
            IfLayout {
                then_jump: a.bytes.len() + m.len() + 1 + t,
                then_arm: a.bytes + m,
                else_width: t,
                else_arm: b.bytes,
                line: b.line,
            }
        },
        _ => IfLayout {
            then_jump: 0,
            then_arm: Seq::empty(),
            else_width: 2,
            else_arm: Seq::empty(),
            line: l,
        },
    }
}

/// The least width from `t` on, up to 11, on which the second jump of
/// conditional `e` can be written when its operand stands at offset `q`.
pub open spec fn else_width(e: Expr, src: Seq<char>, q: nat, l: nat, t: nat) -> nat
    decreases e, (20 - t) as nat,
{
    match e {
        Expr::If { cond, body, other, pos } => {
            if t >= 11 {
                11
            } else if operand_fits(arm_code(other, src, q + t, l).bytes.len(), t) {
                t
            } else {
                else_width(e, src, q, l, t + 1)
            }
        },
        _ => t,
    }
}

/// The least width from `s` on, up to 11, on which the first jump of
/// conditional `e` can be written when its operand stands at offset `p`.
pub open spec fn then_width(e: Expr, src: Seq<char>, p: nat, line_c: nat, l: nat, s: nat) -> nat
    decreases e, (60 - s) as nat,
{
    if s >= 11 {
        11
    } else if operand_fits(if_layout(e, src, p, line_c, l, s).then_jump, s) {
        s
    } else {
        then_width(e, src, p, line_c, l, s + 1)
    }
}

/// What the jump out of a loop skips: the body, then the jump back with its
/// operand, the offset `at` of the loop's start.
pub open spec fn while_jump(body_len: nat, at: nat) -> nat {
    body_len + 1 + uint_code(at).len()
}

/// The least width from `s` on, up to 11, on which the jump out of loop `e`
/// can be written when its operand stands at offset `p`.
pub open spec fn while_width(e: Expr, src: Seq<char>, at: nat, p: nat, line_c: nat, s: nat) -> nat
    decreases e, (20 - s) as nat,
{
    match e {
        Expr::While { cond, body, pos } => {
            if s >= 11 {
                11
            } else if operand_fits(
                while_jump(block_code(body, body.len(), src, p + s, line_c).bytes.len(), at),
                s,
            ) {
                s
            } else {
                while_width(e, src, at, p, line_c, s + 1)
            }
        },
        _ => s,
    }
}

/// The bytecode of a whole program: the magic byte, then the code of its
/// statements from offset 1 and line 0.
pub open spec fn program_code(stmts: Seq<Stmt>, src: Seq<char>) -> Seq<u8> {
    seq![Grammar::Magic.byte()] + block_code(stmts, stmts.len(), src, 1, 0).bytes
}


/// The first arm of conditional `e` from offset `at`, with the markers back
/// to the conditional's line `l` and the opcode of the second jump.
#[verifier::opaque]
pub open spec fn then_code(e: Expr, src: Seq<char>, at: nat, line_c: nat, l: nat) -> Emitted {
    let a = arm_code(e->If_body, src, at, line_c);
    Emitted { bytes: a.bytes + markers(a.line, l) + seq![Grammar::Jump.byte()], line: l }
}

/// How long the second arm of conditional `e` is at offset `at`.
#[verifier::opaque]
pub open spec fn else_len(e: Expr, src: Seq<char>, at: nat, l: nat) -> nat {
    arm_code(e->If_other, src, at, l).bytes.len()
}

/// `else_width`, under a name of its own.
#[verifier::opaque]
pub open spec fn else_search(e: Expr, src: Seq<char>, q: nat, l: nat, t: nat) -> nat {
    else_width(e, src, q, l, t)
}

/// The second arm of conditional `e` behind its jump, where the operand,
/// which stands at offset `q`, is given `t` bytes: the operand and the arm.
#[verifier::opaque]
pub open spec fn else_attempt(e: Expr, src: Seq<char>, q: nat, l: nat, t: nat) -> Emitted {
    let b = arm_code(e->If_other, src, q + t, l);
    Emitted { bytes: uint_code(b.bytes.len()) + b.bytes, line: b.line }
}

/// The second arm of conditional `e` behind its jump, whose operand stands
/// at offset `q`: the operand and the arm.
#[verifier::opaque]
pub open spec fn else_code(e: Expr, src: Seq<char>, q: nat, l: nat) -> Emitted {
    else_attempt(e, src, q, l, else_width(e, src, q, l, 2))
}

/// What the first jump of conditional `e` skips where its operand, at
/// offset `p`, is given `s` bytes.
#[verifier::opaque]
pub open spec fn then_len(e: Expr, src: Seq<char>, p: nat, lc: nat, l: nat, s: nat) -> nat {
    if_layout(e, src, p, lc, l, s).then_jump
}

/// `then_width`, under a name of its own.
#[verifier::opaque]
pub open spec fn then_search(e: Expr, src: Seq<char>, p: nat, lc: nat, l: nat, s: nat) -> nat {
    then_width(e, src, p, lc, l, s)
}

/// `if_tail`, under a name of its own.
#[verifier::opaque]
pub open spec fn if_attempt(e: Expr, src: Seq<char>, p: nat, lc: nat, l: nat, s: nat) -> Emitted {
    if_tail(e, src, p, lc, l, s)
}

/// What the jump out of loop `e` skips where its operand, at offset `p`,
/// is given `s` bytes.
#[verifier::opaque]
pub open spec fn exit_len(e: Expr, src: Seq<char>, at: nat, p: nat, lc: nat, s: nat) -> nat {
    while_jump(block_code(e->While_body, e->While_body.len(), src, p + s, lc).bytes.len(), at)
}

/// `while_width`, under a name of its own.
#[verifier::opaque]
pub open spec fn exit_search(e: Expr, src: Seq<char>, at: nat, p: nat, lc: nat, s: nat) -> nat {
    while_width(e, src, at, p, lc, s)
}

/// `while_tail`, under a name of its own.
#[verifier::opaque]
pub open spec fn exit_attempt(e: Expr, src: Seq<char>, at: nat, p: nat, lc: nat, s: nat) -> Emitted {
    while_tail(e, src, at, p, lc, s)
}

/// `n` zero bytes.
pub open spec fn zeros(n: nat) -> Seq<u8> {
    Seq::new(n, |i: int| 0u8)
}

/// Appending pieces one by one is appending their concatenation.
pub proof fn lemma_append2(r: Seq<u8>, a: Seq<u8>, b: Seq<u8>)
    ensures
        r + a + b == r + (a + b),
{
    assert(r + a + b =~= r + (a + b));
}

/// Appending pieces one by one is appending their concatenation.
pub proof fn lemma_append3(r: Seq<u8>, a: Seq<u8>, b: Seq<u8>, c: Seq<u8>)
    ensures
        r + a + b + c == r + (a + b + c),
{
    assert(r + a + b + c =~= r + (a + b + c));
}

/// Appending pieces one by one is appending their concatenation.
pub proof fn lemma_append4(r: Seq<u8>, a: Seq<u8>, b: Seq<u8>, c: Seq<u8>, d: Seq<u8>)
    ensures
        r + a + b + c + d == r + (a + b + c + d),
{
    assert(r + a + b + c + d =~= r + (a + b + c + d));
}

/// Appending pieces one by one is appending their concatenation.
pub proof fn lemma_append5(
    r: Seq<u8>,
    a: Seq<u8>,
    b: Seq<u8>,
    c: Seq<u8>,
    d: Seq<u8>,
    f: Seq<u8>,
)
    ensures
        r + a + b + c + d + f == r + (a + b + c + d + f),
{
    assert(r + a + b + c + d + f =~= r + (a + b + c + d + f));
}

/// Writing `op` over the reserved bytes `z` between `head` and `tail`.
pub proof fn lemma_patched(head: Seq<u8>, z: Seq<u8>, tail: Seq<u8>, op: Seq<u8>)
    requires
        z.len() == op.len(),
    ensures
        ({
            let full = head + z + tail;
            full.subrange(0, head.len() as int) + op + full.subrange(
                (head.len() + z.len()) as int,
                full.len() as int,
            ) == head + (op + tail)
        }),
{
    let full = head + z + tail;
    assert(full.subrange(0, head.len() as int) + op + full.subrange(
        (head.len() + z.len()) as int,
        full.len() as int,
    ) =~= head + (op + tail));
}

/// The first of two places, where there is one.
pub open spec fn first_of(a: Option<Span>, b: Option<Span>) -> Option<Span> {
    match a {
        Some(x) => Some(x),
        None => b,
    }
}

/// The span of the first index expression or vector literal in `e`, in the
/// order of the text: that for which the compiler has no code.
pub open spec fn first_unsupported(e: Expr) -> Option<Span>
    decreases e, 0nat,
{
    match e {
        Expr::Int { .. } => None,
        Expr::Str { .. } => None,
        Expr::GetVar { .. } => None,
        Expr::SetVar { value, .. } => first_unsupported(*value),
        Expr::Infix { left, right, .. } => first_of(
            first_unsupported(*left),
            first_unsupported(*right),
        ),
        Expr::Prefix { right, .. } => first_unsupported(*right),
        Expr::Call { callee, arguments, .. } => first_of(
            first_unsupported(*callee),
            args_unsupported(arguments, 0),
        ),
        Expr::GetInstance { parent, .. } => first_unsupported(*parent),
        Expr::Index { pos, .. } => Some(pos),
        Expr::Vector { pos, .. } => Some(pos),
        Expr::If { cond, body, other, .. } => first_of(
            first_unsupported(*cond),
            first_of(block_unsupported(body, 0), block_unsupported(other, 0)),
        ),
        Expr::While { cond, body, .. } => first_of(
            first_unsupported(*cond),
            block_unsupported(body, 0),
        ),
    }
}

/// The first such span in the expressions from number `from` on.
pub open spec fn args_unsupported(args: Seq<Expr>, from: nat) -> Option<Span>
    decreases args, (args.len() - from) as nat,
{
    if from >= args.len() {
        None
    } else {
        first_of(first_unsupported(args[from as int]), args_unsupported(args, from + 1))
    }
}

/// The first such span in a statement.
pub open spec fn stmt_unsupported(s: Stmt) -> Option<Span>
    decreases s, 0nat,
{
    match s {
        Stmt::Expr { expr, .. } => first_unsupported(expr),
        Stmt::Function { body, .. } => block_unsupported(body, 0),
    }
}

/// The first such span in the statements from number `from` on.
pub open spec fn block_unsupported(stmts: Seq<Stmt>, from: nat) -> Option<Span>
    decreases stmts, (stmts.len() - from) as nat,
{
    if from >= stmts.len() {
        None
    } else {
        first_of(stmt_unsupported(stmts[from as int]), block_unsupported(stmts, from + 1))
    }
}

/// The compiler has code for an expression exactly where it holds no index
/// expression and no vector literal.
pub proof fn lemma_unsupported_expr(e: Expr)
    ensures
        first_unsupported(e) is None <==> compilable(e),
    decreases e, 0nat,
{
    match e {
        Expr::Int { .. } => {},
        Expr::Str { .. } => {},
        Expr::GetVar { .. } => {},
        Expr::Index { .. } => {},
        Expr::Vector { .. } => {},
        Expr::SetVar { value, .. } => {
            lemma_unsupported_expr(*value);
        },
        Expr::Infix { left, right, .. } => {
            lemma_unsupported_expr(*left);
            lemma_unsupported_expr(*right);
        },
        Expr::Prefix { right, .. } => {
            lemma_unsupported_expr(*right);
        },
        Expr::Call { callee, arguments, .. } => {
            lemma_unsupported_expr(*callee);
            lemma_unsupported_args(arguments, 0);
        },
        Expr::GetInstance { parent, .. } => {
            lemma_unsupported_expr(*parent);
        },
        Expr::If { cond, body, other, .. } => {
            lemma_unsupported_expr(*cond);
            lemma_unsupported_block(body, 0);
            lemma_unsupported_block(other, 0);
        },
        Expr::While { cond, body, .. } => {
            lemma_unsupported_expr(*cond);
            lemma_unsupported_block(body, 0);
        },
    }
}

/// The compiler has code for the expressions from number `from` on exactly
/// where they hold no index expression and no vector literal.
pub proof fn lemma_unsupported_args(args: Seq<Expr>, from: nat)
    ensures
        args_unsupported(args, from) is None <==> forall|i: int|
            from <= i < args.len() ==> compilable(#[trigger] args[i]),
    decreases args, (args.len() - from) as nat,
{
    if from < args.len() {
        lemma_unsupported_expr(args[from as int]);
        lemma_unsupported_args(args, from + 1);
    }
}

/// The compiler has code for the statements from number `from` on exactly
/// where they hold no index expression and no vector literal.
pub proof fn lemma_unsupported_block(stmts: Seq<Stmt>, from: nat)
    ensures
        block_unsupported(stmts, from) is None <==> forall|i: int|
            from <= i < stmts.len() ==> stmt_compilable(#[trigger] stmts[i]),
        from == 0 ==> (block_unsupported(stmts, from) is None <==> block_compilable(stmts)),
    decreases stmts, (stmts.len() - from) as nat,
{
    if from < stmts.len() {
        let first = stmts[from as int];
        match first {
            Stmt::Expr { expr, .. } => {
                lemma_unsupported_expr(expr);
            },
            Stmt::Function { body, .. } => {
                lemma_unsupported_block(body, 0);
            },
        }
        assert(stmt_unsupported(first) is None <==> stmt_compilable(first));
        lemma_unsupported_block(stmts, from + 1);
        if block_unsupported(stmts, from) is None {
            assert forall|i: int| from <= i < stmts.len() implies stmt_compilable(
                #[trigger] stmts[i],
            ) by {
                if i > from {
                    assert(from + 1 <= i);
                }
            }
        }
    }
}

/// The first of two places, where there is one.
fn first_found(a: Option<Span>, b: Option<Span>) -> (r: Option<Span>)
    ensures
        r == first_of(a, b),
{
    match a {
        Some(x) => Some(x),
        None => b,
    }
}

/// Finds the first index expression or vector literal in an expression.
#[verifier::rlimit(30)]
#[verifier::spinoff_prover]
pub fn find_unsupported_expr(e: &Expression) -> (r: Option<Span>)
    ensures
        r == first_unsupported(e.model()),
    decreases e, 0nat,
{
    match e {
        Expression::Int(_) => None,
        Expression::String(_) => None,
        Expression::GetVar(_) => None,
        Expression::SetVar(x) => find_unsupported_expr(&x.value),
        Expression::Infix(x) => {
            let a = find_unsupported_expr(&x.left);
            if a.is_some() {
                return a;
            }
            find_unsupported_expr(&x.right)
        },
        Expression::Prefix(x) => find_unsupported_expr(&x.right),
        Expression::Call(x) => {
            proof {
                lemma_call_model(*e);
            }
            let a = find_unsupported_expr(&x.callee);
            if a.is_some() {
                return a;
            }
            find_unsupported_args(&x.arguments)
        },
        Expression::GetInstance(x) => find_unsupported_expr(&x.parent),
        Expression::Index(x) => Some(x.pos),
        Expression::Vec_(x) => Some(x.pos),
        Expression::If(x) => {
            proof {
                lemma_if_model(*e);
            }
            let a = find_unsupported_expr(&x.cond);
            if a.is_some() {
                return a;
            }
            let b = find_unsupported(&x.body);
            if b.is_some() {
                return b;
            }
            find_unsupported(&x.other)
        },
        Expression::While(x) => {
            proof {
                lemma_while_model(*e);
            }
            let a = find_unsupported_expr(&x.cond);
            if a.is_some() {
                return a;
            }
            find_unsupported(&x.body)
        },
    }
}

/// Finds the first index expression or vector literal in the arguments of
/// a call.
#[verifier::rlimit(30)]
#[verifier::spinoff_prover]
pub fn find_unsupported_args(v: &Vec<Expression>) -> (r: Option<Span>)
    ensures
        r == args_unsupported(exprs_model(v@), 0),
    decreases v, 1nat,
{
    let ghost m = exprs_model(v@);
    let mut i: usize = 0;
    while i < v.len()
        invariant
            i <= v.len(),
            m == exprs_model(v@),
            args_unsupported(m, 0) == args_unsupported(m, i as nat),
        decreases v.len() - i,
    {
        proof {
            assert(decreases_to!(v => v[i as int]));
            assert(m[i as int] == v[i as int].model());
        }
        let a = find_unsupported_expr(&v[i]);
        if a.is_some() {
            return a;
        }
        i += 1;
    }
    None
}

/// Finds the first index expression or vector literal in a block.
#[verifier::rlimit(30)]
#[verifier::spinoff_prover]
pub fn find_unsupported(nodes: &Vec<Statement>) -> (r: Option<Span>)
    ensures
        r == block_unsupported(program_model(nodes@), 0),
        r is None <==> block_compilable(program_model(nodes@)),
    decreases nodes, 1nat,
{
    let ghost m = program_model(nodes@);
    let mut i: usize = 0;
    while i < nodes.len()
        invariant
            i <= nodes.len(),
            m == program_model(nodes@),
            block_unsupported(m, 0) == block_unsupported(m, i as nat),
        decreases nodes.len() - i,
    {
        proof {
            assert(decreases_to!(nodes => nodes[i as int]));
            assert(m[i as int] == nodes[i as int].model());
        }
        let a = match &nodes[i] {
            Statement::ExprStmt(x) => find_unsupported_expr(&x.expr),
            Statement::FunctionDeclare(x) => {
                proof {
                    lemma_function_model(nodes[i as int]);
                }
                find_unsupported(&x.body)
            },
        };
        proof {
            assert(a == stmt_unsupported(m[i as int]));
        }
        if a.is_some() {
            proof {
                lemma_unsupported_block(m, 0);
            }
            return a;
        }
        i += 1;
    }
    proof {
        lemma_unsupported_block(m, 0);
    }
    None
}

/// The compiler: the bytecode so far, and the line that the machine is on
/// after it.
#[derive(Debug)]
pub struct Compiler<'a> {
    /// resulting bytecode
    pub result: Vec<u8>,
    /// last line processed
    pub last_line: usize,
    /// source code
    pub source: &'a str,
}

/// Whether a step of the compiler appended `e.bytes`, moved to `e.line` and
/// left the source alone.
pub open spec fn emitted(before: Compiler, after: Compiler, e: Emitted) -> bool {
    &&& after.result@ == before.result@ + e.bytes
    &&& after.last_line == e.line
    &&& after.source@ == before.source@
}

/// Whether `d` fits a jump operand of `w` bytes.
fn fits(d: usize, w: usize) -> (r: bool)
    ensures
        r == operand_fits(d as nat, w as nat),
        w >= 11 ==> r,
{
    proof {
        lemma_len_u64(d as u64);
    }
    let enc = leb128_unsigned(d as u64);
    enc.len() < w
}

impl<'a> Compiler<'a> {
    /// Creates a new compiler: its bytecode holds the magic byte.
    pub fn new(source: &'a str) -> (c: Self)
        ensures
            c.result@ == seq![Grammar::Magic.byte()],
            c.last_line == 0,
            c.source@ == source@,
    {
        let mut result: Vec<u8> = Vec::new();
        result.push(Grammar::Magic.to_byte());
        Compiler { result, last_line: 0, source }
    }

    /// Emits the markers that take the machine to `line`.
    #[verifier::rlimit(30)]
    #[verifier::spinoff_prover]
    pub fn update_line(&mut self, line: usize)
        ensures
            emitted(
                *old(self),
                *final(self),
                Emitted { bytes: markers(old(self).last_line as nat, line as nat), line: line as nat },
            ),
    {
        let ghost start = self.result@;
        let ghost from = self.last_line;
        if line >= self.last_line {
            while line > self.last_line
                invariant
                    from <= self.last_line <= line,
                    self.source@ == old(self).source@,
                    self.result@ == start + markers(from as nat, self.last_line as nat),
                decreases line - self.last_line,
            {
                let ghost before = self.result@;
                self.last_line += 1;
                self.emit_grammar(Grammar::Advance);
                proof {
                    assert(self.result@ =~= start + markers(from as nat, self.last_line as nat));
                }
            }
        } else {
            while line < self.last_line
                invariant
                    line <= self.last_line <= from,
                    line < from,
                    self.source@ == old(self).source@,
                    self.result@ == start + markers(from as nat, self.last_line as nat),
                decreases self.last_line - line,
            {
                self.last_line -= 1;
                self.emit_grammar(Grammar::Back);
                proof {
                    assert(self.result@ =~= start + markers(from as nat, self.last_line as nat));
                }
            }
        }
        proof {
            assert(markers(from as nat, from as nat) =~= Seq::<u8>::empty());
        }
    }

    /// Emits one byte.
    pub fn emit(&mut self, value: u8)
        ensures
            emitted(
                *old(self),
                *final(self),
                Emitted { bytes: seq![value], line: old(self).last_line as nat },
            ),
    {
        self.result.push(value);
        proof {
            assert(self.result@ =~= old(self).result@ + seq![value]);
        }
    }

    /// Emits an opcode.
    pub fn emit_grammar(&mut self, value: Grammar)
        ensures
            emitted(
                *old(self),
                *final(self),
                Emitted { bytes: seq![value.byte()], line: old(self).last_line as nat },
            ),
    {
        self.emit(value.to_byte())
    }

    /// Emits the bytes as they are.
    pub fn emit_all(&mut self, value: &[u8])
        ensures
            emitted(
                *old(self),
                *final(self),
                Emitted { bytes: value@, line: old(self).last_line as nat },
            ),
    {
        self.result.extend_from_slice(value);
        proof {
            assert(self.result@ =~= old(self).result@ + value@);
        }
    }

    /// Emits an unsigned operand.
    pub fn emit_unsigned_int(&mut self, value: u64)
        ensures
            emitted(
                *old(self),
                *final(self),
                Emitted { bytes: uint_code(value as nat), line: old(self).last_line as nat },
            ),
    {
        proof {
            lemma_len_u64(value);
        }
        let buf = leb128_unsigned(value);
        self.emit(buf.len() as u8);
        self.emit_all(buf.as_slice());
        proof {
            assert(self.result@ =~= old(self).result@ + uint_code(value as nat));
        }
    }

    /// Emits a string operand.
    pub fn emit_string(&mut self, value: &str)
        ensures
            emitted(
                *old(self),
                *final(self),
                Emitted { bytes: string_code(value@), line: old(self).last_line as nat },
            ),
    {
        let bytes = value.as_bytes();
        self.emit_unsigned_int(bytes.len() as u64);
        self.emit_all(bytes);
        proof {
            assert(self.result@ =~= old(self).result@ + string_code(value@));
        }
    }

    /// Appends `n` bytes that a jump operand will replace.
    fn reserve(&mut self, n: usize)
        ensures
            emitted(
                *old(self),
                *final(self),
                Emitted { bytes: zeros(n as nat), line: old(self).last_line as nat },
            ),
    {
        let mut k: usize = 0;
        proof {
            assert(self.result@ =~= old(self).result@ + zeros(0));
        }
        while k < n
            invariant
                k <= n,
                self.result@ == old(self).result@ + zeros(k as nat),
                self.last_line == old(self).last_line,
                self.source@ == old(self).source@,
            decreases n - k,
        {
            self.result.push(0);
            k += 1;
            proof {
                assert(self.result@ =~= old(self).result@ + zeros(k as nat));
            }
        }
    }

    /// Writes the operand of a jump over `d` bytes into the `w` bytes
    /// reserved at `p`, which it fills.
    #[verifier::rlimit(30)]
    #[verifier::spinoff_prover]
    fn patch(&mut self, p: usize, d: usize, w: usize)
        requires
            1 + leb128_len(d as nat) == w,
            p + w <= old(self).result@.len(),
        ensures
            final(self).result@ == old(self).result@.subrange(0, p as int) + uint_code(d as nat)
                + old(self).result@.subrange(p + w, old(self).result@.len() as int),
            uint_code(d as nat).len() == w,
            final(self).last_line == old(self).last_line,
            final(self).source@ == old(self).source@,
    {
        proof {
            lemma_len_u64(d as u64);
        }
        let enc = leb128_unsigned(d as u64);
        let mut op: Vec<u8> = Vec::new();
        op.push(enc.len() as u8);
        op.extend_from_slice(enc.as_slice());
        proof {
            assert(op@ =~= uint_code(d as nat));
        }
        let mut k: usize = 0;
        while k < w
            invariant
                k <= w,
                p + w <= old(self).result@.len(),
                op@.len() == w,
                self.result@.len() == old(self).result@.len(),
                forall|i: int| 0 <= i < p ==> self.result@[i] == old(self).result@[i],
                forall|i: int| p <= i < p + k ==> self.result@[i] == op@[i - p],
                forall|i: int|
                    p + k <= i < self.result@.len() ==> self.result@[i] == old(self).result@[i],
                self.last_line == old(self).last_line,
                self.source@ == old(self).source@,
            decreases w - k,
        {
            assert(p + k < self.result.len());
            self.result.set(p + k, op[k]);
            k += 1;
        }
        proof {
            assert(self.result@ =~= old(self).result@.subrange(0, p as int) + op@ + old(
                self,
            ).result@.subrange(p + w, old(self).result@.len() as int));
        }
    }

    /// Compiles a full program onto the end of the bytecode.
    pub fn compile(&mut self, nodes: Program)
        requires
            block_compilable(program_model(nodes@)),
        ensures
            emitted(
                *old(self),
                *final(self),
                block_code(
                    program_model(nodes@),
                    nodes@.len(),
                    old(self).source@,
                    old(self).result@.len(),
                    old(self).last_line as nat,
                ),
            ),
    {
        self.compile_block(&nodes)
    }

    /// Compiles the statements of a block, one after the other.
    #[verifier::rlimit(30)]
    #[verifier::spinoff_prover]
    pub fn compile_block(&mut self, nodes: &Vec<Statement>)
        requires
            block_compilable(program_model(nodes@)),
        ensures
            emitted(
                *old(self),
                *final(self),
                block_code(
                    program_model(nodes@),
                    nodes@.len(),
                    old(self).source@,
                    old(self).result@.len(),
                    old(self).last_line as nat,
                ),
            ),
        decreases nodes, 1nat,
    {
        let ghost pm = program_model(nodes@);
        let ghost src = self.source@;
        let ghost at = self.result@.len();
        let ghost line = self.last_line as nat;
        let mut i: usize = 0;
        proof {
            assert(self.result@ =~= old(self).result@ + block_code(pm, 0, src, at, line).bytes);
        }
        while i < nodes.len()
            invariant
                i <= nodes.len(),
                pm == program_model(nodes@),
                block_compilable(pm),
                at == old(self).result@.len(),
                emitted(*old(self), *self, block_code(pm, i as nat, src, at, line)),
                src == old(self).source@,
            decreases nodes.len() - i,
        {
            let ghost before = block_code(pm, i as nat, src, at, line);
            proof {
                assert(decreases_to!(nodes => nodes[i as int]));
                assert(pm[i as int] == nodes[i as int].model());
                assert(stmt_compilable(pm[i as int]));
            }
            self.compile_node(&nodes[i]);
            i += 1;
            proof {
                let this = stmt_code(pm[i - 1], src, at + before.bytes.len(), before.line);
                assert(block_code(pm, i as nat, src, at, line).bytes == before.bytes + this.bytes);
                assert(self.result@ =~= old(self).result@ + (before.bytes + this.bytes));
            }
        }
    }

    /// Compiles one arm of a conditional.
    #[verifier::rlimit(40)]
    #[verifier::spinoff_prover]
    fn compile_arm(&mut self, nodes: &Vec<Statement>)
        requires
            block_compilable(program_model(nodes@)),
        ensures
            emitted(
                *old(self),
                *final(self),
                arm_code(
                    program_model(nodes@),
                    old(self).source@,
                    old(self).result@.len(),
                    old(self).last_line as nat,
                ),
            ),
        decreases nodes, 2nat,
    {
        let ghost pm = program_model(nodes@);
        let ghost src = self.source@;
        let ghost at = self.result@.len();
        let ghost line = self.last_line as nat;
        self.compile_block(nodes);
        let n = nodes.len();
        let value = n > 0 && match &nodes[n - 1] {
            Statement::ExprStmt(_) => true,
            Statement::FunctionDeclare(_) => false,
        };
        proof {
            if n > 0 {
                assert(pm.last() == nodes[n - 1].model());
            }
            assert(value == ends_in_value(pm));
        }
        if value {
            proof {
                let before = block_code(pm, (n - 1) as nat, src, at, line);
                let this = stmt_code(pm[n - 1], src, at + before.bytes.len(), before.line);
                assert(block_code(pm, n as nat, src, at, line).bytes == before.bytes + this.bytes);
                assert(this.bytes.len() > 0);
            }
            self.result.pop();
            proof {
                let b = block_code(pm, n as nat, src, at, line);
                assert(self.result@ =~= old(self).result@ + b.bytes.drop_last());
            }
        } else {
            self.emit_grammar(Grammar::Null);
            proof {
                let b = block_code(pm, n as nat, src, at, line);
                assert(self.result@ =~= old(self).result@ + (b.bytes + seq![Grammar::Null.byte()]));
            }
        }
    }

    /// Compiles one statement.
    #[verifier::rlimit(30)]
    #[verifier::spinoff_prover]
    pub fn compile_node(&mut self, node: &Statement)
        requires
            stmt_compilable(node.model()),
        ensures
            emitted(
                *old(self),
                *final(self),
                stmt_code(
                    node.model(),
                    old(self).source@,
                    old(self).result@.len(),
                    old(self).last_line as nat,
                ),
            ),
        decreases node, 1nat,
    {
        let ghost want = stmt_code(
            node.model(),
            self.source@,
            self.result@.len(),
            self.last_line as nat,
        );
        match node {
            Statement::ExprStmt(x) => {
                let l = span_to_line(self.source, x.pos);
                self.update_line(l);
                self.compile_expr(&x.expr);
                self.emit_grammar(Grammar::Pop);
                proof {
                    assert(self.result@ =~= old(self).result@ + want.bytes);
                }
            },
            Statement::FunctionDeclare(_) => {
                self.compile_function(node);
            },
        }
    }

    /// Emits the parameter names of a function declaration.
    fn emit_names(&mut self, names: &Vec<std::string::String>)
        ensures
            emitted(
                *old(self),
                *final(self),
                Emitted {
                    bytes: names_code(names_model(names@), names@.len()),
                    line: old(self).last_line as nat,
                },
            ),
    {
        let ghost model = names_model(names@);
        let ghost head = self.result@;
        let mut i: usize = 0;
        proof {
            assert(self.result@ =~= head + names_code(model, 0));
        }
        while i < names.len()
            invariant
                i <= names.len(),
                model == names_model(names@),
                self.result@ == head + names_code(model, i as nat),
                self.last_line == old(self).last_line,
                self.source@ == old(self).source@,
            decreases names.len() - i,
        {
            self.emit_string(names[i].as_str());
            i += 1;
            proof {
                assert(self.result@ =~= head + names_code(model, i as nat));
            }
        }
    }

    /// Compiles the body of a function as a buffer of its own, which the
    /// machine runs behind a magic byte: the body's offsets count from 1.
    #[verifier::rlimit(30)]
    #[verifier::spinoff_prover]
    fn compile_body(&self, body: &Vec<Statement>) -> (r: (Vec<u8>, usize))
        requires
            block_compilable(program_model(body@)),
        ensures
            r.0@ == block_code(
                program_model(body@),
                body@.len(),
                self.source@,
                1,
                self.last_line as nat,
            ).bytes,
            r.1 == block_code(
                program_model(body@),
                body@.len(),
                self.source@,
                1,
                self.last_line as nat,
            ).line,
        decreases body, 2nat,
    {
        let mut comp = Compiler::new(self.source);
        comp.last_line = self.last_line;
        comp.compile_block(body);
        let line = comp.last_line;
        let mut code = comp.result;
        let rest = code.split_off(1);
        proof {
            let b = block_code(
                program_model(body@),
                body@.len(),
                self.source@,
                1,
                self.last_line as nat,
            );
            assert(rest@ =~= b.bytes);
        }
        (rest, line)
    }

    /// Compiles a function declaration: `Function`, the name, the number of
    /// parameters and their names, the length of the body's code and that
    /// code, then the markers to the line on which the body ends.
    #[verifier::rlimit(40)]
    #[verifier::spinoff_prover]
    fn compile_function(&mut self, node: &Statement)
        requires
            node is FunctionDeclare,
            stmt_compilable(node.model()),
        ensures
            emitted(
                *old(self),
                *final(self),
                stmt_code(
                    node.model(),
                    old(self).source@,
                    old(self).result@.len(),
                    old(self).last_line as nat,
                ),
            ),
        decreases node, 0nat,
    {
        let ghost want = stmt_code(
            node.model(),
            self.source@,
            self.result@.len(),
            self.last_line as nat,
        );
        match node {
            Statement::FunctionDeclare(x) => {
                proof {
                    lemma_function_model(*node);
                }
                let l = span_to_line(self.source, x.pos);
                self.update_line(l);
                self.emit_grammar(Grammar::Function);
                self.emit_string(x.name.as_str());
                self.emit_unsigned_int(x.args.len() as u64);
                self.emit_names(&x.args);
                let (code, line) = self.compile_body(&x.body);
                self.emit_unsigned_int(code.len() as u64);
                self.emit_all(code.as_slice());
                self.update_line(line);
            },
            _ => {},
        }
        proof {
            assert(self.result@ =~= old(self).result@ + want.bytes);
        }
    }

    /// Compiles one expression.
    pub fn compile_expr(&mut self, expr: &Expression)
        requires
            compilable(expr.model()),
        ensures
            emitted(
                *old(self),
                *final(self),
                expr_code(
                    expr.model(),
                    old(self).source@,
                    old(self).result@.len(),
                    old(self).last_line as nat,
                ),
            ),
        decreases expr, 10nat,
    {
        match expr {
            Expression::Int(_) => self.compile_leaf(expr),
            Expression::String(_) => self.compile_leaf(expr),
            Expression::GetVar(_) => self.compile_leaf(expr),
            Expression::SetVar(_) => self.compile_set_var(expr),
            Expression::Infix(_) => self.compile_infix(expr),
            Expression::Prefix(_) => self.compile_prefix(expr),
            Expression::Call(_) => self.compile_call(expr),
            Expression::GetInstance(_) => self.compile_get_instance(expr),
            Expression::Index(_) => {},
            Expression::Vec_(_) => {},
            Expression::If(_) => self.compile_if(expr),
            Expression::While(_) => self.compile_while(expr),
        }
    }

    /// Compiles a literal or a variable read: an opcode and one operand.
    fn compile_leaf(&mut self, expr: &Expression)
        requires
            expr is Int || expr is String || expr is GetVar,
        ensures
            emitted(
                *old(self),
                *final(self),
                expr_code(
                    expr.model(),
                    old(self).source@,
                    old(self).result@.len(),
                    old(self).last_line as nat,
                ),
            ),
    {
        let ghost want = expr_code(
            expr.model(),
            self.source@,
            self.result@.len(),
            self.last_line as nat,
        );
        match expr {
            Expression::Int(x) => {
                self.update_line(span_to_line(self.source, x.pos));
                self.emit_grammar(Grammar::Integer);
                self.emit_unsigned_int(x.value);
            },
            Expression::String(x) => {
                self.update_line(span_to_line(self.source, x.pos));
                self.emit_grammar(Grammar::String);
                self.emit_string(x.value.as_str());
            },
            Expression::GetVar(x) => {
                self.update_line(span_to_line(self.source, x.pos));
                self.emit_grammar(Grammar::Getvar);
                self.emit_string(x.name.as_str());
            },
            _ => {},
        }
        proof {
            assert(self.result@ =~= old(self).result@ + want.bytes);
        }
    }

    /// Compiles an assignment: the value, then `Setvar` with the name.
    fn compile_set_var(&mut self, expr: &Expression)
        requires
            expr is SetVar,
            compilable(expr.model()),
        ensures
            emitted(
                *old(self),
                *final(self),
                expr_code(
                    expr.model(),
                    old(self).source@,
                    old(self).result@.len(),
                    old(self).last_line as nat,
                ),
            ),
        decreases expr, 5nat,
    {
        let ghost want = expr_code(
            expr.model(),
            self.source@,
            self.result@.len(),
            self.last_line as nat,
        );
        match expr {
            Expression::SetVar(x) => {
                let l = span_to_line(self.source, x.pos);
                self.update_line(l);
                self.compile_expr(&x.value);
                self.update_line(l);
                self.emit_grammar(Grammar::Setvar);
                self.emit_string(x.name.as_str());
            },
            _ => {},
        }
        proof {
            assert(self.result@ =~= old(self).result@ + want.bytes);
        }
    }

    /// Compiles `left OP right`: the right operand, the left one, the member
    /// named `OP` of the left one, and a call of it with one argument.
    #[verifier::rlimit(30)]
    #[verifier::spinoff_prover]
    fn compile_infix(&mut self, expr: &Expression)
        requires
            expr is Infix,
            compilable(expr.model()),
        ensures
            emitted(
                *old(self),
                *final(self),
                expr_code(
                    expr.model(),
                    old(self).source@,
                    old(self).result@.len(),
                    old(self).last_line as nat,
                ),
            ),
        decreases expr, 5nat,
    {
        let ghost want = expr_code(
            expr.model(),
            self.source@,
            self.result@.len(),
            self.last_line as nat,
        );
        match expr {
            Expression::Infix(x) => {
                let l = span_to_line(self.source, x.pos);
                self.update_line(l);
                self.compile_expr(&x.right);
                self.update_line(l);
                self.compile_expr(&x.left);
                self.update_line(l);
                self.emit_grammar(Grammar::GetInstance);
                self.emit_string(x.operator.as_str());
                self.emit_grammar(Grammar::Call);
                self.emit_unsigned_int(1);
            },
            _ => {},
        }
        proof {
            assert(self.result@ =~= old(self).result@ + want.bytes);
        }
    }

    /// Compiles `OP right`: the operand, its member named `OP@`, and a call
    /// of it without arguments.
    fn compile_prefix(&mut self, expr: &Expression)
        requires
            expr is Prefix,
            compilable(expr.model()),
        ensures
            emitted(
                *old(self),
                *final(self),
                expr_code(
                    expr.model(),
                    old(self).source@,
                    old(self).result@.len(),
                    old(self).last_line as nat,
                ),
            ),
        decreases expr, 5nat,
    {
        let ghost want = expr_code(
            expr.model(),
            self.source@,
            self.result@.len(),
            self.last_line as nat,
        );
        match expr {
            Expression::Prefix(x) => {
                let l = span_to_line(self.source, x.pos);
                self.update_line(l);
                self.compile_expr(&x.right);
                self.update_line(l);
                self.emit_grammar(Grammar::GetInstance);
                let mut name = x.operator.clone();
                name.push('@');
                self.emit_string(name.as_str());
                self.emit_grammar(Grammar::Call);
                self.emit_unsigned_int(0);
            },
            _ => {},
        }
        proof {
            assert(self.result@ =~= old(self).result@ + want.bytes);
        }
    }

    /// Compiles a member access: the object, then `GetInstance` with the name.
    fn compile_get_instance(&mut self, expr: &Expression)
        requires
            expr is GetInstance,
            compilable(expr.model()),
        ensures
            emitted(
                *old(self),
                *final(self),
                expr_code(
                    expr.model(),
                    old(self).source@,
                    old(self).result@.len(),
                    old(self).last_line as nat,
                ),
            ),
        decreases expr, 5nat,
    {
        let ghost want = expr_code(
            expr.model(),
            self.source@,
            self.result@.len(),
            self.last_line as nat,
        );
        match expr {
            Expression::GetInstance(x) => {
                self.update_line(span_to_line(self.source, x.pos));
                self.compile_expr(&x.parent);
                self.emit_grammar(Grammar::GetInstance);
                self.emit_string(x.name.as_str());
            },
            _ => {},
        }
        proof {
            assert(self.result@ =~= old(self).result@ + want.bytes);
        }
    }

    /// Compiles the arguments of a call, the last one first.
    #[verifier::rlimit(30)]
    #[verifier::spinoff_prover]
    fn compile_args(&mut self, expr: &Expression)
        requires
            expr is Call,
            compilable(expr.model()),
        ensures
            emitted(
                *old(self),
                *final(self),
                rev_args_code(
                    expr.model()->Call_arguments,
                    expr.model()->Call_arguments.len(),
                    old(self).source@,
                    old(self).result@.len(),
                    old(self).last_line as nat,
                ),
            ),
        decreases expr, 5nat,
    {
        let ghost src = self.source@;
        let ghost line = self.last_line as nat;
        let ghost args = expr.model()->Call_arguments;
        let ghost head = self.result@;
        match expr {
            Expression::Call(x) => {
                let n = x.arguments.len();
                let mut k: usize = 0;
                proof {
                    assert(self.result@ =~= head + rev_args_code(
                        args,
                        0,
                        src,
                        head.len(),
                        line,
                    ).bytes);
                }
                while k < n
                    invariant
                        k <= n,
                        n == x.arguments.len(),
                        *expr == Expression::Call(*x),
                        args == expr.model()->Call_arguments,
                        args.len() == n,
                        compilable(expr.model()),
                        self.source@ == src,
                        self.result@ == head + rev_args_code(
                            args,
                            k as nat,
                            src,
                            head.len(),
                            line,
                        ).bytes,
                        self.last_line == rev_args_code(args, k as nat, src, head.len(), line).line,
                    decreases n - k,
                {
                    proof {
                        assert(expr->Call_0 == *x);
                        assert(decreases_to!(expr => expr->Call_0));
                        assert(decreases_to!(x => x.arguments));
                        assert(decreases_to!(x.arguments => x.arguments[n - k - 1]));
                        assert(args[n - k - 1] == x.arguments[n - k - 1].model());
                        assert(compilable(args[n - k - 1]));
                    }
                    self.compile_expr(&x.arguments[n - k - 1]);
                    k += 1;
                    proof {
                        assert(self.result@ =~= head + rev_args_code(
                            args,
                            k as nat,
                            src,
                            head.len(),
                            line,
                        ).bytes);
                    }
                }
            },
            _ => {},
        }
    }

    /// Compiles a call: the arguments, the last one first, the callee, and
    /// `Call` with the number of arguments.
    #[verifier::rlimit(30)]
    #[verifier::spinoff_prover]
    fn compile_call(&mut self, expr: &Expression)
        requires
            expr is Call,
            compilable(expr.model()),
        ensures
            emitted(
                *old(self),
                *final(self),
                expr_code(
                    expr.model(),
                    old(self).source@,
                    old(self).result@.len(),
                    old(self).last_line as nat,
                ),
            ),
        decreases expr, 6nat,
    {
        let ghost want = expr_code(
            expr.model(),
            self.source@,
            self.result@.len(),
            self.last_line as nat,
        );
        match expr {
            Expression::Call(x) => {
                self.update_line(span_to_line(self.source, x.pos));
                self.compile_args(expr);
                self.compile_expr(&x.callee);
                self.emit_grammar(Grammar::Call);
                self.emit_unsigned_int(x.arguments.len() as u64);
            },
            _ => {},
        }
        proof {
            assert(self.result@ =~= old(self).result@ + want.bytes);
        }
    }

    /// Tries the second arm of a conditional with `t` bytes for its jump's
    /// operand; where the arm's length does not fit them, nothing is emitted.
    /// No narrower operand was enough.
    #[verifier::rlimit(40)]
    #[verifier::spinoff_prover]
    fn attempt_else(&mut self, expr: &Expression, t: usize) -> (ok: bool)
        requires
            expr is If,
            compilable(expr.model()),
            2 <= t <= 11,
            t == 2 || !operand_fits(
                else_len(
                    expr.model(),
                    old(self).source@,
                    (old(self).result@.len() + t - 1) as nat,
                    old(self).last_line as nat,
                ),
                (t - 1) as nat,
            ),
        ensures
            ok == operand_fits(
                else_len(
                    expr.model(),
                    old(self).source@,
                    (old(self).result@.len() + t) as nat,
                    old(self).last_line as nat,
                ),
                t as nat,
            ),
            t >= 11 ==> ok,
            ok ==> final(self).result@.len() >= old(self).result@.len() + t,
            ok ==> emitted(
                *old(self),
                *final(self),
                else_attempt(
                    expr.model(),
                    old(self).source@,
                    old(self).result@.len(),
                    old(self).last_line as nat,
                    t as nat,
                ),
            ),
            !ok ==> emitted(
                *old(self),
                *final(self),
                Emitted { bytes: Seq::empty(), line: old(self).last_line as nat },
            ),
        decreases expr, 3nat,
    {
        let ghost mid = self.result@;
        let ghost src = self.source@;
        let ghost e = expr.model();
        let q = self.result.len();
        let l = self.last_line;
        match expr {
            Expression::If(x) => {
                proof {
                    lemma_if_model(*expr);
                    lemma_else_attempt(e, src, q as nat, l as nat, t as nat);
                    lemma_else_step(e, src, q as nat, l as nat, t as nat);
                }
                self.reserve(t);
                self.compile_arm(&x.other);
                assert(self.result.len() >= q + t);
                let d2 = self.result.len() - (q + t);
                if fits(d2, t) {
                    proof {
                        lemma_exact_width(
                            else_len(e, src, (q + t - 1) as nat, l as nat),
                            d2 as nat,
                            t as nat,
                        );
                    }
                    self.patch(q, d2, t);
                    proof {
                        let b = arm_code(e->If_other, src, (q + t) as nat, l as nat);
                        lemma_patched(mid, zeros(t as nat), b.bytes, uint_code(d2 as nat));
                    }
                    true
                } else {
                    self.result.truncate(q);
                    self.last_line = l;
                    proof {
                        assert(self.result@ =~= mid + Seq::<u8>::empty());
                    }
                    false
                }
            },
            _ => true,
        }
    }

    /// Compiles the second arm of a conditional behind its jump, whose
    /// operand is written on the least width that the arm's length fits.
    #[verifier::rlimit(40)]
    #[verifier::spinoff_prover]
    fn compile_else(&mut self, expr: &Expression) -> (t: usize)
        requires
            expr is If,
            compilable(expr.model()),
        ensures
            2 <= t <= 11,
            t == else_search(
                expr.model(),
                old(self).source@,
                old(self).result@.len(),
                old(self).last_line as nat,
                2,
            ),
            final(self).result@.len() >= old(self).result@.len() + t,
            emitted(
                *old(self),
                *final(self),
                else_code(
                    expr.model(),
                    old(self).source@,
                    old(self).result@.len(),
                    old(self).last_line as nat,
                ),
            ),
        decreases expr, 4nat,
    {
        let ghost src = self.source@;
        let ghost e = expr.model();
        let ghost mid = self.result@;
        let ghost q = self.result@.len();
        let ghost l = self.last_line as nat;
        let mut t: usize = 2;
        loop
            invariant_except_break
                self.result@ == mid,
                self.last_line == l,
                else_search(e, src, q, l, 2) == else_search(e, src, q, l, t as nat),
                t == 2 || !operand_fits(else_len(e, src, (q + t - 1) as nat, l), (t - 1) as nat),
            invariant
                2 <= t <= 11,
                expr is If,
                e == expr.model(),
                compilable(e),
                mid.len() == q,
                self.source@ == src,
            ensures
                else_search(e, src, q, l, 2) == else_search(e, src, q, l, t as nat),
                t >= 11 || operand_fits(else_len(e, src, (q + t) as nat, l), t as nat),
                self.result@ == mid + else_attempt(e, src, q, l, t as nat).bytes,
                self.last_line == else_attempt(e, src, q, l, t as nat).line,
                self.source@ == src,
                self.result@.len() >= q + t,
            decreases 11 - t,
        {
            let ok = self.attempt_else(expr, t);
            if ok {
                break ;
            }
            proof {
                lemma_else_step(e, src, q, l, t as nat);
                assert(self.result@ =~= mid);
            }
            t += 1;
        }
        proof {
            lemma_else_found(e, src, q, l, t as nat);
        }
        t
    }

    /// Compiles the first arm of a conditional, the markers back to the
    /// conditional's line `l`, and the opcode of the second jump.
    #[verifier::rlimit(40)]
    #[verifier::spinoff_prover]
    fn compile_then(&mut self, expr: &Expression, l: usize)
        requires
            expr is If,
            compilable(expr.model()),
        ensures
            emitted(
                *old(self),
                *final(self),
                then_code(
                    expr.model(),
                    old(self).source@,
                    old(self).result@.len(),
                    old(self).last_line as nat,
                    l as nat,
                ),
            ),
            final(self).last_line == l,
        decreases expr, 3nat,
    {
        match expr {
            Expression::If(x) => {
                proof {
                    lemma_if_model(*expr);
                }
                self.compile_arm(&x.body);
                self.update_line(l);
                self.emit_grammar(Grammar::Jump);
            },
            _ => {},
        }
        proof {
            reveal(then_code);
            let a = arm_code(
                expr.model()->If_body,
                old(self).source@,
                old(self).result@.len(),
                old(self).last_line as nat,
            );
            lemma_append3(
                old(self).result@,
                a.bytes,
                markers(a.line, l as nat),
                seq![Grammar::Jump.byte()],
            );
        }
    }

    /// Reserves `s` bytes for the first jump's operand and compiles both
    /// arms of a conditional behind them. Returns the distance that the
    /// first jump has to skip. `l` is the conditional's line.
    #[verifier::rlimit(40)]
    #[verifier::spinoff_prover]
    fn compile_arms(&mut self, expr: &Expression, l: usize, s: usize) -> (d: usize)
        requires
            expr is If,
            compilable(expr.model()),
            2 <= s <= 11,
        ensures
            ({
                let p = old(self).result@.len();
                let tc = then_code(
                    expr.model(),
                    old(self).source@,
                    (p + s) as nat,
                    old(self).last_line as nat,
                    l as nat,
                );
                let q = (p + s + tc.bytes.len()) as nat;
                let ec = else_code(expr.model(), old(self).source@, q, l as nat);
                &&& d == tc.bytes.len() + else_search(expr.model(), old(self).source@, q, l as nat, 2)
                &&& emitted(
                    *old(self),
                    *final(self),
                    Emitted { bytes: zeros(s as nat) + (tc.bytes + ec.bytes), line: ec.line },
                )
            }),
        decreases expr, 5nat,
    {
        let ghost head = self.result@;
        let p = self.result.len();
        self.reserve(s);
        self.compile_then(expr, l);
        let q = self.result.len();
        let ghost tc = then_code(
            expr.model(),
            self.source@,
            (p + s) as nat,
            old(self).last_line as nat,
            l as nat,
        );
        let t = self.compile_else(expr);
        let ghost ec = else_code(expr.model(), self.source@, q as nat, l as nat);
        proof {
            lemma_append3(head, zeros(s as nat), tc.bytes, ec.bytes);
            lemma_append2(head, zeros(s as nat), tc.bytes + ec.bytes);
            lemma_append2(head + zeros(s as nat), tc.bytes, ec.bytes);
        }
        assert(self.result.len() >= q + t);
        (q + t) - (p + s)
    }

    /// Tries a conditional's arms with `s` bytes for the first jump's
    /// operand; where the distance does not fit them, nothing is emitted.
    /// `l` is the conditional's line. No narrower operand was enough.
    #[verifier::rlimit(40)]
    #[verifier::spinoff_prover]
    fn attempt_if(&mut self, expr: &Expression, l: usize, s: usize) -> (ok: bool)
        requires
            expr is If,
            compilable(expr.model()),
            2 <= s <= 11,
            s == 2 || !operand_fits(
                then_len(
                    expr.model(),
                    old(self).source@,
                    old(self).result@.len(),
                    old(self).last_line as nat,
                    l as nat,
                    (s - 1) as nat,
                ),
                (s - 1) as nat,
            ),
        ensures
            ok == operand_fits(
                then_len(
                    expr.model(),
                    old(self).source@,
                    old(self).result@.len(),
                    old(self).last_line as nat,
                    l as nat,
                    s as nat,
                ),
                s as nat,
            ),
            s >= 11 ==> ok,
            ok ==> emitted(
                *old(self),
                *final(self),
                if_attempt(
                    expr.model(),
                    old(self).source@,
                    old(self).result@.len(),
                    old(self).last_line as nat,
                    l as nat,
                    s as nat,
                ),
            ),
            !ok ==> emitted(
                *old(self),
                *final(self),
                Emitted { bytes: Seq::empty(), line: old(self).last_line as nat },
            ),
        decreases expr, 6nat,
    {
        let ghost src = self.source@;
        let ghost e = expr.model();
        let ghost head = self.result@;
        let p = self.result.len();
        let line_c = self.last_line;
        proof {
            lemma_if_parts(e, src, p as nat, line_c as nat, l as nat, s as nat);
            lemma_then_step(e, src, p as nat, line_c as nat, l as nat, s as nat);
        }
        let d1 = self.compile_arms(expr, l, s);
        let ghost tc = then_code(e, src, (p + s) as nat, line_c as nat, l as nat);
        let ghost ec = else_code(e, src, (p + s + tc.bytes.len()) as nat, l as nat);
        proof {
            lemma_append2(head, zeros(s as nat), tc.bytes + ec.bytes);
        }
        if fits(d1, s) {
            proof {
                lemma_exact_width(
                    then_len(e, src, p as nat, line_c as nat, l as nat, (s - 1) as nat),
                    d1 as nat,
                    s as nat,
                );
            }
            self.patch(p, d1, s);
            proof {
                lemma_patched(head, zeros(s as nat), tc.bytes + ec.bytes, uint_code(d1 as nat));
            }
            true
        } else {
            self.result.truncate(p);
            self.last_line = line_c;
            proof {
                assert(self.result@ =~= head + Seq::<u8>::empty());
            }
            false
        }
    }

    /// Compiles a conditional: the condition, a jump over the first arm
    /// where it is false, the first arm, a jump over the second arm, and
    /// the second arm. The arms stand behind operands of the least width
    /// that is enough, which is the width that the distance needs.
    #[verifier::rlimit(40)]
    #[verifier::spinoff_prover]
    fn compile_if(&mut self, expr: &Expression)
        requires
            expr is If,
            compilable(expr.model()),
        ensures
            emitted(
                *old(self),
                *final(self),
                expr_code(
                    expr.model(),
                    old(self).source@,
                    old(self).result@.len(),
                    old(self).last_line as nat,
                ),
            ),
        decreases expr, 7nat,
    {
        let ghost src = self.source@;
        let ghost at = self.result@.len();
        let ghost line = self.last_line as nat;
        let ghost e = expr.model();
        let l = match expr {
            Expression::If(x) => {
                let l = span_to_line(self.source, x.pos);
                self.update_line(l);
                self.compile_expr(&x.cond);
                l
            },
            _ => 0,
        };
        self.emit_grammar(Grammar::JumpIfFalse);
        let ghost p = self.result@.len();
        let ghost line_c = self.last_line as nat;
        let ghost head = self.result@;
        proof {
            let pre = markers(line, l as nat);
            let c = expr_code(*e->If_cond, src, at + pre.len(), l as nat);
            assert(head == old(self).result@ + pre + c.bytes + seq![Grammar::JumpIfFalse.byte()]);
            assert(p == at + pre.len() + c.bytes.len() + 1);
            assert(line_c == c.line);
        }
        let mut s: usize = 2;
        loop
            invariant_except_break
                self.result@ == head,
                self.last_line == line_c,
                then_search(e, src, p, line_c, l as nat, 2) == then_search(
                    e,
                    src,
                    p,
                    line_c,
                    l as nat,
                    s as nat,
                ),
                s == 2 || !operand_fits(
                    then_len(e, src, p, line_c, l as nat, (s - 1) as nat),
                    (s - 1) as nat,
                ),
            invariant
                2 <= s <= 11,
                expr is If,
                e == expr.model(),
                compilable(e),
                head.len() == p,
                self.source@ == src,
            ensures
                then_search(e, src, p, line_c, l as nat, 2) == then_search(
                    e,
                    src,
                    p,
                    line_c,
                    l as nat,
                    s as nat,
                ),
                s >= 11 || operand_fits(then_len(e, src, p, line_c, l as nat, s as nat), s as nat),
                self.result@ == head + if_attempt(e, src, p, line_c, l as nat, s as nat).bytes,
                self.last_line == if_attempt(e, src, p, line_c, l as nat, s as nat).line,
            decreases 11 - s,
        {
            let ok = self.attempt_if(expr, l, s);
            if ok {
                break ;
            }
            proof {
                lemma_then_step(e, src, p, line_c, l as nat, s as nat);
                assert(self.result@ =~= head);
            }
            s += 1;
        }
        proof {
            lemma_then_found(e, src, p, line_c, l as nat, s as nat);
            let pre = markers(line, l as nat);
            let c = expr_code(*e->If_cond, src, at + pre.len(), l as nat);
            let j = seq![Grammar::JumpIfFalse.byte()];
            let t = if_tail(e, src, p, line_c, l as nat, s as nat);
            assert(head == old(self).result@ + pre + c.bytes + j);
            lemma_append4(old(self).result@, pre, c.bytes, j, t.bytes);
        }
    }

    /// Tries a loop's body with `s` bytes for the operand of the jump out;
    /// where the distance does not fit them, nothing is emitted. `at` is the
    /// offset of the loop's first byte. No narrower operand was enough.
    #[verifier::rlimit(40)]
    #[verifier::spinoff_prover]
    fn attempt_while(&mut self, expr: &Expression, at: usize, s: usize) -> (ok: bool)
        requires
            expr is While,
            compilable(expr.model()),
            2 <= s <= 11,
            s == 2 || !operand_fits(
                exit_len(
                    expr.model(),
                    old(self).source@,
                    at as nat,
                    old(self).result@.len(),
                    old(self).last_line as nat,
                    (s - 1) as nat,
                ),
                (s - 1) as nat,
            ),
        ensures
            ok == operand_fits(
                exit_len(
                    expr.model(),
                    old(self).source@,
                    at as nat,
                    old(self).result@.len(),
                    old(self).last_line as nat,
                    s as nat,
                ),
                s as nat,
            ),
            s >= 11 ==> ok,
            ok ==> emitted(
                *old(self),
                *final(self),
                exit_attempt(
                    expr.model(),
                    old(self).source@,
                    at as nat,
                    old(self).result@.len(),
                    old(self).last_line as nat,
                    s as nat,
                ),
            ),
            !ok ==> emitted(
                *old(self),
                *final(self),
                Emitted { bytes: Seq::empty(), line: old(self).last_line as nat },
            ),
        decreases expr, 5nat,
    {
        let ghost src = self.source@;
        let ghost e = expr.model();
        let ghost head = self.result@;
        let p = self.result.len();
        let line_c = self.last_line;
        match expr {
            Expression::While(x) => {
                proof {
                    lemma_while_model(*expr);
                    lemma_exit_attempt(e, src, at as nat, p as nat, line_c as nat, s as nat);
                    lemma_exit_step(e, src, at as nat, p as nat, line_c as nat, s as nat);
                }
                self.reserve(s);
                self.compile_block(&x.body);
                let ghost body = e->While_body;
                let ghost b = block_code(body, body.len(), src, (p + s) as nat, line_c as nat);
                self.emit_grammar(Grammar::JumpTo);
                self.emit_unsigned_int(at as u64);
                let ghost tail = b.bytes + seq![Grammar::JumpTo.byte()] + uint_code(at as nat);
                proof {
                    lemma_append3(
                        head + zeros(s as nat),
                        b.bytes,
                        seq![Grammar::JumpTo.byte()],
                        uint_code(at as nat),
                    );
                }
                assert(self.result.len() >= p + s);
                let d = self.result.len() - (p + s);
                if fits(d, s) {
                    proof {
                        lemma_exact_width(
                            exit_len(
                                e,
                                src,
                                at as nat,
                                p as nat,
                                line_c as nat,
                                (s - 1) as nat,
                            ),
                            d as nat,
                            s as nat,
                        );
                    }
                    self.patch(p, d, s);
                    proof {
                        lemma_patched(head, zeros(s as nat), tail, uint_code(d as nat));
                        lemma_append3(
                            uint_code(d as nat),
                            b.bytes,
                            seq![Grammar::JumpTo.byte()],
                            uint_code(at as nat),
                        );
                    }
                    true
                } else {
                    self.result.truncate(p);
                    self.last_line = line_c;
                    proof {
                        assert(self.result@ =~= head + Seq::<u8>::empty());
                    }
                    false
                }
            },
            _ => true,
        }
    }

    /// Compiles a loop: the condition, a jump out where it is false, the
    /// body, a jump back to the loop's first byte, and a `Null` for the
    /// loop's value.
    #[verifier::rlimit(40)]
    #[verifier::spinoff_prover]
    fn compile_while(&mut self, expr: &Expression)
        requires
            expr is While,
            compilable(expr.model()),
        ensures
            emitted(
                *old(self),
                *final(self),
                expr_code(
                    expr.model(),
                    old(self).source@,
                    old(self).result@.len(),
                    old(self).last_line as nat,
                ),
            ),
        decreases expr, 6nat,
    {
        let ghost src = self.source@;
        let ghost line = self.last_line as nat;
        let ghost e = expr.model();
        let at = self.result.len();
        let l = match expr {
            Expression::While(x) => {
                let l = span_to_line(self.source, x.pos);
                self.update_line(l);
                self.compile_expr(&x.cond);
                l
            },
            _ => 0,
        };
        self.emit_grammar(Grammar::JumpIfFalse);
        let ghost p = self.result@.len();
        let ghost line_c = self.last_line as nat;
        let ghost head = self.result@;
        proof {
            let pre = markers(line, l as nat);
            let c = expr_code(*e->While_cond, src, (at + pre.len()) as nat, l as nat);
            assert(head == old(self).result@ + pre + c.bytes + seq![Grammar::JumpIfFalse.byte()]);
            assert(p == at + pre.len() + c.bytes.len() + 1);
            assert(line_c == c.line);
        }
        let mut s: usize = 2;
        loop
            invariant_except_break
                self.result@ == head,
                self.last_line == line_c,
                exit_search(e, src, at as nat, p, line_c, 2) == exit_search(
                    e,
                    src,
                    at as nat,
                    p,
                    line_c,
                    s as nat,
                ),
                s == 2 || !operand_fits(
                    exit_len(e, src, at as nat, p, line_c, (s - 1) as nat),
                    (s - 1) as nat,
                ),
            invariant
                2 <= s <= 11,
                expr is While,
                e == expr.model(),
                compilable(e),
                head.len() == p,
                self.source@ == src,
            ensures
                exit_search(e, src, at as nat, p, line_c, 2) == exit_search(
                    e,
                    src,
                    at as nat,
                    p,
                    line_c,
                    s as nat,
                ),
                s >= 11 || operand_fits(exit_len(e, src, at as nat, p, line_c, s as nat), s as nat),
                self.result@ == head + exit_attempt(e, src, at as nat, p, line_c, s as nat).bytes,
                self.last_line == exit_attempt(e, src, at as nat, p, line_c, s as nat).line,
                self.source@ == src,
            decreases 11 - s,
        {
            let ok = self.attempt_while(expr, at, s);
            if ok {
                break ;
            }
            proof {
                lemma_exit_step(e, src, at as nat, p, line_c, s as nat);
                assert(self.result@ =~= head);
            }
            s += 1;
        }
        self.emit_grammar(Grammar::Null);
        proof {
            lemma_exit_found(e, src, at as nat, p, line_c, s as nat);
            let pre = markers(line, l as nat);
            let c = expr_code(*e->While_cond, src, (at + pre.len()) as nat, l as nat);
            let j = seq![Grammar::JumpIfFalse.byte()];
            let t = while_tail(e, src, at as nat, p, line_c, s as nat);
            lemma_append5(old(self).result@, pre, c.bytes, j, t.bytes, seq![Grammar::Null.byte()]);
        }
    }
}

} // verus!
