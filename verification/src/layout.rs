//! Why the compiler never pads a jump's operand.
//!
//! The width of a jump's operand decides where the code behind it stands,
//! and so, through the offsets of the loops in it, how long that code is
//! and what the jump has to skip. The compiler takes the least width that
//! is enough. Code never gets shorter when it moves to a higher offset;
//! from that it follows that the least width that is enough is exactly the
//! width that the distance needs.

use vstd::prelude::*;
use crate::ast::{Expr, Stmt};
use crate::compiler::{
    arm_code, block_code, else_attempt, else_code, else_len, else_search, else_width,
    ends_in_value, exit_attempt, exit_len, exit_search, expr_code, if_attempt, if_layout, if_tail,
    markers, operand_fits, rev_args_code, stmt_code, then_code, then_len, then_search, then_width,
    uint_code, while_jump, while_tail, while_width, Emitted, IfLayout,
};
use crate::grammar::Grammar;
use crate::helpers::line_of;
use crate::leb::{leb128_len, lemma_encode_len, lemma_len_monotone, lemma_len_u64};

verus! {

/// An unsigned operand takes one byte more than its number.
pub proof fn lemma_uint_len(v: nat)
    ensures
        uint_code(v).len() == 1 + leb128_len(v),
{
    lemma_encode_len(v);
}

/// The operand of a larger number is not shorter.
pub proof fn lemma_uint_grows(a: nat, b: nat)
    requires
        a <= b,
    ensures
        uint_code(a).len() <= uint_code(b).len(),
{
    lemma_uint_len(a);
    lemma_uint_len(b);
    lemma_len_monotone(a, b);
}

/// The least width that is enough for a distance is the width that the
/// distance needs: where `t` bytes are enough for `d` and one byte less was
/// not enough for a distance that is not longer, the operand of `d` takes
/// `t` bytes.
pub proof fn lemma_exact_width(before: nat, d: nat, t: nat)
    requires
        2 <= t,
        before <= d,
        t == 2 || !operand_fits(before, (t - 1) as nat),
        operand_fits(d, t),
    ensures
        1 + leb128_len(d) == t,
        uint_code(d).len() == t,
{
    lemma_uint_len(d);
    lemma_len_monotone(before, d);
}

/// How many bytes stand behind the first operand of a conditional: the
/// first arm, the second jump and the second arm.
pub open spec fn rest_len(y: IfLayout) -> nat {
    y.then_arm.len() + 1 + uint_code(y.else_arm.len()).len() + y.else_arm.len()
}

/// The code of an expression is not shorter at a higher offset, and ends
/// on the same line.
#[verifier::rlimit(30)]
#[verifier::spinoff_prover]
pub proof fn lemma_expr_grows(e: Expr, src: Seq<char>, a: nat, b: nat, line: nat)
    requires
        a <= b,
    ensures
        expr_code(e, src, a, line).bytes.len() <= expr_code(e, src, b, line).bytes.len(),
        expr_code(e, src, a, line).line == expr_code(e, src, b, line).line,
    decreases e, 100nat,
{
    match e {
        Expr::Int { .. } => {},
        Expr::Str { .. } => {},
        Expr::GetVar { .. } => {},
        Expr::Index { .. } => {},
        Expr::Vector { .. } => {},
        Expr::SetVar { name, value, pos } => {
            let l = line_of(src, pos.start as nat);
            let pre = markers(line, l);
            lemma_expr_grows(*value, src, a + pre.len(), b + pre.len(), l);
        },
        Expr::Infix { left, operator, right, pos } => {
            let l = line_of(src, pos.start as nat);
            let pre = markers(line, l);
            lemma_expr_grows(*right, src, a + pre.len(), b + pre.len(), l);
            let ra = expr_code(*right, src, a + pre.len(), l);
            let rb = expr_code(*right, src, b + pre.len(), l);
            let m1 = markers(ra.line, l);
            lemma_expr_grows(
                *left,
                src,
                a + pre.len() + ra.bytes.len() + m1.len(),
                b + pre.len() + rb.bytes.len() + m1.len(),
                l,
            );
        },
        Expr::Prefix { operator, right, pos } => {
            let l = line_of(src, pos.start as nat);
            let pre = markers(line, l);
            lemma_expr_grows(*right, src, a + pre.len(), b + pre.len(), l);
        },
        Expr::Call { callee, arguments, pos } => {
            let l = line_of(src, pos.start as nat);
            let pre = markers(line, l);
            lemma_args_grow(arguments, arguments.len(), src, a + pre.len(), b + pre.len(), l);
            let xa = rev_args_code(arguments, arguments.len(), src, a + pre.len(), l);
            let xb = rev_args_code(arguments, arguments.len(), src, b + pre.len(), l);
            lemma_expr_grows(
                *callee,
                src,
                a + pre.len() + xa.bytes.len(),
                b + pre.len() + xb.bytes.len(),
                xa.line,
            );
        },
        Expr::GetInstance { parent, name, pos } => {
            let l = line_of(src, pos.start as nat);
            let pre = markers(line, l);
            lemma_expr_grows(*parent, src, a + pre.len(), b + pre.len(), l);
        },
        Expr::If { cond, body, other, pos } => {
            let l = line_of(src, pos.start as nat);
            let pre = markers(line, l);
            lemma_expr_grows(*cond, src, a + pre.len(), b + pre.len(), l);
            let ca = expr_code(*cond, src, a + pre.len(), l);
            let cb = expr_code(*cond, src, b + pre.len(), l);
            let pa = a + pre.len() + ca.bytes.len() + 1;
            let pb = b + pre.len() + cb.bytes.len() + 1;
            lemma_if_tail_grows(e, src, pa, pb, ca.line, l);
        },
        Expr::While { cond, body, pos } => {
            let l = line_of(src, pos.start as nat);
            let pre = markers(line, l);
            lemma_expr_grows(*cond, src, a + pre.len(), b + pre.len(), l);
            let ca = expr_code(*cond, src, a + pre.len(), l);
            let cb = expr_code(*cond, src, b + pre.len(), l);
            let pa = a + pre.len() + ca.bytes.len() + 1;
            let pb = b + pre.len() + cb.bytes.len() + 1;
            lemma_while_tail_grows(e, src, a, b, pa, pb, ca.line);
        },
    }
}

/// The code of the arguments of a call is not shorter at a higher offset.
pub proof fn lemma_args_grow(args: Seq<Expr>, k: nat, src: Seq<char>, a: nat, b: nat, line: nat)
    requires
        a <= b,
    ensures
        rev_args_code(args, k, src, a, line).bytes.len() <= rev_args_code(
            args,
            k,
            src,
            b,
            line,
        ).bytes.len(),
        rev_args_code(args, k, src, a, line).line == rev_args_code(args, k, src, b, line).line,
    decreases args, k,
{
    if !(k == 0 || k > args.len()) {
        lemma_args_grow(args, (k - 1) as nat, src, a, b, line);
        let xa = rev_args_code(args, (k - 1) as nat, src, a, line);
        let xb = rev_args_code(args, (k - 1) as nat, src, b, line);
        lemma_expr_grows(
            args[args.len() - k],
            src,
            a + xa.bytes.len(),
            b + xb.bytes.len(),
            xa.line,
        );
    }
}

/// The code of a statement is not shorter at a higher offset.
pub proof fn lemma_stmt_grows(s: Stmt, src: Seq<char>, a: nat, b: nat, line: nat)
    requires
        a <= b,
    ensures
        stmt_code(s, src, a, line).bytes.len() <= stmt_code(s, src, b, line).bytes.len(),
        stmt_code(s, src, a, line).line == stmt_code(s, src, b, line).line,
    decreases s, 100nat,
{
    match s {
        Stmt::Expr { expr, pos } => {
            let l = line_of(src, pos.start as nat);
            let pre = markers(line, l);
            lemma_expr_grows(expr, src, a + pre.len(), b + pre.len(), l);
        },
        Stmt::Function { .. } => {},
    }
}

/// The code of a block is not shorter at a higher offset.
pub proof fn lemma_block_grows(stmts: Seq<Stmt>, n: nat, src: Seq<char>, a: nat, b: nat, line: nat)
    requires
        a <= b,
    ensures
        block_code(stmts, n, src, a, line).bytes.len() <= block_code(
            stmts,
            n,
            src,
            b,
            line,
        ).bytes.len(),
        block_code(stmts, n, src, a, line).line == block_code(stmts, n, src, b, line).line,
    decreases stmts, n,
{
    if !(n == 0 || n > stmts.len()) {
        lemma_block_grows(stmts, (n - 1) as nat, src, a, b, line);
        let xa = block_code(stmts, (n - 1) as nat, src, a, line);
        let xb = block_code(stmts, (n - 1) as nat, src, b, line);
        lemma_stmt_grows(stmts[n - 1], src, a + xa.bytes.len(), b + xb.bytes.len(), xa.line);
    }
}

/// The code of an arm of a conditional is not shorter at a higher offset.
pub proof fn lemma_arm_grows(stmts: Seq<Stmt>, src: Seq<char>, a: nat, b: nat, line: nat)
    requires
        a <= b,
    ensures
        arm_code(stmts, src, a, line).bytes.len() <= arm_code(stmts, src, b, line).bytes.len(),
        arm_code(stmts, src, a, line).line == arm_code(stmts, src, b, line).line,
    decreases stmts, stmts.len() + 1,
{
    lemma_block_grows(stmts, stmts.len(), src, a, b, line);
    if ends_in_value(stmts) {
        lemma_block_ends_in_pop(stmts, src, a, line);
        lemma_block_ends_in_pop(stmts, src, b, line);
    }
}

/// The code of a block that ends in an expression is not empty.
pub proof fn lemma_block_ends_in_pop(stmts: Seq<Stmt>, src: Seq<char>, at: nat, line: nat)
    requires
        ends_in_value(stmts),
    ensures
        block_code(stmts, stmts.len(), src, at, line).bytes.len() > 0,
        block_code(stmts, stmts.len(), src, at, line).bytes.last() == Grammar::Pop.byte(),
{
    let n = stmts.len();
    let before = block_code(stmts, (n - 1) as nat, src, at, line);
    let this = stmt_code(stmts[n - 1], src, at + before.bytes.len(), before.line);
    assert(block_code(stmts, n, src, at, line).bytes == before.bytes + this.bytes);
    assert(this.bytes.last() == Grammar::Pop.byte());
}

/// The operand of the second jump of a conditional is not narrower at a
/// higher offset, for a search that starts at the same width.
#[verifier::rlimit(30)]
#[verifier::spinoff_prover]
pub proof fn lemma_else_search(e: Expr, src: Seq<char>, q: nat, q2: nat, l: nat, k: nat)
    requires
        e is If,
        q <= q2,
        2 <= k <= 11,
    ensures
        else_width(e, src, q, l, k) <= else_width(e, src, q2, l, k),
        k <= else_width(e, src, q, l, k) <= 11,
        k <= else_width(e, src, q2, l, k) <= 11,
    decreases e, (20 - k) as nat,
{
    if k < 11 {
        lemma_arm_grows(e->If_other, src, q + k, q2 + k, l);
        lemma_len_monotone(
            arm_code(e->If_other, src, q + k, l).bytes.len(),
            arm_code(e->If_other, src, q2 + k, l).bytes.len(),
        );
        lemma_else_search(e, src, q, q2, l, k + 1);
    }
}

/// The second jump of a conditional with its arm is not shorter at a
/// higher offset.
pub proof fn lemma_else_grows(e: Expr, src: Seq<char>, q: nat, q2: nat, l: nat)
    requires
        e is If,
        q <= q2,
    ensures
        ({
            let t = else_width(e, src, q, l, 2);
            let t2 = else_width(e, src, q2, l, 2);
            let b = arm_code(e->If_other, src, q + t, l);
            let b2 = arm_code(e->If_other, src, q2 + t2, l);
            &&& 2 <= t <= t2 <= 11
            &&& b.bytes.len() <= b2.bytes.len()
            &&& b.line == b2.line
        }),
    decreases e, 25nat,
{
    lemma_else_search(e, src, q, q2, l, 2);
    let t = else_width(e, src, q, l, 2);
    let t2 = else_width(e, src, q2, l, 2);
    lemma_arm_grows(e->If_other, src, q + t, q2 + t2, l);
}

/// The layout of a conditional is not shorter where the first arm stands
/// at a higher offset: neither what the first jump skips, nor what stands
/// behind its operand.
#[verifier::rlimit(30)]
#[verifier::spinoff_prover]
pub proof fn lemma_layout_grows(
    e: Expr,
    src: Seq<char>,
    p: nat,
    p_up: nat,
    lc: nat,
    l: nat,
    s: nat,
    s2: nat,
)
    requires
        e is If,
        p + s <= p_up + s2,
    ensures
        ({
            let y = if_layout(e, src, p, lc, l, s);
            let y2 = if_layout(e, src, p_up, lc, l, s2);
            &&& y.then_jump <= y2.then_jump
            &&& rest_len(y) <= rest_len(y2)
            &&& y.line == y2.line
            &&& 2 <= y.else_width <= 11
            &&& y.then_jump == y.then_arm.len() + 1 + y.else_width
        }),
    decreases e, 40nat,
{
    let a = arm_code(e->If_body, src, p + s, lc);
    let a2 = arm_code(e->If_body, src, p_up + s2, lc);
    lemma_arm_grows(e->If_body, src, p + s, p_up + s2, lc);
    let m = markers(a.line, l);
    let q = p + s + a.bytes.len() + m.len() + 1;
    let q2 = p_up + s2 + a2.bytes.len() + m.len() + 1;
    lemma_else_grows(e, src, q, q2, l);
    lemma_uint_grows(
        if_layout(e, src, p, lc, l, s).else_arm.len(),
        if_layout(e, src, p_up, lc, l, s2).else_arm.len(),
    );
}

/// The operand of the first jump of a conditional is not narrower at a
/// higher offset, for a search that starts at the same width.
#[verifier::rlimit(30)]
#[verifier::spinoff_prover]
pub proof fn lemma_then_search(e: Expr, src: Seq<char>, p: nat, p_up: nat, lc: nat, l: nat, k: nat)
    requires
        e is If,
        p <= p_up,
        2 <= k <= 11,
    ensures
        then_width(e, src, p, lc, l, k) <= then_width(e, src, p_up, lc, l, k),
        k <= then_width(e, src, p, lc, l, k) <= 11,
        k <= then_width(e, src, p_up, lc, l, k) <= 11,
    decreases e, (60 - k) as nat,
{
    if k < 11 {
        lemma_layout_grows(e, src, p, p_up, lc, l, k, k);
        lemma_len_monotone(
            if_layout(e, src, p, lc, l, k).then_jump,
            if_layout(e, src, p_up, lc, l, k).then_jump,
        );
        lemma_then_search(e, src, p, p_up, lc, l, k + 1);
    }
}

/// How long the code behind the opcode of a conditional's first jump is.
pub proof fn lemma_if_tail_len(e: Expr, src: Seq<char>, p: nat, lc: nat, l: nat, s: nat)
    requires
        e is If,
    ensures
        if_tail(e, src, p, lc, l, s).bytes.len() == uint_code(
            if_layout(e, src, p, lc, l, s).then_jump,
        ).len() + rest_len(if_layout(e, src, p, lc, l, s)),
        if_tail(e, src, p, lc, l, s).line == if_layout(e, src, p, lc, l, s).line,
{
}

/// What stands behind the opcode of a conditional's first jump is not
/// shorter at a higher offset.
#[verifier::rlimit(30)]
#[verifier::spinoff_prover]
pub proof fn lemma_if_tail_grows(e: Expr, src: Seq<char>, p: nat, p_up: nat, lc: nat, l: nat)
    requires
        e is If,
        p <= p_up,
    ensures
        ({
            let s = then_width(e, src, p, lc, l, 2);
            let s2 = then_width(e, src, p_up, lc, l, 2);
            &&& if_tail(e, src, p, lc, l, s).bytes.len() <= if_tail(
                e,
                src,
                p_up,
                lc,
                l,
                s2,
            ).bytes.len()
            &&& if_tail(e, src, p, lc, l, s).line == if_tail(e, src, p_up, lc, l, s2).line
        }),
    decreases e, 80nat,
{
    lemma_then_search(e, src, p, p_up, lc, l, 2);
    let s = then_width(e, src, p, lc, l, 2);
    let s2 = then_width(e, src, p_up, lc, l, 2);
    lemma_layout_grows(e, src, p, p_up, lc, l, s, s2);
    lemma_if_tail_len(e, src, p, lc, l, s);
    lemma_if_tail_len(e, src, p_up, lc, l, s2);
    lemma_uint_grows(
        if_layout(e, src, p, lc, l, s).then_jump,
        if_layout(e, src, p_up, lc, l, s2).then_jump,
    );
}

/// The operand of the jump out of a loop is not narrower at a higher
/// offset, for a search that starts at the same width.
#[verifier::rlimit(30)]
#[verifier::spinoff_prover]
pub proof fn lemma_while_search(
    e: Expr,
    src: Seq<char>,
    at: nat,
    at2: nat,
    p: nat,
    p_up: nat,
    lc: nat,
    k: nat,
)
    requires
        e is While,
        at <= at2,
        p <= p_up,
        2 <= k <= 11,
    ensures
        while_width(e, src, at, p, lc, k) <= while_width(e, src, at2, p_up, lc, k),
        k <= while_width(e, src, at, p, lc, k) <= 11,
        k <= while_width(e, src, at2, p_up, lc, k) <= 11,
    decreases e, (20 - k) as nat,
{
    if k < 11 {
        let body = e->While_body;
        lemma_block_grows(body, body.len(), src, p + k, p_up + k, lc);
        lemma_uint_grows(at, at2);
        lemma_len_monotone(
            while_jump(block_code(body, body.len(), src, p + k, lc).bytes.len(), at),
            while_jump(block_code(body, body.len(), src, p_up + k, lc).bytes.len(), at2),
        );
        lemma_while_search(e, src, at, at2, p, p_up, lc, k + 1);
    }
}

/// What stands behind the opcode of the jump out of a loop is not shorter
/// at a higher offset.
#[verifier::rlimit(30)]
#[verifier::spinoff_prover]
pub proof fn lemma_while_tail_grows(
    e: Expr,
    src: Seq<char>,
    at: nat,
    at2: nat,
    p: nat,
    p_up: nat,
    lc: nat,
)
    requires
        e is While,
        at <= at2,
        p <= p_up,
    ensures
        ({
            let s = while_width(e, src, at, p, lc, 2);
            let s2 = while_width(e, src, at2, p_up, lc, 2);
            &&& while_tail(e, src, at, p, lc, s).bytes.len() <= while_tail(
                e,
                src,
                at2,
                p_up,
                lc,
                s2,
            ).bytes.len()
            &&& while_tail(e, src, at, p, lc, s).line == while_tail(e, src, at2, p_up, lc, s2).line
        }),
    decreases e, 80nat,
{
    lemma_while_search(e, src, at, at2, p, p_up, lc, 2);
    let s = while_width(e, src, at, p, lc, 2);
    let s2 = while_width(e, src, at2, p_up, lc, 2);
    let body = e->While_body;
    lemma_block_grows(body, body.len(), src, p + s, p_up + s2, lc);
    lemma_uint_grows(at, at2);
    let b = block_code(body, body.len(), src, p + s, lc);
    let b2 = block_code(body, body.len(), src, p_up + s2, lc);
    lemma_uint_grows(while_jump(b.bytes.len(), at), while_jump(b2.bytes.len(), at2));
}


/// What the search for the width of a conditional's second jump does at
/// width `k`, and that the arm is not shorter behind a wider operand.
pub proof fn lemma_else_step(e: Expr, src: Seq<char>, q: nat, l: nat, k: nat)
    requires
        e is If,
        k >= 1,
    ensures
        else_search(e, src, q, l, k) == if k >= 11 {
            11
        } else if operand_fits(else_len(e, src, q + k, l), k) {
            k
        } else {
            else_search(e, src, q, l, k + 1)
        },
        else_len(e, src, (q + k - 1) as nat, l) <= else_len(e, src, q + k, l),
{
    reveal(else_len);
    reveal(else_search);
    lemma_arm_grows(e->If_other, src, (q + k - 1) as nat, q + k, l);
}

/// Where the search for the width of a conditional's second jump ends.
pub proof fn lemma_else_found(e: Expr, src: Seq<char>, q: nat, l: nat, t: nat)
    requires
        e is If,
        2 <= t <= 11,
        else_search(e, src, q, l, 2) == else_search(e, src, q, l, t),
        t >= 11 || operand_fits(else_len(e, src, q + t, l), t),
    ensures
        else_search(e, src, q, l, 2) == t,
        else_width(e, src, q, l, 2) == t,
        else_code(e, src, q, l) == else_attempt(e, src, q, l, t),
{
    lemma_else_step(e, src, q, l, t);
    reveal(else_search);
    reveal(else_code);
}

/// What an attempt at a conditional's second arm holds.
pub proof fn lemma_else_attempt(e: Expr, src: Seq<char>, q: nat, l: nat, t: nat)
    ensures
        else_len(e, src, q + t, l) == arm_code(e->If_other, src, q + t, l).bytes.len(),
        else_attempt(e, src, q, l, t).bytes == uint_code(else_len(e, src, q + t, l)) + arm_code(
            e->If_other,
            src,
            q + t,
            l,
        ).bytes,
        else_attempt(e, src, q, l, t).line == arm_code(e->If_other, src, q + t, l).line,
{
    reveal(else_len);
    reveal(else_attempt);
}

/// What the search for the width of a conditional's first jump does at
/// width `k`, and that the jump does not skip less behind a wider operand.
pub proof fn lemma_then_step(e: Expr, src: Seq<char>, p: nat, lc: nat, l: nat, k: nat)
    requires
        e is If,
        k >= 1,
    ensures
        then_search(e, src, p, lc, l, k) == if k >= 11 {
            11
        } else if operand_fits(then_len(e, src, p, lc, l, k), k) {
            k
        } else {
            then_search(e, src, p, lc, l, k + 1)
        },
        then_len(e, src, p, lc, l, (k - 1) as nat) <= then_len(e, src, p, lc, l, k),
{
    reveal(then_len);
    reveal(then_search);
    lemma_layout_grows(e, src, p, p, lc, l, (k - 1) as nat, k);
}

/// Where the search for the width of a conditional's first jump ends.
pub proof fn lemma_then_found(e: Expr, src: Seq<char>, p: nat, lc: nat, l: nat, s: nat)
    requires
        e is If,
        2 <= s <= 11,
        then_search(e, src, p, lc, l, 2) == then_search(e, src, p, lc, l, s),
        s >= 11 || operand_fits(then_len(e, src, p, lc, l, s), s),
    ensures
        then_width(e, src, p, lc, l, 2) == s,
        if_tail(e, src, p, lc, l, s) == if_attempt(e, src, p, lc, l, s),
{
    lemma_then_step(e, src, p, lc, l, s);
    reveal(then_search);
    reveal(if_attempt);
}

/// The pieces of a conditional, grouped behind the first operand.
proof fn lemma_regroup(a: Seq<u8>, b: Seq<u8>, c: Seq<u8>, d: Seq<u8>, f: Seq<u8>, g: Seq<u8>)
    ensures
        a + (b + c) + d + f + g == a + ((b + c + d) + (f + g)),
{
    assert(a + (b + c) + d + f + g =~= a + ((b + c + d) + (f + g)));
}

/// What an attempt at a conditional holds behind the opcode of the first
/// jump: the jump's operand, the first arm up to the second jump's opcode,
/// and the second arm behind it.
#[verifier::rlimit(30)]
#[verifier::spinoff_prover]
pub proof fn lemma_if_parts(e: Expr, src: Seq<char>, p: nat, lc: nat, l: nat, s: nat)
    requires
        e is If,
    ensures
        ({
            let tc = then_code(e, src, p + s, lc, l);
            let q = p + s + tc.bytes.len();
            let ec = else_code(e, src, q, l);
            &&& then_len(e, src, p, lc, l, s) == tc.bytes.len() + else_search(e, src, q, l, 2)
            &&& if_attempt(e, src, p, lc, l, s).bytes == uint_code(then_len(e, src, p, lc, l, s))
                + (tc.bytes + ec.bytes)
            &&& if_attempt(e, src, p, lc, l, s).line == ec.line
        }),
{
    reveal(then_code);
    reveal(else_code);
    reveal(else_attempt);
    reveal(else_search);
    reveal(then_len);
    reveal(if_attempt);
    let a = arm_code(e->If_body, src, p + s, lc);
    let m = markers(a.line, l);
    let tc = then_code(e, src, p + s, lc, l);
    let q = p + s + tc.bytes.len();
    assert(q == p + s + a.bytes.len() + m.len() + 1);
    let w = else_width(e, src, q, l, 2);
    let b = arm_code(e->If_other, src, q + w, l);
    let y = if_layout(e, src, p, lc, l, s);
    assert(y.else_width == w);
    assert(y.then_arm == a.bytes + m);
    assert(y.else_arm == b.bytes);
    lemma_regroup(
        uint_code(y.then_jump),
        a.bytes,
        m,
        seq![Grammar::Jump.byte()],
        uint_code(b.bytes.len()),
        b.bytes,
    );
}

/// What the search for the width of the jump out of a loop does at width
/// `k`, and that the jump does not skip less behind a wider operand.
pub proof fn lemma_exit_step(e: Expr, src: Seq<char>, at: nat, p: nat, lc: nat, k: nat)
    requires
        e is While,
        k >= 1,
    ensures
        exit_search(e, src, at, p, lc, k) == if k >= 11 {
            11
        } else if operand_fits(exit_len(e, src, at, p, lc, k), k) {
            k
        } else {
            exit_search(e, src, at, p, lc, k + 1)
        },
        exit_len(e, src, at, p, lc, (k - 1) as nat) <= exit_len(e, src, at, p, lc, k),
{
    reveal(exit_len);
    reveal(exit_search);
    lemma_block_grows(
        e->While_body,
        e->While_body.len(),
        src,
        (p + k - 1) as nat,
        p + k,
        lc,
    );
}

/// Where the search for the width of the jump out of a loop ends.
pub proof fn lemma_exit_found(e: Expr, src: Seq<char>, at: nat, p: nat, lc: nat, s: nat)
    requires
        e is While,
        2 <= s <= 11,
        exit_search(e, src, at, p, lc, 2) == exit_search(e, src, at, p, lc, s),
        s >= 11 || operand_fits(exit_len(e, src, at, p, lc, s), s),
    ensures
        while_width(e, src, at, p, lc, 2) == s,
        while_tail(e, src, at, p, lc, s) == exit_attempt(e, src, at, p, lc, s),
{
    lemma_exit_step(e, src, at, p, lc, s);
    reveal(exit_search);
    reveal(exit_attempt);
}

/// What an attempt at a loop holds behind the opcode of the jump out.
pub proof fn lemma_exit_attempt(e: Expr, src: Seq<char>, at: nat, p: nat, lc: nat, s: nat)
    requires
        e is While,
    ensures
        ({
            let b = block_code(e->While_body, e->While_body.len(), src, p + s, lc);
            &&& exit_len(e, src, at, p, lc, s) == while_jump(b.bytes.len(), at)
            &&& exit_attempt(e, src, at, p, lc, s).bytes == uint_code(
                exit_len(e, src, at, p, lc, s),
            ) + b.bytes + seq![Grammar::JumpTo.byte()] + uint_code(at)
            &&& exit_attempt(e, src, at, p, lc, s).line == b.line
        }),
{
    reveal(exit_len);
    reveal(exit_attempt);
}

/// A distance that fits in 64 bits fits an operand of 11 bytes.
proof fn lemma_widest_fits(d: nat)
    requires
        d <= u64::MAX,
    ensures
        operand_fits(d, 11),
{
    lemma_len_u64(d as u64);
}

/// The operand of a conditional's second jump takes exactly the width
/// behind which its arm stands, for a search from width `k` before which
/// no width was enough.
#[verifier::rlimit(30)]
#[verifier::spinoff_prover]
pub proof fn lemma_else_exact(e: Expr, src: Seq<char>, q: nat, l: nat, k: nat)
    requires
        e is If,
        2 <= k <= 11,
        k == 2 || !operand_fits(else_len(e, src, (q + k - 1) as nat, l), (k - 1) as nat),
        else_len(e, src, q + else_search(e, src, q, l, k), l) <= u64::MAX,
    ensures
        uint_code(else_len(e, src, q + else_search(e, src, q, l, k), l)).len() == else_search(
            e,
            src,
            q,
            l,
            k,
        ),
    decreases 11 - k,
{
    let d = else_len(e, src, q + k, l);
    let before = else_len(e, src, (q + k - 1) as nat, l);
    lemma_else_step(e, src, q, l, k);
    if k >= 11 {
        lemma_widest_fits(d);
        lemma_exact_width(before, d, k);
    } else if operand_fits(d, k) {
        lemma_exact_width(before, d, k);
    } else {
        lemma_else_exact(e, src, q, l, k + 1);
    }
}

/// The operand of a conditional's first jump takes exactly the width
/// behind which the first arm stands, for a search from width `k` before
/// which no width was enough.
#[verifier::rlimit(30)]
#[verifier::spinoff_prover]
pub proof fn lemma_then_exact(e: Expr, src: Seq<char>, p: nat, lc: nat, l: nat, k: nat)
    requires
        e is If,
        2 <= k <= 11,
        k == 2 || !operand_fits(then_len(e, src, p, lc, l, (k - 1) as nat), (k - 1) as nat),
        then_len(e, src, p, lc, l, then_search(e, src, p, lc, l, k)) <= u64::MAX,
    ensures
        uint_code(then_len(e, src, p, lc, l, then_search(e, src, p, lc, l, k))).len()
            == then_search(e, src, p, lc, l, k),
    decreases 11 - k,
{
    let d = then_len(e, src, p, lc, l, k);
    let before = then_len(e, src, p, lc, l, (k - 1) as nat);
    lemma_then_step(e, src, p, lc, l, k);
    if k >= 11 {
        lemma_widest_fits(d);
        lemma_exact_width(before, d, k);
    } else if operand_fits(d, k) {
        lemma_exact_width(before, d, k);
    } else {
        lemma_then_exact(e, src, p, lc, l, k + 1);
    }
}

/// The operand of the jump out of a loop takes exactly the width behind
/// which the body stands, for a search from width `k` before which no
/// width was enough.
#[verifier::rlimit(30)]
#[verifier::spinoff_prover]
pub proof fn lemma_exit_exact(e: Expr, src: Seq<char>, at: nat, p: nat, lc: nat, k: nat)
    requires
        e is While,
        2 <= k <= 11,
        k == 2 || !operand_fits(exit_len(e, src, at, p, lc, (k - 1) as nat), (k - 1) as nat),
        exit_len(e, src, at, p, lc, exit_search(e, src, at, p, lc, k)) <= u64::MAX,
    ensures
        uint_code(exit_len(e, src, at, p, lc, exit_search(e, src, at, p, lc, k))).len()
            == exit_search(e, src, at, p, lc, k),
    decreases 11 - k,
{
    let d = exit_len(e, src, at, p, lc, k);
    let before = exit_len(e, src, at, p, lc, (k - 1) as nat);
    lemma_exit_step(e, src, at, p, lc, k);
    if k >= 11 {
        lemma_widest_fits(d);
        lemma_exact_width(before, d, k);
    } else if operand_fits(d, k) {
        lemma_exact_width(before, d, k);
    } else {
        lemma_exit_exact(e, src, at, p, lc, k + 1);
    }
}

/// The code of a conditional is laid out as it is written: each jump's
/// operand takes exactly the bytes behind which the code that follows it
/// was placed, provided the code fits in 64 bits.
#[verifier::rlimit(30)]
#[verifier::spinoff_prover]
pub proof fn lemma_conditional_layout(e: Expr, src: Seq<char>, p: nat, lc: nat, l: nat)
    requires
        e is If,
        if_tail(e, src, p, lc, l, then_width(e, src, p, lc, l, 2)).bytes.len() <= u64::MAX,
    ensures
        ({
            let s = then_width(e, src, p, lc, l, 2);
            let y = if_layout(e, src, p, lc, l, s);
            &&& uint_code(y.then_jump).len() == s
            &&& uint_code(y.else_arm.len()).len() == y.else_width
        }),
{
    let s = then_width(e, src, p, lc, l, 2);
    let y = if_layout(e, src, p, lc, l, s);
    lemma_if_tail_len(e, src, p, lc, l, s);
    let a = arm_code(e->If_body, src, p + s, lc);
    let q = p + s + a.bytes.len() + markers(a.line, l).len() + 1;
    assert(y.else_width == else_search(e, src, q, l, 2)) by {
        reveal(else_search);
    }
    assert(y.else_arm.len() == else_len(e, src, q + y.else_width, l)) by {
        reveal(else_len);
    }
    assert(s == then_search(e, src, p, lc, l, 2)) by {
        reveal(then_search);
    }
    assert(y.then_jump == then_len(e, src, p, lc, l, s)) by {
        reveal(then_len);
    }
    lemma_else_exact(e, src, q, l, 2);
    lemma_then_exact(e, src, p, lc, l, 2);
}

/// The code of a loop is laid out as it is written: the operand of the
/// jump out takes exactly the bytes behind which the body was placed,
/// provided the code fits in 64 bits.
pub proof fn lemma_loop_layout(e: Expr, src: Seq<char>, at: nat, p: nat, lc: nat)
    requires
        e is While,
        while_tail(e, src, at, p, lc, while_width(e, src, at, p, lc, 2)).bytes.len() <= u64::MAX,
    ensures
        ({
            let s = while_width(e, src, at, p, lc, 2);
            let b = block_code(e->While_body, e->While_body.len(), src, p + s, lc);
            uint_code(while_jump(b.bytes.len(), at)).len() == s
        }),
{
    let s = while_width(e, src, at, p, lc, 2);
    let b = block_code(e->While_body, e->While_body.len(), src, p + s, lc);
    assert(while_jump(b.bytes.len(), at) == exit_len(e, src, at, p, lc, s)) by {
        reveal(exit_len);
    }
    assert(s == exit_search(e, src, at, p, lc, 2)) by {
        reveal(exit_search);
    }
    lemma_exit_exact(e, src, at, p, lc, 2);
}

/// The bytes of a conditional, in order.
proof fn lemma_if_shape(a: Seq<u8>, u: Seq<u8>, x: Seq<u8>, j: u8, v: Seq<u8>, y: Seq<u8>)
    ensures
        ({
            let code = a + (u + x + seq![j] + v + y);
            &&& code.len() == a.len() + u.len() + x.len() + 1 + v.len() + y.len()
            &&& code[(a.len() + u.len() + x.len()) as int] == j
        }),
{
}

/// The bytes of a loop, in order.
proof fn lemma_loop_shape(a: Seq<u8>, u: Seq<u8>, b: Seq<u8>, j: u8, v: Seq<u8>, n: u8)
    ensures
        ({
            let code = a + (u + b + seq![j] + v) + seq![n];
            &&& code.len() == a.len() + u.len() + b.len() + 1 + v.len() + 1
            &&& code[(a.len() + u.len() + b.len()) as int] == j
            &&& code[code.len() - 1] == n
            &&& code.subrange((a.len() + u.len() + b.len() + 1) as int, code.len() - 1) == v
        }),
{
    let code = a + (u + b + seq![j] + v) + seq![n];
    assert(code.subrange((a.len() + u.len() + b.len() + 1) as int, code.len() - 1) =~= v);
}

/// Behind the opcode of a conditional's first jump: the jump's operand and
/// what it skips end where the second arm starts, and the second jump's
/// opcode stands behind the first arm.
#[verifier::rlimit(30)]
#[verifier::spinoff_prover]
pub proof fn lemma_if_tail_jumps(e: Expr, src: Seq<char>, p: nat, lc: nat, l: nat)
    requires
        e is If,
        if_tail(e, src, p, lc, l, then_width(e, src, p, lc, l, 2)).bytes.len() <= u64::MAX,
    ensures
        ({
            let y = if_layout(e, src, p, lc, l, then_width(e, src, p, lc, l, 2));
            let tail = if_tail(e, src, p, lc, l, then_width(e, src, p, lc, l, 2)).bytes;
            let first = uint_code(y.then_jump).len();
            &&& first + y.then_jump + y.else_arm.len() == tail.len()
            &&& tail[(first + y.then_arm.len()) as int] == Grammar::Jump.byte()
            &&& y.then_jump == y.then_arm.len() + 1 + uint_code(y.else_arm.len()).len()
        }),
{
    let s = then_width(e, src, p, lc, l, 2);
    let y = if_layout(e, src, p, lc, l, s);
    lemma_conditional_layout(e, src, p, lc, l);
    assert(y.then_jump == y.then_arm.len() + 1 + y.else_width) by {
        lemma_layout_grows(e, src, p, p, lc, l, s, s);
    }
    lemma_if_shape(
        Seq::empty(),
        uint_code(y.then_jump),
        y.then_arm,
        Grammar::Jump.byte(),
        uint_code(y.else_arm.len()),
        y.else_arm,
    );
    let inner = uint_code(y.then_jump) + y.then_arm + seq![Grammar::Jump.byte()] + uint_code(
        y.else_arm.len(),
    ) + y.else_arm;
    assert(Seq::<u8>::empty() + inner =~= inner);
}

/// A conditional always yields a value. Its first jump, taken where the
/// condition is false, lands on the first byte of the second arm; its
/// second jump, taken behind the first arm, lands behind the second arm,
/// at the end of the conditional's code. Either way the machine has run
/// one of the arms, and each arm leaves a value.
#[verifier::rlimit(30)]
#[verifier::spinoff_prover]
pub proof fn lemma_conditional_jumps(e: Expr, src: Seq<char>, at: nat, line: nat)
    requires
        e is If,
        expr_code(e, src, at, line).bytes.len() <= u64::MAX,
    ensures
        ({
            let l = line_of(src, e->If_pos.start as nat);
            let pre = markers(line, l);
            let c = expr_code(*e->If_cond, src, at + pre.len(), l);
            let p = at + pre.len() + c.bytes.len() + 1;
            let y = if_layout(e, src, p, c.line, l, then_width(e, src, p, c.line, l, 2));
            let code = expr_code(e, src, at, line).bytes;
            let then_arm = pre.len() + c.bytes.len() + 1 + uint_code(y.then_jump).len();
            let else_arm = then_arm + y.then_jump;
            &&& else_arm + y.else_arm.len() == code.len()
            &&& code[(then_arm + y.then_arm.len()) as int] == Grammar::Jump.byte()
            &&& else_arm == then_arm + y.then_arm.len() + 1 + uint_code(y.else_arm.len()).len()
        }),
{
    let l = line_of(src, e->If_pos.start as nat);
    let pre = markers(line, l);
    let c = expr_code(*e->If_cond, src, at + pre.len(), l);
    let p = at + pre.len() + c.bytes.len() + 1;
    let s = then_width(e, src, p, c.line, l, 2);
    let head = pre + c.bytes + seq![Grammar::JumpIfFalse.byte()];
    let tail = if_tail(e, src, p, c.line, l, s).bytes;
    assert(expr_code(e, src, at, line).bytes == head + tail);
    lemma_if_tail_jumps(e, src, p, c.line, l);
}

/// A loop always yields a value: the jump out, taken where the condition
/// is false, lands on the `Null` that ends the loop's code, and the jump
/// back to the loop's first byte stands right before that `Null`.
#[verifier::rlimit(30)]
#[verifier::spinoff_prover]
pub proof fn lemma_loop_jumps(e: Expr, src: Seq<char>, at: nat, line: nat)
    requires
        e is While,
    ensures
        ({
            let l = line_of(src, e->While_pos.start as nat);
            let pre = markers(line, l);
            let c = expr_code(*e->While_cond, src, at + pre.len(), l);
            let p = at + pre.len() + c.bytes.len() + 1;
            let s = while_width(e, src, at, p, c.line, 2);
            let b = block_code(e->While_body, e->While_body.len(), src, p + s, c.line);
            let d = while_jump(b.bytes.len(), at);
            let code = expr_code(e, src, at, line).bytes;
            let behind = pre.len() + c.bytes.len() + 1 + uint_code(d).len();
            &&& behind + d == code.len() - 1
            &&& code[(behind + d) as int] == Grammar::Null.byte()
            &&& code[(behind + b.bytes.len()) as int] == Grammar::JumpTo.byte()
            &&& code.subrange((behind + b.bytes.len() + 1) as int, code.len() - 1) == uint_code(
                at,
            )
        }),
{
    let l = line_of(src, e->While_pos.start as nat);
    let pre = markers(line, l);
    let c = expr_code(*e->While_cond, src, at + pre.len(), l);
    let p = at + pre.len() + c.bytes.len() + 1;
    let s = while_width(e, src, at, p, c.line, 2);
    let b = block_code(e->While_body, e->While_body.len(), src, p + s, c.line);
    let d = while_jump(b.bytes.len(), at);
    let head = pre + c.bytes + seq![Grammar::JumpIfFalse.byte()];
    let tail = while_tail(e, src, at, p, c.line, s);
    assert(expr_code(e, src, at, line).bytes == head + tail.bytes + seq![Grammar::Null.byte()]);
    assert(tail.bytes == uint_code(d) + b.bytes + seq![Grammar::JumpTo.byte()] + uint_code(at));
    lemma_loop_shape(
        head,
        uint_code(d),
        b.bytes,
        Grammar::JumpTo.byte(),
        uint_code(at),
        Grammar::Null.byte(),
    );
}

} // verus!
