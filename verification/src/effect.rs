//! Runs of the machine through a range of its bytecode, and what each
//! instruction that the compiler emits does to the stack.

use vstd::prelude::*;
use vstd::utf8::{encode_utf8, encode_utf8_decode_utf8, encode_utf8_valid_utf8};
use crate::builtin_types::null::null_view;
use crate::compiler::{markers, names_code, string_code, uint_code};
use crate::grammar::Grammar;
use crate::jumps::{holds, lemma_operand_read};
use crate::layout::lemma_uint_len;
use crate::vm::{Machine, popped, read_text, read_texts, step, step_call, step_function};

verus! {

/// Where a run ended, and the instructions that it may still run.
pub struct Reached {
    pub machine: Machine,
    pub fuel: nat,
}

/// The machine that `m` becomes when it runs until its input pointer
/// leaves the offsets from `lo` up to `hi`, and the instructions it may
/// still run of `fuel`. `None` where an instruction fails or where `fuel`
/// instructions are not enough.
pub open spec fn reach(m: Machine, lo: int, hi: int, fuel: nat) -> Option<Reached>
    decreases fuel,
{
    if !(lo <= m.ip < hi) {
        Some(Reached { machine: m, fuel: fuel })
    } else if fuel == 0 {
        None
    } else {
        match step(m) {
            Ok(next) => reach(next, lo, hi, (fuel - 1) as nat),
            Err(_) => None,
        }
    }
}

/// Whether `after` is `before` at offset `end` with `down` values taken
/// from the stack and `up` values pushed, and what lay under them as it was.
pub open spec fn moved(before: Machine, after: Machine, end: int, down: nat, up: nat) -> bool {
    &&& after.ip == end
    &&& after.source == before.source
    &&& before.stack.len() >= down
    &&& after.stack.len() == before.stack.len() - down + up
    &&& after.stack.take(before.stack.len() - down) == before.stack.take(
        before.stack.len() - down,
    )
}

/// Whether `after` is `before` at offset `end` with `up` values more on
/// the stack.
pub open spec fn pushed(before: Machine, after: Machine, end: int, up: nat) -> bool {
    moved(before, after, end, 0, up)
}

/// Effects add up: values pushed, then some of them taken and others
/// pushed.
pub proof fn lemma_moves(
    a: Machine,
    b: Machine,
    c: Machine,
    mid: int,
    end: int,
    up: nat,
    down: nat,
    more: nat,
)
    requires
        pushed(a, b, mid, up),
        moved(b, c, end, down, more),
        down <= up,
    ensures
        pushed(a, c, end, (up - down + more) as nat),
{
    let n = a.stack.len() as int;
    assert(c.stack.take(n) =~= a.stack.take(n)) by {
        assert forall|i: int| 0 <= i < n implies c.stack[i] == a.stack[i] by {
            assert(c.stack.take(b.stack.len() - down)[i] == b.stack.take(b.stack.len() - down)[i]);
            assert(b.stack.take(n)[i] == a.stack.take(n)[i]);
        }
    }
}

/// A machine that has not moved has pushed nothing.
pub proof fn lemma_still(m: Machine)
    ensures
        pushed(m, m, m.ip, 0),
{
}

/// A run through a range goes through each range inside it: it is the run
/// through the inner range, and then the run from where that one ends.
pub proof fn lemma_reach_inside(m: Machine, lo: int, hi: int, a: int, b: int, fuel: nat)
    requires
        lo <= a,
        b <= hi,
    ensures
        reach(m, lo, hi, fuel) == match reach(m, a, b, fuel) {
            Some(r) => reach(r.machine, lo, hi, r.fuel),
            None => None,
        },
        reach(m, a, b, fuel) is Some ==> reach(m, a, b, fuel).unwrap().fuel <= fuel,
    decreases fuel,
{
    if a <= m.ip < b && fuel > 0 {
        match step(m) {
            Ok(next) => {
                lemma_reach_inside(next, lo, hi, a, b, (fuel - 1) as nat);
            },
            Err(_) => {},
        }
    }
}

/// The next part of a run: where a run through a range does not fail, the
/// run through a range inside it does not fail either, and the whole run
/// goes on from where it ends.
pub proof fn lemma_next_part(m: Machine, lo: int, hi: int, a: int, b: int, fuel: nat)
    requires
        lo <= a,
        b <= hi,
        reach(m, lo, hi, fuel) is Some,
    ensures
        reach(m, a, b, fuel) is Some,
        reach(m, a, b, fuel).unwrap().fuel <= fuel,
        reach(
            reach(m, a, b, fuel).unwrap().machine,
            lo,
            hi,
            reach(m, a, b, fuel).unwrap().fuel,
        ) == reach(m, lo, hi, fuel),
{
    lemma_reach_inside(m, lo, hi, a, b, fuel);
}

/// One instruction: where the machine stands on an instruction inside the
/// range that takes it out of the range, the run through the range is
/// that instruction.
pub proof fn lemma_one_step(m: Machine, lo: int, hi: int, fuel: nat)
    requires
        lo <= m.ip < hi,
        reach(m, lo, hi, fuel) is Some,
        step(m) is Ok ==> !(lo <= step(m)->Ok_0.ip < hi),
    ensures
        fuel > 0,
        step(m) is Ok,
        reach(m, lo, hi, fuel) == Some(
            Reached { machine: step(m)->Ok_0, fuel: (fuel - 1) as nat },
        ),
{
    if fuel > 0 && step(m) is Ok {
        assert(reach(step(m)->Ok_0, lo, hi, (fuel - 1) as nat) == Some(
            Reached { machine: step(m)->Ok_0, fuel: (fuel - 1) as nat },
        ));
    }
}

/// Bytecode that holds two pieces of code one behind the other holds each
/// of them.
pub proof fn lemma_split(source: Seq<u8>, at: nat, x: Seq<u8>, y: Seq<u8>)
    requires
        holds(source, at, x + y),
    ensures
        holds(source, at, x),
        holds(source, at + x.len(), y),
{
    reveal(holds);
    let whole = source.subrange(at as int, (at + (x + y).len()) as int);
    assert(source.subrange(at as int, (at + x.len()) as int) =~= x) by {
        assert forall|i: int| 0 <= i < x.len() implies source[at + i] == x[i] by {
            assert(whole[i] == (x + y)[i]);
        }
    }
    assert(source.subrange((at + x.len()) as int, (at + x.len() + y.len()) as int) =~= y) by {
        assert forall|i: int| 0 <= i < y.len() implies source[at + x.len() + i] == y[i] by {
            assert(whole[x.len() + i] == (x + y)[x.len() + i]);
        }
    }
}

/// The byte at the start of code that the bytecode holds.
pub proof fn lemma_first_byte(source: Seq<u8>, at: nat, code: Seq<u8>)
    requires
        holds(source, at, code),
        code.len() > 0,
    ensures
        source[at as int] == code[0],
{
    reveal(holds);
    assert(source.subrange(at as int, (at + code.len()) as int)[0] == code[0]);
}

/// A string operand that stands in the bytecode is read as its text.
pub proof fn lemma_text_read(source: Seq<u8>, ip: int, s: Seq<char>)
    requires
        0 <= ip,
        holds(source, ip as nat, string_code(s)),
    ensures
        read_text(source, ip) == Ok::<(Seq<char>, int), Seq<char>>(
            (s, ip + string_code(s).len()),
        ),
{
    reveal(holds);
    let bytes = encode_utf8(s);
    let n = bytes.len();
    lemma_split(source, ip as nat, uint_code(n), bytes);
    lemma_uint_len(n);
    lemma_operand_read(source, ip, n);
    encode_utf8_valid_utf8(s);
    encode_utf8_decode_utf8(s);
}

/// One instruction that is `len` bytes long and goes on behind itself.
proof fn lemma_instruction(m: Machine, len: int, fuel: nat)
    requires
        len > 0,
        reach(m, m.ip, m.ip + len, fuel) is Some,
        step(m) is Ok ==> step(m)->Ok_0.ip == m.ip + len,
    ensures
        fuel > 0,
        step(m) is Ok,
        reach(m, m.ip, m.ip + len, fuel) == Some(
            Reached { machine: step(m)->Ok_0, fuel: (fuel - 1) as nat },
        ),
{
    lemma_one_step(m, m.ip, m.ip + len, fuel);
}

/// A run of line markers moves the line and nothing on the stack.
#[verifier::rlimit(30)]
#[verifier::spinoff_prover]
pub proof fn lemma_run_markers(m: Machine, at: nat, n: nat, fuel: nat)
    requires
        at + n <= m.source.len(),
        at <= m.ip <= at + n,
        forall|i: int|
            at <= i < at + n ==> m.source[i] == Grammar::Advance.byte() || m.source[i]
                == Grammar::Back.byte(),
        reach(m, at as int, (at + n) as int, fuel) is Some,
    ensures
        pushed(m, reach(m, at as int, (at + n) as int, fuel).unwrap().machine, (at + n) as int, 0),
        reach(m, at as int, (at + n) as int, fuel).unwrap().fuel <= fuel,
    decreases at + n - m.ip,
{
    if m.ip < at + n {
        let next = step(m)->Ok_0;
        assert(step(m) is Ok && next.ip == m.ip + 1 && next.stack == m.stack && next.source
            == m.source);
        lemma_run_markers(next, at, n, (fuel - 1) as nat);
        let last = reach(next, at as int, (at + n) as int, (fuel - 1) as nat).unwrap().machine;
        assert(last.stack.take(m.stack.len() as int) == m.stack.take(m.stack.len() as int));
    }
}

/// The markers from one line to another move the line and nothing on the
/// stack.
#[verifier::rlimit(30)]
#[verifier::spinoff_prover]
pub proof fn lemma_markers(m: Machine, from: nat, to: nat, fuel: nat)
    requires
        m.ip >= 0,
        holds(m.source, m.ip as nat, markers(from, to)),
        reach(m, m.ip, m.ip + markers(from, to).len(), fuel) is Some,
    ensures
        pushed(
            m,
            reach(m, m.ip, m.ip + markers(from, to).len(), fuel).unwrap().machine,
            m.ip + markers(from, to).len(),
            0,
        ),
        reach(m, m.ip, m.ip + markers(from, to).len(), fuel).unwrap().fuel <= fuel,
{
    reveal(holds);
    let code = markers(from, to);
    assert forall|i: int| m.ip <= i < m.ip + code.len() implies m.source[i]
        == Grammar::Advance.byte() || m.source[i] == Grammar::Back.byte() by {
        assert(m.source.subrange(m.ip, m.ip + code.len())[i - m.ip] == code[i - m.ip]);
    }
    lemma_run_markers(m, m.ip as nat, code.len(), fuel);
}

/// `Integer` pushes one value.
#[verifier::rlimit(30)]
#[verifier::spinoff_prover]
pub proof fn lemma_integer(m: Machine, v: u64, fuel: nat)
    requires
        0 <= m.ip < m.source.len(),
        m.source[m.ip] == Grammar::Integer.byte(),
        holds(m.source, (m.ip + 1) as nat, uint_code(v as nat)),
        reach(m, m.ip, m.ip + 1 + uint_code(v as nat).len(), fuel) is Some,
    ensures
        moved(
            m,
            reach(m, m.ip, m.ip + 1 + uint_code(v as nat).len(), fuel).unwrap().machine,
            m.ip + 1 + uint_code(v as nat).len(),
            0,
            1,
        ),
        reach(m, m.ip, m.ip + 1 + uint_code(v as nat).len(), fuel).unwrap().fuel < fuel,
{
    reveal(holds);
    lemma_operand_read(m.source, m.ip + 1, v as nat);
    lemma_instruction(m, (1 + uint_code(v as nat).len()) as int, fuel);
    let after = step(m)->Ok_0;
    let keep = m.stack.len() - 0;
    assert(after.stack.take(keep) =~= m.stack.take(keep));
}

/// `String` pushes one value.
#[verifier::rlimit(30)]
#[verifier::spinoff_prover]
pub proof fn lemma_string(m: Machine, text: Seq<char>, fuel: nat)
    requires
        0 <= m.ip < m.source.len(),
        m.source[m.ip] == Grammar::String.byte(),
        holds(m.source, (m.ip + 1) as nat, string_code(text)),
        reach(m, m.ip, m.ip + 1 + string_code(text).len(), fuel) is Some,
    ensures
        moved(
            m,
            reach(m, m.ip, m.ip + 1 + string_code(text).len(), fuel).unwrap().machine,
            m.ip + 1 + string_code(text).len(),
            0,
            1,
        ),
        reach(m, m.ip, m.ip + 1 + string_code(text).len(), fuel).unwrap().fuel < fuel,
{
    reveal(holds);
    lemma_text_read(m.source, m.ip + 1, text);
    lemma_instruction(m, (1 + string_code(text).len()) as int, fuel);
    let after = step(m)->Ok_0;
    let keep = m.stack.len() - 0;
    assert(after.stack.take(keep) =~= m.stack.take(keep));
}

/// `Null` pushes one value, which is null.
#[verifier::rlimit(30)]
#[verifier::spinoff_prover]
pub proof fn lemma_null(m: Machine, fuel: nat)
    requires
        0 <= m.ip < m.source.len(),
        m.source[m.ip] == Grammar::Null.byte(),
        reach(m, m.ip, m.ip + 1, fuel) is Some,
    ensures
        moved(
            m,
            reach(m, m.ip, m.ip + 1, fuel).unwrap().machine,
            m.ip + 1,
            0,
            1,
        ),
        reach(m, m.ip, m.ip + 1, fuel).unwrap().machine.stack.last() == null_view(),
        reach(m, m.ip, m.ip + 1, fuel).unwrap().fuel < fuel,
{
    lemma_instruction(m, 1, fuel);
    let after = step(m)->Ok_0;
    let keep = m.stack.len() - 0;
    assert(after.stack.take(keep) =~= m.stack.take(keep));
}

/// `Getvar` pushes one value.
#[verifier::rlimit(30)]
#[verifier::spinoff_prover]
pub proof fn lemma_getvar(m: Machine, name: Seq<char>, fuel: nat)
    requires
        0 <= m.ip < m.source.len(),
        m.source[m.ip] == Grammar::Getvar.byte(),
        holds(m.source, (m.ip + 1) as nat, string_code(name)),
        reach(m, m.ip, m.ip + 1 + string_code(name).len(), fuel) is Some,
    ensures
        moved(
            m,
            reach(m, m.ip, m.ip + 1 + string_code(name).len(), fuel).unwrap().machine,
            m.ip + 1 + string_code(name).len(),
            0,
            1,
        ),
        reach(m, m.ip, m.ip + 1 + string_code(name).len(), fuel).unwrap().fuel < fuel,
{
    reveal(holds);
    lemma_text_read(m.source, m.ip + 1, name);
    lemma_instruction(m, (1 + string_code(name).len()) as int, fuel);
    let after = step(m)->Ok_0;
    let keep = m.stack.len() - 0;
    assert(after.stack.take(keep) =~= m.stack.take(keep));
}

/// `Setvar` leaves the value that it binds on the stack.
#[verifier::rlimit(30)]
#[verifier::spinoff_prover]
pub proof fn lemma_setvar(m: Machine, name: Seq<char>, fuel: nat)
    requires
        0 <= m.ip < m.source.len(),
        m.source[m.ip] == Grammar::Setvar.byte(),
        holds(m.source, (m.ip + 1) as nat, string_code(name)),
        reach(m, m.ip, m.ip + 1 + string_code(name).len(), fuel) is Some,
    ensures
        moved(
            m,
            reach(m, m.ip, m.ip + 1 + string_code(name).len(), fuel).unwrap().machine,
            m.ip + 1 + string_code(name).len(),
            1,
            1,
        ),
        reach(m, m.ip, m.ip + 1 + string_code(name).len(), fuel).unwrap().fuel < fuel,
{
    reveal(holds);
    lemma_text_read(m.source, m.ip + 1, name);
    lemma_instruction(m, (1 + string_code(name).len()) as int, fuel);
    let after = step(m)->Ok_0;
    let keep = m.stack.len() - 1;
    assert(after.stack.take(keep) =~= m.stack.take(keep));
}

/// `GetInstance` takes one value and pushes one.
#[verifier::rlimit(30)]
#[verifier::spinoff_prover]
pub proof fn lemma_get_instance(m: Machine, name: Seq<char>, fuel: nat)
    requires
        0 <= m.ip < m.source.len(),
        m.source[m.ip] == Grammar::GetInstance.byte(),
        holds(m.source, (m.ip + 1) as nat, string_code(name)),
        reach(m, m.ip, m.ip + 1 + string_code(name).len(), fuel) is Some,
    ensures
        moved(
            m,
            reach(m, m.ip, m.ip + 1 + string_code(name).len(), fuel).unwrap().machine,
            m.ip + 1 + string_code(name).len(),
            1,
            1,
        ),
        reach(m, m.ip, m.ip + 1 + string_code(name).len(), fuel).unwrap().fuel < fuel,
{
    reveal(holds);
    lemma_text_read(m.source, m.ip + 1, name);
    lemma_instruction(m, (1 + string_code(name).len()) as int, fuel);
    let after = step(m)->Ok_0;
    let keep = m.stack.len() - 1;
    assert(after.stack.take(keep) =~= m.stack.take(keep));
}

/// `Pop` takes one value.
#[verifier::rlimit(30)]
#[verifier::spinoff_prover]
pub proof fn lemma_pop(m: Machine, fuel: nat)
    requires
        0 <= m.ip < m.source.len(),
        m.source[m.ip] == Grammar::Pop.byte(),
        reach(m, m.ip, m.ip + 1, fuel) is Some,
    ensures
        moved(
            m,
            reach(m, m.ip, m.ip + 1, fuel).unwrap().machine,
            m.ip + 1,
            1,
            0,
        ),
        reach(m, m.ip, m.ip + 1, fuel).unwrap().fuel < fuel,
{
    lemma_instruction(m, 1, fuel);
    let after = step(m)->Ok_0;
    let keep = m.stack.len() - 1;
    assert(after.stack.take(keep) =~= m.stack.take(keep));
}

/// `Call` takes the callee and the arguments and pushes one value.
#[verifier::rlimit(30)]
#[verifier::spinoff_prover]
pub proof fn lemma_call(m: Machine, n: nat, fuel: nat)
    requires
        0 <= m.ip < m.source.len(),
        m.source[m.ip] == Grammar::Call.byte(),
        holds(m.source, (m.ip + 1) as nat, uint_code(n)),
        n <= u64::MAX,
        reach(m, m.ip, m.ip + 1 + uint_code(n).len(), fuel) is Some,
    ensures
        moved(
            m,
            reach(m, m.ip, m.ip + 1 + uint_code(n).len(), fuel).unwrap().machine,
            m.ip + 1 + uint_code(n).len(),
            n + 1,
            1,
        ),
        reach(m, m.ip, m.ip + 1 + uint_code(n).len(), fuel).unwrap().fuel < fuel,
{
    reveal(holds);
    lemma_operand_read(m.source, m.ip + 1, n);
    assert(step(m) == step_call(m, m.ip + 1));
    lemma_instruction(m, (1 + uint_code(n).len()) as int, fuel);
    let after = step(m)->Ok_0;
    let keep = m.stack.len() - (n + 1);
    let rest = m.stack.drop_last();
    assert(after.stack.drop_last() =~= rest.take(rest.len() - n));
    assert(after.stack.take(keep) =~= m.stack.take(keep));
}

/// Bytecode that holds code holds what the code starts with.
pub proof fn lemma_holds_prefix(source: Seq<u8>, at: nat, code: Seq<u8>, n: nat)
    requires
        holds(source, at, code),
        n <= code.len(),
    ensures
        holds(source, at, code.subrange(0, n as int)),
{
    reveal(holds);
    assert(code.subrange(0, n as int) + code.subrange(n as int, code.len() as int) =~= code);
    lemma_split(source, at, code.subrange(0, n as int), code.subrange(n as int, code.len() as int));
}

/// The code of the first names opens the code of more of them, and takes
/// at least one byte a name.
pub proof fn lemma_names_prefix(names: Seq<Seq<char>>, n: nat, m: nat)
    requires
        n <= m <= names.len(),
    ensures
        n <= names_code(names, n).len() <= names_code(names, m).len(),
        names_code(names, m).subrange(0, names_code(names, n).len() as int) == names_code(
            names,
            n,
        ),
    decreases m,
{
    if n < m {
        lemma_names_prefix(names, n, (m - 1) as nat);
        let a = names_code(names, (m - 1) as nat);
        let b = string_code(names[m - 1]);
        lemma_uint_len(encode_utf8(names[m - 1]).len());
        assert(names_code(names, m) == a + b);
        assert((a + b).subrange(0, names_code(names, n).len() as int) =~= a.subrange(
            0,
            names_code(names, n).len() as int,
        ));
    } else {
        if n > 0 {
            lemma_names_prefix(names, (n - 1) as nat, (n - 1) as nat);
            lemma_uint_len(encode_utf8(names[n - 1]).len());
        }
        assert(names_code(names, m).subrange(0, names_code(names, n).len() as int)
            =~= names_code(names, n));
    }
}

/// The names of a declaration that stand in the bytecode are read as they
/// were written: from behind the first `k`, with those read.
#[verifier::rlimit(30)]
#[verifier::spinoff_prover]
pub proof fn lemma_texts_read(source: Seq<u8>, start: nat, names: Seq<Seq<char>>, k: nat)
    requires
        holds(source, start, names_code(names, names.len())),
        k <= names.len(),
    ensures
        read_texts(
            source,
            (start + names_code(names, k).len()) as int,
            (names.len() - k) as nat,
            names.take(k as int),
        ) == Ok::<(Seq<Seq<char>>, int), Seq<char>>(
            (names, (start + names_code(names, names.len()).len()) as int),
        ),
    decreases names.len() - k,
{
    reveal(holds);
    if k < names.len() {
        let all = names_code(names, names.len());
        let before = names_code(names, k);
        let this = string_code(names[k as int]);
        lemma_names_prefix(names, k + 1, names.len());
        lemma_holds_prefix(source, start, all, names_code(names, k + 1).len());
        assert(names_code(names, k + 1) == before + this);
        lemma_split(source, start, before, this);
        lemma_text_read(source, (start + before.len()) as int, names[k as int]);
        assert(names.take(k as int).push(names[k as int]) =~= names.take((k + 1) as int));
        lemma_texts_read(source, start, names, k + 1);
    } else {
        assert(names.take(k as int) =~= names);
    }
}

/// `Function` binds a variable and changes nothing on the stack; the body
/// of the declaration is passed over.
#[verifier::rlimit(30)]
#[verifier::spinoff_prover]
pub proof fn lemma_function(
    m: Machine,
    name: Seq<char>,
    names: Seq<Seq<char>>,
    body: Seq<u8>,
    fuel: nat,
)
    requires
        0 <= m.ip < m.source.len(),
        m.source[m.ip] == Grammar::Function.byte(),
        holds(
            m.source,
            (m.ip + 1) as nat,
            string_code(name) + uint_code(names.len()) + names_code(names, names.len())
                + uint_code(body.len()) + body,
        ),
        reach(
            m,
            m.ip,
            m.ip + 1 + (string_code(name) + uint_code(names.len()) + names_code(
                names,
                names.len(),
            ) + uint_code(body.len()) + body).len(),
            fuel,
        ) is Some,
    ensures
        ({
            let len = 1 + (string_code(name) + uint_code(names.len()) + names_code(
                names,
                names.len(),
            ) + uint_code(body.len()) + body).len();
            &&& moved(m, reach(m, m.ip, m.ip + len, fuel).unwrap().machine, m.ip + len, 0, 0)
            &&& reach(m, m.ip, m.ip + len, fuel).unwrap().fuel < fuel
        }),
{
    reveal(holds);
    let a = string_code(name);
    let b = uint_code(names.len());
    let c = names_code(names, names.len());
    let d = uint_code(body.len());
    let q = (m.ip + 1) as nat;
    lemma_split(m.source, q, a + b + c + d, body);
    lemma_split(m.source, q, a + b + c, d);
    lemma_split(m.source, q, a + b, c);
    lemma_split(m.source, q, a, b);
    lemma_names_prefix(names, names.len(), names.len());
    lemma_text_read(m.source, q as int, name);
    lemma_operand_read(m.source, (q + a.len()) as int, names.len());
    lemma_names_prefix(names, 0, names.len());
    lemma_texts_read(m.source, q + a.len() + b.len(), names, 0);
    assert(names.take(0) =~= Seq::<Seq<char>>::empty());
    lemma_operand_read(m.source, (q + a.len() + b.len() + c.len()) as int, body.len());
    let len = 1 + (a + b + c + d + body).len();
    assert(step(m) == step_function(m, m.ip + 1));
    lemma_instruction(m, len as int, fuel);
    let after = step(m)->Ok_0;
    assert(after.stack.take(m.stack.len() as int) =~= m.stack.take(m.stack.len() as int));
}

/// The run of machine `m` through code that starts where it stands.
pub open spec fn run_of(m: Machine, code: Seq<u8>, fuel: nat) -> Option<Reached> {
    reach(m, m.ip, m.ip + code.len(), fuel)
}

/// Code that the bytecode holds ends inside it.
pub proof fn lemma_holds_bound(source: Seq<u8>, at: nat, code: Seq<u8>)
    requires
        holds(source, at, code),
    ensures
        at + code.len() <= source.len() <= usize::MAX,
{
    reveal(holds);
}

/// One instruction of a run that does not fail: the run goes on from
/// where the instruction leaves the machine.
pub proof fn lemma_step(m: Machine, lo: int, hi: int, fuel: nat)
    requires
        lo <= m.ip < hi,
        reach(m, lo, hi, fuel) is Some,
    ensures
        fuel > 0,
        step(m) is Ok,
        reach(step(m)->Ok_0, lo, hi, (fuel - 1) as nat) == reach(m, lo, hi, fuel),
{
}

/// A machine with the top of its stack popped, wherever it goes on, has
/// taken one value.
pub proof fn lemma_popped(m: Machine, to: int)
    requires
        m.stack.len() > 0,
    ensures
        moved(m, Machine { ip: to, ..popped(m) }, to, 1, 0),
{
    let keep = m.stack.len() - 1;
    assert(m.stack.drop_last().take(keep) =~= m.stack.take(keep));
}

/// Line markers in the middle of a run: the run goes on behind them, with
/// the stack as it was.
pub proof fn lemma_markers_inside(
    base: Machine,
    c: Machine,
    lo: int,
    hi: int,
    from: nat,
    to: nat,
    f: nat,
    up: nat,
) -> (r: Reached)
    requires
        0 <= lo <= c.ip,
        c.ip + markers(from, to).len() <= hi,
        holds(c.source, c.ip as nat, markers(from, to)),
        reach(c, lo, hi, f) is Some,
        pushed(base, c, c.ip, up),
    ensures
        reach(r.machine, lo, hi, r.fuel) == reach(c, lo, hi, f),
        r.fuel <= f,
        pushed(base, r.machine, c.ip + markers(from, to).len(), up),
{
    let b = c.ip + markers(from, to).len();
    lemma_next_part(c, lo, hi, c.ip, b, f);
    lemma_markers(c, from, to, f);
    let r = reach(c, c.ip, b, f).unwrap();
    lemma_moves(base, c, r.machine, c.ip, b, up, 0, 0);
    r
}

/// An instruction in the middle of a run, with `n` bytes of operands: the
/// machine stands on its opcode, and the run goes on behind it.
pub proof fn lemma_enter(c: Machine, lo: int, hi: int, op: u8, n: nat, f: nat)
    requires
        0 <= lo <= c.ip,
        c.ip + 1 + n <= hi,
        holds(c.source, c.ip as nat, seq![op]),
        reach(c, lo, hi, f) is Some,
    ensures
        0 <= c.ip < c.source.len(),
        c.source[c.ip] == op,
        reach(c, c.ip, c.ip + 1 + n, f) is Some,
        reach(
            reach(c, c.ip, c.ip + 1 + n, f).unwrap().machine,
            lo,
            hi,
            reach(c, c.ip, c.ip + 1 + n, f).unwrap().fuel,
        ) == reach(c, lo, hi, f),
{
    lemma_holds_bound(c.source, c.ip as nat, seq![op]);
    lemma_first_byte(c.source, c.ip as nat, seq![op]);
    lemma_next_part(c, lo, hi, c.ip, c.ip + 1 + n, f);
}

/// The call of a method in the middle of a run: `GetInstance` with the
/// method's name takes the receiver and pushes the method, and `Call` with
/// `n` arguments takes the method and the arguments and pushes the result.
#[verifier::rlimit(40)]
#[verifier::spinoff_prover]
pub proof fn lemma_method_call(
    base: Machine,
    c: Machine,
    lo: int,
    hi: int,
    name: Seq<char>,
    n: nat,
    f: nat,
    up: nat,
) -> (r: Reached)
    requires
        0 <= lo <= c.ip,
        n < up,
        n <= u64::MAX,
        c.ip + 1 + string_code(name).len() + 1 + uint_code(n).len() <= hi,
        holds(c.source, c.ip as nat, seq![Grammar::GetInstance.byte()]),
        holds(c.source, (c.ip + 1) as nat, string_code(name)),
        holds(
            c.source,
            (c.ip + 1 + string_code(name).len()) as nat,
            seq![Grammar::Call.byte()],
        ),
        holds(c.source, (c.ip + 1 + string_code(name).len() + 1) as nat, uint_code(n)),
        reach(c, lo, hi, f) is Some,
        pushed(base, c, c.ip, up),
    ensures
        reach(r.machine, lo, hi, r.fuel) == reach(c, lo, hi, f),
        r.fuel < f,
        pushed(
            base,
            r.machine,
            c.ip + 1 + string_code(name).len() + 1 + uint_code(n).len(),
            (up - n) as nat,
        ),
{
    let q1 = c.ip + 1 + string_code(name).len();
    lemma_enter(c, lo, hi, Grammar::GetInstance.byte(), string_code(name).len(), f);
    lemma_get_instance(c, name, f);
    let r1 = reach(c, c.ip, q1, f).unwrap();
    lemma_moves(base, c, r1.machine, c.ip, q1, up, 1, 1);
    let c1 = r1.machine;
    let q2 = q1 + 1 + uint_code(n).len();
    lemma_enter(c1, lo, hi, Grammar::Call.byte(), uint_code(n).len(), r1.fuel);
    lemma_call(c1, n, r1.fuel);
    let r2 = reach(c1, q1, q2, r1.fuel).unwrap();
    lemma_moves(base, c1, r2.machine, q1, q2, up, n + 1, 1);
    r2
}

} // verus!
