//! The class `Integer`: 64-bit signed numbers.

use vstd::prelude::*;
use vstd::string::StringExecFns;
use crate::builtin_types::any::{new_object, object_class};
use crate::builtin_types::bool::{boolean_view, new_boolean};
use crate::builtin_types::native_function::{
    add_member, arity_error, arity_text, member, operand_error, operand_text, receiver,
    receiver_error, receiver_text, result_view,
};
use crate::env::{Bindings, Environment};
use crate::obj::{
    BaseObject, ClassView, Native, ObjResult, ObjectView, ValueType, ValueView, objects_view,
};
use crate::text::{int_text, push_int};

verus! {

/// The members of `Integer`. Each operator is a member under its sign and
/// under a word: `+` and `add`, `-` and `sub`, `*` and `mul`, `/` and `div`,
/// `%` and `modulo`, `>` and `gt`, `<` and `lt`, `>=` and `gteq`, `<=` and
/// `lteq`, the prefix operators `-@` and `to_neg`, `+@` and `to_pos`; `i` is
/// the number itself.
pub open spec fn integer_members() -> Bindings {
    Seq::empty().push(member("+"@, "Integer.+"@, Native::IntegerAdd)).push(
        member("add"@, "Integer.+"@, Native::IntegerAdd),
    ).push(member("-"@, "Integer.-"@, Native::IntegerSub)).push(
        member("sub"@, "Integer.-"@, Native::IntegerSub),
    ).push(member("*"@, "Integer.*"@, Native::IntegerMul)).push(
        member("mul"@, "Integer.*"@, Native::IntegerMul),
    ).push(member("/"@, "Integer./"@, Native::IntegerDiv)).push(
        member("div"@, "Integer./"@, Native::IntegerDiv),
    ).push(member("%"@, "Integer.%"@, Native::IntegerMod)).push(
        member("modulo"@, "Integer.%"@, Native::IntegerMod),
    ).push(member(">"@, "Integer.>"@, Native::IntegerGt)).push(
        member("gt"@, "Integer.>"@, Native::IntegerGt),
    ).push(member("<"@, "Integer.<"@, Native::IntegerLt)).push(
        member("lt"@, "Integer.<"@, Native::IntegerLt),
    ).push(member(">="@, "Integer.>="@, Native::IntegerGteq)).push(
        member("gteq"@, "Integer.>="@, Native::IntegerGteq),
    ).push(member("<="@, "Integer.<="@, Native::IntegerLteq)).push(
        member("lteq"@, "Integer.<="@, Native::IntegerLteq),
    ).push(member("-@"@, "- Integer"@, Native::IntegerNeg)).push(
        member("to_neg"@, "- Integer"@, Native::IntegerNeg),
    ).push(member("+@"@, "+ Integer"@, Native::IntegerPos)).push(
        member("to_pos"@, "+ Integer"@, Native::IntegerPos),
    ).push(member("i"@, "Integer.i"@, Native::IntegerPos))
}

/// The class `Integer`.
pub open spec fn integer_class() -> ClassView {
    ClassView {
        name: "Integer"@,
        vars: integer_members(),
        super_class: Some(Box::new(object_class())),
    }
}

/// The integer object for `x`.
pub open spec fn integer_view(x: i64) -> ObjectView {
    ObjectView { class: integer_class(), value: ValueView::Int(x), parent: None }
}

/// The two operands of a binary operator on integers: the receiver and the
/// first argument; or the error where the argument is missing, where the
/// receiver is no integer, or where the argument is none.
pub open spec fn integer_operands(this: ObjectView, args: Seq<ObjectView>) -> Result<
    (i64, i64),
    Seq<char>,
> {
    if args.len() == 0 {
        Err(arity_text(this))
    } else {
        match receiver(this) {
            Some(ObjectView { value: ValueView::Int(a), .. }) => match args[0].value {
                ValueView::Int(b) => Ok((a, b)),
                _ => Err(operand_text(this, "an integer"@)),
            },
            _ => Err(receiver_text(this, "an integer"@)),
        }
    }
}

/// The quotient of `a` by `b`, rounded toward zero.
pub open spec fn quotient(a: int, b: int) -> int {
    if a == 0 {
        0
    } else if a > 0 && b > 0 {
        a / b
    } else if a < 0 && b < 0 {
        ((a * -1) / (b * -1))
    } else if a < 0 {
        ((a * -1) / b) * -1
    } else {
        (a / (b * -1)) * -1
    }
}

/// The remainder of `a` by `b`, with the sign of `a`.
pub open spec fn remainder(a: int, b: int) -> int {
    if a == 0 {
        0
    } else if a > 0 && b > 0 {
        a % b
    } else if a < 0 && b < 0 {
        ((a * -1) % (b * -1)) * -1
    } else if a < 0 {
        ((a * -1) % b) * -1
    } else {
        a % (b * -1)
    }
}

/// A quotient and a remainder fit in 64 bits, but for the quotient of the
/// least integer by -1.
#[verifier::rlimit(30)]
#[verifier::spinoff_prover]
pub proof fn lemma_division_fits(a: i64, b: i64)
    requires
        b != 0,
        !(a == i64::MIN && b == -1),
    ensures
        i64::MIN <= quotient(a as int, b as int) <= i64::MAX,
        i64::MIN <= remainder(a as int, b as int) <= i64::MAX,
{
    let x: int = if a < 0 {
        -(a as int)
    } else {
        a as int
    };
    let d: int = if b < 0 {
        -(b as int)
    } else {
        b as int
    };
    assert(0 <= x / d <= x && 0 <= x % d < d) by (nonlinear_arith)
        requires
            x >= 0,
            d > 0,
    ;
    assert(d >= 2 ==> 2 * (x / d) <= x) by (nonlinear_arith)
        requires
            x >= 0,
            d > 0,
    ;
}

/// The message of a division, or of a remainder, that has no result.
pub open spec fn division_text(what: Seq<char>, a: i64, sign: Seq<char>, b: i64) -> Seq<char> {
    what + int_text(a as int) + sign + int_text(b as int)
}

/// What a binary operator of `Integer` returns. Sums, differences and
/// products wrap round at 64 bits. A division or a remainder by 0 is an
/// error, and so is the one quotient that does not fit, that of the least
/// integer by -1.
pub open spec fn integer_result(f: Native, this: ObjectView, args: Seq<ObjectView>) -> Result<
    ObjectView,
    Seq<char>,
> {
    match integer_operands(this, args) {
        Err(e) => Err(e),
        Ok((a, b)) => match f {
            Native::IntegerAdd => Ok(integer_view(a.wrapping_add(b))),
            Native::IntegerSub => Ok(integer_view(a.wrapping_sub(b))),
            Native::IntegerMul => Ok(integer_view(a.wrapping_mul(b))),
            Native::IntegerDiv => if b == 0 {
                Err(division_text("Integer division by 0 in "@, a, " / "@, b))
            } else if a == i64::MIN && b == -1 {
                Err(division_text("Integer overflow in "@, a, " / "@, b))
            } else {
                Ok(integer_view(quotient(a as int, b as int) as i64))
            },
            Native::IntegerMod => if b == 0 {
                Err(division_text("Integer modulo by 0 in "@, a, " % "@, b))
            } else if a == i64::MIN && b == -1 {
                Err(division_text("Integer overflow in "@, a, " % "@, b))
            } else {
                Ok(integer_view(remainder(a as int, b as int) as i64))
            },
            Native::IntegerGt => Ok(boolean_view(a > b)),
            Native::IntegerLt => Ok(boolean_view(a < b)),
            Native::IntegerGteq => Ok(boolean_view(a >= b)),
            _ => Ok(boolean_view(a <= b)),
        },
    }
}

/// What a prefix operator of `Integer` returns: the receiver, or, where
/// `negate` is set, the receiver taken from 0, which wraps round.
pub open spec fn integer_sign_result(this: ObjectView, negate: bool) -> Result<
    ObjectView,
    Seq<char>,
> {
    match receiver(this) {
        Some(ObjectView { value: ValueView::Int(a), .. }) => Ok(
            integer_view(
                if negate {
                    0i64.wrapping_sub(a)
                } else {
                    a
                },
            ),
        ),
        _ => Err(receiver_text(this, "an integer"@)),
    }
}

/// The number that an object holds, where it is an integer.
pub fn integer_of(o: &BaseObject) -> (r: Option<i64>)
    ensures
        match r {
            Some(a) => o@.value == ValueView::Int(a),
            None => !(o@.value is Int),
        },
{
    proof {
        assert(o@.value == o.internal_value.model());
    }
    match &o.internal_value {
        ValueType::Int(a) => Some(*a),
        _ => None,
    }
}

/// Reads the two operands of a binary operator on integers.
fn operands(this: &BaseObject, args: &Vec<BaseObject>) -> (r: Result<(i64, i64), String>)
    ensures
        match r {
            Ok(p) => integer_operands(this@, objects_view(args@)) == Ok::<(i64, i64), Seq<char>>(p),
            Err(e) => integer_operands(this@, objects_view(args@)) == Err::<(i64, i64), Seq<char>>(
                e@,
            ),
        },
{
    if args.len() == 0 {
        return match arity_error(this) {
            Err(e) => Err(e),
            Ok(_) => Err(String::new()),
        };
    }
    let a = match this.parent() {
        Some(p) => integer_of(&p),
        None => None,
    };
    match a {
        None => match receiver_error(this, "an integer") {
            Err(e) => Err(e),
            Ok(_) => Err(String::new()),
        },
        Some(a) => match integer_of(&args[0]) {
            None => match operand_error(this, "an integer") {
                Err(e) => Err(e),
                Ok(_) => Err(String::new()),
            },
            Some(b) => Ok((a, b)),
        },
    }
}

/// The error of a division or a remainder that has no result.
fn division_error(what: &str, a: i64, sign: &str, b: i64) -> (r: ObjResult)
    ensures
        result_view(r) == Err::<ObjectView, Seq<char>>(division_text(what@, a, sign@, b)),
{
    let mut m = String::from_str(what);
    push_int(&mut m, a);
    m.append(sign);
    push_int(&mut m, b);
    Err(m)
}

/// `Integer.+`.
pub fn add(this: BaseObject, args: Vec<BaseObject>, _e: Environment) -> (r: ObjResult)
    ensures
        result_view(r) == integer_result(Native::IntegerAdd, this@, objects_view(args@)),
{
    match operands(&this, &args) {
        Err(e) => Err(e),
        Ok((a, b)) => Ok(new_integer(a.wrapping_add(b))),
    }
}

/// `Integer.-`.
pub fn sub(this: BaseObject, args: Vec<BaseObject>, _e: Environment) -> (r: ObjResult)
    ensures
        result_view(r) == integer_result(Native::IntegerSub, this@, objects_view(args@)),
{
    match operands(&this, &args) {
        Err(e) => Err(e),
        Ok((a, b)) => Ok(new_integer(a.wrapping_sub(b))),
    }
}

/// `Integer.*`.
pub fn mul(this: BaseObject, args: Vec<BaseObject>, _e: Environment) -> (r: ObjResult)
    ensures
        result_view(r) == integer_result(Native::IntegerMul, this@, objects_view(args@)),
{
    match operands(&this, &args) {
        Err(e) => Err(e),
        Ok((a, b)) => Ok(new_integer(a.wrapping_mul(b))),
    }
}

/// `Integer./`.
#[verifier::rlimit(30)]
#[verifier::spinoff_prover]
pub fn div(this: BaseObject, args: Vec<BaseObject>, _e: Environment) -> (r: ObjResult)
    ensures
        result_view(r) == integer_result(Native::IntegerDiv, this@, objects_view(args@)),
{
    match operands(&this, &args) {
        Err(e) => Err(e),
        Ok((a, b)) => {
            if b == 0 {
                return division_error("Integer division by 0 in ", a, " / ", b);
            }
            proof {
                if !(a == i64::MIN && b == -1) {
                    lemma_division_fits(a, b);
                }
            }
            match a.checked_div(b) {
                Some(q) => Ok(new_integer(q)),
                None => division_error("Integer overflow in ", a, " / ", b),
            }
        },
    }
}

/// `Integer.%`.
#[verifier::rlimit(30)]
#[verifier::spinoff_prover]
pub fn mod_(this: BaseObject, args: Vec<BaseObject>, _e: Environment) -> (r: ObjResult)
    ensures
        result_view(r) == integer_result(Native::IntegerMod, this@, objects_view(args@)),
{
    match operands(&this, &args) {
        Err(e) => Err(e),
        Ok((a, b)) => {
            if b == 0 {
                return division_error("Integer modulo by 0 in ", a, " % ", b);
            }
            proof {
                if !(a == i64::MIN && b == -1) {
                    lemma_division_fits(a, b);
                }
            }
            match a.checked_rem(b) {
                Some(q) => Ok(new_integer(q)),
                None => division_error("Integer overflow in ", a, " % ", b),
            }
        },
    }
}

/// `Integer.>`.
pub fn gt(this: BaseObject, args: Vec<BaseObject>, _e: Environment) -> (r: ObjResult)
    ensures
        result_view(r) == integer_result(Native::IntegerGt, this@, objects_view(args@)),
{
    match operands(&this, &args) {
        Err(e) => Err(e),
        Ok((a, b)) => Ok(new_boolean(a > b)),
    }
}

/// `Integer.<`.
pub fn lt(this: BaseObject, args: Vec<BaseObject>, _e: Environment) -> (r: ObjResult)
    ensures
        result_view(r) == integer_result(Native::IntegerLt, this@, objects_view(args@)),
{
    match operands(&this, &args) {
        Err(e) => Err(e),
        Ok((a, b)) => Ok(new_boolean(a < b)),
    }
}

/// `Integer.>=`.
pub fn gteq(this: BaseObject, args: Vec<BaseObject>, _e: Environment) -> (r: ObjResult)
    ensures
        result_view(r) == integer_result(Native::IntegerGteq, this@, objects_view(args@)),
{
    match operands(&this, &args) {
        Err(e) => Err(e),
        Ok((a, b)) => Ok(new_boolean(a >= b)),
    }
}

/// `Integer.<=`.
pub fn lteq(this: BaseObject, args: Vec<BaseObject>, _e: Environment) -> (r: ObjResult)
    ensures
        result_view(r) == integer_result(Native::IntegerLteq, this@, objects_view(args@)),
{
    match operands(&this, &args) {
        Err(e) => Err(e),
        Ok((a, b)) => Ok(new_boolean(a <= b)),
    }
}

/// The prefix operator `-`.
pub fn neg(this: BaseObject, _args: Vec<BaseObject>, _e: Environment) -> (r: ObjResult)
    ensures
        result_view(r) == integer_sign_result(this@, true),
{
    let a = match this.parent() {
        Some(p) => integer_of(&p),
        None => None,
    };
    match a {
        Some(a) => Ok(new_integer(0i64.wrapping_sub(a))),
        None => receiver_error(&this, "an integer"),
    }
}

/// The prefix operator `+`, and `Integer.i`.
pub fn pos(this: BaseObject, _args: Vec<BaseObject>, _e: Environment) -> (r: ObjResult)
    ensures
        result_view(r) == integer_sign_result(this@, false),
{
    let a = match this.parent() {
        Some(p) => integer_of(&p),
        None => None,
    };
    match a {
        Some(a) => Ok(new_integer(a)),
        None => receiver_error(&this, "an integer"),
    }
}

/// Makes the integer object for `x`.
pub fn new_integer(x: i64) -> (r: BaseObject)
    ensures
        r@ == integer_view(x),
{
    let mut env = Environment::new();
    add_member(&mut env, "+", "Integer.+", Native::IntegerAdd);
    add_member(&mut env, "add", "Integer.+", Native::IntegerAdd);
    add_member(&mut env, "-", "Integer.-", Native::IntegerSub);
    add_member(&mut env, "sub", "Integer.-", Native::IntegerSub);
    add_member(&mut env, "*", "Integer.*", Native::IntegerMul);
    add_member(&mut env, "mul", "Integer.*", Native::IntegerMul);
    add_member(&mut env, "/", "Integer./", Native::IntegerDiv);
    add_member(&mut env, "div", "Integer./", Native::IntegerDiv);
    add_member(&mut env, "%", "Integer.%", Native::IntegerMod);
    add_member(&mut env, "modulo", "Integer.%", Native::IntegerMod);
    add_member(&mut env, ">", "Integer.>", Native::IntegerGt);
    add_member(&mut env, "gt", "Integer.>", Native::IntegerGt);
    add_member(&mut env, "<", "Integer.<", Native::IntegerLt);
    add_member(&mut env, "lt", "Integer.<", Native::IntegerLt);
    add_member(&mut env, ">=", "Integer.>=", Native::IntegerGteq);
    add_member(&mut env, "gteq", "Integer.>=", Native::IntegerGteq);
    add_member(&mut env, "<=", "Integer.<=", Native::IntegerLteq);
    add_member(&mut env, "lteq", "Integer.<=", Native::IntegerLteq);
    add_member(&mut env, "-@", "- Integer", Native::IntegerNeg);
    add_member(&mut env, "to_neg", "- Integer", Native::IntegerNeg);
    add_member(&mut env, "+@", "+ Integer", Native::IntegerPos);
    add_member(&mut env, "to_pos", "+ Integer", Native::IntegerPos);
    add_member(&mut env, "i", "Integer.i", Native::IntegerPos);
    new_object("Integer", env, ValueType::Int(x))
}

} // verus!
