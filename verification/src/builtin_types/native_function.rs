//! Native functions: objects that stand for a function of the machine.

use vstd::prelude::*;
use vstd::string::StringExecFns;
use crate::builtin_types::any::{equality_result, text_result};
use crate::builtin_types::bool::to_int_result;
use crate::builtin_types::integer::{integer_result, integer_sign_result};
use crate::builtin_types::null::null_view;
use crate::builtin_types::string::{char_at_result, parse_int_result, string_view};
use crate::builtin_types::vec::item_at_result;
use crate::env::Environment;
use crate::obj::{
    BaseObject, Class, ClassView, Native, NativeFunctionType, ObjResult, ObjectView, ValueType,
    ValueView, joined_text, lemma_class_model, not_callable_text, objects_view, strings_view,
    value_text,
};
use crate::vm::{Host, called};

verus! {

/// The class of native functions: no members, no superclass.
pub open spec fn native_class() -> ClassView {
    ClassView { name: "Native Function"@, vars: Seq::empty(), super_class: None }
}

/// The native function object that is called `name` and stands for `f`.
pub open spec fn native_view(name: Seq<char>, f: Native) -> ObjectView {
    ObjectView { class: native_class(), value: ValueView::NativeFunction(name, f), parent: None }
}

/// A member of a built-in class: under `key`, the native function `f`,
/// which calls itself `name` in messages.
pub open spec fn member(key: Seq<char>, name: Seq<char>, f: Native) -> (Seq<char>, ObjectView) {
    (key, native_view(name, f))
}

/// What a call returned, as mathematical values.
pub open spec fn result_view(r: ObjResult) -> Result<ObjectView, Seq<char>> {
    match r {
        Ok(x) => Ok(x@),
        Err(e) => Err(e@),
    }
}

/// The name under which a native function reports errors.
pub open spec fn native_name(this: ObjectView) -> Seq<char> {
    match this.value {
        ValueView::NativeFunction(name, _) => name,
        _ => Seq::empty(),
    }
}

/// The receiver of a member: the object against which it was looked up.
pub open spec fn receiver(this: ObjectView) -> Option<ObjectView> {
    match this.parent {
        Some(p) => Some(*p),
        None => None,
    }
}

/// The message of a native function called without the argument it needs.
pub open spec fn arity_text(this: ObjectView) -> Seq<char> {
    native_name(this) + " expects 1 argument, got 0"@
}

/// The message of a native function whose operand is not `what`.
pub open spec fn operand_text(this: ObjectView, what: Seq<char>) -> Seq<char> {
    native_name(this) + " expects "@ + what
}

/// The message of a native function whose receiver is not `what`.
pub open spec fn receiver_text(this: ObjectView, what: Seq<char>) -> Seq<char> {
    native_name(this) + " expects "@ + what + " receiver"@
}

/// What a call did: what it returned, and what it printed.
pub struct Outcome {
    pub result: Result<ObjectView, Seq<char>>,
    pub output: Seq<Seq<char>>,
}

/// The texts of the objects, each with a line feed behind it.
pub open spec fn lines_of(args: Seq<ObjectView>) -> Seq<Seq<char>> {
    Seq::new(args.len(), |i: int| value_text(args[i].value, false) + "\n"@)
}

/// What the native function `f` does when called as `this` with `args`.
/// The printing ones return the text they print, but for `puts`, which
/// prints each argument on a line of its own and returns null.
pub open spec fn native_outcome(f: Native, this: ObjectView, args: Seq<ObjectView>) -> Outcome {
    match f {
        Native::ObjectEq => quiet(equality_result(this, args, false)),
        Native::ObjectNeq => quiet(equality_result(this, args, true)),
        Native::ObjectS => quiet(text_result(this, false)),
        Native::ObjectInspect => quiet(text_result(this, true)),
        Native::IntegerNeg => quiet(integer_sign_result(this, true)),
        Native::IntegerPos => quiet(integer_sign_result(this, false)),
        Native::BooleanToInt => quiet(to_int_result(this)),
        Native::StringParseInt => quiet(parse_int_result(this)),
        Native::StringLen => quiet(crate::builtin_types::string::length_result(this)),
        Native::StringAdd => quiet(crate::builtin_types::string::concat_result(this, args)),
        Native::StringGetIndex => quiet(char_at_result(this, args)),
        Native::VecLen => quiet(crate::builtin_types::vec::length_result(this)),
        Native::VecAdd => quiet(crate::builtin_types::vec::concat_result(this, args)),
        Native::VecGetIndex => quiet(item_at_result(this, args)),
        Native::PrintLine => Outcome {
            result: Ok(string_view(joined_text(args, args.len(), false, " "@))),
            output: seq![joined_text(args, args.len(), false, " "@) + "\n"@],
        },
        Native::Puts => Outcome { result: Ok(null_view()), output: lines_of(args) },
        Native::PrintInspectLine => Outcome {
            result: Ok(string_view(joined_text(args, args.len(), true, " "@))),
            output: seq![joined_text(args, args.len(), true, " "@) + "\n"@],
        },
        Native::Print => Outcome {
            result: Ok(string_view(joined_text(args, args.len(), false, " "@))),
            output: seq![joined_text(args, args.len(), false, " "@)],
        },
        _ => quiet(integer_result(f, this, args)),
    }
}

/// The outcome of a call that prints nothing.
pub open spec fn quiet(result: Result<ObjectView, Seq<char>>) -> Outcome {
    Outcome { result: result, output: Seq::empty() }
}

/// Makes the native function object for `x`.
pub fn new_native_function(x: NativeFunctionType) -> (r: BaseObject)
    ensures
        r@ == native_view(x.0@, x.1),
{
    let class = Class {
        name: String::from_str("Native Function"),
        instance_vars: Environment::new(),
        super_class: None,
    };
    let value = ValueType::NativeFunction(x);
    proof {
        lemma_class_model(class);
        assert(value.model() == ValueView::NativeFunction(x.0@, x.1));
    }
    BaseObject { class, internal_value: value, parent_obj: None }
}

/// Adds to a table of members, under `key`, the native function `f` called
/// `name`.
pub fn add_member(env: &mut Environment, key: &str, name: &str, f: Native)
    ensures
        final(env)@ == old(env)@.push(member(key@, name@, f)),
{
    let ghost before = env@;
    env.store.push((String::from_str(key), new_native_function((String::from_str(name), f))));
    proof {
        assert(env@ =~= before.push(member(key@, name@, f)));
    }
}

/// The name under which a native function reports errors.
pub fn name_of(this: &BaseObject) -> (r: String)
    ensures
        r@ == native_name(this@),
{
    proof {
        assert(this@.value == this.internal_value.model());
    }
    match &this.internal_value {
        ValueType::NativeFunction(f) => f.0.clone(),
        _ => String::new(),
    }
}

/// The error of a native function called without the argument it needs.
pub fn arity_error(this: &BaseObject) -> (r: ObjResult)
    ensures
        result_view(r) == Err::<ObjectView, Seq<char>>(arity_text(this@)),
{
    let mut m = name_of(this);
    m.append(" expects 1 argument, got 0");
    Err(m)
}

/// The error of a native function whose operand is not `what`.
pub fn operand_error(this: &BaseObject, what: &str) -> (r: ObjResult)
    ensures
        result_view(r) == Err::<ObjectView, Seq<char>>(operand_text(this@, what@)),
{
    let mut m = name_of(this);
    m.append(" expects ");
    m.append(what);
    Err(m)
}

/// The error of a native function whose receiver is not `what`.
pub fn receiver_error(this: &BaseObject, what: &str) -> (r: ObjResult)
    ensures
        result_view(r) == Err::<ObjectView, Seq<char>>(receiver_text(this@, what@)),
{
    let mut m = name_of(this);
    m.append(" expects ");
    m.append(what);
    m.append(" receiver");
    Err(m)
}


/// Calls the native function that `this` holds.
pub fn call_native(this: BaseObject, args: Vec<BaseObject>, e: Environment, host: &mut Host) -> (r:
    ObjResult)
    ensures
        called(
            *old(host),
            *final(host),
            r,
            match this@.value {
                ValueView::NativeFunction(_, f) => native_outcome(f, this@, objects_view(args@)),
                _ => quiet(Err(not_callable_text(this@))),
            },
        ),
{
    proof {
        assert(this@.value == this.internal_value.model());
        assert(strings_view(host.output@) + Seq::<Seq<char>>::empty() =~= strings_view(
            host.output@,
        ));
    }
    let f = match &this.internal_value {
        ValueType::NativeFunction(x) => x.1,
        _ => {
            return crate::vm::not_callable(this, args, e);
        },
    };
    match f {
        Native::ObjectEq => crate::builtin_types::any::dbeq(this, args, e),
        Native::ObjectNeq => crate::builtin_types::any::neq(this, args, e),
        Native::ObjectS => crate::builtin_types::any::to_string(this, args, e),
        Native::ObjectInspect => crate::builtin_types::any::to_inspect_string(this, args, e),
        Native::IntegerAdd => crate::builtin_types::integer::add(this, args, e),
        Native::IntegerSub => crate::builtin_types::integer::sub(this, args, e),
        Native::IntegerMul => crate::builtin_types::integer::mul(this, args, e),
        Native::IntegerDiv => crate::builtin_types::integer::div(this, args, e),
        Native::IntegerMod => crate::builtin_types::integer::mod_(this, args, e),
        Native::IntegerGt => crate::builtin_types::integer::gt(this, args, e),
        Native::IntegerLt => crate::builtin_types::integer::lt(this, args, e),
        Native::IntegerGteq => crate::builtin_types::integer::gteq(this, args, e),
        Native::IntegerLteq => crate::builtin_types::integer::lteq(this, args, e),
        Native::IntegerNeg => crate::builtin_types::integer::neg(this, args, e),
        Native::IntegerPos => crate::builtin_types::integer::pos(this, args, e),
        Native::BooleanToInt => crate::builtin_types::bool::to_int(this, args, e),
        Native::StringParseInt => crate::builtin_types::string::parse_int(this, args, e),
        Native::StringLen => crate::builtin_types::string::length(this, args, e),
        Native::StringAdd => crate::builtin_types::string::add(this, args, e),
        Native::StringGetIndex => crate::builtin_types::string::get_index(this, args, e),
        Native::VecLen => crate::builtin_types::vec::length(this, args, e),
        Native::VecAdd => crate::builtin_types::vec::add(this, args, e),
        Native::VecGetIndex => crate::builtin_types::vec::get_index(this, args, e),
        Native::PrintLine => crate::modules::prelude::print_line(this, args, e, host),
        Native::Puts => crate::modules::prelude::puts(this, args, e, host),
        Native::PrintInspectLine => crate::modules::prelude::print_inspect_line(this, args, e, host),
        Native::Print => crate::modules::prelude::print(this, args, e, host),
    }
}

} // verus!
