//! The class `Function`: functions declared in the language.

use vstd::prelude::*;
use crate::builtin_types::any::{new_object, object_class};
use vstd::string::StringExecFns;
use crate::builtin_types::null::new_null;
use crate::env::Environment;
use crate::grammar::Grammar;
use crate::obj::{
    BaseObject, ClassView, FunctionType, ObjResult, ObjectView, ValueType, ValueView, copy_bytes,
    lemma_function_model, objects_view, strings_view,
};
use crate::text::push_decimal;
use crate::vm::{
    Host, Machine, VM, bind_all, called, fresh_machine, function_outcome, inside_text,
    mismatch_text, not_callable, run_machine,
};

verus! {

/// The class `Function`: no members of its own.
pub open spec fn function_class() -> ClassView {
    ClassView { name: "Function"@, vars: Seq::empty(), super_class: Some(Box::new(object_class())) }
}

/// The function object with this name, these parameters and this body.
pub open spec fn function_view(name: Seq<char>, params: Seq<Seq<char>>, code: Seq<u8>) -> ObjectView {
    ObjectView {
        class: function_class(),
        value: ValueView::Function(name, params, code),
        parent: None,
    }
}

/// Makes the function object for `x`.
pub fn new_function(x: FunctionType) -> (r: BaseObject)
    ensures
        r@ == function_view(x.0@, strings_view(x.1@), x.2@),
{
    let v = ValueType::Function(x);
    proof {
        lemma_function_model(v);
    }
    new_object("Function", Environment::new(), v)
}


/// The machine that runs the body of function `x` for a call with `args`:
/// the body behind a magic byte, `e` with the parameters bound to the
/// arguments as the local variables, and the budgets of `host` with one
/// level of nesting taken off.
#[verifier::rlimit(30)]
#[verifier::spinoff_prover]
fn spawn(x: &FunctionType, args: &Vec<BaseObject>, e: Environment, host: &Host) -> (v: VM)
    requires
        x.1.len() == args.len(),
        host.depth_left > 0,
    ensures
        v@ == (Machine {
            env: bind_all(e@, strings_view(x.1@), objects_view(args@), x.1@.len()),
            ..fresh_machine(
                seq![Grammar::Magic.byte()] + x.2@,
                host.steps_left as nat,
                (host.depth_left - 1) as nat,
            )
        }),
{
    let mut s: Vec<u8> = Vec::new();
    s.push(Grammar::Magic.to_byte());
    let mut body = copy_bytes(&x.2);
    s.append(&mut body);
    proof {
        assert(s@ =~= seq![Grammar::Magic.byte()] + x.2@);
    }
    let mut v = VM::new(s);
    v.env = e;
    v.host.steps_left = host.steps_left;
    v.host.depth_left = host.depth_left - 1;
    let ghost params = strings_view(x.1@);
    let ghost given = objects_view(args@);
    let mut i: usize = 0;
    while i < x.1.len()
        invariant
            i <= x.1.len(),
            x.1.len() == args.len(),
            params == strings_view(x.1@),
            given == objects_view(args@),
            v@ == (Machine {
                env: bind_all(e@, params, given, i as nat),
                ..fresh_machine(
                    seq![Grammar::Magic.byte()] + x.2@,
                    host.steps_left as nat,
                    (host.depth_left - 1) as nat,
                )
            }),
        decreases x.1.len() - i,
    {
        v.env.set(x.1[i].clone(), args[i].clone());
        i += 1;
    }
    v
}

/// The message of an error inside function `this`.
fn inside(this: &BaseObject, err: String) -> (m: String)
    ensures
        m@ == inside_text(this@, err@),
{
    let mut m = String::from_str("In ");
    m.append(this.to_inspect_string().as_str());
    m.append(": ");
    m.append(err.as_str());
    m
}

/// The message of a call of `this` with `got` arguments in place of `want`.
fn mismatch(this: &BaseObject, want: usize, got: usize) -> (m: String)
    ensures
        m@ == mismatch_text(this@, want as nat, got as nat),
{
    let mut m = this.to_inspect_string();
    m.append(" expected ");
    push_decimal(&mut m, want as u64);
    m.append(" arguments, got ");
    push_decimal(&mut m, got as u64);
    m
}

/// Calls the declared function `this` with `args`, and `e` as the
/// caller's local variables: a new machine runs the body.
#[verifier::rlimit(30)]
#[verifier::spinoff_prover]
pub fn call(this: BaseObject, args: Vec<BaseObject>, e: Environment, host: &mut Host) -> (r:
    ObjResult)
    ensures
        called(
            *old(host),
            *final(host),
            r,
            function_outcome(
                this@,
                objects_view(args@),
                e@,
                old(host).steps_left as nat,
                old(host).depth_left as nat,
            ),
        ),
    decreases old(host).steps_left, 2nat,
{
    proof {
        assert(this@.value == this.internal_value.model());
        assert(strings_view(host.output@) + Seq::<Seq<char>>::empty() =~= strings_view(
            host.output@,
        ));
    }
    let x = match &this.internal_value {
        ValueType::Function(x) => x,
        _ => {
            return not_callable(this, args, e);
        },
    };
    proof {
        lemma_function_model(this.internal_value);
    }
    if x.1.len() != args.len() {
        return Err(mismatch(&this, x.1.len(), args.len()));
    }
    if host.depth_left == 0 {
        return Err(String::from_str("Recursion too deep"));
    }
    let mut v = spawn(x, &args, e, host);
    let ghost start = v@;
    let res = v.run();
    let ghost before = strings_view(host.output@);
    let ghost printed = strings_view(v.host.output@);
    host.output.append(&mut v.host.output);
    proof {
        assert(strings_view(host.output@) =~= before + printed);
        assert(printed == run_machine(start).machine.output);
    }
    match res {
        Ok(Some(x)) => Ok(x),
        Ok(None) => Ok(new_null()),
        Err(err) => Err(inside(&this, err)),
    }
}

} // verus!
