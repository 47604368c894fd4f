//! The root class `Object`: equality and text for every object.

use vstd::prelude::*;
use vstd::string::StringExecFns;
use crate::builtin_types::bool::{boolean_view, new_boolean};
use crate::builtin_types::native_function::{
    add_member, arity_error, arity_text, member, receiver, receiver_error, receiver_text,
    result_view,
};
use crate::builtin_types::string::{new_string, string_view};
use crate::env::{Bindings, Environment};
use crate::obj::{
    BaseObject, Class, ClassView, Native, ObjResult, ObjectView, lemma_class_model,
    objects_equal, objects_view, value_text,
};

verus! {

/// The members of `Object`: `==` and `!=`, also called `eq` and `neq`, and
/// the texts `s` and `inspect`.
pub open spec fn object_members() -> Bindings {
    Seq::empty().push(member("=="@, "Object.=="@, Native::ObjectEq)).push(
        member("eq"@, "Object.=="@, Native::ObjectEq),
    ).push(member("!="@, "Object.!="@, Native::ObjectNeq)).push(
        member("neq"@, "Object.!="@, Native::ObjectNeq),
    ).push(member("s"@, "Object.s"@, Native::ObjectS)).push(
        member("inspect"@, "Object.inspect"@, Native::ObjectInspect),
    )
}

/// The class `Object`, the root of every other class.
pub open spec fn object_class() -> ClassView {
    ClassView { name: "Object"@, vars: object_members(), super_class: None }
}

/// What `==` returns, or `!=` where `negate` is set: whether the receiver
/// and the first argument are equal.
pub open spec fn equality_result(this: ObjectView, args: Seq<ObjectView>, negate: bool) -> Result<
    ObjectView,
    Seq<char>,
> {
    if args.len() == 0 {
        Err(arity_text(this))
    } else {
        match receiver(this) {
            None => Err(receiver_text(this, "a"@)),
            Some(p) => Ok(boolean_view(objects_equal(p, args[0]) != negate)),
        }
    }
}

/// What `s` returns, or `inspect` where `inspect` is set: the receiver's
/// text as a string.
pub open spec fn text_result(this: ObjectView, inspect: bool) -> Result<ObjectView, Seq<char>> {
    match receiver(this) {
        None => Err(receiver_text(this, "a"@)),
        Some(p) => Ok(string_view(value_text(p.value, inspect))),
    }
}

/// `Object.==`.
pub fn dbeq(this: BaseObject, args: Vec<BaseObject>, _e: Environment) -> (r: ObjResult)
    ensures
        result_view(r) == equality_result(this@, objects_view(args@), false),
{
    if args.len() == 0 {
        return arity_error(&this);
    }
    match this.parent() {
        None => receiver_error(&this, "a"),
        Some(p) => Ok(new_boolean(p.equal_to(args[0].clone()))),
    }
}

/// `Object.!=`.
pub fn neq(this: BaseObject, args: Vec<BaseObject>, _e: Environment) -> (r: ObjResult)
    ensures
        result_view(r) == equality_result(this@, objects_view(args@), true),
{
    if args.len() == 0 {
        return arity_error(&this);
    }
    match this.parent() {
        None => receiver_error(&this, "a"),
        Some(p) => Ok(new_boolean(!p.equal_to(args[0].clone()))),
    }
}

/// `Object.s`.
pub fn to_string(this: BaseObject, _args: Vec<BaseObject>, _e: Environment) -> (r: ObjResult)
    ensures
        result_view(r) == text_result(this@, false),
{
    match this.parent() {
        None => receiver_error(&this, "a"),
        Some(p) => Ok(new_string(p.to_string())),
    }
}

/// `Object.inspect`.
pub fn to_inspect_string(this: BaseObject, _args: Vec<BaseObject>, _e: Environment) -> (r:
    ObjResult)
    ensures
        result_view(r) == text_result(this@, true),
{
    match this.parent() {
        None => receiver_error(&this, "a"),
        Some(p) => Ok(new_string(p.to_inspect_string())),
    }
}

/// Makes the class `Object`.
pub fn any_class() -> (r: Box<Class>)
    ensures
        r@ == object_class(),
{
    let mut store = Environment::new();
    add_member(&mut store, "==", "Object.==", Native::ObjectEq);
    add_member(&mut store, "eq", "Object.==", Native::ObjectEq);
    add_member(&mut store, "!=", "Object.!=", Native::ObjectNeq);
    add_member(&mut store, "neq", "Object.!=", Native::ObjectNeq);
    add_member(&mut store, "s", "Object.s", Native::ObjectS);
    add_member(&mut store, "inspect", "Object.inspect", Native::ObjectInspect);
    let class = Class { name: String::from_str("Object"), instance_vars: store, super_class: None };
    proof {
        lemma_class_model(class);
    }
    Box::new(class)
}

/// Makes the object of class `name` with the members `vars`, under
/// `Object`, that holds `value`.
pub fn new_object(name: &str, vars: Environment, value: crate::obj::ValueType) -> (r: BaseObject)
    ensures
        r@ == (ObjectView {
            class: ClassView {
                name: name@,
                vars: vars@,
                super_class: Some(Box::new(object_class())),
            },
            value: value@,
            parent: None,
        }),
{
    let class = Class {
        name: String::from_str(name),
        instance_vars: vars,
        super_class: Some(any_class()),
    };
    proof {
        lemma_class_model(class);
    }
    BaseObject { class, internal_value: value, parent_obj: None }
}

} // verus!
