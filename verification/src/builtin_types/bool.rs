//! The class `Boolean`.

use vstd::prelude::*;
use crate::builtin_types::any::{new_object, object_class};
use crate::builtin_types::integer::{integer_view, new_integer};
use crate::builtin_types::native_function::{
    add_member, member, receiver, receiver_error, receiver_text, result_view,
};
use crate::env::{Bindings, Environment};
use crate::obj::{BaseObject, ClassView, Native, ObjResult, ObjectView, ValueType, ValueView};

verus! {

/// The members of `Boolean`: `i`, the boolean as a number.
pub open spec fn boolean_members() -> Bindings {
    Seq::empty().push(member("i"@, "Boolean.i"@, Native::BooleanToInt))
}

/// The class `Boolean`.
pub open spec fn boolean_class() -> ClassView {
    ClassView {
        name: "Boolean"@,
        vars: boolean_members(),
        super_class: Some(Box::new(object_class())),
    }
}

/// The boolean object for `x`.
pub open spec fn boolean_view(x: bool) -> ObjectView {
    ObjectView { class: boolean_class(), value: ValueView::Bool(x), parent: None }
}

/// What `Boolean.i` returns: 1 for `true`, 0 for `false`.
pub open spec fn to_int_result(this: ObjectView) -> Result<ObjectView, Seq<char>> {
    match receiver(this) {
        Some(ObjectView { value: ValueView::Bool(a), .. }) => Ok(
            integer_view(
                if a {
                    1
                } else {
                    0
                },
            ),
        ),
        _ => Err(receiver_text(this, "a boolean"@)),
    }
}

/// `Boolean.i`.
pub fn to_int(this: BaseObject, _args: Vec<BaseObject>, _e: Environment) -> (r: ObjResult)
    ensures
        result_view(r) == to_int_result(this@),
{
    match this.parent() {
        Some(p) => {
            proof {
                assert(p@.value == p.internal_value.model());
            }
            match &p.internal_value {
                ValueType::Bool(a) => Ok(
                    new_integer(
                        if *a {
                            1
                        } else {
                            0
                        },
                    ),
                ),
                _ => receiver_error(&this, "a boolean"),
            }
        },
        None => receiver_error(&this, "a boolean"),
    }
}

/// Makes the boolean object for `x`.
pub fn new_boolean(x: bool) -> (r: BaseObject)
    ensures
        r@ == boolean_view(x),
{
    let mut env = Environment::new();
    add_member(&mut env, "i", "Boolean.i", Native::BooleanToInt);
    new_object("Boolean", env, ValueType::Bool(x))
}

/// The object `true`.
pub fn gorilla_true() -> (r: BaseObject)
    ensures
        r@ == boolean_view(true),
{
    new_boolean(true)
}

/// The object `false`.
pub fn gorilla_false() -> (r: BaseObject)
    ensures
        r@ == boolean_view(false),
{
    new_boolean(false)
}

} // verus!
