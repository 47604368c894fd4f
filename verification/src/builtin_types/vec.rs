//! The class `Vec`: sequences of objects.

use vstd::prelude::*;
use crate::builtin_types::any::{new_object, object_class};
use crate::builtin_types::integer::{integer_of, integer_view, new_integer};
use crate::builtin_types::native_function::{
    add_member, arity_error, arity_text, member, operand_error, operand_text, receiver,
    receiver_error, receiver_text, result_view,
};
use crate::builtin_types::string::{range_error, range_text, wrapped_index};
use crate::env::{Bindings, Environment};
use crate::obj::{
    BaseObject, ClassView, Native, ObjResult, ObjectView, ValueType, ValueView, copy_objects,
    lemma_vector_model, objects_view,
};

verus! {

/// The members of `Vec`: `len`; `+`, also called `add`; and `get_index`.
pub open spec fn vector_members() -> Bindings {
    Seq::empty().push(member("len"@, "Vec.len"@, Native::VecLen)).push(
        member("+"@, "Vec.+"@, Native::VecAdd),
    ).push(member("add"@, "Vec.+"@, Native::VecAdd)).push(
        member("get_index"@, "Vec.get_index"@, Native::VecGetIndex),
    )
}

/// The class `Vec`.
pub open spec fn vector_class() -> ClassView {
    ClassView { name: "Vec"@, vars: vector_members(), super_class: Some(Box::new(object_class())) }
}

/// The vector object that holds `items`.
pub open spec fn vector_view(items: Seq<ObjectView>) -> ObjectView {
    ObjectView { class: vector_class(), value: ValueView::Vector(items), parent: None }
}

/// The items that a native function of `Vec` acts on.
pub open spec fn vector_receiver(this: ObjectView) -> Option<Seq<ObjectView>> {
    match receiver(this) {
        Some(ObjectView { value: ValueView::Vector(a), .. }) => Some(a),
        _ => None,
    }
}

/// What `Vec.len` returns.
pub open spec fn length_result(this: ObjectView) -> Result<ObjectView, Seq<char>> {
    match vector_receiver(this) {
        None => Err(receiver_text(this, "a vector"@)),
        Some(a) => Ok(integer_view((a.len() as usize) as i64)),
    }
}

/// What `Vec.+` returns: the receiver's items, then those of the first
/// argument.
pub open spec fn concat_result(this: ObjectView, args: Seq<ObjectView>) -> Result<
    ObjectView,
    Seq<char>,
> {
    if args.len() == 0 {
        Err(arity_text(this))
    } else {
        match vector_receiver(this) {
            None => Err(receiver_text(this, "a vector"@)),
            Some(a) => match args[0].value {
                ValueView::Vector(b) => Ok(vector_view(a + b)),
                _ => Err(operand_text(this, "a vector"@)),
            },
        }
    }
}

/// What `Vec.get_index` returns: the item at the index, where a negative
/// index counts back from the length.
pub open spec fn item_at_result(this: ObjectView, args: Seq<ObjectView>) -> Result<
    ObjectView,
    Seq<char>,
> {
    if args.len() == 0 {
        Err(arity_text(this))
    } else {
        match vector_receiver(this) {
            None => Err(receiver_text(this, "a vector"@)),
            Some(a) => match args[0].value {
                ValueView::Int(b) => {
                    let c = wrapped_index(b, (a.len() as usize) as i64);
                    if 0 <= c < a.len() {
                        Ok(a[c as int])
                    } else {
                        Err(range_text("Vector index "@, b))
                    }
                },
                _ => Err(operand_text(this, "an integer"@)),
            },
        }
    }
}

/// The items that an object holds, where it is a vector.
pub fn items_of(o: &BaseObject) -> (r: Option<Vec<BaseObject>>)
    ensures
        match r {
            Some(a) => o@.value == ValueView::Vector(objects_view(a@)),
            None => !(o@.value is Vector),
        },
{
    proof {
        assert(o@.value == o.internal_value.model());
    }
    match &o.internal_value {
        ValueType::Vector(a) => {
            proof {
                lemma_vector_model(o.internal_value);
            }
            Some(copy_objects(a))
        },
        _ => None,
    }
}

/// The items that a native function of `Vec` acts on.
fn receiver_items(this: &BaseObject) -> (r: Option<Vec<BaseObject>>)
    ensures
        match r {
            Some(a) => vector_receiver(this@) == Some(objects_view(a@)),
            None => vector_receiver(this@) is None,
        },
{
    match this.parent() {
        Some(p) => items_of(&p),
        None => None,
    }
}

/// `Vec.len`.
pub fn length(this: BaseObject, _args: Vec<BaseObject>, _e: Environment) -> (r: ObjResult)
    ensures
        result_view(r) == length_result(this@),
{
    match receiver_items(&this) {
        None => receiver_error(&this, "a vector"),
        Some(a) => {
            let n = a.len();
            Ok(
                new_integer(
                    #[verifier::truncate]
                    (n as i64),
                ),
            )
        },
    }
}

/// `Vec.+`.
pub fn add(this: BaseObject, args: Vec<BaseObject>, _e: Environment) -> (r: ObjResult)
    ensures
        result_view(r) == concat_result(this@, objects_view(args@)),
{
    if args.len() == 0 {
        return arity_error(&this);
    }
    match receiver_items(&this) {
        None => receiver_error(&this, "a vector"),
        Some(a) => match items_of(&args[0]) {
            None => operand_error(&this, "a vector"),
            Some(b) => {
                let ghost av = objects_view(a@);
                let ghost bv = objects_view(b@);
                let mut a = a;
                let mut b = b;
                a.append(&mut b);
                proof {
                    assert(objects_view(a@) =~= av + bv);
                }
                Ok(new_vector(a))
            },
        },
    }
}

/// `Vec.get_index`.
pub fn get_index(this: BaseObject, args: Vec<BaseObject>, _e: Environment) -> (r: ObjResult)
    ensures
        result_view(r) == item_at_result(this@, objects_view(args@)),
{
    if args.len() == 0 {
        return arity_error(&this);
    }
    match receiver_items(&this) {
        None => receiver_error(&this, "a vector"),
        Some(a) => match integer_of(&args[0]) {
            None => operand_error(&this, "an integer"),
            Some(b) => {
                let n = a.len();
                let len: i64 = #[verifier::truncate]
                (n as i64);
                let c = if b < 0 {
                    len.wrapping_add(b)
                } else {
                    b
                };
                if c >= 0 && (c as u64) < n as u64 {
                    Ok(a[c as usize].clone())
                } else {
                    range_error("Vector index ", b)
                }
            },
        },
    }
}

/// Makes the vector object that holds `x`.
pub fn new_vector(x: Vec<BaseObject>) -> (r: BaseObject)
    ensures
        r@ == vector_view(objects_view(x@)),
{
    let mut env = Environment::new();
    add_member(&mut env, "len", "Vec.len", Native::VecLen);
    add_member(&mut env, "+", "Vec.+", Native::VecAdd);
    add_member(&mut env, "add", "Vec.+", Native::VecAdd);
    add_member(&mut env, "get_index", "Vec.get_index", Native::VecGetIndex);
    let v = ValueType::Vector(x);
    proof {
        lemma_vector_model(v);
    }
    new_object("Vec", env, v)
}

} // verus!
