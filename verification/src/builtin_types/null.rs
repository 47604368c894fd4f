//! The class `Null` and its one value.

use vstd::prelude::*;
use crate::builtin_types::any::{new_object, object_class};
use crate::env::Environment;
use crate::obj::{BaseObject, ClassView, ObjectView, ValueType, ValueView};

verus! {

/// The class `Null`: no members of its own.
pub open spec fn null_class() -> ClassView {
    ClassView { name: "Null"@, vars: Seq::empty(), super_class: Some(Box::new(object_class())) }
}

/// The null object.
pub open spec fn null_view() -> ObjectView {
    ObjectView { class: null_class(), value: ValueView::Null, parent: None }
}

/// Makes the null object.
pub fn new_null() -> (r: BaseObject)
    ensures
        r@ == null_view(),
{
    new_object("Null", Environment::new(), ValueType::Null)
}

} // verus!
