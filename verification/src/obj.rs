//! The object model: values, their classes, and member lookup.

use vstd::prelude::*;
use vstd::std_specs::cmp::PartialEqSpecImpl;
use vstd::string::StringExecFns;
use crate::env::{Bindings, Environment, lookup};
use vstd::string::StrSliceExecFns;
use crate::text::{int_text, push_int};

verus! {

/// The functions that the machine itself provides. A native function object
/// holds one of these beside its name.
#[derive(Debug, Clone, Copy, PartialEq, Eq, Structural)]
pub enum Native {
    ObjectEq,
    ObjectNeq,
    ObjectS,
    ObjectInspect,
    IntegerAdd,
    IntegerSub,
    IntegerMul,
    IntegerDiv,
    IntegerMod,
    IntegerGt,
    IntegerLt,
    IntegerGteq,
    IntegerLteq,
    IntegerNeg,
    IntegerPos,
    BooleanToInt,
    StringParseInt,
    StringLen,
    StringAdd,
    StringGetIndex,
    VecLen,
    VecAdd,
    VecGetIndex,
    PrintLine,
    Puts,
    PrintInspectLine,
    Print,
}

/// A native function: its name, and which function of the machine it is.
pub type NativeFunctionType = (String, Native);

/// A declared function: its name, the names of its parameters, and the
/// bytecode of its body.
pub type FunctionType = (String, Vec<String>, Vec<u8>);

/// What a call returns: an object, or the message of a runtime error.
pub type ObjResult = Result<BaseObject, String>;

/// The payload of an object.
#[derive(Debug)]
pub enum ValueType {
    Int(i64),
    Bool(bool),
    NativeFunction(NativeFunctionType),
    Function(FunctionType),
    Str(String),
    Vector(Vec<BaseObject>),
    Null,
}

/// The universal value: a class, a payload, and the receiver against which
/// the object was looked up, where it is a member.
#[derive(Debug)]
pub struct BaseObject {
    pub class: Class,
    pub internal_value: ValueType,
    pub parent_obj: Option<Box<BaseObject>>,
}

/// A class: a name, the table of its members, and its superclass.
#[derive(Debug)]
pub struct Class {
    pub name: String,
    pub instance_vars: Environment,
    pub super_class: Option<Box<Class>>,
}

/// A payload as a mathematical value.
pub enum ValueView {
    Int(i64),
    Bool(bool),
    NativeFunction(Seq<char>, Native),
    Function(Seq<char>, Seq<Seq<char>>, Seq<u8>),
    Str(Seq<char>),
    Vector(Seq<ObjectView>),
    Null,
}

/// An object as a mathematical value.
pub struct ObjectView {
    pub class: ClassView,
    pub value: ValueView,
    pub parent: Option<Box<ObjectView>>,
}

/// A class as a mathematical value.
pub struct ClassView {
    pub name: Seq<char>,
    pub vars: Bindings,
    pub super_class: Option<Box<ClassView>>,
}

impl ValueType {
    /// The model of this payload.
    pub open spec fn model(&self) -> ValueView
        decreases self,
    {
        match self {
            ValueType::Int(i) => ValueView::Int(*i),
            ValueType::Bool(b) => ValueView::Bool(*b),
            ValueType::NativeFunction(f) => ValueView::NativeFunction(f.0@, f.1),
            ValueType::Function(f) => ValueView::Function(
                f.0@,
                Seq::new(f.1.len() as nat, |i: int| f.1[i]@),
                f.2@,
            ),
            ValueType::Str(s) => ValueView::Str(s@),
            ValueType::Vector(v) => ValueView::Vector(
                Seq::new(
                    v.len() as nat,
                    |i: int|
                        if 0 <= i < v.len() {
                            v[i].model()
                        } else {
                            arbitrary()
                        },
                ),
            ),
            ValueType::Null => ValueView::Null,
        }
    }
}

impl BaseObject {
    /// The model of this object.
    pub open spec fn model(&self) -> ObjectView
        decreases self,
    {
        ObjectView {
            class: self.class.model(),
            value: self.internal_value.model(),
            parent: match self.parent_obj {
                Some(p) => Some(Box::new(p.model())),
                None => None,
            },
        }
    }
}

impl Class {
    /// The model of this class.
    pub open spec fn model(&self) -> ClassView
        decreases self,
    {
        ClassView {
            name: self.name@,
            vars: Seq::new(
                self.instance_vars.store.len() as nat,
                |i: int|
                    if 0 <= i < self.instance_vars.store.len() {
                        (self.instance_vars.store[i].0@, self.instance_vars.store[i].1.model())
                    } else {
                        arbitrary()
                    },
            ),
            super_class: match self.super_class {
                Some(p) => Some(Box::new(p.model())),
                None => None,
            },
        }
    }
}

impl View for ValueType {
    type V = ValueView;

    open spec fn view(&self) -> ValueView {
        self.model()
    }
}

impl View for BaseObject {
    type V = ObjectView;

    open spec fn view(&self) -> ObjectView {
        self.model()
    }
}

impl View for Class {
    type V = ClassView;

    open spec fn view(&self) -> ClassView {
        self.model()
    }
}

/// The models of a sequence of objects, in order.
pub open spec fn objects_view(v: Seq<BaseObject>) -> Seq<ObjectView> {
    Seq::new(v.len(), |i: int| v[i].model())
}

/// The views of a sequence of strings, in order.
pub open spec fn strings_view(v: Seq<String>) -> Seq<Seq<char>> {
    Seq::new(v.len(), |i: int| v[i]@)
}

/// The model of a table of members.
pub open spec fn bindings_view(v: Seq<(String, BaseObject)>) -> Bindings {
    Seq::new(v.len(), |i: int| (v[i].0@, v[i].1.model()))
}

/// The model of a vector payload holds the models of its items.
pub proof fn lemma_vector_model(v: ValueType)
    requires
        v is Vector,
    ensures
        v.model() == ValueView::Vector(objects_view(v->Vector_0@)),
{
    assert(v.model()->Vector_0 =~= objects_view(v->Vector_0@));
}

/// The model of a function payload holds the views of its parts.
pub proof fn lemma_function_model(v: ValueType)
    requires
        v is Function,
    ensures
        v.model() == ValueView::Function(
            v->Function_0.0@,
            strings_view(v->Function_0.1@),
            v->Function_0.2@,
        ),
{
    assert(v.model()->Function_1 =~= strings_view(v->Function_0.1@));
}

/// The model of a class holds the model of its table.
pub proof fn lemma_class_model(c: Class)
    ensures
        c.model().name == c.name@,
        c.model().vars == c.instance_vars@,
        c.model().super_class == match c.super_class {
            Some(p) => Some(Box::new(p.model())),
            None => None,
        },
{
    assert(c.model().vars =~= bindings_view(c.instance_vars.store@));
}

/// The member `name` of class `c`: the one in its own table, else the one
/// of its superclass.
pub open spec fn class_lookup(c: ClassView, name: Seq<char>) -> Option<ObjectView>
    decreases c,
{
    match lookup(c.vars, name) {
        Some(x) => Some(x),
        None => match c.super_class {
            Some(s) => class_lookup(*s, name),
            None => None,
        },
    }
}

/// Whether two classes are the same: the same name, and the same
/// superclasses all the way up.
pub open spec fn class_same(a: ClassView, b: ClassView) -> bool
    decreases a,
{
    a.name == b.name && match (a.super_class, b.super_class) {
        (Some(x), Some(y)) => class_same(*x, *y),
        (None, None) => true,
        _ => false,
    }
}

/// Whether two payloads are the same: the same shape and the same content.
pub open spec fn value_same(a: ValueView, b: ValueView) -> bool
    decreases a,
{
    match (a, b) {
        (ValueView::Int(x), ValueView::Int(y)) => x == y,
        (ValueView::Bool(x), ValueView::Bool(y)) => x == y,
        (ValueView::NativeFunction(n, f), ValueView::NativeFunction(m, g)) => n == m && f == g,
        (ValueView::Function(n, p, c), ValueView::Function(m, q, d)) => n == m && p == q && c == d,
        (ValueView::Str(x), ValueView::Str(y)) => x == y,
        (ValueView::Vector(x), ValueView::Vector(y)) => x.len() == y.len() && forall|i: int|
            0 <= i < x.len() ==> object_same(#[trigger] x[i], y[i]),
        (ValueView::Null, ValueView::Null) => true,
        _ => false,
    }
}

/// Whether two objects are the same in every part: class, payload and
/// receiver.
pub open spec fn object_same(a: ObjectView, b: ObjectView) -> bool
    decreases a,
{
    class_same(a.class, b.class) && value_same(a.value, b.value) && match (a.parent, b.parent) {
        (Some(x), Some(y)) => object_same(*x, *y),
        (None, None) => true,
        _ => false,
    }
}

/// Whether two objects are equal to the language: the same payload and the
/// same class. The receivers do not count.
pub open spec fn objects_equal(a: ObjectView, b: ObjectView) -> bool {
    value_same(a.value, b.value) && class_same(a.class, b.class)
}

/// What a class is called in messages.
pub open spec fn class_text(c: ClassView) -> Seq<char> {
    "Class '"@ + c.name + "'"@
}

/// How a character stands in the inspect form of a string.
pub open spec fn escaped(c: char) -> Seq<char> {
    if c == '\\' {
        seq!['\\', '\\']
    } else if c == '\'' {
        seq!['\\', '\'']
    } else if c == '"' {
        seq!['\\', '"']
    } else if c == '\n' {
        seq!['\\', 'n']
    } else if c == '\r' {
        seq!['\\', 'r']
    } else if c == '\t' {
        seq!['\\', 't']
    } else if c == '\0' {
        seq!['\\', '0']
    } else {
        seq![c]
    }
}

/// The first `n` characters of `s`, each in its inspect form.
pub open spec fn escaped_text(s: Seq<char>, n: nat) -> Seq<char>
    decreases n,
{
    if n == 0 || n > s.len() {
        Seq::empty()
    } else {
        escaped_text(s, (n - 1) as nat) + escaped(s[n - 1])
    }
}

/// The text of a payload: what `to_string` gives, or, where `inspect` is
/// set, what `to_inspect_string` gives. The two differ for a string, which
/// is quoted and escaped for inspection, and so for a vector that holds one.
pub open spec fn value_text(v: ValueView, inspect: bool) -> Seq<char>
    decreases v, 0nat,
{
    match v {
        ValueView::Int(i) => int_text(i as int),
        ValueView::Bool(b) => if b {
            "true"@
        } else {
            "false"@
        },
        ValueView::NativeFunction(name, _) => "Native Function "@ + name,
        ValueView::Function(name, _, _) => "Function '"@ + name + "'"@,
        ValueView::Str(s) => if inspect {
            "\""@ + escaped_text(s, s.len()) + "\""@
        } else {
            s
        },
        ValueView::Vector(items) => "["@ + joined_text(items, items.len(), inspect, ", "@) + "]"@,
        ValueView::Null => "null"@,
    }
}

/// The texts of the first `n` items, with `sep` between them.
pub open spec fn joined_text(
    items: Seq<ObjectView>,
    n: nat,
    inspect: bool,
    sep: Seq<char>,
) -> Seq<char>
    decreases items, n,
{
    if n == 0 || n > items.len() {
        Seq::empty()
    } else if n == 1 {
        value_text(items[0].value, inspect)
    } else {
        joined_text(items, (n - 1) as nat, inspect, sep) + sep + value_text(
            items[n - 1].value,
            inspect,
        )
    }
}

/// Whether a payload counts as true: a number that is not 0, `true`, a
/// string or a vector that is not empty, and every function.
pub open spec fn value_truthy(v: ValueView) -> bool {
    match v {
        ValueView::Int(i) => i != 0,
        ValueView::Bool(b) => b,
        ValueView::NativeFunction(_, _) => true,
        ValueView::Function(_, _, _) => true,
        ValueView::Str(s) => s.len() != 0,
        ValueView::Vector(items) => items.len() != 0,
        ValueView::Null => false,
    }
}

/// The message of a call of an object that is no function.
pub open spec fn not_callable_text(this: ObjectView) -> Seq<char> {
    "'"@ + value_text(this.value, false) + "' ("@ + class_text(this.class) + ") is not callable"@
}


/// A copy of a table of members.
pub fn copy_bindings(v: &Vec<(String, BaseObject)>) -> (r: Vec<(String, BaseObject)>)
    ensures
        bindings_view(r@) == bindings_view(v@),
    decreases v,
{
    let mut out: Vec<(String, BaseObject)> = Vec::new();
    let mut i: usize = 0;
    while i < v.len()
        invariant
            i <= v.len(),
            out@.len() == i,
            forall|k: int|
                0 <= k < i ==> out@[k].0@ == v@[k].0@ && out@[k].1.model() == v@[k].1.model(),
        decreases v.len() - i,
    {
        proof {
            assert(decreases_to!(v => v[i as int]));
        }
        out.push((v[i].0.clone(), v[i].1.copy()));
        i += 1;
    }
    proof {
        assert(bindings_view(out@) =~= bindings_view(v@));
    }
    out
}

/// A copy of a sequence of objects.
pub fn copy_objects(v: &Vec<BaseObject>) -> (r: Vec<BaseObject>)
    ensures
        objects_view(r@) == objects_view(v@),
    decreases v,
{
    let mut out: Vec<BaseObject> = Vec::new();
    let mut i: usize = 0;
    while i < v.len()
        invariant
            i <= v.len(),
            out@.len() == i,
            forall|k: int| 0 <= k < i ==> out@[k].model() == v@[k].model(),
        decreases v.len() - i,
    {
        proof {
            assert(decreases_to!(v => v[i as int]));
        }
        out.push(v[i].copy());
        i += 1;
    }
    proof {
        assert(objects_view(out@) =~= objects_view(v@));
    }
    out
}

/// A copy of a sequence of strings.
pub fn copy_strings(v: &Vec<String>) -> (r: Vec<String>)
    ensures
        strings_view(r@) == strings_view(v@),
{
    let mut out: Vec<String> = Vec::new();
    let mut i: usize = 0;
    while i < v.len()
        invariant
            i <= v.len(),
            out@.len() == i,
            forall|k: int| 0 <= k < i ==> out@[k]@ == v@[k]@,
        decreases v.len() - i,
    {
        out.push(v[i].clone());
        i += 1;
    }
    proof {
        assert(strings_view(out@) =~= strings_view(v@));
    }
    out
}

/// A copy of a sequence of bytes.
pub fn copy_bytes(v: &Vec<u8>) -> (r: Vec<u8>)
    ensures
        r@ == v@,
{
    let mut out: Vec<u8> = Vec::new();
    let mut i: usize = 0;
    while i < v.len()
        invariant
            i <= v.len(),
            out@ == v@.subrange(0, i as int),
        decreases v.len() - i,
    {
        out.push(v[i]);
        i += 1;
        proof {
            assert(out@ =~= v@.subrange(0, i as int));
        }
    }
    proof {
        assert(v@.subrange(0, v@.len() as int) =~= v@);
    }
    out
}

/// Whether two sequences of strings hold the same texts.
pub fn strings_equal(a: &Vec<String>, b: &Vec<String>) -> (r: bool)
    ensures
        r == (strings_view(a@) == strings_view(b@)),
{
    if a.len() != b.len() {
        proof {
            assert(strings_view(a@).len() != strings_view(b@).len());
        }
        return false;
    }
    let mut i: usize = 0;
    while i < a.len()
        invariant
            i <= a.len(),
            a.len() == b.len(),
            forall|k: int| 0 <= k < i ==> a@[k]@ == b@[k]@,
        decreases a.len() - i,
    {
        if a[i] != b[i] {
            proof {
                assert(strings_view(a@)[i as int] != strings_view(b@)[i as int]);
            }
            return false;
        }
        i += 1;
    }
    proof {
        assert(strings_view(a@) =~= strings_view(b@));
    }
    true
}

/// Whether two sequences of bytes are the same.
pub fn bytes_equal(a: &Vec<u8>, b: &Vec<u8>) -> (r: bool)
    ensures
        r == (a@ == b@),
{
    if a.len() != b.len() {
        return false;
    }
    let mut i: usize = 0;
    while i < a.len()
        invariant
            i <= a.len(),
            a.len() == b.len(),
            forall|k: int| 0 <= k < i ==> a@[k] == b@[k],
        decreases a.len() - i,
    {
        if a[i] != b[i] {
            return false;
        }
        i += 1;
    }
    proof {
        assert(a@ =~= b@);
    }
    true
}

impl ValueType {
    /// A copy of this payload.
    pub fn copy(&self) -> (r: Self)
        ensures
            r.model() == self.model(),
        decreases self,
    {
        match self {
            ValueType::Int(i) => ValueType::Int(*i),
            ValueType::Bool(b) => ValueType::Bool(*b),
            ValueType::NativeFunction(f) => ValueType::NativeFunction((f.0.clone(), f.1)),
            ValueType::Function(f) => {
                let r = ValueType::Function((f.0.clone(), copy_strings(&f.1), copy_bytes(&f.2)));
                proof {
                    lemma_function_model(r);
                    lemma_function_model(*self);
                }
                r
            },
            ValueType::Str(s) => ValueType::Str(s.clone()),
            ValueType::Vector(v) => {
                let r = ValueType::Vector(copy_objects(v));
                proof {
                    lemma_vector_model(r);
                    lemma_vector_model(*self);
                }
                r
            },
            ValueType::Null => ValueType::Null,
        }
    }

    /// Whether this payload and `other` are the same.
    #[verifier::rlimit(30)]
    #[verifier::spinoff_prover]
    pub fn same_as(&self, other: &Self) -> (r: bool)
        ensures
            r == value_same(self.model(), other.model()),
        decreases self, 0nat,
    {
        match (self, other) {
            (ValueType::Int(x), ValueType::Int(y)) => *x == *y,
            (ValueType::Bool(x), ValueType::Bool(y)) => *x == *y,
            (ValueType::NativeFunction(f), ValueType::NativeFunction(g)) => f.0 == g.0 && f.1
                == g.1,
            (ValueType::Function(f), ValueType::Function(g)) => {
                proof {
                    lemma_function_model(*self);
                    lemma_function_model(*other);
                }
                f.0 == g.0 && strings_equal(&f.1, &g.1) && bytes_equal(&f.2, &g.2)
            },
            (ValueType::Str(x), ValueType::Str(y)) => *x == *y,
            (ValueType::Vector(x), ValueType::Vector(y)) => {
                proof {
                    lemma_vector_model(*self);
                    lemma_vector_model(*other);
                }
                if x.len() != y.len() {
                    return false;
                }
                let mut i: usize = 0;
                while i < x.len()
                    invariant
                        i <= x.len(),
                        x.len() == y.len(),
                        *self == ValueType::Vector(*x),
                        self.model() == ValueView::Vector(objects_view(x@)),
                        other.model() == ValueView::Vector(objects_view(y@)),
                        forall|k: int|
                            0 <= k < i ==> object_same(
                                #[trigger] objects_view(x@)[k],
                                objects_view(y@)[k],
                            ),
                    decreases x.len() - i,
                {
                    proof {
                        assert(self->Vector_0 == *x);
                        assert(decreases_to!(self => self->Vector_0));
                        assert(decreases_to!(x => x[i as int]));
                    }
                    if !x[i].same_as(&y[i]) {
                        proof {
                            assert(!object_same(objects_view(x@)[i as int], objects_view(y@)[i as int]));
                        }
                        return false;
                    }
                    i += 1;
                }
                true
            },
            (ValueType::Null, ValueType::Null) => true,
            _ => false,
        }
    }

    /// Appends the text of this payload to `out`: its inspect form where
    /// `inspect` is set.
    #[verifier::rlimit(30)]
    #[verifier::spinoff_prover]
    pub fn write_text(&self, inspect: bool, out: &mut String)
        ensures
            final(out)@ == old(out)@ + value_text(self.model(), inspect),
        decreases self, 2nat,
    {
        match self {
            ValueType::Int(i) => {
                push_int(out, *i);
            },
            ValueType::Bool(b) => {
                if *b {
                    out.append("true");
                } else {
                    out.append("false");
                }
            },
            ValueType::NativeFunction(f) => {
                out.append("Native Function ");
                out.append(f.0.as_str());
                proof {
                    assert(out@ =~= old(out)@ + value_text(self.model(), inspect));
                }
            },
            ValueType::Function(f) => {
                out.append("Function '");
                out.append(f.0.as_str());
                out.append("'");
                proof {
                    assert(out@ =~= old(out)@ + value_text(self.model(), inspect));
                }
            },
            ValueType::Str(s) => {
                if inspect {
                    out.append("\"");
                    let ghost head = out@;
                    for c in it: s.as_str().chars()
                        invariant
                            it.seq() == s@,
                            out@ == head + escaped_text(s@, it.index() as nat),
                    {
                        push_escaped(out, c);
                        proof {
                            assert(out@ =~= head + escaped_text(s@, (it.index() + 1) as nat));
                        }
                    }
                    out.append("\"");
                    proof {
                        assert(out@ =~= old(out)@ + value_text(self.model(), inspect));
                    }
                } else {
                    out.append(s.as_str());
                }
            },
            ValueType::Vector(v) => {
                proof {
                    lemma_vector_model(*self);
                }
                out.append("[");
                let ghost head = out@;
                write_objects(v, inspect, ", ", out);
                out.append("]");
                proof {
                    assert(out@ =~= old(out)@ + value_text(self.model(), inspect));
                }
            },
            ValueType::Null => {
                out.append("null");
            },
        }
    }
}

/// Appends the texts of the objects to `out`, with `sep` between them.
#[verifier::rlimit(30)]
#[verifier::spinoff_prover]
pub fn write_objects(v: &Vec<BaseObject>, inspect: bool, sep: &str, out: &mut String)
    ensures
        final(out)@ == old(out)@ + joined_text(objects_view(v@), v@.len(), inspect, sep@),
    decreases v, 1nat,
{
    let ghost head = out@;
    let ghost items = objects_view(v@);
    let mut i: usize = 0;
    proof {
        assert(out@ =~= head + joined_text(items, 0, inspect, sep@));
    }
    while i < v.len()
        invariant
            i <= v.len(),
            items == objects_view(v@),
            out@ == head + joined_text(items, i as nat, inspect, sep@),
        decreases v.len() - i,
    {
        proof {
            assert(decreases_to!(v => v[i as int]));
            assert(decreases_to!(v[i as int] => v[i as int].internal_value));
        }
        if i > 0 {
            out.append(sep);
        }
        v[i].internal_value.write_text(inspect, out);
        i += 1;
        proof {
            assert(out@ =~= head + joined_text(items, i as nat, inspect, sep@));
        }
    }
}

/// Appends the inspect form of `c` to `out`.
fn push_escaped(out: &mut String, c: char)
    ensures
        final(out)@ == old(out)@ + escaped(c),
{
    if c == '\\' {
        out.push('\\');
        out.push('\\');
    } else if c == '\'' {
        out.push('\\');
        out.push('\'');
    } else if c == '"' {
        out.push('\\');
        out.push('"');
    } else if c == '\n' {
        out.push('\\');
        out.push('n');
    } else if c == '\r' {
        out.push('\\');
        out.push('r');
    } else if c == '\t' {
        out.push('\\');
        out.push('t');
    } else if c == '\0' {
        out.push('\\');
        out.push('0');
    } else {
        out.push(c);
    }
    proof {
        assert(out@ =~= old(out)@ + escaped(c));
    }
}

impl Class {
    /// A copy of this class.
    pub fn copy(&self) -> (r: Self)
        ensures
            r.model() == self.model(),
        decreases self,
    {
        let super_class = match &self.super_class {
            Some(p) => Some(Box::new((&**p).copy())),
            None => None,
        };
        let r = Class {
            name: self.name.clone(),
            instance_vars: Environment { store: copy_bindings(&self.instance_vars.store) },
            super_class,
        };
        proof {
            lemma_class_model(r);
            lemma_class_model(*self);
        }
        r
    }

    /// Whether this class and `other` are the same.
    pub fn same_as(&self, other: &Self) -> (r: bool)
        ensures
            r == class_same(self.model(), other.model()),
        decreases self,
    {
        if self.name != other.name {
            return false;
        }
        match (&self.super_class, &other.super_class) {
            (Some(x), Some(y)) => (&**x).same_as(&**y),
            (None, None) => true,
            _ => false,
        }
    }

    /// What the class is called in messages.
    pub fn to_string(&self) -> (r: String)
        ensures
            r@ == class_text(self.model()),
    {
        let mut r = String::from_str("Class '");
        r.append(self.name.as_str());
        r.append("'");
        r
    }

    /// The member `s`: the one in the class's own table, else the one of
    /// its superclass.
    pub fn get_instance_var(&self, s: String) -> (r: Option<BaseObject>)
        ensures
            match r {
                Some(x) => class_lookup(self.model(), s@) == Some(x.model()),
                None => class_lookup(self.model(), s@) is None,
            },
        decreases self,
    {
        proof {
            lemma_class_model(*self);
        }
        let x = self.instance_vars.get(s.clone());
        match x {
            Some(_) => x,
            None => match &self.super_class {
                Some(y) => (&**y).get_instance_var(s),
                None => None,
            },
        }
    }
}

impl BaseObject {
    /// A copy of this object.
    pub fn copy(&self) -> (r: Self)
        ensures
            r.model() == self.model(),
        decreases self,
    {
        let parent_obj = match &self.parent_obj {
            Some(p) => Some(Box::new((&**p).copy())),
            None => None,
        };
        BaseObject {
            class: self.class.copy(),
            internal_value: self.internal_value.copy(),
            parent_obj,
        }
    }

    /// Whether this object and `other` are the same in every part.
    pub fn same_as(&self, other: &Self) -> (r: bool)
        ensures
            r == object_same(self.model(), other.model()),
        decreases self, 0nat,
    {
        if !self.class.same_as(&other.class) {
            return false;
        }
        if !self.internal_value.same_as(&other.internal_value) {
            return false;
        }
        match (&self.parent_obj, &other.parent_obj) {
            (Some(x), Some(y)) => (&**x).same_as(&**y),
            (None, None) => true,
            _ => false,
        }
    }

    /// The text of the object.
    pub fn to_string(&self) -> (r: String)
        ensures
            r@ == value_text(self@.value, false),
    {
        let mut r = String::new();
        self.internal_value.write_text(false, &mut r);
        proof {
            assert(r@ =~= value_text(self@.value, false));
        }
        r
    }

    /// The text of the object for inspection.
    pub fn to_inspect_string(&self) -> (r: String)
        ensures
            r@ == value_text(self@.value, true),
    {
        let mut r = String::new();
        self.internal_value.write_text(true, &mut r);
        proof {
            assert(r@ =~= value_text(self@.value, true));
        }
        r
    }

    /// The member `name` of the object's class.
    pub fn instance_get(&self, name: String) -> (r: Option<BaseObject>)
        ensures
            match r {
                Some(x) => class_lookup(self@.class, name@) == Some(x@),
                None => class_lookup(self@.class, name@) is None,
            },
    {
        self.class.get_instance_var(name)
    }

    /// Whether the object counts as true.
    pub fn is_truthy(&self) -> (r: bool)
        ensures
            r == value_truthy(self@.value),
    {
        proof {
            assert(self@.value == self.internal_value.model());
        }
        match &self.internal_value {
            ValueType::Int(i) => *i != 0,
            ValueType::Bool(b) => *b,
            ValueType::NativeFunction(_) => true,
            ValueType::Function(_) => true,
            ValueType::Str(s) => {
                let n = s.as_str().unicode_len();
                n != 0
            },
            ValueType::Vector(v) => {
                proof {
                    lemma_vector_model(self.internal_value);
                }
                v.len() != 0
            },
            ValueType::Null => false,
        }
    }

    /// Whether the object is equal to `other` to the language: the same
    /// payload and the same class.
    pub fn equal_to(&self, other: BaseObject) -> (r: bool)
        ensures
            r == objects_equal(self@, other@),
    {
        self.internal_value.same_as(&other.internal_value) && self.class.same_as(&other.class)
    }

    /// The receiver against which the object was looked up.
    pub fn parent(&self) -> (r: Option<Box<BaseObject>>)
        ensures
            match r {
                Some(p) => self@.parent == Some(Box::new(p@)),
                None => self@.parent is None,
            },
    {
        match &self.parent_obj {
            Some(p) => Some(Box::new((&**p).copy())),
            None => None,
        }
    }

    /// Makes `parent` the receiver of the object.
    pub fn set_parent(&mut self, parent: BaseObject)
        ensures
            final(self)@ == (ObjectView { parent: Some(Box::new(parent@)), ..old(self)@ }),
    {
        self.parent_obj = Some(Box::new(parent))
    }
}

impl Clone for ValueType {
    fn clone(&self) -> (r: Self)
        ensures
            r@ == self@,
    {
        self.copy()
    }
}

impl Clone for Class {
    fn clone(&self) -> (r: Self)
        ensures
            r@ == self@,
    {
        self.copy()
    }
}

impl Clone for BaseObject {
    fn clone(&self) -> (r: Self)
        ensures
            r@ == self@,
    {
        self.copy()
    }
}

impl PartialEq for ValueType {
    fn eq(&self, other: &Self) -> (r: bool) {
        self.same_as(other)
    }
}

impl PartialEqSpecImpl for ValueType {
    open spec fn obeys_eq_spec() -> bool {
        true
    }

    open spec fn eq_spec(&self, other: &Self) -> bool {
        value_same(self.model(), other.model())
    }
}

impl PartialEq for Class {
    fn eq(&self, other: &Self) -> (r: bool) {
        self.same_as(other)
    }
}

impl PartialEqSpecImpl for Class {
    open spec fn obeys_eq_spec() -> bool {
        true
    }

    open spec fn eq_spec(&self, other: &Self) -> bool {
        class_same(self.model(), other.model())
    }
}

impl PartialEq for BaseObject {
    fn eq(&self, other: &Self) -> (r: bool) {
        self.same_as(other)
    }
}

impl PartialEqSpecImpl for BaseObject {
    open spec fn obeys_eq_spec() -> bool {
        true
    }

    open spec fn eq_spec(&self, other: &Self) -> bool {
        object_same(self.model(), other.model())
    }
}

} // verus!
