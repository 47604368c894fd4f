//! Environments: variables by name.

use vstd::prelude::*;
use vstd::pervasive::VecAdditionalExecFns;
use crate::obj::{BaseObject, ObjectView, bindings_view, copy_bindings};

verus! {

/// The model of an environment: names with their objects. Where a name
/// stands twice, the first entry counts.
pub type Bindings = Seq<(Seq<char>, ObjectView)>;

/// The object bound to `name`, if any.
pub open spec fn lookup(b: Bindings, name: Seq<char>) -> Option<ObjectView>
    decreases b.len(),
{
    if b.len() == 0 {
        None
    } else if b[0].0 == name {
        Some(b[0].1)
    } else {
        lookup(b.drop_first(), name)
    }
}

/// `b` with `name` bound to `val`: in place of the entry that `name` has,
/// or at the end where it has none.
pub open spec fn bind(b: Bindings, name: Seq<char>, val: ObjectView) -> Bindings
    decreases b.len(),
{
    if b.len() == 0 {
        seq![(name, val)]
    } else if b[0].0 == name {
        seq![(name, val)] + b.drop_first()
    } else {
        seq![b[0]] + bind(b.drop_first(), name, val)
    }
}

/// A variable reads back what it was last bound to.
pub proof fn lemma_lookup_bound(b: Bindings, name: Seq<char>, val: ObjectView)
    ensures
        lookup(bind(b, name, val), name) == Some(val),
    decreases b.len(),
{
    if b.len() > 0 && b[0].0 != name {
        lemma_lookup_bound(b.drop_first(), name, val);
        assert(bind(b, name, val).drop_first() =~= bind(b.drop_first(), name, val));
    }
}

/// Binding one name leaves every other name as it was.
pub proof fn lemma_lookup_other(b: Bindings, name: Seq<char>, val: ObjectView, other: Seq<char>)
    requires
        other != name,
    ensures
        lookup(bind(b, name, val), other) == lookup(b, other),
    decreases b.len(),
{
    let r = bind(b, name, val);
    if b.len() > 0 {
        if b[0].0 == name {
            assert(r.drop_first() =~= b.drop_first());
            assert(r[0].0 == name);
        } else {
            lemma_lookup_other(b.drop_first(), name, val, other);
            assert(r.drop_first() =~= bind(b.drop_first(), name, val));
            assert(r[0] == b[0]);
        }
    } else {
        assert(r[0].0 == name);
        assert(r.drop_first() =~= b);
    }
}

/// Where no entry before `i` has the name and entry `i` has it, looking the
/// name up finds entry `i`, and binding it replaces entry `i`.
pub proof fn lemma_found_at(b: Bindings, name: Seq<char>, val: ObjectView, i: int)
    requires
        0 <= i < b.len(),
        b[i].0 == name,
        forall|k: int| 0 <= k < i ==> (#[trigger] b[k]).0 != name,
    ensures
        lookup(b, name) == Some(b[i].1),
        bind(b, name, val) == b.update(i, (name, val)),
    decreases i,
{
    if i == 0 {
        assert(bind(b, name, val) =~= b.update(0, (name, val)));
    } else {
        let rest = b.drop_first();
        assert forall|k: int| 0 <= k < i - 1 implies (#[trigger] rest[k]).0 != name by {
            assert(rest[k] == b[k + 1]);
        }
        lemma_found_at(rest, name, val, i - 1);
        assert(bind(b, name, val) =~= b.update(i, (name, val)));
    }
}

/// Where no entry has the name, looking it up finds nothing, and binding it
/// adds an entry at the end.
pub proof fn lemma_not_found(b: Bindings, name: Seq<char>, val: ObjectView)
    requires
        forall|k: int| 0 <= k < b.len() ==> (#[trigger] b[k]).0 != name,
    ensures
        lookup(b, name) is None,
        bind(b, name, val) == b.push((name, val)),
    decreases b.len(),
{
    if b.len() > 0 {
        let rest = b.drop_first();
        assert forall|k: int| 0 <= k < rest.len() implies (#[trigger] rest[k]).0 != name by {
            assert(rest[k] == b[k + 1]);
        }
        lemma_not_found(rest, name, val);
        assert(bind(b, name, val) =~= b.push((name, val)));
    } else {
        assert(bind(b, name, val) =~= b.push((name, val)));
    }
}

/// A mapping from variable names to objects.
#[derive(Debug)]
pub struct Environment {
    pub store: Vec<(String, BaseObject)>,
}

impl View for Environment {
    type V = Bindings;

    open spec fn view(&self) -> Bindings {
        bindings_view(self.store@)
    }
}

impl Environment {
    /// An environment without variables.
    pub fn new() -> (r: Self)
        ensures
            r@ == Seq::<(Seq<char>, ObjectView)>::empty(),
    {
        let r = Environment { store: Vec::new() };
        proof {
            assert(r@ =~= Seq::<(Seq<char>, ObjectView)>::empty());
        }
        r
    }

    /// The index of the first entry for `name`.
    fn find(&self, name: &String) -> (r: Option<usize>)
        ensures
            match r {
                Some(i) => i < self.store.len() && self@[i as int].0 == name@ && forall|k: int|
                    0 <= k < i ==> (#[trigger] self@[k]).0 != name@,
                None => forall|k: int| 0 <= k < self@.len() ==> (#[trigger] self@[k]).0 != name@,
            },
    {
        let mut i: usize = 0;
        while i < self.store.len()
            invariant
                i <= self.store.len(),
                forall|k: int| 0 <= k < i ==> (#[trigger] self@[k]).0 != name@,
            decreases self.store.len() - i,
        {
            if self.store[i].0 == *name {
                return Some(i);
            }
            i += 1;
        }
        None
    }

    /// Binds `name` to `val`.
    #[verifier::rlimit(30)]
    #[verifier::spinoff_prover]
    pub fn set(&mut self, name: String, val: BaseObject)
        ensures
            final(self)@ == bind(old(self)@, name@, val@),
    {
        let ghost b = self@;
        match self.find(&name) {
            Some(i) => {
                proof {
                    lemma_found_at(b, name@, val@, i as int);
                }
                self.store.set(i, (name, val));
                proof {
                    assert(self@ =~= b.update(i as int, (name@, val@)));
                }
            },
            None => {
                proof {
                    lemma_not_found(b, name@, val@);
                }
                self.store.push((name, val));
                proof {
                    assert(self@ =~= b.push((name@, val@)));
                }
            },
        }
    }

    /// The object bound to `name`, if any.
    #[verifier::rlimit(30)]
    #[verifier::spinoff_prover]
    pub fn get(&self, name: String) -> (r: Option<BaseObject>)
        ensures
            match r {
                Some(x) => lookup(self@, name@) == Some(x@),
                None => lookup(self@, name@) is None,
            },
    {
        match self.find(&name) {
            Some(i) => {
                proof {
                    lemma_found_at(self@, name@, self@[i as int].1, i as int);
                }
                Some(self.store[i].1.clone())
            },
            None => {
                proof {
                    lemma_not_found(self@, name@, arbitrary());
                }
                None
            },
        }
    }

    /// Whether `name` is bound.
    pub fn has(&self, name: &String) -> (r: bool)
        ensures
            r == lookup(self@, name@) is Some,
    {
        match self.find(name) {
            Some(i) => {
                proof {
                    lemma_found_at(self@, name@, self@[i as int].1, i as int);
                }
                true
            },
            None => {
                proof {
                    lemma_not_found(self@, name@, arbitrary());
                }
                false
            },
        }
    }
}

impl Clone for Environment {
    fn clone(&self) -> (r: Self)
        ensures
            r@ == self@,
    {
        Environment { store: copy_bindings(&self.store) }
    }
}

impl Default for Environment {
    fn default() -> (r: Self)
        ensures
            r@ == Seq::<(Seq<char>, ObjectView)>::empty(),
    {
        Environment::new()
    }
}

} // verus!
