use vstd::prelude::*;
use crate::object::{Object, ObjectView};

verus! {

/// An ordered set of name-to-object bindings: the live variables of one
/// call frame, and also the field map of a class or instance. A new
/// binding for an existing name is appended and shadows the older one;
/// lookups walk the bindings from newest to oldest.
#[derive(Debug)]
pub struct Scope {
    pub entries: Vec<(String, Object)>,
}

/// The model of a binding list.
pub open spec fn view_bindings(s: Seq<(String, Object)>) -> Seq<(Seq<char>, ObjectView)> {
    s.map_values(|p: (String, Object)| (p.0@, p.1.deep_view()))
}

/// The newest binding for `name`, if any.
pub open spec fn lookup_binding(b: Seq<(Seq<char>, ObjectView)>, name: Seq<char>) -> Option<
    ObjectView,
>
    decreases b.len(),
{
    if b.len() == 0 {
        None
    } else if b.last().0 == name {
        Some(b.last().1)
    } else {
        lookup_binding(b.drop_last(), name)
    }
}

impl View for Scope {
    type V = Seq<(Seq<char>, ObjectView)>;

    open spec fn view(&self) -> Seq<(Seq<char>, ObjectView)> {
        view_bindings(self.entries@)
    }
}

impl DeepView for Scope {
    type V = Seq<(Seq<char>, ObjectView)>;

    open spec fn deep_view(&self) -> Seq<(Seq<char>, ObjectView)> {
        self.view()
    }
}

impl Scope {
    /// A scope with no bindings.
    pub fn new() -> (r: Scope)
        ensures
            r@ =~= Seq::<(Seq<char>, ObjectView)>::empty(),
    {
        Scope { entries: Vec::new() }
    }

    /// Binds `name` to `obj`, shadowing any older binding of the name.
    pub fn insert(&mut self, name: &str, obj: Object)
        ensures
            final(self)@ =~~= old(self)@.push((name@, obj.deep_view())),
    {
        let owned = name.to_owned();
        self.entries.push((owned, obj));
    }

    /// The object bound to `name`, if any; the newest binding wins.
    pub fn get(&self, name: &str) -> (r: Option<Object>)
        ensures
            match r {
                Some(o) => lookup_binding(self@, name@) == Some(o.deep_view()),
                None => lookup_binding(self@, name@) is None,
            },
    {
        let key: String = name.to_owned();
        let mut i: usize = self.entries.len();
        proof {
            assert(self@.take(self.entries@.len() as int) =~= self@);
        }
        while i > 0
            invariant
                0 <= i <= self.entries@.len(),
                key@ == name@,
                lookup_binding(self@, name@) == lookup_binding(self@.take(i as int), name@),
            decreases i,
        {
            proof {
                assert(self@.take(i as int).last() == self@[i as int - 1]);
                assert(self@[i as int - 1] == (self.entries@[i as int - 1].0@, self.entries@[
                    i as int - 1].1.deep_view()));
                assert(self@.take(i as int).drop_last() =~= self@.take(i as int - 1));
            }
            let entry = &self.entries[i - 1];
            if entry.0 == key {
                return Some(entry.1.clone());
            }
            i = i - 1;
        }
        proof {
            assert(self@.take(0) =~= Seq::<(Seq<char>, ObjectView)>::empty());
        }
        None
    }

    /// The number of bindings, shadowed ones included.
    pub fn len(&self) -> (r: usize)
        ensures
            r == self@.len(),
    {
        self.entries.len()
    }
}

} // verus!
