//! The scope: the variables that the statements of one document have
//! assigned so far.

use vstd::prelude::*;
use crate::assoc::{
    lemma_lookup_none, lemma_lookup_prefix, lemma_to_map_push, lemma_to_map_update, to_map, Text,
};
use crate::value::{Value, ValueView};

verus! {

/// One variable with its value.
#[derive(Debug)]
struct Binding {
    name: String,
    value: Value,
}

impl View for Binding {
    type V = (Text, ValueView);

    closed spec fn view(&self) -> (Text, ValueView) {
        (self.name@, self.value@)
    }
}

/// A flat mapping from variable name to value.
#[derive(Debug)]
pub struct Scope {
    bindings: Vec<Binding>,
}

impl View for Scope {
    type V = Map<Text, ValueView>;

    closed spec fn view(&self) -> Map<Text, ValueView> {
        to_map(self.entries())
    }
}

impl Default for Scope {
    fn default() -> (r: Scope)
        ensures
            r.wf(),
            r@ == Map::<Text, ValueView>::empty(),
    {
        let r = Scope { bindings: Vec::new() };
        assert(r@ =~= Map::<Text, ValueView>::empty());
        r
    }
}

impl Scope {
    closed spec fn entries(&self) -> Seq<(Text, ValueView)> {
        Seq::new(self.bindings@.len(), |i: int| self.bindings@[i]@)
    }

    /// Every value in the scope is well formed.
    pub closed spec fn wf(&self) -> bool {
        forall|i: int| 0 <= i < self.bindings@.len() ==> (#[trigger] self.bindings@[i]).value.wf()
    }

    /// Where the scope holds `name`: the last binding of it.
    fn position(&self, name: &String) -> (r: Option<usize>)
        ensures
            match r {
                Some(i) => {
                    &&& i < self.bindings@.len()
                    &&& self.bindings@[i as int].name@ == name@
                    &&& forall|j: int|
                        i < j < self.entries().len() ==> (#[trigger] self.entries()[j]).0 != name@
                    &&& self@.contains_key(name@)
                    &&& self@[name@] == self.bindings@[i as int].value@
                },
                None => !self@.contains_key(name@),
            },
    {
        let mut i: usize = self.bindings.len();
        while i > 0
            invariant
                i <= self.bindings.len(),
                forall|j: int|
                    i <= j < self.entries().len() ==> (#[trigger] self.entries()[j]).0 != name@,
            decreases i,
        {
            i -= 1;
            assert(self.entries()[i as int] == self.bindings@[i as int]@);
            if self.bindings[i].name == *name {
                proof {
                    lemma_lookup_prefix(self.entries(), i + 1, name@);
                    assert(self.entries().take(i + 1).last() == self.entries()[i as int]);
                }
                return Some(i);
            }
        }
        proof {
            lemma_lookup_none(self.entries(), name@);
        }
        None
    }

    /// The value of `name`, if the scope has one.
    pub fn get(&self, name: &str) -> (r: Option<Value>)
        requires
            self.wf(),
        ensures
            match r {
                Some(v) => self@.contains_key(name@) && v@ == self@[name@] && v.wf(),
                None => !self@.contains_key(name@),
            },
    {
        let key = name.to_owned();
        match self.position(&key) {
            Some(i) => Some(self.bindings[i].value.clone()),
            None => None,
        }
    }

    /// Binds `name` to `value`, in place of any value that it had.
    pub fn set(&mut self, name: &str, value: Value)
        requires
            old(self).wf(),
            value.wf(),
        ensures
            final(self).wf(),
            final(self)@ == old(self)@.insert(name@, value@),
    {
        let key = name.to_owned();
        match self.position(&key) {
            Some(i) => {
                proof {
                    lemma_to_map_update(self.entries(), i as int, name@, value@);
                }
                let ghost before = self.entries();
                self.bindings.set(i, Binding { name: key, value });
                assert(self.entries() =~= before.update(i as int, (name@, value@)));
            },
            None => {
                proof {
                    lemma_to_map_push(self.entries(), (name@, value@));
                }
                let ghost before = self.entries();
                self.bindings.push(Binding { name: key, value });
                assert(self.entries() =~= before.push((name@, value@)));
            },
        }
    }
}

} // verus!
