//! Scopes: the variables of a program and their values.

use std::rc::Rc;
use vstd::prelude::*;
use crate::object::{Object, ObjectView};
use crate::text::same_text;

verus! {

/// The value that the first entry for `key` from index `from` on holds, if
/// there is one.
pub open spec fn find(entries: Seq<(String, Object)>, key: Seq<char>, from: int) -> Option<
    ObjectView,
>
    decreases entries.len() - from,
{
    if from < 0 || from >= entries.len() {
        None
    } else if entries[from].0@ == key {
        Some(entries[from].1@)
    } else {
        find(entries, key, from + 1)
    }
}

/// The bindings that a lookup function gives.
pub open spec fn bindings(lookup: spec_fn(Seq<char>) -> Option<ObjectView>) -> Map<
    Seq<char>,
    ObjectView,
> {
    Map::new(|key: Seq<char>| lookup(key) is Some, |key: Seq<char>| lookup(key)->0)
}

/// A search from `from` on finds nothing where no entry from there on has the key.
proof fn lemma_find_none(entries: Seq<(String, Object)>, key: Seq<char>, from: int)
    requires
        0 <= from,
        forall|j: int| from <= j < entries.len() ==> entries[j].0@ != key,
    ensures
        find(entries, key, from) is None,
    decreases entries.len() - from,
{
    if from < entries.len() {
        lemma_find_none(entries, key, from + 1);
    }
}

/// A search from `from` on finds the entry at `at` where that is the first from
/// there on with the key.
proof fn lemma_find_first(entries: Seq<(String, Object)>, key: Seq<char>, from: int, at: int)
    requires
        0 <= from <= at < entries.len(),
        entries[at].0@ == key,
        forall|j: int| from <= j < at ==> entries[j].0@ != key,
    ensures
        find(entries, key, from) == Some(entries[at].1@),
    decreases at - from,
{
    if from < at {
        lemma_find_first(entries, key, from + 1, at);
    }
}

/// Searching after the entry at `at` was replaced by one with the same key.
proof fn lemma_find_replaced(
    entries: Seq<(String, Object)>,
    at: int,
    entry: (String, Object),
    key: Seq<char>,
    from: int,
)
    requires
        0 <= from,
        0 <= at < entries.len(),
        entries[at].0@ == entry.0@,
        forall|j: int| 0 <= j < at ==> entries[j].0@ != entry.0@,
    ensures
        find(entries.update(at, entry), key, from) == if key == entry.0@ && from <= at {
            Some(entry.1@)
        } else {
            find(entries, key, from)
        },
    decreases entries.len() - from,
{
    if from < entries.len() {
        lemma_find_replaced(entries, at, entry, key, from + 1);
    }
}

/// Searching after an entry with a new key was added at the end.
proof fn lemma_find_added(
    entries: Seq<(String, Object)>,
    entry: (String, Object),
    key: Seq<char>,
    from: int,
)
    requires
        0 <= from <= entries.len(),
    ensures
        find(entries.push(entry), key, from) == match find(entries, key, from) {
            Some(value) => Some(value),
            None => if key == entry.0@ {
                Some(entry.1@)
            } else {
                None
            },
        },
    decreases entries.len() - from,
{
    if from < entries.len() {
        lemma_find_added(entries, entry, key, from + 1);
    } else {
        assert(find(entries.push(entry), key, from + 1) is None);
    }
}

/// A scope: its own variables, and the scope around it.
///
/// A variable is looked up in the scope itself first and then outwards; it is
/// bound in the scope itself only. The scope keeps its variables as a list of
/// entries, of which the first for a name counts; binding a name again replaces
/// the value in that entry.
#[derive(Debug)]
pub struct Enviroment {
    parent: Option<Rc<Enviroment>>,
    state: Vec<(String, Object)>,
}

impl View for Enviroment {
    type V = Map<Seq<char>, ObjectView>;

    /// The variables that can be seen from this scope, each with its value.
    closed spec fn view(&self) -> Map<Seq<char>, ObjectView> {
        bindings(|key: Seq<char>| self.lookup(key))
    }
}

impl Enviroment {
    /// What `key` is bound to, in this scope or in the nearest around it that
    /// binds it.
    pub closed spec fn lookup(&self, key: Seq<char>) -> Option<ObjectView>
        decreases self,
    {
        match find(self.state@, key, 0) {
            Some(value) => Some(value),
            None => match self.parent {
                Some(parent) => parent.lookup(key),
                None => None,
            },
        }
    }

    /// The variables of this scope itself.
    pub closed spec fn local(&self) -> Map<Seq<char>, ObjectView> {
        bindings(|key: Seq<char>| find(self.state@, key, 0))
    }

    /// The variables that can be seen from the scope around this one; none
    /// where this is the outermost scope.
    pub closed spec fn outer(&self) -> Map<Seq<char>, ObjectView> {
        match self.parent {
            Some(parent) => parent@,
            None => Map::empty(),
        }
    }

    /// From a scope one sees its own variables, and those around it that it does
    /// not bind itself.
    pub proof fn lemma_view(&self)
        ensures
            self@ == self.outer().union_prefer_right(self.local()),
    {
        assert(self@ =~= self.outer().union_prefer_right(self.local()));
    }

    /// An outermost scope without variables.
    pub fn new() -> (r: Self)
        ensures
            r@ == Map::<Seq<char>, ObjectView>::empty(),
            r.local() == Map::<Seq<char>, ObjectView>::empty(),
            r.outer() == Map::<Seq<char>, ObjectView>::empty(),
    {
        let r = Enviroment { parent: None, state: Vec::new() };
        assert(r@ =~= Map::<Seq<char>, ObjectView>::empty());
        assert(r.local() =~= Map::<Seq<char>, ObjectView>::empty());
        r
    }

    /// A scope without variables of its own inside `parent`.
    pub fn with_parent(parent: Rc<Enviroment>) -> (r: Self)
        ensures
            r@ == parent@,
            r.local() == Map::<Seq<char>, ObjectView>::empty(),
            r.outer() == parent@,
    {
        let r = Enviroment { parent: Some(parent), state: Vec::new() };
        assert(r@ =~= parent@);
        assert(r.local() =~= Map::<Seq<char>, ObjectView>::empty());
        r
    }

    /// The index of the entry of this scope for `key`.
    fn position(&self, key: &str) -> (r: Option<usize>)
        ensures
            match r {
                Some(at) => at < self.state@.len() && find(self.state@, key@, 0) == Some(
                    self.state@[at as int].1@,
                ) && self.state@[at as int].0@ == key@ && forall|j: int|
                    0 <= j < at ==> self.state@[j].0@ != key@,
                None => find(self.state@, key@, 0) is None && forall|j: int|
                    0 <= j < self.state@.len() ==> self.state@[j].0@ != key@,
            },
    {
        let mut i: usize = 0;
        while i < self.state.len()
            invariant
                i <= self.state@.len(),
                forall|j: int| 0 <= j < i ==> self.state@[j].0@ != key@,
            decreases self.state@.len() - i,
        {
            if same_text(self.state[i].0.as_str(), key) {
                proof {
                    lemma_find_first(self.state@, key@, 0, i as int);
                }
                return Some(i);
            }
            i += 1;
        }
        proof {
            lemma_find_none(self.state@, key@, 0);
        }
        None
    }

    /// The value of the variable `key`: that of this scope if it binds `key`,
    /// else that of the nearest scope around it that does.
    pub fn get(&self, key: &str) -> (r: Option<&Object>)
        ensures
            r is Some <==> self@.contains_key(key@),
            r matches Some(value) ==> value@ == self@[key@],
        decreases self,
    {
        match self.position(key) {
            Some(at) => Some(&self.state[at].1),
            None => match &self.parent {
                None => None,
                Some(parent) => parent.get(key),
            },
        }
    }

    /// Binds `key` to `value` in this scope itself. The scopes around it stay as
    /// they are.
    pub fn insert(&mut self, key: &str, value: Object)
        ensures
            final(self)@ == old(self)@.insert(key@, value@),
            final(self).local() == old(self).local().insert(key@, value@),
            final(self).outer() == old(self).outer(),
    {
        let ghost before = self.state@;
        let entry = (key.to_owned(), value);
        match self.position(key) {
            Some(at) => {
                self.state.set(at, entry);
                proof {
                    assert forall|k: Seq<char>|
                        find(self.state@, k, 0) == if k == key@ {
                            Some(value@)
                        } else {
                            find(before, k, 0)
                        } by {
                        lemma_find_replaced(before, at as int, entry, k, 0);
                    }
                }
            },
            None => {
                self.state.push(entry);
                proof {
                    assert forall|k: Seq<char>|
                        find(self.state@, k, 0) == if k == key@ {
                            Some(value@)
                        } else {
                            find(before, k, 0)
                        } by {
                        lemma_find_added(before, entry, k, 0);
                    }
                }
            },
        }
        assert(self@ =~= old(self)@.insert(key@, value@));
        assert(self.local() =~= old(self).local().insert(key@, value@));
    }
}

} // verus!
