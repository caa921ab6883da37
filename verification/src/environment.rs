//! The environment: one flat table from variable names to values.

use vstd::prelude::*;
use vstd::hash_map::StringHashMap;

verus! {

/// The variables that are bound, each with the value last bound to it.
#[verifier::reject_recursive_types(V)]
pub struct Environment<V> {
    values: StringHashMap<V>,
}

impl<V> View for Environment<V> {
    type V = Map<Seq<char>, V>;

    closed spec fn view(&self) -> Map<Seq<char>, V> {
        self.values@
    }
}

impl<V> Environment<V> {
    /// The environment in which nothing is bound.
    pub fn new() -> (environment: Self)
        ensures
            environment@ == Map::<Seq<char>, V>::empty(),
    {
        Environment { values: StringHashMap::new() }
    }

    /// Binds `name` to `value`.  An earlier binding of the name is
    /// replaced; all other bindings stay.
    pub fn define(&mut self, name: String, value: V)
        ensures
            final(self)@ == old(self)@.insert(name@, value),
    {
        self.values.insert(name, value);
    }

    /// The value bound to `name`, if the name is bound.
    pub fn lookup(&self, name: &String) -> (value: Option<&V>)
        ensures
            match value {
                Some(v) => self@.contains_key(name@) && *v == self@[name@],
                None => !self@.contains_key(name@),
            },
    {
        self.values.get(name.as_str())
    }
}

/// A name reads as the value last bound to it.
pub proof fn lemma_define_then_lookup<V>(bindings: Map<Seq<char>, V>, name: Seq<char>, value: V)
    ensures
        bindings.insert(name, value).contains_key(name),
        bindings.insert(name, value)[name] == value,
{
}

/// Binding one name leaves every other name as it was.
pub proof fn lemma_define_keeps_others<V>(
    bindings: Map<Seq<char>, V>,
    name: Seq<char>,
    value: V,
    other: Seq<char>,
)
    requires
        other != name,
    ensures
        bindings.insert(name, value).contains_key(other) == bindings.contains_key(other),
        bindings.contains_key(other) ==> bindings.insert(name, value)[other] == bindings[other],
{
}

} // verus!
