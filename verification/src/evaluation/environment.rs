//! The variables that an expression is evaluated against.

use vstd::prelude::*;
use vstd::hash_map::StringHashMap;
use vstd::string::*;

verus! {

/// A mapping from variable names to values. Names are compared character by
/// character; a value is a 64-bit binary floating-point number, held as its
/// bit pattern.
pub struct Environment {
    values: StringHashMap<u64>,
}

impl View for Environment {
    type V = Map<Seq<char>, u64>;

    closed spec fn view(&self) -> Map<Seq<char>, u64> {
        self.values@
    }
}

impl Environment {
    /// The environment that holds no variable.
    pub fn new() -> (r: Self)
        ensures
            r@ == Map::<Seq<char>, u64>::empty(),
    {
        Environment { values: StringHashMap::new() }
    }

    /// Gives the variable `name` the value `value`, whether it had one or not.
    pub fn set(&mut self, name: &str, value: u64)
        ensures
            final(self)@ == old(self)@.insert(name@, value),
    {
        self.values.insert(name.to_owned(), value);
    }

    /// The value of the variable `name`, or `None` where there is no such
    /// variable.
    pub fn get(&self, name: &str) -> (r: Option<u64>)
        ensures
            r == if self@.contains_key(name@) {
                Some(self@[name@])
            } else {
                None
            },
    {
        match self.values.get(name) {
            Some(value) => Some(*value),
            None => None,
        }
    }
}

} // verus!
