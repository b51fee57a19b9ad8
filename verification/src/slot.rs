use std::marker::PhantomData;

use vstd::prelude::*;

use crate::text::str_equal;

verus! {

/// A typed key for storing and retrieving values in a
/// [`Context`](crate::Context).
#[derive(Debug)]
pub struct Slot<T> {
    name: &'static str,
    marker: PhantomData<T>,
}

impl<T> Slot<T> {
    /// The slot's name.
    pub closed spec fn key(self) -> Seq<char> {
        self.name@
    }

    pub fn new(name: &'static str) -> (r: Self)
        ensures
            r.key() == name@,
    {
        Slot { name, marker: PhantomData }
    }

    pub fn name(&self) -> (r: &'static str)
        ensures
            r@ == self.key(),
    {
        self.name
    }
}

impl<T> Clone for Slot<T> {
    fn clone(&self) -> (r: Self)
        ensures
            r.key() == self.key(),
    {
        Slot { name: self.name, marker: PhantomData }
    }
}

impl<T> Copy for Slot<T> {

}

impl<T> PartialEq for Slot<T> {
    fn eq(&self, other: &Self) -> (r: bool) {
        str_equal(self.name, other.name)
    }
}

impl<T> vstd::std_specs::cmp::PartialEqSpecImpl for Slot<T> {
    open spec fn obeys_eq_spec() -> bool {
        true
    }

    open spec fn eq_spec(&self, other: &Self) -> bool {
        self.key() == other.key()
    }
}

impl<T> Eq for Slot<T> {

}

/// Feeds a name into a hasher (std's `<str as Hash>::hash`).
#[verifier::external_body]
fn hash_name<H: std::hash::Hasher>(name: &str, state: &mut H) {
    std::hash::Hash::hash(name, state);
}

impl<T> std::hash::Hash for Slot<T> {
    fn hash<H: std::hash::Hasher>(&self, state: &mut H) {
        hash_name(self.name, state);
    }
}

} // verus!
