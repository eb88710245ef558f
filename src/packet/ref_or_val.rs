//! Values held either by reference or by value.
use vstd::prelude::*;

verus! {

/// A value that is held either by reference or by value.
#[derive(Debug)]
pub enum RefOrVal<'a, T> {
    Ref(&'a T),
    Val(T),
}

impl<'a, T> RefOrVal<'a, T> {
    /// The value, wherever it is held.
    pub open spec fn value(&self) -> T {
        match self {
            RefOrVal::Ref(r) => **r,
            RefOrVal::Val(v) => *v,
        }
    }

    /// A reference to the value.
    pub fn get(&self) -> (r: &T)
        ensures
            *r == self.value(),
    {
        match self {
            RefOrVal::Ref(r) => r,
            RefOrVal::Val(v) => v,
        }
    }
}

impl<'a, T: Clone> RefOrVal<'a, T> {
    /// An owned version of `self`, cloning the value where it is held by reference.
    pub fn make_owned(self) -> (r: RefOrVal<'static, T>)
        ensures
            r is Val,
            self is Val ==> r.value() == self.value(),
            self is Ref ==> cloned(self.value(), r.value()),
    {
        match self {
            RefOrVal::Ref(r) => RefOrVal::Val(r.clone()),
            RefOrVal::Val(v) => RefOrVal::Val(v),
        }
    }
}

} // verus!
