//! A three-valued answer to "does this destination resolve at all".

use vstd::prelude::*;

verus! {

/// Whether something is known to exist, known not to exist, or not known yet.
///
/// `Unknown` is not `No`: a destination of which nothing has been heard is
/// treated differently from one that was denied.
#[derive(Debug)]
pub enum Exists<T> {
    /// Not determined yet.
    Unknown,
    /// Known to exist, with its value.
    Yes(T),
    /// Known not to exist.
    No,
}

impl<T> Exists<T> {
    /// Takes the value out, leaving `Unknown` behind.
    pub fn take(&mut self) -> (taken: Exists<T>)
        ensures
            taken == *old(self),
            *final(self) == Exists::<T>::Unknown,
    {
        let mut taken = Exists::Unknown;
        std::mem::swap(self, &mut taken);
        taken
    }

    pub fn is_yes(&self) -> (b: bool)
        ensures
            b == (self is Yes),
    {
        match self {
            Exists::Yes(_) => true,
            _ => false,
        }
    }

    pub fn is_no(&self) -> (b: bool)
        ensures
            b == (self is No),
    {
        match self {
            Exists::No => true,
            _ => false,
        }
    }

    pub fn is_unknown(&self) -> (b: bool)
        ensures
            b == (self is Unknown),
    {
        match self {
            Exists::Unknown => true,
            _ => false,
        }
    }
}

} // verus!
