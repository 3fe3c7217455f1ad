use vstd::prelude::*;

verus! {

/// A value that is present until it is taken, and is taken at most once.
pub struct Should<T>(Option<T>);

impl<T> Should<T> {
    /// The value that is still held, if any.
    pub closed spec fn view(&self) -> Option<T> {
        self.0
    }

    pub fn new(item: T) -> (should: Should<T>)
        ensures
            should@ == Some(item),
    {
        Should(Some(item))
    }

    /// Whether the value has not been taken yet.
    pub fn is_present(&self) -> (present: bool)
        ensures
            present == (self@ is Some),
    {
        self.0.is_some()
    }

    pub fn as_ref(&self) -> (item: &T)
        requires
            self@ is Some,
        ensures
            self@ == Some(*item),
    {
        match &self.0 {
            Some(item) => item,
            None => unreached(),
        }
    }

    pub fn as_mut(&mut self) -> (item: &mut T)
        requires
            old(self)@ is Some,
        ensures
            old(self)@ == Some(*item),
            final(self)@ == Some(*final(item)),
    {
        match &mut self.0 {
            Some(item) => item,
            None => unreached(),
        }
    }

    pub fn take(&mut self) -> (item: T)
        requires
            old(self)@ is Some,
        ensures
            old(self)@ == Some(item),
            final(self)@ is None,
    {
        self.0.take().unwrap()
    }
}

} // verus!
