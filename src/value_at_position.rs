use vstd::prelude::*;

verus! {

/// A value together with the position it belongs to.
#[derive(Clone, Debug, PartialEq, Eq, PartialOrd, Ord, Hash)]
pub struct ValueAtPosition<T> {
    pos: usize,
    value: T,
}

impl<T> View for ValueAtPosition<T> {
    type V = (usize, T);

    closed spec fn view(&self) -> (usize, T) {
        (self.pos, self.value)
    }
}

impl<T> ValueAtPosition<T> {
    pub fn new(pos: usize, value: T) -> (r: Self)
        ensures
            r@ == (pos, value),
    {
        Self { pos, value }
    }

    pub fn pos(&self) -> (r: usize)
        ensures
            r == self@.0,
    {
        self.pos
    }

    pub fn value(&self) -> (r: &T)
        ensures
            *r == self@.1,
    {
        &self.value
    }

    pub fn take_value(self) -> (r: T)
        ensures
            r == self@.1,
    {
        self.value
    }

    /// The same position with `map` applied to the value.
    pub fn map<Q, F: FnOnce(T) -> Q>(self, map: F) -> (r: ValueAtPosition<Q>)
        requires
            map.requires((self@.1,)),
        ensures
            r@.0 == self@.0,
            map.ensures((self@.1,), r@.1),
    {
        ValueAtPosition { pos: self.pos, value: map(self.value) }
    }
}

impl<T> ValueAtPosition<Option<T>> {
    /// The position with the value inside the option, if there is one.
    pub fn transpose(self) -> (r: Option<ValueAtPosition<T>>)
        ensures
            match self@.1 {
                Some(v) => r is Some && r->Some_0@ == (self@.0, v),
                None => r is None,
            },
    {
        let Self { pos, value } = self;
        match value {
            Some(value) => Some(ValueAtPosition { pos, value }),
            None => None,
        }
    }
}

} // verus!
