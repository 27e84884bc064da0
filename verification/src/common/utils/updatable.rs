use vstd::prelude::*;

verus! {

/// A value together with the value it had before its last update.
pub struct Updatable<T> {
    last: T,
    current: T,
}

impl<T> Updatable<T> {
    /// The value before the last update.
    pub closed spec fn last_value(&self) -> T {
        self.last
    }

    /// The value now.
    pub closed spec fn current_value(&self) -> T {
        self.current
    }
}

impl<T: Clone> Updatable<T> {
    /// Starts with `value` as both the last and the current value
    /// (the current one is a clone of it).
    pub fn new(value: T) -> (r: Self)
        ensures
            r.last_value() == value,
            cloned::<T>(value, r.current_value()),
    {
        Self { current: value.clone(), last: value }
    }

    /// Makes `value` the current value; the former current value becomes the last one.
    pub fn update(&mut self, value: T)
        ensures
            final(self).last_value() == old(self).current_value(),
            final(self).current_value() == value,
    {
        let mut previous = value;
        std::mem::swap(&mut self.current, &mut previous);
        self.last = previous;
    }

    /// The value before the last update.
    pub fn last(&self) -> (r: &T)
        ensures
            *r == self.last_value(),
    {
        &self.last
    }

    /// The value now.
    pub fn current(&self) -> (r: &T)
        ensures
            *r == self.current_value(),
    {
        &self.current
    }
}

} // verus!
