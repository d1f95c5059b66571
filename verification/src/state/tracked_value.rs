//! Values tracked together with their value at the start of the transaction.

use vstd::prelude::*;
use crate::vecmap::MapKey;

verus! {

/// A value tracked together with the value it had at the start of the current transaction.
#[derive(Clone, Copy, Debug, Default, PartialEq, Eq, Hash, Structural)]
pub struct TrackedValue<T> {
    /// Value at the start of the current transaction.
    pub original: T,
    /// Current overlay value.
    pub current: T,
}

impl<T: Copy> TrackedValue<T> {
    /// A tracked value whose original and current values are both `value`.
    pub fn new(value: T) -> (r: TrackedValue<T>)
        ensures
            r.original == value,
            r.current == value,
    {
        TrackedValue { original: value, current: value }
    }

    /// A tracked value from its two parts.
    pub fn from_parts(original: T, current: T) -> (r: TrackedValue<T>)
        ensures
            r.original == original,
            r.current == current,
    {
        TrackedValue { original, current }
    }

    /// Replaces the current value.
    pub fn set_current(&mut self, current: T)
        ensures
            final(self).original == old(self).original,
            final(self).current == current,
    {
        self.current = current;
    }
}

impl<T: MapKey> TrackedValue<T> {
    /// Returns whether the current value differs from the original value.
    pub fn is_changed(&self) -> (r: bool)
        ensures
            r == (self.original != self.current),
    {
        !self.original.key_eq(&self.current)
    }
}

} // verus!
