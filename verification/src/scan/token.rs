//! What the workers of one call share: the cancellation latch and the
//! single-assignment slot for the result.

use vstd::prelude::*;

verus! {

/// A latch: once set it stays set. One is made for each call and never used
/// for another.
pub struct CancelToken {
    set: bool,
}

impl CancelToken {
    /// Whether the latch has been set.
    pub closed spec fn is_set(&self) -> bool {
        self.set
    }

    /// A fresh, unset latch.
    pub fn new() -> (token: CancelToken)
        ensures
            !token.is_set(),
    {
        CancelToken { set: false }
    }

    /// Sets the latch. Setting a set latch changes nothing, and nothing
    /// clears a latch: this is the only operation that changes one.
    pub fn cancel(&mut self)
        ensures
            final(self).is_set(),
    {
        self.set = true;
    }

    /// Reads the latch.
    pub fn is_cancelled(&self) -> (set: bool)
        ensures
            set == self.is_set(),
    {
        self.set
    }
}

/// A slot that keeps the first value published to it and discards the rest.
pub struct OnceSlot<T> {
    value: Option<T>,
}

impl<T> OnceSlot<T> {
    /// What the slot holds.
    pub closed spec fn held(&self) -> Option<T> {
        self.value
    }

    /// An empty slot.
    pub fn new() -> (slot: OnceSlot<T>)
        ensures
            slot.held() is None,
    {
        OnceSlot { value: None }
    }

    /// Offers a value. It is kept, and `true` returned, only if the slot was
    /// empty; a later value never replaces an earlier one.
    pub fn publish(&mut self, value: T) -> (kept: bool)
        ensures
            kept == (old(self).held() is None),
            final(self).held() == if kept {
                Some(value)
            } else {
                old(self).held()
            },
    {
        if self.value.is_none() {
            self.value = Some(value);
            true
        } else {
            false
        }
    }

    /// Looks at what the slot holds.
    pub fn peek(&self) -> (value: Option<&T>)
        ensures
            match value {
                Some(v) => self.held() == Some(*v),
                None => self.held() is None,
            },
    {
        self.value.as_ref()
    }

    /// Takes the slot apart.
    pub fn into_inner(self) -> (value: Option<T>)
        ensures
            value == self.held(),
    {
        self.value
    }
}

} // verus!
