//! A slot for the latest error.

use crate::atomic::{flag_value, load_flag, new_flag, store_flag};
use portable_atomic::AtomicBool;
use vstd::prelude::*;

verus! {

/// Holds an error until it is taken. A later error replaces one that was not.
#[derive(Debug)]
pub struct AtomicError<E> {
    has_error: AtomicBool,
    error: Option<E>,
}

impl<E> View for AtomicError<E> {
    type V = Option<E>;

    closed spec fn view(&self) -> Option<E> {
        self.error
    }
}

impl<E> AtomicError<E> {
    /// The flag tells whether there is an error.
    pub closed spec fn wf(self) -> bool {
        flag_value(self.has_error) == self.error is Some
    }

    /// An empty slot.
    pub fn new() -> (slot: Self)
        ensures
            slot.wf(),
            slot@ is None,
    {
        AtomicError { has_error: new_flag(false), error: None }
    }

    /// Put `error` in the slot, in place of what is there.
    pub fn set(&mut self, error: E)
        ensures
            final(self).wf(),
            final(self)@ == Some(error),
    {
        self.error = Some(error);
        store_flag(&mut self.has_error, true);
    }

    /// Whether there is an error in the slot.
    pub fn is_set(&self) -> (set: bool)
        requires
            self.wf(),
        ensures
            set == self@ is Some,
    {
        load_flag(&self.has_error)
    }

    /// Take the error out of the slot.
    pub fn take(&mut self) -> (error: Option<E>)
        requires
            old(self).wf(),
        ensures
            final(self).wf(),
            error == old(self)@,
            final(self)@ is None,
    {
        if !load_flag(&self.has_error) {
            return None;
        }
        store_flag(&mut self.has_error, false);
        self.error.take()
    }
}

} // verus!
