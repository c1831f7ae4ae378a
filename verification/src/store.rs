//! The single-slot cache that bridges the ingest side and the serving side.
//!
//! A `Store` holds exactly one value: an update unconditionally replaces the
//! prior value, and a read hands out a copy, so the cell always retains a
//! value. There is no history and no versioning. A surrounding program that
//! shares one store between an ingest path and a serving path wraps it in
//! its own mutual-exclusion primitive; this cell is the value and the
//! contract that such a wrapper must preserve.

use vstd::prelude::*;

use crate::error::MasqueError;

verus! {

/// A single-slot cache: one current value, overwritten on each update.
#[derive(Debug)]
pub struct Store<T> {
    /// The current value. Readers observe either the initial value or some
    /// fully-written update, never anything else.
    pub data: T,
}

impl<T: Clone> Store<T> {
    /// Constructs the cell around an initial value.
    pub fn new(data: T) -> (s: Store<T>)
        ensures
            s.data == data,
    {
        Store { data }
    }

    /// Returns a copy of the current value. Success is always owed: a
    /// single-slot cell cannot be poisoned, so the result is never an error.
    pub fn get(&self) -> (r: Result<T, MasqueError>)
        ensures
            r matches Ok(v) && cloned(self.data, v),
    {
        Ok(self.data.clone())
    }

    /// Replaces the current value and returns a copy of the value just
    /// written. Success is always owed, as for [`Store::get`].
    pub fn update(&mut self, data: T) -> (r: Result<T, MasqueError>)
        ensures
            final(self).data == data,
            r matches Ok(v) && cloned(data, v),
    {
        self.data = data;
        Ok(self.data.clone())
    }
}

/// Reads are idempotent: any two values that [`Store::get`] may return from
/// the same store of strings are equal, so calling it repeatedly without an
/// intervening [`Store::update`] always returns the same value.
pub proof fn lemma_store_reads_agree(s: Store<String>, r1: String, r2: String)
    requires
        cloned(s.data, r1),
        cloned(s.data, r2),
    ensures
        r1 == r2,
{
}

} // verus!
