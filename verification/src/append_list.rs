//! An ordered list of records that only grows.
//!
//! Records keep the position they were pushed at: nothing is ever removed or
//! moved, and a record can only be replaced where it stands.

use vstd::prelude::*;
use crate::errors::CustomContractError;

verus! {

/// An append-only list. Its view is the sequence of the views of its
/// records, in the order in which they were pushed.
pub struct AppendList<T> {
    items: Vec<T>,
}

impl<T: View> View for AppendList<T> {
    type V = Seq<T::V>;

    closed spec fn view(&self) -> Seq<T::V> {
        self.items@.map_values(|t: T| t@)
    }
}

impl<T: View> AppendList<T> {
    /// The empty list.
    pub fn new() -> (list: Self)
        ensures
            list@ == Seq::<T::V>::empty(),
    {
        let list = AppendList { items: Vec::new() };
        assert(list@ =~= Seq::<T::V>::empty());
        list
    }

    /// The list that holds `records`, each at the position it has there.
    pub fn from_vec(records: Vec<T>) -> (list: Self)
        ensures
            list@ == records@.map_values(|t: T| t@),
    {
        AppendList { items: records }
    }

    /// Appends `record` and returns the position it now stands at.
    pub fn push(&mut self, record: T) -> (position: usize)
        ensures
            final(self)@ == old(self)@.push(record@),
            position == old(self)@.len(),
    {
        let position = self.items.len();
        self.items.push(record);
        assert(self@ =~= old(self)@.push(record@));
        position
    }

    /// The number of records.
    pub fn len(&self) -> (n: usize)
        ensures
            n == self@.len(),
    {
        self.items.len()
    }

    /// The record at `index`; `OutOfRange` where `index` is not a position of
    /// the list.
    pub fn get(&self, index: usize) -> (r: Result<&T, CustomContractError>)
        ensures
            index < self@.len() ==> r is Ok && r->Ok_0@ == self@[index as int],
            index >= self@.len() ==> r == Err::<&T, CustomContractError>(
                CustomContractError::OutOfRange,
            ),
    {
        if index < self.items.len() {
            Ok(&self.items[index])
        } else {
            Err(CustomContractError::OutOfRange)
        }
    }

    /// Replaces the record at `index`, leaving every other record and the
    /// length as they were; `OutOfRange`, and no change, where `index` is not
    /// a position of the list.
    pub fn set_at(&mut self, index: usize, record: T) -> (r: Result<(), CustomContractError>)
        ensures
            index < old(self)@.len() ==> r is Ok && final(self)@ == old(self)@.update(
                index as int,
                record@,
            ),
            index >= old(self)@.len() ==> r == Err::<(), CustomContractError>(
                CustomContractError::OutOfRange,
            ) && final(self)@ == old(self)@,
    {
        if index < self.items.len() {
            self.items[index] = record;
            assert(self@ =~= old(self)@.update(index as int, record@));
            Ok(())
        } else {
            Err(CustomContractError::OutOfRange)
        }
    }

    /// The records in order, for walking the list from its start.
    pub fn records(&self) -> (all: &Vec<T>)
        ensures
            all@.len() == self@.len(),
            forall|i: int| 0 <= i < all@.len() ==> (#[trigger] all@[i])@ == self@[i],
    {
        &self.items
    }
}

} // verus!
