//! The storage cells of the variables.
//!
//! Every declaration adds one cell, and a cell is never removed: a handle
//! that was given out names the same cell for as long as the store lives. A
//! variable node holds the handle of its cell, so every node made for one
//! declaration reads and writes the same value.

use vstd::prelude::*;
use crate::error::CalcError;
use crate::interpreter::expr::{fetch, store, CellSeq};

verus! {

/// The cells, addressed by handle.
#[derive(Debug, PartialEq, Eq)]
pub struct Cells {
    pub slots: Vec<Option<i32>>,
}

impl View for Cells {
    type V = CellSeq;

    open spec fn view(&self) -> CellSeq {
        self.slots@
    }
}

impl Cells {
    /// A store without cells.
    pub fn new() -> (cells: Cells)
        ensures
            cells@ == Seq::<Option<i32>>::empty(),
    {
        Cells { slots: Vec::new() }
    }

    /// The number of cells.
    pub fn len(&self) -> (n: usize)
        ensures
            n == self@.len(),
    {
        self.slots.len()
    }

    /// Adds an empty cell and returns its handle, which no earlier cell has.
    pub fn allocate(&mut self) -> (handle: usize)
        ensures
            handle == old(self)@.len(),
            final(self)@ == old(self)@.push(None),
    {
        let handle = self.slots.len();
        self.slots.push(None);
        handle
    }

    /// The value in the cell `handle`. Fails with `NotInitialized` if the
    /// cell is empty or `handle` names no cell.
    pub fn get(&self, handle: usize) -> (r: Result<i32, CalcError>)
        ensures
            r == fetch(self@, handle),
    {
        if handle < self.slots.len() {
            match self.slots[handle] {
                Some(v) => Ok(v),
                None => Err(CalcError::NotInitialized),
            }
        } else {
            Err(CalcError::NotInitialized)
        }
    }

    /// Writes `value` into the cell `handle`. Fails with `NotInitialized`,
    /// and changes nothing, if `handle` names no cell.
    pub fn set(&mut self, handle: usize, value: i32) -> (r: Result<(), CalcError>)
        ensures
            match store(old(self)@, handle, value) {
                Ok(cells) => r is Ok && final(self)@ == cells,
                Err(err) => r == Err::<(), CalcError>(err) && final(self)@ == old(self)@,
            },
    {
        if handle < self.slots.len() {
            self.slots.set(handle, Some(value));
            Ok(())
        } else {
            Err(CalcError::NotInitialized)
        }
    }
}

} // verus!
