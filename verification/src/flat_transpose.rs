//! A transposing walk over a list of columns: cycle through the columns,
//! emitting the next value of each, until a whole cycle yields nothing.
//! Columns of different heights are padded with explicit gaps, so a
//! renderer can lay the values out row by row.

use vstd::prelude::*;

verus! {

/// The walk's state: the columns, the column to read next, the current
/// row, and whether the current cycle has produced any value yet.
pub struct FlatTransposed<T> {
    pub container: Vec<Vec<T>>,
    pub index: usize,
    pub row: usize,
    pub child_had_next: bool,
}

impl<T> FlatTransposed<T> {
    pub open spec fn wf(&self) -> bool {
        self.container@.len() == 0 || self.index < self.container@.len()
    }

    pub fn new(container: Vec<Vec<T>>) -> (r: Self)
        ensures
            r.wf(),
            r.container@ == container@,
            r.index == 0,
            r.row == 0,
            !r.child_had_next,
    {
        FlatTransposed { container, index: 0, row: 0, child_had_next: false }
    }
}

impl<T: Copy> FlatTransposed<T> {
    /// One step of the walk: the cell of the current column and row (a gap
    /// where that column is exhausted), or nothing once a whole cycle has
    /// passed without any value.
    pub fn next(&mut self) -> (r: Option<Option<T>>)
        requires
            old(self).wf(),
            old(self).row < usize::MAX,
        ensures
            final(self).wf(),
            final(self).container@ == old(self).container@,
            ({
                let cols = old(self).container@;
                let i = old(self).index as int;
                let ro = old(self).row as int;
                if cols.len() == 0 {
                    r is None && *final(self) == *old(self)
                } else {
                    let item = if ro < cols[i]@.len() {
                        Some(cols[i]@[ro])
                    } else {
                        None::<T>
                    };
                    let had = old(self).child_had_next || item is Some;
                    if i + 1 == cols.len() {
                        final(self).index == 0 && final(self).row == ro + 1 && (if had {
                            r == Some(item) && final(self).child_had_next == false
                        } else {
                            r is None && final(self).child_had_next == false
                        })
                    } else {
                        r == Some(item) && final(self).index == i + 1 && final(self).row == ro
                            && final(self).child_had_next == had
                    }
                }
            }),
    {
        if self.container.len() == 0 {
            return None;
        }

        let column = &self.container[self.index];
        let iter_next: Option<T> = if self.row < column.len() {
            Some(column[self.row])
        } else {
            None
        };
        self.child_had_next = self.child_had_next || iter_next.is_some();
        self.index = self.index + 1;

        if self.index == self.container.len() {
            self.index = 0;
            self.row = self.row + 1;

            if !self.child_had_next {
                return None;
            }

            self.child_had_next = false;
        }

        Some(iter_next)
    }
}

} // verus!
