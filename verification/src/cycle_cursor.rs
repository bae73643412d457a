//! A circular cursor over a vector: stepping forward or backward wraps
//! around the ends.

use vstd::prelude::*;

verus! {

/// A vector together with a cursor position that cycles over it.  A fresh
/// cursor has no position; the first step lands on the first or last
/// element.
#[derive(Clone, Debug)]
pub struct CycleCursor<T> {
    /// The underlying elements.
    pub inner: Vec<T>,
    /// The cursor position, when one has been taken.
    pub pos: Option<usize>,
}

impl<T> From<Vec<T>> for CycleCursor<T> {
    /// Wraps a vector with an unset cursor.
    fn from(inner: Vec<T>) -> (r: CycleCursor<T>) {
        CycleCursor { inner, pos: None }
    }
}

impl<T> vstd::std_specs::convert::FromSpecImpl<Vec<T>> for CycleCursor<T> {
    open spec fn obeys_from_spec() -> bool {
        true
    }

    open spec fn from_spec(inner: Vec<T>) -> CycleCursor<T> {
        CycleCursor { inner, pos: None }
    }
}

impl<T> CycleCursor<T> {
    /// Moves the cursor to the next element, wrapping to the first after
    /// the last; an unset cursor lands on the first element.
    pub fn cycle_next(&mut self)
        requires
            old(self).inner@.len() > 0,
            old(self).pos matches Some(p) ==> p < old(self).inner@.len(),
        ensures
            final(self).inner == old(self).inner,
            final(self).pos == Some(
                match old(self).pos {
                    Some(p) => if p + 1 == old(self).inner@.len() {
                        0usize
                    } else {
                        (p + 1) as usize
                    },
                    None => 0usize,
                },
            ),
    {
        let max_items = self.inner.len();
        let pos: usize = match self.pos {
            Some(p) => if p + 1 == max_items {
                0
            } else {
                p + 1
            },
            None => 0,
        };
        self.pos = Some(pos);
    }

    /// Moves the cursor to the previous element, wrapping to the last
    /// before the first; an unset cursor lands on the last element.
    pub fn cycle_prev(&mut self)
        requires
            old(self).inner@.len() > 0,
            old(self).pos matches Some(p) ==> p < old(self).inner@.len(),
        ensures
            final(self).inner == old(self).inner,
            final(self).pos == Some(
                match old(self).pos {
                    Some(p) => if p == 0 {
                        (old(self).inner@.len() - 1) as usize
                    } else {
                        (p - 1) as usize
                    },
                    None => (old(self).inner@.len() - 1) as usize,
                },
            ),
    {
        let max_items = self.inner.len();
        let pos: usize = match self.pos {
            Some(p) => if p == 0 {
                max_items - 1
            } else {
                p - 1
            },
            None => max_items - 1,
        };
        self.pos = Some(pos);
    }
}

} // verus!
