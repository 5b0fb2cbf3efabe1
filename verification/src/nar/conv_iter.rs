//! Two-dimensional index arithmetic used by the convolution backend: a
//! small vector of two coordinates and a row-major iteration over the box
//! it spans.

use vstd::prelude::*;

verus! {

/// A 2-dimensional vector of indices.
#[derive(Clone, Copy, Debug, PartialEq, Eq, Structural)]
pub struct V2(pub usize, pub usize);

impl V2 {
    /// Row-major iteration over the box between `(0, 0)` (inclusive) and
    /// `self` (exclusive).
    pub fn iter(&self) -> (r: V2Iterator)
        ensures
            r.curr == V2(0, 0),
            r.last == *self,
            r.wf(),
    {
        V2Iterator { curr: V2(0, 0), last: *self }
    }

    /// Check if `other` is within the box between `(0, 0)` and `self`.
    pub fn contains(&self, other: V2) -> (r: Option<V2>)
        ensures
            r == if self.0 >= other.0 && self.1 >= other.1 {
                Some(other)
            } else {
                None::<V2>
            },
    {
        if self.0 >= other.0 && self.1 >= other.1 {
            Some(other)
        } else {
            None
        }
    }

    /// `self - other`, component-wise, or `None` if either component would
    /// go negative.
    pub fn try_sub(&self, other: V2) -> (r: Option<V2>)
        ensures
            r == if self.0 >= other.0 && self.1 >= other.1 {
                Some(V2((self.0 - other.0) as usize, (self.1 - other.1) as usize))
            } else {
                None::<V2>
            },
    {
        if self.0 >= other.0 && self.1 >= other.1 {
            Some(V2(self.0 - other.0, self.1 - other.1))
        } else {
            None
        }
    }
}

/// Row-major iteration state over a box of 2-dimensional indices.
#[derive(Debug, PartialEq, Eq, Structural)]
pub struct V2Iterator {
    /// The next index to yield (when still within the box).
    pub curr: V2,
    /// The exclusive upper bounds of the box.
    pub last: V2,
}

impl V2Iterator {
    /// Iterator invariant: the column either sits strictly inside the row
    /// or has been wrapped back to zero.
    pub open spec fn wf(self) -> bool {
        self.curr.1 < self.last.1 || self.curr.1 == 0
    }

    /// The next index in row-major order: all columns of row 0, then all
    /// columns of row 1, and so on; `None` once the rows are exhausted.
    pub fn next(&mut self) -> (r: Option<V2>)
        requires
            old(self).wf(),
        ensures
            final(self).wf(),
            final(self).last == old(self).last,
            old(self).curr.0 >= old(self).last.0 ==> r is None && final(self).curr == old(
                self,
            ).curr,
            old(self).curr.0 < old(self).last.0 ==> r == Some(old(self).curr) && final(self).curr
                == (if old(self).curr.1 + 1 >= old(self).last.1 {
                V2((old(self).curr.0 + 1) as usize, 0)
            } else {
                V2(old(self).curr.0, (old(self).curr.1 + 1) as usize)
            }),
    {
        let ret = self.curr;
        if self.curr.0 >= self.last.0 {
            return None;
        }
        self.curr.1 += 1;
        if self.curr.1 >= self.last.1 {
            self.curr.1 = 0;
            self.curr.0 += 1;
        }
        Some(ret)
    }
}

} // verus!
