//! Small helpers around collections.

use vstd::prelude::*;

verus! {

/// A cursor over a vector that yields each element together with its
/// neighbours: the previous element, the element itself, and the next
/// one, where either neighbour is absent at the ends.
pub struct Siblings<'a, T> {
    pub src: &'a Vec<T>,
    pub i: usize,
}

impl<'a, T> Siblings<'a, T> {
    /// Starts the cursor at the first element.
    pub fn new(src: &'a Vec<T>) -> (r: Self)
        ensures
            r.src == src,
            r.i == 0,
    {
        Self { src, i: 0 }
    }

    /// Yields the element at the cursor with its neighbours and moves
    /// the cursor forward, or `None` once the vector is exhausted.
    pub fn next(&mut self) -> (r: Option<(Option<&'a T>, &'a T, Option<&'a T>)>)
        ensures
            final(self).src == old(self).src,
            old(self).i >= old(self).src@.len() ==> r is None && final(self).i == old(self).i,
            old(self).i < old(self).src@.len() ==> final(self).i == old(self).i + 1 && (r
                matches Some(t) && ({
                &&& *t.1 == old(self).src@[old(self).i as int]
                &&& (if old(self).i == 0 {
                    t.0 is None
                } else {
                    t.0 matches Some(p) && *p == old(self).src@[old(self).i - 1]
                })
                &&& (if old(self).i + 1 == old(self).src@.len() {
                    t.2 is None
                } else {
                    t.2 matches Some(nx) && *nx == old(self).src@[old(self).i + 1]
                })
            })),
    {
        let len = self.src.len();
        let i = self.i;
        if i >= len {
            return None;
        }
        self.i = i + 1;
        let prev = if i == 0 {
            None
        } else {
            Some(&self.src[i - 1])
        };
        let nxt = if i + 1 == len {
            None
        } else {
            Some(&self.src[i + 1])
        };
        Some((prev, &self.src[i], nxt))
    }
}

} // verus!
