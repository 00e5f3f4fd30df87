use vstd::prelude::*;
use crate::cell::Cell;

verus! {

/// The tape: an append-only sequence of cells and the cursor that says what
/// executes next.
#[derive(Debug)]
pub struct Concat {
    pub array: Vec<Cell>,
    pub pointer: usize,
}

impl Concat {
    /// An empty tape with the cursor at its start.
    pub fn new() -> (r: Concat)
        ensures
            r.array@ == Seq::<Cell>::empty(),
            r.pointer == 0,
    {
        Concat { array: Vec::new(), pointer: 0 }
    }

    /// The cell under the cursor, and the cursor moved past it; `None` at the end of the tape.
    pub fn next(&mut self) -> (r: Option<&Cell>)
        ensures
            final(self).array == old(self).array,
            old(self).pointer < old(self).array@.len() ==> r == Some(&old(self).array@[old(self).pointer as int])
                && final(self).pointer == old(self).pointer + 1,
            old(self).pointer >= old(self).array@.len() ==> r is None && final(self).pointer == old(self).pointer,
    {
        if self.pointer < self.array.len() {
            let p = self.pointer;
            self.pointer = p + 1;
            Some(&self.array[p])
        } else {
            None
        }
    }

    /// A copy of the cell under the cursor, and the cursor moved past it; `None` at the end of the tape.
    pub fn next_clone(&mut self) -> (r: Option<Cell>)
        ensures
            final(self).array == old(self).array,
            old(self).pointer < old(self).array@.len() ==> r == Some(old(self).array@[old(self).pointer as int])
                && final(self).pointer == old(self).pointer + 1,
            old(self).pointer >= old(self).array@.len() ==> r is None && final(self).pointer == old(self).pointer,
    {
        if self.pointer < self.array.len() {
            let c = self.array[self.pointer].clone();
            self.pointer = self.pointer + 1;
            Some(c)
        } else {
            None
        }
    }
}

} // verus!
