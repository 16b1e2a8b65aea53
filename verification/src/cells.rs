//! The memory tape: a resizable sequence of 8-bit cells.

use vstd::prelude::*;

verus! {

/// The tape. All cells start at zero; the tape grows only by zero-filled
/// extension to an accessed index, and only when dynamic sizing is enabled.
#[derive(Clone, Debug)]
pub struct Cells(pub Vec<u8>);

impl View for Cells {
    type V = Seq<u8>;

    open spec fn view(&self) -> Seq<u8> {
        self.0@
    }
}

/// The contents of a tape after a grow-on-demand access at `index`: a tape
/// too short for `index` is extended with zeroed cells up to and including it.
pub open spec fn grown(cells: Seq<u8>, index: nat) -> Seq<u8> {
    if index < cells.len() {
        cells
    } else {
        cells + Seq::new((index + 1 - cells.len()) as nat, |i: int| 0u8)
    }
}

impl Cells {
    /// A fresh tape of `size` zeroed cells.
    pub fn new(size: usize) -> (c: Cells)
        ensures
            c@ == Seq::new(size as nat, |i: int| 0u8),
    {
        let mut v: Vec<u8> = Vec::new();
        let mut i: usize = 0;
        while i < size
            invariant
                i <= size,
                v@ =~= Seq::new(i as nat, |k: int| 0u8),
            decreases size - i,
        {
            v.push(0);
            i = i + 1;
        }
        Cells(v)
    }

    /// Bounds-checked access to the cell at `index`; never grows the tape.
    pub fn get_mut(&mut self, index: usize) -> (r: Option<&mut u8>)
        ensures
            index < old(self)@.len() ==> {
                &&& r is Some
                &&& *r.unwrap() == old(self)@[index as int]
                &&& final(self)@ == old(self)@.update(index as int, *final(r.unwrap()))
            },
            index >= old(self)@.len() ==> r is None && final(self)@ == old(self)@,
    {
        if index < self.0.len() {
            Some(&mut self.0[index])
        } else {
            None
        }
    }

    /// Access to the cell at `index`, growing the tape with zeroed cells as
    /// far as needed first; always succeeds.
    pub fn get_mut_expand(&mut self, index: usize) -> (r: Option<&mut u8>)
        requires
            index < usize::MAX,
        ensures
            r is Some,
            *r.unwrap() == grown(old(self)@, index as nat)[index as int],
            final(self)@ == grown(old(self)@, index as nat).update(index as int, *final(r.unwrap())),
    {
        let ghost pre = self@;
        if index < self.0.len() {
            Some(&mut self.0[index])
        } else {
            let mut len = self.0.len();
            while len < index + 1
                invariant
                    index < usize::MAX,
                    len == self.0@.len(),
                    pre.len() <= len <= index + 1,
                    self.0@ =~= pre + Seq::new((len - pre.len()) as nat, |i: int| 0u8),
                decreases index + 1 - len,
            {
                self.0.push(0);
                len = len + 1;
            }
            proof {
                assert(self.0@ =~= grown(pre, index as nat));
            }
            Some(&mut self.0[index])
        }
    }
}

} // verus!
