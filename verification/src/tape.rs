//! The machine's memory: a fixed tape of 30000 byte cells with a movable
//! data pointer. Cell values wrap modulo 256; the pointer wraps modulo the
//! tape length. The two wrap policies are independent of each other.

use vstd::prelude::*;

verus! {

/// Number of cells on the tape, fixed by the design.
pub const TAPE_LEN: usize = 30000;

/// Value of a byte cell after adding one, wrapping modulo 256.
pub open spec fn inc_byte(c: u8) -> u8 {
    ((c as int + 1) % 256) as u8
}

/// Value of a byte cell after subtracting one, wrapping modulo 256.
pub open spec fn dec_byte(c: u8) -> u8 {
    ((c as int + 255) % 256) as u8
}

/// Data pointer after moving one cell to the right, wrapping to 0 at the end.
pub open spec fn inc_ptr(p: usize) -> usize {
    ((p as int + 1) % (TAPE_LEN as int)) as usize
}

/// Data pointer after moving one cell to the left, wrapping to the last cell at 0.
pub open spec fn dec_ptr(p: usize) -> usize {
    ((p as int + (TAPE_LEN as int) - 1) % (TAPE_LEN as int)) as usize
}

/// Circular byte memory with its data pointer.
pub struct Tape {
    pub cells: Vec<u8>,
    pub pointer: usize,
}

impl Tape {
    /// The tape always has exactly `TAPE_LEN` cells and an in-range pointer.
    pub open spec fn wf(self) -> bool {
        &&& self.cells@.len() == TAPE_LEN
        &&& self.pointer < TAPE_LEN
    }

    /// The cell the data pointer currently selects.
    pub open spec fn current_spec(self) -> u8 {
        self.cells@[self.pointer as int]
    }

    /// Fresh tape: every cell 0, pointer at cell 0.
    pub fn new() -> (t: Tape)
        ensures
            t.wf(),
            t.pointer == 0,
            forall|i: int| 0 <= i < TAPE_LEN ==> t.cells@[i] == 0,
    {
        let mut cells: Vec<u8> = Vec::new();
        let mut i: usize = 0;
        while i < TAPE_LEN
            invariant
                i <= TAPE_LEN,
                cells@.len() == i,
                forall|k: int| 0 <= k < i ==> cells@[k] == 0,
            decreases TAPE_LEN - i,
        {
            cells.push(0);
            i = i + 1;
        }
        Tape { cells, pointer: 0 }
    }

    /// Read the current cell.
    pub fn current(&self) -> (r: u8)
        requires
            self.wf(),
        ensures
            r == self.current_spec(),
    {
        self.cells[self.pointer]
    }

    /// Overwrite the current cell.
    pub fn set_current(&mut self, v: u8)
        requires
            old(self).wf(),
        ensures
            final(self).wf(),
            final(self).pointer == old(self).pointer,
            final(self).cells@ == old(self).cells@.update(old(self).pointer as int, v),
    {
        let p = self.pointer;
        self.cells[p] = v;
    }

    /// Add one to the current cell, wrapping modulo 256: 255 becomes 0.
    pub fn increment_at_pointer(&mut self)
        requires
            old(self).wf(),
        ensures
            final(self).wf(),
            final(self).pointer == old(self).pointer,
            final(self).cells@ == old(self).cells@.update(
                old(self).pointer as int,
                inc_byte(old(self).current_spec()),
            ),
    {
        let p = self.pointer;
        let c = self.cells[p];
        let v: u8 = if c == 255 { 0 } else { c + 1 };
        self.cells[p] = v;
    }

    /// Subtract one from the current cell, wrapping modulo 256: 0 becomes 255.
    pub fn decrement_at_pointer(&mut self)
        requires
            old(self).wf(),
        ensures
            final(self).wf(),
            final(self).pointer == old(self).pointer,
            final(self).cells@ == old(self).cells@.update(
                old(self).pointer as int,
                dec_byte(old(self).current_spec()),
            ),
    {
        let p = self.pointer;
        let c = self.cells[p];
        let v: u8 = if c == 0 { 255 } else { c - 1 };
        self.cells[p] = v;
    }

    /// Move the data pointer one cell to the right, wrapping to 0 past the end.
    pub fn increment_pointer(&mut self)
        requires
            old(self).wf(),
        ensures
            final(self).wf(),
            final(self).cells@ == old(self).cells@,
            final(self).pointer == inc_ptr(old(self).pointer),
    {
        if self.pointer >= TAPE_LEN - 1 {
            self.pointer = 0;
        } else {
            self.pointer = self.pointer + 1;
        }
    }

    /// Move the data pointer one cell to the left, wrapping to the last cell at 0.
    pub fn decrement_pointer(&mut self)
        requires
            old(self).wf(),
        ensures
            final(self).wf(),
            final(self).cells@ == old(self).cells@,
            final(self).pointer == dec_ptr(old(self).pointer),
    {
        if self.pointer == 0 {
            self.pointer = TAPE_LEN - 1;
        } else {
            self.pointer = self.pointer - 1;
        }
    }
}

} // verus!
