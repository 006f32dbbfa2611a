//! A view on the bytes around a relocation.
use core::ops::Range;
use vstd::prelude::*;
use vstd::slice::slice_subrange;

verus! {

/// The bytes belong to another modification already.
#[derive(Debug, Clone, Copy, PartialEq, Eq, Structural)]
pub struct AlreadyUsed;

/// Read-only cursor over bytes, for one region of them.
///
/// The green zone is the region that the cursor was made for. The red zones, before and behind it,
/// are used by other cursors. The green zone can grow into the grey zones that are left between
/// them.
#[derive(Debug)]
pub struct Cursor<'any> {
    buffer: &'any [u8],
    green: Range<usize>,
    red_before: usize,
    red_after: usize,
}

/// State of a [`Cursor`].
pub struct CursorView {
    pub buffer: Seq<u8>,
    /// The green zone.
    pub green: (int, int),
    /// The place up to which bytes are used by others.
    pub red_before: int,
    /// The place from which on bytes are used by others.
    pub red_after: int,
}

impl<'any> View for Cursor<'any> {
    type V = CursorView;

    closed spec fn view(&self) -> CursorView {
        CursorView {
            buffer: self.buffer@,
            green: (self.green.start as int, self.green.end as int),
            red_before: self.red_before as int,
            red_after: self.red_after as int,
        }
    }
}

impl<'any> Cursor<'any> {
    pub fn new(
        buffer: &'any [u8],
        green: Range<usize>,
        red_before: usize,
        red_after: usize,
    ) -> (r: Self)
        ensures
            r@ == (CursorView {
                buffer: buffer@,
                green: (green.start as int, green.end as int),
                red_before: red_before as int,
                red_after: red_after as int,
            }),
    {
        Cursor { buffer, green, red_before, red_after }
    }

    /// The bytes of the green zone.
    pub fn green_buf(&self) -> (r: &'any [u8])
        requires
            self@.green.0 <= self@.green.1 <= self@.buffer.len(),
        ensures
            r@ == self@.buffer.subrange(self@.green.0, self@.green.1),
    {
        slice_subrange(self.buffer, self.green.start, self.green.end)
    }

    /// The green zone.
    pub fn green_range(&self) -> (r: Range<usize>)
        ensures
            (r.start as int, r.end as int) == self@.green,
    {
        Range { start: self.green.start, end: self.green.end }
    }

    /// Moves the start of the green zone back, but not before the start of the bytes. Fails if the
    /// red zone is in the way.
    pub fn try_extend_before(&mut self, shift_left: usize) -> (r: Result<(), AlreadyUsed>)
        ensures
            ({
                let moved = if shift_left <= old(self)@.green.0 {
                    old(self)@.green.0 - shift_left
                } else {
                    0
                };
                if moved < old(self)@.red_before {
                    r is Err && final(self)@ == old(self)@
                } else {
                    r is Ok && final(self)@ == (CursorView {
                        green: (moved, old(self)@.green.1),
                        ..old(self)@
                    })
                }
            }),
    {
        let new_start: usize = self.green.start.saturating_sub(shift_left);
        if new_start < self.red_before {
            return Err(AlreadyUsed);
        }
        self.green = Range { start: new_start, end: self.green.end };
        Ok(())
    }

    /// Moves the end of the green zone forward. Fails if the red zone is in the way.
    pub fn try_extend_after(&mut self, shift_right: usize) -> (r: Result<(), AlreadyUsed>)
        ensures
            ({
                let moved = if old(self)@.green.1 + shift_right <= usize::MAX {
                    old(self)@.green.1 + shift_right
                } else {
                    usize::MAX as int
                };
                if moved > old(self)@.red_after {
                    r is Err && final(self)@ == old(self)@
                } else {
                    r is Ok && final(self)@ == (CursorView {
                        green: (old(self)@.green.0, moved),
                        ..old(self)@
                    })
                }
            }),
    {
        let new_end: usize = self.green.end.saturating_add(shift_right);
        if new_end > self.red_after {
            return Err(AlreadyUsed);
        }
        self.green = Range { start: self.green.start, end: new_end };
        Ok(())
    }
}

} // verus!
