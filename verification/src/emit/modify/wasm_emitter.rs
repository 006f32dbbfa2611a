//! Emitter for instructions and sections.
//!
//! - The emitter returns the offsets of the entity references that it writes.
//! - LEB128 numbers are written in full form, in five bytes, so that a relocation can overwrite
//!   them in place.
use crate::emit::relocation::encode::{
    encode_leb128_i32_5byte, encode_leb128_u32_5byte, fixed_leb, lemma_fixed_leb_len, sleb, uleb,
    variable_s32, variable_u32,
};
use vstd::prelude::*;

verus! {

/// Why an encoder refused a request.
#[derive(Debug, Clone, Copy, PartialEq, Eq, Structural)]
pub enum EncodeError {
    /// A child encoder starts outside of the written range.
    StartOutOfRange,
    /// The place to seek to is no offset at all.
    SeekOverflow,
    /// The place to seek to is outside of the written range.
    SeekOutOfRange,
    /// A section starts before the end of the written range.
    NotAtEnd,
}

/// A place to seek to.
#[derive(Debug, Clone, Copy, PartialEq, Eq, Structural)]
pub enum SeekFrom {
    /// Distance from the start of the written range.
    Start(u64),
    /// Distance from the end of the written range.
    End(i64),
    /// Distance from the current offset.
    Current(i64),
}

/// Bytes with some of them replaced, from the place `at` on.
pub open spec fn overwritten(bytes: Seq<u8>, at: int, new: Seq<u8>) -> Seq<u8> {
    bytes.take(at) + new + (if at + new.len() < bytes.len() {
        bytes.skip(at + new.len())
    } else {
        Seq::empty()
    })
}

/// State of an [`Encoder`].
pub struct EncoderView {
    /// What the buffer held before the encoder was made.
    pub prefix: Seq<u8>,
    /// Offset of the first byte of the encoder.
    pub start: int,
    /// Offset of the byte that is written next.
    pub offset: int,
    /// What was written.
    pub written: Seq<u8>,
}

impl EncoderView {
    pub open spec fn valid(self) -> bool {
        0 <= self.start <= self.offset <= self.end() <= u32::MAX
    }

    /// Offset of the end of the written range.
    pub open spec fn end(self) -> int {
        self.start + self.written.len()
    }

    /// The state after some bytes were written.
    pub open spec fn after(self, bytes: Seq<u8>) -> EncoderView {
        EncoderView {
            offset: self.offset + bytes.len(),
            written: overwritten(self.written, self.offset - self.start, bytes),
            ..self
        }
    }

    /// Whether some bytes can be written.
    pub open spec fn has_room(self, len: int) -> bool {
        self.offset + len <= u32::MAX
    }

    /// The offset that a seek goes to.
    pub open spec fn target(self, pos: SeekFrom) -> Result<int, EncodeError> {
        let target = match pos {
            SeekFrom::Start(distance) => self.start + distance,
            SeekFrom::End(distance) => self.end() + distance,
            SeekFrom::Current(distance) => self.offset + distance,
        };
        if target < 0 || target > u32::MAX {
            Err(EncodeError::SeekOverflow)
        } else if target < self.start || target > self.end() {
            Err(EncodeError::SeekOutOfRange)
        } else {
            Ok(target)
        }
    }
}

/// Writing twice is the same as writing both parts at once.
pub broadcast proof fn lemma_after_twice(view: EncoderView, first: Seq<u8>, second: Seq<u8>)
    requires
        view.valid(),
    ensures
        #[trigger] view.after(first).after(second) == view.after(first + second),
{
    assert(view.after(first).after(second).written =~= view.after(first + second).written);
}

/// What is written at the end is appended.
pub broadcast proof fn lemma_after_at_end(view: EncoderView, bytes: Seq<u8>)
    requires
        view.valid(),
        view.offset == view.end(),
    ensures
        (#[trigger] view.after(bytes)).written == view.written + bytes,
        view.after(bytes).offset == view.after(bytes).end(),
{
    assert(view.after(bytes).written =~= view.written + bytes);
}

/// The written range only grows, and ends at or behind the last written byte.
pub proof fn lemma_after_end(view: EncoderView, bytes: Seq<u8>)
    requires
        view.valid(),
    ensures
        view.after(bytes).end() == if view.offset + bytes.len() > view.end() {
            view.offset + bytes.len()
        } else {
            view.end()
        },
{
}

/// A byte buffer with the offset of the byte that is written next, which can be moved within what
/// was written.
#[derive(Debug)]
pub struct Encoder {
    writer: Vec<u8>,
    base: usize,
    start: u32,
    offset: u32,
}

impl View for Encoder {
    type V = EncoderView;

    closed spec fn view(&self) -> EncoderView {
        EncoderView {
            prefix: self.writer@.take(self.base as int),
            start: self.start as int,
            offset: self.offset as int,
            written: self.writer@.skip(self.base as int),
        }
    }
}

impl Encoder {
    pub closed spec fn wf(&self) -> bool {
        &&& self.base <= self.writer@.len()
        &&& self@.valid()
    }

    /// The offsets of an encoder are in order.
    pub proof fn lemma_valid(&self)
        requires
            self.wf(),
        ensures
            self@.valid(),
    {
    }

    /// An encoder that writes behind what the buffer holds; its first byte has the given offset.
    pub fn new(writer: Vec<u8>, starting_offset: u32) -> (r: Self)
        ensures
            r.wf(),
            r@ == (EncoderView {
                prefix: writer@,
                start: starting_offset as int,
                offset: starting_offset as int,
                written: Seq::empty(),
            }),
    {
        let base: usize = writer.len();
        let r = Encoder { writer, base, start: starting_offset, offset: starting_offset };
        assert(r@.prefix =~= writer@);
        assert(r@.written =~= Seq::<u8>::empty());
        r
    }

    /// Offset of the first byte of the encoder.
    pub fn start(&self) -> (r: u32)
        ensures
            r == self@.start,
    {
        self.start
    }

    /// The current offset.
    pub fn offset(&self) -> (r: u32)
        ensures
            r == self@.offset,
    {
        self.offset
    }

    /// Offset of the end of the written range.
    pub fn end_offset(&self) -> (r: u32)
        requires
            self.wf(),
        ensures
            r == self@.end(),
    {
        (self.start as usize + (self.writer.len() - self.base)) as u32
    }

    /// The whole buffer.
    pub fn into_inner(self) -> (r: Vec<u8>)
        requires
            self.wf(),
        ensures
            r@ == self@.prefix + self@.written,
    {
        assert(self.writer@ =~= self@.prefix + self@.written);
        self.writer
    }

    pub fn push_byte(&mut self, byte: u8)
        requires
            old(self).wf(),
            old(self)@.has_room(1),
        ensures
            final(self).wf(),
            final(self)@ == old(self)@.after(seq![byte]),
    {
        let ghost before = self@;
        let len: usize = self.writer.len();
        assert(self@.written.len() == len - self.base);
        let at: usize = self.base + (self.offset - self.start) as usize;
        if at < len {
            self.writer.set(at, byte);
        } else {
            self.writer.push(byte);
        }
        self.offset = self.offset + 1;
        proof {
            lemma_after_end(before, seq![byte]);
            assert(self@.prefix =~= before.prefix);
            assert(self@.written =~= before.after(seq![byte]).written);
        }
    }

    pub fn push_bytes(&mut self, bytes: &[u8])
        requires
            old(self).wf(),
            old(self)@.has_room(bytes@.len() as int),
        ensures
            final(self).wf(),
            final(self)@ == old(self)@.after(bytes@),
    {
        let ghost before = self@;
        let mut i: usize = 0;
        proof {
            assert(bytes@.take(0) =~= Seq::<u8>::empty());
            assert(before.after(Seq::empty()).written =~= before.written);
        }
        while i < bytes.len()
            invariant
                i <= bytes@.len(),
                self.wf(),
                before.valid(),
                before.has_room(bytes@.len() as int),
                self@ == before.after(bytes@.take(i as int)),
            decreases bytes@.len() - i,
        {
            let ghost done = bytes@.take(i as int);
            self.push_byte(bytes[i]);
            proof {
                lemma_after_twice(before, done, seq![bytes@[i as int]]);
                assert(done + seq![bytes@[i as int]] =~= bytes@.take(i + 1));
            }
            i = i + 1;
        }
        assert(bytes@.take(i as int) =~= bytes@);
    }

    /// Moves the current offset within the written range, its end included. Returns the distance
    /// from the start of the range.
    pub fn seek(&mut self, pos: SeekFrom) -> (r: Result<u64, EncodeError>)
        requires
            old(self).wf(),
        ensures
            final(self).wf(),
            match old(self)@.target(pos) {
                Ok(target) => r == Ok::<u64, EncodeError>((target - old(self)@.start) as u64)
                    && final(self)@ == (EncoderView { offset: target, ..old(self)@ }),
                Err(error) => r == Err::<u64, EncodeError>(error) && final(self)@ == old(self)@,
            },
    {
        let end: u32 = self.end_offset();
        let target: i128 = match pos {
            SeekFrom::Start(distance) => self.start as i128 + distance as i128,
            SeekFrom::End(distance) => end as i128 + distance as i128,
            SeekFrom::Current(distance) => self.offset as i128 + distance as i128,
        };
        if target < 0 || target > 0xffff_ffff {
            return Err(EncodeError::SeekOverflow);
        }
        if target < self.start as i128 || target > end as i128 {
            return Err(EncodeError::SeekOutOfRange);
        }
        self.offset = target as u32;
        Ok((self.offset - self.start) as u64)
    }

    /// Calls a function with a child encoder that starts at the given offset. What the child wrote
    /// is written there, and the current offset is where the child left off. If the function fails,
    /// what the child wrote in the written range stays there, and the range and the current offset
    /// are as before.
    pub fn with_child_encoder<F, U>(&mut self, starting_offset: u32, func: F) -> (r: Result<
        U,
        EncodeError,
    >)
        where F: FnOnce(&mut Encoder) -> Result<U, EncodeError>
        requires
            old(self).wf(),
            forall|e: &mut Encoder|
                (*e).wf() && (*e)@ == fresh(starting_offset as int) ==> call_requires(func, (e,)),
            forall|e: &mut Encoder, u: Result<U, EncodeError>|
                #![trigger call_ensures(func, (e,), u)]
                call_ensures(func, (e,), u) ==> (*final(e)).wf() && (*final(e))@.start
                    == starting_offset,
        ensures
            final(self).wf(),
            if old(self)@.start <= starting_offset <= old(self)@.end() {
                exists|e: &mut Encoder|
                    #![trigger call_ensures(func, (e,), r)]
                    {
                        &&& (*e)@ == fresh(starting_offset as int)
                        &&& call_ensures(func, (e,), r)
                        &&& r is Ok ==> final(self)@ == joined(old(self)@, (*final(e))@)
                        &&& r is Err ==> final(self)@ == given_up(old(self)@, (*final(e))@)
                    }
            } else {
                r == Err::<U, EncodeError>(EncodeError::StartOutOfRange) && final(self)@ == old(
                    self,
                )@
            },
    {
        if starting_offset < self.start || starting_offset > self.end_offset() {
            return Err(EncodeError::StartOutOfRange);
        }
        let mut child = Encoder::new(Vec::new(), starting_offset);
        let result = func(&mut child);
        let ghost before = self@;
        let ghost left = child@;
        let own_offset: u32 = self.offset;
        let own_len: usize = self.writer.len();
        let offset: u32 = child.offset;
        let base: usize = child.base;
        let bytes = child.writer;
        self.offset = starting_offset;
        let ghost moved = self@;
        let child_bytes = vstd::slice::slice_subrange(bytes.as_slice(), base, bytes.len());
        assert(child_bytes@ =~= left.written);
        self.push_bytes(child_bytes);
        proof {
            lemma_after_end(moved, left.written);
        }
        if result.is_ok() {
            self.offset = offset;
        } else {
            let ghost pushed = *self;
            assert(pushed.base == before.prefix.len());
            self.writer.truncate(own_len);
            self.offset = own_offset;
            proof {
                let kept = own_len - pushed.base;
                assert(self.writer@ == pushed.writer@.subrange(0, own_len as int));
                assert(self@.prefix =~= pushed@.prefix);
                assert(self@.written =~= pushed@.written.take(kept));
                assert(self@.written =~= given_up(before, left).written);
            }
        }
        result
    }

    /// Writes a number as LEB128 in the fewest bytes, and zeros behind it up to five bytes.
    pub fn encode_leb_any_size(&mut self, v: u32)
        requires
            old(self).wf(),
            old(self)@.has_room(5),
        ensures
            final(self).wf(),
            final(self)@ == old(self)@.after(zero_padded(uleb(v as nat), 5)),
    {
        let (buf, _) = variable_u32(v);
        self.push_bytes(buf.as_slice());
    }

    /// Writes a number as LEB128 in five bytes and returns their offset.
    pub fn encode_leb_5byte(&mut self, v: u32) -> (r: u32)
        requires
            old(self).wf(),
            old(self)@.has_room(5),
        ensures
            final(self).wf(),
            r == old(self)@.offset,
            final(self)@ == old(self)@.after(fixed_leb(v as int, 5)),
    {
        let mut buf: [u8; 5] = [0, 0, 0, 0, 0];
        encode_leb128_u32_5byte(v, &mut buf);
        let res: u32 = self.offset;
        self.push_bytes(buf.as_slice());
        res
    }

    /// Writes a number as signed LEB128 in the fewest bytes, and zeros behind it up to five bytes.
    pub fn encode_sleb_any_size(&mut self, v: i32)
        requires
            old(self).wf(),
            old(self)@.has_room(5),
        ensures
            final(self).wf(),
            final(self)@ == old(self)@.after(zero_padded(sleb(v as int), 5)),
    {
        let (buf, _) = variable_s32(v);
        self.push_bytes(buf.as_slice());
    }

    /// Writes a number as signed LEB128 in five bytes and returns their offset.
    pub fn encode_sleb_5byte(&mut self, v: i32) -> (r: u32)
        requires
            old(self).wf(),
            old(self)@.has_room(5),
        ensures
            final(self).wf(),
            r == old(self)@.offset,
            final(self)@ == old(self)@.after(fixed_leb(v as int, 5)),
    {
        let mut buf: [u8; 5] = [0, 0, 0, 0, 0];
        encode_leb128_i32_5byte(v, &mut buf);
        let res: u32 = self.offset;
        self.push_bytes(buf.as_slice());
        res
    }

    /// Writes five bytes that hold the place of a number and stand out as no valid one. Returns
    /// their offset.
    pub fn encode_5byte_invalid(&mut self) -> (r: u32)
        requires
            old(self).wf(),
            old(self)@.has_room(5),
        ensures
            final(self).wf(),
            r == old(self)@.offset,
            final(self)@ == old(self)@.after(invalid_5byte()),
    {
        let buf: [u8; 5] = [0xde, 0xad, 0xbe, 0xef, 0x00];
        let res: u32 = self.offset;
        self.push_bytes(buf.as_slice());
        assert(buf@ =~= invalid_5byte());
        res
    }

    /// Writes an encoded constant expression.
    pub fn encode_const_expr(&mut self, expr: &[u8])
        requires
            old(self).wf(),
            old(self)@.has_room(expr@.len() as int),
        ensures
            final(self).wf(),
            final(self)@ == old(self)@.after(expr@),
    {
        self.push_bytes(expr);
    }

    /// Writes bytes behind their number. Returns the offset of the first one.
    pub fn encode_len_prefixed_bytes(&mut self, bytes: &[u8]) -> (r: u32)
        requires
            old(self).wf(),
            old(self)@.has_room(5 + bytes@.len() as int),
        ensures
            final(self).wf(),
            r == old(self)@.offset + 5,
            final(self)@ == old(self)@.after(len_prefixed(bytes@)),
    {
        broadcast use lemma_after_twice;

        proof {
            lemma_fixed_leb_len(bytes@.len() as int, 5);
        }
        let _ = self.encode_leb_5byte(bytes.len() as u32);
        let pos: u32 = self.offset();
        self.push_bytes(bytes);
        pos
    }

    /// Writes an opcode and a number as LEB128. Returns the offset of the number.
    fn opcode_with_u32(&mut self, opcode: u8, v: u32) -> (r: u32)
        requires
            old(self).wf(),
            old(self)@.has_room(6),
        ensures
            final(self).wf(),
            r == old(self)@.offset + 1,
            final(self)@ == old(self)@.after(seq![opcode] + fixed_leb(v as int, 5)),
    {
        broadcast use lemma_after_twice;

        self.push_byte(opcode);
        self.encode_leb_5byte(v)
    }

    /// Writes an opcode and the place of a number. Returns the offset of the number.
    fn opcode_with_invalid(&mut self, opcode: u8) -> (r: u32)
        requires
            old(self).wf(),
            old(self)@.has_room(6),
        ensures
            final(self).wf(),
            r == old(self)@.offset + 1,
            final(self)@ == old(self)@.after(seq![opcode] + invalid_5byte()),
    {
        broadcast use lemma_after_twice;

        self.push_byte(opcode);
        self.encode_5byte_invalid()
    }

    /// Writes `global.get` and returns the offset of the global index.
    pub fn global_get(&mut self, g: u32) -> (r: u32)
        requires
            old(self).wf(),
            old(self)@.has_room(6),
        ensures
            final(self).wf(),
            r == old(self)@.offset + 1,
            final(self)@ == old(self)@.after(seq![0x23u8] + fixed_leb(g as int, 5)),
    {
        self.opcode_with_u32(0x23, g)
    }

    /// Writes `global.get` with the place of the global index and returns its offset.
    pub fn global_get_invalid(&mut self) -> (r: u32)
        requires
            old(self).wf(),
            old(self)@.has_room(6),
        ensures
            final(self).wf(),
            r == old(self)@.offset + 1,
            final(self)@ == old(self)@.after(seq![0x23u8] + invalid_5byte()),
    {
        self.opcode_with_invalid(0x23)
    }

    /// Writes `global.set` and returns the offset of the global index.
    pub fn global_set(&mut self, g: u32) -> (r: u32)
        requires
            old(self).wf(),
            old(self)@.has_room(6),
        ensures
            final(self).wf(),
            r == old(self)@.offset + 1,
            final(self)@ == old(self)@.after(seq![0x24u8] + fixed_leb(g as int, 5)),
    {
        self.opcode_with_u32(0x24, g)
    }

    /// Writes `i32.const` and returns the offset of the constant.
    pub fn i32_const(&mut self, c: i32) -> (r: u32)
        requires
            old(self).wf(),
            old(self)@.has_room(6),
        ensures
            final(self).wf(),
            r == old(self)@.offset + 1,
            final(self)@ == old(self)@.after(seq![0x41u8] + fixed_leb(c as int, 5)),
    {
        broadcast use lemma_after_twice;

        self.push_byte(0x41);
        self.encode_sleb_5byte(c)
    }

    /// Writes `i32.const` with the place of the constant and returns its offset.
    pub fn i32_const_invalid(&mut self) -> (r: u32)
        requires
            old(self).wf(),
            old(self)@.has_room(6),
        ensures
            final(self).wf(),
            r == old(self)@.offset + 1,
            final(self)@ == old(self)@.after(seq![0x41u8] + invalid_5byte()),
    {
        self.opcode_with_invalid(0x41)
    }

    /// Writes `i32.add`.
    pub fn i32_add(&mut self)
        requires
            old(self).wf(),
            old(self)@.has_room(1),
        ensures
            final(self).wf(),
            final(self)@ == old(self)@.after(seq![0x6au8]),
    {
        self.push_byte(0x6a)
    }

    /// Writes `end`.
    pub fn end(&mut self)
        requires
            old(self).wf(),
            old(self)@.has_room(1),
        ensures
            final(self).wf(),
            final(self)@ == old(self)@.after(seq![0x0bu8]),
    {
        self.push_byte(0x0b)
    }

    /// Writes the argument of a memory instruction. Returns the offsets of its parts.
    fn encode_memarg32(&mut self, m: MemArg) -> (r: MemArgOffsets)
        requires
            old(self).wf(),
            m.offset <= u32::MAX,
            old(self)@.has_room(m.size()),
        ensures
            final(self).wf(),
            r == m.places(old(self)@.offset),
            final(self)@ == old(self)@.after(m.bytes()),
    {
        broadcast use lemma_after_twice;

        proof {
            lemma_fixed_leb_len(m.align as int, 5);
            lemma_fixed_leb_len((m.align | 0x40) as int, 5);
            lemma_fixed_leb_len(m.memory_index as int, 5);
        }
        if m.memory_index == 0 {
            let _ = self.encode_leb_5byte(m.align);
            let offset: u32 = self.encode_leb_5byte(m.offset as u32);
            MemArgOffsets { offset, memory_index: None }
        } else {
            let _ = self.encode_leb_5byte(m.align | 0x40);
            let idx: u32 = self.encode_leb_5byte(m.memory_index);
            let offset: u32 = self.encode_leb_5byte(m.offset as u32);
            MemArgOffsets { offset, memory_index: Some(idx) }
        }
    }

    /// Writes a memory instruction. Returns the offsets of the parts of its argument.
    fn memory_instruction(&mut self, opcode: u8, m: MemArg) -> (r: MemArgOffsets)
        requires
            old(self).wf(),
            m.offset <= u32::MAX,
            old(self)@.has_room(1 + m.size()),
        ensures
            final(self).wf(),
            r == m.places(old(self)@.offset + 1),
            final(self)@ == old(self)@.after(seq![opcode] + m.bytes()),
    {
        broadcast use lemma_after_twice;

        self.push_byte(opcode);
        self.encode_memarg32(m)
    }

    /// Writes `i32.load`. Returns the offsets of the parts of its argument.
    pub fn i32_load(&mut self, m: MemArg) -> (r: MemArgOffsets)
        requires
            old(self).wf(),
            m.offset <= u32::MAX,
            old(self)@.has_room(1 + m.size()),
        ensures
            final(self).wf(),
            r == m.places(old(self)@.offset + 1),
            final(self)@ == old(self)@.after(seq![0x28u8] + m.bytes()),
    {
        self.memory_instruction(0x28, m)
    }

    /// Writes `i64.load`. Returns the offsets of the parts of its argument.
    pub fn i64_load(&mut self, m: MemArg) -> (r: MemArgOffsets)
        requires
            old(self).wf(),
            m.offset <= u32::MAX,
            old(self)@.has_room(1 + m.size()),
        ensures
            final(self).wf(),
            r == m.places(old(self)@.offset + 1),
            final(self)@ == old(self)@.after(seq![0x29u8] + m.bytes()),
    {
        self.memory_instruction(0x29, m)
    }

    /// Writes `f32.load`. Returns the offsets of the parts of its argument.
    pub fn f32_load(&mut self, m: MemArg) -> (r: MemArgOffsets)
        requires
            old(self).wf(),
            m.offset <= u32::MAX,
            old(self)@.has_room(1 + m.size()),
        ensures
            final(self).wf(),
            r == m.places(old(self)@.offset + 1),
            final(self)@ == old(self)@.after(seq![0x2au8] + m.bytes()),
    {
        self.memory_instruction(0x2a, m)
    }

    /// Writes `f64.load`. Returns the offsets of the parts of its argument.
    pub fn f64_load(&mut self, m: MemArg) -> (r: MemArgOffsets)
        requires
            old(self).wf(),
            m.offset <= u32::MAX,
            old(self)@.has_room(1 + m.size()),
        ensures
            final(self).wf(),
            r == m.places(old(self)@.offset + 1),
            final(self)@ == old(self)@.after(seq![0x2bu8] + m.bytes()),
    {
        self.memory_instruction(0x2b, m)
    }

    /// Writes `i32.load8_s`. Returns the offsets of the parts of its argument.
    pub fn i32_load8_s(&mut self, m: MemArg) -> (r: MemArgOffsets)
        requires
            old(self).wf(),
            m.offset <= u32::MAX,
            old(self)@.has_room(1 + m.size()),
        ensures
            final(self).wf(),
            r == m.places(old(self)@.offset + 1),
            final(self)@ == old(self)@.after(seq![0x2cu8] + m.bytes()),
    {
        self.memory_instruction(0x2c, m)
    }

    /// Writes `i32.load8_u`. Returns the offsets of the parts of its argument.
    pub fn i32_load8_u(&mut self, m: MemArg) -> (r: MemArgOffsets)
        requires
            old(self).wf(),
            m.offset <= u32::MAX,
            old(self)@.has_room(1 + m.size()),
        ensures
            final(self).wf(),
            r == m.places(old(self)@.offset + 1),
            final(self)@ == old(self)@.after(seq![0x2du8] + m.bytes()),
    {
        self.memory_instruction(0x2d, m)
    }

    /// Writes `i32.load16_s`. Returns the offsets of the parts of its argument.
    pub fn i32_load16_s(&mut self, m: MemArg) -> (r: MemArgOffsets)
        requires
            old(self).wf(),
            m.offset <= u32::MAX,
            old(self)@.has_room(1 + m.size()),
        ensures
            final(self).wf(),
            r == m.places(old(self)@.offset + 1),
            final(self)@ == old(self)@.after(seq![0x2eu8] + m.bytes()),
    {
        self.memory_instruction(0x2e, m)
    }

    /// Writes `i32.load16_u`. Returns the offsets of the parts of its argument.
    pub fn i32_load16_u(&mut self, m: MemArg) -> (r: MemArgOffsets)
        requires
            old(self).wf(),
            m.offset <= u32::MAX,
            old(self)@.has_room(1 + m.size()),
        ensures
            final(self).wf(),
            r == m.places(old(self)@.offset + 1),
            final(self)@ == old(self)@.after(seq![0x2fu8] + m.bytes()),
    {
        self.memory_instruction(0x2f, m)
    }

    /// Writes `i64.load8_s`. Returns the offsets of the parts of its argument.
    pub fn i64_load8_s(&mut self, m: MemArg) -> (r: MemArgOffsets)
        requires
            old(self).wf(),
            m.offset <= u32::MAX,
            old(self)@.has_room(1 + m.size()),
        ensures
            final(self).wf(),
            r == m.places(old(self)@.offset + 1),
            final(self)@ == old(self)@.after(seq![0x30u8] + m.bytes()),
    {
        self.memory_instruction(0x30, m)
    }

    /// Writes `i64.load8_u`. Returns the offsets of the parts of its argument.
    pub fn i64_load8_u(&mut self, m: MemArg) -> (r: MemArgOffsets)
        requires
            old(self).wf(),
            m.offset <= u32::MAX,
            old(self)@.has_room(1 + m.size()),
        ensures
            final(self).wf(),
            r == m.places(old(self)@.offset + 1),
            final(self)@ == old(self)@.after(seq![0x31u8] + m.bytes()),
    {
        self.memory_instruction(0x31, m)
    }

    /// Writes `i64.load16_s`. Returns the offsets of the parts of its argument.
    pub fn i64_load16_s(&mut self, m: MemArg) -> (r: MemArgOffsets)
        requires
            old(self).wf(),
            m.offset <= u32::MAX,
            old(self)@.has_room(1 + m.size()),
        ensures
            final(self).wf(),
            r == m.places(old(self)@.offset + 1),
            final(self)@ == old(self)@.after(seq![0x32u8] + m.bytes()),
    {
        self.memory_instruction(0x32, m)
    }

    /// Writes `i64.load16_u`. Returns the offsets of the parts of its argument.
    pub fn i64_load16_u(&mut self, m: MemArg) -> (r: MemArgOffsets)
        requires
            old(self).wf(),
            m.offset <= u32::MAX,
            old(self)@.has_room(1 + m.size()),
        ensures
            final(self).wf(),
            r == m.places(old(self)@.offset + 1),
            final(self)@ == old(self)@.after(seq![0x33u8] + m.bytes()),
    {
        self.memory_instruction(0x33, m)
    }

    /// Writes `i64.load32_s`. Returns the offsets of the parts of its argument.
    pub fn i64_load32_s(&mut self, m: MemArg) -> (r: MemArgOffsets)
        requires
            old(self).wf(),
            m.offset <= u32::MAX,
            old(self)@.has_room(1 + m.size()),
        ensures
            final(self).wf(),
            r == m.places(old(self)@.offset + 1),
            final(self)@ == old(self)@.after(seq![0x34u8] + m.bytes()),
    {
        self.memory_instruction(0x34, m)
    }

    /// Writes `i64.load32_u`. Returns the offsets of the parts of its argument.
    pub fn i64_load32_u(&mut self, m: MemArg) -> (r: MemArgOffsets)
        requires
            old(self).wf(),
            m.offset <= u32::MAX,
            old(self)@.has_room(1 + m.size()),
        ensures
            final(self).wf(),
            r == m.places(old(self)@.offset + 1),
            final(self)@ == old(self)@.after(seq![0x35u8] + m.bytes()),
    {
        self.memory_instruction(0x35, m)
    }

    /// Writes `i32.store`. Returns the offsets of the parts of its argument.
    pub fn i32_store(&mut self, m: MemArg) -> (r: MemArgOffsets)
        requires
            old(self).wf(),
            m.offset <= u32::MAX,
            old(self)@.has_room(1 + m.size()),
        ensures
            final(self).wf(),
            r == m.places(old(self)@.offset + 1),
            final(self)@ == old(self)@.after(seq![0x36u8] + m.bytes()),
    {
        self.memory_instruction(0x36, m)
    }

    /// Writes `i64.store`. Returns the offsets of the parts of its argument.
    pub fn i64_store(&mut self, m: MemArg) -> (r: MemArgOffsets)
        requires
            old(self).wf(),
            m.offset <= u32::MAX,
            old(self)@.has_room(1 + m.size()),
        ensures
            final(self).wf(),
            r == m.places(old(self)@.offset + 1),
            final(self)@ == old(self)@.after(seq![0x37u8] + m.bytes()),
    {
        self.memory_instruction(0x37, m)
    }

    /// Writes `f32.store`. Returns the offsets of the parts of its argument.
    pub fn f32_store(&mut self, m: MemArg) -> (r: MemArgOffsets)
        requires
            old(self).wf(),
            m.offset <= u32::MAX,
            old(self)@.has_room(1 + m.size()),
        ensures
            final(self).wf(),
            r == m.places(old(self)@.offset + 1),
            final(self)@ == old(self)@.after(seq![0x38u8] + m.bytes()),
    {
        self.memory_instruction(0x38, m)
    }

    /// Writes `f64.store`. Returns the offsets of the parts of its argument.
    pub fn f64_store(&mut self, m: MemArg) -> (r: MemArgOffsets)
        requires
            old(self).wf(),
            m.offset <= u32::MAX,
            old(self)@.has_room(1 + m.size()),
        ensures
            final(self).wf(),
            r == m.places(old(self)@.offset + 1),
            final(self)@ == old(self)@.after(seq![0x39u8] + m.bytes()),
    {
        self.memory_instruction(0x39, m)
    }

    /// Writes `i32.store8`. Returns the offsets of the parts of its argument.
    pub fn i32_store8(&mut self, m: MemArg) -> (r: MemArgOffsets)
        requires
            old(self).wf(),
            m.offset <= u32::MAX,
            old(self)@.has_room(1 + m.size()),
        ensures
            final(self).wf(),
            r == m.places(old(self)@.offset + 1),
            final(self)@ == old(self)@.after(seq![0x3au8] + m.bytes()),
    {
        self.memory_instruction(0x3a, m)
    }

    /// Writes `i32.store16`. Returns the offsets of the parts of its argument.
    pub fn i32_store16(&mut self, m: MemArg) -> (r: MemArgOffsets)
        requires
            old(self).wf(),
            m.offset <= u32::MAX,
            old(self)@.has_room(1 + m.size()),
        ensures
            final(self).wf(),
            r == m.places(old(self)@.offset + 1),
            final(self)@ == old(self)@.after(seq![0x3bu8] + m.bytes()),
    {
        self.memory_instruction(0x3b, m)
    }

    /// Writes `i64.store8`. Returns the offsets of the parts of its argument.
    pub fn i64_store8(&mut self, m: MemArg) -> (r: MemArgOffsets)
        requires
            old(self).wf(),
            m.offset <= u32::MAX,
            old(self)@.has_room(1 + m.size()),
        ensures
            final(self).wf(),
            r == m.places(old(self)@.offset + 1),
            final(self)@ == old(self)@.after(seq![0x3cu8] + m.bytes()),
    {
        self.memory_instruction(0x3c, m)
    }

    /// Writes `i64.store16`. Returns the offsets of the parts of its argument.
    pub fn i64_store16(&mut self, m: MemArg) -> (r: MemArgOffsets)
        requires
            old(self).wf(),
            m.offset <= u32::MAX,
            old(self)@.has_room(1 + m.size()),
        ensures
            final(self).wf(),
            r == m.places(old(self)@.offset + 1),
            final(self)@ == old(self)@.after(seq![0x3du8] + m.bytes()),
    {
        self.memory_instruction(0x3d, m)
    }

    /// Writes `i64.store32`. Returns the offsets of the parts of its argument.
    pub fn i64_store32(&mut self, m: MemArg) -> (r: MemArgOffsets)
        requires
            old(self).wf(),
            m.offset <= u32::MAX,
            old(self)@.has_room(1 + m.size()),
        ensures
            final(self).wf(),
            r == m.places(old(self)@.offset + 1),
            final(self)@ == old(self)@.after(seq![0x3eu8] + m.bytes()),
    {
        self.memory_instruction(0x3e, m)
    }
}

/// State of a new encoder on an empty buffer.
pub open spec fn fresh(start: int) -> EncoderView {
    EncoderView { prefix: Seq::empty(), start, offset: start, written: Seq::empty() }
}

/// State of an encoder after it took over what a child wrote.
pub open spec fn joined(parent: EncoderView, child: EncoderView) -> EncoderView {
    EncoderView {
        offset: child.offset,
        written: overwritten(parent.written, child.start - parent.start, child.written),
        ..parent
    }
}

/// The state after a child that failed: what it wrote in the written range stays there, and the
/// range and the current offset are as before.
pub open spec fn given_up(view: EncoderView, child: EncoderView) -> EncoderView {
    EncoderView {
        written: joined(view, child).written.take(view.written.len() as int),
        ..view
    }
}

/// The bytes that hold the place of a number.
pub open spec fn invalid_5byte() -> Seq<u8> {
    seq![0xdeu8, 0xadu8, 0xbeu8, 0xefu8, 0x00u8]
}

/// Bytes with zeros behind them, up to the given length.
pub open spec fn zero_padded(bytes: Seq<u8>, len: nat) -> Seq<u8> {
    bytes + Seq::new((len - bytes.len()) as nat, |i: int| 0u8)
}

/// Bytes behind their number.
pub open spec fn len_prefixed(bytes: Seq<u8>) -> Seq<u8> {
    fixed_leb(bytes.len() as int, 5) + bytes
}

/// Argument of a memory instruction.
#[derive(Debug, Clone, Copy, PartialEq, Eq, Structural)]
pub struct MemArg {
    pub offset: u64,
    /// Alignment as a power of two.
    pub align: u32,
    pub memory_index: u32,
}

impl MemArg {
    /// Number of bytes of the encoding.
    pub open spec fn size(self) -> int {
        if self.memory_index == 0 {
            10
        } else {
            15
        }
    }

    /// The encoding: a memory other than the first one is announced by bit 6 of the alignment.
    pub open spec fn bytes(self) -> Seq<u8> {
        if self.memory_index == 0 {
            fixed_leb(self.align as int, 5) + fixed_leb(self.offset as int, 5)
        } else {
            fixed_leb((self.align | 0x40) as int, 5) + fixed_leb(self.memory_index as int, 5)
                + fixed_leb(self.offset as int, 5)
        }
    }

    /// Where the parts of the encoding stand, if it starts at `at`.
    pub open spec fn places(self, at: int) -> MemArgOffsets {
        if self.memory_index == 0 {
            MemArgOffsets { offset: (at + 5) as u32, memory_index: None }
        } else {
            MemArgOffsets { offset: (at + 10) as u32, memory_index: Some((at + 5) as u32) }
        }
    }
}

/// Offsets of the parts of a written [`MemArg`].
#[derive(Debug, Clone, Copy, PartialEq, Eq)]
pub struct MemArgOffsets {
    pub offset: u32,
    pub memory_index: Option<u32>,
}

/// Values that can be written and tell where they were written.
pub trait EncodeWithRelocOffset {
    type Offsets;

    /// Whether the value can be written.
    spec fn ready(&self) -> bool;

    /// The bytes of the value.
    spec fn encoding(&self) -> Seq<u8>;

    /// Whether the offsets fit for a value that is written at `at`.
    spec fn offsets_at(&self, at: int, offsets: Self::Offsets) -> bool;

    fn encode(&self, encoder: &mut Encoder) -> (r: Self::Offsets)
        requires
            self.ready(),
            old(encoder).wf(),
            old(encoder)@.has_room(self.encoding().len() as int),
        ensures
            final(encoder).wf(),
            final(encoder)@ == old(encoder)@.after(self.encoding()),
            self.offsets_at(old(encoder)@.offset, r),
    ;
}

impl EncodeWithRelocOffset for u32 {
    type Offsets = u32;

    open spec fn ready(&self) -> bool {
        true
    }

    open spec fn encoding(&self) -> Seq<u8> {
        fixed_leb(*self as int, 5)
    }

    open spec fn offsets_at(&self, at: int, offsets: u32) -> bool {
        offsets == at
    }

    fn encode(&self, encoder: &mut Encoder) -> (r: u32) {
        proof {
            lemma_fixed_leb_len(*self as int, 5);
        }
        encoder.encode_leb_5byte(*self)
    }
}

/// A section that is a list of items, written one item after the other.
///
/// A new list writes the section id and keeps places for the number of bytes and the number of
/// items. Both are filled in when the list is finished.
#[derive(Debug)]
pub struct SectionList {
    encoder: Encoder,
    // both relative to the start of the encoder
    bytes_pos: u32,
    count_pos: u32,
    items_count: u32,
}

/// The bytes of a section: its id stands at the end of `head`.
pub open spec fn section_bytes(head: Seq<u8>, count: int, body: Seq<u8>) -> Seq<u8> {
    head + fixed_leb(body.len() as int + 5, 5) + fixed_leb(count, 5) + body
}

impl SectionList {
    /// State of the underlying encoder.
    pub closed spec fn enc(&self) -> EncoderView {
        self.encoder@
    }

    /// Number of items.
    pub closed spec fn count(&self) -> int {
        self.items_count as int
    }

    /// What stands before the places of the two numbers, the section id included.
    pub closed spec fn head(&self) -> Seq<u8> {
        self.encoder@.written.take(self.bytes_pos as int)
    }

    /// The items.
    pub closed spec fn body(&self) -> Seq<u8> {
        self.encoder@.written.skip(self.count_pos + 5)
    }

    pub closed spec fn wf(&self) -> bool {
        &&& self.encoder.wf()
        &&& 0 < self.bytes_pos
        &&& self.count_pos == self.bytes_pos + 5
        &&& self.count_pos + 5 <= self.encoder@.offset - self.encoder@.start
    }

    /// The parts of a list make up what was written.
    pub proof fn lemma_parts(&self)
        requires
            self.wf(),
        ensures
            self.enc().valid(),
            self.enc().written.len() == self.head().len() + 10 + self.body().len(),
            self.enc().offset - self.enc().start >= self.head().len() + 10,
    {
    }

    /// Starts a section at the end of what was written.
    pub fn create_section(encoder: Encoder, id: u8) -> (r: Result<SectionList, EncodeError>)
        requires
            encoder.wf(),
            encoder@.has_room(11),
        ensures
            if encoder@.offset == encoder@.end() {
                r matches Ok(list) && list.wf() && list.head() == encoder@.written.push(id)
                    && list.body() == Seq::<u8>::empty() && list.count() == 0 && list.enc()
                    == encoder@.after(seq![id] + invalid_5byte() + invalid_5byte())
            } else {
                r matches Err(EncodeError::NotAtEnd)
            },
    {
        broadcast use lemma_after_at_end;
        broadcast use lemma_after_twice;

        let mut encoder = encoder;
        let ghost before = encoder@;
        if encoder.offset != encoder.end_offset() {
            return Err(EncodeError::NotAtEnd);
        }
        let start: u32 = encoder.start();
        encoder.push_byte(id);
        let bytes_pos: u32 = encoder.encode_5byte_invalid() - start;
        let count_pos: u32 = encoder.encode_5byte_invalid() - start;
        let list = SectionList { encoder, bytes_pos, count_pos, items_count: 0 };
        proof {
            let header = seq![id] + invalid_5byte() + invalid_5byte();
            assert(list.enc() == before.after(header));
            assert(list.enc().written == before.written + header);
            assert(list.head() =~= before.written.push(id));
            assert(list.body() =~= Seq::<u8>::empty());
        }
        Ok(list)
    }

    /// Fills in the number of bytes and of items, and gives back the encoder, at its end.
    pub fn finish(self) -> (r: Encoder)
        requires
            self.wf(),
        ensures
            r.wf(),
            r@ == (EncoderView {
                offset: self.enc().end(),
                written: section_bytes(self.head(), self.count(), self.body()),
                ..self.enc()
            }),
    {
        let bytes_pos: u32 = self.bytes_pos;
        let count_pos: u32 = self.count_pos;
        let count: u32 = self.items_count;
        let mut encoder = self.encoder;
        let ghost before = encoder@;
        let bytes_len: u32 = encoder.end_offset() - encoder.start() - count_pos;
        proof {
            lemma_fixed_leb_len(bytes_len as int, 5);
            lemma_fixed_leb_len(count as int, 5);
        }
        let _ = encoder.seek(SeekFrom::Start(bytes_pos as u64));
        let _ = encoder.encode_leb_5byte(bytes_len);
        let _ = encoder.seek(SeekFrom::Start(count_pos as u64));
        let _ = encoder.encode_leb_5byte(count);
        let _ = encoder.seek(SeekFrom::End(0));
        proof {
            assert(bytes_len == self.body().len() + 5);
            assert(encoder@.written =~= section_bytes(self.head(), self.count(), self.body()));
        }
        encoder
    }

    /// Calls a function with a child encoder for the next item of the section.
    pub fn item_from_encoder<F, U>(&mut self, func: F) -> (r: Result<U, EncodeError>)
        where F: FnOnce(&mut Encoder) -> Result<U, EncodeError>
        requires
            old(self).wf(),
            old(self).count() < u32::MAX,
            forall|e: &mut Encoder|
                (*e).wf() && (*e)@ == fresh(old(self).enc().offset) ==> call_requires(func, (e,)),
            forall|e: &mut Encoder, u: Result<U, EncodeError>|
                #![trigger call_ensures(func, (e,), u)]
                call_ensures(func, (e,), u) ==> (*final(e)).wf() && (*final(e))@.start == old(
                    self,
                ).enc().offset,
        ensures
            final(self).wf(),
            final(self).count() == old(self).count() + 1,
            final(self).head() == old(self).head(),
            exists|e: &mut Encoder|
                #![trigger call_ensures(func, (e,), r)]
                {
                    &&& (*e)@ == fresh(old(self).enc().offset)
                    &&& call_ensures(func, (e,), r)
                    &&& r is Ok ==> final(self).enc() == joined(old(self).enc(), (*final(e))@)
                    &&& r is Ok && old(self).enc().offset == old(self).enc().end()
                        ==> final(self).body() == old(self).body() + (*final(e))@.written
                    &&& r is Err ==> final(self).enc() == given_up(old(self).enc(), (*final(e))@)
                },
            r is Err && old(self).enc().offset == old(self).enc().end() ==> final(self).enc()
                == old(self).enc() && final(self).body() == old(self).body(),
    {
        let ghost before = *self;
        self.items_count = self.items_count + 1;
        let starting_offset: u32 = self.encoder.offset;
        let result = self.encoder.with_child_encoder(starting_offset, func);
        proof {
            let e = choose|e: &mut Encoder|
                #![trigger call_ensures(func, (e,), result)]
                {
                    &&& (*e)@ == fresh(starting_offset as int)
                    &&& call_ensures(func, (e,), result)
                    &&& result is Ok ==> self.encoder@ == joined(before.encoder@, (*final(e))@)
                    &&& result is Err ==> self.encoder@ == given_up(
                        before.encoder@,
                        (*final(e))@,
                    )
                };
            assert(call_ensures(func, (e,), result));
            let child = (*final(e))@;
            assert(child.valid()) by {
                assert((*final(e)).wf());
            }
            assert(self.head() =~= before.head());
            if result is Ok && before.enc().offset == before.enc().end() {
                assert(self.body() =~= before.body() + child.written);
            }
            if result is Err && before.enc().offset == before.enc().end() {
                assert(self.enc().written =~= before.enc().written);
                assert(self.body() =~= before.body());
            }
        }
        result
    }

    /// Current position in the section: 0 is immediately after the id and the size of the section.
    pub fn pos_in_section(&self) -> (r: u32)
        requires
            self.wf(),
        ensures
            r == self.enc().offset - self.enc().start - self.head().len() - 5,
    {
        self.encoder.offset() - self.encoder.start() - self.count_pos
    }

    /// Writes bytes behind their number, as one item. Returns the position of the first one in the
    /// section.
    pub fn raw_len_prefixed(&mut self, item: &[u8]) -> (r: u32)
        requires
            old(self).wf(),
            old(self).count() < u32::MAX,
            old(self).enc().has_room(5 + item@.len() as int),
        ensures
            final(self).wf(),
            final(self).count() == old(self).count() + 1,
            final(self).head() == old(self).head(),
            final(self).enc() == old(self).enc().after(len_prefixed(item@)),
            old(self).enc().offset == old(self).enc().end() ==> final(self).body() == old(
                self,
            ).body() + len_prefixed(item@),
            r == old(self).enc().offset + 5 - old(self).enc().start - old(self).head().len() - 5,
    {
        broadcast use lemma_after_at_end;

        let ghost before = *self;
        self.items_count = self.items_count + 1;
        let offset: u32 = self.encoder.encode_len_prefixed_bytes(item);
        proof {
            lemma_fixed_leb_len(item@.len() as int, 5);
            lemma_after_end(before.enc(), len_prefixed(item@));
            assert(self.head() =~= before.head());
            if before.enc().offset == before.enc().end() {
                assert(self.body() =~= before.body() + len_prefixed(item@));
            }
        }
        offset - self.encoder.start() - self.count_pos
    }
}

/// A finished section, its id included.
#[derive(Debug)]
pub struct SectionAdapter {
    bytes: Vec<u8>,
}

impl View for SectionAdapter {
    type V = Seq<u8>;

    closed spec fn view(&self) -> Seq<u8> {
        self.bytes@
    }
}

impl SectionAdapter {
    pub open spec fn wf(&self) -> bool {
        self@.len() > 0
    }

    /// Makes a section of the items that a function writes.
    pub fn new<F>(id: u8, func: F) -> (r: Result<SectionAdapter, EncodeError>)
        where F: FnOnce(&mut SectionList) -> Result<(), EncodeError>
        requires
            forall|l: &mut SectionList|
                (*l).wf() && (*l).head() == seq![id] && (*l).body() == Seq::<u8>::empty()
                    && (*l).count() == 0 && (*l).enc().start == 0 && (*l).enc().offset
                    == (*l).enc().end() ==> call_requires(func, (l,)),
            forall|l: &mut SectionList, u: Result<(), EncodeError>|
                #![trigger call_ensures(func, (l,), u)]
                call_ensures(func, (l,), u) ==> (*final(l)).wf() && (*final(l)).head()
                    == (*l).head() && (*final(l)).enc().prefix == (*l).enc().prefix,
        ensures
            exists|l: &mut SectionList, u: Result<(), EncodeError>|
                #![trigger call_ensures(func, (l,), u)]
                {
                    &&& (*l).head() == seq![id]
                    &&& (*l).body() == Seq::<u8>::empty()
                    &&& (*l).count() == 0
                    &&& call_ensures(func, (l,), u)
                    &&& match u {
                        Ok(()) => r matches Ok(section) && section.wf() && section@
                            == section_bytes(seq![id], (*final(l)).count(), (*final(l)).body()),
                        Err(error) => r matches Err(e) && e == error,
                    }
                },
    {
        let encoder = Encoder::new(Vec::new(), 0);
        let mut list = match SectionList::create_section(encoder, id) {
            Ok(list) => list,
            Err(error) => {
                assert(false);
                return Err(error);
            },
        };
        proof {
            assert(list.head() =~= seq![id]);
            assert(list.enc().prefix =~= Seq::<u8>::empty());
            lemma_after_at_end(encoder@, seq![id] + invalid_5byte() + invalid_5byte());
        }
        match func(&mut list) {
            Ok(()) => {
                proof {
                    list.lemma_parts();
                }
                let bytes = list.finish().into_inner();
                assert(bytes@ =~= section_bytes(seq![id], list.count(), list.body()));
                Ok(SectionAdapter { bytes })
            },
            Err(error) => Err(error),
        }
    }

    pub fn id(&self) -> (r: u8)
        requires
            self.wf(),
        ensures
            r == self@[0],
    {
        self.bytes[0]
    }

    /// Appends the whole section.
    pub fn append_to(&self, dst: &mut Vec<u8>)
        ensures
            final(dst)@ == old(dst)@ + self@,
    {
        let ghost before = dst@;
        dst.extend_from_slice(self.bytes.as_slice());
        assert(dst@ =~= before + self@);
    }

    /// Appends the section without its id.
    pub fn encode(&self, dst: &mut Vec<u8>)
        requires
            self.wf(),
        ensures
            final(dst)@ == old(dst)@ + self@.skip(1),
    {
        let ghost before = dst@;
        let rest = vstd::slice::slice_subrange(self.bytes.as_slice(), 1, self.bytes.len());
        dst.extend_from_slice(rest);
        assert(dst@ =~= before + self@.skip(1));
    }
}

} // verus!
