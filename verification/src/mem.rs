//! The machine's memory: a fixed 4096-byte heap, a 16-entry return-address
//! stack, and the decoder of a fetched 16-bit instruction word.

use vstd::prelude::*;
use vstd::slice::slice_subrange;
use crate::arch::Sprite;
use crate::constants::{HEAP_SIZE, STACK_SIZE};

verus! {

/// The return-address stack: at most [`STACK_SIZE`] 16-bit entries, last in
/// first out. The capacity bound is a contract on [`Stack::push`], not a
/// guard in this layer.
pub struct Stack {
    entries: Vec<u16>,
}

impl View for Stack {
    type V = Seq<u16>;

    closed spec fn view(&self) -> Seq<u16> {
        self.entries@
    }
}

impl Stack {
    /// The stack pointer never exceeds the fixed capacity.
    pub open spec fn wf(&self) -> bool {
        self@.len() <= STACK_SIZE
    }

    pub fn new() -> (s: Stack)
        ensures
            s@ == Seq::<u16>::empty(),
            s.wf(),
    {
        Stack { entries: Vec::new() }
    }

    /// Empty the stack, as a machine reset does.
    pub fn reset(&mut self)
        ensures
            final(self)@ == Seq::<u16>::empty(),
            final(self).wf(),
    {
        self.entries.clear();
    }

    /// The current stack pointer: the number of live entries.
    pub fn sp(&self) -> (r: usize)
        ensures
            r == self@.len(),
    {
        self.entries.len()
    }

    /// Append at the stack pointer. The caller guarantees room.
    pub fn push(&mut self, val: u16)
        requires
            old(self)@.len() < STACK_SIZE,
        ensures
            final(self)@ == old(self)@.push(val),
            final(self).wf(),
    {
        self.entries.push(val);
    }

    /// Remove and return the most recently pushed entry. The caller
    /// guarantees the stack is not empty.
    pub fn pop(&mut self) -> (r: u16)
        requires
            old(self)@.len() > 0,
        ensures
            r == old(self)@.last(),
            final(self)@ == old(self)@.drop_last(),
            old(self).wf() ==> final(self).wf(),
    {
        let r = self.entries.pop().unwrap();
        assert(self@ =~= old(self)@.drop_last());
        r
    }
}

/// The flat byte-addressable memory: [`HEAP_SIZE`] bytes holding font, ROM
/// and runtime data. Bounds are contracts on the callers, not guards here.
pub struct Heap {
    bytes: Vec<u8>,
}

impl View for Heap {
    type V = Seq<u8>;

    closed spec fn view(&self) -> Seq<u8> {
        self.bytes@
    }
}

impl Heap {
    /// The heap always holds exactly [`HEAP_SIZE`] bytes.
    pub open spec fn wf(&self) -> bool {
        self@.len() == HEAP_SIZE
    }

    /// A fresh, zero-filled heap.
    pub fn new() -> (h: Heap)
        ensures
            h.wf(),
            forall|k: int| 0 <= k < HEAP_SIZE ==> h@[k] == 0u8,
    {
        let mut bytes: Vec<u8> = Vec::new();
        let mut i: usize = 0;
        while i < HEAP_SIZE
            invariant
                i <= HEAP_SIZE,
                bytes@.len() == i,
                forall|k: int| 0 <= k < i ==> bytes@[k] == 0u8,
            decreases HEAP_SIZE - i,
        {
            bytes.push(0u8);
            i += 1;
        }
        Heap { bytes }
    }

    /// Zero every byte, as a machine reset does.
    pub fn reset(&mut self)
        requires
            old(self).wf(),
        ensures
            final(self).wf(),
            forall|k: int| 0 <= k < HEAP_SIZE ==> final(self)@[k] == 0u8,
    {
        let mut i: usize = 0;
        while i < HEAP_SIZE
            invariant
                i <= HEAP_SIZE,
                self.wf(),
                forall|k: int| 0 <= k < i ==> self@[k] == 0u8,
            decreases HEAP_SIZE - i,
        {
            self.bytes[i] = 0u8;
            i += 1;
        }
    }

    /// Copy `src` into the heap starting at `addr`. The caller guarantees
    /// the region lies within the heap.
    pub fn write_bytes(&mut self, addr: u16, src: &[u8])
        requires
            old(self).wf(),
            addr + src@.len() <= HEAP_SIZE,
        ensures
            final(self).wf(),
            forall|k: int|
                addr <= k < addr + src@.len() ==> final(self)@[k] == src@[k - addr],
            forall|k: int|
                0 <= k < HEAP_SIZE && !(addr <= k < addr + src@.len())
                    ==> final(self)@[k] == old(self)@[k],
    {
        let offset = addr as usize;
        let len = src.len();
        let mut i: usize = 0;
        while i < len
            invariant
                i <= len,
                self.wf(),
                offset + len <= HEAP_SIZE,
                len == src@.len(),
                forall|k: int| offset <= k < offset + i ==> self@[k] == src@[k - offset],
                forall|k: int|
                    0 <= k < HEAP_SIZE && !(offset <= k < offset + i)
                        ==> self@[k] == old(self)@[k],
            decreases len - i,
        {
            self.bytes[offset + i] = src[i];
            i += 1;
        }
    }

    /// Store one byte at `addr`. The caller guarantees it is in range.
    pub fn write_byte(&mut self, addr: u16, src: u8)
        requires
            old(self).wf(),
            addr < HEAP_SIZE,
        ensures
            final(self).wf(),
            final(self)@ == old(self)@.update(addr as int, src),
    {
        self.bytes[addr as usize] = src;
    }

    /// Read the byte at `addr`. The caller guarantees it is in range.
    pub fn read_byte(&self, addr: u16) -> (r: u8)
        requires
            self.wf(),
            addr < HEAP_SIZE,
        ensures
            r == self@[addr as int],
    {
        self.bytes[addr as usize]
    }

    /// Read two consecutive bytes as one big-endian instruction word.
    pub fn read_instr(&self, addr: u16) -> (r: Instr)
        requires
            self.wf(),
            addr + 1 < HEAP_SIZE,
        ensures
            r.word() == spec_fetch(self@, addr as int),
    {
        let hi = (self.bytes[addr as usize] as u16) << 8;
        let lo = self.bytes[addr as usize + 1] as u16;
        Instr(hi | lo)
    }

    /// A borrowed view of `size` bytes starting at `addr`. The caller
    /// guarantees the region lies within the heap.
    pub fn read_bytes(&self, addr: u16, size: u8) -> (r: &[u8])
        requires
            self.wf(),
            addr + size <= HEAP_SIZE,
        ensures
            r@ == self@.subrange(addr as int, addr + size),
    {
        let address = addr as usize;
        slice_subrange(self.bytes.as_slice(), address, address + size as usize)
    }

    /// A borrowed sprite of `size` rows starting at `addr`.
    pub fn read_sprite(&self, addr: u16, size: u8) -> (r: Sprite<'_>)
        requires
            self.wf(),
            addr + size <= HEAP_SIZE,
        ensures
            r@ == self@.subrange(addr as int, addr + size),
    {
        Sprite(self.read_bytes(addr, size))
    }
}

/// The big-endian word at `addr`, as instruction fetch reads it.
pub open spec fn spec_fetch(heap: Seq<u8>, addr: int) -> u16 {
    ((heap[addr] as u16) << 8) | (heap[addr + 1] as u16)
}

/// A fetched 16-bit instruction word, decomposed on demand into its fields
/// by fixed masks and shifts. Decoding never fails; validity is a dispatch
/// concern.
pub struct Instr(u16);

impl Instr {
    /// The whole word, as a mathematical value.
    pub closed spec fn word(&self) -> u16 {
        self.0
    }

    /// Wrap a raw word, as fetch does.
    pub fn new(word: u16) -> (r: Instr)
        ensures
            r.word() == word,
    {
        Instr(word)
    }

    /// The low 12 bits: the address field.
    pub fn addr(&self) -> (r: u16)
        ensures
            r == self.word() & 0x0FFF,
            r < 4096,
    {
        let w = self.0;
        assert((w & 0x0FFF) < 4096) by (bit_vector);
        w & 0x0FFF
    }

    /// The low 4 bits: the sprite-height field.
    pub fn nibble(&self) -> (r: u8)
        ensures
            r == (self.word() & 0x000F) as u8,
            r < 16,
    {
        let w = self.0;
        assert(((w & 0x000F) as u8) < 16) by (bit_vector);
        (w & 0x000F) as u8
    }

    /// The low 8 bits: the immediate byte.
    pub fn byte(&self) -> (r: u8)
        ensures
            r == self.word() as u8,
    {
        self.0 as u8
    }

    /// Bits 8 to 11: the first register selector.
    pub fn x(&self) -> (r: u8)
        ensures
            r == ((self.word() >> 8) & 0x0F) as u8,
            r < 16,
    {
        let w = self.0;
        assert((((w >> 8) & 0x0F) as u8) < 16) by (bit_vector);
        ((w >> 8) & 0x0F) as u8
    }

    /// Bits 4 to 7: the second register selector.
    pub fn y(&self) -> (r: u8)
        ensures
            r == ((self.word() >> 4) & 0x0F) as u8,
            r < 16,
    {
        let w = self.0;
        assert((((w >> 4) & 0x0F) as u8) < 16) by (bit_vector);
        ((w >> 4) & 0x0F) as u8
    }

    /// The whole word.
    pub fn instr(&self) -> (r: u16)
        ensures
            r == self.word(),
    {
        self.0
    }
}

} // verus!
