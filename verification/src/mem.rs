//! The memory interface that a processor sees: byte loads and stores, and
//! the little-endian word accesses built from them.
use vstd::prelude::*;

verus! {

/// A byte-addressed memory with a 16-bit address space.
///
/// A load may change the memory too (a soft switch throws on a read), so
/// both accesses are described by a relation between the memory before and
/// the memory after.
pub trait Mem: Sized {
    /// The invariant that accesses need and keep. A memory that states none
    /// has none.
    open spec fn wf(&self) -> bool {
        true
    }

    /// Whether a load from `addr` that returns `val` may leave `after`. Of a
    /// memory that states nothing, anything is to be expected.
    open spec fn load_spec(&self, addr: u16, after: Self, val: u8) -> bool {
        true
    }

    /// Whether a store of `val` to `addr` may leave `after`.
    open spec fn store_spec(&self, addr: u16, val: u8, after: Self) -> bool {
        true
    }

    fn loadb(&mut self, addr: u16) -> (val: u8)
        requires
            old(self).wf(),
        ensures
            final(self).wf(),
            old(self).load_spec(addr, *final(self), val),
    ;

    fn storeb(&mut self, addr: u16, val: u8)
        requires
            old(self).wf(),
        ensures
            final(self).wf(),
            old(self).store_spec(addr, val, *final(self)),
    ;
}

/// The address after `addr`; the address space wraps around.
pub open spec fn next_addr(addr: u16) -> u16 {
    if addr == 0xffff {
        0
    } else {
        (addr + 1) as u16
    }
}

/// The zero-page address after `addr`; the zero page wraps around.
pub open spec fn next_zp(addr: u8) -> u16 {
    if addr == 0xff {
        0
    } else {
        (addr + 1) as u16
    }
}

/// The word with low byte `lo` and high byte `hi`.
pub open spec fn word(lo: u8, hi: u8) -> u16 {
    (lo as int + 256 * hi as int) as u16
}

/// A load of the byte at `first` and then of the byte at `second`, the low
/// and the high byte of `val`.
pub open spec fn load_pair<M: Mem>(before: M, first: u16, second: u16, after: M, val: u16) -> bool {
    exists|mid: M, lo: u8, hi: u8|
        {
            &&& #[trigger] before.load_spec(first, mid, lo)
            &&& mid.wf()
            &&& #[trigger] mid.load_spec(second, after, hi)
            &&& val == word(lo, hi)
        }
}

/// A store of the low byte of `val` to `addr` and then of its high byte to
/// the address after it.
pub open spec fn store_pair<M: Mem>(before: M, addr: u16, val: u16, after: M) -> bool {
    exists|mid: M|
        {
            &&& #[trigger] before.store_spec(addr, (val % 256) as u8, mid)
            &&& mid.wf()
            &&& #[trigger] mid.store_spec(next_addr(addr), (val / 256) as u8, after)
        }
}

/// Word accesses, for every memory.
pub trait MemUtil: Mem {
    /// Loads the little-endian word at `addr`, low byte first.
    fn loadw(&mut self, addr: u16) -> (val: u16)
        requires
            old(self).wf(),
        ensures
            final(self).wf(),
            load_pair(*old(self), addr, next_addr(addr), *final(self), val),
    ;

    /// Stores `val` at `addr` as a little-endian word, low byte first.
    fn storew(&mut self, addr: u16, val: u16)
        requires
            old(self).wf(),
        ensures
            final(self).wf(),
            store_pair(*old(self), addr, val, *final(self)),
    ;

    /// Like `loadw`, but the high byte of a word at `0xff` comes from `0x00`.
    fn loadw_zp(&mut self, addr: u8) -> (val: u16)
        requires
            old(self).wf(),
        ensures
            final(self).wf(),
            load_pair(*old(self), addr as u16, next_zp(addr), *final(self), val),
    ;
}

proof fn lemma_word(lo: u8, hi: u8)
    by (bit_vector)
    ensures
        lo as u16 | ((hi as u16) << 8) == (lo as u16 + 256 * (hi as u16)) as u16,
{
}

proof fn lemma_halves(val: u16)
    by (bit_vector)
    ensures
        (val & 0xff) as u8 == (val % 256) as u8,
        ((val >> 8) & 0xff) as u8 == (val / 256) as u8,
{
}

impl<M: Mem> MemUtil for M {
    fn loadw(&mut self, addr: u16) -> (val: u16) {
        let lo = self.loadb(addr);
        let ghost mid = *self;
        let hi = self.loadb(addr.wrapping_add(1));
        proof {
            lemma_word(lo, hi);
            assert(old(self).load_spec(addr, mid, lo));
            assert(mid.load_spec(next_addr(addr), *self, hi));
        }
        lo as u16 | ((hi as u16) << 8)
    }

    fn storew(&mut self, addr: u16, val: u16) {
        proof {
            lemma_halves(val);
        }
        self.storeb(addr, (val & 0xff) as u8);
        let ghost mid = *self;
        self.storeb(addr.wrapping_add(1), ((val >> 8) & 0xff) as u8);
        proof {
            assert(old(self).store_spec(addr, (val % 256) as u8, mid));
            assert(mid.store_spec(next_addr(addr), (val / 256) as u8, *self));
        }
    }

    fn loadw_zp(&mut self, addr: u8) -> (val: u16) {
        let lo = self.loadb(addr as u16);
        let ghost mid = *self;
        let hi = self.loadb(addr.wrapping_add(1) as u16);
        proof {
            lemma_word(lo, hi);
            assert(old(self).load_spec(addr as u16, mid, lo));
            assert(mid.load_spec(next_zp(addr), *self, hi));
        }
        lo as u16 | ((hi as u16) << 8)
    }
}

/// Two kilobytes of memory, mirrored through the whole address space.
pub struct Ram {
    pub mem: [u8; 0x800],
}

impl Ram {
    /// The cell that `addr` falls on.
    pub open spec fn cell(addr: u16) -> int {
        addr as int % 0x800
    }
}

proof fn lemma_mirror(addr: u16)
    by (bit_vector)
    ensures
        addr & 0x7ff == addr % 0x800,
        addr & 0x7ff < 0x800,
{
}

impl Mem for Ram {
    open spec fn load_spec(&self, addr: u16, after: Self, val: u8) -> bool {
        after == *self && val == self.mem[Ram::cell(addr)]
    }

    open spec fn store_spec(&self, addr: u16, val: u8, after: Self) -> bool {
        after.mem@ == self.mem@.update(Ram::cell(addr), val)
    }

    fn loadb(&mut self, addr: u16) -> (val: u8) {
        proof {
            lemma_mirror(addr);
        }
        self.mem[(addr & 0x7ff) as usize]
    }

    fn storeb(&mut self, addr: u16, val: u8) {
        proof {
            lemma_mirror(addr);
        }
        self.mem[(addr & 0x7ff) as usize] = val;
    }
}

} // verus!
