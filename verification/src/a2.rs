//! The Apple II+ bus: 48 KiB of RAM, the language card in the upper 12 KiB,
//! the soft switches at `$C000..$C0FF` and the expansion slots.
//!
//! The bus keeps one store of `0x13000` bytes:
//!
//! | store               | holds                                         |
//! |---------------------|-----------------------------------------------|
//! | `0x0000..0xC000`    | main RAM                                      |
//! | `0xC000..0xD000`    | language-card bank 2 for `$D000..$DFFF`       |
//! | `0xD000..0x10000`   | ROM                                           |
//! | `0x10000..0x13000`  | language-card RAM for `$D000..$FFFF` (bank 1) |
use vstd::prelude::*;
use crate::mem::Mem;
use crate::mem::next_addr;

verus! {

/// Display switch: text, not graphics.
pub const GR_TXMODE: u8 = 1;

/// Display switch: four lines of text below the graphics.
pub const GR_MIXMODE: u8 = 2;

/// Display switch: the second page is shown, not the first.
pub const GR_PAGE1: u8 = 4;

/// Display switch: high resolution, not low.
pub const GR_HIRES: u8 = 8;

/// First address of the I/O page.
pub const HW_LO: u16 = 0xC000;

/// First address of the ROM and language-card window.
pub const ROM_LO: u16 = 0xD000;

/// Bytes of ROM.
pub const ROM_LEN: u16 = 0x3000;

/// Bytes in the bus's store.
pub const MEM_SIZE: usize = 0x13000;

/// Why an image was refused.
#[derive(Clone, Copy, Debug, PartialEq, Eq, Structural)]
pub enum ImageError {
    /// A ROM image that is not 12,288 bytes long.
    BadRomSize,
    /// A disk image that is not 143,360 bytes long.
    BadDiskSize,
}

/// An expansion card.
///
/// The bus hands a card every access to its sixteen switches and to its page
/// of ROM. What an access does is the card's own business: it is described
/// by a relation between the card before, the card after and the byte that
/// the card puts on the data bus.
pub trait Peripheral: Sized {
    /// The invariant that accesses need and keep. A card that states none
    /// has none.
    open spec fn wf(&self) -> bool {
        true
    }

    /// Whether an access to switch `switch`, one of the sixteen, with `val` on
    /// the data bus may leave `after` and return `ret`. Of a card that states
    /// nothing, anything is to be expected.
    open spec fn io_spec(&self, switch: u16, val: u8, after: Self, ret: u8) -> bool {
        true
    }

    /// Whether an access to `addr` in the card's ROM page with `val` on the
    /// data bus may leave `after` and return `ret`.
    open spec fn high_io_spec(&self, addr: u16, val: u8, after: Self, ret: u8) -> bool {
        true
    }

    /// An access to one of the card's switches, `$C0s0..$C0sF` with `s` the
    /// slot number plus eight. The card is told the whole address, but only
    /// its low four bits count.
    fn doIO(&mut self, addr: u16, val: u8) -> (ret: u8)
        requires
            old(self).wf(),
        ensures
            final(self).wf(),
            old(self).io_spec((addr % 16) as u16, val, *final(self), ret),
    ;

    /// An access to the card's ROM page, `$Cs00..$CsFF`.
    fn doHighIO(&mut self, addr: u16, val: u8) -> (ret: u8)
        requires
            old(self).wf(),
        ensures
            final(self).wf(),
            old(self).high_io_spec(addr, val, *final(self), ret),
    ;
}

/// The language card: three switches, and the offsets that follow from them.
///
/// An offset is what is added to an address in the window to find its byte in
/// the bus's store. `bank1` offsets serve `$E000..$FFFF`, `bank2` offsets
/// `$D000..$DFFF`.
#[derive(Clone, Copy, Debug, PartialEq, Eq, Structural)]
pub struct LangCardState {
    /// Reads of the window come from the card's RAM, not from ROM.
    pub aux_ram_selected: bool,
    /// Which 4 KiB bank of the card's RAM serves `$D000..$DFFF`: 1 or 2.
    pub aux_ram_bank: u8,
    /// Writes to the window are dropped.
    pub write_inhibit: bool,
    pub bank1_rd_offset: i32,
    pub bank2_rd_offset: i32,
    pub bank1_wr_offset: i32,
    pub bank2_wr_offset: i32,
}

impl LangCardState {
    /// The state with the given switches.
    pub open spec fn spec_new(
        aux_ram_selected: bool,
        aux_ram_bank: u8,
        write_inhibit: bool,
    ) -> LangCardState {
        LangCardState {
            aux_ram_selected,
            aux_ram_bank,
            write_inhibit,
            bank1_rd_offset: if aux_ram_selected {
                0x3000i32
            } else {
                0
            },
            bank2_rd_offset: if aux_ram_selected {
                if aux_ram_bank == 2 {
                    -0x1000i32
                } else {
                    0x3000i32
                }
            } else {
                0
            },
            bank1_wr_offset: if !write_inhibit {
                0x3000i32
            } else {
                0
            },
            bank2_wr_offset: if !write_inhibit {
                if aux_ram_bank == 2 {
                    -0x1000i32
                } else {
                    0x3000i32
                }
            } else {
                0
            },
        }
    }

    /// The offsets are those of the switches, and the bank is 1 or 2.
    pub open spec fn wf(self) -> bool {
        &&& self == Self::spec_new(self.aux_ram_selected, self.aux_ram_bank, self.write_inhibit)
        &&& (self.aux_ram_bank == 1 || self.aux_ram_bank == 2)
    }

    /// Where in the store the byte lies that a read of `addr` shows, for
    /// `addr` in the window: in ROM, or in the card's RAM.
    pub open spec fn read_index(self, addr: u16) -> int {
        if !self.aux_ram_selected {
            addr as int
        } else if addr >= 0xE000 || self.aux_ram_bank != 2 {
            addr + 0x3000
        } else {
            addr - 0x1000
        }
    }

    /// Where in the store a write to `addr` lands, for `addr` in the window
    /// and writes enabled: always in the card's RAM.
    pub open spec fn write_index(self, addr: u16) -> int {
        if addr >= 0xE000 || self.aux_ram_bank != 2 {
            addr + 0x3000
        } else {
            addr - 0x1000
        }
    }

    /// The offsets are what takes an address of the window to its byte in the
    /// store: the `bank2` offsets below `$E000`, the `bank1` offsets from
    /// there on. The `bank2` read offset is `-0x1000` where the card's RAM is
    /// selected with bank 2, and the `bank1` read offset everywhere else.
    pub proof fn lemma_offsets(self, addr: u16)
        requires
            self.wf(),
            addr >= 0xD000,
        ensures
            self.read_index(addr) == addr + if addr >= 0xE000 {
                self.bank1_rd_offset
            } else {
                self.bank2_rd_offset
            },
            !self.write_inhibit ==> self.write_index(addr) == addr + if addr >= 0xE000 {
                self.bank1_wr_offset
            } else {
                self.bank2_wr_offset
            },
            self.bank2_rd_offset == if self.aux_ram_selected && self.aux_ram_bank == 2 {
                -0x1000i32
            } else {
                self.bank1_rd_offset
            },
            0xC000 <= self.read_index(addr) < 0x13000,
            0xC000 <= self.write_index(addr) < 0x13000,
            self.write_index(addr) < 0xD000 || 0x10000 <= self.write_index(addr),
    {
    }

    /// The state after an access to switch `$C080 + nibble`.
    pub open spec fn switched(self, nibble: int) -> LangCardState {
        if nibble == 0 || nibble == 4 {
            Self::spec_new(true, 2, true)
        } else if nibble == 1 || nibble == 5 {
            Self::spec_new(false, 2, false)
        } else if nibble == 2 || nibble == 6 || nibble == 10 || nibble == 14 {
            Self::spec_new(false, self.aux_ram_bank, true)
        } else if nibble == 3 || nibble == 7 {
            Self::spec_new(true, 2, false)
        } else if nibble == 8 || nibble == 12 {
            Self::spec_new(true, 1, false)
        } else if nibble == 9 || nibble == 13 {
            Self::spec_new(false, 1, false)
        } else {
            Self::spec_new(true, 1, false)
        }
    }

    pub fn new(aux_ram_selected: bool, aux_ram_bank: u8, write_inhibit: bool) -> (state:
        LangCardState)
        ensures
            state == Self::spec_new(aux_ram_selected, aux_ram_bank, write_inhibit),
            aux_ram_bank == 1 || aux_ram_bank == 2 ==> state.wf(),
    {
        LangCardState {
            aux_ram_selected,
            aux_ram_bank,
            write_inhibit,
            // 0x3000 maps 0xd000-0xffff to 0x10000-0x12fff,
            // -0x1000 maps 0xd000-0xdfff to 0xc000-0xcfff
            bank1_rd_offset: if aux_ram_selected {
                0x3000
            } else {
                0x0
            },
            bank2_rd_offset: if aux_ram_selected {
                if aux_ram_bank == 2 {
                    -0x1000
                } else {
                    0x3000
                }
            } else {
                0x0
            },
            bank1_wr_offset: if !write_inhibit {
                0x3000
            } else {
                0x0
            },
            bank2_wr_offset: if !write_inhibit {
                if aux_ram_bank == 2 {
                    -0x1000
                } else {
                    0x3000
                }
            } else {
                0x0
            },
        }
    }
}

/// What the bus holds, as plain values.
#[verifier::ext_equal]
pub struct BusState<P> {
    /// The store, `MEM_SIZE` bytes.
    pub mem: Seq<u8>,
    /// The eight slots. Slot 0 is always empty.
    pub slots: Seq<Option<P>>,
    /// The last key, with the strobe in bit 7.
    pub kbdlatch: u8,
    /// The display switches, one bit each.
    pub grswitch: u8,
    pub soundstate: bool,
    pub aux: LangCardState,
    /// Counts the loads; the floating bus shows the byte of the store that it
    /// points at.
    pub nreads: u16,
}

/// The keyboard latch after a key press: strobe set, lower case folded to
/// upper case.
pub open spec fn key_latch(keycode: u8) -> u8 {
    let key = keycode | 0x80;
    if 0xe1 <= key <= 0xfa {
        (key - 0x20) as u8
    } else {
        key
    }
}

/// The display switches after an access to `$C050 + offset`, for an offset
/// below 8: the switch `offset / 2` is set by an odd offset and cleared by an
/// even one.
pub open spec fn gr_switched(grswitch: u8, offset: int) -> u8 {
    let bit = (offset / 2) as u8;
    if offset % 2 == 1 {
        grswitch | (1u8 << bit)
    } else {
        grswitch & !(1u8 << bit)
    }
}

/// What a read of `$C060 + offset` shows when the bus floats at `noise`:
/// buttons are up, paddle timers have not run out.
pub open spec fn joystick(noise: u8, offset: int) -> u8 {
    if 1 <= offset <= 3 {
        noise & 0x7f
    } else if 4 <= offset <= 5 {
        noise | 0x80
    } else {
        noise
    }
}

impl<P: Peripheral> BusState<P> {
    pub open spec fn wf(self) -> bool {
        &&& self.mem.len() == MEM_SIZE
        &&& self.slots.len() == 8
        &&& self.slots[0] is None
        &&& forall|i: int| 0 <= i < 8 ==> (#[trigger] self.slots[i] matches Some(p) ==> p.wf())
        &&& self.aux.wf()
    }

    /// The byte that the floating bus shows.
    pub open spec fn noise(self) -> u8 {
        self.mem[self.nreads as int]
    }

    /// The ROM, as the window `$D000..$FFFF` shows it.
    pub open spec fn rom(self) -> Seq<u8> {
        self.mem.subrange(0xD000, 0x10000)
    }

    /// The language card's RAM as the window `$D000..$FFFF` shows it with
    /// bank 1 selected.
    pub open spec fn aux_ram(self) -> Seq<u8> {
        self.mem.subrange(0x10000, 0x13000)
    }

    /// The language card's bank 2, as `$D000..$DFFF` shows it.
    pub open spec fn aux_bank2(self) -> Seq<u8> {
        self.mem.subrange(0xC000, 0xD000)
    }

    pub open spec fn with_mem(self, mem: Seq<u8>) -> Self {
        BusState { mem, ..self }
    }

    pub open spec fn with_slot(self, slot: int, card: Option<P>) -> Self {
        BusState { slots: self.slots.update(slot, card), ..self }
    }

    pub open spec fn with_kbdlatch(self, kbdlatch: u8) -> Self {
        BusState { kbdlatch, ..self }
    }

    pub open spec fn with_grswitch(self, grswitch: u8) -> Self {
        BusState { grswitch, ..self }
    }

    pub open spec fn with_soundstate(self, soundstate: bool) -> Self {
        BusState { soundstate, ..self }
    }

    pub open spec fn with_aux(self, aux: LangCardState) -> Self {
        BusState { aux, ..self }
    }

    /// The state with one more load counted.
    pub open spec fn counted(self) -> Self {
        BusState { nreads: next_addr(self.nreads), ..self }
    }

    /// An access to the switches of the card in `slot`; an empty slot floats.
    pub open spec fn slot_io(self, slot: int, addr: u16, val: u8, post: Self, ret: u8) -> bool {
        match self.slots[slot] {
            None => post == self && ret == self.noise(),
            Some(card) => exists|after: P|
                {
                    &&& #[trigger] card.io_spec((addr % 16) as u16, val, after, ret)
                    &&& after.wf()
                    &&& post == self.with_slot(slot, Some(after))
                },
        }
    }

    /// An access to the ROM page of the card in `slot`; an empty slot floats.
    pub open spec fn slot_rom(self, slot: int, addr: u16, val: u8, post: Self, ret: u8) -> bool {
        match self.slots[slot] {
            None => post == self && ret == self.noise(),
            Some(card) => exists|after: P|
                {
                    &&& #[trigger] card.high_io_spec(addr, val, after, ret)
                    &&& after.wf()
                    &&& post == self.with_slot(slot, Some(after))
                },
        }
    }

    /// An access to the soft-switch page, `$C000..$C0FF`, with `val` on the
    /// data bus: it leaves `post` and shows `ret`. The switches come in
    /// groups of sixteen.
    pub open spec fn soft_switch(self, addr: u16, val: u8, post: Self, ret: u8) -> bool {
        let group = (addr as int / 16) % 16;
        let offset = addr as int % 16;
        if group == 0 {
            // keyboard
            post == self && ret == self.kbdlatch
        } else if group == 1 {
            // keyboard strobe
            post == self.with_kbdlatch(self.kbdlatch & 0x7f) && ret == self.noise()
        } else if group == 3 {
            // speaker
            post == self.with_soundstate(!self.soundstate) && ret == self.noise()
        } else if group == 5 {
            // display switches, then annunciators
            if offset < 8 {
                post == self.with_grswitch(gr_switched(self.grswitch, offset)) && ret
                    == self.noise()
            } else {
                post == self && ret == self.noise()
            }
        } else if group == 6 {
            // buttons and paddles
            post == self && ret == joystick(self.noise(), offset)
        } else if group == 7 && addr == 0xc070 {
            // paddle timer reset
            post == self && ret == self.noise() | 0x80
        } else if group == 8 {
            // language card
            post == self.with_aux(self.aux.switched(offset)) && ret == self.noise()
        } else if group >= 9 {
            self.slot_io(group - 8, addr, val, post, ret)
        } else {
            post == self && ret == self.noise()
        }
    }

    /// A load from `addr` leaves `post` and returns `ret`.
    pub open spec fn load(self, addr: u16, post: Self, ret: u8) -> bool {
        let s = self.counted();
        if addr < 0xC000 {
            post == s && ret == s.mem[addr as int]
        } else if addr >= 0xD000 {
            post == s && ret == s.mem[s.aux.read_index(addr)]
        } else if addr < 0xC100 {
            s.soft_switch(addr, 0, post, ret)
        } else {
            s.slot_rom((addr as int / 256) % 8, addr, 0, post, ret)
        }
    }

    /// A store of `val` to `addr` leaves `post`. What a switch or a card
    /// shows on the data bus in answer is lost.
    pub open spec fn store(self, addr: u16, val: u8, post: Self) -> bool {
        if addr < 0xC000 {
            post == self.with_mem(self.mem.update(addr as int, val))
        } else if addr >= 0xD000 {
            if self.aux.write_inhibit {
                post == self
            } else {
                post == self.with_mem(self.mem.update(self.aux.write_index(addr), val))
            }
        } else if addr < 0xC100 {
            exists|ret: u8| #[trigger] self.soft_switch(addr, val, post, ret)
        } else {
            exists|ret: u8| #[trigger] self.slot_rom((addr as int / 256) % 8, addr, val, post, ret)
        }
    }

    /// The state with `rom` in place of the ROM.
    pub open spec fn with_rom(self, rom: Seq<u8>) -> Self {
        self.with_mem(
            Seq::new(
                self.mem.len(),
                |i: int|
                    if 0xD000 <= i < 0x10000 {
                        rom[i - 0xD000]
                    } else {
                        self.mem[i]
                    },
            ),
        )
    }
}

/// The machine at power-on: a zeroed store, empty slots, no key, ROM in the
/// window and writes to it dropped.
pub open spec fn power_on<P: Peripheral>() -> BusState<P> {
    BusState {
        mem: Seq::new(MEM_SIZE as nat, |i: int| 0u8),
        slots: Seq::new(8, |i: int| None),
        kbdlatch: 0,
        grswitch: 0,
        soundstate: false,
        aux: LangCardState::spec_new(false, 1, true),
        nreads: 0,
    }
}

/// The bus of an Apple II+ with cards of type `P` in its slots.
pub struct AppleII<P: Peripheral> {
    pub(crate) mem: Vec<u8>,
    pub(crate) slots: [Option<P>; 8],
    pub(crate) kbdlatch: u8,
    pub(crate) grswitch: u8,
    pub(crate) soundstate: bool,
    pub(crate) aux: LangCardState,
    pub(crate) nreads: u16,  // counts the loads, for noise()
}

impl<P: Peripheral> View for AppleII<P> {
    type V = BusState<P>;

    closed spec fn view(&self) -> BusState<P> {
        BusState {
            mem: self.mem@,
            slots: self.slots@,
            kbdlatch: self.kbdlatch,
            grswitch: self.grswitch,
            soundstate: self.soundstate,
            aux: self.aux,
            nreads: self.nreads,
        }
    }
}

proof fn lemma_page(addr: u16)
    by (bit_vector)
    ensures
        (addr >> 4) & 0x0f == (addr / 16) % 16,
        addr & 0x0f == addr % 16,
        addr & 0x0f < 16,
        (addr >> 8) & 7 == (addr / 256) % 8,
        (addr >> 8) & 7 < 8,
        addr & 1 == addr % 2,
        (addr & 0x0f) < 8 ==> ((addr >> 1) & 0x07) == (addr % 16) / 2,
        ((addr >> 1) & 0x07) < 8,
{
}

impl<P: Peripheral> Mem for AppleII<P> {
    open spec fn wf(&self) -> bool {
        self@.wf()
    }

    open spec fn load_spec(&self, addr: u16, after: Self, val: u8) -> bool {
        self@.load(addr, after@, val)
    }

    open spec fn store_spec(&self, addr: u16, val: u8, after: Self) -> bool {
        self@.store(addr, val, after@)
    }

    fn loadb(&mut self, addr: u16) -> (val: u8) {
        self.nreads = self.nreads.wrapping_add(1);
        assert(self@ == old(self)@.counted());
        if addr < HW_LO {
            // main memory (0x0000-0xbfff)
            self.mem[addr as usize]
        } else if addr >= ROM_LO {
            // ROM and language card (0xd000-0xffff)
            if addr >= 0xe000 {
                self.mem[(addr as i32 + self.aux.bank1_rd_offset) as usize]
            } else {
                self.mem[(addr as i32 + self.aux.bank2_rd_offset) as usize]
            }
        } else if addr < HW_LO + 0x100 {
            // a soft switch (0xc000-0xc0ff)
            self.doIO(addr, 0)
        } else {
            // a card's ROM (0xc100-0xcfff)
            proof {
                lemma_page(addr);
            }
            let noise = self.noise();
            let ghost before = *self;
            let slot = ((addr >> 8) & 7) as usize;
            let val = match &mut self.slots[slot] {
                None => noise,
                Some(p) => p.doHighIO(addr, 0),
            };
            proof {
                before.lemma_slot_access(slot as int, *self);
            }
            val
        }
    }

    fn storeb(&mut self, addr: u16, val: u8) {
        if addr < HW_LO {
            // main memory (0x0000-0xbfff)
            self.mem[addr as usize] = val;
            assert(self@ == old(self)@.with_mem(old(self)@.mem.update(addr as int, val)));
        } else if addr >= ROM_LO {
            // ROM and language card (0xd000-0xffff)
            if !self.aux.write_inhibit {
                if addr >= 0xe000 {
                    self.mem[(addr as i32 + self.aux.bank1_wr_offset) as usize] = val;
                } else {
                    self.mem[(addr as i32 + self.aux.bank2_wr_offset) as usize] = val;
                }
                assert(self@ == old(self)@.with_mem(
                    old(self)@.mem.update(old(self)@.aux.write_index(addr), val),
                ));
            }
        } else if addr < HW_LO + 0x100 {
            // a soft switch (0xc000-0xc0ff)
            let ret = self.doIO(addr, val);
            assert(old(self)@.soft_switch(addr, val, self@, ret));
        } else {
            // a card's ROM (0xc100-0xcfff)
            proof {
                lemma_page(addr);
            }
            let ghost before = *self;
            let ghost mut shown = before@.noise();
            let slot = ((addr >> 8) & 7) as usize;
            match &mut self.slots[slot] {
                None => {},
                Some(p) => {
                    let ret = p.doHighIO(addr, val);
                    proof {
                        shown = ret;
                    }
                },
            }
            proof {
                before.lemma_slot_access(slot as int, *self);
                assert(before@.slot_rom(slot as int, addr, val, self@, shown));
            }
        }
    }
}

impl<P: Peripheral> AppleII<P> {
    /// What an access that reaches no more than the card in `slot` leaves of
    /// the bus.
    proof fn lemma_slot_access(self, slot: int, after: Self)
        requires
            0 <= slot < 8,
            after.mem == self.mem,
            after.kbdlatch == self.kbdlatch,
            after.grswitch == self.grswitch,
            after.soundstate == self.soundstate,
            after.aux == self.aux,
            after.nreads == self.nreads,
            forall|i: int| 0 <= i < 8 && i != slot ==> after.slots@[i] == self.slots@[i],
            self.slots@[slot] is None ==> after.slots@[slot] is None,
        ensures
            after@ == self@.with_slot(slot, after.slots@[slot]),
            self.slots@[slot] is None ==> after@ == self@,
    {
        assert(after.slots@ =~= self.slots@.update(slot, after.slots@[slot]));
        if self.slots@[slot] is None {
            assert(after.slots@ =~= self.slots@);
        }
    }

    /// What the view shows of the store and of the display switches.
    pub(crate) proof fn lemma_fields(&self)
        ensures
            self@.mem == self.mem@,
            self@.grswitch == self.grswitch,
    {
    }

    /// A machine at power-on.
    pub fn new() -> (a2: AppleII<P>)
        ensures
            a2.wf(),
            a2@ == power_on::<P>(),
    {
        let a2 = AppleII {
            mem: vec![0u8; MEM_SIZE],
            slots: [None, None, None, None, None, None, None, None],
            aux: LangCardState::new(false, 1, true),
            kbdlatch: 0,
            grswitch: 0,
            soundstate: false,
            nreads: 0,
        };
        assert(a2@.mem =~= power_on::<P>().mem);
        assert(a2@.slots =~= power_on::<P>().slots);
        a2
    }

    /// Puts a card into a slot. Slot 0 takes no card.
    pub fn set_slot(&mut self, slot: usize, p: P)
        requires
            old(self).wf(),
            p.wf(),
            1 <= slot < 8,
        ensures
            final(self).wf(),
            final(self)@ == old(self)@.with_slot(slot as int, Some(p)),
    {
        self.slots[slot] = Some(p);
        assert(self@.slots =~= old(self)@.slots.update(slot as int, Some(p)));
    }

    fn noise(&self) -> (noise: u8)
        requires
            self.wf(),
        ensures
            noise == self@.noise(),
    {
        self.mem[self.nreads as usize]
    }

    fn setGrSwitch(&mut self, addr: u16)
        requires
            addr % 16 < 8,
        ensures
            final(self)@ == old(self)@.with_grswitch(
                gr_switched(old(self)@.grswitch, addr as int % 16),
            ),
    {
        proof {
            lemma_page(addr);
        }
        let bit = ((addr >> 1) & 0x07) as u8;
        if (addr & 1) != 0 {
            self.grswitch |= 1u8 << bit;
        } else {
            self.grswitch &= !(1u8 << bit);
        }
    }

    /// The annunciators are not connected.
    fn setAnnunciator(&mut self, addr: u16)
        ensures
            final(self)@ == old(self)@,
    {
    }

    fn fakeJoystick(&self, addr: u16) -> (ret: u8)
        requires
            self.wf(),
        ensures
            ret == joystick(self@.noise(), addr as int % 16),
    {
        proof {
            lemma_page(addr);
        }
        // tape in, buttons, paddles
        match addr & 0x0f {
            1..=3 => self.noise() & 0x7f,  // buttons (up)
            4..=5 => self.noise() | 0x80,  // paddles
            _ => self.noise(),
        }
    }

    fn doIO(&mut self, addr: u16, val: u8) -> (ret: u8)
        requires
            old(self).wf(),
        ensures
            final(self).wf(),
            old(self)@.soft_switch(addr, val, final(self)@, ret),
    {
        proof {
            lemma_page(addr);
        }
        let slot = (addr >> 4) & 0x0f;
        let noise = self.noise();
        match slot {
            0 => self.kbdlatch,  // keyboard
            1 => {
                // reset keyboard strobe
                self.clearStrobe();
                noise
            },
            3 => {
                // speaker
                self.soundstate = !self.soundstate;
                noise
            },
            5 => {
                if (addr & 0x0f) < 8 {
                    self.setGrSwitch(addr);
                } else {
                    self.setAnnunciator(addr);
                }
                noise
            },
            6 => self.fakeJoystick(addr),
            7 => {
                if addr == 0xc070 {
                    noise | 0x80  // paddle timer reset
                } else {
                    noise
                }
            },
            8 => {
                self.doLanguageCardIO(addr);
                noise
            },
            9..=15 => {
                let ghost before = *self;
                let ret = match &mut self.slots[(slot - 8) as usize] {
                    None => noise,
                    Some(p) => p.doIO(addr, val),
                };
                proof {
                    before.lemma_slot_access(slot - 8, *self);
                }
                ret
            },
            _ => noise,
        }
    }

    fn clearStrobe(&mut self)
        ensures
            final(self)@ == old(self)@.with_kbdlatch(old(self)@.kbdlatch & 0x7f),
    {
        self.kbdlatch &= 0x7f;
    }

    /// A key goes down: its code is latched with the strobe set. This is an
    /// Apple II+, so lower case is folded to upper case.
    pub fn keyPressed(&mut self, keycode: u8)
        ensures
            final(self)@ == old(self)@.with_kbdlatch(key_latch(keycode)),
            old(self).wf() ==> final(self).wf(),
    {
        let mut key = keycode | 0x80;
        if key >= 0xe1 && key <= 0xfa {
            key -= 0x20;
        }
        self.kbdlatch = key;
    }

    fn doLanguageCardIO(&mut self, addr: u16)
        requires
            old(self).wf(),
        ensures
            final(self).wf(),
            final(self)@ == old(self)@.with_aux(old(self)@.aux.switched(addr as int % 16)),
    {
        proof {
            lemma_page(addr);
        }
        self.aux = match addr & 0xf {
            // aux RAM bank 2, write protected
            0 | 4 => LangCardState::new(true, 2, true),
            // ROM, write enable aux RAM bank 2
            1 | 5 => LangCardState::new(false, 2, false),
            // ROM, write protect aux RAM (either bank)
            2 | 6 | 10 | 14 => LangCardState::new(false, self.aux.aux_ram_bank, true),
            // aux RAM bank 2, write enabled
            3 | 7 => LangCardState::new(true, 2, false),
            // aux RAM bank 1, write enabled
            8 | 12 => LangCardState::new(true, 1, false),
            // ROM, write enable aux RAM bank 1
            9 | 13 => LangCardState::new(false, 1, false),
            // aux RAM bank 1, write enabled
            _ => LangCardState::new(true, 1, false),
        }
    }

    /// Installs the firmware: an image of `ROM_LEN` bytes that the window
    /// `$D000..$FFFF` shows while the language card is off. An image of
    /// another length is refused and the store stays as it was.
    pub fn read_roms(&mut self, image: &[u8]) -> (done: Result<(), ImageError>)
        requires
            old(self).wf(),
        ensures
            final(self).wf(),
            image@.len() == ROM_LEN ==> done == Ok::<(), ImageError>(()) && final(self)@ == old(
                self,
            )@.with_rom(image@),
            image@.len() != ROM_LEN ==> done == Err::<(), ImageError>(ImageError::BadRomSize)
                && final(self)@ == old(self)@,
    {
        if image.len() != ROM_LEN as usize {
            return Err(ImageError::BadRomSize);
        }
        let mut i: usize = 0;
        while i < ROM_LEN as usize
            invariant
                i <= ROM_LEN,
                image@.len() == ROM_LEN,
                self.mem@.len() == MEM_SIZE,
                forall|j: int| 0 <= j < MEM_SIZE ==> self.mem@[j] == if 0xD000 <= j < 0xD000 + i {
                    image@[j - 0xD000]
                } else {
                    old(self).mem@[j]
                },
                self.slots == old(self).slots,
                self.kbdlatch == old(self).kbdlatch,
                self.grswitch == old(self).grswitch,
                self.soundstate == old(self).soundstate,
                self.aux == old(self).aux,
                self.nreads == old(self).nreads,
            decreases ROM_LEN - i,
        {
            self.mem[ROM_LO as usize + i] = image[i];
            i += 1;
        }
        assert(self@.mem =~= old(self)@.with_rom(image@).mem);
        Ok(())
    }
}

/// Whether `addr` is a soft switch that nothing is connected to: a read of
/// it shows the floating bus and changes nothing.
pub open spec fn unconnected(addr: u16) -> bool {
    ||| 0xC020 <= addr < 0xC030
    ||| 0xC040 <= addr < 0xC050
    ||| 0xC070 < addr < 0xC080
}

impl<P: Peripheral> BusState<P> {
    /// An access to `addr`, a load or a store of any byte, leaves `post`.
    pub open spec fn access(self, addr: u16, post: Self) -> bool {
        ||| exists|ret: u8| #[trigger] self.load(addr, post, ret)
        ||| exists|val: u8| #[trigger] self.store(addr, val, post)
    }

    /// Main RAM keeps what is stored: a load from an address below `$C000`
    /// returns the byte that was stored there last.
    pub proof fn lemma_ram_store_load(self, addr: u16, v: u8, stored: Self, loaded: Self, r: u8)
        requires
            self.wf(),
            addr < 0xC000,
            self.store(addr, v, stored),
            stored.load(addr, loaded, r),
        ensures
            r == v,
    {
    }

    /// In the window `$D000..$FFFF` a load returns the byte stored last if the
    /// language card's RAM is selected and writes are enabled. If not, it
    /// returns what a load before the store returned: the store is dropped, or
    /// it lands in the card's RAM while the window shows ROM.
    pub proof fn lemma_window_store_load(
        self,
        addr: u16,
        v: u8,
        stored: Self,
        loaded: Self,
        r: u8,
        unstored: Self,
        r0: u8,
    )
        requires
            self.wf(),
            addr >= 0xD000,
            self.store(addr, v, stored),
            stored.load(addr, loaded, r),
            self.load(addr, unstored, r0),
        ensures
            self.aux.aux_ram_selected && !self.aux.write_inhibit ==> r == v,
            !(self.aux.aux_ram_selected && !self.aux.write_inhibit) ==> r == r0,
    {
    }

    /// After an access to `$C080` the window `$D000..$DFFF` shows bank 2 of the
    /// language card's RAM.
    pub proof fn lemma_switch_to_bank2(self, switched: Self, addr: u16, loaded: Self, r: u8)
        requires
            self.wf(),
            self.access(0xC080, switched),
            0xD000 <= addr < 0xE000,
            switched.load(addr, loaded, r),
        ensures
            r == self.aux_bank2()[addr - 0xD000],
    {
    }

    /// After an access to `$C088` the window `$D000..$FFFF` shows the language
    /// card's RAM with bank 1.
    pub proof fn lemma_switch_to_bank1(self, switched: Self, addr: u16, loaded: Self, r: u8)
        requires
            self.wf(),
            self.access(0xC088, switched),
            0xD000 <= addr,
            switched.load(addr, loaded, r),
        ensures
            r == self.aux_ram()[addr - 0xD000],
    {
    }

    /// After an access to `$C089` the window `$D000..$FFFF` shows the ROM.
    pub proof fn lemma_switch_to_rom(self, switched: Self, addr: u16, loaded: Self, r: u8)
        requires
            self.wf(),
            self.access(0xC089, switched),
            0xD000 <= addr,
            switched.load(addr, loaded, r),
        ensures
            r == self.rom()[addr - 0xD000],
    {
    }

    /// Every load advances the counter behind the floating bus by one.
    pub proof fn lemma_load_counts(self, addr: u16, loaded: Self, r: u8)
        requires
            self.wf(),
            self.load(addr, loaded, r),
        ensures
            loaded.nreads == next_addr(self.nreads),
    {
    }

    /// No store moves the counter behind the floating bus.
    pub proof fn lemma_store_does_not_count(self, addr: u16, v: u8, stored: Self)
        requires
            self.wf(),
            self.store(addr, v, stored),
        ensures
            stored.nreads == self.nreads,
    {
    }

    /// Loads and stores keep the bus well formed.
    pub proof fn lemma_access_keeps_wf(self, addr: u16, post: Self)
        requires
            self.wf(),
            self.access(addr, post),
        ensures
            post.wf(),
    {
    }

    /// What an access can change: the store only outside the I/O page, and
    /// each switch of the machine only through the addresses that are its
    /// own. A card changes with an access to its switches or to its page of
    /// ROM and with nothing else.
    pub proof fn lemma_access_changes(self, addr: u16, post: Self)
        requires
            self.wf(),
            self.access(addr, post),
        ensures
            0xC000 <= addr < 0xD000 ==> post.mem == self.mem,
            !(0xC010 <= addr < 0xC020) ==> post.kbdlatch == self.kbdlatch,
            !(0xC030 <= addr < 0xC040) ==> post.soundstate == self.soundstate,
            !(0xC050 <= addr < 0xC058) ==> post.grswitch == self.grswitch,
            !(0xC080 <= addr < 0xC090) ==> post.aux == self.aux,
            forall|slot: int|
                0 <= slot < 8 && !(0xC080 + 16 * slot <= addr < 0xC090 + 16 * slot) && !(0xC100
                    <= addr < 0xD000 && (addr / 256) % 8 == slot) ==> #[trigger] post.slots[slot]
                    == self.slots[slot],
    {
    }

    /// Two loads in a row from a switch that nothing is connected to show two
    /// successive bytes of the store, so they differ wherever those bytes do.
    pub proof fn lemma_floating_bus(self, addr: u16, first: Self, r1: u8, second: Self, r2: u8)
        requires
            self.wf(),
            unconnected(addr),
            self.load(addr, first, r1),
            first.load(addr, second, r2),
        ensures
            r1 == self.mem[next_addr(self.nreads) as int],
            r2 == self.mem[next_addr(next_addr(self.nreads)) as int],
    {
    }
}

} // verus!
