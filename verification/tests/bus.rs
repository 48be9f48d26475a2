use apple2::a2::AppleII;
use apple2::a2::ImageError;
use apple2::a2::LangCardState;
use apple2::a2::Peripheral;
use apple2::diskii::DiskController;
use apple2::diskii::PROM;
use apple2::mem::Mem;
use apple2::mem::MemUtil;

type Bus = AppleII<DiskController>;

/// A ROM image whose byte at offset `i` is `rom_byte(i)`.
fn rom_byte(i: usize) -> u8 {
    (i as u8).wrapping_mul(3) ^ 0x5a ^ ((i >> 8) as u8)
}

fn rom_image() -> Vec<u8> {
    (0..0x3000).map(rom_byte).collect()
}

fn machine() -> Bus {
    let mut a2 = Bus::new();
    assert_eq!(a2.read_roms(&rom_image()), Ok(()));
    a2
}

/// A card that records its accesses.
struct Probe {
    io: Vec<(u16, u8)>,
    rom: Vec<(u16, u8)>,
}

impl Peripheral for Probe {
    fn doIO(&mut self, addr: u16, val: u8) -> u8 {
        self.io.push((addr, val));
        0x11
    }

    fn doHighIO(&mut self, addr: u16, val: u8) -> u8 {
        self.rom.push((addr, val));
        0x22
    }
}

#[test]
fn ram_store_then_load() {
    let mut a2 = machine();
    a2.storeb(0x0300, 0x42);
    assert_eq!(a2.loadb(0x0300), 0x42);
}

#[test]
fn ram_keeps_every_address() {
    let mut a2 = machine();
    for addr in [0x0000u16, 0x0001, 0x00ff, 0x0400, 0x7fff, 0xbffe, 0xbfff] {
        let v = (addr as u8) ^ 0xa5;
        a2.storeb(addr, v);
        assert_eq!(a2.loadb(addr), v, "at {:04x}", addr);
    }
    // a store changes one byte only
    a2.storeb(0x1000, 0x77);
    a2.storeb(0x1001, 0x88);
    assert_eq!(a2.loadb(0x1000), 0x77);
    assert_eq!(a2.loadb(0x0fff), 0);
}

#[test]
fn power_on_state() {
    let mut a2 = Bus::new();
    assert_eq!(a2.loadb(0x0000), 0);
    assert_eq!(a2.loadb(0xbfff), 0);
    assert_eq!(a2.loadb(0xd000), 0);
    assert_eq!(a2.loadb(0xffff), 0);
    // no key
    assert_eq!(a2.loadb(0xc000), 0);
}

#[test]
fn rom_is_shown_and_not_written() {
    let mut a2 = machine();
    for addr in [0xd000u16, 0xd001, 0xdfff, 0xe000, 0xf123, 0xffff] {
        assert_eq!(a2.loadb(addr), rom_byte(addr as usize - 0xd000));
        // at power-on writes to the window are dropped
        a2.storeb(addr, 0x99);
        assert_eq!(a2.loadb(addr), rom_byte(addr as usize - 0xd000));
    }
    assert_eq!(a2.loadw(0xfffc), u16::from(rom_byte(0x2ffc)) | u16::from(rom_byte(0x2ffd)) << 8);
}

#[test]
fn rom_of_wrong_size_is_refused() {
    let mut a2 = machine();
    assert_eq!(a2.read_roms(&[0u8; 0x2fff]), Err(ImageError::BadRomSize));
    assert_eq!(a2.read_roms(&[0u8; 0x3001]), Err(ImageError::BadRomSize));
    assert_eq!(a2.read_roms(&[]), Err(ImageError::BadRomSize));
    // the ROM is as it was
    assert_eq!(a2.loadb(0xd000), rom_byte(0));
    assert_eq!(a2.loadb(0xffff), rom_byte(0x2fff));
}

#[test]
fn rom_leaves_ram_alone() {
    let mut a2 = Bus::new();
    a2.storeb(0xbfff, 0x12);
    // bank 2 of the language card lies just below the ROM in the store
    a2.loadb(0xc083);
    a2.storeb(0xd000, 0x34);
    a2.storeb(0xdfff, 0x35);
    a2.storeb(0xe000, 0x36);
    assert_eq!(a2.read_roms(&rom_image()), Ok(()));
    assert_eq!(a2.loadb(0xbfff), 0x12);
    assert_eq!(a2.loadb(0xd000), 0x34);
    assert_eq!(a2.loadb(0xdfff), 0x35);
    assert_eq!(a2.loadb(0xe000), 0x36);
    a2.loadb(0xc089);
    assert_eq!(a2.loadb(0xd000), rom_byte(0));
}

#[test]
fn window_store_then_load_with_ram_selected() {
    // $C083 and $C08B select the card's RAM with writes enabled
    for switch in [0xc083u16, 0xc087, 0xc08b, 0xc08f, 0xc088, 0xc08c] {
        let mut a2 = machine();
        a2.loadb(switch);
        for addr in [0xd000u16, 0xdfff, 0xe000, 0xffff] {
            a2.storeb(addr, 0x5c);
            assert_eq!(a2.loadb(addr), 0x5c, "switch {:04x} at {:04x}", switch, addr);
        }
    }
}

#[test]
fn window_store_without_effect_on_load() {
    // ROM selected, or writes inhibited: a load shows what it showed before
    let switches =
        [0xc080u16, 0xc084, 0xc081, 0xc085, 0xc082, 0xc086, 0xc08a, 0xc08e, 0xc089, 0xc08d];
    for switch in switches {
        let mut a2 = machine();
        // something to tell the banks apart
        a2.loadb(0xc083);
        a2.storeb(0xd000, 0x21);
        a2.storeb(0xe000, 0x22);
        a2.loadb(0xc08b);
        a2.storeb(0xd000, 0x23);
        a2.loadb(switch);
        for addr in [0xd000u16, 0xdfff, 0xe000, 0xffff] {
            let before = a2.loadb(addr);
            a2.storeb(addr, 0x99);
            assert_eq!(a2.loadb(addr), before, "switch {:04x} at {:04x}", switch, addr);
        }
    }
}

#[test]
fn language_card_switch_table() {
    // after each switch: does the window read RAM, which bank, are writes dropped
    let table: [(u16, bool, u8, bool); 12] = [
        (0xc080, true, 2, true),
        (0xc084, true, 2, true),
        (0xc081, false, 2, false),
        (0xc085, false, 2, false),
        (0xc083, true, 2, false),
        (0xc087, true, 2, false),
        (0xc088, true, 1, false),
        (0xc08c, true, 1, false),
        (0xc089, false, 1, false),
        (0xc08d, false, 1, false),
        (0xc08b, true, 1, false),
        (0xc08f, true, 1, false),
    ];
    for (switch, ram, bank, inhibit) in table {
        let mut a2 = machine();
        // bank 2 holds 0xb2 at $D000, bank 1 holds 0xb1, the RAM above holds 0xe0
        a2.loadb(0xc083);
        a2.storeb(0xd000, 0xb2);
        a2.storeb(0xe000, 0xe0);
        a2.loadb(0xc08b);
        a2.storeb(0xd000, 0xb1);

        a2.storeb(switch, 0);
        let shown = if !ram {
            rom_byte(0)
        } else if bank == 2 {
            0xb2
        } else {
            0xb1
        };
        assert_eq!(a2.loadb(0xd000), shown, "switch {:04x}", switch);
        assert_eq!(a2.loadb(0xe000), if ram { 0xe0 } else { rom_byte(0x1000) });

        a2.storeb(0xd000, 0x77);
        // look at the bank that a write lands in
        a2.loadb(if bank == 2 { 0xc080 } else { 0xc088 });
        let landed = a2.loadb(0xd000);
        if inhibit {
            assert_eq!(landed, if bank == 2 { 0xb2 } else { 0xb1 }, "switch {:04x}", switch);
        } else {
            assert_eq!(landed, 0x77, "switch {:04x}", switch);
        }
    }
}

#[test]
fn language_card_write_protect_keeps_bank() {
    for switch in [0xc082u16, 0xc086, 0xc08a, 0xc08e] {
        for (select, own, other) in [(0xc083u16, 0xc080u16, 0xc088u16), (0xc08b, 0xc088, 0xc080)] {
            let mut a2 = machine();
            a2.loadb(select);
            a2.storeb(0xd000, 0x44);
            a2.loadb(switch);
            // ROM is shown and writes are dropped
            assert_eq!(a2.loadb(0xd000), rom_byte(0));
            a2.storeb(0xd000, 0x55);
            a2.loadb(own);
            assert_eq!(a2.loadb(0xd000), 0x44);
            a2.loadb(other);
            assert_eq!(a2.loadb(0xd000), 0);
        }
    }
}

#[test]
fn language_card_offsets() {
    let s = LangCardState::new(true, 2, false);
    assert_eq!(
        s,
        LangCardState {
            aux_ram_selected: true,
            aux_ram_bank: 2,
            write_inhibit: false,
            bank1_rd_offset: 0x3000,
            bank2_rd_offset: -0x1000,
            bank1_wr_offset: 0x3000,
            bank2_wr_offset: -0x1000,
        }
    );
    let s = LangCardState::new(false, 1, true);
    assert_eq!(
        (s.bank1_rd_offset, s.bank2_rd_offset, s.bank1_wr_offset, s.bank2_wr_offset),
        (0, 0, 0, 0)
    );
    let s = LangCardState::new(true, 1, true);
    assert_eq!(
        (s.bank1_rd_offset, s.bank2_rd_offset, s.bank1_wr_offset, s.bank2_wr_offset),
        (0x3000, 0x3000, 0, 0)
    );
    let s = LangCardState::new(false, 2, false);
    assert_eq!(
        (s.bank1_rd_offset, s.bank2_rd_offset, s.bank1_wr_offset, s.bank2_wr_offset),
        (0, 0, 0x3000, -0x1000)
    );
}

#[test]
fn switch_0_shows_bank_2_and_switch_9_shows_rom() {
    let mut a2 = machine();
    a2.loadb(0xc083);
    a2.storeb(0xd000, 0xb2);
    assert!(rom_byte(0) != 0xb2);
    a2.loadb(0xc080);
    assert_eq!(a2.loadb(0xd000), 0xb2);
    a2.loadb(0xc089);
    assert_eq!(a2.loadb(0xd000), rom_byte(0));
}

#[test]
fn language_card_write_bank2_then_rom() {
    let mut a2 = machine();
    // ROM is read, writes go to bank 2
    a2.loadb(0xc081);
    a2.loadb(0xc081);
    a2.storeb(0xd000, 0x99);
    assert_eq!(a2.loadb(0xd000), rom_byte(0));
    // the byte is in bank 2
    a2.loadb(0xc083);
    assert_eq!(a2.loadb(0xd000), 0x99);
    // back to ROM, bank 1 writable
    a2.loadb(0xc089);
    assert_eq!(a2.loadb(0xd000), rom_byte(0));
    a2.storeb(0xd000, 0x98);
    a2.loadb(0xc088);
    assert_eq!(a2.loadb(0xd000), 0x98);
    a2.loadb(0xc080);
    assert_eq!(a2.loadb(0xd000), 0x99);
}

#[test]
fn floating_bus_follows_the_load_counter() {
    let mut a2 = machine();
    for i in 0..16u16 {
        a2.storeb(i, 0xa0 + i as u8);
    }
    // the first load counts to 1
    assert_eq!(a2.loadb(0xc020), 0xa1);
    assert_eq!(a2.loadb(0xc020), 0xa2);
    assert_eq!(a2.loadb(0xc04f), 0xa3);
    // every load counts, whatever it reads
    a2.loadb(0x1234);
    a2.loadb(0xd000);
    a2.loadb(0xc000);
    assert_eq!(a2.loadb(0xc071), 0xa7);
    // a store does not count
    a2.storeb(0xc020, 0);
    a2.storeb(0x2000, 0);
    assert_eq!(a2.loadb(0xc07f), 0xa8);
}

#[test]
fn floating_bus_counter_wraps() {
    let mut a2 = machine();
    a2.storeb(0, 0x10);
    a2.storeb(1, 0x11);
    for _ in 0..0xffff {
        a2.loadb(0x2000);
    }
    // load 0x10000 counts to 0, the next one to 1
    assert_eq!(a2.loadb(0xc020), 0x10);
    assert_eq!(a2.loadb(0xc020), 0x11);
}

#[test]
fn keyboard_latch_and_strobe() {
    let mut a2 = machine();
    a2.keyPressed(0x61);
    assert_eq!(a2.loadb(0xc000), 0xc1);
    // a write to the keyboard is ignored
    a2.storeb(0xc000, 0);
    assert_eq!(a2.loadb(0xc00f), 0xc1);
    a2.loadb(0xc010);
    assert_eq!(a2.loadb(0xc000), 0x41);
    // a store clears the strobe too
    a2.keyPressed(0x0d);
    assert_eq!(a2.loadb(0xc000), 0x8d);
    a2.storeb(0xc01f, 0);
    assert_eq!(a2.loadb(0xc000), 0x0d);
}

#[test]
fn keys_are_folded_to_upper_case() {
    let cases: [(u8, u8); 10] = [
        (0x61, 0xc1),
        (0x7a, 0xda),
        (0xe1, 0xc1),
        (0xfa, 0xda),
        (0x60, 0xe0),
        (0x7b, 0xfb),
        (0x41, 0xc1),
        (0x00, 0x80),
        (0xff, 0xff),
        (0x20, 0xa0),
    ];
    for (code, latch) in cases {
        let mut a2 = machine();
        a2.keyPressed(code);
        assert_eq!(a2.loadb(0xc000), latch, "key {:02x}", code);
    }
}

#[test]
fn buttons_and_paddles() {
    let mut a2 = machine();
    for i in 0..64u16 {
        a2.storeb(i, if i % 2 == 0 { 0x7f } else { 0x80 });
    }
    // loads 1, 2, 3, .. see 0x80, 0x7f, 0x80, ..
    assert_eq!(a2.loadb(0xc060), 0x80);
    assert_eq!(a2.loadb(0xc060), 0x7f);
    // buttons: bit 7 clear
    assert_eq!(a2.loadb(0xc061), 0x00);
    assert_eq!(a2.loadb(0xc062), 0x7f);
    assert_eq!(a2.loadb(0xc063), 0x00);
    // paddles: bit 7 set
    assert_eq!(a2.loadb(0xc064), 0xff);
    assert_eq!(a2.loadb(0xc065), 0x80);
    // the rest floats
    assert_eq!(a2.loadb(0xc066), 0x7f);
    assert_eq!(a2.loadb(0xc067), 0x80);
    assert_eq!(a2.loadb(0xc068), 0x7f);
    assert_eq!(a2.loadb(0xc069), 0x80);
    assert_eq!(a2.loadb(0xc06a), 0x7f);
    assert_eq!(a2.loadb(0xc06d), 0x80);
    // the paddle reset shows bit 7 set, its neighbours float
    assert_eq!(a2.loadb(0xc070), 0xff);
    assert_eq!(a2.loadb(0xc070), 0x80);
    assert_eq!(a2.loadb(0xc071), 0x7f);
}

#[test]
fn empty_slots_float() {
    let mut a2 = machine();
    a2.storeb(1, 0x31);
    a2.storeb(2, 0x32);
    a2.storeb(3, 0x33);
    a2.storeb(4, 0x34);
    assert_eq!(a2.loadb(0xc0e0), 0x31);
    assert_eq!(a2.loadb(0xc600), 0x32);
    assert_eq!(a2.loadb(0xc090), 0x33);
    assert_eq!(a2.loadb(0xcfff), 0x34);
    // stores go nowhere
    a2.storeb(0xc0e0, 1);
    a2.storeb(0xc600, 1);
    assert_eq!(a2.loadb(0xc0e0), 0);
}

#[test]
fn slots_get_their_accesses() {
    let mut a2: AppleII<Probe> = AppleII::new();
    a2.set_slot(1, Probe { io: vec![], rom: vec![] });
    a2.set_slot(7, Probe { io: vec![], rom: vec![] });
    // switches of slot 1 are $C090..$C09F, of slot 7 $C0F0..$C0FF
    assert_eq!(a2.loadb(0xc090), 0x11);
    a2.storeb(0xc09f, 0x5a);
    assert_eq!(a2.loadb(0xc0f3), 0x11);
    // ROM pages: $C100 for slot 1, $C700 for slot 7, and again from $C900
    assert_eq!(a2.loadb(0xc100), 0x22);
    assert_eq!(a2.loadb(0xc1ff), 0x22);
    a2.storeb(0xc7aa, 0x66);
    assert_eq!(a2.loadb(0xc9ab), 0x22);
    assert_eq!(a2.loadb(0xcf01), 0x22);
    // the others float
    a2.storeb(11, 0x3b);
    a2.storeb(12, 0x3c);
    a2.storeb(13, 0x3d);
    assert_eq!(a2.loadb(0xc0a0), 0);
    assert_eq!(a2.loadb(0xc200), 0);
    assert_eq!(a2.loadb(0xc600), 0);
    assert_eq!(a2.loadb(0xc0e0), 0);
    // 11th load
    assert_eq!(a2.loadb(0xc800), 0x3b);
    assert_eq!(a2.loadb(0xc080), 0x3c);
}

#[test]
fn disk_card_in_slot_6() {
    let mut a2 = machine();
    a2.set_slot(6, DiskController::new());
    for i in [0usize, 1, 0x4c, 0x4d, 0x4e, 0xfe, 0xff] {
        assert_eq!(a2.loadb(0xc600 + i as u16), PROM[i]);
        // the page comes again at $CE00
        assert_eq!(a2.loadb(0xce00 + i as u16), PROM[i]);
    }
    // the card's ROM cannot be written
    a2.storeb(0xc600, 0);
    assert_eq!(a2.loadb(0xc600), 0xa2);
    // without a disk the latch shows nothing
    a2.loadb(0xc0ee);
    assert_eq!(a2.loadb(0xc0ec), 0);
}

#[test]
fn words_through_the_bus() {
    let mut a2 = machine();
    a2.storew(0x0800, 0x1234);
    assert_eq!(a2.loadb(0x0800), 0x34);
    assert_eq!(a2.loadb(0x0801), 0x12);
    assert_eq!(a2.loadw(0x0800), 0x1234);
    a2.storeb(0x00ff, 0xcd);
    a2.storeb(0x0000, 0xab);
    assert_eq!(a2.loadw_zp(0xff), 0xabcd);
    // the word at the top of memory has its high byte at $0000
    a2.loadb(0xc08b);
    a2.storew(0xffff, 0xbeef);
    assert_eq!(a2.loadb(0xffff), 0xef);
    assert_eq!(a2.loadb(0x0000), 0xbe);
}
