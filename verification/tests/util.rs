use apple2::mem::Mem;
use apple2::mem::MemUtil;
use apple2::mem::Ram;
use apple2::util::return_two;
use apple2::util::Xorshift;

#[test]
fn return_two_test() {
    let x = return_two();
    assert!(x == 2);
}

#[test]
fn test_cpu() {
    // what a processor does on reset and on its first step: fetch the
    // reset vector, then the byte it points at
    let mut ram = Ram { mem: [0; 0x800] };
    let pc = ram.loadw(0xfffc);
    assert!(pc == 0);
    assert_eq!(ram.loadb(pc), 0);
}

#[test]
fn ram_is_mirrored() {
    let mut ram = Ram { mem: [0; 0x800] };
    ram.storeb(0x0123, 0x45);
    assert_eq!(ram.loadb(0x0123), 0x45);
    assert_eq!(ram.loadb(0x0923), 0x45);
    assert_eq!(ram.loadb(0xf923), 0x45);
    assert_eq!(ram.loadb(0x0124), 0);
    assert_eq!(ram.mem[0x123], 0x45);
}

#[test]
fn words_are_little_endian() {
    let mut ram = Ram { mem: [0; 0x800] };
    ram.storew(0x0200, 0xbeef);
    assert_eq!(ram.loadb(0x0200), 0xef);
    assert_eq!(ram.loadb(0x0201), 0xbe);
    assert_eq!(ram.loadw(0x0200), 0xbeef);
}

#[test]
fn word_access_wraps() {
    let mut ram = Ram { mem: [0; 0x800] };
    // 0xffff is cell 0x7ff, the address after it is 0x0000
    ram.storew(0xffff, 0x1234);
    assert_eq!(ram.mem[0x7ff], 0x34);
    assert_eq!(ram.mem[0], 0x12);
    assert_eq!(ram.loadw(0xffff), 0x1234);
}

#[test]
fn zero_page_word_wraps() {
    let mut ram = Ram { mem: [0; 0x800] };
    ram.storeb(0x00ff, 0x78);
    ram.storeb(0x0000, 0x56);
    ram.storeb(0x0100, 0x99);
    assert_eq!(ram.loadw_zp(0xff), 0x5678);
    assert_eq!(ram.loadw(0x00ff), 0x9978);
    ram.storeb(0x0010, 0x01);
    ram.storeb(0x0011, 0x02);
    assert_eq!(ram.loadw_zp(0x10), 0x0201);
}

#[test]
fn xorshift_first_draws() {
    let mut rng = Xorshift::new();
    assert_eq!(rng, Xorshift { x: 123456789, y: 362436069, z: 521288629, w: 88675123 });
    assert_eq!(rng.next(), 3701687786);
    assert_eq!(rng.next(), 458299110);
    assert_eq!(rng.next(), 2500872618);
    assert_eq!(rng.next(), 3633119408);
}

#[test]
fn xorshift_step_moves_the_words() {
    let mut rng = Xorshift { x: 1, y: 2, z: 3, w: 4 };
    let r = rng.next();
    // t = 1 ^ (1 << 11) = 0x801, w = 4 ^ (4 >> 19) ^ (t ^ (t >> 8))
    assert_eq!(r, 4 ^ 0x801 ^ 0x8);
    assert_eq!(rng, Xorshift { x: 2, y: 3, z: 4, w: r });
}
