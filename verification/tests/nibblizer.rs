use apple2::nibblizer::nibblizeSector;
use apple2::nibblizer::nibblizeTrack;
use apple2::nibblizer::BYTE_TRANSLATION;
use apple2::nibblizer::SKEWING_TABLE;

fn zero_disk() -> Vec<Vec<u8>> {
    vec![vec![0u8; 4096]; 35]
}

/// The six-bit value that a disk byte stands for.
fn untranslate(b: u8) -> u8 {
    BYTE_TRANSLATION.iter().position(|&t| t == b).expect("a disk byte") as u8
}

fn count(stream: &[u8], pattern: &[u8]) -> usize {
    stream.windows(pattern.len()).filter(|w| *w == pattern).count()
}

#[test]
fn test_nibbilize() {
    let disk = zero_disk();
    let track = nibblizeTrack(254, 0, &disk);
    assert_eq!(track.len(), 0x1a00);
}

#[test]
fn sector_is_383_bytes() {
    let payload: Vec<u8> = (0..256).map(|i| (i * 7 + 3) as u8).collect();
    assert_eq!(nibblizeSector(254, 17, 9, &payload).len(), 383);
    assert_eq!(nibblizeSector(0, 0, 0, &[0u8; 256]).len(), 383);
    assert_eq!(nibblizeSector(255, 255, 255, &[0xffu8; 256]).len(), 383);
}

#[test]
fn track_is_6656_bytes() {
    let mut disk = zero_disk();
    for (t, track) in disk.iter_mut().enumerate() {
        for (i, b) in track.iter_mut().enumerate() {
            *b = (i as u8) ^ (t as u8);
        }
    }
    for t in [0u8, 1, 17, 34] {
        assert_eq!(nibblizeTrack(254, t, &disk).len(), 6656);
    }
}

#[test]
fn zero_sector_layout() {
    let raw = nibblizeSector(254, 0, 0, &[0u8; 256]);
    assert_eq!(raw.len(), 383);
    assert!(raw[0..14].iter().all(|&b| b == 0xff));
    assert_eq!(&raw[14..17], &[0xd5, 0xaa, 0x96]);
    // volume 254, track 0, sector 0, checksum 254
    assert_eq!(&raw[17..25], &[0xff, 0xfe, 0xaa, 0xaa, 0xaa, 0xaa, 0xff, 0xfe]);
    assert_eq!(&raw[25..28], &[0xde, 0xaa, 0xeb]);
    assert!(raw[28..34].iter().all(|&b| b == 0xff));
    assert_eq!(&raw[34..37], &[0xd5, 0xaa, 0xad]);
    assert!(raw[37..380].iter().all(|&b| b == 0x96));
    // the checksum byte of the data block
    assert_eq!(raw[379], BYTE_TRANSLATION[0]);
    assert_eq!(raw[379], 0x96);
    assert_eq!(&raw[380..383], &[0xde, 0xaa, 0xeb]);
}

#[test]
fn address_field_four_and_four() {
    let raw = nibblizeSector(0x12, 0x34, 0x0b, &[0u8; 256]);
    let chk = 0x12u8 ^ 0x34 ^ 0x0b;
    assert_eq!(
        &raw[17..25],
        &[
            (0x12 >> 1) | 0xaa,
            0x12 | 0xaa,
            (0x34 >> 1) | 0xaa,
            0x34 | 0xaa,
            (0x0b >> 1) | 0xaa,
            0x0b | 0xaa,
            (chk >> 1) | 0xaa,
            chk | 0xaa
        ]
    );
    // both halves give the byte back
    for k in 0..4 {
        let odd = raw[17 + 2 * k];
        let even = raw[18 + 2 * k];
        let decoded = ((odd << 1) | 1) & even;
        assert_eq!(decoded, [0x12, 0x34, 0x0b, chk][k]);
    }
}

#[test]
fn data_block_exact_bytes() {
    // payload[0] = 0x01: low pair 01 is swapped to 10, so the first six-bit
    // value is 2 and is written as it is
    let mut payload = [0u8; 256];
    payload[0] = 0x01;
    let raw = nibblizeSector(254, 0, 0, &payload);
    assert_eq!(raw[37], BYTE_TRANSLATION[2]);
    // the next value is 0, written as 0 ^ 2
    assert_eq!(raw[38], BYTE_TRANSLATION[2]);
    assert_eq!(raw[39], BYTE_TRANSLATION[0]);

    // payload[86] = 0x02 lands in bits 2..3 of value 0, swapped to 01
    let mut payload = [0u8; 256];
    payload[86] = 0x02;
    let raw = nibblizeSector(254, 0, 0, &payload);
    assert_eq!(raw[37], BYTE_TRANSLATION[0x04]);

    // payload[172] = 0x03 lands in bits 4..5 of value 0
    let mut payload = [0u8; 256];
    payload[172] = 0x03;
    let raw = nibblizeSector(254, 0, 0, &payload);
    assert_eq!(raw[37], BYTE_TRANSLATION[0x30]);

    // the top six bits of payload[255] are the last value and the checksum
    let mut payload = [0u8; 256];
    payload[255] = 0xfc;
    let raw = nibblizeSector(254, 0, 0, &payload);
    assert_eq!(raw[37 + 341], BYTE_TRANSLATION[0x3f]);
    assert_eq!(raw[37 + 342], BYTE_TRANSLATION[0x3f]);
    assert_eq!(raw[37 + 340], BYTE_TRANSLATION[0]);
}

#[test]
fn data_block_decodes_to_payload() {
    let payload: Vec<u8> = (0..256).map(|i| (i * 31 + 5) as u8).collect();
    let raw = nibblizeSector(254, 3, 4, &payload);
    let mut values = [0u8; 343];
    let mut prev = 0u8;
    for i in 0..343 {
        prev ^= untranslate(raw[37 + i]);
        values[i] = prev;
    }
    // after the checksum the running value is zero
    assert_eq!(values[342], 0);
    for i in 0..256 {
        let pairs = values[i % 86] >> (2 * (i / 86));
        let low = ((pairs & 1) << 1) | ((pairs >> 1) & 1);
        assert_eq!((values[86 + i] << 2) | low, payload[i], "byte {}", i);
    }
}

#[test]
fn zero_track_prologues_and_checksums() {
    let track = nibblizeTrack(254, 0, &zero_disk());
    assert_eq!(count(&track, &[0xd5, 0xaa, 0x96]), 16);
    assert_eq!(count(&track, &[0xd5, 0xaa, 0xad]), 16);
    for p in 0..16 {
        let data = &track[p * 383 + 37..p * 383 + 380];
        assert!(data.iter().all(|b| BYTE_TRANSLATION.contains(b)));
        assert_eq!(data.iter().fold(0u8, |x, &b| x ^ untranslate(b)), 0);
    }
    assert!(track[16 * 383..].iter().all(|&b| b == 0xff));
}

#[test]
fn any_track_prologues_and_checksums() {
    let mut disk = zero_disk();
    let mut seed = 0x2545f491u32;
    for b in disk[5].iter_mut() {
        seed ^= seed << 13;
        seed ^= seed >> 17;
        seed ^= seed << 5;
        *b = seed as u8;
    }
    let track = nibblizeTrack(254, 5, &disk);
    assert_eq!(count(&track, &[0xd5, 0xaa, 0x96]), 16);
    assert_eq!(count(&track, &[0xd5, 0xaa, 0xad]), 16);
    for p in 0..16 {
        assert_eq!(&track[p * 383 + 14..p * 383 + 17], &[0xd5, 0xaa, 0x96]);
        assert_eq!(&track[p * 383 + 34..p * 383 + 37], &[0xd5, 0xaa, 0xad]);
        let data = &track[p * 383 + 37..p * 383 + 380];
        assert!(data.iter().all(|b| BYTE_TRANSLATION.contains(b)));
        assert_eq!(data.iter().fold(0u8, |x, &b| x ^ untranslate(b)), 0);
    }
}

#[test]
fn track_sectors_are_skewed() {
    // every logical sector is filled with its own number
    let mut disk = zero_disk();
    for (i, b) in disk[2].iter_mut().enumerate() {
        *b = (i / 256) as u8;
    }
    let track = nibblizeTrack(254, 2, &disk);
    for p in 0..16usize {
        let logical = SKEWING_TABLE[p];
        let expected = nibblizeSector(254, 2, p as u8, &[logical; 256]);
        assert_eq!(&track[p * 383..(p + 1) * 383], &expected[..], "position {}", p);
    }
    assert_eq!(SKEWING_TABLE, [0, 7, 14, 6, 13, 5, 12, 4, 11, 3, 10, 2, 9, 1, 8, 15]);
}

#[test]
fn translate_table_is_legal() {
    assert_eq!(BYTE_TRANSLATION.len(), 64);
    assert_eq!(BYTE_TRANSLATION[0], 0x96);
    assert_eq!(BYTE_TRANSLATION[63], 0xff);
    for w in BYTE_TRANSLATION.windows(2) {
        assert!(w[0] < w[1]);
    }
    assert!(!BYTE_TRANSLATION.contains(&0xd5));
    assert!(!BYTE_TRANSLATION.contains(&0xaa));
}
