//! 6-and-2 nibblization: from the 256-byte sectors of a disk image to the raw
//! bytes that pass under the read head.
//!
//! A raw sector is laid out as
//!
//! | bytes | content                                   |
//! |-------|-------------------------------------------|
//! | 14    | sync (`FF`)                               |
//! | 3     | address prologue `D5 AA 96`               |
//! | 8     | volume, track, sector, checksum (4-and-4) |
//! | 3     | epilogue `DE AA EB`                       |
//! | 6     | sync                                      |
//! | 3     | data prologue `D5 AA AD`                  |
//! | 343   | data block (6-and-2, running XOR)         |
//! | 3     | epilogue                                  |
use vstd::prelude::*;
use vstd::slice::slice_subrange;

verus! {

/// Tracks on a disk.
pub const NUM_TRACKS: usize = 35;

/// Bytes of a raw track.
pub const RAW_TRACK_SIZE: usize = 0x1a00;

/// Bytes of a raw sector.
pub const RAW_SECTOR_SIZE: usize = 383;

/// Bytes that a sector holds.
pub const SECTOR_SIZE: usize = 256;

/// Sectors on a track.
pub const SECTORS_PER_TRACK: usize = 16;

/// Bytes of one track in a disk image.
pub const TRACK_IMAGE_SIZE: usize = 4096;

/// Six-bit value to disk byte.
pub const BYTE_TRANSLATION: [u8; 64] = [
    0x96, 0x97, 0x9a, 0x9b, 0x9d, 0x9e, 0x9f, 0xa6,
    0xa7, 0xab, 0xac, 0xad, 0xae, 0xaf, 0xb2, 0xb3,
    0xb4, 0xb5, 0xb6, 0xb7, 0xb9, 0xba, 0xbb, 0xbc,
    0xbd, 0xbe, 0xbf, 0xcb, 0xcd, 0xce, 0xcf, 0xd3,
    0xd6, 0xd7, 0xd9, 0xda, 0xdb, 0xdc, 0xdd, 0xde,
    0xdf, 0xe5, 0xe6, 0xe7, 0xe9, 0xea, 0xeb, 0xec,
    0xed, 0xee, 0xef, 0xf2, 0xf3, 0xf4, 0xf5, 0xf6,
    0xf7, 0xf9, 0xfa, 0xfb, 0xfc, 0xfd, 0xfe, 0xff,
];

/// Physical position on the track to logical sector of the image.
pub const SKEWING_TABLE: [u8; 16] = [0, 7, 14, 6, 13, 5, 12, 4, 11, 3, 10, 2, 9, 1, 8, 15];

/// `n` sync bytes.
pub open spec fn sync_bytes(n: nat) -> Seq<u8> {
    Seq::new(n, |i: int| 0xffu8)
}

pub open spec fn address_prologue() -> Seq<u8> {
    seq![0xd5u8, 0xaau8, 0x96u8]
}

pub open spec fn data_prologue() -> Seq<u8> {
    seq![0xd5u8, 0xaau8, 0xadu8]
}

pub open spec fn epilogue() -> Seq<u8> {
    seq![0xdeu8, 0xaau8, 0xebu8]
}

/// The two disk bytes that carry the odd and the even bits of `b`.
pub open spec fn four_and_four(b: u8) -> Seq<u8> {
    seq![(b >> 1) | 0xaa, b | 0xaa]
}

/// Volume, track, sector and their exclusive-or, in 4-and-4 encoding.
pub open spec fn address_block(vol: u8, trk: u8, sector: u8) -> Seq<u8> {
    four_and_four(vol) + four_and_four(trk) + four_and_four(sector) + four_and_four(
        vol ^ trk ^ sector,
    )
}

/// Byte `i` of the payload, padded with zeros beyond its end.
pub open spec fn padded(payload: Seq<u8>, i: int) -> u8 {
    if 0 <= i < payload.len() {
        payload[i]
    } else {
        0
    }
}

/// The low two bits of `b`, exchanged.
pub open spec fn swapped_pair(b: u8) -> u8 {
    ((b & 0x01) << 1) | ((b & 0x02) >> 1)
}

/// The six-bit values of a data block, before the running exclusive-or: 86
/// that pack the low bit pairs of three payload bytes each, then the upper
/// six bits of each of the 256 payload bytes. Outside `0..342` it is zero, so
/// that the first value is written as it is and the last one once more as the
/// checksum.
pub open spec fn six_bit(payload: Seq<u8>, i: int) -> u8 {
    if 0 <= i < 86 {
        swapped_pair(padded(payload, i)) | (swapped_pair(padded(payload, i + 86)) << 2) | (
        swapped_pair(padded(payload, i + 172)) << 4)
    } else if 86 <= i < 342 {
        padded(payload, i - 86) >> 2
    } else {
        0
    }
}

/// Data-block byte `i`: the translation of a six-bit value exclusive-ored with
/// the one before it.
pub open spec fn data_byte(payload: Seq<u8>, i: int) -> u8 {
    BYTE_TRANSLATION[(six_bit(payload, i) ^ six_bit(payload, i - 1)) as int]
}

/// The 343 bytes of a data block, checksum included.
pub open spec fn data_block(payload: Seq<u8>) -> Seq<u8> {
    Seq::new(343, |i: int| data_byte(payload, i))
}

/// The raw form of one sector.
pub open spec fn nibblized_sector(vol: u8, trk: u8, sector: u8, payload: Seq<u8>) -> Seq<u8> {
    sync_bytes(14) + address_prologue() + address_block(vol, trk, sector) + epilogue()
        + sync_bytes(6) + data_prologue() + data_block(payload) + epilogue()
}

/// The 256 bytes of logical sector `logical` in a track image.
pub open spec fn logical_sector(image: Seq<u8>, logical: int) -> Seq<u8> {
    image.subrange(logical * 256, logical * 256 + 256)
}

/// The raw sector at a physical position of the track: it is numbered by its
/// position and carries the logical sector that the skewing table gives.
pub open spec fn physical_sector(vol: u8, trk: u8, image: Seq<u8>, position: int) -> Seq<u8> {
    nibblized_sector(
        vol,
        trk,
        position as u8,
        logical_sector(image, SKEWING_TABLE[position] as int),
    )
}

/// The raw form of one track: sixteen sectors in physical order, then sync
/// bytes up to the track's length.
pub open spec fn nibblized_track(vol: u8, trk: u8, image: Seq<u8>) -> Seq<u8> {
    Seq::new(
        RAW_TRACK_SIZE as nat,
        |i: int|
            if 0 <= i < 16 * 383 {
                physical_sector(vol, trk, image, i / 383)[i % 383]
            } else {
                0xffu8
            },
    )
}

/// A disk image: 35 tracks of 16 sectors of 256 bytes.
pub open spec fn is_disk_image(disk: Seq<Vec<u8>>) -> bool {
    &&& disk.len() == NUM_TRACKS
    &&& forall|t: int| 0 <= t < disk.len() ==> (#[trigger] disk[t])@.len() == TRACK_IMAGE_SIZE
}

/// Where each field of a raw sector lies.
pub proof fn lemma_sector_layout(vol: u8, trk: u8, sector: u8, payload: Seq<u8>)
    ensures
        nibblized_sector(vol, trk, sector, payload).len() == RAW_SECTOR_SIZE,
        forall|k: int|
            0 <= k < 383 ==> #[trigger] nibblized_sector(vol, trk, sector, payload)[k] == if k
                < 14 {
                0xffu8
            } else if k < 17 {
                address_prologue()[k - 14]
            } else if k < 25 {
                address_block(vol, trk, sector)[k - 17]
            } else if k < 28 {
                epilogue()[k - 25]
            } else if k < 34 {
                0xffu8
            } else if k < 37 {
                data_prologue()[k - 34]
            } else if k < 380 {
                data_byte(payload, k - 37)
            } else {
                epilogue()[k - 380]
            },
{
    let a = sync_bytes(14);
    let b = a + address_prologue();
    let c = b + address_block(vol, trk, sector);
    let d = c + epilogue();
    let e = d + sync_bytes(6);
    let f = e + data_prologue();
    let g = f + data_block(payload);
    let h = g + epilogue();
    assert(address_block(vol, trk, sector).len() == 8);
    assert(h.len() == 383);
    assert forall|k: int| 0 <= k < 383 implies #[trigger] h[k] == if k < 14 {
        0xffu8
    } else if k < 17 {
        address_prologue()[k - 14]
    } else if k < 25 {
        address_block(vol, trk, sector)[k - 17]
    } else if k < 28 {
        epilogue()[k - 25]
    } else if k < 34 {
        0xffu8
    } else if k < 37 {
        data_prologue()[k - 34]
    } else if k < 380 {
        data_byte(payload, k - 37)
    } else {
        epilogue()[k - 380]
    } by {
        if k < 380 {
            assert(h[k] == g[k]);
            if k < 37 {
                assert(g[k] == f[k]);
                if k < 34 {
                    assert(f[k] == e[k]);
                    if k < 28 {
                        assert(e[k] == d[k]);
                        if k < 25 {
                            assert(d[k] == c[k]);
                            if k < 17 {
                                assert(c[k] == b[k]);
                                if k < 14 {
                                    assert(b[k] == a[k]);
                                }
                            }
                        }
                    }
                }
            }
        }
    }
}

/// The six-bit value that packs the low bit pairs of `a`, `b` and `c`, as the
/// encoder computes it, is the one that `six_bit` names, and fits in six bits.
proof fn lemma_low_bits(a: u8, b: u8, c: u8)
    by (bit_vector)
    ensures
        (((a & 0x01) << 1) | ((a & 0x02) >> 1) | ((b & 0x01) << 3) | ((b & 0x02) << 1) | ((c
            & 0x01) << 5) | ((c & 0x02) << 3)) == (((a & 0x01) << 1) | ((a & 0x02) >> 1)) | ((((b
            & 0x01) << 1) | ((b & 0x02) >> 1)) << 2) | ((((c & 0x01) << 1) | ((c & 0x02) >> 1))
            << 4),
        (((a & 0x01) << 1) | ((a & 0x02) >> 1) | ((b & 0x01) << 3) | ((b & 0x02) << 1) | ((c
            & 0x01) << 5) | ((c & 0x02) << 3)) < 64,
{
}

proof fn lemma_six_bits(a: u8, b: u8)
    by (bit_vector)
    ensures
        a >> 2 < 64,
        a < 64 && b < 64 ==> a ^ b < 64,
        a ^ 0 == a,
        0 ^ a == a,
{
}

/// Every six-bit value fits in six bits.
pub proof fn lemma_six_bit_range(payload: Seq<u8>, i: int)
    ensures
        six_bit(payload, i) < 64,
        (six_bit(payload, i) ^ six_bit(payload, i - 1)) < 64,
{
    lemma_six_bit_one(payload, i);
    lemma_six_bit_one(payload, i - 1);
    lemma_six_bits(six_bit(payload, i), six_bit(payload, i - 1));
}

proof fn lemma_six_bit_one(payload: Seq<u8>, i: int)
    ensures
        six_bit(payload, i) < 64,
{
    if 0 <= i < 86 {
        lemma_low_bits(padded(payload, i), padded(payload, i + 86), padded(payload, i + 172));
    } else if 86 <= i < 342 {
        lemma_six_bits(padded(payload, i - 86), 0);
    }
}

/// Encodes a 256-byte sector as the 383 raw bytes of its address field and
/// data field.
pub fn nibblizeSector(vol: u8, trk: u8, sector: u8, bytes: &[u8]) -> (result: Vec<u8>)
    requires
        bytes@.len() == SECTOR_SIZE,
    ensures
        result@ == nibblized_sector(vol, trk, sector, bytes@),
        result@.len() == RAW_SECTOR_SIZE,
{
    // The address block: each of volume, track, sector and their
    // exclusive-or as two disk bytes.
    let chksum = vol ^ trk ^ sector;
    let address_block: [u8; 8] = [
        (vol >> 1) | 0xaa,
        vol | 0xaa,
        (trk >> 1) | 0xaa,
        trk | 0xaa,
        (sector >> 1) | 0xaa,
        sector | 0xaa,
        (chksum >> 1) | 0xaa,
        chksum | 0xaa,
    ];
    assert(address_block@ =~= self::address_block(vol, trk, sector));

    // Two zero bytes bring the payload up to a multiple of three.
    let mut sector_buffer: Vec<u8> = Vec::with_capacity(SECTOR_SIZE + 2);
    sector_buffer.extend_from_slice(bytes);
    sector_buffer.push(0);
    sector_buffer.push(0);
    assert(sector_buffer@.len() == 258);
    assert(forall|j: int| 0 <= j < 258 ==> sector_buffer@[j] == padded(bytes@, j));

    // The first 86 disk bytes carry the bottom two bits of every payload
    // byte, three pairs to a six-bit value:
    //
    //   bit 0 = byte n,       bit 1      bit 1 = byte n,       bit 0
    //   bit 2 = byte n + 86,  bit 1      bit 3 = byte n + 86,  bit 0
    //   bit 4 = byte n + 172, bit 1      bit 5 = byte n + 172, bit 0
    //
    // Each value is exclusive-ored with the one before it, so what is
    // written is a running checksum.
    let mut prev_value: u8 = 0;
    let mut value: u8 = 0;
    let mut data_block: Vec<u8> = Vec::with_capacity(343);
    let mut i: usize = 0;
    while i < 86
        invariant
            i <= 86,
            sector_buffer@.len() == 258,
            forall|j: int| 0 <= j < 258 ==> sector_buffer@[j] == padded(bytes@, j),
            data_block@.len() == i,
            forall|j: int| 0 <= j < i ==> data_block@[j] == data_byte(bytes@, j),
            prev_value == six_bit(bytes@, i - 1),
        decreases 86 - i,
    {
        value = (sector_buffer[i] & 0x01) << 1;
        value |= (sector_buffer[i] & 0x02) >> 1;
        value |= (sector_buffer[i + 86] & 0x01) << 3;
        value |= (sector_buffer[i + 86] & 0x02) << 1;
        value |= (sector_buffer[i + 172] & 0x01) << 5;
        value |= (sector_buffer[i + 172] & 0x02) << 3;
        proof {
            lemma_low_bits(
                sector_buffer@[i as int],
                sector_buffer@[i + 86],
                sector_buffer@[i + 172],
            );
            lemma_six_bit_range(bytes@, i as int);
            assert(value == six_bit(bytes@, i as int));
        }
        data_block.push(BYTE_TRANSLATION[(value ^ prev_value) as usize]);
        prev_value = value;
        i += 1;
    }

    // The last 256 disk bytes carry the top six bits of every payload byte,
    // in the same running exclusive-or.
    let mut i: usize = 0;
    while i < 256
        invariant
            i <= 256,
            sector_buffer@.len() == 258,
            forall|j: int| 0 <= j < 258 ==> sector_buffer@[j] == padded(bytes@, j),
            data_block@.len() == 86 + i,
            forall|j: int| 0 <= j < 86 + i ==> data_block@[j] == data_byte(bytes@, j),
            prev_value == six_bit(bytes@, 86 + i - 1),
        decreases 256 - i,
    {
        value = sector_buffer[i] >> 2;
        proof {
            lemma_six_bit_range(bytes@, 86 + i);
            assert(value == six_bit(bytes@, 86 + i));
        }
        data_block.push(BYTE_TRANSLATION[(value ^ prev_value) as usize]);
        prev_value = value;
        i += 1;
    }

    // The last value once more, as the checksum.
    proof {
        lemma_six_bit_range(bytes@, 342);
        lemma_six_bits(prev_value, 0);
    }
    let checksum = BYTE_TRANSLATION[prev_value as usize];
    data_block.push(checksum);
    assert(data_block@ =~= self::data_block(bytes@));

    let mut result: Vec<u8> = Vec::with_capacity(RAW_SECTOR_SIZE);
    push_sync(&mut result, 14);
    result.push(0xd5);
    result.push(0xaa);
    result.push(0x96);
    assert(result@ =~= sync_bytes(14) + address_prologue());
    result.extend_from_slice(address_block.as_slice());
    assert(result@ =~= sync_bytes(14) + address_prologue() + self::address_block(vol, trk, sector));
    result.push(0xde);
    result.push(0xaa);
    result.push(0xeb);
    assert(result@ =~= sync_bytes(14) + address_prologue() + self::address_block(vol, trk, sector)
        + epilogue());
    let ghost front = result@;
    push_sync(&mut result, 6);
    result.push(0xd5);
    result.push(0xaa);
    result.push(0xad);
    assert(result@ =~= front + sync_bytes(6) + data_prologue());
    result.extend_from_slice(data_block.as_slice());
    assert(result@ =~= front + sync_bytes(6) + data_prologue() + self::data_block(bytes@));
    result.push(0xde);
    result.push(0xaa);
    result.push(0xeb);
    assert(result@ =~= front + sync_bytes(6) + data_prologue() + self::data_block(bytes@)
        + epilogue());
    proof {
        lemma_sector_layout(vol, trk, sector, bytes@);
    }
    result
}

/// Appends `n` sync bytes.
fn push_sync(out: &mut Vec<u8>, n: usize)
    ensures
        final(out)@ == old(out)@ + sync_bytes(n as nat),
{
    let mut i: usize = 0;
    while i < n
        invariant
            i <= n,
            out@ == old(out)@ + sync_bytes(i as nat),
        decreases n - i,
    {
        out.push(0xff);
        i += 1;
        assert(out@ =~= old(out)@ + sync_bytes(i as nat));
    }
}

proof fn lemma_sector_start(position: usize)
    by (bit_vector)
    requires
        position < 16,
    ensures
        position << 8 == position * 256,
{
}

/// Encodes track `trk` of a disk image as the 6656 raw bytes of that track.
pub fn nibblizeTrack(vol: u8, trk: u8, disk: &Vec<Vec<u8>>) -> (track: Vec<u8>)
    requires
        is_disk_image(disk@),
        trk < NUM_TRACKS,
    ensures
        track@ == nibblized_track(vol, trk, disk@[trk as int]@),
        track@.len() == RAW_TRACK_SIZE,
{
    let image: &Vec<u8> = &disk[trk as usize];
    let mut arr: Vec<u8> = Vec::with_capacity(RAW_SECTOR_SIZE * SECTORS_PER_TRACK);
    let mut sector: usize = 0;
    while sector < SECTORS_PER_TRACK
        invariant
            sector <= SECTORS_PER_TRACK,
            image@.len() == TRACK_IMAGE_SIZE,
            arr@.len() == sector * 383,
            forall|i: int|
                0 <= i < sector * 383 ==> arr@[i] == #[trigger] nibblized_track(
                    vol,
                    trk,
                    image@,
                )[i],
        decreases SECTORS_PER_TRACK - sector,
    {
        let logical: usize = SKEWING_TABLE[sector] as usize;
        assert(logical < 16);
        proof {
            lemma_sector_start(logical);
        }
        let startindex = logical << 8;
        let mut raw = nibblizeSector(
            vol,
            trk,
            sector as u8,
            slice_subrange(image.as_slice(), startindex, startindex + 256),
        );
        let ghost before = arr@;
        arr.append(&mut raw);
        assert forall|i: int| 0 <= i < (sector + 1) * 383 implies arr@[i]
            == #[trigger] nibblized_track(vol, trk, image@)[i] by {
            if i >= sector * 383 {
                assert(i / 383 == sector && i % 383 == i - sector * 383) by (nonlinear_arith)
                    requires
                        sector * 383 <= i < (sector + 1) * 383,
                ;
                assert(arr@[i] == physical_sector(vol, trk, image@, sector as int)[i - sector
                    * 383]);
            } else {
                assert(arr@[i] == before[i]);
            }
        }
        sector += 1;
    }
    let mut fixarr: Vec<u8> = vec![0xff_u8; RAW_TRACK_SIZE];
    let mut i: usize = 0;
    while i < arr.len()
        invariant
            i <= arr@.len(),
            arr@.len() == 16 * 383,
            fixarr@.len() == RAW_TRACK_SIZE,
            forall|j: int| 0 <= j < i ==> fixarr@[j] == arr@[j],
            forall|j: int| i <= j < RAW_TRACK_SIZE ==> fixarr@[j] == 0xff,
        decreases arr@.len() - i,
    {
        fixarr[i] = arr[i];
        i += 1;
    }
    assert(fixarr@ =~= nibblized_track(vol, trk, image@));
    fixarr
}

} // verus!
