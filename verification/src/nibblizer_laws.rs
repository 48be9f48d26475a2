//! What holds of every raw sector and track: where the prologues stand,
//! which bytes a data block is made of, that its checksum holds, and that
//! the sector it was made from can be read back from it.
use vstd::prelude::*;
use crate::nibblizer::address_block;
use crate::nibblizer::address_prologue;
use crate::nibblizer::data_block;
use crate::nibblizer::data_prologue;
use crate::nibblizer::four_and_four;
use crate::nibblizer::lemma_sector_layout;
use crate::nibblizer::lemma_six_bit_range;
use crate::nibblizer::logical_sector;
use crate::nibblizer::nibblized_sector;
use crate::nibblizer::nibblized_track;
use crate::nibblizer::padded;
use crate::nibblizer::physical_sector;
use crate::nibblizer::six_bit;
use crate::nibblizer::swapped_pair;
use crate::nibblizer::BYTE_TRANSLATION;
use crate::nibblizer::SKEWING_TABLE;
use crate::nibblizer::TRACK_IMAGE_SIZE;

verus! {

/// Whether `b` is one of the 64 bytes that a drive can read back.
pub open spec fn is_disk_byte(b: u8) -> bool {
    exists|v: int| 0 <= v < 64 && #[trigger] BYTE_TRANSLATION[v] == b
}

/// The six-bit value that a disk byte stands for.
pub open spec fn untranslate(b: u8) -> int {
    choose|v: int| 0 <= v < 64 && #[trigger] BYTE_TRANSLATION[v] == b
}

/// The six-bit values that the bytes of a data block stand for.
pub open spec fn decoded(block: Seq<u8>) -> Seq<u8> {
    Seq::new(block.len(), |i: int| untranslate(block[i]) as u8)
}

/// The exclusive-or of all values of a sequence.
pub open spec fn xor_fold(values: Seq<u8>) -> u8
    decreases values.len(),
{
    if values.len() == 0 {
        0
    } else {
        xor_fold(values.drop_last()) ^ values.last()
    }
}

/// Whether `pattern` stands in `stream` at offset `i`.
pub open spec fn occurs_at(stream: Seq<u8>, pattern: Seq<u8>, i: int) -> bool {
    &&& 0 <= i
    &&& i + pattern.len() <= stream.len()
    &&& stream.subrange(i, i + pattern.len()) == pattern
}

/// The offsets at which `pattern` stands in `stream`.
pub open spec fn occurrences(stream: Seq<u8>, pattern: Seq<u8>) -> Set<int> {
    Set::new(|i: int| occurs_at(stream, pattern, i))
}

/// The offsets of the track at which the field that starts `at` bytes into a
/// sector begins.
pub open spec fn field_starts(at: int) -> Set<int> {
    Set::new(|i: int| 0 <= i < 16 * 383 && i % 383 == at)
}

/// The translation table is strictly increasing.
proof fn lemma_translation_increasing(v: int, w: int)
    requires
        0 <= v < w < 64,
    ensures
        BYTE_TRANSLATION[v] < BYTE_TRANSLATION[w],
    decreases w - v,
{
    if v + 1 < w {
        lemma_translation_increasing(v, w - 1);
    }
    assert(BYTE_TRANSLATION[w - 1] < BYTE_TRANSLATION[w]);
}

/// Translation can be undone: no two six-bit values share a disk byte.
pub proof fn lemma_untranslate(v: int)
    requires
        0 <= v < 64,
    ensures
        is_disk_byte(BYTE_TRANSLATION[v]),
        untranslate(BYTE_TRANSLATION[v]) == v,
{
    let w = untranslate(BYTE_TRANSLATION[v]);
    if w < v {
        lemma_translation_increasing(w, v);
    } else if v < w {
        lemma_translation_increasing(v, w);
    }
}

/// No disk byte is `D5` or `AA`: the two bytes that open every prologue are
/// reserved.
pub proof fn lemma_reserved_bytes(v: int)
    requires
        0 <= v < 64,
    ensures
        BYTE_TRANSLATION[v] != 0xd5,
        BYTE_TRANSLATION[v] != 0xaa,
{
    // 0xaa lies between the disk bytes for 8 and 9, 0xd5 between those for
    // 31 and 32
    if v < 8 {
        lemma_translation_increasing(v, 8);
    } else if 9 < v < 31 {
        lemma_translation_increasing(9, v);
        lemma_translation_increasing(v, 31);
    } else if 32 < v {
        lemma_translation_increasing(32, v);
    }
}

/// A raw sector is 383 bytes long and a raw track 6656.
pub proof fn lemma_raw_sizes(vol: u8, trk: u8, sector: u8, payload: Seq<u8>, image: Seq<u8>)
    ensures
        nibblized_sector(vol, trk, sector, payload).len() == 383,
        nibblized_track(vol, trk, image).len() == 6656,
{
    lemma_sector_layout(vol, trk, sector, payload);
}

/// Every byte of a data block is one of the 64 disk bytes.
pub proof fn lemma_data_block_bytes(payload: Seq<u8>, i: int)
    requires
        0 <= i < 343,
    ensures
        is_disk_byte(data_block(payload)[i]),
{
    lemma_six_bit_range(payload, i);
    lemma_untranslate((six_bit(payload, i) ^ six_bit(payload, i - 1)) as int);
}

proof fn lemma_xor_step(a: u8, b: u8)
    by (bit_vector)
    ensures
        a ^ (b ^ a) == b,
{
}

/// The exclusive-or of the first `k` decoded bytes of a data block is the
/// six-bit value written last.
proof fn lemma_running_xor(payload: Seq<u8>, k: int)
    requires
        0 <= k <= 343,
    ensures
        xor_fold(decoded(data_block(payload)).take(k)) == six_bit(payload, k - 1),
    decreases k,
{
    let values = decoded(data_block(payload));
    if k > 0 {
        lemma_running_xor(payload, k - 1);
        assert(values.take(k).drop_last() =~= values.take(k - 1));
        lemma_six_bit_range(payload, k - 1);
        let x = six_bit(payload, k - 1) ^ six_bit(payload, k - 2);
        lemma_untranslate(x as int);
        assert(values.take(k).last() == x);
        lemma_xor_step(six_bit(payload, k - 2), six_bit(payload, k - 1));
    }
}

/// The byte that two 4-and-4 disk bytes stand for.
pub open spec fn four_and_four_value(odd: u8, even: u8) -> u8 {
    ((odd << 1) | 0x01) & even
}

proof fn lemma_four_and_four_value(b: u8)
    by (bit_vector)
    ensures
        ((((b >> 1) | 0xaa) << 1) | 0x01) & (b | 0xaa) == b,
{
}

proof fn lemma_xor_cancels(a: u8, b: u8, c: u8)
    by (bit_vector)
    ensures
        a ^ b ^ c ^ (a ^ b ^ c) == 0,
{
}

/// An address block gives back volume, track and sector, and its four values
/// cancel under exclusive-or.
pub proof fn lemma_address_block_round_trip(vol: u8, trk: u8, sector: u8)
    ensures
        ({
            let block = address_block(vol, trk, sector);
            let chk = four_and_four_value(block[6], block[7]);
            &&& block.len() == 8
            &&& four_and_four_value(block[0], block[1]) == vol
            &&& four_and_four_value(block[2], block[3]) == trk
            &&& four_and_four_value(block[4], block[5]) == sector
            &&& vol ^ trk ^ sector ^ chk == 0
        }),
{
    lemma_four_and_four_value(vol);
    lemma_four_and_four_value(trk);
    lemma_four_and_four_value(sector);
    lemma_four_and_four_value(vol ^ trk ^ sector);
    lemma_xor_cancels(vol, trk, sector);
}

/// The six-bit value at place `i` of a data block, read back: the
/// exclusive-or of what its bytes up to there stand for.
pub open spec fn read_back(block: Seq<u8>, i: int) -> u8 {
    xor_fold(decoded(block).take(i + 1))
}

/// Byte `i` of the sector that a data block carries: its upper six bits from
/// the six-bit value that holds them, its lower two from their place in one
/// of the first 86.
pub open spec fn carried_byte(block: Seq<u8>, i: int) -> u8 {
    let high = read_back(block, 86 + i);
    let pairs = read_back(block, i % 86);
    let pair = (pairs >> ((2 * (i / 86)) as u8)) & 0x03;
    (high << 2) | swapped_pair(pair)
}

/// The 256 bytes that a data block carries.
pub open spec fn carried_sector(block: Seq<u8>) -> Seq<u8> {
    Seq::new(256, |i: int| carried_byte(block, i))
}

proof fn lemma_pairs(a: u8, b: u8, c: u8)
    by (bit_vector)
    ensures
        ({
            let sa = ((a & 0x01) << 1) | ((a & 0x02) >> 1);
            let sb = ((b & 0x01) << 1) | ((b & 0x02) >> 1);
            let sc = ((c & 0x01) << 1) | ((c & 0x02) >> 1);
            let v = sa | (sb << 2) | (sc << 4);
            let pa = (v >> 0u8) & 0x03;
            let pb = (v >> 2u8) & 0x03;
            let pc = (v >> 4u8) & 0x03;
            &&& ((a >> 2) << 2) | (((pa & 0x01) << 1) | ((pa & 0x02) >> 1)) == a
            &&& ((b >> 2) << 2) | (((pb & 0x01) << 1) | ((pb & 0x02) >> 1)) == b
            &&& ((c >> 2) << 2) | (((pc & 0x01) << 1) | ((pc & 0x02) >> 1)) == c
        }),
{
}

/// Nothing is lost: a data block carries the sector that it was made from.
pub proof fn lemma_data_block_round_trip(payload: Seq<u8>)
    requires
        payload.len() == 256,
    ensures
        carried_sector(data_block(payload)) == payload,
{
    let block = data_block(payload);
    assert forall|i: int| 0 <= i < 256 implies carried_byte(block, i) == payload[i] by {
        let j = i % 86;
        lemma_running_xor(payload, 86 + i + 1);
        lemma_running_xor(payload, j + 1);
        assert(read_back(block, 86 + i) == payload[i] >> 2);
        assert(read_back(block, j) == six_bit(payload, j));
        lemma_pairs(padded(payload, j), padded(payload, j + 86), padded(payload, j + 172));
        if i < 86 {
            assert(i / 86 == 0 && j == i);
        } else if i < 172 {
            assert(i / 86 == 1 && j == i - 86);
        } else {
            assert(i / 86 == 2 && j == i - 172);
        }
    }
    assert(carried_sector(block) =~= payload);
}

/// The data checksum holds: the six-bit values that the 343 bytes of a data
/// block stand for cancel under exclusive-or.
pub proof fn lemma_data_checksum(payload: Seq<u8>)
    ensures
        xor_fold(decoded(data_block(payload))) == 0,
{
    lemma_running_xor(payload, 343);
    assert(decoded(data_block(payload)).take(343) =~= decoded(data_block(payload)));
}

proof fn lemma_four_and_four(b: u8)
    by (bit_vector)
    ensures
        (b >> 1) | 0xaa != 0xd5,
        b | 0xaa != 0xd5,
{
}

/// `D5` stands in a raw sector at the start of its two prologues and nowhere
/// else.
proof fn lemma_sector_marks(vol: u8, trk: u8, sector: u8, payload: Seq<u8>, k: int)
    requires
        0 <= k < 383,
    ensures
        nibblized_sector(vol, trk, sector, payload)[k] == 0xd5 <==> (k == 14 || k == 34),
        k == 14 ==> nibblized_sector(vol, trk, sector, payload).subrange(14, 17)
            == address_prologue(),
        k == 34 ==> nibblized_sector(vol, trk, sector, payload).subrange(34, 37)
            == data_prologue(),
{
    lemma_sector_layout(vol, trk, sector, payload);
    let s = nibblized_sector(vol, trk, sector, payload);
    if 17 <= k < 25 {
        lemma_four_and_four(vol);
        lemma_four_and_four(trk);
        lemma_four_and_four(sector);
        lemma_four_and_four(vol ^ trk ^ sector);
    } else if 37 <= k < 380 {
        lemma_six_bit_range(payload, k - 37);
        lemma_reserved_bytes((six_bit(payload, k - 37) ^ six_bit(payload, k - 38)) as int);
    } else if k == 14 {
        assert(s.subrange(14, 17) =~= address_prologue());
    } else if k == 34 {
        assert(s.subrange(34, 37) =~= data_prologue());
    }
}

/// Byte `i` of a raw track is byte `i % 383` of the sector at position
/// `i / 383`.
proof fn lemma_track_byte(vol: u8, trk: u8, image: Seq<u8>, i: int)
    requires
        0 <= i < 16 * 383,
    ensures
        0 <= i / 383 < 16,
        0 <= i % 383 < 383,
        nibblized_track(vol, trk, image)[i] == physical_sector(vol, trk, image, i / 383)[i % 383],
{
}

/// `D5` stands in a raw track at the start of the prologues and nowhere else.
proof fn lemma_track_marks(vol: u8, trk: u8, image: Seq<u8>, i: int)
    requires
        0 <= i < 6656,
    ensures
        nibblized_track(vol, trk, image)[i] == 0xd5 <==> (i < 16 * 383 && (i % 383 == 14 || i % 383
            == 34)),
        i < 16 * 383 && i % 383 == 14 ==> occurs_at(
            nibblized_track(vol, trk, image),
            address_prologue(),
            i,
        ),
        i < 16 * 383 && i % 383 == 34 ==> occurs_at(
            nibblized_track(vol, trk, image),
            data_prologue(),
            i,
        ),
{
    if i < 16 * 383 {
        let p = i / 383;
        let k = i % 383;
        let track = nibblized_track(vol, trk, image);
        let s = physical_sector(vol, trk, image, p);
        lemma_track_byte(vol, trk, image, i);
        lemma_sector_marks(vol, trk, p as u8, logical_sector(image, SKEWING_TABLE[p] as int), k);
        lemma_sector_layout(vol, trk, p as u8, logical_sector(image, SKEWING_TABLE[p] as int));
        if k == 14 || k == 34 {
            lemma_track_byte(vol, trk, image, i + 1);
            lemma_track_byte(vol, trk, image, i + 2);
            assert((i + 1) / 383 == p && (i + 1) % 383 == k + 1);
            assert((i + 2) / 383 == p && (i + 2) % 383 == k + 2);
            assert(track.subrange(i, i + 3) =~= s.subrange(k, k + 3));
        }
    }
}

/// The address prologue `D5 AA 96` stands in a raw track sixteen times, once
/// at the head of each sector's address field, and so does the data prologue
/// `D5 AA AD`, at the head of each data field, whatever the track holds.
pub proof fn lemma_prologues(vol: u8, trk: u8, image: Seq<u8>)
    ensures
        occurrences(nibblized_track(vol, trk, image), address_prologue()) == field_starts(14),
        occurrences(nibblized_track(vol, trk, image), data_prologue()) == field_starts(34),
        field_starts(14).finite() && field_starts(14).len() == 16,
        field_starts(34).finite() && field_starts(34).len() == 16,
{
    let track = nibblized_track(vol, trk, image);
    assert forall|i: int| occurs_at(track, address_prologue(), i) <==> field_starts(14).contains(
        i,
    ) by {
        if 0 <= i < 6656 {
            lemma_track_marks(vol, trk, image, i);
            if occurs_at(track, address_prologue(), i) {
                assert(track.subrange(i, i + 3)[0] == 0xd5);
                assert(track.subrange(i, i + 3)[2] == 0x96);
                if i % 383 == 34 {
                    assert(track.subrange(i, i + 3) == data_prologue());
                }
            }
        }
    }
    assert forall|i: int| occurs_at(track, data_prologue(), i) <==> field_starts(34).contains(
        i,
    ) by {
        if 0 <= i < 6656 {
            lemma_track_marks(vol, trk, image, i);
            if occurs_at(track, data_prologue(), i) {
                assert(track.subrange(i, i + 3)[0] == 0xd5);
                assert(track.subrange(i, i + 3)[2] == 0xad);
                if i % 383 == 14 {
                    assert(track.subrange(i, i + 3) == address_prologue());
                }
            }
        }
    }
    assert(occurrences(track, address_prologue()) =~= field_starts(14));
    assert(occurrences(track, data_prologue()) =~= field_starts(34));
    lemma_field_starts(14);
    lemma_field_starts(34);
}

/// The offsets `at`, `at + 383`, ... below `n * 383`.
spec fn starts_below(at: int, n: int) -> Set<int> {
    Set::new(|i: int| 0 <= i < n * 383 && i % 383 == at)
}

proof fn lemma_starts_below(at: int, n: int)
    requires
        0 <= at < 383,
        0 <= n,
    ensures
        starts_below(at, n).finite(),
        starts_below(at, n).len() == n,
    decreases n,
{
    if n == 0 {
        assert(starts_below(at, 0) =~= Set::empty());
    } else {
        lemma_starts_below(at, n - 1);
        let last = (n - 1) * 383 + at;
        assert(last % 383 == at) by (nonlinear_arith)
            requires
                last == (n - 1) * 383 + at,
                0 <= at < 383,
                n >= 1,
        ;
        assert forall|i: int| starts_below(at, n).contains(i) <==> starts_below(at, n - 1).insert(
            last,
        ).contains(i) by {
            if (n - 1) * 383 <= i < n * 383 && i % 383 == at {
                assert(i == last) by (nonlinear_arith)
                    requires
                        (n - 1) * 383 <= i < n * 383,
                        i % 383 == at,
                        last == (n - 1) * 383 + at,
                        0 <= at < 383,
                        n >= 1,
                ;
            }
        }
        assert(starts_below(at, n) =~= starts_below(at, n - 1).insert(last));
    }
}

/// Each field begins at sixteen offsets of the track.
proof fn lemma_field_starts(at: int)
    requires
        0 <= at < 383,
    ensures
        field_starts(at).finite(),
        field_starts(at).len() == 16,
{
    lemma_starts_below(at, 16);
    assert(field_starts(at) =~= starts_below(at, 16));
}

/// The data block of the sector at a physical position of a raw track.
pub open spec fn data_field(track: Seq<u8>, position: int) -> Seq<u8> {
    track.subrange(position * 383 + 37, position * 383 + 380)
}

/// The address block of the sector at a physical position of a raw track.
pub open spec fn address_field(track: Seq<u8>, position: int) -> Seq<u8> {
    track.subrange(position * 383 + 17, position * 383 + 25)
}

/// The position of the track at which a logical sector is found.
pub open spec fn position_of(logical: int) -> int {
    choose|p: int| 0 <= p < 16 && #[trigger] SKEWING_TABLE[p] == logical
}

/// Every logical sector has its place on the track, and one only.
pub proof fn lemma_skewing_is_a_permutation(logical: int)
    requires
        0 <= logical < 16,
    ensures
        0 <= position_of(logical) < 16,
        SKEWING_TABLE[position_of(logical)] == logical,
        forall|p: int|
            0 <= p < 16 && #[trigger] SKEWING_TABLE[p] == logical ==> p == position_of(logical),
{
    let p = if logical == 0 || logical == 15 {
        logical
    } else {
        (logical * 13) % 15
    };
    assert(SKEWING_TABLE[p] == logical);
}

/// A raw track gives its track image back: at every position the address
/// field names volume, track and position, and the data field carries the
/// logical sector that belongs there.
pub proof fn lemma_track_round_trip(vol: u8, trk: u8, image: Seq<u8>, position: int)
    requires
        image.len() == TRACK_IMAGE_SIZE,
        0 <= position < 16,
    ensures
        address_field(nibblized_track(vol, trk, image), position) == address_block(
            vol,
            trk,
            position as u8,
        ),
        carried_sector(data_field(nibblized_track(vol, trk, image), position)) == logical_sector(
            image,
            SKEWING_TABLE[position] as int,
        ),
{
    let track = nibblized_track(vol, trk, image);
    let payload = logical_sector(image, SKEWING_TABLE[position] as int);
    lemma_sector_layout(vol, trk, position as u8, payload);
    assert forall|k: int| 0 <= k < 383 implies #[trigger] track[position * 383 + k]
        == nibblized_sector(vol, trk, position as u8, payload)[k] by {
        let i = position * 383 + k;
        assert(i / 383 == position && i % 383 == k) by (nonlinear_arith)
            requires
                i == position * 383 + k,
                0 <= k < 383,
                0 <= position,
        ;
    }
    assert(address_field(track, position) =~= address_block(vol, trk, position as u8)) by {
        assert forall|j: int| 0 <= j < 8 implies address_field(track, position)[j] == address_block(
            vol,
            trk,
            position as u8,
        )[j] by {
            assert(address_field(track, position)[j] == track[position * 383 + (17 + j)]);
        }
    }
    assert(data_field(track, position) =~= data_block(payload)) by {
        assert forall|j: int| 0 <= j < 343 implies data_field(track, position)[j] == data_block(
            payload,
        )[j] by {
            assert(data_field(track, position)[j] == track[position * 383 + (37 + j)]);
        }
    }
    lemma_data_block_round_trip(payload);
}

} // verus!
