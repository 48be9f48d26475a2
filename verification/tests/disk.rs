use apple2::a2::AppleII;
use apple2::a2::ImageError;
use apple2::a2::Peripheral;
use apple2::diskii::DiskController;
use apple2::diskii::PROM;
use apple2::mem::Mem;
use apple2::nibblizer::nibblizeTrack;
use apple2::util::Xorshift;

/// An image whose every track is filled with bytes of its own.
fn image() -> Vec<u8> {
    (0..143360usize).map(|i| ((i / 4096) as u8).wrapping_mul(7) ^ (i as u8)).collect()
}

fn raw_track(image: &[u8], track: usize) -> Vec<u8> {
    let disk: Vec<Vec<u8>> = image.chunks(4096).map(|t| t.to_vec()).collect();
    nibblizeTrack(254, track as u8, &disk)
}

fn loaded() -> DiskController {
    let mut dc = DiskController::new();
    assert_eq!(dc.load_disk(0, &image()), Ok(()));
    dc
}

#[test]
fn test_a2() {
    let mut a2: AppleII<DiskController> = AppleII::new();
    assert_eq!(a2.read_roms(&vec![0xea; 0x3000]), Ok(()));
    let mut dc = DiskController::new();
    assert_eq!(dc.load_disk(0, &vec![0u8; 143360]), Ok(()));
    assert!(dc.has_disk(0));
    a2.set_slot(6, dc);
    // what the boot PROM does first: motor on, drive 1, read mode, then
    // it waits for the address prologue
    assert_eq!(a2.loadb(0xc600), 0xa2);
    a2.loadb(0xc0e9);
    a2.loadb(0xc0ea);
    a2.loadb(0xc0ee);
    let mut seen = Vec::new();
    for _ in 0..10 * 1000 {
        seen.push(a2.loadb(0xc0ec));
    }
    assert_eq!(seen[0], 0xff);
    assert!(seen.windows(3).any(|w| w == [0xd5, 0xaa, 0x96]));
}

#[test]
fn controller_at_power_on() {
    let mut dc = DiskController::new();
    assert!(!dc.has_disk(0));
    assert!(!dc.has_disk(1));
    assert_eq!(dc.half_track(0), None);
    // every switch shows 0
    for switch in 0..16u16 {
        assert_eq!(dc.doIO(0xc0e0 + switch, 0x5a), 0, "switch {:x}", switch);
    }
}

#[test]
fn disk_of_wrong_size_is_refused() {
    let mut dc = DiskController::new();
    assert_eq!(dc.load_disk(0, &vec![0u8; 143359]), Err(ImageError::BadDiskSize));
    assert_eq!(dc.load_disk(1, &vec![0u8; 143361]), Err(ImageError::BadDiskSize));
    assert_eq!(dc.load_disk(0, &[]), Err(ImageError::BadDiskSize));
    assert!(!dc.has_disk(0));
    assert!(!dc.has_disk(1));
    // a drive keeps its disk when another image is refused
    assert_eq!(dc.load_disk(1, &image()), Ok(()));
    dc.doIO(0xc0eb, 0);
    dc.doIO(0xc0e3, 0);
    assert_eq!(dc.load_disk(1, &vec![0u8; 10]), Err(ImageError::BadDiskSize));
    assert!(dc.has_disk(1));
    assert_eq!(dc.half_track(1), Some(1));
}

#[test]
fn a_fresh_disk_starts_at_track_0() {
    let mut dc = loaded();
    assert!(dc.has_disk(0));
    assert!(!dc.has_disk(1));
    assert_eq!(dc.half_track(0), Some(0));
    let track = raw_track(&image(), 0);
    dc.doIO(0xc0ee, 0);
    // the first read shows byte 1 of the track
    for i in 1..=400usize {
        assert_eq!(dc.doIO(0xc0ec, 0), track[i], "byte {}", i);
    }
}

#[test]
fn latch_reads_sync_then_prologue() {
    let mut a2: AppleII<DiskController> = AppleII::new();
    let mut dc = DiskController::new();
    assert_eq!(dc.load_disk(0, &vec![0u8; 143360]), Ok(()));
    a2.set_slot(6, dc);
    for switch in [0xc0e8u16, 0xc0e9, 0xc0ea, 0xc0ee] {
        a2.loadb(switch);
    }
    let bytes: Vec<u8> = (0..40).map(|_| a2.loadb(0xc0ec)).collect();
    assert!(bytes[..13].iter().all(|&b| b == 0xff));
    assert_eq!(&bytes[13..16], &[0xd5, 0xaa, 0x96]);
    // volume 254, track 0, sector 0
    assert_eq!(&bytes[16..24], &[0xff, 0xfe, 0xaa, 0xaa, 0xaa, 0xaa, 0xff, 0xfe]);
    assert_eq!(&bytes[24..27], &[0xde, 0xaa, 0xeb]);
    assert_eq!(&bytes[33..36], &[0xd5, 0xaa, 0xad]);
}

#[test]
fn the_track_goes_round() {
    let mut dc = loaded();
    let track = raw_track(&image(), 0);
    dc.doIO(0xc0ee, 0);
    for _ in 0..6655 {
        dc.doIO(0xc0ec, 0);
    }
    // read 6656 is byte 0, read 6657 byte 1 again
    assert_eq!(dc.doIO(0xc0ec, 0), track[0]);
    assert_eq!(dc.doIO(0xc0ec, 0), track[1]);
}

#[test]
fn four_phases_step_to_track_2() {
    let mut dc = loaded();
    // phase 1, phase 2, phase 3, phase 0
    for switch in [0xc0e3u16, 0xc0e5, 0xc0e7, 0xc0e1] {
        assert_eq!(dc.doIO(switch, 0), 0);
    }
    assert_eq!(dc.half_track(0), Some(4));
    let track = raw_track(&image(), 2);
    dc.doIO(0xc0ee, 0);
    assert_eq!(dc.doIO(0xc0ec, 0), track[1]);
    assert_eq!(dc.doIO(0xc0ec, 0), track[2]);
}

#[test]
fn head_steps_one_half_track_at_a_time() {
    let mut dc = loaded();
    let on = |phase: u16| 0xc0e1 + 2 * phase;
    // a phase that is not next to the head does not move it
    dc.doIO(on(0), 0);
    assert_eq!(dc.half_track(0), Some(0));
    dc.doIO(on(2), 0);
    assert_eq!(dc.half_track(0), Some(0));
    // at track 0 the phase behind the head finds the stop
    dc.doIO(on(3), 0);
    assert_eq!(dc.half_track(0), Some(0));
    dc.doIO(on(1), 0);
    assert_eq!(dc.half_track(0), Some(1));
    dc.doIO(on(2), 0);
    assert_eq!(dc.half_track(0), Some(2));
    // and back
    dc.doIO(on(1), 0);
    assert_eq!(dc.half_track(0), Some(1));
    dc.doIO(on(0), 0);
    assert_eq!(dc.half_track(0), Some(0));
    // turning a phase off moves nothing
    for switch in [0xc0e0u16, 0xc0e2, 0xc0e4, 0xc0e6] {
        dc.doIO(switch, 0);
        assert_eq!(dc.half_track(0), Some(0));
    }
}

#[test]
fn head_stops_at_the_last_half_track() {
    let mut dc = loaded();
    for t in 0..69u16 {
        dc.doIO(0xc0e1 + 2 * ((t + 1) % 4), 0);
        assert_eq!(dc.half_track(0), Some(usize::from(t) + 1));
    }
    assert_eq!(dc.half_track(0), Some(69));
    // phase 2 is ahead of half-track 69
    dc.doIO(0xc0e5, 0);
    assert_eq!(dc.half_track(0), Some(69));
    dc.doIO(0xc0e1, 0);
    assert_eq!(dc.half_track(0), Some(68));
    let track = raw_track(&image(), 34);
    dc.doIO(0xc0ee, 0);
    assert_eq!(dc.doIO(0xc0ec, 0), track[1]);
}

#[test]
fn between_tracks_there_is_noise() {
    let mut dc = loaded();
    dc.doIO(0xc0ee, 0);
    dc.doIO(0xc0e3, 0);
    assert_eq!(dc.half_track(0), Some(1));
    let mut rng = Xorshift::new();
    for _ in 0..8 {
        assert_eq!(dc.doIO(0xc0ec, 0), rng.next() as u8);
    }
    // the track went on under the head meanwhile
    dc.doIO(0xc0e5, 0);
    assert_eq!(dc.half_track(0), Some(2));
    let track = raw_track(&image(), 1);
    assert_eq!(dc.doIO(0xc0ec, 0), track[9]);
}

#[test]
fn latch_needs_read_mode() {
    let mut dc = loaded();
    let track = raw_track(&image(), 0);
    // at power-on the card is in write mode
    assert_eq!(dc.doIO(0xc0ec, 0), 0);
    assert_eq!(dc.doIO(0xc0ec, 0), 0);
    dc.doIO(0xc0ee, 0);
    // nothing moved meanwhile
    assert_eq!(dc.doIO(0xc0ec, 0), track[1]);
    dc.doIO(0xc0ef, 0);
    assert_eq!(dc.doIO(0xc0ec, 0), 0);
    dc.doIO(0xc0ee, 0);
    assert_eq!(dc.doIO(0xc0ec, 0), track[2]);
}

#[test]
fn writes_stay_on_the_track_under_the_head() {
    let mut dc = loaded();
    let track = raw_track(&image(), 0);
    // write mode: three bytes go to positions 1, 2, 3
    assert_eq!(dc.doIO(0xc0ed, 0xd5), 0);
    assert_eq!(dc.doIO(0xc0ed, 0xaa), 0);
    assert_eq!(dc.doIO(0xc0ed, 0xb5), 0);
    dc.doIO(0xc0ee, 0);
    // in read mode a write is not made and the track stays where it is
    assert_eq!(dc.doIO(0xc0ed, 0x00), 0);
    for _ in 0..6652 {
        dc.doIO(0xc0ec, 0);
    }
    assert_eq!(dc.doIO(0xc0ec, 0), track[0]);
    assert_eq!(dc.doIO(0xc0ec, 0), 0xd5);
    assert_eq!(dc.doIO(0xc0ec, 0), 0xaa);
    assert_eq!(dc.doIO(0xc0ec, 0), 0xb5);
    assert_eq!(dc.doIO(0xc0ec, 0), track[4]);
    // the disk itself is as it was: when the head comes back it is unchanged
    dc.doIO(0xc0e3, 0);
    dc.doIO(0xc0e1, 0);
    assert_eq!(dc.half_track(0), Some(0));
    for _ in 0..6652 {
        dc.doIO(0xc0ec, 0);
    }
    assert_eq!(dc.doIO(0xc0ec, 0), track[1]);
}

#[test]
fn write_protect_sense() {
    let mut dc = loaded();
    let track = raw_track(&image(), 0);
    assert_eq!(dc.doIO(0xc0ed, 0x11), 0);
    dc.set_write_protect(true);
    // protected: the sense shows it and nothing is written or moved
    assert_eq!(dc.doIO(0xc0ed, 0x22), 0x80);
    dc.doIO(0xc0ee, 0);
    assert_eq!(dc.doIO(0xc0ed, 0x33), 0x80);
    assert_eq!(dc.doIO(0xc0ec, 0), track[2]);
    dc.set_write_protect(false);
    assert_eq!(dc.doIO(0xc0ed, 0x44), 0);
    assert_eq!(dc.doIO(0xc0ec, 0), track[3]);
}

#[test]
fn drives_are_selected() {
    let mut dc = DiskController::new();
    assert_eq!(dc.load_disk(0, &image()), Ok(()));
    assert_eq!(dc.load_disk(1, &vec![0u8; 143360]), Ok(()));
    dc.doIO(0xc0ee, 0);
    dc.doIO(0xc0e3, 0);
    dc.doIO(0xc0e5, 0);
    assert_eq!(dc.half_track(0), Some(2));
    assert_eq!(dc.half_track(1), Some(0));
    dc.doIO(0xc0eb, 0);
    dc.doIO(0xc0e3, 0);
    assert_eq!(dc.half_track(0), Some(2));
    assert_eq!(dc.half_track(1), Some(1));
    dc.doIO(0xc0e1, 0);
    let zero = raw_track(&vec![0u8; 143360], 0);
    assert_eq!(dc.doIO(0xc0ec, 0), zero[1]);
    dc.doIO(0xc0ea, 0);
    let one = raw_track(&image(), 1);
    assert_eq!(dc.doIO(0xc0ec, 0), one[1]);
}

#[test]
fn switches_count_by_their_low_nibble() {
    let mut dc = loaded();
    // the card is told the whole address, whatever its slot
    dc.doIO(0xc093, 0);
    assert_eq!(dc.half_track(0), Some(1));
    dc.doIO(0x0005, 0);
    assert_eq!(dc.half_track(0), Some(2));
}

#[test]
fn boot_prom() {
    let mut dc = DiskController::new();
    assert_eq!(dc.doHighIO(0xc600, 0), 0xa2);
    assert_eq!(dc.doHighIO(0xc601, 0), 0x20);
    assert_eq!(dc.doHighIO(0xc6ff, 0), 0x00);
    assert_eq!(dc.doHighIO(0xc6fa, 0), 0x08);
    for i in 0..256u16 {
        assert_eq!(dc.doHighIO(0xc600 + i, 0xff), PROM[i as usize]);
        assert_eq!(dc.doHighIO(0xc100 + i, 0), PROM[i as usize]);
    }
    assert_eq!(&PROM[0x4c..0x50], &[0xa9, 0x00, 0xea, 0x88]);
}
