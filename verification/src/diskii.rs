//! The Disk II controller card with its two drives.
//!
//! A drive holds the raw tracks of its disk. The head stands on one of 70
//! half-track positions; on an even one it sees a track, on an odd one
//! nothing but noise. Nothing moves by itself: the track passes under the
//! head one byte for each access to the latch.
use vstd::prelude::*;
use vstd::slice::slice_subrange;
use vstd::slice::slice_to_vec;
use crate::a2::ImageError;
use crate::a2::Peripheral;
use crate::nibblizer::is_disk_image;
use crate::nibblizer::nibblizeTrack;
use crate::nibblizer::nibblized_track;
use crate::nibblizer::NUM_TRACKS;
use crate::nibblizer::RAW_TRACK_SIZE;
use crate::nibblizer::TRACK_IMAGE_SIZE;
use crate::util::Xorshift;

verus! {

/// Drives on a card.
pub const NUM_DRIVES: usize = 2;

/// Bytes in a disk image: 35 tracks of 16 sectors of 256 bytes.
pub const DISK_IMAGE_SIZE: usize = 143360;

/// The volume number written into every address field.
pub const VOLUME: u8 = 254;

/// The boot PROM that the card shows in its ROM page.
pub const PROM: [u8; 256] = [
    0xa2, 0x20, 0xa0, 0x00, 0xa2, 0x03, 0x86, 0x3c, 0x8a, 0x0a, 0x24, 0x3c, 0xf0, 0x10, 0x05, 0x3c,
    0x49, 0xff, 0x29, 0x7e, 0xb0, 0x08, 0x4a, 0xd0, 0xfb, 0x98, 0x9d, 0x56, 0x03, 0xc8, 0xe8, 0x10,
    0xe5, 0x20, 0x58, 0xff, 0xba, 0xbd, 0x00, 0x01, 0x0a, 0x0a, 0x0a, 0x0a, 0x85, 0x2b, 0xaa, 0xbd,
    0x8e, 0xc0, 0xbd, 0x8c, 0xc0, 0xbd, 0x8a, 0xc0, 0xbd, 0x89, 0xc0, 0xa0, 0x50, 0xbd, 0x80, 0xc0,
    0x98, 0x29, 0x03, 0x0a, 0x05, 0x2b, 0xaa, 0xbd, 0x81, 0xc0, 0xa9, 0x56, 0xa9, 0x00, 0xea, 0x88,
    0x10, 0xeb, 0x85, 0x26, 0x85, 0x3d, 0x85, 0x41, 0xa9, 0x08, 0x85, 0x27, 0x18, 0x08, 0xbd, 0x8c,
    0xc0, 0x10, 0xfb, 0x49, 0xd5, 0xd0, 0xf7, 0xbd, 0x8c, 0xc0, 0x10, 0xfb, 0xc9, 0xaa, 0xd0, 0xf3,
    0xea, 0xbd, 0x8c, 0xc0, 0x10, 0xfb, 0xc9, 0x96, 0xf0, 0x09, 0x28, 0x90, 0xdf, 0x49, 0xad, 0xf0,
    0x25, 0xd0, 0xd9, 0xa0, 0x03, 0x85, 0x40, 0xbd, 0x8c, 0xc0, 0x10, 0xfb, 0x2a, 0x85, 0x3c, 0xbd,
    0x8c, 0xc0, 0x10, 0xfb, 0x25, 0x3c, 0x88, 0xd0, 0xec, 0x28, 0xc5, 0x3d, 0xd0, 0xbe, 0xa5, 0x40,
    0xc5, 0x41, 0xd0, 0xb8, 0xb0, 0xb7, 0xa0, 0x56, 0x84, 0x3c, 0xbc, 0x8c, 0xc0, 0x10, 0xfb, 0x59,
    0xd6, 0x02, 0xa4, 0x3c, 0x88, 0x99, 0x00, 0x03, 0xd0, 0xee, 0x84, 0x3c, 0xbc, 0x8c, 0xc0, 0x10,
    0xfb, 0x59, 0xd6, 0x02, 0xa4, 0x3c, 0x91, 0x26, 0xc8, 0xd0, 0xef, 0xbc, 0x8c, 0xc0, 0x10, 0xfb,
    0x59, 0xd6, 0x02, 0xd0, 0x87, 0xa0, 0x00, 0xa2, 0x56, 0xca, 0x30, 0xfb, 0xb1, 0x26, 0x5e, 0x00,
    0x03, 0x2a, 0x5e, 0x00, 0x03, 0x2a, 0x91, 0x26, 0xc8, 0xd0, 0xee, 0xe6, 0x27, 0xe6, 0x3d, 0xa5,
    0x3d, 0xcd, 0x00, 0x08, 0xa6, 0x2b, 0x90, 0xdb, 0x4c, 0x01, 0x08, 0x00, 0x00, 0x00, 0x00, 0x00,
];

/// Where the head stands after phase `phase` of the stepper is turned on with
/// the head at half-track `track`: the phase next to the head's own pulls it
/// one half-track along, as far as the stops at both ends allow.
pub open spec fn step_head(track: int, phase: int) -> int {
    if phase == (track - 1) % 4 {
        if track > 0 {
            track - 1
        } else {
            track
        }
    } else if phase == (track + 1) % 4 {
        if track < 2 * NUM_TRACKS - 1 {
            track + 1
        } else {
            track
        }
    } else {
        track
    }
}

/// The byte that a head between two tracks picks up from a draw of the
/// noise generator.
pub open spec fn noise_byte(drawn: u32) -> u8 {
    (drawn & 0xff) as u8
}

/// Track `t` of a disk image.
pub open spec fn track_image(image: Seq<u8>, t: int) -> Seq<u8> {
    image.subrange(t * TRACK_IMAGE_SIZE, (t + 1) * TRACK_IMAGE_SIZE)
}

/// The raw tracks of a disk image.
pub open spec fn nibblized_disk(image: Seq<u8>) -> Seq<Seq<u8>> {
    Seq::new(NUM_TRACKS as nat, |t: int| nibblized_track(VOLUME, t as u8, track_image(image, t)))
}

/// A drive, as plain values.
#[verifier::ext_equal]
pub struct DriveState {
    /// The raw tracks of the disk, fixed when it is loaded.
    pub disk_data: Seq<Seq<u8>>,
    /// What passes under the head: a copy of the raw track that the head
    /// stands on, with what was written to it since the head came there;
    /// empty between two tracks.
    pub track_data: Seq<u8>,
    /// The head's position in half-tracks.
    pub track: int,
    /// The byte of the track under the head.
    pub track_index: int,
    /// Where the noise between two tracks comes from.
    pub rng: Xorshift,
}

impl DriveState {
    pub open spec fn wf(self) -> bool {
        &&& self.disk_data.len() == NUM_TRACKS
        &&& forall|t: int|
            0 <= t < NUM_TRACKS ==> (#[trigger] self.disk_data[t]).len() == RAW_TRACK_SIZE
        &&& 0 <= self.track < 2 * NUM_TRACKS
        &&& 0 <= self.track_index < RAW_TRACK_SIZE
        &&& self.track_data.len() == if self.on_track() {
            RAW_TRACK_SIZE as nat
        } else {
            0
        }
    }

    /// Whether the head stands on a track, not between two.
    pub open spec fn on_track(self) -> bool {
        self.track % 2 == 0
    }

    /// A drive with a fresh disk: the head on track 0, at the start.
    pub open spec fn loaded(image: Seq<u8>) -> DriveState {
        DriveState {
            disk_data: nibblized_disk(image),
            track_data: nibblized_disk(image)[0],
            track: 0,
            track_index: 0,
            rng: Xorshift::seed(),
        }
    }

    /// The drive after a phase of the stepper is turned on. On a track the
    /// head sees that track as the disk has it.
    pub open spec fn seek(self, phase: int) -> DriveState {
        let track = step_head(self.track, phase);
        DriveState {
            track,
            track_data: if track % 2 == 0 {
                self.disk_data[track / 2]
            } else {
                Seq::empty()
            },
            ..self
        }
    }

    /// The byte that comes under the head next.
    pub open spec fn next_index(self) -> int {
        (self.track_index + 1) % (RAW_TRACK_SIZE as int)
    }

    /// The drive after the latch is read.
    pub open spec fn after_read(self) -> DriveState {
        DriveState {
            track_index: self.next_index(),
            rng: if self.on_track() {
                self.rng
            } else {
                self.rng.step()
            },
            ..self
        }
    }

    /// The byte that a read of the latch returns: the next byte of the track,
    /// or noise between two tracks.
    pub open spec fn read_value(self) -> u8 {
        if self.on_track() {
            self.track_data[self.next_index()]
        } else {
            noise_byte(self.rng.step().w)
        }
    }

    /// The drive after `value` is written through the latch. Between two
    /// tracks there is nothing to write on.
    pub open spec fn after_write(self, value: u8) -> DriveState {
        DriveState {
            track_index: self.next_index(),
            track_data: if self.on_track() {
                self.track_data.update(self.next_index(), value)
            } else {
                self.track_data
            },
            ..self
        }
    }
}

/// One drive with a disk in it.
pub struct Drive {
    disk_data: Vec<Vec<u8>>,  // the disk, one raw track each
    track_data: Vec<u8>,  // the track under the head
    track: usize,  // the head's position, in half-tracks
    track_index: usize,  // position of the head along the track
    rng: Xorshift,
}

impl View for Drive {
    type V = DriveState;

    closed spec fn view(&self) -> DriveState {
        DriveState {
            disk_data: self.disk_data@.map_values(|t: Vec<u8>| t@),
            track_data: self.track_data@,
            track: self.track as int,
            track_index: self.track_index as int,
            rng: self.rng,
        }
    }
}

proof fn lemma_phases(track: usize)
    by (bit_vector)
    requires
        track < 70,
    ensures
        ((track + 3) as usize) & 3 == ((track + 3) as usize) % 4,
        ((track + 1) as usize) & 3 == ((track + 1) as usize) % 4,
        track & 1 == track % 2,
        track >> 1 == track / 2,
{
}

proof fn lemma_noise_byte(drawn: u32)
    by (bit_vector)
    ensures
        drawn & 0xff < 256,
{
}

impl Drive {
    fn read_latch(&mut self) -> (ret: u8)
        requires
            old(self)@.wf(),
        ensures
            final(self)@.wf(),
            final(self)@ == old(self)@.after_read(),
            ret == old(self)@.read_value(),
    {
        proof {
            lemma_phases(self.track);
        }
        self.track_index = (self.track_index + 1) % RAW_TRACK_SIZE;
        if (self.track & 1) == 0 {
            self.track_data[self.track_index]
        } else {
            let drawn = self.rng.next();
            proof {
                lemma_noise_byte(drawn);
            }
            (drawn & 0xff) as u8
        }
    }

    fn write_latch(&mut self, value: u8)
        requires
            old(self)@.wf(),
        ensures
            final(self)@.wf(),
            final(self)@ == old(self)@.after_write(value),
    {
        proof {
            lemma_phases(self.track);
        }
        self.track_index = (self.track_index + 1) % RAW_TRACK_SIZE;
        if (self.track & 1) == 0 {
            self.track_data[self.track_index] = value;
        }
    }

    fn servo_phase(&mut self, phase: usize)
        requires
            old(self)@.wf(),
        ensures
            final(self)@.wf(),
            final(self)@ == old(self)@.seek(phase as int),
    {
        let mut new_track = self.track;
        proof {
            lemma_phases(new_track);
        }
        // the phase behind the head pulls it back, the phase ahead pulls it on
        if phase == ((new_track + 3) & 3) {
            if new_track > 0 {
                new_track -= 1;
            }
        } else if phase == ((new_track + 1) & 3) {
            if new_track < NUM_TRACKS * 2 - 1 {
                new_track += 1;
            }
        }
        assert(new_track == step_head(self.track as int, phase as int));
        proof {
            lemma_phases(new_track);
        }
        if (new_track & 1) == 0 {
            self.track_data = self.disk_data[new_track >> 1].clone();
            assert(self.track_data@ =~= self.disk_data@[new_track as int / 2]@);
            assert(self.track_data@ == old(self)@.disk_data[new_track as int / 2]);
        } else {
            self.track_data = Vec::new();
        }
        self.track = new_track;
    }
}

/// The controller card, as plain values.
#[verifier::ext_equal]
pub struct ControllerState {
    /// The two drives; `None` is a drive without a disk.
    pub drives: Seq<Option<DriveState>>,
    /// The selected drive, 0 or 1.
    pub selected: u8,
    pub motor: bool,
    pub read_mode: bool,
    pub write_protect: bool,
}

impl ControllerState {
    pub open spec fn wf(self) -> bool {
        &&& self.drives.len() == NUM_DRIVES
        &&& self.selected < NUM_DRIVES
        &&& forall|i: int|
            0 <= i < NUM_DRIVES ==> (#[trigger] self.drives[i] matches Some(d) ==> d.wf())
    }

    /// The card at power-on: no disks, drive 0 selected, motor off, write
    /// mode, not write-protected.
    pub open spec fn power_on() -> ControllerState {
        ControllerState {
            drives: Seq::new(NUM_DRIVES as nat, |i: int| None),
            selected: 0,
            motor: false,
            read_mode: false,
            write_protect: false,
        }
    }

    pub open spec fn with_drive(self, disknum: int, drive: Option<DriveState>) -> ControllerState {
        ControllerState { drives: self.drives.update(disknum, drive), ..self }
    }

    /// The selected drive, if it has a disk.
    pub open spec fn drive(self) -> Option<DriveState> {
        self.drives[self.selected as int]
    }

    /// The card with `drive` as its selected drive.
    pub open spec fn with_selected(self, drive: DriveState) -> ControllerState {
        self.with_drive(self.selected as int, Some(drive))
    }

    /// What the write-protect sense shows.
    pub open spec fn protect_sense(self) -> u8 {
        if self.write_protect {
            0x80
        } else {
            0
        }
    }

    /// The card after an access to switch `addr` with `val` on the data bus.
    /// Only the low four bits of `addr` count.
    pub open spec fn after_io(self, addr: u16, val: u8) -> ControllerState {
        let switch = addr as int % 16;
        if switch == 1 || switch == 3 || switch == 5 || switch == 7 {
            // a phase of the stepper goes on
            match self.drive() {
                Some(d) => self.with_selected(d.seek(switch / 2)),
                None => self,
            }
        } else if switch == 8 {
            ControllerState { motor: false, ..self }
        } else if switch == 9 {
            ControllerState { motor: true, ..self }
        } else if switch == 0xa {
            ControllerState { selected: 0, ..self }
        } else if switch == 0xb {
            ControllerState { selected: 1, ..self }
        } else if switch == 0xc {
            // the latch is read, in read mode
            match self.drive() {
                Some(d) if self.read_mode => self.with_selected(d.after_read()),
                _ => self,
            }
        } else if switch == 0xd {
            // the latch is written, in write mode and where the disk allows it
            match self.drive() {
                Some(d) if !self.read_mode && !self.write_protect => self.with_selected(
                    d.after_write(val),
                ),
                _ => self,
            }
        } else if switch == 0xe {
            ControllerState { read_mode: true, ..self }
        } else if switch == 0xf {
            ControllerState { read_mode: false, ..self }
        } else {
            // a phase of the stepper goes off
            self
        }
    }

    /// The byte that the card shows on an access to switch `addr`.
    pub open spec fn io_value(self, addr: u16) -> u8 {
        let switch = addr as int % 16;
        if switch == 0xc {
            match self.drive() {
                Some(d) if self.read_mode => d.read_value(),
                _ => 0,
            }
        } else if switch == 0xd {
            self.protect_sense()
        } else {
            0
        }
    }
}

/// A Disk II controller card.
pub struct DiskController {
    drives: [Option<Drive>; 2],
    selected: u8,  // selected drive (0 or 1)
    motor: bool,  // is the motor on?
    read_mode: bool,
    write_protect: bool,
}

impl View for DiskController {
    type V = ControllerState;

    closed spec fn view(&self) -> ControllerState {
        ControllerState {
            drives: self.drives@.map_values(
                |d: Option<Drive>|
                    match d {
                        Some(d) => Some(d@),
                        None => None,
                    },
            ),
            selected: self.selected,
            motor: self.motor,
            read_mode: self.read_mode,
            write_protect: self.write_protect,
        }
    }
}

proof fn lemma_switch(addr: u16)
    by (bit_vector)
    ensures
        addr & 0xf == addr % 16,
        addr & 0xf < 16,
        addr & 0xff == addr % 256,
        addr & 0xff < 256,
        (addr >> 1) & 3 == (addr / 2) % 4,
{
}

impl DiskController {
    /// A card without disks.
    pub fn new() -> (dc: DiskController)
        ensures
            dc.wf(),
            dc@ == ControllerState::power_on(),
    {
        let dc = DiskController {
            drives: [None, None],
            selected: 0,
            motor: false,
            read_mode: false,
            write_protect: false,
        };
        assert(dc@.drives =~= ControllerState::power_on().drives);
        dc
    }

    /// What an access that reaches no more than the drive `disknum` leaves
    /// of the card.
    proof fn lemma_drive_access(self, disknum: int, after: Self)
        requires
            0 <= disknum < NUM_DRIVES,
            after.selected == self.selected,
            after.motor == self.motor,
            after.read_mode == self.read_mode,
            after.write_protect == self.write_protect,
            forall|i: int|
                0 <= i < NUM_DRIVES && i != disknum ==> after.drives@[i] == self.drives@[i],
        ensures
            after@ == self@.with_drive(disknum, after@.drives[disknum]),
            after@.drives[disknum] == match after.drives@[disknum] {
                Some(d) => Some(d@),
                None => None,
            },
            self@.drives[disknum] == match self.drives@[disknum] {
                Some(d) => Some(d@),
                None => None,
            },
            after.drives@[disknum] == self.drives@[disknum] ==> after@ == self@,
    {
        assert(after@.drives =~= self@.drives.update(disknum, after@.drives[disknum]));
        if after.drives@[disknum] == self.drives@[disknum] {
            assert(after@.drives =~= self@.drives);
        }
    }

    /// Puts the disk with the given image into drive `disknum`, the head on
    /// track 0. An image that is not `DISK_IMAGE_SIZE` bytes long is refused
    /// and the drive stays as it was.
    pub fn load_disk(&mut self, disknum: usize, image: &[u8]) -> (done: Result<(), ImageError>)
        requires
            old(self).wf(),
            disknum < NUM_DRIVES,
        ensures
            final(self).wf(),
            image@.len() == DISK_IMAGE_SIZE ==> done == Ok::<(), ImageError>(()) && final(self)@
                == old(self)@.with_drive(disknum as int, Some(DriveState::loaded(image@))),
            image@.len() != DISK_IMAGE_SIZE ==> done == Err::<(), ImageError>(
                ImageError::BadDiskSize,
            ) && final(self)@ == old(self)@,
    {
        if image.len() != DISK_IMAGE_SIZE {
            return Err(ImageError::BadDiskSize);
        }
        let mut disk_image: Vec<Vec<u8>> = Vec::with_capacity(NUM_TRACKS);
        let mut track: usize = 0;
        while track < NUM_TRACKS
            invariant
                track <= NUM_TRACKS,
                image@.len() == DISK_IMAGE_SIZE,
                disk_image@.len() == track,
                forall|t: int|
                    0 <= t < track ==> (#[trigger] disk_image@[t])@ == track_image(image@, t),
            decreases NUM_TRACKS - track,
        {
            disk_image.push(
                slice_to_vec(
                    slice_subrange(image, track * TRACK_IMAGE_SIZE, (track + 1) * TRACK_IMAGE_SIZE),
                ),
            );
            track += 1;
        }
        assert(is_disk_image(disk_image@));
        let mut disk_data: Vec<Vec<u8>> = Vec::with_capacity(NUM_TRACKS);
        let mut track: usize = 0;
        while track < NUM_TRACKS
            invariant
                track <= NUM_TRACKS,
                is_disk_image(disk_image@),
                forall|t: int|
                    0 <= t < NUM_TRACKS ==> (#[trigger] disk_image@[t])@ == track_image(image@, t),
                disk_data@.len() == track,
                forall|t: int|
                    0 <= t < track ==> (#[trigger] disk_data@[t])@ == nibblized_disk(image@)[t],
            decreases NUM_TRACKS - track,
        {
            disk_data.push(nibblizeTrack(VOLUME, track as u8, &disk_image));
            track += 1;
        }
        let track_data = disk_data[0].clone();
        assert(track_data@ =~= disk_data@[0]@);
        let drive = Drive { disk_data, track_data, track: 0, track_index: 0, rng: Xorshift::new() };
        assert(drive@.disk_data =~= nibblized_disk(image@));
        assert(drive@ == DriveState::loaded(image@));
        let ghost before = *self;
        self.drives[disknum] = Some(drive);
        proof {
            before.lemma_drive_access(disknum as int, *self);
        }
        Ok(())
    }

    /// Whether drive `disknum` has a disk.
    pub fn has_disk(&self, disknum: usize) -> (has: bool)
        requires
            disknum < NUM_DRIVES,
        ensures
            has == (self@.drives[disknum as int] is Some),
    {
        self.drives[disknum].is_some()
    }

    /// Where the head of drive `disknum` stands, in half-tracks, if the
    /// drive has a disk.
    pub fn half_track(&self, disknum: usize) -> (track: Option<usize>)
        requires
            disknum < NUM_DRIVES,
        ensures
            track == match self@.drives[disknum as int] {
                Some(d) => Some(d.track as usize),
                None => None,
            },
    {
        match &self.drives[disknum] {
            Some(d) => Some(d.track),
            None => None,
        }
    }

    /// Sets the write-protect sense for the disks of both drives.
    pub fn set_write_protect(&mut self, protect: bool)
        ensures
            final(self)@ == (ControllerState { write_protect: protect, ..old(self)@ }),
            old(self).wf() ==> final(self).wf(),
    {
        self.write_protect = protect;
    }
}

impl Peripheral for DiskController {
    open spec fn wf(&self) -> bool {
        self@.wf()
    }

    open spec fn io_spec(&self, switch: u16, val: u8, after: Self, ret: u8) -> bool {
        after@ == self@.after_io(switch, val) && ret == self@.io_value(switch)
    }

    open spec fn high_io_spec(&self, addr: u16, val: u8, after: Self, ret: u8) -> bool {
        after@ == self@ && ret == PROM[addr as int % 256]
    }

    fn doHighIO(&mut self, addr: u16, val: u8) -> (ret: u8) {
        proof {
            lemma_switch(addr);
        }
        PROM[(addr & 0xff) as usize]
    }

    // The switches do the same whether they are read or written.
    fn doIO(&mut self, addr: u16, val: u8) -> (ret: u8) {
        proof {
            lemma_switch(addr);
        }
        let ghost before = *self;
        let selected = self.selected as usize;
        proof {
            before.lemma_drive_access(selected as int, before);
        }
        match addr & 0xf {
            // Turn a motor phase on. The phase after the head's own steps
            // the head up, the phase before it steps it down; phases 0 and 3
            // are next to each other. The head's own phase is its position
            // modulo 4.
            1 | 3 | 5 | 7 => {
                match &mut self.drives[selected] {
                    Some(drive) => {
                        drive.servo_phase(((addr >> 1) & 3) as usize);
                    },
                    None => {},
                }
                proof {
                    before.lemma_drive_access(selected as int, *self);
                }
                0
            },
            // Turn the drive motor off.
            8 => {
                self.motor = false;
                assert(self@ == (ControllerState { motor: false, ..before@ }));
                0
            },
            // Turn the drive motor on.
            9 => {
                self.motor = true;
                assert(self@ == (ControllerState { motor: true, ..before@ }));
                0
            },
            // Select drive 1.
            0xa => {
                self.selected = 0;
                assert(self@ == (ControllerState { selected: 0, ..before@ }));
                0
            },
            // Select drive 2.
            0xb => {
                self.selected = 1;
                assert(self@ == (ControllerState { selected: 1, ..before@ }));
                0
            },
            // Read a disk byte if read mode is active.
            0xc => {
                let mut ret: u8 = 0;
                if self.read_mode {
                    match &mut self.drives[selected] {
                        Some(drive) => {
                            ret = drive.read_latch();
                        },
                        None => {},
                    }
                }
                proof {
                    before.lemma_drive_access(selected as int, *self);
                }
                ret
            },
            // Write a disk byte if write mode is active and the disk is not
            // write protected; show the write-protect sense.
            0xd => {
                if !self.read_mode && !self.write_protect {
                    match &mut self.drives[selected] {
                        Some(drive) => {
                            drive.write_latch(val);
                        },
                        None => {},
                    }
                }
                proof {
                    before.lemma_drive_access(selected as int, *self);
                }
                if self.write_protect {
                    0x80
                } else {
                    0
                }
            },
            // Select read mode.
            0xe => {
                self.read_mode = true;
                assert(self@ == (ControllerState { read_mode: true, ..before@ }));
                0
            },
            // Select write mode.
            0xf => {
                self.read_mode = false;
                assert(self@ == (ControllerState { read_mode: false, ..before@ }));
                0
            },
            // Turn a motor phase off.
            _ => 0,
        }
    }
}

impl ControllerState {
    /// Of the address of a switch only the low four bits count.
    pub proof fn lemma_low_nibble(self, addr: u16, other: u16, val: u8)
        requires
            addr % 16 == other % 16,
        ensures
            self.after_io(addr, val) == self.after_io(other, val),
            self.io_value(addr) == self.io_value(other),
    {
    }

    /// Every access keeps the card well formed.
    pub proof fn lemma_io_keeps_wf(self, addr: u16, val: u8)
        requires
            self.wf(),
        ensures
            self.after_io(addr, val).wf(),
    {
        let after = self.after_io(addr, val);
        assert forall|i: int| 0 <= i < NUM_DRIVES implies (#[trigger] after.drives[i] matches Some(
            d,
        ) ==> d.wf()) by {
            if after.drives[i] != self.drives[i] {
                assert(self.drives[i] is Some);
            }
        }
    }

    /// The disk turns under the head with the latch and with nothing else:
    /// an access to any other switch leaves every drive at the byte it was
    /// at, and an access to the latch moves the selected drive on by one
    /// byte at most.
    pub proof fn lemma_only_the_latch_turns_the_disk(self, addr: u16, val: u8, i: int)
        requires
            self.wf(),
            0 <= i < NUM_DRIVES,
            self.drives[i] is Some,
        ensures
            self.after_io(addr, val).drives[i] is Some,
            addr % 16 != 0xc && addr % 16 != 0xd ==>
                self.after_io(addr, val).drives[i]->0.track_index
                == self.drives[i]->0.track_index,
            self.after_io(addr, val).drives[i]->0.track_index == self.drives[i]->0.track_index
                || (i == self.selected && self.after_io(addr, val).drives[i]->0.track_index
                == self.drives[i]->0.next_index()),
    {
    }

    /// The head moves by one half-track at most, and only when a phase of the
    /// stepper is turned on.
    pub proof fn lemma_head_steps(self, addr: u16, val: u8, i: int)
        requires
            self.wf(),
            0 <= i < NUM_DRIVES,
            self.drives[i] is Some,
        ensures
            self.after_io(addr, val).drives[i] is Some,
            ({
                let before = self.drives[i]->0.track;
                let after = self.after_io(addr, val).drives[i]->0.track;
                &&& before - 1 <= after <= before + 1
                &&& 0 <= after < 2 * NUM_TRACKS
                &&& after != before ==> i == self.selected && addr % 2 == 1 && addr % 16 < 8
            }),
    {
    }
}

} // verus!
