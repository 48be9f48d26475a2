//! The text screen: from the bytes of a text page to character cells.
//!
//! A text page holds 24 lines of 40 characters, the lines interleaved in
//! three groups of eight. Each character takes two cells of the screen, the
//! second one a blank in the same colours.
use vstd::prelude::*;
use crate::a2::AppleII;
use crate::a2::BusState;
use crate::a2::Peripheral;
use crate::a2::GR_PAGE1;
use crate::lazyterm::Buffer;
use crate::lazyterm::TermCell;
use crate::lazyterm::BLACK;
use crate::lazyterm::WHITE;
use crate::mem::Mem;

verus! {

/// Where each of the 24 text lines begins within its page.
pub const TEXT_LUT: [u16; 24] = [
    0x000, 0x080, 0x100, 0x180, 0x200, 0x280, 0x300, 0x380,
    0x028, 0x0a8, 0x128, 0x1a8, 0x228, 0x2a8, 0x328, 0x3a8,
    0x050, 0x0d0, 0x150, 0x1d0, 0x250, 0x2d0, 0x350, 0x3d0,
];

/// Milliseconds that a flashing character stays in each of its two forms.
pub const FLASH_INTERVAL: u64 = 500;

/// Whether the display shows the second text page.
pub open spec fn second_page(grswitch: u8) -> bool {
    grswitch & GR_PAGE1 != 0
}

/// The address of the first character of text line `y`.
pub open spec fn line_base(grswitch: u8, y: int) -> int {
    TEXT_LUT[y] + if second_page(grswitch) {
        0x800int
    } else {
        0x400int
    }
}

/// The cell that shows screen byte `b`: `80..FF` is normal, `40..7F`
/// flashes between normal and inverse, and `00..3F` is inverse.
pub open spec fn text_cell(b: u8, flash: bool) -> TermCell {
    let invert = if b >= 0x80 {
        false
    } else if b >= 0x40 {
        flash
    } else {
        true
    };
    let code = if 0x40 <= b < 0x80 {
        if flash {
            (b - 0x40) as u8
        } else {
            (b + 0x40) as u8
        }
    } else {
        b
    };
    let ch = (code & 0x7f) as char;
    if !invert {
        TermCell { bg: BLACK, fg: WHITE, ch }
    } else {
        TermCell { bg: WHITE, fg: BLACK, ch }
    }
}

/// The cell in column `col` of a text line whose first character lies at
/// `base`.
pub open spec fn line_cell(mem: Seq<u8>, base: int, flash: bool, col: int) -> TermCell {
    let cell = text_cell(mem[base + col / 2], flash);
    if col % 2 == 0 {
        cell
    } else {
        TermCell { ch: ' ', ..cell }
    }
}

/// A row of the screen with text line `y` drawn over its first 80 cells.
pub open spec fn drawn_row<P: Peripheral>(
    a2: BusState<P>,
    flash: bool,
    y: int,
    row: Seq<TermCell>,
) -> Seq<TermCell> {
    Seq::new(
        row.len(),
        |col: int|
            if col < 80 {
                line_cell(a2.mem, line_base(a2.grswitch, y), flash, col)
            } else {
                row[col]
            },
    )
}

/// The screen with the text lines `0..lines` drawn over it.
pub open spec fn drawn_screen<P: Peripheral>(
    a2: BusState<P>,
    flash: bool,
    lines: int,
    screen: Seq<Seq<TermCell>>,
) -> Seq<Seq<TermCell>> {
    Seq::new(
        screen.len(),
        |y: int|
            if y < lines {
                drawn_row(a2, flash, y, screen[y])
            } else {
                screen[y]
            },
    )
}

/// Draws text line `y` into row `y` of the screen.
pub fn draw_text_line<P: Peripheral>(a2: &AppleII<P>, buf: &mut Buffer, flash: bool, y: usize)
    requires
        a2.wf(),
        old(buf).wf(),
        y < 24,
        old(buf).spec_width() >= 80,
        old(buf).spec_height() > y,
    ensures
        final(buf).wf(),
        final(buf).spec_width() == old(buf).spec_width(),
        final(buf).spec_height() == old(buf).spec_height(),
        final(buf)@ == old(buf)@.update(
            y as int,
            drawn_row(a2@, flash, y as int, old(buf)@[y as int]),
        ),
{
    proof {
        a2.lemma_fields();
        buf.lemma_shape();
    }
    // the base address of this line
    let base = TEXT_LUT[y] + if (a2.grswitch & GR_PAGE1) != 0 {
        0x800
    } else {
        0x400
    };
    let mut x: usize = 0;
    assert(buf@[y as int] =~= Seq::new(
        buf@[y as int].len(),
        |col: int|
            if col < 2 * x {
                line_cell(a2@.mem, base as int, flash, col)
            } else {
                buf@[y as int][col]
            },
    ));
    assert(buf@ =~= buf@.update(y as int, buf@[y as int]));
    while x < 40
        invariant
            x <= 40,
            y < 24,
            a2.wf(),
            a2@.mem == a2.mem@,
            base == line_base(a2@.grswitch, y as int),
            buf.wf(),
            buf.spec_width() == old(buf).spec_width(),
            buf.spec_height() == old(buf).spec_height(),
            old(buf).spec_width() >= 80,
            old(buf).spec_height() > y,
            old(buf)@.len() == old(buf).spec_height(),
            old(buf)@[y as int].len() == old(buf).spec_width(),
            buf@ == old(buf)@.update(
                y as int,
                Seq::new(
                    old(buf)@[y as int].len(),
                    |col: int|
                        if col < 2 * x {
                            line_cell(a2@.mem, base as int, flash, col)
                        } else {
                            old(buf)@[y as int][col]
                        },
                ),
            ),
        decreases 40 - x,
    {
        let mut b = a2.mem[(base + x as u16) as usize];
        let invert: bool;
        // flashing characters are inverse half of the time
        if b >= 0x80 {
            invert = false;
        } else if b >= 0x40 {
            invert = flash;
            if flash {
                b -= 0x40;
            } else {
                b += 0x40;
            }
        } else {
            invert = true;
        }
        let ch = (b & 0x7f) as char;
        let mut cell = if !invert {
            TermCell { bg: BLACK, fg: WHITE, ch: ch }
        } else {
            TermCell { bg: WHITE, fg: BLACK, ch: ch }
        };
        assert(cell == text_cell(a2@.mem[base + x], flash));
        let ghost before = buf@;
        buf.set(x * 2, y, cell);
        cell.ch = ' ';
        buf.set(x * 2 + 1, y, cell);
        x += 1;
        assert(buf@ =~= old(buf)@.update(
            y as int,
            Seq::new(
                old(buf)@[y as int].len(),
                |col: int|
                    if col < 2 * x {
                        line_cell(a2@.mem, base as int, flash, col)
                    } else {
                        old(buf)@[y as int][col]
                    },
            ),
        )) by {
            assert(buf@[y as int] =~= Seq::new(
                old(buf)@[y as int].len(),
                |col: int|
                    if col < 2 * x {
                        line_cell(a2@.mem, base as int, flash, col)
                    } else {
                        old(buf)@[y as int][col]
                    },
            ));
        }
    }
    assert(buf@ =~= old(buf)@.update(
        y as int,
        drawn_row(a2@, flash, y as int, old(buf)@[y as int]),
    )) by {
        assert(buf@[y as int] =~= drawn_row(a2@, flash, y as int, old(buf)@[y as int]));
    }
}

/// Draws all 24 text lines into the screen.
pub fn update_term_buf<P: Peripheral>(a2: &AppleII<P>, buf: &mut Buffer, flash: bool)
    requires
        a2.wf(),
        old(buf).wf(),
        old(buf).spec_width() >= 80,
        old(buf).spec_height() >= 24,
    ensures
        final(buf).wf(),
        final(buf).spec_width() == old(buf).spec_width(),
        final(buf).spec_height() == old(buf).spec_height(),
        final(buf)@ == drawn_screen(a2@, flash, 24, old(buf)@),
{
    proof {
        buf.lemma_shape();
    }
    let mut y: usize = 0;
    while y < 24
        invariant
            y <= 24,
            a2.wf(),
            buf.wf(),
            buf.spec_width() == old(buf).spec_width(),
            buf.spec_height() == old(buf).spec_height(),
            old(buf).spec_width() >= 80,
            old(buf).spec_height() >= 24,
            old(buf)@.len() == old(buf).spec_height(),
            buf@ == drawn_screen(a2@, flash, y as int, old(buf)@),
        decreases 24 - y,
    {
        draw_text_line(a2, buf, flash, y);
        y += 1;
        assert(buf@ =~= drawn_screen(a2@, flash, y as int, old(buf)@));
    }
}

/// Whether flashing characters show their inverse form at `millis`
/// milliseconds: they do in the second half of every period of two flash
/// intervals.
pub open spec fn flashing(millis: u64) -> bool {
    millis as int % (2 * FLASH_INTERVAL) > FLASH_INTERVAL
}

/// Whether flashing characters show their inverse form at the given time.
pub fn flash_phase(millis: u64) -> (flash: bool)
    ensures
        flash == flashing(millis),
{
    assert(FLASH_INTERVAL << 1 == 2 * FLASH_INTERVAL) by (bit_vector);
    (millis % (FLASH_INTERVAL << 1)) > FLASH_INTERVAL
}

/// The cycle count that the processor is to reach: `elapsed` milliseconds
/// at `clocks_per_msec` cycles each beyond `cy`, or as far as 64 bits count.
pub open spec fn cycles_due(cy: u64, elapsed: u64, clocks_per_msec: u64) -> int {
    if cy + elapsed * clocks_per_msec <= u64::MAX {
        cy + elapsed * clocks_per_msec
    } else {
        u64::MAX as int
    }
}

/// The cycle count up to which the processor is to run to catch up with
/// the clock.
pub fn cycle_target(cy: u64, elapsed: u64, clocks_per_msec: u64) -> (target: u64)
    ensures
        target == cycles_due(cy, elapsed, clocks_per_msec),
{
    assert(elapsed * clocks_per_msec >= 0) by (nonlinear_arith);
    match elapsed.checked_mul(clocks_per_msec) {
        Some(run) => cy.saturating_add(run),
        None => u64::MAX,
    }
}

} // verus!
