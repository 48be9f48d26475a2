//! A character-cell screen and the escape sequences that paint it on a
//! terminal with 256 colours.
use vstd::prelude::*;

verus! {

/// A 256-colour palette index.
pub struct TermColor(pub u8);

/// One character cell: background, foreground and the character shown.
#[derive(Clone, Copy, Debug, PartialEq, Eq, Structural)]
pub struct TermCell {
    pub bg: u8,
    pub fg: u8,
    pub ch: char,
}

pub const BLACK: u8 = 0;

pub const WHITE: u8 = 15;

impl TermCell {
    /// A blank, white on black.
    pub open spec fn spec_empty() -> TermCell {
        TermCell { fg: WHITE, bg: BLACK, ch: ' ' }
    }

    /// A cell in colours and with a character that no screen has.
    pub open spec fn spec_unknown() -> TermCell {
        TermCell { fg: 255, bg: 255, ch: '\u{ffff}' }
    }

    /// A blank, white on black.
    #[verifier::when_used_as_spec(spec_empty)]
    pub fn empty() -> (cell: TermCell)
        ensures
            cell == Self::spec_empty(),
    {
        TermCell { fg: WHITE, bg: BLACK, ch: ' ' }
    }

    /// A cell that equals nothing a screen shows.
    #[verifier::when_used_as_spec(spec_unknown)]
    pub fn unknown() -> (cell: TermCell)
        ensures
            cell == Self::spec_unknown(),
    {
        TermCell { fg: 255, bg: 255, ch: '\u{ffff}' }
    }
}

/// A screen of `height` rows of `width` cells.
pub struct Buffer {
    pub(crate) buf: Vec<Vec<TermCell>>,
    pub(crate) width: usize,
    pub(crate) height: usize,
}

impl View for Buffer {
    type V = Seq<Seq<TermCell>>;

    /// The rows, top first.
    closed spec fn view(&self) -> Seq<Seq<TermCell>> {
        self.buf@.map_values(|row: Vec<TermCell>| row@)
    }
}

/// A screen of `rows` rows of `cols` blanks.
pub open spec fn blank_screen(cols: int, rows: int) -> Seq<Seq<TermCell>> {
    Seq::new(rows as nat, |y: int| Seq::new(cols as nat, |x: int| TermCell::empty()))
}

impl Buffer {
    pub closed spec fn spec_width(&self) -> int {
        self.width as int
    }

    pub closed spec fn spec_height(&self) -> int {
        self.height as int
    }

    /// Every row is as wide as the screen, and there are as many rows as it
    /// is high.
    pub closed spec fn wf(&self) -> bool {
        &&& self.buf@.len() == self.height
        &&& forall|y: int| 0 <= y < self.height ==> (#[trigger] self.buf@[y])@.len() == self.width
    }

    /// What `wf` says of the view.
    pub proof fn lemma_shape(&self)
        requires
            self.wf(),
        ensures
            self@.len() == self.spec_height(),
            forall|y: int|
                0 <= y < self.spec_height() ==> (#[trigger] self@[y]).len() == self.spec_width(),
    {
    }

    /// A blank screen.
    pub fn new(cols: usize, rows: usize) -> (b: Buffer)
        ensures
            b.wf(),
            b.spec_width() == cols,
            b.spec_height() == rows,
            b@ == blank_screen(cols as int, rows as int),
    {
        let mut buf: Vec<Vec<TermCell>> = Vec::new();
        let mut y: usize = 0;
        while y < rows
            invariant
                y <= rows,
                buf@.len() == y,
                forall|j: int|
                    0 <= j < y ==> (#[trigger] buf@[j])@ == Seq::new(
                        cols as nat,
                        |x: int| TermCell::empty(),
                    ),
            decreases rows - y,
        {
            let mut row: Vec<TermCell> = Vec::new();
            let mut x: usize = 0;
            while x < cols
                invariant
                    x <= cols,
                    row@ == Seq::new(x as nat, |x: int| TermCell::empty()),
                decreases cols - x,
            {
                row.push(TermCell::empty());
                x += 1;
                assert(row@ =~= Seq::new(x as nat, |x: int| TermCell::empty()));
            }
            buf.push(row);
            y += 1;
        }
        let b = Buffer { width: cols, height: rows, buf };
        assert(b@ =~= blank_screen(cols as int, rows as int));
        b
    }

    /// Puts `cell` at column `col` of row `row`.
    pub fn set(&mut self, col: usize, row: usize, cell: TermCell)
        requires
            old(self).wf(),
            col < old(self).spec_width(),
            row < old(self).spec_height(),
        ensures
            final(self).wf(),
            final(self).spec_width() == old(self).spec_width(),
            final(self).spec_height() == old(self).spec_height(),
            final(self)@ == old(self)@.update(
                row as int,
                old(self)@[row as int].update(col as int, cell),
            ),
    {
        self.buf[row][col] = cell;
        assert(self@ =~= old(self)@.update(
            row as int,
            old(self)@[row as int].update(col as int, cell),
        ));
    }

    /// The cell at column `col` of row `row`.
    pub fn get(&self, col: usize, row: usize) -> (cell: TermCell)
        requires
            self.wf(),
            col < self.spec_width(),
            row < self.spec_height(),
        ensures
            cell == self@[row as int][col as int],
    {
        self.buf[row][col]
    }

    pub fn width(&self) -> (w: usize)
        ensures
            w == self.spec_width(),
    {
        self.width
    }

    pub fn height(&self) -> (h: usize)
        ensures
            h == self.spec_height(),
    {
        self.height
    }
}

impl Clone for Buffer {
    fn clone(&self) -> (copy: Buffer)
        ensures
            copy@ == self@,
            copy.spec_width() == self.spec_width(),
            copy.spec_height() == self.spec_height(),
            self.wf() ==> copy.wf(),
    {
        let mut buf: Vec<Vec<TermCell>> = Vec::new();
        let mut y: usize = 0;
        while y < self.buf.len()
            invariant
                y <= self.buf@.len(),
                buf@.len() == y,
                forall|j: int| 0 <= j < y ==> (#[trigger] buf@[j])@ == self.buf@[j]@,
            decreases self.buf@.len() - y,
        {
            let mut row: Vec<TermCell> = Vec::new();
            let mut x: usize = 0;
            while x < self.buf[y].len()
                invariant
                    y < self.buf@.len(),
                    x <= self.buf@[y as int]@.len(),
                    row@ == self.buf@[y as int]@.take(x as int),
                decreases self.buf@[y as int]@.len() - x,
            {
                row.push(self.buf[y][x]);
                x += 1;
                assert(row@ =~= self.buf@[y as int]@.take(x as int));
            }
            assert(row@ =~= self.buf@[y as int]@);
            buf.push(row);
            y += 1;
        }
        let copy = Buffer { width: self.width, height: self.height, buf };
        assert(copy@ =~= self@);
        copy
    }
}

/// The character for the decimal digit `d`.
pub open spec fn digit(d: nat) -> char {
    ((48 + d) as u8) as char
}

/// `n` in decimal, without leading zeros.
pub open spec fn decimal(n: nat) -> Seq<char>
    decreases n,
{
    if n < 10 {
        seq![digit(n)]
    } else {
        decimal(n / 10).push(digit(n % 10))
    }
}

/// The control sequence introducer, `ESC [`.
pub open spec fn csi() -> Seq<char> {
    seq!['\x1b', '[']
}

/// What is sent before and after a screen is painted: `ESC [ 0`.
pub open spec fn reset_sequence() -> Seq<char> {
    csi().push('0')
}

/// Moves the cursor `n` cells to the right.
pub open spec fn cursor_right(n: nat) -> Seq<char> {
    csi() + decimal(n) + seq!['C']
}

/// Moves the cursor `n` rows up.
pub open spec fn cursor_up(n: nat) -> Seq<char> {
    csi() + decimal(n) + seq!['A']
}

/// Goes to the start of the next row.
pub open spec fn next_line() -> Seq<char> {
    seq!['\r', '\x1b', '[', '1', 'B']
}

/// Selects foreground colour `c` of the 256-colour palette.
pub open spec fn foreground(c: u8) -> Seq<char> {
    csi() + seq!['3', '8', ';', '5', ';'] + decimal(c as nat) + seq!['m']
}

/// Selects background colour `c` of the 256-colour palette.
pub open spec fn background(c: u8) -> Seq<char> {
    csi() + seq!['4', '8', ';', '5', ';'] + decimal(c as nat) + seq!['m']
}

/// Paints one cell in its colours.
pub open spec fn paint(cell: TermCell) -> Seq<char> {
    foreground(cell.fg) + background(cell.bg) + seq![cell.ch]
}

/// Paints the first `n` cells of a row.
pub open spec fn redraw_cells(row: Seq<TermCell>, n: int) -> Seq<char>
    decreases n,
{
    if n <= 0 {
        Seq::empty()
    } else {
        redraw_cells(row, n - 1) + paint(row[n - 1])
    }
}

/// Paints the first `n` rows of a screen, each followed by a move to the
/// next row.
pub open spec fn redraw_rows(screen: Seq<Seq<TermCell>>, n: int) -> Seq<char>
    decreases n,
{
    if n <= 0 {
        Seq::empty()
    } else {
        redraw_rows(screen, n - 1) + redraw_cells(screen[n - 1], screen[n - 1].len() as int)
            + next_line()
    }
}

/// Paints a whole screen.
pub open spec fn redraw_screen(screen: Seq<Seq<TermCell>>) -> Seq<char> {
    redraw_rows(screen, screen.len() as int)
}

/// The cell that was looked at before cell `x` of row `y`: the cell to its
/// left, the last cell of the row above, or a cell unlike any other.
pub open spec fn cell_before(screen: Seq<Seq<TermCell>>, y: int, x: int) -> TermCell
    decreases y,
{
    if x > 0 {
        screen[y][x - 1]
    } else if y > 0 && screen[y - 1].len() > 0 {
        screen[y - 1][screen[y - 1].len() - 1]
    } else if y > 0 {
        cell_before(screen, y - 1, 0)
    } else {
        TermCell::unknown()
    }
}

/// Whether cell `x` of row `y` has to be painted again: its colours differ
/// from those of the cell before it, or its character from the one that the
/// terminal shows there.
pub open spec fn dirty(
    screen: Seq<Seq<TermCell>>,
    shown: Seq<Seq<TermCell>>,
    y: int,
    x: int,
) -> bool {
    let cell = screen[y][x];
    let prev = cell_before(screen, y, x);
    cell.fg != prev.fg || cell.bg != prev.bg || cell.ch != shown[y][x].ch
}

/// How many cells directly before cell `x` of row `y` were passed over.
pub open spec fn blanks(
    screen: Seq<Seq<TermCell>>,
    shown: Seq<Seq<TermCell>>,
    y: int,
    x: int,
) -> nat
    decreases x,
{
    if x <= 0 || dirty(screen, shown, y, x - 1) {
        0
    } else {
        blanks(screen, shown, y, x - 1) + 1
    }
}

/// Brings the first `n` cells of row `y` up to date: a dirty cell is
/// painted, after a move over the cells that were passed over before it.
pub open spec fn update_cells(
    screen: Seq<Seq<TermCell>>,
    shown: Seq<Seq<TermCell>>,
    y: int,
    n: int,
) -> Seq<char>
    decreases n,
{
    if n <= 0 {
        Seq::empty()
    } else if dirty(screen, shown, y, n - 1) {
        update_cells(screen, shown, y, n - 1) + (if blanks(screen, shown, y, n - 1) > 0 {
            cursor_right(blanks(screen, shown, y, n - 1))
        } else {
            Seq::empty()
        }) + paint(screen[y][n - 1])
    } else {
        update_cells(screen, shown, y, n - 1)
    }
}

/// Brings the first `n` rows up to date.
pub open spec fn update_rows(
    screen: Seq<Seq<TermCell>>,
    shown: Seq<Seq<TermCell>>,
    n: int,
) -> Seq<char>
    decreases n,
{
    if n <= 0 {
        Seq::empty()
    } else {
        update_rows(screen, shown, n - 1) + update_cells(
            screen,
            shown,
            n - 1,
            screen[n - 1].len() as int,
        ) + next_line()
    }
}

/// `n` line feeds.
pub open spec fn line_feeds(n: nat) -> Seq<char> {
    Seq::new(n, |i: int| '\n')
}

/// What brings a terminal that shows `shown` to show `screen`: where both
/// have the same size the cursor goes back up over the rows, else room is
/// made below; then the whole screen is painted.
pub open spec fn refresh_sequence(
    shown: Seq<Seq<TermCell>>,
    shown_width: int,
    screen: Seq<Seq<TermCell>>,
    width: int,
) -> Seq<char> {
    reset_sequence() + (if width == shown_width && screen.len() == shown.len() {
        cursor_up(screen.len())
    } else {
        line_feeds(screen.len())
    }) + redraw_screen(screen) + reset_sequence()
}

/// A terminal, as plain values.
pub struct TerminalState {
    /// The screen that the terminal shows.
    pub lastbuf: Seq<Seq<TermCell>>,
    /// The width of that screen.
    pub width: int,
    /// What is still to be sent to the terminal.
    pub out: Seq<char>,
}

/// A terminal that is painted with escape sequences. What it is to show is
/// gathered here and fetched with `take_output` by whoever writes it out.
pub struct Terminal {
    out: Vec<char>,
    lastbuf: Buffer,
}

impl View for Terminal {
    type V = TerminalState;

    closed spec fn view(&self) -> TerminalState {
        TerminalState { lastbuf: self.lastbuf@, width: self.lastbuf.spec_width(), out: self.out@ }
    }
}

fn push_decimal(out: &mut Vec<char>, n: usize)
    ensures
        final(out)@ == old(out)@ + decimal(n as nat),
    decreases n,
{
    if n >= 10 {
        push_decimal(out, n / 10);
    }
    out.push((48 + (n % 10) as u8) as char);
    assert(out@ =~= old(out)@ + decimal(n as nat));
}

fn push_csi(out: &mut Vec<char>)
    ensures
        final(out)@ == old(out)@ + csi(),
{
    out.push('\x1b');
    out.push('[');
    assert(out@ =~= old(out)@ + csi());
}

fn push_next_line(out: &mut Vec<char>)
    ensures
        final(out)@ == old(out)@ + next_line(),
{
    out.push('\r');
    push_csi(out);
    out.push('1');
    out.push('B');
    assert(out@ =~= old(out)@ + next_line());
}

fn push_cursor(out: &mut Vec<char>, n: usize, direction: char)
    ensures
        final(out)@ == old(out)@ + csi() + decimal(n as nat) + seq![direction],
{
    push_csi(out);
    push_decimal(out, n);
    out.push(direction);
    assert(out@ =~= old(out)@ + csi() + decimal(n as nat) + seq![direction]);
}

fn push_colour(out: &mut Vec<char>, plane: char, c: u8)
    ensures
        final(out)@ == old(out)@ + (csi() + seq![plane, '8', ';', '5', ';'] + decimal(c as nat)
            + seq!['m']),
{
    push_csi(out);
    out.push(plane);
    out.push('8');
    out.push(';');
    out.push('5');
    out.push(';');
    push_decimal(out, c as usize);
    out.push('m');
    assert(out@ =~= old(out)@ + (csi() + seq![plane, '8', ';', '5', ';'] + decimal(c as nat)
        + seq!['m']));
}

fn push_cell(out: &mut Vec<char>, cell: TermCell)
    ensures
        final(out)@ == old(out)@ + paint(cell),
{
    push_colour(out, '3', cell.fg);
    push_colour(out, '4', cell.bg);
    out.push(cell.ch);
    assert(out@ =~= old(out)@ + paint(cell));
}

impl Terminal {
    /// Whether the terminal's screen is well formed.
    pub closed spec fn wf(&self) -> bool {
        self.lastbuf.wf()
    }

    /// A terminal that shows nothing yet.
    pub fn new() -> (t: Terminal)
        ensures
            t.wf(),
            t@ == (TerminalState { lastbuf: Seq::empty(), width: 0, out: Seq::empty() }),
    {
        let t = Terminal { lastbuf: Buffer::new(0, 0), out: Vec::new() };
        assert(t@.lastbuf =~= Seq::empty());
        t
    }

    /// Hands over what is to be sent to the terminal.
    pub fn take_output(&mut self) -> (out: Vec<char>)
        ensures
            out@ == old(self)@.out,
            final(self)@ == (TerminalState { out: Seq::empty(), ..old(self)@ }),
            old(self).wf() ==> final(self).wf(),
    {
        let mut out: Vec<char> = Vec::new();
        core::mem::swap(&mut self.out, &mut out);
        assert(self@.out =~= Seq::empty());
        out
    }

    /// Sends `ESC [ 0`.
    pub fn reset(&mut self)
        ensures
            final(self)@ == (TerminalState {
                out: old(self)@.out + reset_sequence(),
                ..old(self)@
            }),
            old(self).wf() ==> final(self).wf(),
    {
        push_csi(&mut self.out);
        self.out.push('0');
        assert(self.out@ =~= old(self).out@ + reset_sequence());
    }

    /// Paints again what differs from the screen that the terminal shows,
    /// which must be no smaller than `buf`. The terminal is taken to show the
    /// same screen afterwards as before.
    pub fn update(&mut self, buf: &Buffer)
        requires
            old(self).wf(),
            buf.wf(),
            buf.spec_width() <= old(self)@.width,
            buf@.len() <= old(self)@.lastbuf.len(),
        ensures
            final(self).wf(),
            final(self)@ == (TerminalState {
                out: old(self)@.out + update_rows(buf@, old(self)@.lastbuf, buf@.len() as int),
                ..old(self)@
            }),
    {
        proof {
            buf.lemma_shape();
            self.lastbuf.lemma_shape();
        }
        let mut prev = TermCell::unknown();
        let mut y: usize = 0;
        while y < buf.height
            invariant
                y <= buf.spec_height(),
                buf.wf(),
                self.lastbuf.wf(),
                self.lastbuf == old(self).lastbuf,
                buf.spec_width() <= self.lastbuf.spec_width(),
                buf.spec_height() <= self.lastbuf.spec_height(),
                buf@.len() == buf.spec_height(),
                forall|j: int|
                    0 <= j < buf.spec_height() ==> (#[trigger] buf@[j]).len() == buf.spec_width(),
                prev == cell_before(buf@, y as int, 0),
                self.out@ == old(self).out@ + update_rows(buf@, self.lastbuf@, y as int),
            decreases buf.spec_height() - y,
        {
            let mut blanks: usize = 0;
            let mut x: usize = 0;
            let ghost row_start = self.out@;
            while x < buf.width
                invariant
                    y < buf.spec_height(),
                    x <= buf.spec_width(),
                    buf.wf(),
                    self.lastbuf.wf(),
                    self.lastbuf == old(self).lastbuf,
                    buf.spec_width() <= self.lastbuf.spec_width(),
                    buf.spec_height() <= self.lastbuf.spec_height(),
                    buf@.len() == buf.spec_height(),
                    forall|j: int|
                        0 <= j < buf.spec_height()
                            ==> (#[trigger] buf@[j]).len() == buf.spec_width(),
                    prev == cell_before(buf@, y as int, x as int),
                    blanks == self::blanks(buf@, self.lastbuf@, y as int, x as int),
                    blanks <= x,
                    self.out@ == row_start + update_cells(buf@, self.lastbuf@, y as int, x as int),
                decreases buf.spec_width() - x,
            {
                let cell = buf.get(x, y);
                let last = self.lastbuf.get(x, y);
                let dirty = cell.fg != prev.fg || cell.bg != prev.bg || cell.ch != last.ch;
                assert(dirty == self::dirty(buf@, self.lastbuf@, y as int, x as int));
                let ghost before = self.out@;
                if dirty {
                    if blanks > 0 {
                        push_cursor(&mut self.out, blanks, 'C');
                        blanks = 0;
                    }
                    push_cell(&mut self.out, cell);
                } else {
                    blanks += 1;
                }
                prev = cell;
                x += 1;
                assert(self.out@ =~= row_start + update_cells(
                    buf@,
                    self.lastbuf@,
                    y as int,
                    x as int,
                ));
            }
            push_next_line(&mut self.out);
            y += 1;
            assert(self.out@ =~= old(self).out@ + update_rows(buf@, self.lastbuf@, y as int));
            assert(prev == cell_before(buf@, y as int, 0));
        }
    }

    /// Paints the whole screen.
    pub fn redraw(&mut self, buf: &Buffer)
        requires
            buf.wf(),
        ensures
            final(self)@ == (TerminalState {
                out: old(self)@.out + redraw_screen(buf@),
                ..old(self)@
            }),
            old(self).wf() ==> final(self).wf(),
    {
        proof {
            buf.lemma_shape();
        }
        let mut y: usize = 0;
        while y < buf.height
            invariant
                y <= buf.spec_height(),
                buf.wf(),
                buf@.len() == buf.spec_height(),
                forall|j: int|
                    0 <= j < buf.spec_height() ==> (#[trigger] buf@[j]).len() == buf.spec_width(),
                self.lastbuf == old(self).lastbuf,
                self.out@ == old(self).out@ + redraw_rows(buf@, y as int),
            decreases buf.spec_height() - y,
        {
            let ghost row_start = self.out@;
            let mut x: usize = 0;
            while x < buf.width
                invariant
                    y < buf.spec_height(),
                    x <= buf.spec_width(),
                    buf.wf(),
                    buf@.len() == buf.spec_height(),
                    buf@[y as int].len() == buf.spec_width(),
                    self.lastbuf == old(self).lastbuf,
                    self.out@ == row_start + redraw_cells(buf@[y as int], x as int),
                decreases buf.spec_width() - x,
            {
                let cell = buf.get(x, y);
                push_cell(&mut self.out, cell);
                x += 1;
                assert(self.out@ =~= row_start + redraw_cells(buf@[y as int], x as int));
            }
            push_next_line(&mut self.out);
            y += 1;
            assert(self.out@ =~= old(self).out@ + redraw_rows(buf@, y as int));
        }
    }

    /// Brings the terminal to show `buf`.
    pub fn refresh(&mut self, buf: &Buffer)
        requires
            old(self).wf(),
            buf.wf(),
        ensures
            final(self).wf(),
            final(self)@ == (TerminalState {
                lastbuf: buf@,
                width: buf.spec_width(),
                out: old(self)@.out + refresh_sequence(
                    old(self)@.lastbuf,
                    old(self)@.width,
                    buf@,
                    buf.spec_width(),
                ),
            }),
    {
        proof {
            buf.lemma_shape();
            self.lastbuf.lemma_shape();
        }
        self.reset();
        if buf.width == self.lastbuf.width && buf.height == self.lastbuf.height {
            // go back up over the rows
            push_cursor(&mut self.out, buf.height, 'A');
            self.redraw(buf);
        } else {
            // make room for the whole screen
            let mut i: usize = 0;
            let ghost start = self.out@;
            while i < buf.height
                invariant
                    i <= buf.spec_height(),
                    self.wf(),
                    self@.lastbuf == old(self)@.lastbuf,
                    self@.width == old(self)@.width,
                    self.out@ == start + line_feeds(i as nat),
                decreases buf.spec_height() - i,
            {
                self.out.push('\n');
                i += 1;
                assert(self.out@ =~= start + line_feeds(i as nat));
            }
            self.redraw(buf);
        }
        self.reset();
        self.lastbuf = buf.clone();
        assert(self.out@ =~= old(self).out@ + refresh_sequence(
            old(self)@.lastbuf,
            old(self)@.width,
            buf@,
            buf.spec_width(),
        ));
    }
}

} // verus!
