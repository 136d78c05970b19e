use vstd::prelude::*;
use crate::memory::MemoryError;

verus! {

/// Abstract state of a screen: its size, the row the cursor is on, and the
/// terminal bytes it has produced and not yet handed out.
pub ghost struct ScreenView {
    pub width: nat,
    pub height: nat,
    pub row: nat,
    pub out: Seq<u8>,
}

/// Decimal digits of `n`, most significant first.
pub open spec fn decimal(n: nat) -> Seq<u8>
    decreases n,
{
    if n < 10 {
        seq![(48 + n) as u8]
    } else {
        decimal(n / 10) + seq![(48 + n % 10) as u8]
    }
}

/// Start of a terminal control sequence: ESC `[`.
pub open spec fn csi() -> Seq<u8> {
    seq![0x1Bu8, 0x5Bu8]
}

/// Sequence that moves the cursor to column `col` of its row.
pub open spec fn move_col_bytes(col: nat) -> Seq<u8> {
    csi() + decimal(col) + seq![0x47u8]
}

/// Sequence that moves the cursor from row `cur` to row `row`.
pub open spec fn move_row_bytes(cur: nat, row: nat) -> Seq<u8> {
    if row > cur {
        csi() + decimal((row - cur) as nat) + seq![0x45u8]
    } else if row < cur {
        csi() + decimal((cur - row) as nat) + seq![0x46u8]
    } else {
        Seq::empty()
    }
}

/// Sequence that clears the screen and homes the cursor.
pub open spec fn clear_bytes() -> Seq<u8> {
    csi() + seq![0x32u8, 0x4Au8] + csi() + seq![0x31u8, 0x3Bu8, 0x31u8, 0x48u8]
}

/// Sequence that clears the current line and returns to its first column.
pub open spec fn clear_line_bytes() -> Seq<u8> {
    csi() + seq![0x31u8, 0x4Bu8] + move_col_bytes(1)
}

/// UTF-8 encoding of the character whose scalar value is `c`.
pub open spec fn utf8_bytes(c: u8) -> Seq<u8> {
    if c < 0x80 {
        seq![c]
    } else {
        seq![(0xC0 + c / 64) as u8, (0x80 + c % 64) as u8]
    }
}

/// Command byte that clears the current line.
pub const CLEAR_LINE: u8 = 0xFE;

/// Command byte that clears the whole screen.
pub const CLEAR: u8 = 0xFF;

/// State after running command `code`.
pub open spec fn run_command(s: ScreenView, code: u8) -> ScreenView {
    if code == CLEAR_LINE {
        ScreenView { out: s.out + clear_line_bytes(), ..s }
    } else if code == CLEAR {
        ScreenView { out: s.out + clear_bytes(), row: 1, ..s }
    } else {
        s
    }
}

/// State after moving the cursor to `(col, row)`.
pub open spec fn move_to(s: ScreenView, col: nat, row: nat) -> ScreenView {
    ScreenView { out: s.out + move_row_bytes(s.row, row) + move_col_bytes(col), row, ..s }
}

/// Result of writing `data` at cell `location`: run the command in the high
/// byte, move to the cell, then print the character in the low byte.
pub open spec fn write_cell(s: ScreenView, location: nat, data: u16) -> Result<ScreenView, MemoryError> {
    if s.width == 0 || location / s.width >= s.height {
        Err(MemoryError::OutOfBounds(location as usize))
    } else {
        let t = move_to(
            run_command(s, (data / 256) as u8),
            location % s.width + 1,
            location / s.width + 1,
        );
        Ok(ScreenView { out: t.out + utf8_bytes((data % 256) as u8), ..t })
    }
}

/// A text terminal of `width` columns and `height` rows mapped into memory:
/// one cell per address. It turns writes into terminal control sequences and
/// characters, kept until `take_output` hands them out.
pub struct Screen {
    height: usize,
    width: usize,
    row: usize,
    out: Vec<u8>,
}

impl ScreenView {
    /// The number of cells fits in a `usize`.
    pub open spec fn wf(self) -> bool {
        self.width * self.height <= usize::MAX
    }
}

impl View for Screen {
    type V = ScreenView;

    closed spec fn view(&self) -> ScreenView {
        ScreenView {
            width: self.width as nat,
            height: self.height as nat,
            row: self.row as nat,
            out: self.out@,
        }
    }
}

/// Appends the decimal digits of `n`.
fn push_decimal(out: &mut Vec<u8>, n: usize)
    ensures
        final(out)@ == old(out)@ + decimal(n as nat),
    decreases n,
{
    if n >= 10 {
        push_decimal(out, n / 10);
    }
    out.push((48 + n % 10) as u8);
    proof {
        if n >= 10 {
            assert(final(out)@ =~= old(out)@ + decimal(n as nat));
        } else {
            assert(final(out)@ =~= old(out)@ + decimal(n as nat));
        }
    }
}

/// Appends ESC `[`.
fn push_csi(out: &mut Vec<u8>)
    ensures
        final(out)@ == old(out)@ + csi(),
{
    out.push(0x1B);
    out.push(0x5B);
    assert(final(out)@ =~= old(out)@ + csi());
}

/// Appends the sequence that moves to column `col`.
fn push_move_col(out: &mut Vec<u8>, col: usize)
    ensures
        final(out)@ == old(out)@ + move_col_bytes(col as nat),
{
    push_csi(out);
    push_decimal(out, col);
    out.push(0x47);
    assert(final(out)@ =~= old(out)@ + move_col_bytes(col as nat));
}

impl Screen {
    /// A screen of `width` columns and `height` rows, cursor on the first row.
    pub fn new(width: usize, height: usize) -> (s: Self)
        requires
            width * height <= usize::MAX,
        ensures
            s@.wf(),
            s@ == (ScreenView { width: width as nat, height: height as nat, row: 1, out: Seq::empty() }),
    {
        Self { height, width, row: 1, out: Vec::new() }
    }

    /// Number of cells, one address each.
    pub fn len(&self) -> (n: usize)
        requires
            self@.wf(),
        ensures
            n == self@.width * self@.height,
    {
        self.width * self.height
    }

    /// True when the screen has no cell.
    pub fn is_empty(&self) -> (b: bool)
        ensures
            b == (self@.width == 0 || self@.height == 0),
    {
        self.width == 0 || self.height == 0
    }

    /// Hands out the terminal bytes produced so far and forgets them.
    pub fn take_output(&mut self) -> (o: Vec<u8>)
        ensures
            o@ == old(self)@.out,
            final(self)@ == (ScreenView { out: Seq::empty(), ..old(self)@ }),
    {
        let mut o = Vec::new();
        core::mem::swap(&mut o, &mut self.out);
        o
    }

    fn move_row(&mut self, row: usize)
        ensures
            final(self)@ == (ScreenView {
                out: old(self)@.out + move_row_bytes(old(self)@.row, row as nat),
                row: row as nat,
                ..old(self)@
            }),
    {
        if row > self.row {
            push_csi(&mut self.out);
            push_decimal(&mut self.out, row - self.row);
            self.out.push(0x45);
        } else if row < self.row {
            push_csi(&mut self.out);
            push_decimal(&mut self.out, self.row - row);
            self.out.push(0x46);
        }
        self.row = row;
        assert(self.out@ =~= old(self)@.out + move_row_bytes(old(self)@.row, row as nat));
    }

    fn move_to(&mut self, col: usize, row: usize)
        ensures
            final(self)@ == move_to(old(self)@, col as nat, row as nat),
    {
        self.move_row(row);
        push_move_col(&mut self.out, col);
        assert(self.out@ =~= move_to(old(self)@, col as nat, row as nat).out);
    }

    fn clear(&mut self)
        ensures
            final(self)@ == (ScreenView { out: old(self)@.out + clear_bytes(), row: 1, ..old(self)@ }),
    {
        push_csi(&mut self.out);
        self.out.push(0x32);
        self.out.push(0x4A);
        push_csi(&mut self.out);
        self.out.push(0x31);
        self.out.push(0x3B);
        self.out.push(0x31);
        self.out.push(0x48);
        self.row = 1;
        assert(self.out@ =~= old(self)@.out + clear_bytes());
    }

    fn clear_line(&mut self)
        ensures
            final(self)@ == (ScreenView { out: old(self)@.out + clear_line_bytes(), ..old(self)@ }),
    {
        push_csi(&mut self.out);
        self.out.push(0x31);
        self.out.push(0x4B);
        push_move_col(&mut self.out, 1);
        assert(self.out@ =~= old(self)@.out + clear_line_bytes());
    }

    fn exec_code(&mut self, code: u8)
        ensures
            final(self)@ == run_command(old(self)@, code),
    {
        if code == CLEAR_LINE {
            self.clear_line();
        } else if code == CLEAR {
            self.clear();
        }
    }

    /// Reads always give 0.
    pub fn get_memory_at_u8(&self, _location: usize) -> (r: Result<u8, MemoryError>)
        ensures
            r == Ok::<u8, MemoryError>(0),
    {
        Ok(0)
    }

    /// Reads always give 0.
    pub fn get_memory_at_u16(&self, _location: usize) -> (r: Result<u16, MemoryError>)
        ensures
            r == Ok::<u16, MemoryError>(0),
    {
        Ok(0)
    }

    /// Runs the command `data`; the address plays no part.
    pub fn set_memory_at_u8(&mut self, _location: usize, data: u8) -> (r: Result<(), MemoryError>)
        ensures
            r is Ok,
            final(self)@ == run_command(old(self)@, data),
    {
        self.exec_code(data);
        Ok(())
    }

    /// Runs the command in the high byte of `data`, moves the cursor to the
    /// cell at `location` and prints the character in the low byte.
    pub fn set_memory_at_u16(&mut self, location: usize, data: u16) -> (r: Result<(), MemoryError>)
        ensures
            match write_cell(old(self)@, location as nat, data) {
                Ok(s) => r is Ok && final(self)@ == s,
                Err(e) => r == Err::<(), MemoryError>(e) && final(self)@ == old(self)@,
            },
    {
        if self.width == 0 || location / self.width >= self.height {
            return Err(MemoryError::OutOfBounds(location));
        }
        let x = location % self.width;
        let y = location / self.width;
        self.exec_code((data / 256) as u8);
        self.move_to(x + 1, y + 1);
        let c = (data % 256) as u8;
        if c < 0x80 {
            self.out.push(c);
        } else {
            self.out.push(0xC0 + c / 64);
            self.out.push(0x80 + c % 64);
        }
        proof {
            let t = move_to(run_command(old(self)@, (data / 256) as u8), (x + 1) as nat, (y + 1) as nat);
            assert(self.out@ =~= t.out + utf8_bytes(c));
        }
        Ok(())
    }
}

} // verus!
