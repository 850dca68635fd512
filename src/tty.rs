//! The terminal's output side, modelled as a buffer of pending bytes.
//!
//! Every drawing operation appends its control sequence to the buffer;
//! `flush` hands the buffered bytes out so that the caller can write them to
//! the terminal device in one go. The foreground colour last set is
//! shadowed so that redundant colour changes are not emitted.

use vstd::prelude::*;
use vstd::string::StringSliceAdditionalSpecFns;
use crate::ansi::{csi, digits, sgr_seq, ESC};

verus! {

/// The colour number that stands for the terminal's default foreground.
pub const DEFAULT_FG: u32 = 9;

/// `ESC [ K`: clear from the cursor to the end of the line.
pub open spec fn clearline_seq() -> Seq<u8> {
    csi(seq![], 0x4b)
}

/// `ESC [ K` followed by a line feed.
pub open spec fn newline_seq() -> Seq<u8> {
    clearline_seq().push(0x0a)
}

/// `ESC [ ? 7 l`: turn automatic line wrapping off.
pub open spec fn no_wrap_seq() -> Seq<u8> {
    csi(seq![0x3f, 0x37], 0x6c)
}

/// `ESC [ ? 7 h`: turn automatic line wrapping on.
pub open spec fn wrap_seq() -> Seq<u8> {
    csi(seq![0x3f, 0x37], 0x68)
}

/// `ESC [ n A`: move the cursor up `n` rows.
pub open spec fn move_up_seq(n: nat) -> Seq<u8> {
    csi(digits(n), 0x41)
}

/// `ESC [ c+1 G`: move the cursor to the zero-based column `c`.
pub open spec fn set_col_seq(c: nat) -> Seq<u8> {
    csi(digits(c + 1), 0x47)
}

/// Appends the decimal digits of `n` to `out`.
pub fn push_decimal(out: &mut Vec<u8>, n: u64)
    ensures
        final(out)@ == old(out)@ + digits(n as nat),
    decreases n,
{
    if n >= 10 {
        push_decimal(out, n / 10);
    }
    let d: u8 = (n % 10) as u8;
    out.push(0x30 + d);
    proof {
        assert(digits(n as nat) == if n < 10 {
            seq![(0x30 + n) as u8]
        } else {
            digits((n / 10) as nat).push((0x30 + n % 10) as u8)
        });
    }
}

/// Appends `bytes[from..to]` to `out`.
pub fn push_range(out: &mut Vec<u8>, bytes: &[u8], from: usize, to: usize)
    requires
        from <= to <= bytes@.len(),
    ensures
        final(out)@ == old(out)@ + bytes@.subrange(from as int, to as int),
{
    let mut i: usize = from;
    while i < to
        invariant
            from <= i <= to <= bytes@.len(),
            out@ == old(out)@ + bytes@.subrange(from as int, i as int),
        decreases to - i,
    {
        out.push(bytes[i]);
        proof {
            assert(bytes@.subrange(from as int, i + 1) == bytes@.subrange(from as int, i as int).push(bytes@[i as int]));
        }
        i = i + 1;
    }
}

/// The output side of the controlling terminal.
pub struct Tty {
    out: Vec<u8>,
    fg_color: u32,
    width: u16,
    height: u16,
}

impl Tty {
    /// The bytes written since the last flush.
    pub closed spec fn output(&self) -> Seq<u8> {
        self.out@
    }

    /// The foreground colour that the terminal currently shows.
    pub closed spec fn fg(&self) -> u32 {
        self.fg_color
    }

    /// The terminal's width in columns.
    pub closed spec fn width(&self) -> u16 {
        self.width
    }

    /// The terminal's height in rows.
    pub closed spec fn height(&self) -> u16 {
        self.height
    }

    pub fn max_width(&self) -> (r: u16)
        ensures
            r == self.width(),
    {
        self.width
    }

    pub fn max_height(&self) -> (r: u16)
        ensures
            r == self.height(),
    {
        self.height
    }

    /// A terminal of the given size, with nothing written yet and the default
    /// foreground colour.
    pub fn new(max_width: u16, max_height: u16) -> (r: Tty)
        ensures
            r.output() == Seq::<u8>::empty(),
            r.fg() == DEFAULT_FG,
            r.width() == max_width,
            r.height() == max_height,
    {
        Tty { out: Vec::new(), fg_color: DEFAULT_FG, width: max_width, height: max_height }
    }

    /// Select Graphic Rendition: `ESC [ code m`.
    pub fn sgr(&mut self, code: u32)
        ensures
            final(self).output() == old(self).output() + sgr_seq(code as nat),
            final(self).fg() == old(self).fg(),
            final(self).width() == old(self).width(),
            final(self).height() == old(self).height(),
    {
        self.out.push(ESC);
        self.out.push(0x5b);
        push_decimal(&mut self.out, code as u64);
        self.out.push(0x6d);
        proof {
            assert(self.out@ == old(self).out@ + sgr_seq(code as nat));
        }
    }

    /// Inverse video: SGR 7.
    pub fn set_invert(&mut self)
        ensures
            final(self).output() == old(self).output() + sgr_seq(7),
            final(self).fg() == old(self).fg(),
            final(self).width() == old(self).width(),
            final(self).height() == old(self).height(),
    {
        self.sgr(7)
    }

    /// Turns automatic line wrapping off.
    pub fn set_no_wrap(&mut self)
        ensures
            final(self).output() == old(self).output() + no_wrap_seq(),
            final(self).fg() == old(self).fg(),
            final(self).width() == old(self).width(),
            final(self).height() == old(self).height(),
    {
        self.out.push(ESC);
        self.out.push(0x5b);
        self.out.push(0x3f);
        self.out.push(0x37);
        self.out.push(0x6c);
        proof {
            assert(self.out@ == old(self).out@ + no_wrap_seq());
        }
    }

    /// Turns automatic line wrapping on.
    pub fn set_wrap(&mut self)
        ensures
            final(self).output() == old(self).output() + wrap_seq(),
            final(self).fg() == old(self).fg(),
            final(self).width() == old(self).width(),
            final(self).height() == old(self).height(),
    {
        self.out.push(ESC);
        self.out.push(0x5b);
        self.out.push(0x3f);
        self.out.push(0x37);
        self.out.push(0x68);
        proof {
            assert(self.out@ == old(self).out@ + wrap_seq());
        }
    }

    /// Resets all attributes (SGR 0); the foreground becomes the default.
    pub fn set_normal(&mut self)
        ensures
            final(self).output() == old(self).output() + sgr_seq(0),
            final(self).fg() == DEFAULT_FG,
            final(self).width() == old(self).width(),
            final(self).height() == old(self).height(),
    {
        self.sgr(0);
        self.fg_color = DEFAULT_FG;
    }

    /// Sets the foreground colour to `color` (SGR 30 + color), unless the
    /// terminal already shows it.
    pub fn set_fg(&mut self, color: u32)
        requires
            color <= 1000,
        ensures
            final(self).output() == old(self).output() + (if old(self).fg() == color {
                Seq::<u8>::empty()
            } else {
                sgr_seq(30 + color as nat)
            }),
            final(self).fg() == color,
            final(self).width() == old(self).width(),
            final(self).height() == old(self).height(),
    {
        if self.fg_color != color {
            self.sgr(30 + color);
            self.fg_color = color;
        }
        proof {
            if old(self).fg() == color {
                assert(self.out@ == old(self).out@ + Seq::<u8>::empty());
            }
        }
    }

    /// Moves the cursor up `rows` rows.
    pub fn move_up(&mut self, rows: usize)
        ensures
            final(self).output() == old(self).output() + move_up_seq(rows as nat),
            final(self).fg() == old(self).fg(),
            final(self).width() == old(self).width(),
            final(self).height() == old(self).height(),
    {
        self.out.push(ESC);
        self.out.push(0x5b);
        push_decimal(&mut self.out, rows as u64);
        self.out.push(0x41);
        proof {
            assert(self.out@ == old(self).out@ + move_up_seq(rows as nat));
        }
    }

    /// Moves the cursor to the zero-based column `col`.
    pub fn set_col(&mut self, col: usize)
        requires
            col < u64::MAX,
        ensures
            final(self).output() == old(self).output() + set_col_seq(col as nat),
            final(self).fg() == old(self).fg(),
            final(self).width() == old(self).width(),
            final(self).height() == old(self).height(),
    {
        self.out.push(ESC);
        self.out.push(0x5b);
        push_decimal(&mut self.out, col as u64 + 1);
        self.out.push(0x47);
        proof {
            assert(self.out@ == old(self).out@ + set_col_seq(col as nat));
        }
    }

    /// Writes the bytes of `s` as they are.
    pub fn print(&mut self, s: &str)
        ensures
            final(self).output() == old(self).output() + s.spec_bytes(),
            final(self).fg() == old(self).fg(),
            final(self).width() == old(self).width(),
            final(self).height() == old(self).height(),
    {
        let b = s.as_bytes();
        push_range(&mut self.out, b, 0, b.len());
        proof {
            assert(b@.subrange(0, b@.len() as int) == b@);
        }
    }

    /// Writes `bytes[from..to]` as they are.
    pub fn print_range(&mut self, bytes: &[u8], from: usize, to: usize)
        requires
            from <= to <= bytes@.len(),
        ensures
            final(self).output() == old(self).output() + bytes@.subrange(from as int, to as int),
            final(self).fg() == old(self).fg(),
            final(self).width() == old(self).width(),
            final(self).height() == old(self).height(),
    {
        push_range(&mut self.out, bytes, from, to);
    }

    /// Writes `bytes` as they are.
    pub fn write_bytes(&mut self, bytes: &[u8])
        ensures
            final(self).output() == old(self).output() + bytes@,
            final(self).fg() == old(self).fg(),
            final(self).width() == old(self).width(),
            final(self).height() == old(self).height(),
    {
        push_range(&mut self.out, bytes, 0, bytes.len());
        proof {
            assert(bytes@.subrange(0, bytes@.len() as int) == bytes@);
        }
    }

    /// Clears from the cursor to the end of the line.
    pub fn clearline(&mut self)
        ensures
            final(self).output() == old(self).output() + clearline_seq(),
            final(self).fg() == old(self).fg(),
            final(self).width() == old(self).width(),
            final(self).height() == old(self).height(),
    {
        self.out.push(ESC);
        self.out.push(0x5b);
        self.out.push(0x4b);
        proof {
            assert(self.out@ == old(self).out@ + clearline_seq());
        }
    }

    /// Clears from the cursor to the end of the line, then moves to the next.
    pub fn newline(&mut self)
        ensures
            final(self).output() == old(self).output() + newline_seq(),
            final(self).fg() == old(self).fg(),
            final(self).width() == old(self).width(),
            final(self).height() == old(self).height(),
    {
        self.out.push(ESC);
        self.out.push(0x5b);
        self.out.push(0x4b);
        self.out.push(0x0a);
        proof {
            assert(self.out@ == old(self).out@ + newline_seq());
        }
    }

    /// Puts the screen back before the terminal is released: wrapping on,
    /// cursor at column 0, the line cleared, attributes reset.
    pub fn release(&mut self)
        ensures
            final(self).output() == old(self).output() + wrap_seq() + set_col_seq(0) + clearline_seq() + sgr_seq(0),
            final(self).fg() == DEFAULT_FG,
            final(self).width() == old(self).width(),
            final(self).height() == old(self).height(),
    {
        self.set_wrap();
        self.set_col(0);
        self.clearline();
        self.set_normal();
    }

    /// Hands out the bytes written since the last flush and empties the buffer.
    pub fn flush(&mut self) -> (r: Vec<u8>)
        ensures
            r@ == old(self).output(),
            final(self).output() == Seq::<u8>::empty(),
            final(self).fg() == old(self).fg(),
            final(self).width() == old(self).width(),
            final(self).height() == old(self).height(),
    {
        let mut r: Vec<u8> = Vec::new();
        std::mem::swap(&mut r, &mut self.out);
        r
    }
}

} // verus!
