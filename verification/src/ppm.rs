//! The finished frame as a plain-text pixel map.
//!
//! The image starts with the line `P3`, a line with the width and the height
//! and a line with the greatest channel value, 255. One line for each pixel
//! follows, row by row from the top, with the red, green and blue channels
//! in decimal.
use crate::render::RenderTarget;
use vstd::prelude::*;

verus! {

/// The character `0`.
pub const DIGIT_ZERO: u8 = 48;

/// The blank between two numbers.
pub const SPACE: u8 = 32;

/// The end of a line.
pub const NEWLINE: u8 = 10;

/// The decimal digits of `n`, without leading zeros.
pub open spec fn decimal(n: nat) -> Seq<u8>
    decreases n,
{
    if n < 10 {
        seq![(48 + n) as u8]
    } else {
        decimal(n / 10).push((48 + n % 10) as u8)
    }
}

/// The first lines of the image: the magic number `P3`, the size, and the
/// greatest channel value.
pub open spec fn header(width: nat, height: nat) -> Seq<u8> {
    seq![80u8, 51u8, 10u8] + decimal(width) + seq![32u8] + decimal(height) + seq![
        10u8,
        50u8,
        53u8,
        53u8,
        10u8,
    ]
}

/// The line of one pixel.
pub open spec fn pixel_line(p: (u8, u8, u8)) -> Seq<u8> {
    decimal(p.0 as nat) + seq![32u8] + decimal(p.1 as nat) + seq![32u8] + decimal(p.2 as nat)
        + seq![10u8]
}

/// The lines of the first `n` pixels of `frame`.
pub open spec fn pixel_lines(frame: Seq<(u8, u8, u8)>, n: nat) -> Seq<u8>
    decreases n,
{
    if n == 0 {
        Seq::empty()
    } else {
        pixel_lines(frame, (n - 1) as nat) + pixel_line(frame[n - 1])
    }
}

/// The whole image.
pub open spec fn ppm_spec(width: nat, height: nat, frame: Seq<(u8, u8, u8)>) -> Seq<u8> {
    header(width, height) + pixel_lines(frame, frame.len())
}

/// Appends the decimal digits of `n`.
pub fn push_decimal(out: &mut Vec<u8>, n: usize)
    ensures
        final(out)@ == old(out)@ + decimal(n as nat),
    decreases n,
{
    if n >= 10 {
        push_decimal(out, n / 10);
    }
    let d: u8 = (n % 10) as u8;
    out.push(DIGIT_ZERO + d);
    assert(out@ =~= old(out)@ + decimal(n as nat));
}

/// Appends the line of one pixel.
pub fn push_pixel(out: &mut Vec<u8>, p: (u8, u8, u8))
    ensures
        final(out)@ == old(out)@ + pixel_line(p),
{
    push_decimal(out, p.0 as usize);
    out.push(SPACE);
    push_decimal(out, p.1 as usize);
    out.push(SPACE);
    push_decimal(out, p.2 as usize);
    out.push(NEWLINE);
    assert(out@ =~= old(out)@ + pixel_line(p));
}

impl RenderTarget {
    /// The frame buffer as a plain-text pixel map.
    pub fn to_ppm(&self) -> (out: Vec<u8>)
        ensures
            out@ == ppm_spec(self.width as nat, self.height as nat, self.frame_buffer@),
    {
        let mut out: Vec<u8> = Vec::new();
        out.push(80);
        out.push(51);
        out.push(NEWLINE);
        push_decimal(&mut out, self.width);
        out.push(SPACE);
        push_decimal(&mut out, self.height);
        out.push(NEWLINE);
        out.push(50);
        out.push(53);
        out.push(53);
        out.push(NEWLINE);
        assert(out@ =~= header(self.width as nat, self.height as nat));
        let mut i: usize = 0;
        while i < self.frame_buffer.len()
            invariant
                i <= self.frame_buffer.len(),
                out@ == header(self.width as nat, self.height as nat) + pixel_lines(
                    self.frame_buffer@,
                    i as nat,
                ),
            decreases self.frame_buffer.len() - i,
        {
            push_pixel(&mut out, self.frame_buffer[i]);
            i += 1;
            assert(out@ =~= header(self.width as nat, self.height as nat) + pixel_lines(
                self.frame_buffer@,
                i as nat,
            ));
        }
        out
    }
}

} // verus!
