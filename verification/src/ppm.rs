//! Assembly of the textual image output.
//!
//! A finished render is a grid of 8-bit colour triples.  This module turns
//! that grid into the plain-text image format the renderer emits: a magic
//! token, the image width and height, the maximum channel value, then one
//! "R G B" line per pixel, rows top to bottom, pixels left to right.  The
//! contract fixes every byte of the output.  Averaging, gamma correction
//! and quantisation of the samples are floating-point work done by the
//! front end before the triples arrive here.

use vstd::prelude::*;

verus! {

/// One quantised pixel: three channel values, already gamma-corrected,
/// clamped and scaled to the 8-bit output range.
#[derive(Clone, Copy, Debug, PartialEq, Eq)]
pub struct Pixel {
    pub r: u8,
    pub g: u8,
    pub b: u8,
}

/// The ASCII digit for `d`.
pub open spec fn dec_digit(d: int) -> u8 {
    (48 + d) as u8
}

/// The shortest decimal numeral for `n`, as ASCII bytes.
pub open spec fn dec_rep(n: nat) -> Seq<u8>
    decreases n,
{
    if n < 10 {
        seq![dec_digit(n as int)]
    } else {
        dec_rep(n / 10) + seq![dec_digit((n % 10) as int)]
    }
}

/// The header: the magic token, then width and height, then the maximum
/// channel value.
pub open spec fn header_bytes(w: nat, h: nat) -> Seq<u8> {
    seq![80u8, 51u8, 10u8] + dec_rep(w) + seq![32u8] + dec_rep(h) + seq![10u8]
        + dec_rep(255) + seq![10u8]
}

/// One pixel line: the three channel numerals separated by spaces.
pub open spec fn pixel_bytes(p: Pixel) -> Seq<u8> {
    dec_rep(p.r as nat) + seq![32u8] + dec_rep(p.g as nat) + seq![32u8]
        + dec_rep(p.b as nat) + seq![10u8]
}

/// The pixel lines of the whole grid, in the order the grid stores them.
pub open spec fn body_bytes(pixels: Seq<Pixel>) -> Seq<u8>
    decreases pixels.len(),
{
    if pixels.len() == 0 {
        Seq::empty()
    } else {
        body_bytes(pixels.drop_last()) + pixel_bytes(pixels.last())
    }
}

/// The complete image text.
pub open spec fn image_bytes(w: nat, h: nat, pixels: Seq<Pixel>) -> Seq<u8> {
    header_bytes(w, h) + body_bytes(pixels)
}

/// The decimal numeral for `n`, least significant digit extracted last.
pub fn dec_bytes(n: u32) -> (v: Vec<u8>)
    ensures
        v@ == dec_rep(n as nat),
{
    let mut digits: Vec<u8> = Vec::new();
    if n == 0 {
        digits.push(48);
        return digits;
    }
    let mut m: u32 = n;
    while m > 0
        invariant
            m > 0 ==> dec_rep(n as nat) == dec_rep(m as nat) + digits@,
            m == 0 ==> dec_rep(n as nat) == digits@,
        decreases m,
    {
        let d: u8 = 48 + (m % 10) as u8;
        let ghost before = digits@;
        digits.insert(0, d);
        proof {
            assert(digits@ =~= seq![d] + before);
            if m >= 10 {
                assert(dec_rep(m as nat) =~= dec_rep((m / 10) as nat) + seq![d]);
                assert(dec_rep((m / 10) as nat) + (seq![d] + before) =~= dec_rep(
                    m as nat,
                ) + before);
            } else {
                assert(dec_rep(m as nat) =~= seq![d]);
            }
        }
        m = m / 10;
    }
    digits
}

/// Append the decimal numeral for `n` to `out`.
fn push_decimal(out: &mut Vec<u8>, n: u32)
    ensures
        final(out)@ == old(out)@ + dec_rep(n as nat),
{
    let mut d = dec_bytes(n);
    out.append(&mut d);
}

/// The image text for a `width` by `height` grid of pixels stored row by
/// row, top row first.
pub fn ppm_image(width: u32, height: u32, pixels: &Vec<Pixel>) -> (out: Vec<u8>)
    requires
        pixels@.len() == width * height,
    ensures
        out@ == image_bytes(width as nat, height as nat, pixels@),
{
    let mut out: Vec<u8> = Vec::new();
    out.push(80);
    out.push(51);
    out.push(10);
    push_decimal(&mut out, width);
    out.push(32);
    push_decimal(&mut out, height);
    out.push(10);
    push_decimal(&mut out, 255);
    out.push(10);
    proof {
        assert(out@ =~= header_bytes(width as nat, height as nat));
    }
    let ghost header = out@;
    let mut i: usize = 0;
    while i < pixels.len()
        invariant
            i <= pixels@.len(),
            out@ == header + body_bytes(pixels@.subrange(0, i as int)),
            header == header_bytes(width as nat, height as nat),
        decreases pixels@.len() - i,
    {
        let ghost before = out@;
        let p = pixels[i];
        push_decimal(&mut out, p.r as u32);
        out.push(32);
        push_decimal(&mut out, p.g as u32);
        out.push(32);
        push_decimal(&mut out, p.b as u32);
        out.push(10);
        proof {
            let sub = pixels@.subrange(0, i + 1);
            assert(sub.drop_last() =~= pixels@.subrange(0, i as int));
            assert(sub.last() == pixels@[i as int]);
            assert(out@ =~= before + pixel_bytes(pixels@[i as int]));
            assert(out@ =~= header + body_bytes(sub));
        }
        i = i + 1;
    }
    proof {
        assert(pixels@.subrange(0, pixels@.len() as int) =~= pixels@);
    }
    out
}

} // verus!
