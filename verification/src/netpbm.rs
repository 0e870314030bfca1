//! Binary netpbm (P6) encoding of a pixel buffer.
//!
//! The output is a textual header `P6\n<width> <height> 255\n` followed
//! by one three-byte record per pixel in row-major order: the top three
//! 8-bit channels of each packed `0xRRGGBBAA` color, most significant
//! byte first; the low (alpha) channel is dropped.

use vstd::prelude::*;

use crate::geom::Color;

verus! {

/// The decimal digits of `n`, most significant first, as ASCII bytes.
pub open spec fn dec_digits(n: int) -> Seq<u8>
    recommends
        n >= 0,
    decreases n,
{
    if n < 10 {
        seq![(48 + n) as u8]
    } else {
        dec_digits(n / 10).push((48 + n % 10) as u8)
    }
}

/// The header of a P6 image: `P6\n<width> <height> 255\n` in ASCII.
pub open spec fn header_bytes(width: int, height: int) -> Seq<u8> {
    seq![80u8, 54u8, 10u8] + dec_digits(width) + seq![32u8] + dec_digits(height) + seq![
        32u8,
        50u8,
        53u8,
        53u8,
        10u8,
    ]
}

/// The three-byte record of one packed `0xRRGGBBAA` color: red, green,
/// blue; the alpha channel is dropped.
pub open spec fn pixel_bytes(c: Color) -> Seq<u8> {
    seq![((c >> 24) & 0xFF) as u8, ((c >> 16) & 0xFF) as u8, ((c >> 8) & 0xFF) as u8]
}

/// The records of the first `k` pixels of the buffer, in order.
pub open spec fn body_bytes(pixels: Seq<Color>, k: int) -> Seq<u8>
    decreases k,
{
    if k <= 0 {
        Seq::empty()
    } else {
        body_bytes(pixels, k - 1) + pixel_bytes(pixels[k - 1])
    }
}

/// The whole P6 image: header, then one record per pixel.
pub open spec fn netpbm_bytes(width: int, height: int, pixels: Seq<Color>) -> Seq<u8> {
    header_bytes(width, height) + body_bytes(pixels, pixels.len() as int)
}

proof fn lemma_byte_mask(x: u32)
    by (bit_vector)
    ensures
        (x & 0xFF) < 256,
{
}

/// Appends the decimal digits of `n` to `out`.
fn push_dec(out: &mut Vec<u8>, n: usize)
    ensures
        final(out)@ == old(out)@ + dec_digits(n as int),
    decreases n,
{
    if n < 10 {
        out.push(48 + n as u8);
        proof {
            assert(out@ =~= old(out)@ + dec_digits(n as int));
        }
    } else {
        push_dec(out, n / 10);
        out.push(48 + (n % 10) as u8);
        proof {
            assert(out@ =~= old(out)@ + dec_digits(n as int));
        }
    }
}

/// Encodes a row-major pixel buffer of the given dimensions as a binary
/// P6 image.
pub fn encode_netpbm(width: usize, height: usize, pixels: &Vec<Color>) -> (r: Vec<u8>)
    requires
        pixels@.len() == width * height,
    ensures
        r@ == netpbm_bytes(width as int, height as int, pixels@),
{
    let mut out: Vec<u8> = Vec::new();
    out.push(80);
    out.push(54);
    out.push(10);
    push_dec(&mut out, width);
    out.push(32);
    push_dec(&mut out, height);
    out.push(32);
    out.push(50);
    out.push(53);
    out.push(53);
    out.push(10);
    proof {
        assert(out@ =~= header_bytes(width as int, height as int));
    }
    let total: usize = pixels.len();
    let mut k: usize = 0;
    while k < total
        invariant
            k <= total,
            total == pixels@.len(),
            out@ == header_bytes(width as int, height as int) + body_bytes(pixels@, k as int),
        decreases total - k,
    {
        let c: Color = pixels[k];
        proof {
            lemma_byte_mask(c >> 24);
            lemma_byte_mask(c >> 16);
            lemma_byte_mask(c >> 8);
        }
        out.push(((c >> 24) & 0xFF) as u8);
        out.push(((c >> 16) & 0xFF) as u8);
        out.push(((c >> 8) & 0xFF) as u8);
        k = k + 1;
        proof {
            assert(out@ =~= header_bytes(width as int, height as int) + body_bytes(
                pixels@,
                k as int,
            ));
        }
    }
    out
}

} // verus!
