//! Plain-text PPM (`P3`) encoding of an image whose pixels are 8-bit RGB
//! triples, given in output order.

use vstd::prelude::*;

verus! {

/// One finished pixel: red, green and blue on `0..=255`.
#[derive(Clone, Copy, Debug, PartialEq, Eq, Structural)]
pub struct Rgb8 {
    pub r: u8,
    pub g: u8,
    pub b: u8,
}

/// ASCII code of the digit `d`.
pub open spec fn digit(d: nat) -> u8 {
    (d + 48) as u8
}

/// Decimal digits of `n`, most significant first, with no leading zero.
pub open spec fn decimal(n: nat) -> Seq<u8>
    decreases n,
{
    if n < 10 {
        seq![digit(n)]
    } else {
        decimal(n / 10) + seq![digit(n % 10)]
    }
}

pub open spec fn space() -> u8 {
    32
}

pub open spec fn newline() -> u8 {
    10
}

/// The comment line that follows the magic number, in ASCII:
/// `# Raytraced image generated by Maiks raytracer`, ended by a newline.
pub open spec fn comment() -> Seq<u8> {
    seq![
        35u8, 32u8, 82u8, 97u8, 121u8, 116u8, 114u8, 97u8, 99u8, 101u8, 100u8, 32u8,
        105u8, 109u8, 97u8, 103u8, 101u8, 32u8, 103u8, 101u8, 110u8, 101u8, 114u8, 97u8,
        116u8, 101u8, 100u8, 32u8, 98u8, 121u8, 32u8, 77u8, 97u8, 105u8, 107u8, 115u8,
        32u8, 114u8, 97u8, 121u8, 116u8, 114u8, 97u8, 99u8, 101u8, 114u8, 10u8,
    ]
}

/// The header: magic `P3`, the comment line, the dimensions, the largest
/// channel value `255`, and an empty line.
pub open spec fn header(width: nat, height: nat) -> Seq<u8> {
    seq![80u8, 51u8, newline()] + comment() + decimal(width) + seq![space()] + decimal(height) + seq![
        newline(),
        50u8,
        53u8,
        53u8,
        newline(),
        newline(),
    ]
}

/// One pixel as a line `r g b`.
pub open spec fn pixel_line(p: Rgb8) -> Seq<u8> {
    decimal(p.r as nat) + seq![space()] + decimal(p.g as nat) + seq![space()] + decimal(
        p.b as nat,
    ) + seq![newline()]
}

/// The lines of all pixels, in the order given.
pub open spec fn pixel_lines(ps: Seq<Rgb8>) -> Seq<u8>
    decreases ps.len(),
{
    if ps.len() == 0 {
        Seq::empty()
    } else {
        pixel_lines(ps.drop_last()) + pixel_line(ps.last())
    }
}

/// The whole file.
pub open spec fn ppm(width: nat, height: nat, ps: Seq<Rgb8>) -> Seq<u8> {
    header(width, height) + pixel_lines(ps)
}

fn push_decimal(out: &mut Vec<u8>, n: usize)
    ensures
        final(out)@ == old(out)@ + decimal(n as nat),
    decreases n,
{
    if n >= 10 {
        push_decimal(out, n / 10);
    }
    let d: u8 = (n % 10) as u8;
    out.push(d + 48);
    assert(final(out)@ =~= old(out)@ + decimal(n as nat));
}

fn push_comment(out: &mut Vec<u8>)
    ensures
        final(out)@ == old(out)@ + comment(),
{
    let line: Vec<u8> = vec![
        35, 32, 82, 97, 121, 116, 114, 97, 99, 101, 100, 32,
        105, 109, 97, 103, 101, 32, 103, 101, 110, 101, 114, 97,
        116, 101, 100, 32, 98, 121, 32, 77, 97, 105, 107, 115,
        32, 114, 97, 121, 116, 114, 97, 99, 101, 114, 10,
    ];
    assert(line@ =~= comment());
    let ghost start = out@;
    let mut i: usize = 0;
    while i < line.len()
        invariant
            i <= line@.len(),
            line@ == comment(),
            out@ == start + line@.subrange(0, i as int),
        decreases line@.len() - i,
    {
        out.push(line[i]);
        assert(line@.subrange(0, i + 1) =~= line@.subrange(0, i as int).push(line@[i as int]));
        i = i + 1;
    }
    assert(line@.subrange(0, line@.len() as int) =~= line@);
}

fn push_pixel_line(out: &mut Vec<u8>, p: Rgb8)
    ensures
        final(out)@ == old(out)@ + pixel_line(p),
{
    push_decimal(out, p.r as usize);
    out.push(32);
    push_decimal(out, p.g as usize);
    out.push(32);
    push_decimal(out, p.b as usize);
    out.push(10);
    assert(final(out)@ =~= old(out)@ + pixel_line(p));
}

/// Encodes `pixels`, given in output order, as a `P3` image of `width` by
/// `height` pixels.
pub fn to_ppm(pixels: &Vec<Rgb8>, width: usize, height: usize) -> (r: Vec<u8>)
    ensures
        r@ == ppm(width as nat, height as nat, pixels@),
{
    let mut out: Vec<u8> = Vec::new();
    out.push(80);
    out.push(51);
    out.push(10);
    push_comment(&mut out);
    push_decimal(&mut out, width);
    out.push(32);
    push_decimal(&mut out, height);
    out.push(10);
    out.push(50);
    out.push(53);
    out.push(53);
    out.push(10);
    out.push(10);
    assert(out@ =~= header(width as nat, height as nat));
    let mut k: usize = 0;
    while k < pixels.len()
        invariant
            k <= pixels@.len(),
            out@ == header(width as nat, height as nat) + pixel_lines(pixels@.subrange(0, k as int)),
        decreases pixels@.len() - k,
    {
        let ghost before = out@;
        push_pixel_line(&mut out, pixels[k]);
        assert(pixels@.subrange(0, k + 1).drop_last() =~= pixels@.subrange(0, k as int));
        assert(out@ =~= before + pixel_line(pixels@[k as int]));
        k = k + 1;
    }
    assert(pixels@.subrange(0, pixels@.len() as int) =~= pixels@);
    out
}

} // verus!
