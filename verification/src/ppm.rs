use vstd::prelude::*;
use crate::canvas::{Rgb, RgbImage, image_height, image_width};

verus! {

/// The digits of `n` to base ten as ASCII, without leading zeros.
pub open spec fn decimal(n: nat) -> Seq<u8>
    decreases n,
{
    if n < 10 {
        seq![(48 + n) as u8]
    } else {
        decimal(n / 10).push((48 + n % 10) as u8)
    }
}

/// The three lines that open the text: the mark of a plain pixmap, the width
/// and the height, and 255 for the largest value of a channel.
pub open spec fn header(width: nat, height: nat) -> Seq<u8> {
    seq![80u8, 51u8, 10u8] + decimal(width) + seq![32u8] + decimal(height) + seq![
        10u8,
        50u8,
        53u8,
        53u8,
        10u8,
    ]
}

/// The line of one pixel: red, green and blue with a blank between them.
pub open spec fn pixel_line(pixel: Rgb) -> Seq<u8> {
    decimal(pixel.0 as nat) + seq![32u8] + decimal(pixel.1 as nat) + seq![32u8] + decimal(
        pixel.2 as nat,
    ) + seq![10u8]
}

/// The lines of the pixels of one row, from the left.
pub open spec fn row_lines(row: Seq<Rgb>) -> Seq<u8>
    decreases row.len(),
{
    if row.len() == 0 {
        Seq::empty()
    } else {
        row_lines(row.drop_last()) + pixel_line(row.last())
    }
}

/// The lines of the pixels of the rows, from the first row on.
pub open spec fn image_lines(rows: Seq<Seq<Rgb>>) -> Seq<u8>
    decreases rows.len(),
{
    if rows.len() == 0 {
        Seq::empty()
    } else {
        image_lines(rows.drop_last()) + row_lines(rows.last())
    }
}

/// An image as plain text: the header, then a line for each pixel, the rows
/// from the top and each row from the left.
pub open spec fn ppm_text(width: nat, rows: Seq<Seq<Rgb>>) -> Seq<u8> {
    header(width, rows.len()) + image_lines(rows)
}

/// Appends the digits of `n` to `out`.
fn push_decimal(out: &mut Vec<u8>, n: u32)
    ensures
        final(out)@ == old(out)@ + decimal(n as nat),
    decreases n,
{
    if n >= 10 {
        push_decimal(out, n / 10);
    }
    let digit: u8 = (48 + n % 10) as u8;
    out.push(digit);
    proof {
        if n < 10 {
            assert(final(out)@ =~= old(out)@ + decimal(n as nat));
        } else {
            assert(final(out)@ =~= old(out)@ + decimal(n as nat));
        }
    }
}

/// Appends the line of `pixel` to `out`.
fn push_pixel(out: &mut Vec<u8>, pixel: Rgb)
    ensures
        final(out)@ == old(out)@ + pixel_line(pixel),
{
    push_decimal(out, pixel.0 as u32);
    out.push(32);
    push_decimal(out, pixel.1 as u32);
    out.push(32);
    push_decimal(out, pixel.2 as u32);
    out.push(10);
    assert(final(out)@ =~= old(out)@ + pixel_line(pixel));
}

/// The image as the text of a plain PPM file.
pub fn encode(img: &RgbImage) -> (text: Vec<u8>)
    ensures
        text@ == ppm_text(image_width(*img), img@),
{
    let width = img.width();
    let height = img.height();
    let mut out: Vec<u8> = Vec::new();
    out.push(80);
    out.push(51);
    out.push(10);
    push_decimal(&mut out, width);
    out.push(32);
    push_decimal(&mut out, height);
    out.push(10);
    out.push(50);
    out.push(53);
    out.push(53);
    out.push(10);
    assert(out@ =~= header(width as nat, height as nat));
    let mut y: u32 = 0;
    while y < height
        invariant
            y <= height,
            width == image_width(*img),
            height == image_height(*img),
            out@ == header(width as nat, height as nat) + image_lines(img@.take(y as int)),
        decreases height - y,
    {
        let ghost before = out@;
        let mut x: u32 = 0;
        while x < width
            invariant
                x <= width,
                y < height,
                width == image_width(*img),
                height == image_height(*img),
                out@ == before + row_lines(img.row(y as int).take(x as int)),
            decreases width - x,
        {
            let pixel = img.get_pixel(x, y);
            push_pixel(&mut out, pixel);
            proof {
                let row = img.row(y as int);
                assert(row.take(x + 1).drop_last() =~= row.take(x as int));
                assert(row.take(x + 1).last() == pixel);
                assert(out@ =~= before + row_lines(row.take(x + 1)));
            }
            x += 1;
        }
        proof {
            assert(img.row(y as int).take(width as int) =~= img.row(y as int));
            assert(img@.take(y + 1).drop_last() =~= img@.take(y as int));
            assert(img@.take(y + 1).last() == img.row(y as int));
            assert(out@ =~= header(width as nat, height as nat) + image_lines(img@.take(y + 1)));
        }
        y += 1;
    }
    assert(img@.take(height as int) =~= img@);
    out
}

} // verus!
