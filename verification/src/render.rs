//! A view of the pixel data for the eye: every pixel and every row's
//! filler bytes in hexadecimal, one line per row.

use crate::container::{BmpImage, ImageView};
use crate::error::ImageError;
use vstd::prelude::*;
use vstd::string::{StrSliceExecFns, StringExecFns};

verus! {

/// The hexadecimal digit for a number below 16.
pub open spec fn hex_digit(n: int) -> char {
    "0123456789abcdef"@[n]
}

/// The two hexadecimal digits of a byte, the high one first.
pub open spec fn hex_pair(byte: u8) -> Seq<char> {
    seq![hex_digit(byte as int / 16), hex_digit(byte as int % 16)]
}

/// The bytes in hexadecimal, one after another; with `spaced`, a blank
/// stands between one byte and the next.
pub open spec fn hex_run(bytes: Seq<u8>, spaced: bool) -> Seq<char>
    decreases bytes.len(),
{
    if bytes.len() == 0 {
        Seq::empty()
    } else if spaced && bytes.len() > 1 {
        hex_run(bytes.drop_last(), spaced) + seq![' '] + hex_pair(bytes.last())
    } else {
        hex_run(bytes.drop_last(), spaced) + hex_pair(bytes.last())
    }
}

impl ImageView {
    /// The bytes of the pixel at `row` and `col`.
    pub open spec fn pixel_bytes(self, row: int, col: int) -> Seq<u8> {
        self.pixels.subrange(
            row * self.stride() + col * self.bytes_per_pixel(),
            row * self.stride() + (col + 1) * self.bytes_per_pixel(),
        )
    }

    /// The filler bytes that end `row`.
    pub open spec fn padding_bytes(self, row: int) -> Seq<u8> {
        self.pixels.subrange(
            row * self.stride() + self.header.width * self.bytes_per_pixel(),
            (row + 1) * self.stride(),
        )
    }

    /// The first `cols` pixels of `row`: each pixel's bytes with blanks
    /// between them, and two blanks after each pixel.
    pub open spec fn pixels_text(self, row: int, cols: nat) -> Seq<char>
        decreases cols,
    {
        if cols == 0 {
            Seq::empty()
        } else {
            self.pixels_text(row, (cols - 1) as nat) + hex_run(
                self.pixel_bytes(row, cols - 1),
                true,
            ) + seq![' ', ' ']
        }
    }

    /// One line: the row's pixels, a blank, the row's filler bytes, and the
    /// end of the line.
    pub open spec fn row_text(self, row: int) -> Seq<char> {
        self.pixels_text(row, self.header.width as nat) + seq![' '] + hex_run(
            self.padding_bytes(row),
            false,
        ) + seq!['\n']
    }

    /// The lines of the first `rows` rows.
    pub open spec fn rows_text(self, rows: nat) -> Seq<char>
        decreases rows,
    {
        if rows == 0 {
            Seq::empty()
        } else {
            self.rows_text((rows - 1) as nat) + self.row_text(rows - 1)
        }
    }
}

/// Appends the two hexadecimal digits of `byte` to `text`.
fn push_hex_pair(text: &mut String, byte: u8)
    ensures
        final(text)@ == old(text)@ + hex_pair(byte),
{
    let digits = "0123456789abcdef";
    proof {
        reveal_strlit("0123456789abcdef");
    }
    let high: usize = (byte / 16) as usize;
    let low: usize = (byte % 16) as usize;
    text.append(digits.substring_ascii(high, high + 1));
    text.append(digits.substring_ascii(low, low + 1));
    assert(text@ =~= old(text)@ + hex_pair(byte));
}

/// Appends `count` bytes of `body`, from `from` on, in hexadecimal.
fn push_hex_run(text: &mut String, body: &[u8], from: usize, count: usize, spaced: bool)
    requires
        from + count <= body.len(),
    ensures
        final(text)@ == old(text)@ + hex_run(
            body@.subrange(from as int, from + count),
            spaced,
        ),
{
    let mut j: usize = 0;
    while j < count
        invariant
            j <= count,
            from + count <= body.len(),
            text@ == old(text)@ + hex_run(body@.subrange(from as int, from + j), spaced),
        decreases count - j,
    {
        let ghost before = text@;
        if spaced && j > 0 {
            text.append(" ");
            proof {
                reveal_strlit(" ");
                assert(" "@ =~= seq![' ']);
            }
        }
        push_hex_pair(text, body[from + j]);
        proof {
            let run = body@.subrange(from as int, from + j + 1);
            assert(run.drop_last() =~= body@.subrange(from as int, from + j));
            assert(run.last() == body@[from + j]);
            assert(text@ =~= old(text)@ + hex_run(run, spaced));
        }
        j += 1;
    }
}

/// Renders the pixel data of `img` in hexadecimal, one line per row: the
/// bytes of each pixel, then the row's filler bytes. An image whose pixel
/// data does not hold every row cannot be rendered.
pub fn debug_image(img: &BmpImage) -> (r: Result<String, ImageError>)
    ensures
        match r {
            Ok(text) => img@.complete() && text@ == img@.rows_text(img@.header.height as nat),
            Err(ImageError::InvalidFormat) => !img@.complete(),
            Err(_) => false,
        },
{
    let body = img.raw_body.as_slice();
    let width: u32 = img.header.width();
    let height: u32 = img.header.height();
    let pixel: u16 = img.header.bits_per_pixel() / 8;
    let padding: u32 = img.extra_info.padding();
    assert(width * pixel <= 0xffff_ffff * 0x1fff) by (nonlinear_arith)
        requires
            width <= 0xffff_ffff,
            pixel <= 0x1fff,
    ;
    let stride: u128 = width as u128 * pixel as u128 + padding as u128;
    assert(stride * height <= (0xffff_ffff * 0x1fff + 0xffff_ffff) * 0xffff_ffff)
        by (nonlinear_arith)
        requires
            stride <= 0xffff_ffff * 0x1fff + 0xffff_ffff,
            height <= 0xffff_ffff,
    ;
    if stride * height as u128 > body.len() as u128 {
        return Err(ImageError::InvalidFormat);
    }
    let ghost view = img@;
    let mut text = String::new();
    let mut at: usize = 0;
    let mut row: u32 = 0;
    while row < height
        invariant
            row <= height,
            view == img@,
            body@ == view.pixels,
            width == view.header.width,
            height == view.header.height,
            pixel == view.bytes_per_pixel(),
            padding == view.padding,
            stride == view.stride(),
            view.stride() * height <= body.len(),
            at == row * view.stride(),
            text@ == view.rows_text(row as nat),
        decreases height - row,
    {
        assert((row + 1) * view.stride() <= view.stride() * height) by (nonlinear_arith)
            requires
                row + 1 <= height,
                0 <= view.stride(),
        ;
        assert((row + 1) * view.stride() == row * view.stride() + view.stride())
            by (nonlinear_arith);
        let ghost start = at;
        let mut col: u32 = 0;
        while col < width
            invariant
                col <= width,
                row < height,
                body@ == view.pixels,
                width == view.header.width,
                pixel == view.bytes_per_pixel(),
                start == row * view.stride(),
                start + view.stride() <= body.len(),
                view.stride() == width * pixel + view.padding,
                at == start + col * pixel,
                text@ == view.rows_text(row as nat) + view.pixels_text(row as int, col as nat),
            decreases width - col,
        {
            assert((col + 1) * pixel <= width * pixel) by (nonlinear_arith)
                requires
                    col + 1 <= width,
                    0 <= pixel,
            ;
            assert((col + 1) * pixel == col * pixel + pixel) by (nonlinear_arith);
            push_hex_run(&mut text, body, at, pixel as usize, true);
            text.append("  ");
            proof {
                reveal_strlit("  ");
                assert("  "@ =~= seq![' ', ' ']);
                assert(body@.subrange(at as int, at + pixel) == view.pixel_bytes(
                    row as int,
                    col as int,
                ));
                assert(text@ =~= view.rows_text(row as nat) + view.pixels_text(
                    row as int,
                    (col + 1) as nat,
                ));
            }
            at = at + pixel as usize;
            col += 1;
        }
        text.append(" ");
        push_hex_run(&mut text, body, at, padding as usize, false);
        text.append("\n");
        proof {
            reveal_strlit(" ");
            reveal_strlit("\n");
            assert(" "@ =~= seq![' ']);
            assert("\n"@ =~= seq!['\n']);
            assert(body@.subrange(at as int, at + padding) == view.padding_bytes(row as int));
            assert(text@ =~= view.rows_text(row as nat) + view.row_text(row as int));
        }
        at = at + padding as usize;
        row += 1;
    }
    Ok(text)
}

} // verus!
