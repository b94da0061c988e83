//! Images and their writing as plain-text pixmaps.

use vstd::prelude::*;

verus! {

/// The file formats an image can be written in.
#[derive(Clone, Copy, Debug, PartialEq, Eq)]
pub enum ImageFormat {
    /// Plain-text portable pixmap.
    PPM,
}

impl Default for ImageFormat {
    fn default() -> (f: Self)
        ensures
            f == ImageFormat::PPM,
    {
        ImageFormat::PPM
    }
}

/// A raster of 8-bit RGB pixels: three bytes a pixel, row after row.
#[derive(Debug)]
pub struct Image {
    pub format: ImageFormat,
    pub width: usize,
    pub height: usize,
    pub bytes: Vec<u8>,
}

impl Default for Image {
    fn default() -> (image: Self)
        ensures
            image.format == ImageFormat::PPM,
            image.width == 0,
            image.height == 0,
            image.bytes@.len() == 0,
    {
        Image { format: ImageFormat::PPM, width: 0, height: 0, bytes: Vec::new() }
    }
}

/// The decimal digits of `n`, most significant first, as ASCII.
pub open spec fn decimal(n: nat) -> Seq<u8>
    decreases n,
{
    if n < 10 {
        seq![(48 + n) as u8]
    } else {
        decimal(n / 10).push((48 + n % 10) as u8)
    }
}

/// The head of a plain pixmap: the magic number, the two sizes and the
/// largest channel value.
pub open spec fn ppm_header(width: nat, height: nat) -> Seq<u8> {
    seq![80u8, 51u8, 10u8] + decimal(width) + seq![32u8] + decimal(height) + seq![
        10u8,
        50u8,
        53u8,
        53u8,
        10u8,
    ]
}

/// The text of the pixel that starts at byte `at`: its three channels in
/// decimal, a space after each, and a line break as well when `at` is a
/// multiple of the width other than zero.
pub open spec fn ppm_pixel(bytes: Seq<u8>, width: nat, at: int) -> Seq<u8> {
    let text = decimal(bytes[at] as nat) + seq![32u8] + decimal(bytes[at + 1] as nat) + seq![32u8]
        + decimal(bytes[at + 2] as nat) + seq![32u8];
    if at != 0 && at % (width as int) == 0 {
        text.push(10u8)
    } else {
        text
    }
}

/// The text of the first `count` pixels, one after the other.
pub open spec fn ppm_body(bytes: Seq<u8>, width: nat, count: nat) -> Seq<u8>
    decreases count,
{
    if count == 0 {
        Seq::empty()
    } else {
        ppm_body(bytes, width, (count - 1) as nat) + ppm_pixel(bytes, width, 3 * (count - 1))
    }
}

/// A whole plain pixmap: the head, then every pixel.
pub open spec fn ppm_file(width: nat, height: nat, bytes: Seq<u8>) -> Seq<u8> {
    ppm_header(width, height) + ppm_body(bytes, width, bytes.len() / 3)
}

/// The pixels of `bytes` with a fourth channel, fully opaque, after the
/// three of each.
pub open spec fn with_alpha(bytes: Seq<u8>) -> Seq<u8> {
    Seq::new(
        4 * (bytes.len() / 3),
        |k: int|
            if k % 4 == 3 {
                255u8
            } else {
                bytes[3 * (k / 4) + k % 4]
            },
    )
}

/// Appends the decimal digits of `n` to `out`.
pub fn push_decimal(out: &mut Vec<u8>, n: usize)
    ensures
        final(out)@ == old(out)@ + decimal(n as nat),
    decreases n,
{
    if n >= 10 {
        push_decimal(out, n / 10);
    }
    let digit: u8 = (n % 10) as u8;
    out.push(48 + digit);
    proof {
        if n >= 10 {
            assert(final(out)@ =~= old(out)@ + decimal(n as nat));
        } else {
            assert(final(out)@ =~= old(out)@ + decimal(n as nat));
        }
    }
}

impl Image {
    /// An image of the given size with no pixels written yet.
    pub fn new(format: ImageFormat, width: usize, height: usize) -> (image: Self)
        ensures
            image.format == format,
            image.width == width,
            image.height == height,
            image.bytes@.len() == 0,
    {
        Self { format, width, height, bytes: Vec::new() }
    }

    /// Appends the text of the pixel that starts at byte `at`.
    fn push_pixel(&self, out: &mut Vec<u8>, at: usize)
        requires
            at + 2 < self.bytes@.len(),
            self.width > 0,
        ensures
            final(out)@ == old(out)@ + ppm_pixel(self.bytes@, self.width as nat, at as int),
    {
        let total = self.bytes.len();
        push_decimal(out, self.bytes[at] as usize);
        out.push(32);
        push_decimal(out, self.bytes[at + 1] as usize);
        out.push(32);
        push_decimal(out, self.bytes[at + 2] as usize);
        out.push(32);
        if at % self.width == 0 && at != 0 {
            out.push(10);
        }
        proof {
            assert(final(out)@ =~= old(out)@ + ppm_pixel(self.bytes@, self.width as nat, at as int));
        }
    }

    /// The pixels as a frame buffer takes them: four bytes a pixel, red,
    /// green, blue and an alpha of 255. Bytes after the last whole pixel
    /// are left out.
    pub fn to_rgba(&self) -> (frame: Vec<u8>)
        ensures
            frame@ == with_alpha(self.bytes@),
    {
        let total = self.bytes.len();
        let count = total / 3;
        let mut frame: Vec<u8> = Vec::new();
        let mut i: usize = 0;
        while i < count
            invariant
                total == self.bytes@.len(),
                count == total / 3,
                i <= count,
                frame@.len() == 4 * i,
                forall|k: int| 0 <= k < 4 * i ==> frame@[k] == with_alpha(self.bytes@)[k],
            decreases count - i,
        {
            frame.push(self.bytes[3 * i]);
            frame.push(self.bytes[3 * i + 1]);
            frame.push(self.bytes[3 * i + 2]);
            frame.push(255);
            i += 1;
        }
        proof {
            assert(frame@ =~= with_alpha(self.bytes@));
        }
        frame
    }

    /// The image as the bytes of a file in its format.
    pub fn encode(&self) -> (file: Vec<u8>)
        requires
            self.bytes@.len() % 3 == 0,
            self.width > 0 || self.bytes@.len() == 0,
        ensures
            file@ == ppm_file(self.width as nat, self.height as nat, self.bytes@),
    {
        let mut out: Vec<u8> = Vec::new();
        out.push(80);
        out.push(51);
        out.push(10);
        push_decimal(&mut out, self.width);
        out.push(32);
        push_decimal(&mut out, self.height);
        out.push(10);
        out.push(50);
        out.push(53);
        out.push(53);
        out.push(10);
        proof {
            assert(out@ =~= ppm_header(self.width as nat, self.height as nat));
        }
        let total = self.bytes.len();
        let count = total / 3;
        let mut done: usize = 0;
        while done < count
            invariant
                total == self.bytes@.len(),
                count == total / 3,
                self.bytes@.len() % 3 == 0,
                done <= count,
                self.width > 0 || count == 0,
                out@ == ppm_header(self.width as nat, self.height as nat) + ppm_body(
                    self.bytes@,
                    self.width as nat,
                    done as nat,
                ),
            decreases count - done,
        {
            let ghost head = ppm_header(self.width as nat, self.height as nat);
            let ghost body = ppm_body(self.bytes@, self.width as nat, done as nat);
            self.push_pixel(&mut out, 3 * done);
            proof {
                let pixel = ppm_pixel(self.bytes@, self.width as nat, 3 * done);
                assert(ppm_body(self.bytes@, self.width as nat, (done + 1) as nat) == body + pixel);
                assert((head + body) + pixel =~= head + (body + pixel));
            }
            done += 1;
        }
        proof {
            assert(count as nat == self.bytes@.len() / 3);
        }
        out
    }
}

} // verus!
