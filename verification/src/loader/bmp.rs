//! The reader of uncompressed 24-bit bitmaps.

use vstd::prelude::*;

verus! {

/// An uncompressed 24-bit bitmap: its two sizes as the file states them,
/// and its pixels as RGB in file order.
#[derive(Debug)]
pub struct BMP {
    pub width: i32,
    pub height: i32,
    pub pixel_data: Vec<[u8; 3]>,
}

/// Why a file is not a bitmap this reader takes.
#[derive(Clone, Copy, Debug, PartialEq, Eq)]
pub enum BmpError {
    /// The file ends before something that has to be read from it.
    Truncated,
    /// The file does not start with the letters `BM`.
    BadSignature,
    /// The file says its pixels are compressed.
    Compressed,
    /// The pixel data is not a whole number of three-byte pixels.
    Ragged,
}

/// The unsigned 32-bit number stored least significant byte first at `at`.
pub open spec fn le_u32(bytes: Seq<u8>, at: int) -> int {
    bytes[at] + 256 * bytes[at + 1] + 65536 * bytes[at + 2] + 16777216 * bytes[at + 3]
}

/// The signed 32-bit number stored least significant byte first at `at`.
pub open spec fn le_i32(bytes: Seq<u8>, at: int) -> int {
    if le_u32(bytes, at) >= 0x8000_0000 {
        le_u32(bytes, at) - 0x1_0000_0000
    } else {
        le_u32(bytes, at)
    }
}

/// What is wrong with a file, if anything, going through it in reading
/// order: the signature, the place of the pixel data (at byte 10, without
/// a sign), the two sizes (at 18 and 22, with one), the compression (at
/// 30), the length of the pixel data (at 34), and the pixel data itself.
pub open spec fn bmp_error(bytes: Seq<u8>) -> Option<BmpError> {
    if bytes.len() < 2 {
        Some(BmpError::Truncated)
    } else if bytes[0] != 66 || bytes[1] != 77 {
        Some(BmpError::BadSignature)
    } else if bytes.len() < 34 {
        Some(BmpError::Truncated)
    } else if le_u32(bytes, 30) != 0 {
        Some(BmpError::Compressed)
    } else if bytes.len() < 38 {
        Some(BmpError::Truncated)
    } else if le_u32(bytes, 10) + le_u32(bytes, 34) > bytes.len() {
        Some(BmpError::Truncated)
    } else if le_u32(bytes, 34) % 3 != 0 {
        Some(BmpError::Ragged)
    } else {
        None
    }
}

/// Pixel `k` of the file: stored blue, green, red; given red, green, blue.
pub open spec fn bmp_pixel(bytes: Seq<u8>, k: int) -> Seq<u8> {
    let at = le_u32(bytes, 10) + 3 * k;
    seq![bytes[at + 2], bytes[at + 1], bytes[at]]
}

/// Reads the unsigned 32-bit number at `at`.
pub fn read_u32(bytes: &[u8], at: usize) -> (v: u32)
    requires
        at + 4 <= bytes@.len(),
    ensures
        v == le_u32(bytes@, at as int),
{
    let total = bytes.len();
    let b0: u32 = bytes[at] as u32;
    let b1: u32 = bytes[at + 1] as u32;
    let b2: u32 = bytes[at + 2] as u32;
    let b3: u32 = bytes[at + 3] as u32;
    b0 + 256 * b1 + 65536 * b2 + 16777216 * b3
}

/// Reads the signed 32-bit number at `at`.
pub fn read_i32(bytes: &[u8], at: usize) -> (v: i32)
    requires
        at + 4 <= bytes@.len(),
    ensures
        v == le_i32(bytes@, at as int),
{
    let raw: u32 = read_u32(bytes, at);
    if raw >= 0x8000_0000 {
        let wide: i64 = raw as i64 - 0x1_0000_0000;
        wide as i32
    } else {
        raw as i32
    }
}

impl BMP {
    /// Reads a bitmap from the bytes of its file.
    pub fn parse(bytes: &[u8]) -> (r: Result<BMP, BmpError>)
        ensures
            match r {
                Ok(bmp) => {
                    &&& bmp_error(bytes@) is None
                    &&& bmp.width == le_i32(bytes@, 18)
                    &&& bmp.height == le_i32(bytes@, 22)
                    &&& bmp.pixel_data@.len() == le_u32(bytes@, 34) / 3
                    &&& forall|k: int|
                        0 <= k < bmp.pixel_data@.len() ==> (#[trigger] bmp.pixel_data@[k])@
                            == bmp_pixel(bytes@, k)
                },
                Err(e) => bmp_error(bytes@) == Some(e),
            },
    {
        let total = bytes.len();
        if total < 2 {
            return Err(BmpError::Truncated);
        }
        if bytes[0] != 66 || bytes[1] != 77 {
            return Err(BmpError::BadSignature);
        }
        if total < 34 {
            return Err(BmpError::Truncated);
        }
        let offset: u32 = read_u32(bytes, 10);
        let width: i32 = read_i32(bytes, 18);
        let height: i32 = read_i32(bytes, 22);
        let compression: u32 = read_u32(bytes, 30);
        if compression != 0 {
            return Err(BmpError::Compressed);
        }
        if total < 38 {
            return Err(BmpError::Truncated);
        }
        let size: u32 = read_u32(bytes, 34);
        let start: usize = offset as usize;
        if start > total || size as usize > total - start {
            return Err(BmpError::Truncated);
        }
        if size % 3 != 0 {
            return Err(BmpError::Ragged);
        }
        let count: usize = (size / 3) as usize;
        let mut pixels: Vec<[u8; 3]> = Vec::new();
        let mut k: usize = 0;
        while k < count
            invariant
                k <= count,
                count == size / 3,
                size % 3 == 0,
                total == bytes@.len(),
                start == le_u32(bytes@, 10),
                start + size <= total,
                pixels@.len() == k,
                forall|m: int| 0 <= m < k ==> (#[trigger] pixels@[m])@ == bmp_pixel(bytes@, m),
            decreases count - k,
        {
            let at: usize = start + 3 * k;
            let pixel: [u8; 3] = [bytes[at + 2], bytes[at + 1], bytes[at]];
            proof {
                assert(pixel@ =~= bmp_pixel(bytes@, k as int));
            }
            pixels.push(pixel);
            k += 1;
        }
        Ok(BMP { width, height, pixel_data: pixels })
    }
}

} // verus!
