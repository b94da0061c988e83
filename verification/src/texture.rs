//! Textures and the lookup of their texels.

use vstd::prelude::*;
use crate::loader::bmp::BMP;

verus! {

/// A raster of 8-bit RGB texels, row after row from the top-left corner.
#[derive(Clone, Debug)]
pub struct Texture {
    pub width: usize,
    pub height: usize,
    pub pixel_data: Vec<[u8; 3]>,
}

/// Where a running texel number lands among `len` texels. A number within
/// `0..len` stays. One past the end is brought back in steps of `len - 1`
/// until it is at most `len - 1`; one below zero is brought up in the same
/// steps until it is at least zero.
pub open spec fn wrapped(index: int, len: int) -> int {
    if 0 <= index < len {
        index
    } else if index >= len {
        (index - 1) % (len - 1) + 1
    } else {
        index % (len - 1)
    }
}

/// The remainder of a negative number, from the remainder of its opposite.
pub proof fn lemma_mod_of_negative(x: int, m: int)
    requires
        x < 0,
        m > 0,
    ensures
        x % m == (if (-x) % m == 0 {
            0
        } else {
            m - (-x) % m
        }),
{
    let q = (-x) / m;
    let b = (-x) % m;
    vstd::arithmetic::div_mod::lemma_fundamental_div_mod(-x, m);
    vstd::arithmetic::div_mod::lemma_mod_pos_bound(-x, m);
    if b == 0 {
        assert(x == (-q) * m + 0) by (nonlinear_arith)
            requires
                -x == m * q + b,
                b == 0,
        ;
        vstd::arithmetic::div_mod::lemma_fundamental_div_mod_converse(x, m, -q, 0);
    } else {
        assert(x == (-q - 1) * m + (m - b)) by (nonlinear_arith)
            requires
                -x == m * q + b,
        ;
        vstd::arithmetic::div_mod::lemma_fundamental_div_mod_converse(x, m, -q - 1, m - b);
    }
}

impl Texture {
    /// Says whether the file at `path` is of the one kind a texture is
    /// read from: a bitmap, by the `bmp` after its last dot.
    pub fn supports(path: &str) -> (r: bool)
        ensures
            r == (crate::loader::obj::extension_of(path@) == "bmp"@),
    {
        crate::loader::obj::extension_is(path, "bmp")
    }

    /// The texel in column `i` of row `j` can be looked up: the running
    /// number `i + j * width` fits 32 bits, there are texels, not more
    /// than a 32-bit number counts, and if there is just one then it is
    /// the one asked for.
    pub open spec fn reaches(&self, i: int, j: int) -> bool {
        &&& self.width <= i32::MAX
        &&& 1 <= self.pixel_data@.len() <= i32::MAX
        &&& i32::MIN <= i + j * self.width <= i32::MAX
        &&& self.pixel_data@.len() == 1 ==> i + j * self.width == 0
    }

    /// Says whether `color_at` can be asked for column `i` of row `j`.
    pub fn can_reach(&self, i: i32, j: i32) -> (r: bool)
        ensures
            r == self.reaches(i as int, j as int),
    {
        let len = self.pixel_data.len();
        if self.width > 0x7FFF_FFFF || len < 1 || len > 0x7FFF_FFFF {
            return false;
        }
        let index: i64 = Self::running(i, j, self.width);
        if index < -0x8000_0000 || index > 0x7FFF_FFFF {
            return false;
        }
        len != 1 || index == 0
    }

    /// The running number of column `i` in row `j`.
    fn running(i: i32, j: i32, width: usize) -> (index: i64)
        requires
            width <= i32::MAX,
        ensures
            index == i + j * width,
    {
        let w: i64 = width as i64;
        proof {
            assert(-0x8000_0000 * 0x7FFF_FFFF <= (j as int) * (w as int) <= 0x8000_0000
                * 0x7FFF_FFFF) by (nonlinear_arith)
                requires
                    -0x8000_0000 <= j <= 0x7FFF_FFFF,
                    0 <= w <= 0x7FFF_FFFF,
            ;
        }
        i as i64 + (j as i64) * w
    }

    /// The texel in column `i` of row `j`, wrapped into the raster.
    pub fn color_at(&self, i: i32, j: i32) -> (c: [u8; 3])
        requires
            self.reaches(i as int, j as int),
        ensures
            c == self.pixel_data@[wrapped(i + j * self.width, self.pixel_data@.len() as int)],
    {
        let len: i64 = self.pixel_data.len() as i64;
        let index: i64 = Self::running(i, j, self.width);
        let at: i64 = if 0 <= index && index < len {
            index
        } else if index >= len {
            (index - 1) % (len - 1) + 1
        } else {
            let back: i64 = (-index) % (len - 1);
            proof {
                lemma_mod_of_negative(index as int, len as int - 1);
            }
            if back == 0 {
                0
            } else {
                len - 1 - back
            }
        };
        self.pixel_data[at as usize]
    }
}

impl From<BMP> for Texture {
    /// The bitmap's pixels under the bitmap's sizes.
    fn from(bmp: BMP) -> (t: Self)
        ensures
            t.width == bmp.width as usize,
            t.height == bmp.height as usize,
            t.pixel_data == bmp.pixel_data,
    {
        Texture {
            width: bmp.width as usize,
            height: bmp.height as usize,
            pixel_data: bmp.pixel_data,
        }
    }
}

impl vstd::std_specs::convert::FromSpecImpl<BMP> for Texture {
    open spec fn obeys_from_spec() -> bool {
        true
    }

    open spec fn from_spec(bmp: BMP) -> Self {
        Texture {
            width: bmp.width as usize,
            height: bmp.height as usize,
            pixel_data: bmp.pixel_data,
        }
    }
}

} // verus!
