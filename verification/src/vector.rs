//! Order keys, vectors of them, and the random number generator.
//!
//! A real is handed over as the 32 bits of its single-precision form: a
//! sign bit and 31 bits of magnitude, which grow as the magnitude does.
//! The key of a real that is not negative is its magnitude bits read as an
//! integer; the key of a negative real is the opposite of that. Both zeros
//! have key 0, the infinities have the keys just past `KEY_MAX` and
//! `KEY_MIN`, and keys compare as the reals do. Bits that are not a number
//! get one key below all others, so that they are above nothing.

use vstd::prelude::*;

verus! {

/// The key of the largest finite real.
pub const KEY_MAX: i32 = 0x7F7F_FFFF;

/// The key of the smallest finite real.
pub const KEY_MIN: i32 = -0x7F7F_FFFF;

/// The key of one.
pub const KEY_ONE: i32 = 0x3F80_0000;

/// The key of what is not a number.
pub const KEY_NAN: i32 = -0x7FC0_0000;

/// The magnitude bits of the largest magnitude there is, the infinite one.
pub const BITS_INFINITY: u32 = 0x7F80_0000;

/// The 31 bits of magnitude.
pub open spec fn magnitude(bits: u32) -> int {
    if bits >= 0x8000_0000 {
        bits - 0x8000_0000
    } else {
        bits as int
    }
}

/// The bits are a number, finite or not.
pub open spec fn is_number(bits: u32) -> bool {
    magnitude(bits) <= BITS_INFINITY
}

/// The key of the real that `bits` are.
pub open spec fn key_of(bits: u32) -> int {
    if !is_number(bits) {
        KEY_NAN as int
    } else if bits >= 0x8000_0000 {
        -magnitude(bits)
    } else {
        magnitude(bits)
    }
}

/// The bits of the real that `key` stands for. The key 0 gives the zero
/// without a sign.
pub open spec fn bits_of(key: i32) -> int {
    if key >= 0 {
        key as int
    } else {
        0x8000_0000 - key
    }
}

/// The key of the real that `bits` are.
pub fn key_of_bits(bits: u32) -> (key: i32)
    ensures
        key == key_of(bits),
        KEY_NAN <= key <= BITS_INFINITY,
{
    let negative = bits >= 0x8000_0000;
    let magnitude: u32 = if negative {
        bits - 0x8000_0000
    } else {
        bits
    };
    if magnitude > BITS_INFINITY {
        KEY_NAN
    } else if negative {
        -(magnitude as i32)
    } else {
        magnitude as i32
    }
}

/// The bits of the real that `key` stands for.
pub fn bits_of_key(key: i32) -> (bits: u32)
    requires
        key > i32::MIN,
    ensures
        bits == bits_of(key),
{
    if key >= 0 {
        key as u32
    } else {
        0x8000_0000u32 + ((-key) as u32)
    }
}

/// A number comes back from its key as it went in, but for the zero with
/// a sign, which comes back without; and what is not a number comes back as
/// something that is not a number.
pub proof fn law_key_round_trip(bits: u32)
    ensures
        i32::MIN < key_of(bits) <= i32::MAX,
        is_number(bits) && bits != 0x8000_0000 ==> bits_of(key_of(bits) as i32) == bits,
        bits == 0x8000_0000 ==> bits_of(key_of(bits) as i32) == 0,
        !is_number(bits) ==> 0 <= bits_of(key_of(bits) as i32) <= u32::MAX && !is_number(
            bits_of(key_of(bits) as i32) as u32,
        ),
{
}

/// Keys order the numbers as their signs and magnitudes do: of two numbers
/// that are not negative the one of the smaller magnitude has the smaller
/// key; of two negative numbers, the one of the larger magnitude; and a
/// negative number other than zero has a smaller key than any that is not
/// negative.
pub proof fn law_keys_order(a: u32, b: u32)
    requires
        is_number(a),
        is_number(b),
    ensures
        a < 0x8000_0000 && b < 0x8000_0000 ==> (key_of(a) < key_of(b) <==> magnitude(a)
            < magnitude(b)),
        a >= 0x8000_0000 && b >= 0x8000_0000 ==> (key_of(a) < key_of(b) <==> magnitude(a)
            > magnitude(b)),
        a >= 0x8000_0000 && b < 0x8000_0000 ==> (key_of(a) < key_of(b) <==> magnitude(a) > 0
            || magnitude(b) > 0),
        key_of(a) == key_of(b) <==> a == b || (magnitude(a) == 0 && magnitude(b) == 0),
{
}

/// The smaller of two keys.
pub open spec fn key_min(a: int, b: int) -> int {
    if b < a { b } else { a }
}

/// The larger of two keys.
pub open spec fn key_max(a: int, b: int) -> int {
    if b > a { b } else { a }
}

/// Three order keys, one per axis.
#[derive(Clone, Copy, Debug)]
pub struct Vec3k {
    pub data: [i32; 3],
}

impl Vec3k {
    pub fn new(x: i32, y: i32, z: i32) -> (v: Self)
        ensures
            v.data@ == seq![x, y, z],
    {
        Self { data: [x, y, z] }
    }

    /// The same key on every axis.
    pub fn from(value: i32) -> (v: Self)
        ensures
            v.data@ == seq![value, value, value],
    {
        Self { data: [value, value, value] }
    }

    /// The componentwise smaller of two vectors.
    pub fn min(a: Self, b: Self) -> (v: Self)
        ensures
            forall|i: int| 0 <= i < 3 ==> v.data[i] == key_min(a.data[i] as int, b.data[i] as int),
    {
        let x: i32 = if b.data[0] < a.data[0] { b.data[0] } else { a.data[0] };
        let y: i32 = if b.data[1] < a.data[1] { b.data[1] } else { a.data[1] };
        let z: i32 = if b.data[2] < a.data[2] { b.data[2] } else { a.data[2] };
        Self { data: [x, y, z] }
    }

    /// The componentwise larger of two vectors.
    pub fn max(a: Self, b: Self) -> (v: Self)
        ensures
            forall|i: int| 0 <= i < 3 ==> v.data[i] == key_max(a.data[i] as int, b.data[i] as int),
    {
        let x: i32 = if b.data[0] > a.data[0] { b.data[0] } else { a.data[0] };
        let y: i32 = if b.data[1] > a.data[1] { b.data[1] } else { a.data[1] };
        let z: i32 = if b.data[2] > a.data[2] { b.data[2] } else { a.data[2] };
        Self { data: [x, y, z] }
    }
}

/// The components of a three-component vector, singly and in every
/// order and repetition of two and of three.
pub trait Vec3Swizzles {
    type T;

    fn x(&self) -> Self::T;

    fn y(&self) -> Self::T;

    fn z(&self) -> Self::T;

    fn xx(&self) -> [Self::T; 2];

    fn xy(&self) -> [Self::T; 2];

    fn xz(&self) -> [Self::T; 2];

    fn yx(&self) -> [Self::T; 2];

    fn yy(&self) -> [Self::T; 2];

    fn yz(&self) -> [Self::T; 2];

    fn zx(&self) -> [Self::T; 2];

    fn zy(&self) -> [Self::T; 2];

    fn zz(&self) -> [Self::T; 2];

    fn xxx(&self) -> [Self::T; 3];

    fn xxy(&self) -> [Self::T; 3];

    fn xxz(&self) -> [Self::T; 3];

    fn yxx(&self) -> [Self::T; 3];

    fn yxy(&self) -> [Self::T; 3];

    fn yxz(&self) -> [Self::T; 3];

    fn zxx(&self) -> [Self::T; 3];

    fn zxy(&self) -> [Self::T; 3];

    fn zxz(&self) -> [Self::T; 3];

    fn xyx(&self) -> [Self::T; 3];

    fn xyy(&self) -> [Self::T; 3];

    fn xyz(&self) -> [Self::T; 3];

    fn yyx(&self) -> [Self::T; 3];

    fn yyy(&self) -> [Self::T; 3];

    fn yyz(&self) -> [Self::T; 3];

    fn zyx(&self) -> [Self::T; 3];

    fn zyy(&self) -> [Self::T; 3];

    fn zyz(&self) -> [Self::T; 3];

    fn xzx(&self) -> [Self::T; 3];

    fn xzy(&self) -> [Self::T; 3];

    fn xzz(&self) -> [Self::T; 3];

    fn yzx(&self) -> [Self::T; 3];

    fn yzy(&self) -> [Self::T; 3];

    fn yzz(&self) -> [Self::T; 3];

    fn zzx(&self) -> [Self::T; 3];

    fn zzy(&self) -> [Self::T; 3];

    fn zzz(&self) -> [Self::T; 3];
}

impl Vec3Swizzles for Vec3k {
    type T = i32;

    fn x(&self) -> (k: i32)
        ensures
            k == self.data[0],
    {
        self.data[0]
    }

    fn y(&self) -> (k: i32)
        ensures
            k == self.data[1],
    {
        self.data[1]
    }

    fn z(&self) -> (k: i32)
        ensures
            k == self.data[2],
    {
        self.data[2]
    }

    fn xx(&self) -> (k: [i32; 2])
        ensures
            k@ == seq![self.data[0], self.data[0]],
    {
        [self.data[0], self.data[0]]
    }

    fn xy(&self) -> (k: [i32; 2])
        ensures
            k@ == seq![self.data[0], self.data[1]],
    {
        [self.data[0], self.data[1]]
    }

    fn xz(&self) -> (k: [i32; 2])
        ensures
            k@ == seq![self.data[0], self.data[2]],
    {
        [self.data[0], self.data[2]]
    }

    fn yx(&self) -> (k: [i32; 2])
        ensures
            k@ == seq![self.data[1], self.data[0]],
    {
        [self.data[1], self.data[0]]
    }

    fn yy(&self) -> (k: [i32; 2])
        ensures
            k@ == seq![self.data[1], self.data[1]],
    {
        [self.data[1], self.data[1]]
    }

    fn yz(&self) -> (k: [i32; 2])
        ensures
            k@ == seq![self.data[1], self.data[2]],
    {
        [self.data[1], self.data[2]]
    }

    fn zx(&self) -> (k: [i32; 2])
        ensures
            k@ == seq![self.data[2], self.data[0]],
    {
        [self.data[2], self.data[0]]
    }

    fn zy(&self) -> (k: [i32; 2])
        ensures
            k@ == seq![self.data[2], self.data[1]],
    {
        [self.data[2], self.data[1]]
    }

    fn zz(&self) -> (k: [i32; 2])
        ensures
            k@ == seq![self.data[2], self.data[2]],
    {
        [self.data[2], self.data[2]]
    }

    fn xxx(&self) -> (k: [i32; 3])
        ensures
            k@ == seq![self.data[0], self.data[0], self.data[0]],
    {
        [self.data[0], self.data[0], self.data[0]]
    }

    fn xxy(&self) -> (k: [i32; 3])
        ensures
            k@ == seq![self.data[0], self.data[0], self.data[1]],
    {
        [self.data[0], self.data[0], self.data[1]]
    }

    fn xxz(&self) -> (k: [i32; 3])
        ensures
            k@ == seq![self.data[0], self.data[0], self.data[2]],
    {
        [self.data[0], self.data[0], self.data[2]]
    }

    fn yxx(&self) -> (k: [i32; 3])
        ensures
            k@ == seq![self.data[1], self.data[0], self.data[0]],
    {
        [self.data[1], self.data[0], self.data[0]]
    }

    fn yxy(&self) -> (k: [i32; 3])
        ensures
            k@ == seq![self.data[1], self.data[0], self.data[1]],
    {
        [self.data[1], self.data[0], self.data[1]]
    }

    fn yxz(&self) -> (k: [i32; 3])
        ensures
            k@ == seq![self.data[1], self.data[0], self.data[2]],
    {
        [self.data[1], self.data[0], self.data[2]]
    }

    fn zxx(&self) -> (k: [i32; 3])
        ensures
            k@ == seq![self.data[2], self.data[0], self.data[0]],
    {
        [self.data[2], self.data[0], self.data[0]]
    }

    fn zxy(&self) -> (k: [i32; 3])
        ensures
            k@ == seq![self.data[2], self.data[0], self.data[1]],
    {
        [self.data[2], self.data[0], self.data[1]]
    }

    fn zxz(&self) -> (k: [i32; 3])
        ensures
            k@ == seq![self.data[2], self.data[0], self.data[2]],
    {
        [self.data[2], self.data[0], self.data[2]]
    }

    fn xyx(&self) -> (k: [i32; 3])
        ensures
            k@ == seq![self.data[0], self.data[1], self.data[0]],
    {
        [self.data[0], self.data[1], self.data[0]]
    }

    fn xyy(&self) -> (k: [i32; 3])
        ensures
            k@ == seq![self.data[0], self.data[1], self.data[1]],
    {
        [self.data[0], self.data[1], self.data[1]]
    }

    fn xyz(&self) -> (k: [i32; 3])
        ensures
            k@ == seq![self.data[0], self.data[1], self.data[2]],
    {
        [self.data[0], self.data[1], self.data[2]]
    }

    fn yyx(&self) -> (k: [i32; 3])
        ensures
            k@ == seq![self.data[1], self.data[1], self.data[0]],
    {
        [self.data[1], self.data[1], self.data[0]]
    }

    fn yyy(&self) -> (k: [i32; 3])
        ensures
            k@ == seq![self.data[1], self.data[1], self.data[1]],
    {
        [self.data[1], self.data[1], self.data[1]]
    }

    fn yyz(&self) -> (k: [i32; 3])
        ensures
            k@ == seq![self.data[1], self.data[1], self.data[2]],
    {
        [self.data[1], self.data[1], self.data[2]]
    }

    fn zyx(&self) -> (k: [i32; 3])
        ensures
            k@ == seq![self.data[2], self.data[1], self.data[0]],
    {
        [self.data[2], self.data[1], self.data[0]]
    }

    fn zyy(&self) -> (k: [i32; 3])
        ensures
            k@ == seq![self.data[2], self.data[1], self.data[1]],
    {
        [self.data[2], self.data[1], self.data[1]]
    }

    fn zyz(&self) -> (k: [i32; 3])
        ensures
            k@ == seq![self.data[2], self.data[1], self.data[2]],
    {
        [self.data[2], self.data[1], self.data[2]]
    }

    fn xzx(&self) -> (k: [i32; 3])
        ensures
            k@ == seq![self.data[0], self.data[2], self.data[0]],
    {
        [self.data[0], self.data[2], self.data[0]]
    }

    fn xzy(&self) -> (k: [i32; 3])
        ensures
            k@ == seq![self.data[0], self.data[2], self.data[1]],
    {
        [self.data[0], self.data[2], self.data[1]]
    }

    fn xzz(&self) -> (k: [i32; 3])
        ensures
            k@ == seq![self.data[0], self.data[2], self.data[2]],
    {
        [self.data[0], self.data[2], self.data[2]]
    }

    fn yzx(&self) -> (k: [i32; 3])
        ensures
            k@ == seq![self.data[1], self.data[2], self.data[0]],
    {
        [self.data[1], self.data[2], self.data[0]]
    }

    fn yzy(&self) -> (k: [i32; 3])
        ensures
            k@ == seq![self.data[1], self.data[2], self.data[1]],
    {
        [self.data[1], self.data[2], self.data[1]]
    }

    fn yzz(&self) -> (k: [i32; 3])
        ensures
            k@ == seq![self.data[1], self.data[2], self.data[2]],
    {
        [self.data[1], self.data[2], self.data[2]]
    }

    fn zzx(&self) -> (k: [i32; 3])
        ensures
            k@ == seq![self.data[2], self.data[2], self.data[0]],
    {
        [self.data[2], self.data[2], self.data[0]]
    }

    fn zzy(&self) -> (k: [i32; 3])
        ensures
            k@ == seq![self.data[2], self.data[2], self.data[1]],
    {
        [self.data[2], self.data[2], self.data[1]]
    }

    fn zzz(&self) -> (k: [i32; 3])
        ensures
            k@ == seq![self.data[2], self.data[2], self.data[2]],
    {
        [self.data[2], self.data[2], self.data[2]]
    }
}

/// One step of the 32-bit xorshift generator.
pub open spec fn xor_shifted(x: u32) -> u32 {
    let a = x ^ (x << 13);
    let b = a ^ (a >> 17);
    b ^ (b << 5)
}

/// Advances the generator state and returns the new state.
pub fn xor_shift(input: &mut u32) -> (x: u32)
    ensures
        x == xor_shifted(*old(input)),
        *final(input) == x,
{
    let mut x: u32 = *input;
    x ^= x << 13;
    x ^= x >> 17;
    x ^= x << 5;
    *input = x;
    x
}

/// Advances the generator and returns the upper 24 bits of the new state:
/// a number below 2^24, so that dividing it by 2^24 gives a fraction that
/// is at least zero and less than one.
pub fn rand_u24(input: &mut u32) -> (r: u32)
    ensures
        r == xor_shifted(*old(input)) >> 8,
        r < 0x100_0000,
        *final(input) == xor_shifted(*old(input)),
{
    let x = xor_shift(input);
    assert((x >> 8) < 0x100_0000u32) by (bit_vector);
    x >> 8
}

/// A generator state of zero stays zero, and no other state ever becomes
/// zero.
pub proof fn law_xor_shift_zero(x: u32)
    ensures
        (xor_shifted(x) == 0) == (x == 0),
{
    assert(({
        let a = x ^ (x << 13);
        let b = a ^ (a >> 17);
        b ^ (b << 5)
    } == 0u32) == (x == 0u32)) by (bit_vector);
}

} // verus!
