//! The bookkeeping of a render: how pixels are numbered, seeded and shared
//! out, how many paths a pixel gets, and how the colours found become the
//! bytes of an image.

use vstd::prelude::*;
use crate::image::Image;
use crate::vector::Vec3k;

verus! {

/// What a render is set to do. The camera is given by order keys.
#[derive(Clone, Copy, Debug)]
pub struct Parameters {
    pub samples: usize,
    pub max_ray_depth: usize,
    pub debug_mode: bool,
    pub camera_pos: Vec3k,
    pub camera_target: Vec3k,
    pub camera_up: Vec3k,
}

impl Default for Parameters {
    /// One sample, six bounces, the camera eight units up the z axis
    /// looking at the origin with y up.
    fn default() -> (p: Self)
        ensures
            p.samples == 1,
            p.max_ray_depth == 6,
            !p.debug_mode,
            p.camera_pos.data@ == seq![0i32, 0i32, 0x4100_0000i32],
            p.camera_target.data@ == seq![0i32, 0i32, 0i32],
            p.camera_up.data@ == seq![0i32, 0x3F80_0000i32, 0i32],
    {
        Parameters {
            samples: 1,
            max_ray_depth: 6,
            debug_mode: false,
            camera_pos: Vec3k::new(0, 0, 0x4100_0000),
            camera_target: Vec3k::new(0, 0, 0),
            camera_up: Vec3k::new(0, 0x3F80_0000, 0),
        }
    }
}

/// Turns pixel numbers into what a render needs to know of them, and the
/// colours found into an image.
#[derive(Clone, Copy, Debug)]
pub struct Renderer {
    pub parameters: Parameters,
}

impl Default for Renderer {
    /// A renderer with the parameters that hold when none are given.
    fn default() -> (r: Self)
        ensures
            r.parameters.samples == 1,
            r.parameters.max_ray_depth == 6,
            !r.parameters.debug_mode,
            r.parameters.camera_pos.data@ == seq![0i32, 0i32, 0x4100_0000i32],
            r.parameters.camera_target.data@ == seq![0i32, 0i32, 0i32],
            r.parameters.camera_up.data@ == seq![0i32, 0x3F80_0000i32, 0i32],
    {
        Renderer { parameters: Parameters::default() }
    }
}

/// The state a pixel's generator starts in.
pub open spec fn seed_of(index: nat) -> nat {
    ((index % 0x1_0000_0000 + 87636354) % 0x1_0000_0000 * 987612486) % 0x1_0000_0000
}

/// The bytes of `pixels`, one pixel after the other.
pub open spec fn flat(pixels: Seq<[u8; 3]>) -> Seq<u8> {
    Seq::new(3 * pixels.len(), |k: int| pixels[k / 3][k % 3])
}

/// The number of threads `rayon::current_num_threads` reports for the
/// pool this runs in. Nothing is claimed of it: it is the machine's.
#[verifier::external_body]
fn worker_count() -> (workers: usize) {
    rayon::current_num_threads()
}

/// The size of the blocks that `pixels` pixels are handed out in to
/// `workers` workers: an equal share each, rounded down. There is none
/// without workers, or when a share would be empty.
pub open spec fn share_of(pixels: int, workers: int) -> Option<usize> {
    if workers > 0 && pixels / workers > 0 {
        Some((pixels / workers) as usize)
    } else {
        None
    }
}

/// The size of the blocks that `pixels` pixels are handed out in to
/// `workers` workers.
pub fn uniform_block(pixels: usize, workers: usize) -> (block: Option<usize>)
    ensures
        block == share_of(pixels as int, workers as int),
{
    if workers == 0 {
        return None;
    }
    let share = pixels / workers;
    if share == 0 {
        None
    } else {
        Some(share)
    }
}

impl Renderer {
    pub fn new(parameters: Parameters) -> (r: Self)
        ensures
            r.parameters == parameters,
    {
        Self { parameters }
    }

    /// The size of the blocks in which the pixels of `image` are handed
    /// out to the workers of this machine: the share of some number of
    /// workers, so never empty and never more than the whole image. There
    /// is none for an image of more pixels than can be counted.
    pub fn block_size(&self, image: &Image) -> (block: Option<usize>)
        ensures
            image.width * image.height > usize::MAX ==> block is None,
            image.width * image.height <= usize::MAX ==> exists|workers: usize|
                block == #[trigger] share_of(image.width * image.height, workers as int),
            block matches Some(size) ==> 0 < size <= image.width * image.height,
            image.width * image.height == 0 ==> block is None,
    {
        match image.width.checked_mul(image.height) {
            Some(pixels) => {
                let workers = worker_count();
                let block = uniform_block(pixels, workers);
                proof {
                    assert(block == share_of(image.width * image.height, workers as int));
                }
                block
            },
            None => None,
        }
    }

    /// The state in which the generator of pixel `index` starts.
    pub fn pixel_seed(index: usize) -> (seed: u32)
        ensures
            seed == seed_of(index as nat),
    {
        let low: u64 = (index as u64) % 0x1_0000_0000;
        let moved: u64 = (low + 87636354) % 0x1_0000_0000;
        ((moved * 987612486) % 0x1_0000_0000) as u32
    }

    /// The column of pixel `index`, and how high its row stands: `height` for
    /// the first row of pixels, one for the last.
    pub fn pixel_at(index: usize, width: usize, height: usize) -> (at: (usize, usize))
        requires
            width > 0,
            index < width * height,
        ensures
            at.0 == index % width,
            at.1 == height - index / width,
            at.0 < width,
            1 <= at.1 <= height,
    {
        proof {
            assert(index / width < height) by (nonlinear_arith)
                requires
                    width > 0,
                    index < width * height,
            ;
        }
        (index % width, height - index / width)
    }

    /// How many paths are traced for one pixel: as many as there are
    /// samples, but one at most when the hierarchy itself is drawn.
    pub fn paths_per_pixel(&self) -> (n: usize)
        ensures
            n == (if self.parameters.debug_mode && self.parameters.samples > 1 {
                1
            } else {
                self.parameters.samples
            }),
    {
        if self.parameters.debug_mode && self.parameters.samples > 1 {
            1
        } else {
            self.parameters.samples
        }
    }

    /// What the sum of a pixel's paths is divided by: the number of
    /// samples, or nothing when the hierarchy itself is drawn.
    pub fn sample_divisor(&self) -> (d: Option<usize>)
        ensures
            d == (if self.parameters.debug_mode {
                None
            } else {
                Some(self.parameters.samples)
            }),
    {
        if self.parameters.debug_mode {
            None
        } else {
            Some(self.parameters.samples)
        }
    }

    /// Writes the colours found, one for each pixel of the image in pixel
    /// order, into the image as a run of bytes: three for every pixel.
    pub fn render_to_image(&self, pixels: &Vec<[u8; 3]>, image: &mut Image)
        requires
            pixels@.len() == old(image).width * old(image).height,
        ensures
            final(image).bytes@ == flat(pixels@),
            final(image).bytes@.len() == 3 * (final(image).width * final(image).height),
            final(image).width == old(image).width,
            final(image).height == old(image).height,
            final(image).format == old(image).format,
    {
        let mut bytes: Vec<u8> = Vec::new();
        let mut k: usize = 0;
        while k < pixels.len()
            invariant
                k <= pixels@.len(),
                bytes@ == flat(pixels@.take(k as int)),
            decreases pixels@.len() - k,
        {
            let pixel = pixels[k];
            bytes.push(pixel[0]);
            bytes.push(pixel[1]);
            bytes.push(pixel[2]);
            proof {
                assert(bytes@ =~= flat(pixels@.take(k + 1)));
            }
            k += 1;
        }
        proof {
            assert(pixels@.take(k as int) =~= pixels@);
        }
        image.bytes = bytes;
    }
}

} // verus!
