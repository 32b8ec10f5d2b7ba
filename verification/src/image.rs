//! Decoded images and packed textures, with their mip chains.

use vstd::prelude::*;
use vstd::arithmetic::power2::{pow2, lemma_pow2_pos, lemma2_to64, lemma_pow2_strictly_increases};
use vstd::arithmetic::div_mod::lemma_basic_div;
use vstd::bits::lemma_u32_shr_is_div;

verus! {

/// The extent of mip level `level` along an axis whose full extent is
/// `extent`: each level halves the one above and none falls below one.
pub open spec fn level_extent(extent: u32, level: nat) -> nat {
    if extent as nat / pow2(level) == 0 {
        1
    } else {
        extent as nat / pow2(level)
    }
}

/// The number of four-component elements times four in level `level` of an
/// image: its sample count when decoded, its byte count when packed.
pub open spec fn level_len(width: u32, height: u32, level: nat) -> nat {
    level_extent(width, level) * level_extent(height, level) * 4
}

/// Computes the extent of a mip level along one axis.
pub fn mip_extent(extent: u32, level: usize) -> (e: u32)
    ensures
        e == level_extent(extent, level as nat),
        e >= 1,
        extent >= 1 ==> e <= extent,
{
    proof {
        lemma_pow2_pos(level as nat);
        lemma2_to64();
    }
    if level >= 32 {
        proof {
            if level > 32 {
                lemma_pow2_strictly_increases(32, level as nat);
            }
            lemma_basic_div(extent as int, pow2(level as nat) as int);
        }
        1
    } else {
        let shifted: u32 = extent >> (level as u32);
        proof {
            lemma_u32_shr_is_div(extent, level as u32);
            vstd::arithmetic::div_mod::lemma_div_nonincreasing(
                extent as int,
                pow2(level as nat) as int,
            );
        }
        if shifted == 0 {
            1
        } else {
            shifted
        }
    }
}

/// Computes the sample count (or packed byte count) of a mip level.
pub fn mip_len(width: u32, height: u32, level: usize) -> (n: u128)
    ensures
        n == level_len(width, height, level as nat),
        n >= 4,
{
    let w = mip_extent(width, level);
    let h = mip_extent(height, level);
    assert(1 <= w * h <= 0xffff_ffff * 0xffff_ffff) by (nonlinear_arith)
        requires
            1 <= w <= 0xffff_ffff,
            1 <= h <= 0xffff_ffff,
    ;
    (w as u128) * (h as u128) * 4
}

/// The number of samples in the first `levels` mip levels of an image.
pub open spec fn chain_len(width: u32, height: u32, levels: nat) -> nat
    decreases levels,
{
    if levels == 0 {
        0
    } else {
        chain_len(width, height, (levels - 1) as nat) + level_len(
            width,
            height,
            (levels - 1) as nat,
        )
    }
}

/// A longer mip chain holds no fewer samples.
pub proof fn lemma_chain_len_grows(width: u32, height: u32, fewer: nat, more: nat)
    requires
        fewer <= more,
    ensures
        chain_len(width, height, fewer) <= chain_len(width, height, more),
    decreases more - fewer,
{
    if fewer < more {
        lemma_chain_len_grows(width, height, fewer, (more - 1) as nat);
    }
}

/// Raw pixel data of one image: for every mip level, highest resolution
/// first, the binary32 patterns of its red, green, blue and alpha samples in
/// row-major order.
#[derive(Debug, Clone, PartialEq, Eq)]
pub struct DecodedImage {
    pub width: u32,
    pub height: u32,
    pub mip_levels: Vec<Vec<u32>>,
}

impl DecodedImage {
    /// Both extents are positive and every level holds four samples for each
    /// of its pixels.
    pub open spec fn well_formed(&self) -> bool {
        &&& self.width > 0
        &&& self.height > 0
        &&& self.mip_levels@.len() <= u32::MAX
        &&& forall|i: int|
            0 <= i < self.mip_levels@.len() ==> (#[trigger] self.mip_levels@[i])@.len()
                == level_len(self.width, self.height, i as nat)
    }

    /// Tests whether the image is well formed.
    pub fn is_well_formed(&self) -> (ok: bool)
        ensures
            ok == self.well_formed(),
    {
        if self.width == 0 || self.height == 0 || self.mip_levels.len() > u32::MAX as usize {
            return false;
        }
        let mut i: usize = 0;
        while i < self.mip_levels.len()
            invariant
                i <= self.mip_levels@.len(),
                forall|j: int|
                    0 <= j < i ==> (#[trigger] self.mip_levels@[j])@.len() == level_len(
                        self.width,
                        self.height,
                        j as nat,
                    ),
            decreases self.mip_levels@.len() - i,
        {
            if self.mip_levels[i].len() as u128 != mip_len(self.width, self.height, i) {
                return false;
            }
            i = i + 1;
        }
        true
    }

    /// Splits the samples of a whole mip chain, stored level after level
    /// from the largest down, into the levels of an image. The result is
    /// nothing if an extent is zero or the number of samples is not that of
    /// the chain.
    pub fn from_chain(width: u32, height: u32, mip_count: u32, samples: &Vec<u32>) -> (image:
        Option<DecodedImage>)
        ensures
            match image {
                Some(image) => {
                    &&& image.well_formed()
                    &&& image.width == width
                    &&& image.height == height
                    &&& image.mip_levels@.len() == mip_count
                    &&& samples@.len() == chain_len(width, height, mip_count as nat)
                    &&& forall|i: int|
                        0 <= i < mip_count ==> (#[trigger] image.mip_levels@[i])@
                            == samples@.subrange(
                            chain_len(width, height, i as nat) as int,
                            chain_len(width, height, (i + 1) as nat) as int,
                        )
                },
                None => width == 0 || height == 0 || samples@.len() != chain_len(
                    width,
                    height,
                    mip_count as nat,
                ),
            },
    {
        if width == 0 || height == 0 {
            return None;
        }
        let total: usize = samples.len();
        let count: usize = mip_count as usize;
        let mut mip_levels: Vec<Vec<u32>> = Vec::new();
        let mut start: usize = 0;
        let mut i: usize = 0;
        while i < count
            invariant
                i <= count,
                count == mip_count,
                total == samples@.len(),
                start <= total,
                start == chain_len(width, height, i as nat),
                mip_levels@.len() == i,
                forall|j: int|
                    0 <= j < i ==> (#[trigger] mip_levels@[j])@ == samples@.subrange(
                        chain_len(width, height, j as nat) as int,
                        chain_len(width, height, (j + 1) as nat) as int,
                    ),
            decreases count - i,
        {
            let len: u128 = mip_len(width, height, i);
            if len > (total - start) as u128 {
                proof {
                    lemma_chain_len_grows(width, height, (i + 1) as nat, count as nat);
                }
                return None;
            }
            let end: usize = start + len as usize;
            let mut level: Vec<u32> = Vec::new();
            let mut k: usize = start;
            while k < end
                invariant
                    start <= k <= end <= total,
                    total == samples@.len(),
                    level@ == samples@.subrange(start as int, k as int),
                decreases end - k,
            {
                level.push(samples[k]);
                k = k + 1;
                assert(level@ =~= samples@.subrange(start as int, k as int));
            }
            mip_levels.push(level);
            start = end;
            i = i + 1;
        }
        if start != total {
            return None;
        }
        let image = DecodedImage { width, height, mip_levels };
        assert forall|j: int| 0 <= j < image.mip_levels@.len() implies (
        #[trigger] image.mip_levels@[j])@.len() == level_len(width, height, j as nat) by {
            assert(chain_len(width, height, (j + 1) as nat) == chain_len(width, height, j as nat)
                + level_len(width, height, j as nat));
            lemma_chain_len_grows(width, height, (j + 1) as nat, count as nat);
        }
        Some(image)
    }

    /// Builds an image from its parts, or nothing if they are not well
    /// formed.
    pub fn new(width: u32, height: u32, mip_levels: Vec<Vec<u32>>) -> (image: Option<DecodedImage>)
        ensures
            match image {
                Some(image) => image.well_formed() && image.width == width && image.height
                    == height && image.mip_levels == mip_levels,
                None => !(DecodedImage { width, height, mip_levels }).well_formed(),
            },
    {
        let image = DecodedImage { width, height, mip_levels };
        if image.is_well_formed() {
            Some(image)
        } else {
            None
        }
    }
}

/// An image in RGB9E5: for every mip level, highest resolution first, one
/// little-endian 32-bit word per pixel in row-major order.
#[derive(Debug, Clone, PartialEq, Eq)]
pub struct PackedTexture {
    pub width: u32,
    pub height: u32,
    pub mip_count: u32,
    pub levels: Vec<Vec<u8>>,
}

impl PackedTexture {
    /// Both extents are positive, `mip_count` counts the levels and every
    /// level holds four bytes for each of its pixels.
    pub open spec fn well_formed(&self) -> bool {
        &&& self.width > 0
        &&& self.height > 0
        &&& self.levels@.len() == self.mip_count
        &&& forall|i: int|
            0 <= i < self.levels@.len() ==> (#[trigger] self.levels@[i])@.len() == level_len(
                self.width,
                self.height,
                i as nat,
            )
    }
}

} // verus!
