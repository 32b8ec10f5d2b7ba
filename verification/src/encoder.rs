//! The shared-exponent encoder: from a decoded image to a packed texture.

use vstd::prelude::*;
use crate::endian::le_bytes;
use crate::image::{level_len, DecodedImage, PackedTexture};
use crate::rgb9e5::{encode_pixel, encoded_word};

verus! {

/// The RGB9E5 word of pixel `p` of a level: its red, green and blue samples
/// encoded, its alpha sample left out.
pub open spec fn pixel_word(samples: Seq<u32>, p: int) -> nat {
    encoded_word(samples[4 * p], samples[4 * p + 1], samples[4 * p + 2])
}

/// The packed form of one level: for every whole pixel, in order, the four
/// bytes of its word.
pub open spec fn packed_level(samples: Seq<u32>) -> Seq<u8> {
    Seq::new(
        ((samples.len() / 4) * 4) as nat,
        |k: int| le_bytes(pixel_word(samples, k / 4))[k % 4],
    )
}

/// Encodes one mip level.
pub fn encode_level(samples: &Vec<u32>) -> (bytes: Vec<u8>)
    ensures
        bytes@ == packed_level(samples@),
{
    let n: usize = samples.len() / 4;
    let mut bytes: Vec<u8> = Vec::new();
    let mut p: usize = 0;
    while p < n
        invariant
            p <= n,
            n == samples@.len() / 4,
            samples@.len() <= usize::MAX,
            bytes@.len() == 4 * p,
            forall|k: int|
                0 <= k < 4 * p ==> bytes@[k] == le_bytes(pixel_word(samples@, k / 4))[k % 4],
        decreases n - p,
    {
        let word: u32 = encode_pixel(samples[4 * p], samples[4 * p + 1], samples[4 * p + 2]);
        assert(word == pixel_word(samples@, p as int));
        bytes.push((word % 0x100) as u8);
        bytes.push(((word / 0x100) % 0x100) as u8);
        bytes.push(((word / 0x1_0000) % 0x100) as u8);
        bytes.push(((word / 0x100_0000) % 0x100) as u8);
        p = p + 1;
    }
    assert(bytes@ =~= packed_level(samples@));
    bytes
}

/// The packed form depends on the colour samples alone: two levels that
/// differ only in alpha pack to the same bytes.
pub proof fn lemma_alpha_is_dropped(a: Seq<u32>, b: Seq<u32>)
    requires
        a.len() == b.len(),
        forall|k: int| 0 <= k < a.len() && k % 4 != 3 ==> a[k] == b[k],
    ensures
        packed_level(a) == packed_level(b),
{
    assert forall|p: int| 0 <= p < a.len() / 4 implies #[trigger] pixel_word(a, p) == pixel_word(
        b,
        p,
    ) by {
        assert(a[4 * p] == b[4 * p]);
        assert(a[4 * p + 1] == b[4 * p + 1]);
        assert(a[4 * p + 2] == b[4 * p + 2]);
    }
    assert forall|k: int| 0 <= k < (a.len() / 4) * 4 implies #[trigger] packed_level(a)[k]
        == packed_level(b)[k] by {
        assert(pixel_word(a, k / 4) == pixel_word(b, k / 4));
    }
    assert(packed_level(a) =~= packed_level(b));
}

/// The packed form of a level holds one word for every whole pixel, and
/// pixel `p` stands at byte `4 * p`.
pub proof fn lemma_packed_pixel(samples: Seq<u32>, p: int)
    requires
        0 <= p < samples.len() / 4,
    ensures
        packed_level(samples).len() == (samples.len() / 4) * 4,
        packed_level(samples).subrange(4 * p, 4 * p + 4) == le_bytes(pixel_word(samples, p)),
{
    assert forall|k: int| 0 <= k < 4 implies packed_level(samples)[4 * p + k] == le_bytes(
        pixel_word(samples, p),
    )[k] by {
        assert((4 * p + k) / 4 == p && (4 * p + k) % 4 == k);
    }
    assert(packed_level(samples).subrange(4 * p, 4 * p + 4) =~= le_bytes(pixel_word(samples, p)));
}

/// The packed form of every level of an image.
pub open spec fn packed_levels(image: DecodedImage) -> Seq<Seq<u8>> {
    Seq::new(image.mip_levels@.len(), |i: int| packed_level(image.mip_levels@[i]@))
}

/// Encodes a decoded image as a packed texture with the same extents and
/// the same number of mip levels.
pub fn encode(image: &DecodedImage) -> (texture: PackedTexture)
    requires
        image.well_formed(),
    ensures
        texture.width == image.width,
        texture.height == image.height,
        texture.mip_count == image.mip_levels@.len(),
        texture.levels@.len() == image.mip_levels@.len(),
        forall|i: int|
            0 <= i < texture.levels@.len() ==> (#[trigger] texture.levels@[i])@ == packed_level(
                image.mip_levels@[i]@,
            ),
        texture.well_formed(),
{
    let count: usize = image.mip_levels.len();
    let mut levels: Vec<Vec<u8>> = Vec::new();
    let mut i: usize = 0;
    while i < count
        invariant
            i <= count,
            count == image.mip_levels@.len(),
            levels@.len() == i,
            forall|j: int|
                0 <= j < i ==> (#[trigger] levels@[j])@ == packed_level(image.mip_levels@[j]@),
        decreases count - i,
    {
        let bytes = encode_level(&image.mip_levels[i]);
        levels.push(bytes);
        i = i + 1;
    }
    assert forall|j: int| 0 <= j < levels@.len() implies (#[trigger] levels@[j])@.len()
        == level_len(image.width, image.height, j as nat) by {
        assert(image.mip_levels@[j]@.len() == level_len(image.width, image.height, j as nat));
    }
    PackedTexture { width: image.width, height: image.height, mip_count: count as u32, levels }
}

} // verus!
