//! Raw sample data: from the bytes that an image holds to the binary32
//! patterns that the encoder works on.

use vstd::prelude::*;
use crate::binary16::{widen, widens};
use crate::endian::{value16, value32};

verus! {

/// How the samples of an image are stored.
#[derive(Debug, Clone, Copy, PartialEq, Eq, Structural)]
pub enum SampleFormat {
    /// Little-endian binary16, two bytes for every sample.
    Half,
    /// Little-endian binary32, four bytes for every sample.
    Single,
}

/// The number of bytes that one sample takes.
pub open spec fn sample_width(format: SampleFormat) -> nat {
    match format {
        SampleFormat::Half => 2,
        SampleFormat::Single => 4,
    }
}

/// `bits` is the binary32 pattern of the sample that `bytes` hold.
pub open spec fn is_sample(format: SampleFormat, bytes: Seq<u8>, bits: u32) -> bool {
    match format {
        SampleFormat::Half => widens(value16(bytes) as u16, bits),
        SampleFormat::Single => bits == value32(bytes),
    }
}

/// Reads the samples that `data` holds, or nothing if `data` does not end
/// with a whole sample.
pub fn samples_from_bytes(format: SampleFormat, data: &Vec<u8>) -> (samples: Option<Vec<u32>>)
    ensures
        match samples {
            Some(samples) => {
                &&& data@.len() == samples@.len() * sample_width(format)
                &&& forall|i: int|
                    0 <= i < samples@.len() ==> is_sample(
                        format,
                        data@.subrange(i * sample_width(format), (i + 1) * sample_width(format)),
                        #[trigger] samples@[i],
                    )
            },
            None => data@.len() % sample_width(format) != 0,
        },
{
    let width: usize = match format {
        SampleFormat::Half => 2,
        SampleFormat::Single => 4,
    };
    if data.len() % width != 0 {
        return None;
    }
    let count: usize = data.len() / width;
    let mut samples: Vec<u32> = Vec::new();
    let mut i: usize = 0;
    while i < count
        invariant
            i <= count,
            width == sample_width(format),
            data@.len() == count * width,
            data@.len() <= usize::MAX,
            samples@.len() == i,
            forall|j: int|
                0 <= j < i ==> is_sample(
                    format,
                    data@.subrange(j * width, (j + 1) * width),
                    #[trigger] samples@[j],
                ),
        decreases count - i,
    {
        let at: usize = i * width;
        let ghost bytes = data@.subrange(i * width, (i + 1) * width);
        let bits: u32 = match format {
            SampleFormat::Half => {
                let half: u16 = data[at] as u16 + 0x100 * (data[at + 1] as u16);
                assert(half == value16(bytes));
                widen(half)
            },
            SampleFormat::Single => {
                let bits: u32 = data[at] as u32 + 0x100 * (data[at + 1] as u32) + 0x1_0000 * (data[at
                    + 2] as u32) + 0x100_0000 * (data[at + 3] as u32);
                assert(bits == value32(bytes));
                bits
            },
        };
        samples.push(bits);
        i = i + 1;
    }
    Some(samples)
}

} // verus!
