use vstd::prelude::*;

verus! {

/// A displayable byte value for a working sample: clamped into [0, 255].
pub open spec fn clamped_byte(v: int) -> int {
    if v > 255 {
        255
    } else if v < 0 {
        0
    } else {
        v
    }
}

/// Widen a byte buffer, as it comes from a decoded image, into working
/// samples.
pub fn u8_slice_to_samples(slice: &Vec<u8>) -> (out: Vec<i64>)
    ensures
        out@.len() == slice@.len(),
        forall|i: int| 0 <= i < slice@.len() ==> #[trigger] out@[i] as int == slice@[i] as int,
{
    let mut out: Vec<i64> = Vec::new();
    let mut i: usize = 0;
    while i < slice.len()
        invariant
            i <= slice@.len(),
            out@.len() == i,
            forall|j: int| 0 <= j < i ==> #[trigger] out@[j] as int == slice@[j] as int,
        decreases slice@.len() - i,
    {
        out.push(slice[i] as i64);
        i = i + 1;
    }
    out
}

/// Narrow working samples to displayable bytes, clamping each into
/// [0, 255] on the way, ready for encoding.
pub fn samples_to_u8_slice(slice: &Vec<i64>) -> (out: Vec<u8>)
    ensures
        out@.len() == slice@.len(),
        forall|i: int| 0 <= i < slice@.len() ==> #[trigger] out@[i] as int == clamped_byte(
            slice@[i] as int),
{
    let mut out: Vec<u8> = Vec::new();
    let mut i: usize = 0;
    while i < slice.len()
        invariant
            i <= slice@.len(),
            out@.len() == i,
            forall|j: int| 0 <= j < i ==> #[trigger] out@[j] as int == clamped_byte(
                slice@[j] as int),
        decreases slice@.len() - i,
    {
        let v = crate::clamp(slice[i], 0, 255);
        out.push(v as u8);
        i = i + 1;
    }
    out
}

} // verus!
