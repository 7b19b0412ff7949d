//! Encoded image bytes, as an image codec writes them.
use vstd::prelude::*;

verus! {

/// An image already encoded in a file format such as PNG or JPEG.
pub struct RustImageBuffer(pub Vec<u8>);

impl RustImageBuffer {
    /// The encoded bytes.
    pub fn get_bytes(&self) -> (r: &[u8])
        ensures
            r@ == self.0@,
    {
        self.0.as_slice()
    }
}

/// The icon chosen among the images of an icon file whose pixel widths are
/// `widths`, scanning from the `i`-th on with the best so far: each wider
/// image replaces the best, and one at least 64 pixels wide ends the scan.
pub open spec fn largest_icon_from(widths: Seq<u32>, i: int, best: Option<int>, best_width: u32) -> Option<
    int,
>
    decreases widths.len() - i,
{
    if i < 0 || i >= widths.len() {
        best
    } else if widths[i] > best_width {
        if widths[i] >= 64 {
            Some(i)
        } else {
            largest_icon_from(widths, i + 1, Some(i), widths[i])
        }
    } else {
        largest_icon_from(widths, i + 1, best, best_width)
    }
}

/// Which image of an icon file to decode, given the images' pixel widths:
/// the first wider than all before it that is at least 64 pixels wide, else
/// the widest, the earliest of equals; `None` when no image has a width.
pub fn largest_icon_index(widths: &Vec<u32>) -> (r: Option<usize>)
    ensures
        r == (match largest_icon_from(widths@, 0, None, 0) {
            Some(k) => Some(k as usize),
            None => None::<usize>,
        }),
{
    let mut best: Option<usize> = None;
    let mut best_width: u32 = 0;
    let mut i: usize = 0;
    while i < widths.len()
        invariant
            i <= widths@.len(),
            best matches Some(b) ==> b < i,
            largest_icon_from(widths@, 0, None, 0) == largest_icon_from(
                widths@,
                i as int,
                match best {
                    Some(b) => Some(b as int),
                    None => None::<int>,
                },
                best_width,
            ),
        decreases widths@.len() - i,
    {
        let w = widths[i];
        if w > best_width {
            if w >= 64 {
                return Some(i);
            }
            best = Some(i);
            best_width = w;
        }
        i = i + 1;
    }
    best
}

} // verus!
