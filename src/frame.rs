//! RGBA frames as the stitcher and the capture session hold them.
use vstd::prelude::*;
use crate::overlap::is_rgba;

verus! {

/// An image as raw pixels: `height` rows of `width` pixels, four bytes per
/// pixel (red, green, blue, premultiplied alpha), top row first.
pub struct RgbaImage {
    pub width: usize,
    pub height: usize,
    pub data: Vec<u8>,
}

impl RgbaImage {
    /// The buffer holds exactly `width * height` pixels, a byte count that an
    /// address can span.
    pub open spec fn wf(&self) -> bool {
        &&& is_rgba(self.data@, self.width as nat, self.height as nat)
        &&& self.width * self.height * 4 <= usize::MAX
    }

    /// Whether the buffer holds exactly `width * height` pixels.
    pub fn is_well_formed(&self) -> (r: bool)
        ensures
            r == self.wf(),
    {
        let n = self.data.len();
        match self.width.checked_mul(self.height) {
            None => false,
            Some(px) => match px.checked_mul(4) {
                None => false,
                Some(m) => m == n,
            },
        }
    }
}

} // verus!
