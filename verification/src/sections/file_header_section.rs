use vstd::prelude::*;

verus! {

/// The format version from the file header: 1 for a PSD, 2 for a PSB
/// (Large Document Format).
#[derive(Debug, Clone, Copy, PartialEq, Eq)]
pub enum PsdVersion {
    One,
    Two,
}

impl PsdVersion {
    /// Width in bytes of one entry of the RLE scanline byte-count table.
    pub open spec fn spec_rle_scanline_len_bytes(self) -> int {
        match self {
            PsdVersion::One => 2,
            PsdVersion::Two => 4,
        }
    }

    /// Whether this is a PSB (Large Document Format) file.
    pub fn is_psb(&self) -> (res: bool)
        ensures
            res <==> *self is Two,
    {
        match self {
            PsdVersion::One => false,
            PsdVersion::Two => true,
        }
    }

    /// Each RLE scanline byte count is stored in 2 bytes in a PSD and 4 bytes in a PSB.
    pub fn rle_scanline_len_bytes(&self) -> (res: usize)
        ensures
            res == self.spec_rle_scanline_len_bytes(),
            res == 2 || res == 4,
    {
        match self {
            PsdVersion::One => 2,
            PsdVersion::Two => 4,
        }
    }
}

} // verus!
